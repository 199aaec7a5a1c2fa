use vstd::prelude::*;

use crate::error::Error;

verus! {

/// Ambient execution capability for one chain of suspension.
///
/// A context is handed down by exclusive reference through every suspension
/// point; the reference plays the role of a non-owning handle. It is never
/// shared by two fibers at once: it follows the single chain of nested
/// `run` calls.
pub struct Context {
    cancel_requested: bool,
}

impl Context {
    /// Whether cancellation has been requested on this chain of execution.
    pub closed spec fn interrupted(&self) -> bool {
        self.cancel_requested
    }

    /// A fresh context on which no cancellation has been requested.
    pub fn new() -> (r: Context)
        ensures
            !r.interrupted(),
    {
        Context { cancel_requested: false }
    }

    /// Request cooperative cancellation.
    ///
    /// Only a flag is set; nothing is unwound. Code observes the request by
    /// polling `is_interrupted` or `check_interrupt`, and the flag is sticky:
    /// once set, every later poll reports it.
    pub fn request_interrupt(&mut self)
        ensures
            final(self).interrupted(),
    {
        self.cancel_requested = true;
    }

    /// Non-failing probe of the cancellation flag.
    pub fn is_interrupted(&self) -> (r: bool)
        ensures
            r == self.interrupted(),
    {
        self.cancel_requested
    }

    /// Failing probe: reports `Interrupted` exactly when cancellation has
    /// been requested.
    pub fn check_interrupt(&self) -> (r: Result<(), Error>)
        ensures
            r is Ok <==> !self.interrupted(),
            r matches Err(e) ==> e == Error::Interrupted,
    {
        if self.cancel_requested {
            Err(Error::Interrupted)
        } else {
            Ok(())
        }
    }

    /// Run a nested task to completion and hand its result back.
    ///
    /// This is the suspension point of the protocol: the caller's local state
    /// survives on its own call stack while the nested task runs, and the
    /// caller observes the result only once the task has fully completed.
    pub fn run<T: Task>(&mut self, task: T) -> (r: T::Output)
        ensures
            old(self).interrupted() ==> final(self).interrupted(),
    {
        task.run(self)
    }

    /// Drive a task synchronously from outside the suspension protocol, for
    /// example from a process entry point.
    pub fn block_on<T: Task>(&mut self, task: T) -> (r: T::Output)
        ensures
            old(self).interrupted() ==> final(self).interrupted(),
    {
        task.run(self)
    }
}

/// A one-shot suspendable computation.
///
/// A task is consumed exactly once by `run`; it cannot be run again. Running
/// it may recursively run nested tasks through the same context.
pub trait Task: Sized {
    type Output;

    /// Consume the task and run it to completion on the given context.
    ///
    /// Cancellation is sticky across every task: once the context reports an
    /// interrupt, it keeps reporting it.
    fn run(self, context: &mut Context) -> (r: Self::Output)
        ensures
            old(context).interrupted() ==> final(context).interrupted(),
    ;
}

/// Adapter that enters the suspension protocol from non-task code: running it
/// simply blocks on the inner task.
pub struct BlockOn<T: Task> {
    pub task: T,
}

impl<T: Task> Task for BlockOn<T> {
    type Output = T::Output;

    fn run(self, context: &mut Context) -> (r: T::Output) {
        context.block_on(self.task)
    }
}

/// Pin a value to its task interface, leaving it unchanged.
pub fn as_task<T: Task>(task: T) -> (r: T)
    ensures
        r == task,
{
    task
}

} // verus!
