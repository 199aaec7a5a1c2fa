use vstd::prelude::*;

verus! {

/// Failure conditions surfaced by the runtime's I/O layer.
///
/// End-of-stream is not an error: a single-shot read or write reporting zero
/// bytes terminates composite loops without raising anything.
#[derive(Clone, Copy, Debug, PartialEq, Eq, Structural)]
pub enum Error {
    /// The cooperative cancellation signal was observed before the operation
    /// made any progress.
    Interrupted,
    /// An opaque code passed through unchanged from the operating system or
    /// the underlying resource.
    Os(i32),
}

impl Error {
    /// Whether this error is the cooperative cancellation signal.
    pub fn is_interrupted(&self) -> (r: bool)
        ensures
            r == (*self == Error::Interrupted),
    {
        matches!(self, Error::Interrupted)
    }
}

} // verus!
