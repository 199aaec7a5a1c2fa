use vstd::prelude::*;

verus! {

/// Entry point a fiber is bound to: the address of the routine it will run
/// and one argument word handed to that routine.
#[derive(Clone, Copy, Debug, PartialEq, Eq, Structural)]
pub struct Start {
    pub entry: usize,
    pub argument: usize,
}

/// One stackful execution context as the pool sees it: its stack is retained
/// between uses, and only the entry point it is bound to changes.
///
/// A fiber is either idle, sitting in the pool, or has exactly one active
/// user; ownership enforces that exclusivity.
#[derive(Debug, PartialEq, Eq, Structural)]
pub struct Fiber {
    start: Start,
}

impl Fiber {
    /// Spec view of the entry point this fiber is bound to.
    pub closed spec fn spec_start(&self) -> Start {
        self.start
    }

    /// Allocate a fresh fiber bound to `start`.
    pub fn new(start: Start) -> (r: Fiber)
        ensures
            r.spec_start() == start,
    {
        Fiber { start }
    }

    /// Rebind an idle fiber to a new entry point, keeping its stack.
    pub fn set_start(&mut self, start: Start)
        ensures
            final(self).spec_start() == start,
    {
        self.start = start;
    }

    /// The entry point this fiber is bound to.
    pub fn start(&self) -> (r: Start)
        ensures
            r == self.spec_start(),
    {
        self.start
    }
}

/// Number of idle fibers worth retaining while `count` fibers are active:
/// a fifth of the load plus a fixed floor, so idle memory tracks demand
/// without churning allocations at low concurrency.
pub open spec fn ideal_idle(count: u64) -> int {
    count * 20 / 100 + 16
}

/// Process-wide cache of idle fibers plus the count of active ones.
///
/// The caller provides mutual exclusion (the exclusive reference stands for
/// the single lock guarding the process-wide instance); no blocking work
/// happens while the pool is held.
pub struct Pool {
    pool: Vec<Fiber>,
    count: u64,
}

impl Pool {
    /// Spec view of the idle fibers, oldest first.
    pub closed spec fn idle(&self) -> Seq<Fiber> {
        self.pool@
    }

    /// Spec view of the active-fiber counter.
    pub closed spec fn active(&self) -> u64 {
        self.count
    }

    /// Number of currently active fibers.
    pub fn active_count(&self) -> (r: u64)
        ensures
            r == self.active(),
    {
        self.count
    }

    /// Number of idle fibers currently retained.
    pub fn idle_count(&self) -> (r: usize)
        ensures
            r == self.idle().len(),
    {
        self.pool.len()
    }

    /// An empty pool with no active fibers.
    pub fn new() -> (r: Pool)
        ensures
            r.active() == 0,
            r.idle() == Seq::<Fiber>::empty(),
    {
        Pool { pool: Vec::new(), count: 0 }
    }

    /// Obtain a fiber bound to `start`: reuse the most recently retired idle
    /// fiber when one exists, else allocate a fresh one. Counts one more
    /// active fiber either way.
    pub fn new_fiber(&mut self, start: Start) -> (r: Fiber)
        requires
            old(self).active() < u64::MAX,
        ensures
            final(self).active() == old(self).active() + 1,
            r.spec_start() == start,
            old(self).idle().len() > 0 ==> final(self).idle() == old(self).idle().drop_last(),
            old(self).idle().len() == 0 ==> final(self).idle() == old(self).idle(),
    {
        self.count = self.count + 1;

        match self.pool.pop() {
            None => Fiber::new(start),
            Some(mut fiber) => {
                fiber.set_start(start);
                fiber
            },
        }
    }

    /// The retention bound for a given active count.
    pub fn calculate_ideal(count: u64) -> (r: u64)
        ensures
            r == ideal_idle(count),
    {
        let scaled: u64 = ((count as u128) * 20 / 100) as u64;
        scaled + 16
    }

    /// Retire a fiber: count one fewer active fiber, then keep the fiber for
    /// reuse only while the idle pool is below the retention bound for the
    /// new count.
    pub fn exit_fiber(&mut self, fiber: Fiber)
        requires
            old(self).active() >= 1,
        ensures
            final(self).active() == old(self).active() - 1,
            old(self).idle().len() < ideal_idle((old(self).active() - 1) as u64)
                ==> final(self).idle() == old(self).idle().push(fiber),
            old(self).idle().len() >= ideal_idle((old(self).active() - 1) as u64)
                ==> final(self).idle() == old(self).idle(),
            // A pool within the retention bound for the new count beforehand
            // stays within it afterwards.
            old(self).idle().len() <= ideal_idle((old(self).active() - 1) as u64)
                ==> final(self).idle().len() <= ideal_idle(final(self).active()),
    {
        self.count = self.count - 1;

        let ideal = Self::calculate_ideal(self.count);

        if (self.pool.len() as u64) < ideal {
            self.pool.push(fiber);
        }
    }
}

/// One step of the pool's lifecycle, as seen by the active counter.
pub enum PoolOp {
    NewFiber,
    ExitFiber,
}

/// How many of the operations create a fiber.
pub open spec fn count_new(ops: Seq<PoolOp>) -> int
    decreases ops.len(),
{
    if ops.len() == 0 {
        0
    } else {
        count_new(ops.drop_last()) + if ops.last() is NewFiber {
            1int
        } else {
            0int
        }
    }
}

/// How many of the operations retire a fiber.
pub open spec fn count_exit(ops: Seq<PoolOp>) -> int
    decreases ops.len(),
{
    if ops.len() == 0 {
        0
    } else {
        count_exit(ops.drop_last()) + if ops.last() is ExitFiber {
            1int
        } else {
            0int
        }
    }
}

/// The active counter after applying the operations in order to a pool that
/// starts with no active fibers: `new_fiber` adds one, `exit_fiber` removes
/// one, exactly as the two methods' contracts state.
pub open spec fn counter_after(ops: Seq<PoolOp>) -> int
    decreases ops.len(),
{
    if ops.len() == 0 {
        0
    } else {
        counter_after(ops.drop_last()) + if ops.last() is NewFiber {
            1int
        } else {
            -1int
        }
    }
}

/// A sequence of calls is admissible when no prefix retires more fibers than
/// were created before it; `exit_fiber` requires an active fiber, so these
/// are exactly the call sequences that can happen.
pub open spec fn admissible(ops: Seq<PoolOp>) -> bool {
    forall|i: int| 0 <= i <= ops.len() ==> count_exit(#[trigger] ops.take(i)) <= count_new(ops.take(i))
}

/// For every admissible sequence of `new_fiber` and `exit_fiber` calls on a
/// pool that starts empty, the active counter equals the number of
/// `new_fiber` calls minus the number of `exit_fiber` calls, and it never
/// goes negative.
pub proof fn lemma_active_counter(ops: Seq<PoolOp>)
    ensures
        counter_after(ops) == count_new(ops) - count_exit(ops),
        admissible(ops) ==> counter_after(ops) >= 0,
    decreases ops.len(),
{
    if ops.len() == 0 {
    } else {
        lemma_active_counter(ops.drop_last());
        if admissible(ops) {
            assert forall|i: int| 0 <= i <= ops.drop_last().len() implies count_exit(
                #[trigger] ops.drop_last().take(i),
            ) <= count_new(ops.drop_last().take(i)) by {
                assert(ops.drop_last().take(i) =~= ops.take(i));
            }
            assert(ops.take(ops.len() as int) =~= ops);
        }
    }
}

} // verus!
