use xx_core::fiber::{Fiber, Pool, Start};

fn start(entry: usize) -> Start {
    Start { entry, argument: 0 }
}

#[test]
fn new_pool_is_empty() {
    let pool = Pool::new();
    assert_eq!(pool.active_count(), 0);
    assert_eq!(pool.idle_count(), 0);
}

#[test]
fn new_fiber_binds_entry_point() {
    let mut pool = Pool::new();
    let fiber = pool.new_fiber(start(7));
    assert_eq!(pool.active_count(), 1);
    assert_eq!(fiber.start(), start(7));
}

#[test]
fn counter_tracks_new_minus_exit() {
    let mut pool = Pool::new();
    let mut fibers: Vec<Fiber> = Vec::new();
    for i in 0..5 {
        fibers.push(pool.new_fiber(start(i)));
        assert_eq!(pool.active_count(), (i + 1) as u64);
    }
    let mut expected: u64 = 5;
    while let Some(fiber) = fibers.pop() {
        pool.exit_fiber(fiber);
        expected -= 1;
        assert_eq!(pool.active_count(), expected);
    }
    assert_eq!(pool.active_count(), 0);
}

#[test]
fn five_fibers_all_retained() {
    // Starting from an empty pool, five creations then five retirements: the
    // retention bound is at least sixteen at every step, so every fiber is
    // kept for reuse.
    let mut pool = Pool::new();
    let mut fibers: Vec<Fiber> = Vec::new();
    for i in 0..5 {
        fibers.push(pool.new_fiber(start(i)));
    }
    assert_eq!(pool.active_count(), 5);
    let mut retained: usize = 0;
    while let Some(fiber) = fibers.pop() {
        pool.exit_fiber(fiber);
        retained += 1;
        assert_eq!(pool.idle_count(), retained);
    }
    assert_eq!(pool.active_count(), 0);
    assert_eq!(pool.idle_count(), 5);
}

#[test]
fn reuse_pops_idle_fiber() {
    let mut pool = Pool::new();
    let fiber = pool.new_fiber(start(1));
    pool.exit_fiber(fiber);
    assert_eq!(pool.idle_count(), 1);

    let reused = pool.new_fiber(start(2));
    assert_eq!(pool.idle_count(), 0);
    assert_eq!(reused.start(), start(2));
}

#[test]
fn calculate_ideal_values() {
    assert_eq!(Pool::calculate_ideal(0), 16);
    assert_eq!(Pool::calculate_ideal(4), 16);
    assert_eq!(Pool::calculate_ideal(5), 17);
    assert_eq!(Pool::calculate_ideal(100), 36);
    assert_eq!(Pool::calculate_ideal(u64::MAX), u64::MAX / 5 + 16);
}

#[test]
fn idle_pool_bounded_after_exit() {
    // Twenty creations then twenty retirements: the pool keeps retiring
    // fibers only while below the bound, so exactly sixteen stay idle.
    let mut pool = Pool::new();
    let mut fibers: Vec<Fiber> = Vec::new();
    for i in 0..20 {
        fibers.push(pool.new_fiber(start(i)));
    }
    while let Some(fiber) = fibers.pop() {
        pool.exit_fiber(fiber);
        let bound = Pool::calculate_ideal(pool.active_count());
        assert!((pool.idle_count() as u64) <= bound);
    }
    assert_eq!(pool.idle_count(), 16);
}
