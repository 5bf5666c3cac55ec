use kernel_sync::checker::DeadLockChecker;

#[test]
fn fresh_checker_is_zeroed() {
    let c = DeadLockChecker::new();
    for j in 0..10 {
        assert_eq!(c.avail[j], 0);
    }
    for t in 0..10 {
        for j in 0..10 {
            assert_eq!(c.alloc[t][j], 0);
            assert_eq!(c.need[t][j], 0);
        }
    }
}

#[test]
fn empty_state_is_safe() {
    let c = DeadLockChecker::new();
    assert!(c.is_safe(10, 10));
}

#[test]
fn add_res_then_is_safe_round_trip() {
    // An unconstrained resource never blocks safety: registering capacity
    // while no thread holds or needs anything keeps the state safe.
    let mut c = DeadLockChecker::new();
    c.add_res(3, 7);
    assert!(c.is_safe(10, 10));
    c.add_res(0, 1);
    assert!(c.is_safe(4, 4));
}

#[test]
fn unneeded_resource_changes_no_verdict() {
    // Registering capacity for a resource nobody needs leaves an unsafe
    // state unsafe, just as it leaves a safe state safe.
    let mut c = DeadLockChecker::new();
    c.add_res(0, 1);
    c.add_res(1, 1);
    c.declare_need(0, 0);
    c.commit_grant(0, 0);
    c.declare_need(1, 1);
    c.commit_grant(1, 1);
    c.declare_need(0, 1);
    c.declare_need(1, 0);
    assert!(!c.is_safe(2, 3));
    c.add_res(2, 5);
    assert!(!c.is_safe(2, 3));
}

#[test]
fn single_holder_is_safe() {
    let mut c = DeadLockChecker::new();
    c.add_res(0, 1);
    c.declare_need(0, 0);
    assert!(c.is_safe(2, 1));
    c.commit_grant(0, 0);
    assert!(c.is_safe(2, 1));
}

#[test]
fn waiting_for_a_held_unit_is_safe() {
    // Thread 0 holds the single unit of resource 0; thread 1 declares a need
    // for it. Thread 0 can finish and release, then thread 1 can: safe.
    let mut c = DeadLockChecker::new();
    c.add_res(0, 1);
    c.declare_need(0, 0);
    c.commit_grant(0, 0);
    c.declare_need(1, 0);
    assert!(c.is_safe(2, 1));
}

#[test]
fn cross_holding_cycle_is_unsafe() {
    // Classic two-thread cycle: thread 0 holds resource 0 and needs resource
    // 1, thread 1 holds resource 1 and needs resource 0. Nobody can finish.
    let mut c = DeadLockChecker::new();
    c.add_res(0, 1);
    c.add_res(1, 1);
    c.declare_need(0, 0);
    c.commit_grant(0, 0);
    c.declare_need(1, 1);
    c.commit_grant(1, 1);
    c.declare_need(0, 1);
    c.declare_need(1, 0);
    assert!(!c.is_safe(2, 2));
}

#[test]
fn cycle_becomes_safe_after_release() {
    let mut c = DeadLockChecker::new();
    c.add_res(0, 1);
    c.add_res(1, 1);
    c.declare_need(0, 0);
    c.commit_grant(0, 0);
    c.declare_need(1, 1);
    c.commit_grant(1, 1);
    c.declare_need(0, 1);
    c.declare_need(1, 0);
    assert!(!c.is_safe(2, 2));
    // Thread 1 gives its unit of resource 1 back: the cycle is broken.
    c.recycle_res(1, 1);
    assert!(c.is_safe(2, 2));
}

#[test]
fn need_beyond_capacity_is_unsafe() {
    let mut c = DeadLockChecker::new();
    c.add_res(0, 1);
    c.declare_need(0, 0);
    c.declare_need(0, 0);
    assert!(!c.is_safe(1, 1));
}

#[test]
fn recycle_restores_avail_after_grant() {
    // One release per granted unit restores the available pool exactly.
    let mut c = DeadLockChecker::new();
    c.add_res(2, 3);
    assert_eq!(c.avail[2], 3);
    c.declare_need(1, 2);
    c.commit_grant(1, 2);
    assert_eq!(c.avail[2], 2);
    assert_eq!(c.alloc[1][2], 1);
    c.recycle_res(1, 2);
    assert_eq!(c.avail[2], 3);
    assert_eq!(c.alloc[1][2], 0);
}

#[test]
fn partial_thread_and_resource_counts() {
    // Only the first thread_count threads and res_count resources matter.
    let mut c = DeadLockChecker::new();
    c.add_res(0, 1);
    c.add_res(1, 1);
    c.declare_need(0, 0);
    c.commit_grant(0, 0);
    c.declare_need(1, 1);
    c.commit_grant(1, 1);
    c.declare_need(0, 1);
    c.declare_need(1, 0);
    // With only thread 0 considered, thread 1's stuck need is invisible but
    // thread 0 still cannot finish.
    assert!(!c.is_safe(1, 2));
    // With only resource 0 considered, thread 0's need for resource 1 is
    // ignored, so both threads can finish.
    assert!(c.is_safe(2, 1));
}
