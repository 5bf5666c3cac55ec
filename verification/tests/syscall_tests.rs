use kernel_sync::primitives::SchedAction;
use kernel_sync::syscalls::{
    sys_condvar_create, sys_condvar_signal, sys_condvar_wait, sys_enable_deadlock_detect,
    sys_mutex_create, sys_mutex_lock, sys_mutex_lock_resumed, sys_mutex_lock_retry,
    sys_mutex_unlock, sys_semaphore_create, sys_semaphore_down, sys_semaphore_up, sys_sleep,
    ProcState, CAPACITY_ERR, DEADLOCK_ERR,
};

#[test]
fn sleep_reports_absolute_expiry() {
    let (ret, action) = sys_sleep(100, 250);
    assert_eq!(ret, 0);
    assert_eq!(action, SchedAction::SleepUntil { expire_ms: 350 });
}

#[test]
fn enable_and_disable_detection() {
    let mut p = ProcState::new(2);
    assert!(p.mutex_checker.is_none());
    assert_eq!(sys_enable_deadlock_detect(&mut p, 1), 0);
    assert!(p.mutex_checker.is_some());
    assert!(p.semaphore_checker.is_some());
    assert_eq!(sys_enable_deadlock_detect(&mut p, 0), 0);
    assert!(p.mutex_checker.is_none());
    assert!(p.semaphore_checker.is_none());
}

#[test]
fn create_assigns_increasing_ids() {
    let mut p = ProcState::new(2);
    assert_eq!(sys_mutex_create(&mut p, true), 0);
    assert_eq!(sys_mutex_create(&mut p, false), 1);
    assert_eq!(sys_semaphore_create(&mut p, 4), 0);
    assert_eq!(sys_condvar_create(&mut p), 0);
    assert_eq!(sys_condvar_create(&mut p), 1);
}

#[test]
fn freed_slot_is_reused_without_growing() {
    let mut p = ProcState::new(2);
    assert_eq!(sys_condvar_create(&mut p), 0);
    assert_eq!(sys_condvar_create(&mut p), 1);
    assert_eq!(sys_condvar_create(&mut p), 2);
    assert_eq!(p.condvar_list.len(), 3);
    // Discard the middle condvar: the next creation reuses its id and the
    // table does not grow.
    p.condvar_list[1] = None;
    assert_eq!(sys_condvar_create(&mut p), 1);
    assert_eq!(p.condvar_list.len(), 3);
}

#[test]
fn mutex_table_full_is_refused() {
    let mut p = ProcState::new(2);
    for want in 0..10 {
        assert_eq!(sys_mutex_create(&mut p, true), want);
    }
    assert_eq!(sys_mutex_create(&mut p, true), CAPACITY_ERR);
}

#[test]
fn uncontended_lock_and_unlock() {
    let mut p = ProcState::new(2);
    let id = sys_mutex_create(&mut p, true) as usize;
    let (ret, action) = sys_mutex_lock(&mut p, 0, id);
    assert_eq!(ret, 0);
    assert_eq!(action, SchedAction::Proceed);
    let (ret2, action2) = sys_mutex_unlock(&mut p, 0, id);
    assert_eq!(ret2, 0);
    assert_eq!(action2, SchedAction::Proceed);
}

#[test]
fn contended_blocking_lock_transfers_ownership() {
    let mut p = ProcState::new(2);
    let id = sys_mutex_create(&mut p, true) as usize;
    let (r0, a0) = sys_mutex_lock(&mut p, 0, id);
    assert_eq!((r0, a0), (0, SchedAction::Proceed));
    // Thread 1 finds the mutex held and suspends.
    let (r1, a1) = sys_mutex_lock(&mut p, 1, id);
    assert_eq!((r1, a1), (0, SchedAction::Block));
    // Unlock hands ownership to the queue head, which must be woken.
    let (r2, a2) = sys_mutex_unlock(&mut p, 0, id);
    assert_eq!(r2, 0);
    assert_eq!(a2, SchedAction::Wake { tid: 1 });
}

#[test]
fn waiting_on_held_mutex_blocks_instead_of_denying() {
    // With detection enabled, a second thread asking for a held mutex is
    // safe — the holder will eventually release — so the request blocks
    // rather than returning the deadlock error.
    let mut p = ProcState::new(2);
    assert_eq!(sys_enable_deadlock_detect(&mut p, 1), 0);
    let id = sys_mutex_create(&mut p, true) as usize;
    let (r0, a0) = sys_mutex_lock(&mut p, 0, id);
    assert_eq!((r0, a0), (0, SchedAction::Proceed));
    let (r1, a1) = sys_mutex_lock(&mut p, 1, id);
    assert_eq!(r1, 0);
    assert_eq!(a1, SchedAction::Block);
}

#[test]
fn cross_acquisition_is_denied() {
    // Classic two-lock crossing: thread 0 holds mutex 0 and is suspended
    // waiting for mutex 1, which thread 1 holds. When thread 1 then asks for
    // mutex 0 the checker must deny rather than let both block forever.
    let mut p = ProcState::new(2);
    assert_eq!(sys_enable_deadlock_detect(&mut p, 1), 0);
    let m0 = sys_mutex_create(&mut p, true) as usize;
    let m1 = sys_mutex_create(&mut p, true) as usize;
    assert_eq!(sys_mutex_lock(&mut p, 0, m0), (0, SchedAction::Proceed));
    assert_eq!(sys_mutex_lock(&mut p, 1, m1), (0, SchedAction::Proceed));
    // Thread 0 requests mutex 1: safe (thread 1 can still finish), so it
    // suspends with its need declared.
    let (r0, a0) = sys_mutex_lock(&mut p, 0, m1);
    assert_eq!((r0, a0), (0, SchedAction::Block));
    // Thread 1 requests mutex 0: granting would close the cycle.
    let (r1, a1) = sys_mutex_lock(&mut p, 1, m0);
    assert_eq!(r1, DEADLOCK_ERR);
    assert_eq!(r1, -0xDEAD);
    assert_eq!(a1, SchedAction::Proceed);
}

#[test]
fn denied_request_is_rolled_back() {
    // After a denial the declared intent is rolled back, so the same thread
    // can still acquire the resource once the conflict is gone.
    let mut p = ProcState::new(2);
    assert_eq!(sys_enable_deadlock_detect(&mut p, 1), 0);
    let m0 = sys_mutex_create(&mut p, true) as usize;
    let m1 = sys_mutex_create(&mut p, true) as usize;
    assert_eq!(sys_mutex_lock(&mut p, 0, m0), (0, SchedAction::Proceed));
    assert_eq!(sys_mutex_lock(&mut p, 1, m1), (0, SchedAction::Proceed));
    assert_eq!(sys_mutex_lock(&mut p, 0, m1), (0, SchedAction::Block));
    let (r1, _) = sys_mutex_lock(&mut p, 1, m0);
    assert_eq!(r1, DEADLOCK_ERR);
    let c = p.mutex_checker.as_ref().unwrap();
    assert_eq!(c.need[1][m0], 0);
    // Thread 1 releases its own mutex; the suspended thread 0 is woken and
    // commits its acquisition of mutex 1.
    let (r2, a2) = sys_mutex_unlock(&mut p, 1, m1);
    assert_eq!(r2, 0);
    assert_eq!(a2, SchedAction::Wake { tid: 0 });
    assert_eq!(sys_mutex_lock_resumed(&mut p, 0, m1), 0);
    // Now the same request that was denied succeeds.
    let (r3, a3) = sys_mutex_lock(&mut p, 1, m0);
    assert_eq!((r3, a3), (0, SchedAction::Block));
}

#[test]
fn semaphore_two_units_three_downs() {
    // Semaphore created with count 2; three downs from three distinct
    // threads with detection disabled: exactly two proceed at once, the
    // third suspends until an up.
    let mut p = ProcState::new(3);
    let s = sys_semaphore_create(&mut p, 2) as usize;
    assert_eq!(sys_semaphore_down(&mut p, 0, s), (0, SchedAction::Proceed));
    assert_eq!(sys_semaphore_down(&mut p, 1, s), (0, SchedAction::Proceed));
    let (r2, a2) = sys_semaphore_down(&mut p, 2, s);
    assert_eq!(r2, 0);
    assert_eq!(a2, SchedAction::Block);
    // An up wakes the suspended third thread.
    let (r3, a3) = sys_semaphore_up(&mut p, 0, s);
    assert_eq!(r3, 0);
    assert_eq!(a3, SchedAction::Wake { tid: 2 });
}

#[test]
fn semaphore_zero_count_blocks_first_down() {
    let mut p = ProcState::new(2);
    let s = sys_semaphore_create(&mut p, 0) as usize;
    let (r, a) = sys_semaphore_down(&mut p, 0, s);
    assert_eq!(r, 0);
    assert_eq!(a, SchedAction::Block);
}

#[test]
fn condvar_wait_releases_lock_and_signal_wakes() {
    let mut p = ProcState::new(2);
    let m = sys_mutex_create(&mut p, true) as usize;
    let cv = sys_condvar_create(&mut p) as usize;
    assert_eq!(sys_mutex_lock(&mut p, 0, m), (0, SchedAction::Proceed));
    // Waiting enqueues the caller and releases the lock (no other thread is
    // queued on it, so nobody is woken alongside).
    let (r0, a0) = sys_condvar_wait(&mut p, 0, cv, m);
    assert_eq!(r0, 0);
    assert_eq!(a0, SchedAction::Block);
    // The lock is free again: another thread can take it at once.
    assert_eq!(sys_mutex_lock(&mut p, 1, m), (0, SchedAction::Proceed));
    // Signal wakes exactly the one waiter.
    let (r1, a1) = sys_condvar_signal(&mut p, cv);
    assert_eq!(r1, 0);
    assert_eq!(a1, SchedAction::Wake { tid: 0 });
    // A second signal finds nobody.
    let (r2, a2) = sys_condvar_signal(&mut p, cv);
    assert_eq!(r2, 0);
    assert_eq!(a2, SchedAction::Proceed);
}

#[test]
fn condvar_wait_passes_lock_to_queued_thread() {
    let mut p = ProcState::new(3);
    let m = sys_mutex_create(&mut p, true) as usize;
    let cv = sys_condvar_create(&mut p) as usize;
    assert_eq!(sys_mutex_lock(&mut p, 0, m), (0, SchedAction::Proceed));
    assert_eq!(sys_mutex_lock(&mut p, 1, m), (0, SchedAction::Block));
    // Thread 0 waits on the condition: releasing the mutex hands it to the
    // queued thread 1, which must be woken while thread 0 suspends.
    let (r, a) = sys_condvar_wait(&mut p, 0, cv, m);
    assert_eq!(r, 0);
    assert_eq!(a, SchedAction::WakeAndBlock { woken: 1 });
}

#[test]
fn spin_retry_commits_after_release() {
    // A thread spinning on a busy-waiting mutex keeps its need declared;
    // once the holder releases, the retry acquires and commits the grant.
    let mut p = ProcState::new(2);
    assert_eq!(sys_enable_deadlock_detect(&mut p, 1), 0);
    let m = sys_mutex_create(&mut p, false) as usize;
    assert_eq!(sys_mutex_lock(&mut p, 0, m), (0, SchedAction::Proceed));
    assert_eq!(sys_mutex_lock(&mut p, 1, m), (0, SchedAction::Retry));
    // Still held: the retry spins on.
    assert_eq!(sys_mutex_lock_retry(&mut p, 1, m), (0, SchedAction::Retry));
    assert_eq!(sys_mutex_unlock(&mut p, 0, m), (0, SchedAction::Proceed));
    assert_eq!(sys_mutex_lock_retry(&mut p, 1, m), (0, SchedAction::Proceed));
    let c = p.mutex_checker.as_ref().unwrap();
    assert_eq!(c.alloc[1][m], 1);
    assert_eq!(c.need[1][m], 0);
}

#[test]
fn spin_mutex_asks_for_retry() {
    let mut p = ProcState::new(2);
    let m = sys_mutex_create(&mut p, false) as usize;
    assert_eq!(sys_mutex_lock(&mut p, 0, m), (0, SchedAction::Proceed));
    let (r, a) = sys_mutex_lock(&mut p, 1, m);
    assert_eq!(r, 0);
    assert_eq!(a, SchedAction::Retry);
}
