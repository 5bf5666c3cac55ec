use kernel_sync::primitives::{
    Condvar, LockAttempt, Mutex, MutexBlocking, MutexSpin, Semaphore,
};

#[test]
fn spin_mutex_lock_and_unlock() {
    let mut m = MutexSpin::new();
    assert!(!m.locked);
    assert_eq!(m.lock(), LockAttempt::Acquired);
    assert!(m.locked);
    assert_eq!(m.lock(), LockAttempt::MustSpin);
    m.unlock();
    assert!(!m.locked);
    assert_eq!(m.lock(), LockAttempt::Acquired);
}

#[test]
fn blocking_mutex_queues_and_transfers() {
    let mut m = MutexBlocking::new();
    assert_eq!(m.lock(4), LockAttempt::Acquired);
    assert_eq!(m.lock(5), LockAttempt::Enqueued);
    assert_eq!(m.lock(6), LockAttempt::Enqueued);
    assert_eq!(m.wait_queue, vec![5, 6]);
    // Ownership passes to the head in arrival order; the flag stays set.
    assert_eq!(m.unlock(), Some(5));
    assert!(m.locked);
    assert_eq!(m.unlock(), Some(6));
    assert!(m.locked);
    assert_eq!(m.unlock(), None);
    assert!(!m.locked);
}

#[test]
fn mutex_variants_share_one_capability() {
    let mut spin = Mutex::new(false);
    let mut blocking = Mutex::new(true);
    assert_eq!(spin.lock(0), LockAttempt::Acquired);
    assert_eq!(spin.lock(1), LockAttempt::MustSpin);
    assert_eq!(spin.unlock(), None);
    assert_eq!(blocking.lock(0), LockAttempt::Acquired);
    assert_eq!(blocking.lock(1), LockAttempt::Enqueued);
    assert_eq!(blocking.unlock(), Some(1));
}

#[test]
fn semaphore_counts_queued_threads_negatively() {
    let mut s = Semaphore::new(1);
    assert_eq!(s.count, 1);
    assert!(!s.down(7));
    assert_eq!(s.count, 0);
    assert!(s.down(8));
    assert_eq!(s.count, -1);
    assert!(s.down(9));
    assert_eq!(s.count, -2);
    assert_eq!(s.wait_queue, vec![8, 9]);
    assert_eq!(s.up(), Some(8));
    assert_eq!(s.up(), Some(9));
    assert_eq!(s.count, 0);
    assert_eq!(s.up(), None);
    assert_eq!(s.count, 1);
}

#[test]
fn condvar_signals_in_arrival_order() {
    let mut cv = Condvar::new();
    let mut m = Mutex::new(true);
    assert_eq!(m.lock(0), LockAttempt::Acquired);
    assert_eq!(cv.wait(0, &mut m), None);
    // The wait released the mutex: the next acquisition succeeds at once.
    assert_eq!(m.lock(1), LockAttempt::Acquired);
    assert_eq!(cv.wait(1, &mut m), None);
    assert_eq!(cv.signal(), Some(0));
    assert_eq!(cv.signal(), Some(1));
    assert_eq!(cv.signal(), None);
}
