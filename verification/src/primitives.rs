//! Lock, semaphore, and condition-variable primitives, modeled as explicit
//! state machines. Suspension and wakeup are not performed here: each
//! operation records the queue change and reports what the scheduler must do
//! (retry, suspend the caller, or make a named thread runnable), keeping the
//! suspend/resume contract explicit and testable.

use vstd::prelude::*;

verus! {

/// What the caller of a primitive operation must ask the scheduler to do.
#[derive(Clone, Copy, Debug, PartialEq, Eq, Structural)]
pub enum SchedAction {
    /// Return to the caller at once; nothing to schedule.
    Proceed,
    /// The busy-waiting lock is held: yield and retry the acquisition.
    Retry,
    /// Suspend the calling thread until another operation wakes it.
    Block,
    /// Make the named thread runnable.
    Wake { tid: usize },
    /// Make the named thread runnable, then suspend the calling thread.
    WakeAndBlock { woken: usize },
    /// Suspend the calling thread until the given absolute time.
    SleepUntil { expire_ms: usize },
}

/// Outcome of one lock-acquisition attempt.
#[derive(Clone, Copy, Debug, PartialEq, Eq, Structural)]
pub enum LockAttempt {
    /// The flag was clear: the caller now holds the lock.
    Acquired,
    /// Held, busy-waiting variant: the caller must yield and retry.
    MustSpin,
    /// Held, blocking variant: the caller was enqueued and must suspend.
    Enqueued,
}

/// Busy-waiting mutual-exclusion lock: a bare flag, no wait queue.
pub struct MutexSpin {
    /// Whether some thread currently holds the lock.
    pub locked: bool,
}

impl MutexSpin {
    /// Returns a fresh, unheld lock.
    pub fn new() -> (r: Self)
        ensures
            !r.locked,
    {
        MutexSpin { locked: false }
    }

    /// One acquisition attempt: takes the flag when it is clear, otherwise
    /// asks the caller to spin.
    pub fn lock(&mut self) -> (r: LockAttempt)
        ensures
            final(self).locked,
            !old(self).locked ==> r == LockAttempt::Acquired,
            old(self).locked ==> r == LockAttempt::MustSpin && *final(self) == *old(self),
    {
        if self.locked {
            LockAttempt::MustSpin
        } else {
            self.locked = true;
            LockAttempt::Acquired
        }
    }

    /// Clears the flag.
    pub fn unlock(&mut self)
        ensures
            !final(self).locked,
    {
        self.locked = false;
    }
}

/// Blocking mutual-exclusion lock: a flag plus an ordered queue of suspended
/// threads waiting for ownership.
pub struct MutexBlocking {
    /// Whether some thread currently holds the lock.
    pub locked: bool,
    /// Threads suspended on this lock, in arrival order.
    pub wait_queue: Vec<usize>,
}

impl MutexBlocking {
    /// Returns a fresh, unheld lock with an empty queue.
    pub fn new() -> (r: Self)
        ensures
            !r.locked,
            r.wait_queue@.len() == 0,
    {
        MutexBlocking { locked: false, wait_queue: Vec::new() }
    }

    /// One acquisition attempt by `tid`: takes the flag when it is clear,
    /// otherwise appends the caller to the wait queue for suspension.
    pub fn lock(&mut self, tid: usize) -> (r: LockAttempt)
        ensures
            final(self).locked,
            !old(self).locked ==> r == LockAttempt::Acquired && final(self).wait_queue@ == old(
                self,
            ).wait_queue@,
            old(self).locked ==> r == LockAttempt::Enqueued && final(self).wait_queue@ == old(
                self,
            ).wait_queue@.push(tid),
    {
        if self.locked {
            self.wait_queue.push(tid);
            LockAttempt::Enqueued
        } else {
            self.locked = true;
            LockAttempt::Acquired
        }
    }

    /// Releases the lock. When threads are queued the head is dequeued and
    /// ownership passes to it directly — the flag stays set, so no third
    /// thread can steal the lock in between — and the head is returned so the
    /// caller can wake it; otherwise the flag is cleared.
    pub fn unlock(&mut self) -> (woken: Option<usize>)
        requires
            old(self).locked,
        ensures
            old(self).wait_queue@.len() > 0 ==> woken == Some(old(self).wait_queue@[0])
                && final(self).locked && final(self).wait_queue@ == old(
                self,
            ).wait_queue@.drop_first(),
            old(self).wait_queue@.len() == 0 ==> woken == None::<usize> && !final(self).locked
                && final(self).wait_queue@.len() == 0,
    {
        if self.wait_queue.len() > 0 {
            let head = self.wait_queue.remove(0);
            proof {
                assert(final(self).wait_queue@ =~= old(self).wait_queue@.drop_first());
            }
            Some(head)
        } else {
            self.locked = false;
            None
        }
    }
}

/// One lock capability with two interchangeable implementations, selected at
/// creation time: busy-waiting or queue-based blocking.
pub enum Mutex {
    /// The busy-waiting variant.
    Spin(MutexSpin),
    /// The queue-based blocking variant.
    Blocking(MutexBlocking),
}

impl Mutex {
    /// Whether some thread currently holds the lock.
    pub open spec fn locked(self) -> bool {
        match self {
            Mutex::Spin(m) => m.locked,
            Mutex::Blocking(m) => m.locked,
        }
    }

    /// The threads suspended on the lock, in arrival order; always empty for
    /// the busy-waiting variant.
    pub open spec fn queue(self) -> Seq<usize> {
        match self {
            Mutex::Spin(m) => Seq::empty(),
            Mutex::Blocking(m) => m.wait_queue@,
        }
    }

    /// Whether this is the queue-based blocking variant.
    pub open spec fn is_blocking(self) -> bool {
        self is Blocking
    }

    /// Returns a fresh, unheld lock of the requested variant.
    pub fn new(blocking: bool) -> (r: Self)
        ensures
            !r.locked(),
            r.queue().len() == 0,
            r.is_blocking() == blocking,
    {
        if blocking {
            Mutex::Blocking(MutexBlocking::new())
        } else {
            Mutex::Spin(MutexSpin::new())
        }
    }

    /// One acquisition attempt by `tid`: acquires a clear lock; on a held
    /// lock the busy-waiting variant asks the caller to spin, the blocking
    /// variant enqueues the caller for suspension.
    pub fn lock(&mut self, tid: usize) -> (r: LockAttempt)
        ensures
            final(self).locked(),
            final(self).is_blocking() == old(self).is_blocking(),
            !old(self).locked() ==> r == LockAttempt::Acquired && final(self).queue() == old(
                self,
            ).queue(),
            old(self).locked() && !old(self).is_blocking() ==> r == LockAttempt::MustSpin
                && *final(self) == *old(self),
            old(self).locked() && old(self).is_blocking() ==> r == LockAttempt::Enqueued && final(self).queue() == old(self).queue().push(tid),
    {
        match self {
            Mutex::Spin(m) => m.lock(),
            Mutex::Blocking(m) => m.lock(tid),
        }
    }

    /// Releases the lock: the blocking variant hands ownership to the queue
    /// head when one is waiting and returns it for wakeup; otherwise the flag
    /// is cleared.
    pub fn unlock(&mut self) -> (woken: Option<usize>)
        requires
            old(self).is_blocking() ==> old(self).locked(),
        ensures
            final(self).is_blocking() == old(self).is_blocking(),
            old(self).queue().len() > 0 ==> woken == Some(old(self).queue()[0]) && final(self).locked() && final(self).queue() == old(self).queue().drop_first(),
            old(self).queue().len() == 0 ==> woken == None::<usize> && !final(self).locked()
                && final(self).queue().len() == 0,
    {
        match self {
            Mutex::Spin(m) => {
                m.unlock();
                None
            },
            Mutex::Blocking(m) => m.unlock(),
        }
    }
}

/// Counting semaphore. A negative count records how many threads are
/// suspended in the wait queue.
pub struct Semaphore {
    /// Remaining units when nonnegative; minus the number of queued threads
    /// when negative.
    pub count: isize,
    /// Threads suspended on the semaphore, in arrival order.
    pub wait_queue: Vec<usize>,
}

impl Semaphore {
    /// The count and the queue agree: exactly `-count` threads are queued
    /// when the count is negative, none otherwise.
    pub open spec fn wf(self) -> bool {
        &&& self.count < 0 ==> self.wait_queue@.len() == -(self.count as int)
        &&& self.count >= 0 ==> self.wait_queue@.len() == 0
    }

    /// Returns a semaphore holding `res_count` units.
    pub fn new(res_count: usize) -> (r: Self)
        requires
            res_count <= isize::MAX,
        ensures
            r.wf(),
            r.count == res_count as isize,
            r.wait_queue@.len() == 0,
    {
        Semaphore { count: res_count as isize, wait_queue: Vec::new() }
    }

    /// Releases one unit: increments the count and, when threads were
    /// waiting, dequeues the head and returns it for wakeup.
    pub fn up(&mut self) -> (woken: Option<usize>)
        requires
            old(self).wf(),
            old(self).count < isize::MAX,
        ensures
            final(self).wf(),
            final(self).count == old(self).count + 1,
            old(self).count < 0 ==> woken == Some(old(self).wait_queue@[0]) && final(self).wait_queue@ == old(self).wait_queue@.drop_first(),
            old(self).count >= 0 ==> woken == None::<usize> && final(self).wait_queue@ == old(
                self,
            ).wait_queue@,
    {
        let was = self.count;
        self.count = self.count + 1;
        if was < 0 {
            let head = self.wait_queue.remove(0);
            proof {
                assert(final(self).wait_queue@ =~= old(self).wait_queue@.drop_first());
            }
            Some(head)
        } else {
            None
        }
    }

    /// Takes one unit: decrements the count and, when none was left, enqueues
    /// the caller, which must then suspend.
    pub fn down(&mut self, tid: usize) -> (blocked: bool)
        requires
            old(self).wf(),
            old(self).count > isize::MIN,
        ensures
            final(self).wf(),
            final(self).count == old(self).count - 1,
            old(self).count <= 0 ==> blocked && final(self).wait_queue@ == old(
                self,
            ).wait_queue@.push(tid),
            old(self).count > 0 ==> !blocked && final(self).wait_queue@ == old(self).wait_queue@,
    {
        let was = self.count;
        self.count = self.count - 1;
        if was <= 0 {
            self.wait_queue.push(tid);
            true
        } else {
            false
        }
    }
}

/// Condition variable: only a rendezvous queue; the associated lock is
/// supplied per call, not stored.
pub struct Condvar {
    /// Threads suspended on the condition, in arrival order.
    pub wait_queue: Vec<usize>,
}

impl Condvar {
    /// Returns a condition variable with an empty queue.
    pub fn new() -> (r: Self)
        ensures
            r.wait_queue@.len() == 0,
    {
        Condvar { wait_queue: Vec::new() }
    }

    /// Wakes exactly one waiter when any is queued; otherwise a no-op.
    pub fn signal(&mut self) -> (woken: Option<usize>)
        ensures
            old(self).wait_queue@.len() > 0 ==> woken == Some(old(self).wait_queue@[0]) && final(self).wait_queue@ == old(self).wait_queue@.drop_first(),
            old(self).wait_queue@.len() == 0 ==> woken == None::<usize> && final(self).wait_queue@
                == old(self).wait_queue@,
    {
        if self.wait_queue.len() > 0 {
            let head = self.wait_queue.remove(0);
            proof {
                assert(final(self).wait_queue@ =~= old(self).wait_queue@.drop_first());
            }
            Some(head)
        } else {
            None
        }
    }

    /// Enqueues `tid` on the condition and releases the associated lock; the
    /// caller must then suspend. Releasing may pass the lock to a queued
    /// thread, which is returned so the caller can wake it. The lock is not
    /// re-acquired on wakeup: a resumed waiter must request it again if it
    /// still needs mutual exclusion.
    pub fn wait(&mut self, tid: usize, mutex: &mut Mutex) -> (woken: Option<usize>)
        requires
            old(mutex).is_blocking() ==> old(mutex).locked(),
        ensures
            final(self).wait_queue@ == old(self).wait_queue@.push(tid),
            final(mutex).is_blocking() == old(mutex).is_blocking(),
            old(mutex).queue().len() > 0 ==> woken == Some(old(mutex).queue()[0]) && final(mutex).locked() && final(mutex).queue() == old(mutex).queue().drop_first(),
            old(mutex).queue().len() == 0 ==> woken == None::<usize> && !final(mutex).locked()
                && final(mutex).queue().len() == 0,
    {
        self.wait_queue.push(tid);
        mutex.unlock()
    }
}

} // verus!
