//! Syscall orchestration: the only layer that touches both the registry and
//! the checkers. Every checked acquisition follows the declare / verify /
//! commit protocol: announce intent in the `need` matrix, run the Banker's
//! safety test, and either deny with a distinguished error (rolling the
//! declared intent back) or perform the primitive operation and move the
//! granted unit from `need` to `alloc`. Releases mirror the commit
//! unconditionally before the primitive release.
//!
//! Suspension itself is the scheduler's business: each operation returns the
//! `SchedAction` the caller must perform, and the `..._resumed` entry points
//! are invoked by a woken thread to finish its commit.

use vstd::prelude::*;
use crate::checker::{
    need_plus, declares_unit, grants_unit, acquires_unit, recycles_unit, same_state, col_sum,
    DeadLockChecker, MAX_RESOURCE, MAX_THREAD, safe_state,
};
use crate::primitives::{Condvar, LockAttempt, Mutex, SchedAction, Semaphore};
use crate::registry::{alloc_slot, first_free_id, lemma_first_free_id, no_free_slot};

verus! {

/// Distinguished return value for a request denied by the deadlock-avoidance
/// check.
pub const DEADLOCK_ERR: isize = -0xDEAD;

/// Return value for a creation refused because a registry table is full.
pub const CAPACITY_ERR: isize = -1;

/// Per-process synchronization state: the three registry tables, the two
/// optional checker instances (one scoped to mutex ids, one to semaphore
/// ids), and the number of live threads.
pub struct ProcState {
    /// Registry of live mutexes, indexed by mutex id.
    pub mutex_list: Vec<Option<Mutex>>,
    /// Registry of live semaphores, indexed by semaphore id.
    pub semaphore_list: Vec<Option<Semaphore>>,
    /// Registry of live condition variables, indexed by condvar id.
    pub condvar_list: Vec<Option<Condvar>>,
    /// Checker over mutex ids, present while deadlock detection is enabled.
    pub mutex_checker: Option<DeadLockChecker>,
    /// Checker over semaphore ids, present while deadlock detection is
    /// enabled.
    pub semaphore_checker: Option<DeadLockChecker>,
    /// Number of threads of the process; thread ids lie below it.
    pub thread_count: usize,
}

impl ProcState {
    /// Tables and thread count stay within the fixed bounds, active checkers
    /// are well formed, and every live semaphore's count agrees with its
    /// queue.
    pub open spec fn wf(self) -> bool {
        &&& self.mutex_list@.len() <= MAX_RESOURCE
        &&& self.semaphore_list@.len() <= MAX_RESOURCE
        &&& self.condvar_list@.len() <= MAX_RESOURCE
        &&& self.thread_count <= MAX_THREAD
        &&& match self.mutex_checker {
            Some(c) => c.wf(),
            None => true,
        }
        &&& match self.semaphore_checker {
            Some(c) => c.wf(),
            None => true,
        }
        &&& forall|i: int|
            0 <= i < self.semaphore_list@.len() ==> match #[trigger] self.semaphore_list@[i] {
                Some(s) => s.wf(),
                None => true,
            }
    }

    /// The mutex registered under `id`.
    pub open spec fn mutex_at(self, id: int) -> Mutex {
        self.mutex_list@[id]->0
    }

    /// The semaphore registered under `id`.
    pub open spec fn semaphore_at(self, id: int) -> Semaphore {
        self.semaphore_list@[id]->0
    }

    /// The condition variable registered under `id`.
    pub open spec fn condvar_at(self, id: int) -> Condvar {
        self.condvar_list@[id]->0
    }

    /// A lock request by `tid` for `mutex_id` must be denied: the mutex
    /// checker is active and the state with the intent declared is unsafe.
    pub open spec fn mutex_request_unsafe(self, tid: int, mutex_id: int) -> bool {
        match self.mutex_checker {
            Some(c) => !safe_state(
                c.avail@,
                c.alloc.deep_view(),
                need_plus(c.need.deep_view(), tid, mutex_id),
                self.thread_count as int,
                self.mutex_list@.len() as int,
            ),
            None => false,
        }
    }

    /// A semaphore-down request by `tid` for `sem_id` must be denied: the
    /// semaphore checker is active and the state with the intent declared is
    /// unsafe.
    pub open spec fn sem_request_unsafe(self, tid: int, sem_id: int) -> bool {
        match self.semaphore_checker {
            Some(c) => !safe_state(
                c.avail@,
                c.alloc.deep_view(),
                need_plus(c.need.deep_view(), tid, sem_id),
                self.thread_count as int,
                self.semaphore_list@.len() as int,
            ),
            None => false,
        }
    }

    /// Returns the synchronization state of a fresh process: empty registry
    /// tables and detection disabled.
    pub fn new(thread_count: usize) -> (r: Self)
        requires
            thread_count <= MAX_THREAD,
        ensures
            r.wf(),
            r.mutex_list@.len() == 0,
            r.semaphore_list@.len() == 0,
            r.condvar_list@.len() == 0,
            r.mutex_checker is None,
            r.semaphore_checker is None,
            r.thread_count == thread_count,
    {
        ProcState {
            mutex_list: Vec::new(),
            semaphore_list: Vec::new(),
            condvar_list: Vec::new(),
            mutex_checker: None,
            semaphore_checker: None,
            thread_count,
        }
    }
}

/// Computes the absolute wake-up time for a sleeping thread: the scheduler
/// must register a timer for `now_ms + ms` and suspend the caller, which
/// returns `0` once the delay has elapsed.
pub fn sys_sleep(now_ms: usize, ms: usize) -> (r: (isize, SchedAction))
    requires
        now_ms + ms <= usize::MAX,
    ensures
        r.0 == 0,
        r.1 == (SchedAction::SleepUntil { expire_ms: (now_ms + ms) as usize }),
{
    (0, SchedAction::SleepUntil { expire_ms: now_ms + ms })
}

/// Toggles deadlock detection for the process: enabling installs two fresh,
/// empty checker instances (mutex-scoped and semaphore-scoped); any other
/// argument discards both. Resources created before enabling are not
/// retroactively registered.
pub fn sys_enable_deadlock_detect(proc: &mut ProcState, enabled: usize) -> (r: isize)
    requires
        old(proc).wf(),
    ensures
        final(proc).wf(),
        r == 0,
        final(proc).mutex_list == old(proc).mutex_list,
        final(proc).semaphore_list == old(proc).semaphore_list,
        final(proc).condvar_list == old(proc).condvar_list,
        final(proc).thread_count == old(proc).thread_count,
        enabled == 1 ==> (final(proc).mutex_checker matches Some(c) && c.wf() && c.zeroed())
            && (final(proc).semaphore_checker matches Some(c) && c.wf() && c.zeroed()),
        enabled != 1 ==> final(proc).mutex_checker is None && final(proc).semaphore_checker is None,
{
    if enabled == 1 {
        proc.mutex_checker = Some(DeadLockChecker::new());
        proc.semaphore_checker = Some(DeadLockChecker::new());
    } else {
        proc.mutex_checker = None;
        proc.semaphore_checker = None;
    }
    0
}

/// Creates a mutex of the requested variant in the lowest empty registry
/// slot and returns its id, or `CAPACITY_ERR` when the table is full at the
/// fixed bound. While the mutex checker is active the fresh id is registered
/// with capacity 1.
pub fn sys_mutex_create(proc: &mut ProcState, blocking: bool) -> (r: isize)
    requires
        old(proc).wf(),
        old(proc).mutex_checker matches Some(c) ==> 1 + col_sum(
            c.alloc.deep_view(),
            first_free_id(old(proc).mutex_list@),
            MAX_THREAD as int,
        ) <= usize::MAX,
    ensures
        final(proc).wf(),
        final(proc).semaphore_list == old(proc).semaphore_list,
        final(proc).condvar_list == old(proc).condvar_list,
        final(proc).semaphore_checker == old(proc).semaphore_checker,
        final(proc).thread_count == old(proc).thread_count,
        r == CAPACITY_ERR <==> no_free_slot(old(proc).mutex_list@) && old(proc).mutex_list@.len()
            == MAX_RESOURCE,
        r == CAPACITY_ERR ==> final(proc).mutex_list@ == old(proc).mutex_list@ && final(proc).mutex_checker == old(proc).mutex_checker,
        r != CAPACITY_ERR ==> ({
            let id = r as int;
            &&& 0 <= id < MAX_RESOURCE
            &&& id == first_free_id(old(proc).mutex_list@)
            &&& (final(proc).mutex_list@[id] matches Some(m) && !m.locked() && m.queue().len() == 0
                && m.is_blocking() == blocking)
            &&& if id < old(proc).mutex_list@.len() {
                final(proc).mutex_list@ =~= old(proc).mutex_list@.update(
                    id,
                    final(proc).mutex_list@[id],
                )
            } else {
                final(proc).mutex_list@ =~= old(proc).mutex_list@.push(final(proc).mutex_list@[id])
            }
            &&& match old(proc).mutex_checker {
                Some(c) => final(proc).mutex_checker matches Some(c2) && c2.avail@ == c.avail@.update(
                    id,
                    1usize,
                ) && c2.alloc == c.alloc && c2.need == c.need,
                None => final(proc).mutex_checker is None,
            }
        }),
{
    proof {
        lemma_first_free_id(old(proc).mutex_list@);
    }
    let id_opt = alloc_slot(&mut proc.mutex_list, Mutex::new(blocking));
    match id_opt {
        Some(id) => {
            match proc.mutex_checker.take() {
                Some(mut c) => {
                    c.add_res(id, 1);
                    proc.mutex_checker = Some(c);
                },
                None => {},
            }
            id as isize
        },
        None => CAPACITY_ERR,
    }
}

/// A lock request by `tid`: the declare / verify / commit protocol. With the
/// mutex checker active, the intent is declared in `need` and the Banker's
/// test run; an unsafe verdict denies the request with `DEADLOCK_ERR`,
/// rolling the declared intent back and leaving the mutex untouched.
/// Otherwise the acquisition is attempted: a free mutex is taken and the
/// granted unit committed at once; a held blocking mutex enqueues the caller
/// (the commit then happens in `sys_mutex_lock_resumed` after wakeup); a
/// held busy-waiting mutex asks the caller to yield and retry through
/// `sys_mutex_lock_retry`. While the caller spins or sleeps its declared
/// need stays announced.
pub fn sys_mutex_lock(proc: &mut ProcState, tid: usize, mutex_id: usize) -> (r: (
    isize,
    SchedAction,
))
    requires
        old(proc).wf(),
        tid < old(proc).thread_count,
        mutex_id < old(proc).mutex_list@.len(),
        old(proc).mutex_list@[mutex_id as int] is Some,
        old(proc).mutex_checker matches Some(c) ==> c.need.deep_view()[tid as int][mutex_id as int]
            < usize::MAX,
        match old(proc).mutex_checker {
            Some(c) => (!old(proc).mutex_at(mutex_id as int).locked() && !old(proc).mutex_request_unsafe(tid as int, mutex_id as int)) ==> c.avail@[mutex_id as int] >= 1,
            None => true,
        },
    ensures
        final(proc).wf(),
        final(proc).semaphore_list == old(proc).semaphore_list,
        final(proc).condvar_list == old(proc).condvar_list,
        final(proc).semaphore_checker == old(proc).semaphore_checker,
        final(proc).thread_count == old(proc).thread_count,
        final(proc).mutex_list@.len() == old(proc).mutex_list@.len(),
        forall|k: int|
            0 <= k < old(proc).mutex_list@.len() && k != mutex_id ==> final(proc).mutex_list@[k]
                == old(proc).mutex_list@[k],
        final(proc).mutex_list@[mutex_id as int] is Some,
        ({
            let m0 = old(proc).mutex_at(mutex_id as int);
            let m1 = final(proc).mutex_at(mutex_id as int);
            &&& m1.is_blocking() == m0.is_blocking()
            &&& if old(proc).mutex_request_unsafe(tid as int, mutex_id as int) {
                r.0 == DEADLOCK_ERR && r.1 == SchedAction::Proceed && m1 == m0 && (old(proc).mutex_checker matches Some(c) ==> final(proc).mutex_checker matches Some(c2)
                    && same_state(c, c2))
            } else if !m0.locked() {
                r.0 == 0 && r.1 == SchedAction::Proceed && m1.locked() && m1.queue() == m0.queue()
                    && match old(proc).mutex_checker {
                    Some(c) => final(proc).mutex_checker matches Some(c2) && acquires_unit(
                        c,
                        c2,
                        tid as int,
                        mutex_id as int,
                    ),
                    None => final(proc).mutex_checker is None,
                }
            } else if m0.is_blocking() {
                r.0 == 0 && r.1 == SchedAction::Block && m1.locked() && m1.queue()
                    == m0.queue().push(tid) && match old(proc).mutex_checker {
                    Some(c) => final(proc).mutex_checker matches Some(c2) && declares_unit(
                        c,
                        c2,
                        tid as int,
                        mutex_id as int,
                    ),
                    None => final(proc).mutex_checker is None,
                }
            } else {
                r.0 == 0 && r.1 == SchedAction::Retry && m1 == m0 && match old(proc).mutex_checker {
                    Some(c) => final(proc).mutex_checker matches Some(c2) && declares_unit(
                        c,
                        c2,
                        tid as int,
                        mutex_id as int,
                    ),
                    None => final(proc).mutex_checker is None,
                }
            }
        }),
{
    if proc.mutex_checker.is_some() {
        let mut c = proc.mutex_checker.take().unwrap();
        let ghost c0 = c;
        c.declare_need(tid, mutex_id);
        let safe = c.is_safe(proc.thread_count, proc.mutex_list.len());
        if !safe {
            c.undo_need(tid, mutex_id);
            proof {
                assert(c.need.deep_view() =~~= c0.need.deep_view());
            }
            proc.mutex_checker = Some(c);
            return (DEADLOCK_ERR, SchedAction::Proceed);
        }
        proc.mutex_checker = Some(c);
    }
    let entry = proc.mutex_list.remove(mutex_id);
    let mut m = entry.unwrap();
    let attempt = m.lock(tid);
    proc.mutex_list.insert(mutex_id, Some(m));
    proof {
        assert(proc.mutex_list@ =~= old(proc).mutex_list@.update(
            mutex_id as int,
            proc.mutex_list@[mutex_id as int],
        ));
    }
    match attempt {
        LockAttempt::Acquired => {
            match proc.mutex_checker.take() {
                Some(mut c) => {
                    c.commit_grant(tid, mutex_id);
                    proof {
                        assert(c.need.deep_view() =~~= old(proc).mutex_checker->0.need.deep_view());
                    }
                    proc.mutex_checker = Some(c);
                },
                None => {},
            }
            (0, SchedAction::Proceed)
        },
        LockAttempt::MustSpin => (0, SchedAction::Retry),
        LockAttempt::Enqueued => (0, SchedAction::Block),
    }
}

/// One more acquisition attempt by a thread spinning on a busy-waiting
/// mutex. The declare and verify phases already ran in `sys_mutex_lock`, so
/// only the acquisition and, on success, its commit are retried here.
pub fn sys_mutex_lock_retry(proc: &mut ProcState, tid: usize, mutex_id: usize) -> (r: (
    isize,
    SchedAction,
))
    requires
        old(proc).wf(),
        tid < old(proc).thread_count,
        mutex_id < old(proc).mutex_list@.len(),
        old(proc).mutex_list@[mutex_id as int] is Some,
        !old(proc).mutex_at(mutex_id as int).is_blocking(),
        old(proc).mutex_checker matches Some(c) ==> c.need.deep_view()[tid as int][mutex_id as int]
            >= 1,
        match old(proc).mutex_checker {
            Some(c) => !old(proc).mutex_at(mutex_id as int).locked() ==> c.avail@[mutex_id as int]
                >= 1,
            None => true,
        },
    ensures
        final(proc).wf(),
        final(proc).semaphore_list == old(proc).semaphore_list,
        final(proc).condvar_list == old(proc).condvar_list,
        final(proc).semaphore_checker == old(proc).semaphore_checker,
        final(proc).thread_count == old(proc).thread_count,
        final(proc).mutex_list@.len() == old(proc).mutex_list@.len(),
        forall|k: int|
            0 <= k < old(proc).mutex_list@.len() && k != mutex_id ==> final(proc).mutex_list@[k]
                == old(proc).mutex_list@[k],
        final(proc).mutex_list@[mutex_id as int] is Some,
        ({
            let m0 = old(proc).mutex_at(mutex_id as int);
            let m1 = final(proc).mutex_at(mutex_id as int);
            &&& m1.is_blocking() == m0.is_blocking()
            &&& if !m0.locked() {
                r.0 == 0 && r.1 == SchedAction::Proceed && m1.locked() && match old(proc).mutex_checker {
                    Some(c) => final(proc).mutex_checker matches Some(c2) && grants_unit(
                        c,
                        c2,
                        tid as int,
                        mutex_id as int,
                    ),
                    None => final(proc).mutex_checker is None,
                }
            } else {
                r.0 == 0 && r.1 == SchedAction::Retry && m1 == m0 && final(proc).mutex_checker
                    == old(proc).mutex_checker
            }
        }),
{
    let entry = proc.mutex_list.remove(mutex_id);
    let mut m = entry.unwrap();
    let attempt = m.lock(tid);
    proc.mutex_list.insert(mutex_id, Some(m));
    proof {
        assert(proc.mutex_list@ =~= old(proc).mutex_list@.update(
            mutex_id as int,
            proc.mutex_list@[mutex_id as int],
        ));
    }
    match attempt {
        LockAttempt::Acquired => {
            match proc.mutex_checker.take() {
                Some(mut c) => {
                    c.commit_grant(tid, mutex_id);
                    proc.mutex_checker = Some(c);
                },
                None => {},
            }
            (0, SchedAction::Proceed)
        },
        LockAttempt::MustSpin => (0, SchedAction::Retry),
        LockAttempt::Enqueued => {
            proof {
                assert(false);
            }
            (0, SchedAction::Block)
        },
    }
}

/// The commit step run by a thread that suspended on a held blocking mutex
/// and has been woken: the releasing unlock already transferred ownership to
/// it, so only the bookkeeping move of its declared unit from `need` into
/// `alloc` remains.
pub fn sys_mutex_lock_resumed(proc: &mut ProcState, tid: usize, mutex_id: usize) -> (r: isize)
    requires
        old(proc).wf(),
        tid < old(proc).thread_count,
        mutex_id < old(proc).mutex_list@.len(),
        old(proc).mutex_checker matches Some(c) ==> c.need.deep_view()[tid as int][mutex_id as int]
            >= 1 && c.avail@[mutex_id as int] >= 1,
    ensures
        final(proc).wf(),
        r == 0,
        final(proc).mutex_list == old(proc).mutex_list,
        final(proc).semaphore_list == old(proc).semaphore_list,
        final(proc).condvar_list == old(proc).condvar_list,
        final(proc).semaphore_checker == old(proc).semaphore_checker,
        final(proc).thread_count == old(proc).thread_count,
        match old(proc).mutex_checker {
            Some(c) => final(proc).mutex_checker matches Some(c2) && grants_unit(
                c,
                c2,
                tid as int,
                mutex_id as int,
            ),
            None => final(proc).mutex_checker is None,
        },
{
    match proc.mutex_checker.take() {
        Some(mut c) => {
            c.commit_grant(tid, mutex_id);
            proc.mutex_checker = Some(c);
        },
        None => {},
    }
    0
}

/// Releases a mutex held by `tid`: the held unit is recycled in the mutex
/// checker first, then the lock is released. On a contended blocking mutex
/// ownership passes directly to the queue head, which the scheduler must
/// wake.
pub fn sys_mutex_unlock(proc: &mut ProcState, tid: usize, mutex_id: usize) -> (r: (
    isize,
    SchedAction,
))
    requires
        old(proc).wf(),
        tid < old(proc).thread_count,
        mutex_id < old(proc).mutex_list@.len(),
        old(proc).mutex_list@[mutex_id as int] is Some,
        old(proc).mutex_at(mutex_id as int).is_blocking() ==> old(proc).mutex_at(
            mutex_id as int,
        ).locked(),
        old(proc).mutex_checker matches Some(c) ==> c.alloc.deep_view()[tid as int][mutex_id as int]
            >= 1,
    ensures
        final(proc).wf(),
        r.0 == 0,
        final(proc).semaphore_list == old(proc).semaphore_list,
        final(proc).condvar_list == old(proc).condvar_list,
        final(proc).semaphore_checker == old(proc).semaphore_checker,
        final(proc).thread_count == old(proc).thread_count,
        final(proc).mutex_list@.len() == old(proc).mutex_list@.len(),
        forall|k: int|
            0 <= k < old(proc).mutex_list@.len() && k != mutex_id ==> final(proc).mutex_list@[k]
                == old(proc).mutex_list@[k],
        final(proc).mutex_list@[mutex_id as int] is Some,
        match old(proc).mutex_checker {
            Some(c) => final(proc).mutex_checker matches Some(c2) && recycles_unit(
                c,
                c2,
                tid as int,
                mutex_id as int,
            ),
            None => final(proc).mutex_checker is None,
        },
        ({
            let m0 = old(proc).mutex_at(mutex_id as int);
            let m1 = final(proc).mutex_at(mutex_id as int);
            &&& m1.is_blocking() == m0.is_blocking()
            &&& if m0.queue().len() > 0 {
                r.1 == (SchedAction::Wake { tid: m0.queue()[0] }) && m1.locked() && m1.queue()
                    == m0.queue().drop_first()
            } else {
                r.1 == SchedAction::Proceed && !m1.locked() && m1.queue().len() == 0
            }
        }),
{
    match proc.mutex_checker.take() {
        Some(mut c) => {
            c.recycle_res(tid, mutex_id);
            proc.mutex_checker = Some(c);
        },
        None => {},
    }
    let entry = proc.mutex_list.remove(mutex_id);
    let mut m = entry.unwrap();
    let woken = m.unlock();
    proc.mutex_list.insert(mutex_id, Some(m));
    proof {
        assert(proc.mutex_list@ =~= old(proc).mutex_list@.update(
            mutex_id as int,
            proc.mutex_list@[mutex_id as int],
        ));
    }
    match woken {
        Some(t) => (0, SchedAction::Wake { tid: t }),
        None => (0, SchedAction::Proceed),
    }
}

/// Creates a semaphore holding `res_count` units in the lowest empty
/// registry slot and returns its id, or `CAPACITY_ERR` when the table is
/// full at the fixed bound. While the semaphore checker is active the fresh
/// id is registered with capacity `res_count`.
pub fn sys_semaphore_create(proc: &mut ProcState, res_count: usize) -> (r: isize)
    requires
        old(proc).wf(),
        res_count <= isize::MAX,
        old(proc).semaphore_checker matches Some(c) ==> res_count + col_sum(
            c.alloc.deep_view(),
            first_free_id(old(proc).semaphore_list@),
            MAX_THREAD as int,
        ) <= usize::MAX,
    ensures
        final(proc).wf(),
        final(proc).mutex_list == old(proc).mutex_list,
        final(proc).condvar_list == old(proc).condvar_list,
        final(proc).mutex_checker == old(proc).mutex_checker,
        final(proc).thread_count == old(proc).thread_count,
        r == CAPACITY_ERR <==> no_free_slot(old(proc).semaphore_list@) && old(proc).semaphore_list@.len() == MAX_RESOURCE,
        r == CAPACITY_ERR ==> final(proc).semaphore_list@ == old(proc).semaphore_list@ && final(proc).semaphore_checker == old(proc).semaphore_checker,
        r != CAPACITY_ERR ==> ({
            let id = r as int;
            &&& 0 <= id < MAX_RESOURCE
            &&& id == first_free_id(old(proc).semaphore_list@)
            &&& (final(proc).semaphore_list@[id] matches Some(s) && s.count == res_count as isize
                && s.wait_queue@.len() == 0)
            &&& if id < old(proc).semaphore_list@.len() {
                final(proc).semaphore_list@ =~= old(proc).semaphore_list@.update(
                    id,
                    final(proc).semaphore_list@[id],
                )
            } else {
                final(proc).semaphore_list@ =~= old(proc).semaphore_list@.push(
                    final(proc).semaphore_list@[id],
                )
            }
            &&& match old(proc).semaphore_checker {
                Some(c) => final(proc).semaphore_checker matches Some(c2) && c2.avail@
                    == c.avail@.update(id, res_count) && c2.alloc == c.alloc && c2.need == c.need,
                None => final(proc).semaphore_checker is None,
            }
        }),
{
    proof {
        lemma_first_free_id(old(proc).semaphore_list@);
    }
    let id_opt = alloc_slot(&mut proc.semaphore_list, Semaphore::new(res_count));
    match id_opt {
        Some(id) => {
            match proc.semaphore_checker.take() {
                Some(mut c) => {
                    c.add_res(id, res_count);
                    proc.semaphore_checker = Some(c);
                },
                None => {},
            }
            id as isize
        },
        None => CAPACITY_ERR,
    }
}

/// Releases one semaphore unit held by `tid`: the unit is recycled in the
/// semaphore checker first, then the count is incremented; when threads were
/// queued the head receives the unit and the scheduler must wake it.
pub fn sys_semaphore_up(proc: &mut ProcState, tid: usize, sem_id: usize) -> (r: (
    isize,
    SchedAction,
))
    requires
        old(proc).wf(),
        tid < old(proc).thread_count,
        sem_id < old(proc).semaphore_list@.len(),
        old(proc).semaphore_list@[sem_id as int] is Some,
        old(proc).semaphore_at(sem_id as int).count < isize::MAX,
        old(proc).semaphore_checker matches Some(c) ==> c.alloc.deep_view()[tid as int][sem_id as int]
            >= 1,
    ensures
        final(proc).wf(),
        r.0 == 0,
        final(proc).mutex_list == old(proc).mutex_list,
        final(proc).condvar_list == old(proc).condvar_list,
        final(proc).mutex_checker == old(proc).mutex_checker,
        final(proc).thread_count == old(proc).thread_count,
        final(proc).semaphore_list@.len() == old(proc).semaphore_list@.len(),
        forall|k: int|
            0 <= k < old(proc).semaphore_list@.len() && k != sem_id ==> final(proc).semaphore_list@[k] == old(proc).semaphore_list@[k],
        final(proc).semaphore_list@[sem_id as int] is Some,
        match old(proc).semaphore_checker {
            Some(c) => final(proc).semaphore_checker matches Some(c2) && recycles_unit(
                c,
                c2,
                tid as int,
                sem_id as int,
            ),
            None => final(proc).semaphore_checker is None,
        },
        ({
            let s0 = old(proc).semaphore_at(sem_id as int);
            let s1 = final(proc).semaphore_at(sem_id as int);
            &&& s1.count == s0.count + 1
            &&& if s0.count < 0 {
                r.1 == (SchedAction::Wake { tid: s0.wait_queue@[0] }) && s1.wait_queue@
                    == s0.wait_queue@.drop_first()
            } else {
                r.1 == SchedAction::Proceed && s1.wait_queue@ == s0.wait_queue@
            }
        }),
{
    match proc.semaphore_checker.take() {
        Some(mut c) => {
            c.recycle_res(tid, sem_id);
            proc.semaphore_checker = Some(c);
        },
        None => {},
    }
    let entry = proc.semaphore_list.remove(sem_id);
    let mut s = entry.unwrap();
    let woken = s.up();
    proc.semaphore_list.insert(sem_id, Some(s));
    proof {
        assert(proc.semaphore_list@ =~= old(proc).semaphore_list@.update(
            sem_id as int,
            proc.semaphore_list@[sem_id as int],
        ));
    }
    match woken {
        Some(t) => (0, SchedAction::Wake { tid: t }),
        None => (0, SchedAction::Proceed),
    }
}

/// A semaphore-down request by `tid`: the declare / verify / commit
/// protocol. With the semaphore checker active, the intent is declared and
/// the Banker's test run; an unsafe verdict denies the request with
/// `DEADLOCK_ERR`, rolling the declared intent back and leaving the
/// semaphore untouched. Otherwise the count is decremented: when a unit was
/// left the grant is committed at once; when none was, the caller is
/// enqueued and must suspend, its declared need staying announced until
/// `sys_semaphore_down_resumed` finishes the commit after wakeup.
pub fn sys_semaphore_down(proc: &mut ProcState, tid: usize, sem_id: usize) -> (r: (
    isize,
    SchedAction,
))
    requires
        old(proc).wf(),
        tid < old(proc).thread_count,
        sem_id < old(proc).semaphore_list@.len(),
        old(proc).semaphore_list@[sem_id as int] is Some,
        old(proc).semaphore_at(sem_id as int).count > isize::MIN,
        old(proc).semaphore_checker matches Some(c) ==> c.need.deep_view()[tid as int][sem_id as int]
            < usize::MAX,
        match old(proc).semaphore_checker {
            Some(c) => (old(proc).semaphore_at(sem_id as int).count > 0 && !old(proc).sem_request_unsafe(tid as int, sem_id as int)) ==> c.avail@[sem_id as int] >= 1,
            None => true,
        },
    ensures
        final(proc).wf(),
        final(proc).mutex_list == old(proc).mutex_list,
        final(proc).condvar_list == old(proc).condvar_list,
        final(proc).mutex_checker == old(proc).mutex_checker,
        final(proc).thread_count == old(proc).thread_count,
        final(proc).semaphore_list@.len() == old(proc).semaphore_list@.len(),
        forall|k: int|
            0 <= k < old(proc).semaphore_list@.len() && k != sem_id ==> final(proc).semaphore_list@[k] == old(proc).semaphore_list@[k],
        final(proc).semaphore_list@[sem_id as int] is Some,
        ({
            let s0 = old(proc).semaphore_at(sem_id as int);
            let s1 = final(proc).semaphore_at(sem_id as int);
            if old(proc).sem_request_unsafe(tid as int, sem_id as int) {
                r.0 == DEADLOCK_ERR && r.1 == SchedAction::Proceed && s1 == s0 && (old(proc).semaphore_checker matches Some(c) ==> final(proc).semaphore_checker matches Some(c2) && same_state(c, c2))
            } else if s0.count > 0 {
                r.0 == 0 && r.1 == SchedAction::Proceed && s1.count == s0.count - 1
                    && s1.wait_queue@ == s0.wait_queue@ && match old(proc).semaphore_checker {
                    Some(c) => final(proc).semaphore_checker matches Some(c2) && acquires_unit(
                        c,
                        c2,
                        tid as int,
                        sem_id as int,
                    ),
                    None => final(proc).semaphore_checker is None,
                }
            } else {
                r.0 == 0 && r.1 == SchedAction::Block && s1.count == s0.count - 1 && s1.wait_queue@
                    == s0.wait_queue@.push(tid) && match old(proc).semaphore_checker {
                    Some(c) => final(proc).semaphore_checker matches Some(c2) && declares_unit(
                        c,
                        c2,
                        tid as int,
                        sem_id as int,
                    ),
                    None => final(proc).semaphore_checker is None,
                }
            }
        }),
{
    if proc.semaphore_checker.is_some() {
        let mut c = proc.semaphore_checker.take().unwrap();
        let ghost c0 = c;
        c.declare_need(tid, sem_id);
        let safe = c.is_safe(proc.thread_count, proc.semaphore_list.len());
        if !safe {
            c.undo_need(tid, sem_id);
            proof {
                assert(c.need.deep_view() =~~= c0.need.deep_view());
            }
            proc.semaphore_checker = Some(c);
            return (DEADLOCK_ERR, SchedAction::Proceed);
        }
        proc.semaphore_checker = Some(c);
    }
    let entry = proc.semaphore_list.remove(sem_id);
    let mut s = entry.unwrap();
    let blocked = s.down(tid);
    proc.semaphore_list.insert(sem_id, Some(s));
    proof {
        assert(proc.semaphore_list@ =~= old(proc).semaphore_list@.update(
            sem_id as int,
            proc.semaphore_list@[sem_id as int],
        ));
    }
    if blocked {
        (0, SchedAction::Block)
    } else {
        match proc.semaphore_checker.take() {
            Some(mut c) => {
                c.commit_grant(tid, sem_id);
                proof {
                    assert(c.need.deep_view() =~~= old(proc).semaphore_checker->0.need.deep_view());
                }
                proc.semaphore_checker = Some(c);
            },
            None => {},
        }
        (0, SchedAction::Proceed)
    }
}

/// The commit step run by a thread that suspended on an exhausted semaphore
/// and has been woken: the releasing up already recycled the unit, so only
/// the bookkeeping move of the declared unit from `need` into `alloc`
/// remains.
pub fn sys_semaphore_down_resumed(proc: &mut ProcState, tid: usize, sem_id: usize) -> (r: isize)
    requires
        old(proc).wf(),
        tid < old(proc).thread_count,
        sem_id < old(proc).semaphore_list@.len(),
        old(proc).semaphore_checker matches Some(c) ==> c.need.deep_view()[tid as int][sem_id as int]
            >= 1 && c.avail@[sem_id as int] >= 1,
    ensures
        final(proc).wf(),
        r == 0,
        final(proc).mutex_list == old(proc).mutex_list,
        final(proc).semaphore_list == old(proc).semaphore_list,
        final(proc).condvar_list == old(proc).condvar_list,
        final(proc).mutex_checker == old(proc).mutex_checker,
        final(proc).thread_count == old(proc).thread_count,
        match old(proc).semaphore_checker {
            Some(c) => final(proc).semaphore_checker matches Some(c2) && grants_unit(
                c,
                c2,
                tid as int,
                sem_id as int,
            ),
            None => final(proc).semaphore_checker is None,
        },
{
    match proc.semaphore_checker.take() {
        Some(mut c) => {
            c.commit_grant(tid, sem_id);
            proc.semaphore_checker = Some(c);
        },
        None => {},
    }
    0
}

/// Registers a fresh condition variable in the lowest empty registry slot
/// and returns its id; `CAPACITY_ERR` when the table is full at the fixed
/// bound. Condition variables are never subject to deadlock checking.
pub fn sys_condvar_create(proc: &mut ProcState) -> (r: isize)
    requires
        old(proc).wf(),
    ensures
        final(proc).wf(),
        final(proc).mutex_list == old(proc).mutex_list,
        final(proc).semaphore_list == old(proc).semaphore_list,
        final(proc).mutex_checker == old(proc).mutex_checker,
        final(proc).semaphore_checker == old(proc).semaphore_checker,
        final(proc).thread_count == old(proc).thread_count,
        r == CAPACITY_ERR <==> no_free_slot(old(proc).condvar_list@) && old(proc).condvar_list@.len() == MAX_RESOURCE,
        r == CAPACITY_ERR ==> final(proc).condvar_list@ == old(proc).condvar_list@,
        r != CAPACITY_ERR ==> {
            let id = r as int;
            &&& 0 <= id < MAX_RESOURCE
            &&& id == first_free_id(old(proc).condvar_list@)
            &&& (final(proc).condvar_list@[id] matches Some(cv) && cv.wait_queue@.len() == 0)
            &&& if id < old(proc).condvar_list@.len() {
                final(proc).condvar_list@ =~= old(proc).condvar_list@.update(
                    id,
                    final(proc).condvar_list@[id],
                )
            } else {
                final(proc).condvar_list@ =~= old(proc).condvar_list@.push(
                    final(proc).condvar_list@[id],
                )
            }
        },
{
    proof {
        lemma_first_free_id(old(proc).condvar_list@);
    }
    match alloc_slot(&mut proc.condvar_list, Condvar::new()) {
        Some(id) => id as isize,
        None => CAPACITY_ERR,
    }
}

/// Wakes exactly one thread suspended on the condition variable, when any is
/// queued: the scheduler must make the returned head runnable. A no-op on an
/// empty queue.
pub fn sys_condvar_signal(proc: &mut ProcState, condvar_id: usize) -> (r: (isize, SchedAction))
    requires
        old(proc).wf(),
        condvar_id < old(proc).condvar_list@.len(),
        old(proc).condvar_list@[condvar_id as int] is Some,
    ensures
        final(proc).wf(),
        r.0 == 0,
        final(proc).mutex_list == old(proc).mutex_list,
        final(proc).semaphore_list == old(proc).semaphore_list,
        final(proc).mutex_checker == old(proc).mutex_checker,
        final(proc).semaphore_checker == old(proc).semaphore_checker,
        final(proc).thread_count == old(proc).thread_count,
        final(proc).condvar_list@.len() == old(proc).condvar_list@.len(),
        forall|k: int|
            0 <= k < old(proc).condvar_list@.len() && k != condvar_id ==> final(proc).condvar_list@[k] == old(proc).condvar_list@[k],
        final(proc).condvar_list@[condvar_id as int] is Some,
        ({
            let pre = old(proc).condvar_at(condvar_id as int);
            let post = final(proc).condvar_at(condvar_id as int);
            if pre.wait_queue@.len() > 0 {
                r.1 == (SchedAction::Wake { tid: pre.wait_queue@[0] }) && post.wait_queue@
                    == pre.wait_queue@.drop_first()
            } else {
                r.1 == SchedAction::Proceed && post.wait_queue@ == pre.wait_queue@
            }
        }),
{
    let entry = proc.condvar_list.remove(condvar_id);
    let mut cv = entry.unwrap();
    let woken = cv.signal();
    proc.condvar_list.insert(condvar_id, Some(cv));
    proof {
        assert(final(proc).condvar_list@ =~= old(proc).condvar_list@.update(
            condvar_id as int,
            final(proc).condvar_list@[condvar_id as int],
        ));
    }
    match woken {
        Some(t) => (0, SchedAction::Wake { tid: t }),
        None => (0, SchedAction::Proceed),
    }
}

/// Enqueues the caller on the condition variable and releases the associated
/// mutex, then suspends the caller. Releasing a contended blocking mutex
/// passes ownership to its queue head, which must be woken alongside. The
/// mutex is not re-acquired on wakeup: a resumed waiter must request it
/// again if it still needs mutual exclusion.
pub fn sys_condvar_wait(proc: &mut ProcState, tid: usize, condvar_id: usize, mutex_id: usize) -> (r:
    (isize, SchedAction))
    requires
        old(proc).wf(),
        condvar_id < old(proc).condvar_list@.len(),
        old(proc).condvar_list@[condvar_id as int] is Some,
        mutex_id < old(proc).mutex_list@.len(),
        old(proc).mutex_list@[mutex_id as int] is Some,
        old(proc).mutex_at(mutex_id as int).is_blocking() ==> old(proc).mutex_at(
            mutex_id as int,
        ).locked(),
    ensures
        final(proc).wf(),
        r.0 == 0,
        final(proc).semaphore_list == old(proc).semaphore_list,
        final(proc).mutex_checker == old(proc).mutex_checker,
        final(proc).semaphore_checker == old(proc).semaphore_checker,
        final(proc).thread_count == old(proc).thread_count,
        final(proc).condvar_list@.len() == old(proc).condvar_list@.len(),
        final(proc).mutex_list@.len() == old(proc).mutex_list@.len(),
        forall|k: int|
            0 <= k < old(proc).condvar_list@.len() && k != condvar_id ==> final(proc).condvar_list@[k] == old(proc).condvar_list@[k],
        forall|k: int|
            0 <= k < old(proc).mutex_list@.len() && k != mutex_id ==> final(proc).mutex_list@[k]
                == old(proc).mutex_list@[k],
        final(proc).condvar_list@[condvar_id as int] is Some,
        final(proc).mutex_list@[mutex_id as int] is Some,
        final(proc).condvar_at(condvar_id as int).wait_queue@ == old(proc).condvar_at(
            condvar_id as int,
        ).wait_queue@.push(tid),
        ({
            let pre = old(proc).mutex_at(mutex_id as int);
            let post = final(proc).mutex_at(mutex_id as int);
            &&& post.is_blocking() == pre.is_blocking()
            &&& if pre.queue().len() > 0 {
                r.1 == (SchedAction::WakeAndBlock { woken: pre.queue()[0] }) && post.locked()
                    && post.queue() == pre.queue().drop_first()
            } else {
                r.1 == SchedAction::Block && !post.locked() && post.queue().len() == 0
            }
        }),
{
    let centry = proc.condvar_list.remove(condvar_id);
    let mut cv = centry.unwrap();
    let mentry = proc.mutex_list.remove(mutex_id);
    let mut m = mentry.unwrap();
    let woken = cv.wait(tid, &mut m);
    proc.mutex_list.insert(mutex_id, Some(m));
    proc.condvar_list.insert(condvar_id, Some(cv));
    proof {
        assert(final(proc).condvar_list@ =~= old(proc).condvar_list@.update(
            condvar_id as int,
            final(proc).condvar_list@[condvar_id as int],
        ));
        assert(final(proc).mutex_list@ =~= old(proc).mutex_list@.update(
            mutex_id as int,
            final(proc).mutex_list@[mutex_id as int],
        ));
    }
    match woken {
        Some(t) => (0, SchedAction::WakeAndBlock { woken: t }),
        None => (0, SchedAction::Block),
    }
}

} // verus!
