//! Banker's-algorithm resource-allocation tracking and safety verification.
//!
//! A `DeadLockChecker` keeps, for bounded thread and resource counts, the
//! classic `avail` / `alloc` / `need` matrices and answers whether the current
//! allocation state is *safe*: whether some order exists in which every thread
//! can finish, each step consuming only what is available at that point.

use vstd::prelude::*;

verus! {

/// Upper bound on the number of threads a checker can track.
pub const MAX_THREAD: usize = 10;

/// Upper bound on the number of resources a checker can track.
pub const MAX_RESOURCE: usize = 10;

/// A thread-by-resource matrix is well formed when it has exactly
/// `MAX_THREAD` rows of exactly `MAX_RESOURCE` entries each.
pub open spec fn matrix_wf(m: Seq<Seq<usize>>) -> bool {
    &&& m.len() == MAX_THREAD
    &&& forall|t: int| 0 <= t < m.len() ==> (#[trigger] m[t]).len() == MAX_RESOURCE
}

/// Sum of column `j` of `alloc` over thread rows `0 .. upto`.
pub open spec fn col_sum(alloc: Seq<Seq<usize>>, j: int, upto: int) -> int
    decreases upto,
{
    if upto <= 0 {
        0
    } else {
        col_sum(alloc, j, upto - 1) + alloc[upto - 1][j]
    }
}

/// A column sum of machine-word entries is never negative.
pub proof fn lemma_col_sum_nonneg(alloc: Seq<Seq<usize>>, j: int, upto: int)
    ensures
        col_sum(alloc, j, upto) >= 0,
    decreases upto,
{
    if upto > 0 {
        lemma_col_sum_nonneg(alloc, j, upto - 1);
    }
}

/// The column sum dominates every single entry of the column.
pub proof fn lemma_col_sum_lower(alloc: Seq<Seq<usize>>, t0: int, j: int, upto: int)
    requires
        0 <= t0 < upto,
    ensures
        col_sum(alloc, j, upto) >= alloc[t0][j],
    decreases upto,
{
    lemma_col_sum_nonneg(alloc, j, t0);
    if t0 < upto - 1 {
        lemma_col_sum_lower(alloc, t0, j, upto - 1);
    }
}

/// The column sum reads only column `j` of the first `upto` rows.
pub proof fn lemma_col_sum_congruent(a1: Seq<Seq<usize>>, a2: Seq<Seq<usize>>, j: int, upto: int)
    requires
        forall|t: int| 0 <= t < upto ==> a1[t][j] == a2[t][j],
    ensures
        col_sum(a1, j, upto) == col_sum(a2, j, upto),
    decreases upto,
{
    if upto > 0 {
        lemma_col_sum_congruent(a1, a2, j, upto - 1);
    }
}

/// Changing one entry of column `j` shifts the column sum by the difference.
pub proof fn lemma_col_sum_update(alloc: Seq<Seq<usize>>, t0: int, j: int, v: usize, upto: int)
    requires
        0 <= t0 < alloc.len(),
        0 <= j < alloc[t0].len(),
        upto <= alloc.len(),
    ensures
        col_sum(alloc.update(t0, alloc[t0].update(j, v)), j, upto) == if t0 < upto {
            col_sum(alloc, j, upto) + v - alloc[t0][j]
        } else {
            col_sum(alloc, j, upto)
        },
    decreases upto,
{
    let al2 = alloc.update(t0, alloc[t0].update(j, v));
    if upto > 0 {
        lemma_col_sum_update(alloc, t0, j, v, upto - 1);
        if t0 == upto - 1 {
            assert(al2[upto - 1][j] == v);
        } else {
            assert(al2[upto - 1] == alloc[upto - 1]);
        }
    }
}

/// A matrix's deep view is its sequence of row views.
pub broadcast proof fn lemma_deep_view_is_rows(m: Vec<Vec<usize>>)
    ensures
        (#[trigger] m.deep_view()).len() == m@.len(),
        forall|t: int| 0 <= t < m@.len() ==> m.deep_view()[t] == m@[t]@,
{
    assert forall|t: int| 0 <= t < m@.len() implies m.deep_view()[t] == m@[t]@ by {
        assert(m.deep_view()[t] =~= m@[t]@);
    }
}

/// Tracks, per thread and per resource, how many units are available,
/// allocated, and still needed; the state the Banker's algorithm reads.
pub struct DeadLockChecker {
    /// Units of each resource currently unallocated.
    pub avail: Vec<usize>,
    /// Units of each resource held by each thread.
    pub alloc: Vec<Vec<usize>>,
    /// Units of each resource each thread has declared but not yet received.
    pub need: Vec<Vec<usize>>,
}

impl DeadLockChecker {
    /// The matrices have their fixed dimensions and no resource column can
    /// overflow a machine word when all allocations are returned to `avail`.
    pub open spec fn wf(self) -> bool {
        &&& self.avail@.len() == MAX_RESOURCE
        &&& matrix_wf(self.alloc.deep_view())
        &&& matrix_wf(self.need.deep_view())
        &&& forall|j: int|
            0 <= j < MAX_RESOURCE ==> self.avail@[j] + col_sum(
                self.alloc.deep_view(),
                j,
                MAX_THREAD as int,
            ) <= usize::MAX
    }

    /// Every tracked quantity is zero: nothing available, held, or needed.
    pub open spec fn zeroed(self) -> bool {
        &&& forall|j: int| 0 <= j < MAX_RESOURCE ==> self.avail@[j] == 0
        &&& forall|t: int, j: int|
            0 <= t < MAX_THREAD && 0 <= j < MAX_RESOURCE ==> self.alloc.deep_view()[t][j] == 0
        &&& forall|t: int, j: int|
            0 <= t < MAX_THREAD && 0 <= j < MAX_RESOURCE ==> self.need.deep_view()[t][j] == 0
    }

    /// Returns a checker with all matrices zeroed.
    pub fn new() -> (r: Self)
        ensures
            r.wf(),
            r.zeroed(),
    {
        let r = DeadLockChecker { avail: zero_row(), alloc: zero_matrix(), need: zero_matrix() };
        proof {
            assert forall|j2: int| 0 <= j2 < MAX_RESOURCE implies r.avail@[j2] + col_sum(
                r.alloc.deep_view(),
                j2,
                MAX_THREAD as int,
            ) <= usize::MAX by {
                lemma_col_sum_zero(r.alloc.deep_view(), j2, MAX_THREAD as int);
            }
        }
        r
    }
}

/// The need matrix with one more unit declared at `(t, r)`.
pub open spec fn need_plus(need: Seq<Seq<usize>>, t: int, r: int) -> Seq<Seq<usize>> {
    need.update(t, need[t].update(r, (need[t][r] + 1) as usize))
}

/// `post` is `pre` with one more unit of resource `r` declared as needed by
/// thread `t`; the declare phase of an acquisition.
pub open spec fn declares_unit(pre: DeadLockChecker, post: DeadLockChecker, t: int, r: int) -> bool {
    &&& post.avail == pre.avail
    &&& post.alloc == pre.alloc
    &&& post.need.deep_view() == need_plus(pre.need.deep_view(), t, r)
}

/// `post` is `pre` with one unit of resource `r` newly granted to thread
/// `t`: taken from `avail` into `alloc`, the declared need unchanged. The
/// net effect of declaring an intent and committing it in one step.
pub open spec fn acquires_unit(pre: DeadLockChecker, post: DeadLockChecker, t: int, r: int) -> bool {
    &&& post.avail@.len() == pre.avail@.len()
    &&& post.avail@[r] == pre.avail@[r] - 1
    &&& forall|j: int| 0 <= j < pre.avail@.len() && j != r ==> post.avail@[j] == pre.avail@[j]
    &&& post.alloc.deep_view() == pre.alloc.deep_view().update(
        t,
        pre.alloc.deep_view()[t].update(r, (pre.alloc.deep_view()[t][r] + 1) as usize),
    )
    &&& post.need.deep_view() == pre.need.deep_view()
}

/// The two checkers describe the same matrices.
pub open spec fn same_state(a: DeadLockChecker, b: DeadLockChecker) -> bool {
    &&& a.avail@ == b.avail@
    &&& a.alloc.deep_view() == b.alloc.deep_view()
    &&& a.need.deep_view() == b.need.deep_view()
}

/// `post` is `pre` with one unit of resource `r` moved from declared need to
/// a granted allocation of thread `t`; the commit step of an acquisition.
pub open spec fn grants_unit(pre: DeadLockChecker, post: DeadLockChecker, t: int, r: int) -> bool {
    &&& post.avail@.len() == pre.avail@.len()
    &&& post.avail@[r] == pre.avail@[r] - 1
    &&& forall|j: int| 0 <= j < pre.avail@.len() && j != r ==> post.avail@[j] == pre.avail@[j]
    &&& post.alloc.deep_view() == pre.alloc.deep_view().update(
        t,
        pre.alloc.deep_view()[t].update(r, (pre.alloc.deep_view()[t][r] + 1) as usize),
    )
    &&& post.need.deep_view() == pre.need.deep_view().update(
        t,
        pre.need.deep_view()[t].update(r, (pre.need.deep_view()[t][r] - 1) as usize),
    )
}

/// `post` is `pre` with one unit of resource `r` released by thread `t` back
/// to the available pool; the effect of `recycle_res`.
pub open spec fn recycles_unit(pre: DeadLockChecker, post: DeadLockChecker, t: int, r: int) -> bool {
    &&& post.avail@.len() == pre.avail@.len()
    &&& post.avail@[r] == pre.avail@[r] + 1
    &&& forall|j: int| 0 <= j < pre.avail@.len() && j != r ==> post.avail@[j] == pre.avail@[j]
    &&& post.alloc.deep_view() == pre.alloc.deep_view().update(
        t,
        pre.alloc.deep_view()[t].update(r, (pre.alloc.deep_view()[t][r] - 1) as usize),
    )
    &&& post.need.deep_view() == pre.need.deep_view()
}

impl DeadLockChecker {
    /// Records the total capacity of a freshly created resource: sets
    /// `avail[res_id] = mount`, leaving both matrices unchanged.
    pub fn add_res(&mut self, res_id: usize, mount: usize)
        requires
            old(self).wf(),
            res_id < MAX_RESOURCE,
            mount + col_sum(old(self).alloc.deep_view(), res_id as int, MAX_THREAD as int)
                <= usize::MAX,
        ensures
            final(self).wf(),
            final(self).avail@ == old(self).avail@.update(res_id as int, mount),
            final(self).alloc == old(self).alloc,
            final(self).need == old(self).need,
    {
        self.avail.set(res_id, mount);
        proof {
            assert forall|j: int| 0 <= j < MAX_RESOURCE implies self.avail@[j] + col_sum(
                self.alloc.deep_view(),
                j,
                MAX_THREAD as int,
            ) <= usize::MAX by {
                if j != res_id {
                    assert(self.avail@[j] == old(self).avail@[j]);
                }
            }
        }
    }

    /// Returns one unit of `res_id` held by `tid` to the available pool:
    /// `avail[res_id] += 1`, `alloc[tid][res_id] -= 1`. The caller guarantees
    /// the thread currently holds at least one unit.
    pub fn recycle_res(&mut self, tid: usize, res_id: usize)
        requires
            old(self).wf(),
            tid < MAX_THREAD,
            res_id < MAX_RESOURCE,
            old(self).alloc.deep_view()[tid as int][res_id as int] >= 1,
        ensures
            final(self).wf(),
            recycles_unit(*old(self), *final(self), tid as int, res_id as int),
    {
        broadcast use lemma_deep_view_is_rows;

        let ghost pre = *self;
        proof {
            lemma_col_sum_lower(
                self.alloc.deep_view(),
                tid as int,
                res_id as int,
                MAX_THREAD as int,
            );
        }
        let a = self.avail[res_id];
        self.avail.set(res_id, a + 1);
        let held = matrix_get(&self.alloc, tid, res_id);
        matrix_set(&mut self.alloc, tid, res_id, held - 1);
        proof {
            lemma_matrix_entry_change(pre, *self, tid as int, res_id as int);
        }
    }

    /// The declare phase: announces the intent of `tid` to acquire one more
    /// unit of `res_id` by incrementing `need[tid][res_id]`.
    pub fn declare_need(&mut self, tid: usize, res_id: usize)
        requires
            old(self).wf(),
            tid < MAX_THREAD,
            res_id < MAX_RESOURCE,
            old(self).need.deep_view()[tid as int][res_id as int] < usize::MAX,
        ensures
            final(self).wf(),
            final(self).avail == old(self).avail,
            final(self).alloc == old(self).alloc,
            final(self).need.deep_view() == old(self).need.deep_view().update(
                tid as int,
                old(self).need.deep_view()[tid as int].update(
                    res_id as int,
                    (old(self).need.deep_view()[tid as int][res_id as int] + 1) as usize,
                ),
            ),
    {
        broadcast use lemma_deep_view_is_rows;

        let d = matrix_get(&self.need, tid, res_id);
        matrix_set(&mut self.need, tid, res_id, d + 1);
    }

    /// Rolls a declared intent back: decrements `need[tid][res_id]`; the
    /// mirror of `declare_need`, used when a request is denied.
    pub fn undo_need(&mut self, tid: usize, res_id: usize)
        requires
            old(self).wf(),
            tid < MAX_THREAD,
            res_id < MAX_RESOURCE,
            old(self).need.deep_view()[tid as int][res_id as int] >= 1,
        ensures
            final(self).wf(),
            final(self).avail == old(self).avail,
            final(self).alloc == old(self).alloc,
            final(self).need.deep_view() == old(self).need.deep_view().update(
                tid as int,
                old(self).need.deep_view()[tid as int].update(
                    res_id as int,
                    (old(self).need.deep_view()[tid as int][res_id as int] - 1) as usize,
                ),
            ),
    {
        broadcast use lemma_deep_view_is_rows;

        let d = matrix_get(&self.need, tid, res_id);
        matrix_set(&mut self.need, tid, res_id, d - 1);
    }

    /// The commit step after a granted acquisition: moves one declared unit
    /// of `res_id` into the allocation of `tid` and takes it from `avail`.
    pub fn commit_grant(&mut self, tid: usize, res_id: usize)
        requires
            old(self).wf(),
            tid < MAX_THREAD,
            res_id < MAX_RESOURCE,
            old(self).need.deep_view()[tid as int][res_id as int] >= 1,
            old(self).avail@[res_id as int] >= 1,
        ensures
            final(self).wf(),
            grants_unit(*old(self), *final(self), tid as int, res_id as int),
    {
        broadcast use lemma_deep_view_is_rows;

        let ghost pre = *self;
        let d = matrix_get(&self.need, tid, res_id);
        matrix_set(&mut self.need, tid, res_id, d - 1);
        let held = matrix_get(&self.alloc, tid, res_id);
        proof {
            assert(pre.avail@[res_id as int] + col_sum(
                pre.alloc.deep_view(),
                res_id as int,
                MAX_THREAD as int,
            ) <= usize::MAX);
            lemma_col_sum_nonneg(pre.alloc.deep_view(), res_id as int, MAX_THREAD as int);
            lemma_col_sum_lower(pre.alloc.deep_view(), tid as int, res_id as int, MAX_THREAD as int);
        }
        matrix_set(&mut self.alloc, tid, res_id, held + 1);
        let a = self.avail[res_id];
        self.avail.set(res_id, a - 1);
        proof {
            lemma_matrix_entry_change(pre, *self, tid as int, res_id as int);
        }
    }
}

/// Reads entry `(t, j)` of a matrix.
fn matrix_get(m: &Vec<Vec<usize>>, t: usize, j: usize) -> (r: usize)
    requires
        t < m@.len(),
        j < m.deep_view()[t as int].len(),
    ensures
        r == m.deep_view()[t as int][j as int],
{
    broadcast use lemma_deep_view_is_rows;

    m[t][j]
}

/// Writes entry `(t, j)` of a matrix.
fn matrix_set(m: &mut Vec<Vec<usize>>, t: usize, j: usize, v: usize)
    requires
        t < old(m)@.len(),
        j < old(m).deep_view()[t as int].len(),
    ensures
        final(m)@.len() == old(m)@.len(),
        final(m).deep_view() == old(m).deep_view().update(
            t as int,
            old(m).deep_view()[t as int].update(j as int, v),
        ),
{
    broadcast use lemma_deep_view_is_rows;

    let mut row: Vec<usize> = m.remove(t);
    row.set(j, v);
    m.insert(t, row);
    proof {
        assert(m@ =~= old(m)@.update(t as int, m@[t as int]));
        assert(m.deep_view() =~= old(m).deep_view().update(
            t as int,
            old(m).deep_view()[t as int].update(j as int, v),
        ));
    }
}

/// After updating one matrix entry, every column sum bound of `wf` carries
/// over when the corresponding `avail` entry moved the opposite way or the
/// column became smaller.
proof fn lemma_matrix_entry_change(pre: DeadLockChecker, post: DeadLockChecker, t: int, r: int)
    requires
        pre.wf(),
        0 <= t < MAX_THREAD,
        0 <= r < MAX_RESOURCE,
        post.avail@.len() == MAX_RESOURCE,
        matrix_wf(post.alloc.deep_view()),
        matrix_wf(post.need.deep_view()),
        post.alloc.deep_view() == pre.alloc.deep_view().update(
            t,
            pre.alloc.deep_view()[t].update(r, post.alloc.deep_view()[t][r]),
        ),
        post.avail@[r] + post.alloc.deep_view()[t][r] <= pre.avail@[r] + pre.alloc.deep_view()[t][r],
        forall|j: int| 0 <= j < MAX_RESOURCE && j != r ==> post.avail@[j] == pre.avail@[j],
    ensures
        forall|j: int|
            0 <= j < MAX_RESOURCE ==> post.avail@[j] + col_sum(
                post.alloc.deep_view(),
                j,
                MAX_THREAD as int,
            ) <= usize::MAX,
{
    let pa = pre.alloc.deep_view();
    let qa = post.alloc.deep_view();
    assert forall|j: int| 0 <= j < MAX_RESOURCE implies post.avail@[j] + col_sum(
        qa,
        j,
        MAX_THREAD as int,
    ) <= usize::MAX by {
        if j == r {
            lemma_col_sum_update(pa, t, r, qa[t][r], MAX_THREAD as int);
        } else {
            assert forall|u: int| 0 <= u < MAX_THREAD implies qa[u][j] == pa[u][j] by {
                if u == t {
                    assert(qa[t] == pa[t].update(r, qa[t][r]));
                }
            }
            lemma_col_sum_congruent(qa, pa, j, MAX_THREAD as int);
        }
    }
}

impl DeadLockChecker {
    /// The Banker's-algorithm safety test: simulates thread completions,
    /// repeatedly finishing any thread whose whole outstanding need fits in
    /// the current work pool, and reports whether every one of the first
    /// `thread_count` threads finished. The verdict is exactly the safety
    /// condition: `true` iff some completion order for all threads exists.
    /// A pure read: the checker itself is never mutated.
    #[verifier::loop_isolation(false)]
    pub fn is_safe(&self, thread_count: usize, res_count: usize) -> (r: bool)
        requires
            self.wf(),
            thread_count <= MAX_THREAD,
            res_count <= MAX_RESOURCE,
        ensures
            r == safe_state(
                self.avail@,
                self.alloc.deep_view(),
                self.need.deep_view(),
                thread_count as int,
                res_count as int,
            ),
    {
        broadcast use lemma_deep_view_is_rows;

        let ghost av = self.avail@;
        let ghost al = self.alloc.deep_view();
        let ghost nd = self.need.deep_view();

        let mut work: Vec<usize> = Vec::new();
        let mut k: usize = 0;
        while k < res_count
            invariant
                k <= res_count,
                work@.len() == k,
                forall|q: int| 0 <= q < k ==> work@[q] == av[q],
            decreases res_count - k,
        {
            work.push(self.avail[k]);
            k += 1;
        }
        let mut finish: Vec<bool> = Vec::new();
        let mut k2: usize = 0;
        while k2 < thread_count
            invariant
                k2 <= thread_count,
                finish@.len() == k2,
                forall|q: int| 0 <= q < k2 ==> finish@[q] == false,
            decreases thread_count - k2,
        {
            finish.push(false);
            k2 += 1;
        }
        let ghost mut done: Seq<int> = Seq::empty();
        let mut stuck = false;
        while !stuck
            invariant
                work@.len() == res_count,
                finish@.len() == thread_count,
                done.no_duplicates(),
                forall|q: int| 0 <= q < done.len() ==> 0 <= #[trigger] done[q] < thread_count,
                forall|t: int| 0 <= t < thread_count ==> (finish@[t] <==> done.contains(t)),
                forall|j: int| 0 <= j < res_count ==> work@[j] == work_of(av, al, done, j),
                done.len() <= thread_count,
                completion_order_ok(av, al, nd, done, thread_count as int, res_count as int),
                stuck ==> forall|t: int|
                    0 <= t < thread_count && !finish@[t] ==> !can_finish(
                        nd[t],
                        av,
                        al,
                        done,
                        res_count as int,
                    ),
            decreases thread_count - done.len(), (if stuck { 0int } else { 1int }),
        {
            let mut sel: Option<usize> = None;
            let mut i: usize = 0;
            while i < thread_count
                invariant
                    i <= thread_count,
                    match sel {
                        Option::None => forall|t: int|
                            0 <= t < i ==> finish@[t] || !can_finish(
                                nd[t],
                                av,
                                al,
                                done,
                                res_count as int,
                            ),
                        Option::Some(s) => s < thread_count && !finish@[s as int] && can_finish(
                            nd[s as int],
                            av,
                            al,
                            done,
                            res_count as int,
                        ),
                    },
                decreases thread_count - i,
            {
                if !finish[i] {
                    let mut infeasible = false;
                    let mut j: usize = 0;
                    while j < res_count
                        invariant
                            j <= res_count,
                            i < thread_count,
                            infeasible <==> exists|q: int|
                                0 <= q < j && nd[i as int][q] > work_of(av, al, done, q),
                        decreases res_count - j,
                    {
                        let nval = matrix_get(&self.need, i, j);
                        if nval > work[j] {
                            infeasible = true;
                        }
                        j += 1;
                    }
                    if !infeasible {
                        sel = Some(i);
                    }
                }
                i += 1;
            }
            match sel {
                Option::Some(t) => {
                    let ghost done0 = done;
                    proof {
                        assert(!done0.contains(t as int));
                        if done0.len() == thread_count as int {
                            lemma_full_order_covers(done0, thread_count as int);
                            assert(done0.contains(t as int));
                        }
                        assert(done0.len() < thread_count as int);
                    }
                    let mut j: usize = 0;
                    while j < res_count
                        invariant
                            j <= res_count,
                            t < thread_count,
                            work@.len() == res_count,
                            forall|q: int|
                                0 <= q < j ==> work@[q] == work_of(av, al, done0.push(t as int), q),
                            forall|q: int| j <= q < res_count ==> work@[q] == work_of(av, al, done0, q),
                        decreases res_count - j,
                    {
                        proof {
                            assert(done0.push(t as int).drop_last() =~= done0);
                            assert(done0.push(t as int).no_duplicates()) by {
                                assert forall|x: int, y: int|
                                    0 <= x < y < done0.push(t as int).len() implies done0.push(
                                    t as int,
                                )[x] != done0.push(t as int)[y] by {
                                    if y == done0.len() {
                                        assert(done0.contains(done0[x]));
                                    }
                                }
                            }
                            lemma_work_bounded(av, al, done0.push(t as int), j as int);
                        }
                        let w = work[j];
                        let a = matrix_get(&self.alloc, t, j);
                        work.set(j, w + a);
                        j += 1;
                    }
                    finish.set(t, true);
                    proof {
                        done = done0.push(t as int);
                        assert(done.no_duplicates()) by {
                            assert forall|x: int, y: int|
                                0 <= x < y < done.len() implies done[x] != done[y] by {
                                if y == done0.len() {
                                    assert(done0.contains(done0[x]));
                                }
                            }
                        }
                        assert forall|t2: int| 0 <= t2 < thread_count implies (finish@[t2]
                            <==> done.contains(t2)) by {
                            if t2 == t as int {
                                assert(done[done0.len() as int] == t as int);
                            } else {
                                if done.contains(t2) {
                                    let q = choose|q: int| 0 <= q < done.len() && done[q] == t2;
                                    assert(done0[q] == t2);
                                }
                                if done0.contains(t2) {
                                    let q = choose|q: int| 0 <= q < done0.len() && done0[q] == t2;
                                    assert(done[q] == t2);
                                }
                            }
                        }
                        assert(completion_order_ok(
                            av,
                            al,
                            nd,
                            done,
                            thread_count as int,
                            res_count as int,
                        )) by {
                            assert forall|i2: int| 0 <= i2 < done.len() implies can_finish(
                                nd[#[trigger] done[i2]],
                                av,
                                al,
                                done.take(i2),
                                res_count as int,
                            ) by {
                                assert(done.take(i2) =~= done0.take(i2));
                                if i2 < done0.len() {
                                    assert(done[i2] == done0[i2]);
                                    assert(can_finish(
                                        nd[done0[i2]],
                                        av,
                                        al,
                                        done0.take(i2),
                                        res_count as int,
                                    ));
                                } else {
                                    assert(done[i2] == t as int);
                                    assert(done.take(i2) =~= done0);
                                }
                            }
                        }
                    }
                }
                Option::None => {
                    stuck = true;
                }
            }
        }
        let mut all_fin = true;
        let mut t2: usize = 0;
        while t2 < thread_count
            invariant
                t2 <= thread_count,
                all_fin <==> (forall|q: int| 0 <= q < t2 ==> finish@[q]),
            decreases thread_count - t2,
        {
            if !finish[t2] {
                all_fin = false;
            }
            t2 += 1;
        }
        proof {
            if all_fin {
                lemma_cover_full_length(done, thread_count as int);
                assert(safe_state(av, al, nd, thread_count as int, res_count as int)) by {
                    assert(completion_order_ok(
                        av,
                        al,
                        nd,
                        done,
                        thread_count as int,
                        res_count as int,
                    ) && done.len() == thread_count as int);
                }
            } else {
                let t0 = choose|q: int| 0 <= q < thread_count && !finish@[q];
                assert(!done.contains(t0));
                lemma_blocked_set_unsafe(av, al, nd, done, thread_count as int, res_count as int);
            }
        }
        all_fin
    }
}

/// Units of resource `j` at hand once every thread listed in `done` has
/// finished and returned its whole allocation to the pool.
pub open spec fn work_of(avail: Seq<usize>, alloc: Seq<Seq<usize>>, done: Seq<int>, j: int) -> int
    decreases done.len(),
{
    if done.len() == 0 {
        avail[j] as int
    } else {
        work_of(avail, alloc, done.drop_last(), j) + alloc[done.last()][j]
    }
}

/// A thread with outstanding needs `need_row` can run to completion once the
/// threads in `done` have finished: its need fits in the work pool.
pub open spec fn can_finish(
    need_row: Seq<usize>,
    avail: Seq<usize>,
    alloc: Seq<Seq<usize>>,
    done: Seq<int>,
    rcount: int,
) -> bool {
    forall|j: int| 0 <= j < rcount ==> need_row[j] <= work_of(avail, alloc, done, j)
}

/// `order` lists distinct threads of `0 .. tcount` such that each can finish
/// using only what is available after its predecessors finished.
pub open spec fn completion_order_ok(
    avail: Seq<usize>,
    alloc: Seq<Seq<usize>>,
    need: Seq<Seq<usize>>,
    order: Seq<int>,
    tcount: int,
    rcount: int,
) -> bool {
    &&& order.no_duplicates()
    &&& forall|i: int| 0 <= i < order.len() ==> 0 <= #[trigger] order[i] < tcount
    &&& forall|i: int|
        0 <= i < order.len() ==> can_finish(
            need[#[trigger] order[i]],
            avail,
            alloc,
            order.take(i),
            rcount,
        )
}

/// The Banker's safety condition: some order exists in which all of the
/// `tcount` threads can finish, each step consuming only currently available
/// and progressively released resources.
pub open spec fn safe_state(
    avail: Seq<usize>,
    alloc: Seq<Seq<usize>>,
    need: Seq<Seq<usize>>,
    tcount: int,
    rcount: int,
) -> bool {
    exists|order: Seq<int>|
        #[trigger] completion_order_ok(avail, alloc, need, order, tcount, rcount) && order.len()
            == tcount
}

/// Finished threads only ever add to the pool: work never drops below `avail`.
pub proof fn lemma_work_at_least_avail(
    avail: Seq<usize>,
    alloc: Seq<Seq<usize>>,
    done: Seq<int>,
    j: int,
)
    ensures
        work_of(avail, alloc, done, j) >= avail[j],
    decreases done.len(),
{
    if done.len() > 0 {
        lemma_work_at_least_avail(avail, alloc, done.drop_last(), j);
    }
}

/// Taking one thread out of `done` takes exactly its allocation out of work.
proof fn lemma_work_remove(avail: Seq<usize>, alloc: Seq<Seq<usize>>, f: Seq<int>, i: int, j: int)
    requires
        0 <= i < f.len(),
    ensures
        work_of(avail, alloc, f.remove(i), j) + alloc[f[i]][j] == work_of(avail, alloc, f, j),
    decreases f.len(),
{
    if i == f.len() - 1 {
        assert(f.remove(i) =~= f.drop_last());
    } else {
        lemma_work_remove(avail, alloc, f.drop_last(), i, j);
        assert(f.remove(i).drop_last() =~= f.drop_last().remove(i));
        assert(f.remove(i).last() == f.last());
    }
}

/// Work grows with the set of finished threads: completing more threads never
/// shrinks the pool.
pub proof fn lemma_work_mono(
    avail: Seq<usize>,
    alloc: Seq<Seq<usize>>,
    p: Seq<int>,
    f: Seq<int>,
    j: int,
)
    requires
        p.no_duplicates(),
        f.no_duplicates(),
        forall|x: int| p.contains(x) ==> f.contains(x),
    ensures
        work_of(avail, alloc, p, j) <= work_of(avail, alloc, f, j),
    decreases p.len(),
{
    if p.len() == 0 {
        lemma_work_at_least_avail(avail, alloc, f, j);
    } else {
        let x = p.last();
        assert(p.contains(x)) by {
            assert(p[p.len() - 1] == x);
        }
        assert(f.contains(x));
        let i = choose|i: int| 0 <= i < f.len() && f[i] == x;
        lemma_work_remove(avail, alloc, f, i, j);
        let f2 = f.remove(i);
        let p2 = p.drop_last();
        assert(p2.no_duplicates());
        assert forall|a: int, b: int| 0 <= a < b < f2.len() implies f2[a] != f2[b] by {
            if b < i {
                assert(f2[a] == f[a] && f2[b] == f[b]);
            } else if a < i {
                assert(f2[a] == f[a] && f2[b] == f[b + 1]);
            } else {
                assert(f2[a] == f[a + 1] && f2[b] == f[b + 1]);
            }
        }
        assert(f2.no_duplicates());
        assert forall|y: int| p2.contains(y) implies f2.contains(y) by {
            let k = choose|k: int| 0 <= k < p2.len() && p2[k] == y;
            assert(p[k] == y);
            assert(p.contains(y));
            assert(y != x);
            assert(f.contains(y));
            let m = choose|m: int| 0 <= m < f.len() && f[m] == y;
            if m < i {
                assert(f2[m] == y);
            } else {
                assert(m != i);
                assert(f2[m - 1] == y);
            }
        }
        lemma_work_mono(avail, alloc, p2, f2, j);
    }
}

/// Work never exceeds the total ever registered: `avail` plus the whole
/// allocation column.
pub proof fn lemma_work_bounded(avail: Seq<usize>, alloc: Seq<Seq<usize>>, done: Seq<int>, j: int)
    requires
        done.no_duplicates(),
        forall|q: int| 0 <= q < done.len() ==> 0 <= #[trigger] done[q] < MAX_THREAD,
    ensures
        work_of(avail, alloc, done, j) <= avail[j] + col_sum(alloc, j, MAX_THREAD as int),
{
    let id = Seq::new(MAX_THREAD as nat, |i: int| i);
    assert forall|x: int| done.contains(x) implies id.contains(x) by {
        let q = choose|q: int| 0 <= q < done.len() && done[q] == x;
        assert(id[x] == x);
    }
    lemma_work_mono(avail, alloc, done, id, j);
    lemma_work_of_id(avail, alloc, j, MAX_THREAD as int);
}

/// Completing threads `0 .. n` in index order yields `avail` plus the column
/// sum over those rows.
proof fn lemma_work_of_id(avail: Seq<usize>, alloc: Seq<Seq<usize>>, j: int, n: int)
    requires
        0 <= n,
    ensures
        work_of(avail, alloc, Seq::new(n as nat, |i: int| i), j) == avail[j] + col_sum(
            alloc,
            j,
            n,
        ),
    decreases n,
{
    let id = Seq::new(n as nat, |i: int| i);
    if n > 0 {
        lemma_work_of_id(avail, alloc, j, n - 1);
        assert(id.drop_last() =~= Seq::new((n - 1) as nat, |i: int| i));
        assert(id.last() == n - 1);
    }
}

/// A no-duplicate sequence over `0 .. n` that contains every such value has
/// exactly `n` entries.
proof fn lemma_cover_full_length(order: Seq<int>, n: int)
    requires
        order.no_duplicates(),
        0 <= n,
        forall|q: int| 0 <= q < order.len() ==> 0 <= #[trigger] order[q] < n,
        forall|t: int| 0 <= t < n ==> order.contains(t),
    ensures
        order.len() == n,
{
    order.unique_seq_to_set();
    vstd::set_lib::lemma_int_range(0, n);
    assert(order.to_set() =~= vstd::set_lib::set_int_range(0, n)) by {
        assert forall|x: int| order.to_set().contains(x) implies 0 <= x < n by {
            let q = choose|q: int| 0 <= q < order.len() && order[q] == x;
        }
    }
}

/// A no-duplicate sequence of `n` entries over `0 .. n` covers every value.
proof fn lemma_full_order_covers(order: Seq<int>, n: int)
    requires
        order.no_duplicates(),
        order.len() == n,
        forall|q: int| 0 <= q < order.len() ==> 0 <= #[trigger] order[q] < n,
    ensures
        forall|t: int| 0 <= t < n ==> order.contains(t),
{
    order.unique_seq_to_set();
    vstd::set_lib::lemma_int_range(0, n);
    assert(order.to_set().subset_of(vstd::set_lib::set_int_range(0, n))) by {
        assert forall|x: int| order.to_set().contains(x) implies 0 <= x < n by {
            let q = choose|q: int| 0 <= q < order.len() && order[q] == x;
        }
    }
    vstd::set_lib::lemma_subset_equality(order.to_set(), vstd::set_lib::set_int_range(0, n));
    assert forall|t: int| 0 <= t < n implies order.contains(t) by {
        assert(vstd::set_lib::set_int_range(0, n).contains(t));
        assert(order.to_set().contains(t));
    }
}

/// Index of the first entry of `order` that lies outside `done`.
proof fn find_first_outside(order: Seq<int>, done: Seq<int>) -> (i: int)
    requires
        exists|k: int| 0 <= k < order.len() && !done.contains(#[trigger] order[k]),
    ensures
        0 <= i < order.len(),
        !done.contains(order[i]),
        forall|k: int| 0 <= k < i ==> done.contains(#[trigger] order[k]),
    decreases order.len(),
{
    if !done.contains(order[0]) {
        0
    } else {
        let rest = order.drop_first();
        let kw = choose|k: int| 0 <= k < order.len() && !done.contains(#[trigger] order[k]);
        assert(kw != 0);
        assert(rest[kw - 1] == order[kw]);
        let i2 = find_first_outside(rest, done);
        assert(rest[i2] == order[i2 + 1]);
        assert forall|k: int| 0 <= k < i2 + 1 implies done.contains(#[trigger] order[k]) by {
            if k > 0 {
                assert(rest[k - 1] == order[k]);
            }
        }
        i2 + 1
    }
}

/// When every thread outside the no-duplicate collection `done` needs more
/// than the work pool offers and at least one thread is outside, the state is
/// unsafe: no completion order for all threads exists.
pub proof fn lemma_blocked_set_unsafe(
    avail: Seq<usize>,
    alloc: Seq<Seq<usize>>,
    need: Seq<Seq<usize>>,
    done: Seq<int>,
    tcount: int,
    rcount: int,
)
    requires
        done.no_duplicates(),
        forall|q: int| 0 <= q < done.len() ==> 0 <= #[trigger] done[q] < tcount,
        forall|t: int|
            0 <= t < tcount && !done.contains(t) ==> !can_finish(need[t], avail, alloc, done, rcount),
        exists|t: int| 0 <= t < tcount && !done.contains(t),
    ensures
        !safe_state(avail, alloc, need, tcount, rcount),
{
    if safe_state(avail, alloc, need, tcount, rcount) {
        let order = choose|order: Seq<int>|
            #[trigger] completion_order_ok(avail, alloc, need, order, tcount, rcount)
                && order.len() == tcount;
        lemma_full_order_covers(order, tcount);
        let t0 = choose|t: int| 0 <= t < tcount && !done.contains(t);
        assert(order.contains(t0));
        let kw = choose|k: int| 0 <= k < order.len() && order[k] == t0;
        assert(!done.contains(order[kw]));
        let i = find_first_outside(order, done);
        let p = order.take(i);
        let ti = order[i];
        assert(p.no_duplicates());
        assert forall|y: int| p.contains(y) implies done.contains(y) by {
            let k = choose|k: int| 0 <= k < p.len() && p[k] == y;
            assert(order[k] == y);
        }
        assert(can_finish(need[ti], avail, alloc, p, rcount));
        assert forall|j: int| 0 <= j < rcount implies need[ti][j] <= work_of(
            avail,
            alloc,
            done,
            j,
        ) by {
            lemma_work_mono(avail, alloc, p, done, j);
        }
        assert(can_finish(need[ti], avail, alloc, done, rcount));
        assert(0 <= ti < tcount && !done.contains(ti));
        assert(false);
    }
}

/// Deadlock-avoidance soundness: from a safe state no collection of finished
/// threads can leave the rest stuck. Whatever distinct threads have already
/// completed, some remaining thread's whole outstanding need still fits in
/// the pool — so granting requests only in safe states never reaches a
/// genuine circular wait.
pub proof fn lemma_safe_state_progress(
    avail: Seq<usize>,
    alloc: Seq<Seq<usize>>,
    need: Seq<Seq<usize>>,
    done: Seq<int>,
    tcount: int,
    rcount: int,
)
    requires
        safe_state(avail, alloc, need, tcount, rcount),
        done.no_duplicates(),
        forall|q: int| 0 <= q < done.len() ==> 0 <= #[trigger] done[q] < tcount,
        done.len() < tcount,
    ensures
        exists|t: int|
            0 <= t < tcount && !done.contains(t) && can_finish(need[t], avail, alloc, done, rcount),
{
    assert(exists|t: int| 0 <= t < tcount && !done.contains(t)) by {
        if forall|t: int| 0 <= t < tcount ==> done.contains(t) {
            lemma_cover_full_length(done, tcount);
        }
    }
    if !(exists|t: int|
        0 <= t < tcount && !done.contains(t) && can_finish(need[t], avail, alloc, done, rcount)) {
        lemma_blocked_set_unsafe(avail, alloc, need, done, tcount, rcount);
    }
}

/// An unconstrained pool never blocks safety: while every declared need is
/// zero the state is safe outright, whatever is available or allocated.
pub proof fn lemma_no_need_implies_safe(
    avail: Seq<usize>,
    alloc: Seq<Seq<usize>>,
    need: Seq<Seq<usize>>,
    tcount: int,
    rcount: int,
)
    requires
        0 <= tcount,
        forall|t: int, j: int| 0 <= t < tcount && 0 <= j < rcount ==> need[t][j] == 0,
    ensures
        safe_state(avail, alloc, need, tcount, rcount),
{
    let id = Seq::new(tcount as nat, |i: int| i);
    assert forall|i: int| 0 <= i < id.len() implies can_finish(
        need[#[trigger] id[i]],
        avail,
        alloc,
        id.take(i),
        rcount,
    ) by {
        assert forall|j: int| 0 <= j < rcount implies need[id[i]][j] <= work_of(
            avail,
            alloc,
            id.take(i),
            j,
        ) by {
            lemma_work_at_least_avail(avail, alloc, id.take(i), j);
        }
    }
    assert(completion_order_ok(avail, alloc, need, id, tcount, rcount));
}

/// Work in column `j` reads `avail` only at `j`.
proof fn lemma_work_avail_congruent(
    av1: Seq<usize>,
    av2: Seq<usize>,
    alloc: Seq<Seq<usize>>,
    done: Seq<int>,
    j: int,
)
    requires
        av1[j] == av2[j],
    ensures
        work_of(av1, alloc, done, j) == work_of(av2, alloc, done, j),
    decreases done.len(),
{
    if done.len() > 0 {
        lemma_work_avail_congruent(av1, av2, alloc, done.drop_last(), j);
    }
}

/// A completion order survives changing the pool of a resource nobody needs.
proof fn lemma_order_ignores_unneeded_avail(
    av1: Seq<usize>,
    av2: Seq<usize>,
    alloc: Seq<Seq<usize>>,
    need: Seq<Seq<usize>>,
    order: Seq<int>,
    tcount: int,
    rcount: int,
    r: int,
)
    requires
        completion_order_ok(av1, alloc, need, order, tcount, rcount),
        forall|t: int| 0 <= t < tcount ==> need[t][r] == 0,
        forall|j: int| 0 <= j < rcount && j != r ==> av1[j] == av2[j],
    ensures
        completion_order_ok(av2, alloc, need, order, tcount, rcount),
{
    assert forall|i: int| 0 <= i < order.len() implies can_finish(
        need[#[trigger] order[i]],
        av2,
        alloc,
        order.take(i),
        rcount,
    ) by {
        assert(can_finish(need[order[i]], av1, alloc, order.take(i), rcount));
        assert forall|j: int| 0 <= j < rcount implies need[order[i]][j] <= work_of(
            av2,
            alloc,
            order.take(i),
            j,
        ) by {
            if j == r {
                lemma_work_at_least_avail(av2, alloc, order.take(i), j);
            } else {
                lemma_work_avail_congruent(av1, av2, alloc, order.take(i), j);
            }
        }
    }
}

/// An unconstrained resource never blocks safety: while no thread needs
/// resource `r`, registering any capacity for it leaves the safety verdict
/// exactly as it was.
pub proof fn lemma_unneeded_resource_keeps_safety(
    avail: Seq<usize>,
    alloc: Seq<Seq<usize>>,
    need: Seq<Seq<usize>>,
    r: int,
    n: usize,
    tcount: int,
    rcount: int,
)
    requires
        0 <= r < avail.len(),
        rcount <= avail.len(),
        forall|t: int| 0 <= t < tcount ==> need[t][r] == 0,
    ensures
        safe_state(avail.update(r, n), alloc, need, tcount, rcount) == safe_state(
            avail,
            alloc,
            need,
            tcount,
            rcount,
        ),
{
    let av2 = avail.update(r, n);
    if safe_state(avail, alloc, need, tcount, rcount) {
        let order = choose|order: Seq<int>|
            #[trigger] completion_order_ok(avail, alloc, need, order, tcount, rcount)
                && order.len() == tcount;
        lemma_order_ignores_unneeded_avail(avail, av2, alloc, need, order, tcount, rcount, r);
        assert(completion_order_ok(av2, alloc, need, order, tcount, rcount) && order.len()
            == tcount);
    }
    if safe_state(av2, alloc, need, tcount, rcount) {
        let order = choose|order: Seq<int>|
            #[trigger] completion_order_ok(av2, alloc, need, order, tcount, rcount) && order.len()
                == tcount;
        lemma_order_ignores_unneeded_avail(av2, avail, alloc, need, order, tcount, rcount, r);
        assert(completion_order_ok(avail, alloc, need, order, tcount, rcount) && order.len()
            == tcount);
    }
}

/// Releasing exactly the unit previously granted restores the pool: a grant
/// at `(t, r)` followed by a recycle at `(t, r)` leaves `avail` and `alloc`
/// as they were, with only the declared need one unit lower.
pub proof fn lemma_release_restores_grant(
    a: DeadLockChecker,
    b: DeadLockChecker,
    c: DeadLockChecker,
    t: int,
    r: int,
)
    requires
        a.wf(),
        0 <= t < MAX_THREAD,
        0 <= r < MAX_RESOURCE,
        a.need.deep_view()[t][r] >= 1,
        a.avail@[r] >= 1,
        grants_unit(a, b, t, r),
        recycles_unit(b, c, t, r),
    ensures
        c.avail@ == a.avail@,
        c.alloc.deep_view() == a.alloc.deep_view(),
        c.need.deep_view() == b.need.deep_view(),
{
    lemma_col_sum_lower(a.alloc.deep_view(), t, r, MAX_THREAD as int);
    assert(a.alloc.deep_view()[t][r] + 1 <= usize::MAX);
    assert(c.avail@ =~= a.avail@);
    assert(c.alloc.deep_view() =~~= a.alloc.deep_view());
}

/// Returns a row of `MAX_RESOURCE` zeroes.
fn zero_row() -> (r: Vec<usize>)
    ensures
        r@.len() == MAX_RESOURCE,
        forall|j: int| 0 <= j < MAX_RESOURCE ==> r@[j] == 0,
{
    let mut row: Vec<usize> = Vec::new();
    let mut k: usize = 0;
    while k < MAX_RESOURCE
        invariant
            k <= MAX_RESOURCE,
            row@.len() == k,
            forall|q: int| 0 <= q < k ==> row@[q] == 0,
        decreases MAX_RESOURCE - k,
    {
        row.push(0);
        k += 1;
    }
    row
}

/// Returns a `MAX_THREAD` by `MAX_RESOURCE` matrix of zeroes.
fn zero_matrix() -> (r: Vec<Vec<usize>>)
    ensures
        matrix_wf(r.deep_view()),
        forall|t: int, j: int|
            0 <= t < MAX_THREAD && 0 <= j < MAX_RESOURCE ==> r.deep_view()[t][j] == 0,
{
    broadcast use lemma_deep_view_is_rows;

    let mut m: Vec<Vec<usize>> = Vec::new();
    let mut t: usize = 0;
    while t < MAX_THREAD
        invariant
            t <= MAX_THREAD,
            m@.len() == t,
            forall|u: int| 0 <= u < t ==> (#[trigger] m@[u])@.len() == MAX_RESOURCE,
            forall|u: int, k: int| 0 <= u < t && 0 <= k < MAX_RESOURCE ==> #[trigger] m@[u]@[k] == 0,
        decreases MAX_THREAD - t,
    {
        m.push(zero_row());
        t += 1;
    }
    m
}

/// A column of zeroes sums to zero.
pub proof fn lemma_col_sum_zero(alloc: Seq<Seq<usize>>, j: int, upto: int)
    requires
        forall|t: int| 0 <= t < upto ==> alloc[t][j] == 0,
    ensures
        col_sum(alloc, j, upto) == 0,
    decreases upto,
{
    if upto > 0 {
        lemma_col_sum_zero(alloc, j, upto - 1);
    }
}

} // verus!
