//! What holds of every pool, stated over its model and proved.
use vstd::prelude::*;

use crate::model::{lemma_take_keeps_wf, PoolView};

verus! {

/// The pool after each of the submitted `jobs`, in order.
pub open spec fn submit_all<T>(m: PoolView<T>, jobs: Seq<T>) -> PoolView<T>
    decreases jobs.len(),
{
    if jobs.len() == 0 {
        m
    } else {
        submit_all(m, jobs.drop_last()).submit(jobs.last())
    }
}

/// The pool after workers `0`, `1`, ..., `n - 1` have each asked for a job, in that order.
pub open spec fn take_each<T>(m: PoolView<T>, n: nat) -> PoolView<T>
    decreases n,
{
    if n == 0 {
        m
    } else {
        take_each(m, (n - 1) as nat).take(n - 1)
    }
}

/// A pool built with a positive size is well formed and has exactly that many
/// live workers, each idle, with nothing queued or running.
pub proof fn lemma_new_pool_has_size_workers<T>(size: nat)
    requires
        size > 0,
    ensures
        PoolView::<T>::initial(size).wf(),
        PoolView::<T>::initial(size).size() == size,
        forall|w: int| 0 <= w < size ==> #[trigger] PoolView::<T>::initial(size).is_idle(w),
        PoolView::<T>::initial(size).pending.len() == 0,
        forall|t: int| !#[trigger] PoolView::<T>::initial(size).is_running(t),
{
}

/// Submitting jobs to a fresh pool queues them in submission order, the
/// `i`-th with ticket `i`.
pub proof fn lemma_submissions_queue_in_order<T>(size: nat, jobs: Seq<T>)
    requires
        size > 0,
        jobs.len() < u64::MAX,
    ensures
        submit_all(PoolView::<T>::initial(size), jobs).wf(),
        submit_all(PoolView::<T>::initial(size), jobs).submitted == jobs.len(),
        submit_all(PoolView::<T>::initial(size), jobs).workers == PoolView::<T>::initial(
            size,
        ).workers,
        submit_all(PoolView::<T>::initial(size), jobs).pending.len() == jobs.len(),
        forall|i: int|
            0 <= i < jobs.len() ==> #[trigger] submit_all(
                PoolView::<T>::initial(size),
                jobs,
            ).pending[i] == (i as u64, jobs[i]),
    decreases jobs.len(),
{
    let m0 = PoolView::<T>::initial(size);
    if jobs.len() > 0 {
        let prev = jobs.drop_last();
        lemma_submissions_queue_in_order(size, prev);
        let p = submit_all(m0, prev);
        crate::model::lemma_submit_keeps_wf(p, jobs.last());
        let s = submit_all(m0, jobs);
        assert(s == p.submit(jobs.last()));
        assert forall|i: int| 0 <= i < jobs.len() implies #[trigger] s.pending[i] == (
        i as u64,
        jobs[i],
        ) by {
            if i < prev.len() {
                assert(s.pending[i] == p.pending[i]);
                assert(prev[i] == jobs[i]);
            }
        }
    }
}

/// At every moment each submitted job is in exactly one state: waiting in the
/// queue, running on a worker, or done. Nothing else is in any state.
pub proof fn lemma_each_job_in_one_state<T>(m: PoolView<T>, t: int)
    requires
        m.wf(),
    ensures
        0 <= t < m.submitted ==> {
            ||| m.is_pending(t) && !m.is_running(t) && !m.is_done(t)
            ||| !m.is_pending(t) && m.is_running(t) && !m.is_done(t)
            ||| !m.is_pending(t) && !m.is_running(t) && m.is_done(t)
        },
        !(0 <= t < m.submitted) ==> !m.is_pending(t) && !m.is_running(t) && !m.is_done(t),
{
    if m.is_pending(t) {
        let i = choose|i: int| 0 <= i < m.pending.len() && m.pending[i].0 == t;
        assert(m.pending[i].0 == m.dispatched() + i);
        if m.is_running(t) {
            let w = choose|w: int| m.runs_on(w, t);
            assert(m.workers[w] is Some);
        }
    }
    if m.is_running(t) {
        let w = choose|w: int| m.runs_on(w, t);
        assert(m.workers[w] is Some);
    }
    if m.dispatched() <= t < m.submitted {
        let i = t - m.dispatched();
        assert(m.pending[i].0 == m.dispatched() + i);
    }
}

/// Jobs are handed out in submission order: a worker that takes a job gets the
/// one with the lowest ticket that no worker has taken yet. That job then runs
/// on this worker and waits no longer, so no job is handed out twice.
pub proof fn lemma_take_hands_out_next<T>(m: PoolView<T>, w: int)
    requires
        m.wf(),
        m.can_take(w),
    ensures
        m.pending[0].0 == m.dispatched(),
        m.take(w).dispatched() == m.dispatched() + 1,
        m.take(w).workers[w] == Some(m.pending[0].0),
        m.take(w).is_running(m.dispatched()),
        !m.take(w).is_pending(m.dispatched()),
{
    let r = m.take(w);
    lemma_take_keeps_wf(m, w);
    assert(r.workers[w] == Some(m.dispatched() as u64));
    assert(r.runs_on(w, m.dispatched()));
    lemma_each_job_in_one_state(r, m.dispatched());
}

/// No step takes a job back: a job that was handed out stays handed out, and
/// a job that is done stays done, whatever is submitted, taken or finished.
pub proof fn lemma_progress_is_never_undone<T>(m: PoolView<T>, job: T, w: int, t: int)
    requires
        m.wf(),
    ensures
        m.submit(job).dispatched() == m.dispatched(),
        m.take(w).dispatched() >= m.dispatched(),
        m.finish(w).dispatched() == m.dispatched(),
        m.is_done(t) ==> m.submit(job).is_done(t),
        m.is_done(t) ==> m.take(w).is_done(t),
        m.is_done(t) ==> m.finish(w).is_done(t),
{
    if m.is_done(t) {
        let s = m.submit(job);
        if s.is_running(t) {
            let v = choose|v: int| s.runs_on(v, t);
            assert(m.workers[v] == s.workers[v]);
            assert(m.runs_on(v, t));
        }
        let k = m.take(w);
        if m.can_take(w) && k.is_running(t) {
            let v = choose|v: int| k.runs_on(v, t);
            if v != w {
                assert(m.workers[v] == k.workers[v]);
                assert(m.runs_on(v, t));
            } else {
                assert(m.pending[0].0 == m.dispatched());
            }
        }
        let f = m.finish(w);
        if 0 <= w < m.workers.len() && f.is_running(t) {
            let v = choose|v: int| f.runs_on(v, t);
            assert(m.workers[v] == f.workers[v]);
            assert(m.runs_on(v, t));
        }
    }
}

/// Once nothing waits and every worker is idle, exactly the submitted jobs are
/// done: each ran, and ran to its end.
pub proof fn lemma_quiet_pool_ran_every_job<T>(m: PoolView<T>)
    requires
        m.wf(),
        m.pending.len() == 0,
        forall|w: int| 0 <= w < m.size() ==> #[trigger] m.is_idle(w),
    ensures
        forall|t: int| #[trigger] m.is_done(t) <==> 0 <= t < m.submitted,
{
    assert forall|t: int| #[trigger] m.is_done(t) <==> 0 <= t < m.submitted by {
        if m.is_running(t) {
            let w = choose|w: int| m.runs_on(w, t);
            assert(m.is_idle(w));
        }
    }
}

/// With a single worker, two jobs never run at the same time.
pub proof fn lemma_single_worker_runs_one_job<T>(m: PoolView<T>, a: int, b: int)
    requires
        m.wf(),
        m.size() == 1,
        m.is_running(a),
        m.is_running(b),
    ensures
        a == b,
{
    let v = choose|v: int| m.runs_on(v, a);
    let w = choose|w: int| m.runs_on(w, b);
    assert(v == 0 && w == 0);
}

/// With `k` idle workers and at least `k` jobs waiting, after each worker has
/// asked once all `k` run at the same time, worker `w` the `w`-th job in the queue.
pub proof fn lemma_workers_run_together<T>(m: PoolView<T>)
    requires
        m.wf(),
        forall|w: int| 0 <= w < m.size() ==> #[trigger] m.is_idle(w),
        m.pending.len() >= m.size(),
    ensures
        take_each(m, m.size()).wf(),
        forall|w: int|
            0 <= w < m.size() ==> #[trigger] take_each(m, m.size()).workers[w] == Some(
                m.pending[w].0,
            ),
        forall|w: int|
            0 <= w < m.size() ==> #[trigger] take_each(m, m.size()).is_running(m.dispatched() + w),
{
    lemma_take_each_prefix(m, m.size());
    let r = take_each(m, m.size());
    assert forall|w: int| 0 <= w < m.size() implies #[trigger] r.is_running(m.dispatched() + w) by {
        assert(m.pending[w].0 == m.dispatched() + w);
        assert(r.workers[w] == Some((m.dispatched() + w) as u64));
        assert(r.runs_on(w, m.dispatched() + w));
    }
}

proof fn lemma_take_each_prefix<T>(m: PoolView<T>, n: nat)
    requires
        m.wf(),
        forall|w: int| 0 <= w < m.size() ==> #[trigger] m.is_idle(w),
        m.pending.len() >= m.size(),
        n <= m.size(),
    ensures
        take_each(m, n).wf(),
        take_each(m, n).pending == m.pending.subrange(n as int, m.pending.len() as int),
        take_each(m, n).workers.len() == m.size(),
        forall|w: int| 0 <= w < n ==> #[trigger] take_each(m, n).workers[w] == Some(m.pending[w].0),
        forall|w: int| n <= w < m.size() ==> #[trigger] take_each(m, n).workers[w] is None,
    decreases n,
{
    if n == 0 {
        assert(m.pending.subrange(0, m.pending.len() as int) =~= m.pending);
        assert forall|w: int| 0 <= w < m.size() implies #[trigger] m.workers[w] is None by {
            assert(m.is_idle(w));
        }
    } else {
        let k = (n - 1) as nat;
        lemma_take_each_prefix(m, k);
        let p = take_each(m, k);
        assert(p.can_take(k as int));
        lemma_take_keeps_wf(p, k as int);
        let r = take_each(m, n);
        assert(r == p.take(k as int));
        assert(r.pending =~= m.pending.subrange(n as int, m.pending.len() as int));
    }
}

} // verus!
