//! The mathematical model of a pool: what is pending, what each worker runs.
use vstd::prelude::*;

verus! {

/// A pool seen as plain values.
///
/// Each submitted job gets a ticket: its position in submission order,
/// counting from zero.
pub ghost struct PoolView<T> {
    /// Jobs waiting for a worker, oldest first, each with its ticket.
    pub pending: Seq<(u64, T)>,
    /// One entry per worker: the ticket of the job it runs, or `None` while it waits.
    pub workers: Seq<Option<u64>>,
    /// How many jobs have been submitted so far.
    pub submitted: nat,
}

impl<T> PoolView<T> {
    /// A pool just built: `size` idle workers and nothing submitted.
    pub open spec fn initial(size: nat) -> Self {
        PoolView { pending: Seq::empty(), workers: Seq::new(size, |i: int| None), submitted: 0 }
    }

    /// How many jobs have been handed to a worker so far.
    pub open spec fn dispatched(self) -> int {
        self.submitted - self.pending.len()
    }

    /// The number of workers.
    pub open spec fn size(self) -> nat {
        self.workers.len()
    }

    /// Worker `w` exists and waits for a job.
    pub open spec fn is_idle(self, w: int) -> bool {
        0 <= w < self.workers.len() && self.workers[w] is None
    }

    /// The job with ticket `t` waits in the queue.
    pub open spec fn is_pending(self, t: int) -> bool {
        exists|i: int| 0 <= i < self.pending.len() && self.pending[i].0 == t
    }

    /// Worker `w` runs the job with ticket `t`.
    pub open spec fn runs_on(self, w: int, t: int) -> bool {
        0 <= w < self.workers.len() && self.workers[w] is Some && self.workers[w]->0 == t
    }

    /// Some worker runs the job with ticket `t`.
    pub open spec fn is_running(self, t: int) -> bool {
        exists|w: int| #[trigger] self.runs_on(w, t)
    }

    /// A job is done once it was handed out and no worker runs it any more.
    pub open spec fn is_done(self, t: int) -> bool {
        0 <= t < self.dispatched() && !self.is_running(t)
    }

    /// The invariant of every reachable pool.
    pub open spec fn wf(self) -> bool {
        &&& self.workers.len() > 0
        &&& self.pending.len() <= self.submitted
        &&& forall|i: int|
            0 <= i < self.pending.len() ==> #[trigger] self.pending[i].0 == self.dispatched() + i
        &&& forall|w: int|
            0 <= w < self.workers.len() && #[trigger] self.workers[w] is Some ==> self.workers[w]->0
                < self.dispatched()
        &&& forall|v: int, w: int|
            0 <= v < self.workers.len() && 0 <= w < self.workers.len() && #[trigger] self.workers[v]
                is Some && #[trigger] self.workers[w] == self.workers[v] ==> v == w
    }

    /// Worker `w` can take a job: it exists, it is idle, and a job waits.
    pub open spec fn can_take(self, w: int) -> bool {
        self.is_idle(w) && self.pending.len() > 0
    }

    /// The job gets the next ticket and joins the back of the queue.
    pub open spec fn submit(self, job: T) -> Self {
        PoolView {
            pending: self.pending.push((self.submitted as u64, job)),
            submitted: self.submitted + 1,
            ..self
        }
    }

    /// Worker `w` takes the job at the front of the queue, if it can.
    pub open spec fn take(self, w: int) -> Self {
        if self.can_take(w) {
            PoolView {
                pending: self.pending.drop_first(),
                workers: self.workers.update(w, Some(self.pending[0].0)),
                ..self
            }
        } else {
            self
        }
    }

    /// Worker `w` is done with its job, if it had one, and waits again.
    pub open spec fn finish(self, w: int) -> Self {
        if 0 <= w < self.workers.len() {
            PoolView { workers: self.workers.update(w, None), ..self }
        } else {
            self
        }
    }
}

/// Submitting keeps the invariant of the pool, as long as tickets remain.
pub proof fn lemma_submit_keeps_wf<T>(m: PoolView<T>, job: T)
    requires
        m.wf(),
        m.submitted < u64::MAX,
    ensures
        m.submit(job).wf(),
{
    let s = m.submit(job);
    assert forall|i: int| 0 <= i < s.pending.len() implies #[trigger] s.pending[i].0
        == s.dispatched() + i by {
        if i < m.pending.len() {
            assert(s.pending[i] == m.pending[i]);
        } else {
            assert(s.pending[i].0 == m.submitted);
        }
    }
}

/// Taking a job keeps the invariant of the pool.
pub proof fn lemma_take_keeps_wf<T>(m: PoolView<T>, w: int)
    requires
        m.wf(),
    ensures
        m.take(w).wf(),
{
    if m.can_take(w) {
        let t = m.take(w);
        assert forall|i: int| 0 <= i < t.pending.len() implies #[trigger] t.pending[i].0
            == t.dispatched() + i by {
            assert(t.pending[i] == m.pending[i + 1]);
        }
        assert forall|v: int|
            0 <= v < t.workers.len() && #[trigger] t.workers[v] is Some implies t.workers[v]->0
            < t.dispatched() by {
            if v != w {
                assert(t.workers[v] == m.workers[v]);
            } else {
                assert(m.pending[0].0 == m.dispatched());
            }
        }
        assert forall|u: int, v: int|
            0 <= u < t.workers.len() && 0 <= v < t.workers.len() && #[trigger] t.workers[u]
                is Some && #[trigger] t.workers[v] == t.workers[u] implies u == v by {
            assert(m.pending[0].0 == m.dispatched());
            if u != w && v != w {
                assert(m.workers[u] == t.workers[u]);
                assert(m.workers[v] == t.workers[v]);
            } else if u == w && v != w {
                assert(m.workers[v] == t.workers[v]);
            } else if u != w && v == w {
                assert(m.workers[u] == t.workers[u]);
            }
        }
    }
}

/// Finishing a job keeps the invariant of the pool.
pub proof fn lemma_finish_keeps_wf<T>(m: PoolView<T>, w: int)
    requires
        m.wf(),
    ensures
        m.finish(w).wf(),
{
    let f = m.finish(w);
    if 0 <= w < m.workers.len() {
        assert forall|v: int|
            0 <= v < f.workers.len() && #[trigger] f.workers[v] is Some implies f.workers[v]->0
            < f.dispatched() by {
            assert(f.workers[v] == m.workers[v]);
        }
        assert forall|u: int, v: int|
            0 <= u < f.workers.len() && 0 <= v < f.workers.len() && #[trigger] f.workers[u]
                is Some && #[trigger] f.workers[v] == f.workers[u] implies u == v by {
            assert(f.workers[u] == m.workers[u]);
            assert(f.workers[v] == m.workers[v]);
        }
    }
}

} // verus!
