//! The executable pool state, kept in step with its model.
use std::collections::VecDeque;
use vstd::prelude::*;

use crate::model::{lemma_finish_keeps_wf, lemma_submit_keeps_wf, lemma_take_keeps_wf, PoolView};

verus! {

/// The state of a pool of workers that share one queue of jobs of type `T`.
pub struct PoolState<T> {
    queue: VecDeque<(u64, T)>,
    workers: Vec<Option<u64>>,
    submitted: u64,
}

impl<T> View for PoolState<T> {
    type V = PoolView<T>;

    closed spec fn view(&self) -> PoolView<T> {
        PoolView { pending: self.queue@, workers: self.workers@, submitted: self.submitted as nat }
    }
}

impl<T> PoolState<T> {
    pub open spec fn wf(&self) -> bool {
        self@.wf()
    }

    /// A pool of `size` workers, all waiting, with an empty queue.
    pub fn new(size: usize) -> (r: Self)
        requires
            size > 0,
        ensures
            r.wf(),
            r@ == PoolView::<T>::initial(size as nat),
    {
        let mut workers: Vec<Option<u64>> = Vec::with_capacity(size);
        let mut id: usize = 0;
        while id < size
            invariant
                id <= size,
                workers@ == Seq::new(id as nat, |i: int| None::<u64>),
            decreases size - id,
        {
            workers.push(None);
            id = id + 1;
        }
        let r = PoolState { queue: VecDeque::new(), workers, submitted: 0 };
        assert(r@ =~= PoolView::<T>::initial(size as nat));
        r
    }

    /// Queues `job` behind every job submitted before it and returns its ticket.
    pub fn submit(&mut self, job: T) -> (ticket: u64)
        requires
            old(self).wf(),
            old(self)@.submitted < u64::MAX,
        ensures
            final(self).wf(),
            final(self)@ == old(self)@.submit(job),
            ticket == old(self)@.submitted,
    {
        proof {
            lemma_submit_keeps_wf(self@, job);
        }
        let ticket = self.submitted;
        self.queue.push_back((ticket, job));
        self.submitted = ticket + 1;
        ticket
    }

    /// Worker `worker` asks for a job. It gets the oldest pending one when it
    /// exists, waits for none, and a job waits; otherwise nothing changes.
    pub fn take(&mut self, worker: usize) -> (r: Option<(u64, T)>)
        requires
            old(self).wf(),
        ensures
            final(self).wf(),
            final(self)@ == old(self)@.take(worker as int),
            r == (if old(self)@.can_take(worker as int) {
                Some(old(self)@.pending[0])
            } else {
                None
            }),
    {
        proof {
            lemma_take_keeps_wf(self@, worker as int);
        }
        if worker >= self.workers.len() || self.workers[worker].is_some() {
            return None;
        }
        match self.queue.pop_front() {
            Some(entry) => {
                self.workers.set(worker, Some(entry.0));
                assert(self@ =~= old(self)@.take(worker as int));
                Some(entry)
            },
            None => None,
        }
    }

    /// Worker `worker` reports that its job ran to the end; it returns that
    /// job's ticket and waits again.
    pub fn finish(&mut self, worker: usize) -> (r: Option<u64>)
        requires
            old(self).wf(),
        ensures
            final(self).wf(),
            final(self)@ == old(self)@.finish(worker as int),
            r == (if worker < old(self)@.size() {
                old(self)@.workers[worker as int]
            } else {
                None
            }),
    {
        proof {
            lemma_finish_keeps_wf(self@, worker as int);
        }
        if worker >= self.workers.len() {
            return None;
        }
        let r = self.workers[worker];
        self.workers.set(worker, None);
        assert(self@ =~= old(self)@.finish(worker as int));
        r
    }

    /// The number of workers.
    pub fn size(&self) -> (r: usize)
        ensures
            r == self@.size(),
    {
        self.workers.len()
    }

    /// The number of jobs submitted so far.
    pub fn submitted(&self) -> (r: u64)
        ensures
            r == self@.submitted,
    {
        self.submitted
    }

    /// The number of jobs that wait for a worker.
    pub fn pending_len(&self) -> (r: usize)
        ensures
            r == self@.pending.len(),
    {
        self.queue.len()
    }

    /// The ticket of the job that worker `worker` runs, if it exists and runs one.
    pub fn running(&self, worker: usize) -> (r: Option<u64>)
        ensures
            r == (if worker < self@.size() {
                self@.workers[worker as int]
            } else {
                None
            }),
    {
        if worker < self.workers.len() {
            self.workers[worker]
        } else {
            None
        }
    }
}

} // verus!
