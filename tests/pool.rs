use std::cell::RefCell;
use std::rc::Rc;

use thread_pool::PoolState;

type Job = Box<dyn FnOnce()>;

/// Runs every queued job, letting the workers ask in the order given by
/// `order`, until the queue is empty and every worker is idle. Returns the
/// tickets in the order the jobs were handed out.
fn drain(state: &mut PoolState<Job>, order: &[usize]) -> Vec<u64> {
    let mut handed = Vec::new();
    let mut step = 0;
    while state.pending_len() > 0 {
        let w = order[step % order.len()];
        step += 1;
        if let Some((ticket, job)) = state.take(w) {
            handed.push(ticket);
            job();
            assert_eq!(state.finish(w), Some(ticket));
        }
    }
    handed
}

#[test]
fn new_pool_has_size_idle_workers() {
    for size in 1..10usize {
        let state: PoolState<u32> = PoolState::new(size);
        assert_eq!(state.size(), size);
        assert_eq!(state.pending_len(), 0);
        assert_eq!(state.submitted(), 0);
        for w in 0..size {
            assert_eq!(state.running(w), None);
        }
        assert_eq!(state.running(size), None);
    }
}

#[test]
fn submit_hands_out_consecutive_tickets() {
    let mut state: PoolState<&str> = PoolState::new(2);
    assert_eq!(state.submit("a"), 0);
    assert_eq!(state.submit("b"), 1);
    assert_eq!(state.submit("c"), 2);
    assert_eq!(state.submitted(), 3);
    assert_eq!(state.pending_len(), 3);
}

#[test]
fn take_gives_oldest_job_first() {
    let mut state: PoolState<&str> = PoolState::new(2);
    state.submit("first");
    state.submit("second");
    assert_eq!(state.take(1), Some((0, "first")));
    assert_eq!(state.running(1), Some(0));
    assert_eq!(state.take(0), Some((1, "second")));
    assert_eq!(state.running(0), Some(1));
    assert_eq!(state.pending_len(), 0);
}

#[test]
fn take_on_empty_queue_gives_nothing() {
    let mut state: PoolState<u8> = PoolState::new(3);
    assert_eq!(state.take(0), None);
    assert_eq!(state.running(0), None);
}

#[test]
fn take_by_unknown_worker_gives_nothing() {
    let mut state: PoolState<u8> = PoolState::new(2);
    state.submit(7);
    assert_eq!(state.take(2), None);
    assert_eq!(state.take(usize::MAX), None);
    assert_eq!(state.pending_len(), 1);
}

#[test]
fn finish_frees_worker_and_reports_ticket() {
    let mut state: PoolState<u8> = PoolState::new(1);
    state.submit(7);
    assert_eq!(state.finish(0), None);
    assert_eq!(state.take(0), Some((0, 7)));
    assert_eq!(state.finish(0), Some(0));
    assert_eq!(state.running(0), None);
    assert_eq!(state.finish(0), None);
    assert_eq!(state.finish(5), None);
}

#[test]
fn counter_reaches_number_of_jobs_for_any_size() {
    for size in 1..6usize {
        let counter = Rc::new(RefCell::new(0u32));
        let mut state: PoolState<Job> = PoolState::new(size);
        for _ in 0..40 {
            let c = Rc::clone(&counter);
            state.submit(Box::new(move || *c.borrow_mut() += 1));
        }
        let order: Vec<usize> = (0..size).rev().collect();
        let handed = drain(&mut state, &order);
        assert_eq!(*counter.borrow(), 40);
        assert_eq!(handed, (0..40).collect::<Vec<u64>>());
    }
}

#[test]
fn jobs_of_interleaved_producers_run_once_each() {
    let seen = Rc::new(RefCell::new(Vec::new()));
    let mut state: PoolState<Job> = PoolState::new(3);
    for i in 0..10u32 {
        for producer in 0..3u32 {
            let s = Rc::clone(&seen);
            state.submit(Box::new(move || s.borrow_mut().push((producer, i))));
        }
    }
    drain(&mut state, &[2, 0, 1, 1]);
    let mut got = seen.borrow().clone();
    got.sort();
    let mut expected = Vec::new();
    for producer in 0..3u32 {
        for i in 0..10u32 {
            expected.push((producer, i));
        }
    }
    assert_eq!(got, expected);
}

#[test]
fn single_worker_runs_one_job_at_a_time() {
    let mut state: PoolState<&str> = PoolState::new(1);
    state.submit("a");
    state.submit("b");
    assert_eq!(state.take(0), Some((0, "a")));
    assert_eq!(state.take(0), None);
    assert_eq!(state.pending_len(), 1);
    assert_eq!(state.finish(0), Some(0));
    assert_eq!(state.take(0), Some((1, "b")));
}

#[test]
fn all_workers_can_run_together() {
    let mut state: PoolState<u32> = PoolState::new(4);
    for j in 0..4u32 {
        state.submit(j * 10);
    }
    for w in 0..4usize {
        assert_eq!(state.take(w), Some((w as u64, w as u32 * 10)));
    }
    for w in 0..4usize {
        assert_eq!(state.running(w), Some(w as u64));
    }
    assert_eq!(state.pending_len(), 0);
}

#[test]
fn hundred_jobs_on_four_workers_record_each_index_once() {
    let log = Rc::new(RefCell::new(Vec::new()));
    let mut state: PoolState<Job> = PoolState::new(4);
    for i in 0..100u32 {
        let l = Rc::clone(&log);
        state.submit(Box::new(move || l.borrow_mut().push(i)));
    }
    drain(&mut state, &[3, 1, 0, 2, 2]);
    let mut got = log.borrow().clone();
    got.sort();
    assert_eq!(got, (0..100).collect::<Vec<u32>>());
}

#[test]
fn single_worker_records_jobs_in_submission_order() {
    let log = Rc::new(RefCell::new(Vec::new()));
    let mut state: PoolState<Job> = PoolState::new(1);
    let a = Rc::clone(&log);
    state.submit(Box::new(move || a.borrow_mut().push("A")));
    let b = Rc::clone(&log);
    state.submit(Box::new(move || b.borrow_mut().push("B")));
    let (_, job_a) = state.take(0).unwrap();
    assert!(state.take(0).is_none());
    job_a();
    state.finish(0);
    let (_, job_b) = state.take(0).unwrap();
    job_b();
    state.finish(0);
    assert_eq!(*log.borrow(), vec!["A", "B"]);
}
