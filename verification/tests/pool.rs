use worker_pool::{Action, PoolCreationError, ThreadPool, WorkerState};

#[test]
fn a_pool_of_no_worker_is_refused() {
    let pool = ThreadPool::<u32>::new(0);
    assert!(matches!(pool, Err(PoolCreationError {})));
}

#[test]
fn a_new_pool_has_its_workers_running() {
    for size in 1..=6usize {
        let pool = ThreadPool::<u32>::new(size).unwrap();
        assert_eq!(pool.size(), size);
        assert_eq!(pool.pending(), 0);
        assert!(!pool.is_shut_down());
        assert!(!pool.has_terminated());
        assert!(pool.worker(0).is_none());
        assert!(pool.worker(size + 1).is_none());
        for id in 1..=size {
            let worker = pool.worker(id).unwrap();
            assert_eq!(worker.id(), id);
            assert_eq!(worker.state(), WorkerState::Running);
            assert!(!worker.is_joined());
        }
    }
}

#[test]
fn execute_queues_the_job_and_runs_nothing() {
    let mut pool = ThreadPool::<u32>::new(2).unwrap();
    pool.execute(11);
    pool.execute(12);
    assert_eq!(pool.pending(), 2);
    assert_eq!(pool.size(), 2);
    assert!(!pool.is_shut_down());
    assert!(pool.worker(1).unwrap().is_running());
    assert!(pool.worker(2).unwrap().is_running());
}

#[test]
fn jobs_are_handed_out_in_the_order_of_submission() {
    let mut pool = ThreadPool::<u32>::new(3).unwrap();
    for job in 1..=5u32 {
        pool.execute(job);
    }
    assert!(matches!(pool.advance(2), Action::Run(1)));
    assert!(matches!(pool.advance(2), Action::Run(2)));
    assert!(matches!(pool.advance(3), Action::Run(3)));
    assert!(matches!(pool.advance(1), Action::Run(4)));
    assert_eq!(pool.pending(), 1);
    assert!(matches!(pool.advance(3), Action::Run(5)));
    assert!(matches!(pool.advance(1), Action::Wait));
    assert!(matches!(pool.advance(2), Action::Wait));
    assert_eq!(pool.pending(), 0);
}

#[test]
fn a_worker_waits_while_nothing_is_queued() {
    let mut pool = ThreadPool::<u32>::new(1).unwrap();
    assert!(matches!(pool.advance(1), Action::Wait));
    assert!(pool.worker(1).unwrap().is_running());
    pool.execute(8);
    assert!(matches!(pool.advance(1), Action::Run(8)));
    assert!(matches!(pool.advance(1), Action::Wait));
}

#[test]
fn an_ordinal_outside_the_pool_is_told_to_exit() {
    let mut pool = ThreadPool::<u32>::new(2).unwrap();
    pool.execute(1);
    assert!(matches!(pool.advance(0), Action::Exit));
    assert!(matches!(pool.advance(3), Action::Exit));
    assert!(matches!(pool.advance(usize::MAX), Action::Exit));
    assert_eq!(pool.pending(), 1);
    assert!(pool.worker(1).unwrap().is_running());
    assert!(pool.worker(2).unwrap().is_running());
    assert!(matches!(pool.advance(1), Action::Run(1)));
}

#[test]
fn shutdown_sends_one_signal_for_each_worker() {
    for size in 1..=5usize {
        let mut pool = ThreadPool::<u32>::new(size).unwrap();
        pool.execute(1);
        pool.execute(2);
        let joins = pool.shutdown();
        assert_eq!(joins, (1..=size).collect::<Vec<usize>>());
        assert!(pool.is_shut_down());
        assert_eq!(pool.pending(), 2 + size);
        assert_eq!(pool.size(), size);
        for id in 1..=size {
            assert!(pool.worker(id).unwrap().is_joined());
            assert!(pool.worker(id).unwrap().is_running());
        }
    }
}

#[test]
fn every_worker_consumes_one_signal() {
    let mut pool = ThreadPool::<u32>::new(3).unwrap();
    pool.shutdown();
    assert_eq!(pool.pending(), 3);
    assert!(matches!(pool.advance(2), Action::Exit));
    assert_eq!(pool.pending(), 2);
    assert_eq!(pool.worker(2).unwrap().state(), WorkerState::Terminated);
    // The worker that has terminated takes no second signal.
    assert!(matches!(pool.advance(2), Action::Exit));
    assert_eq!(pool.pending(), 2);
    assert!(!pool.has_terminated());
    assert!(matches!(pool.advance(1), Action::Exit));
    assert!(matches!(pool.advance(3), Action::Exit));
    assert_eq!(pool.pending(), 0);
    assert!(pool.has_terminated());
    for id in 1..=3 {
        assert_eq!(pool.worker(id).unwrap().state(), WorkerState::Terminated);
    }
}

#[test]
fn jobs_queued_before_shutdown_come_before_the_signals() {
    let mut pool = ThreadPool::<u32>::new(2).unwrap();
    pool.execute(1);
    pool.execute(2);
    pool.execute(3);
    assert!(matches!(pool.advance(1), Action::Run(1)));
    assert_eq!(pool.shutdown(), vec![1, 2]);
    // After shutdown a running worker always finds a message.
    assert!(matches!(pool.advance(2), Action::Run(2)));
    assert!(matches!(pool.advance(2), Action::Run(3)));
    assert!(!pool.has_terminated());
    assert!(matches!(pool.advance(2), Action::Exit));
    assert!(!pool.has_terminated());
    assert_eq!(pool.pending(), 1);
    assert!(matches!(pool.advance(1), Action::Exit));
    assert!(pool.has_terminated());
    assert_eq!(pool.pending(), 0);
}
