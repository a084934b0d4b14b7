use worker_pool::{Action, JobQueue, Message, Worker, WorkerState};

#[test]
fn worker_starts_running() {
    let worker = Worker::new(3);
    assert_eq!(worker.id(), 3);
    assert_eq!(worker.state(), WorkerState::Running);
    assert!(worker.is_running());
    assert!(!worker.is_joined());
}

#[test]
fn worker_runs_a_job_and_keeps_running() {
    let mut queue: JobQueue<&str> = JobQueue::new();
    queue.send(Message::NewJob("first"));
    queue.send(Message::NewJob("second"));
    let mut worker = Worker::new(1);
    assert!(matches!(worker.receive(&mut queue), Action::Run("first")));
    assert!(worker.is_running());
    assert_eq!(queue.len(), 1);
    assert!(matches!(worker.receive(&mut queue), Action::Run("second")));
    assert!(worker.is_running());
    assert_eq!(worker.id(), 1);
    assert!(queue.is_empty());
}

#[test]
fn worker_waits_on_an_empty_queue() {
    let mut queue: JobQueue<u8> = JobQueue::new();
    let mut worker = Worker::new(2);
    assert!(matches!(worker.receive(&mut queue), Action::Wait));
    assert!(worker.is_running());
    assert!(queue.is_empty());
    queue.send(Message::NewJob(5));
    assert!(matches!(worker.receive(&mut queue), Action::Run(5)));
}

#[test]
fn worker_exits_on_a_terminate_signal() {
    let mut queue: JobQueue<u8> = JobQueue::new();
    queue.send(Message::Terminate);
    queue.send(Message::NewJob(9));
    let mut worker = Worker::new(4);
    assert!(matches!(worker.receive(&mut queue), Action::Exit));
    assert_eq!(worker.state(), WorkerState::Terminated);
    assert!(!worker.is_running());
    assert_eq!(worker.id(), 4);
    assert_eq!(queue.len(), 1);
}

#[test]
fn terminated_worker_takes_nothing() {
    let mut queue: JobQueue<u8> = JobQueue::new();
    queue.send(Message::Terminate);
    queue.send(Message::NewJob(9));
    queue.send(Message::Terminate);
    let mut worker = Worker::new(1);
    assert!(matches!(worker.receive(&mut queue), Action::Exit));
    assert_eq!(queue.len(), 2);
    assert!(matches!(worker.receive(&mut queue), Action::Exit));
    assert!(matches!(worker.receive(&mut queue), Action::Exit));
    assert_eq!(queue.len(), 2);
    assert!(matches!(queue.receive(), Some(Message::NewJob(9))));
    assert!(matches!(queue.receive(), Some(Message::Terminate)));
}

#[test]
fn worker_thread_is_taken_once() {
    let mut worker = Worker::new(7);
    assert!(!worker.is_joined());
    assert!(worker.take_thread());
    assert!(worker.is_joined());
    assert!(!worker.take_thread());
    assert!(worker.is_joined());
    assert_eq!(worker.id(), 7);
    assert!(worker.is_running());
}
