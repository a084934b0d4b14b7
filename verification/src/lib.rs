//! The core of a fixed-size worker pool.
//!
//! A pool is a FIFO queue of messages and a fixed set of workers that share
//! it. Jobs are submitted to the queue; each worker, in a loop, takes the
//! oldest message and runs the job in it; shutdown queues one terminate
//! signal for each worker, and a worker that takes one leaves its loop.
//!
//! This crate is that protocol as a state machine, without the threads. A
//! driver keeps a [`ThreadPool`] behind a lock and spawns one thread for each
//! worker. Each thread calls [`ThreadPool::advance`] with its worker's
//! ordinal and carries out the [`Action`] that comes back: it runs the job,
//! sleeps until a message is sent, or returns. To shut the pool down the
//! driver calls [`ThreadPool::shutdown`] and joins the threads of the workers
//! that it names.
//!
//! The module [`protocol`] states what the rules guarantee for every
//! interleaving of the workers' turns: every job is handed to one worker,
//! once and in the order of submission, every worker consumes one terminate
//! signal, and when the last worker has terminated no job is left behind.

pub mod message;
pub mod pool;
pub mod protocol;
pub mod queue;
pub mod worker;

pub use message::Message;
pub use pool::{PoolCreationError, PoolState, ThreadPool};
pub use queue::JobQueue;
pub use worker::{Action, Worker, WorkerState, WorkerView};
