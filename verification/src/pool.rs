//! The dispatcher: the pool's queue and its workers, and the rules by which
//! jobs are submitted, handed out, and the workers shut down.

use crate::message::Message;
use crate::queue::JobQueue;
use crate::worker::{Action, Worker, WorkerView};
use vstd::prelude::*;

verus! {

/// The error of a pool that was asked for with no worker.
#[derive(Debug, Clone, Copy, PartialEq, Eq)]
pub struct PoolCreationError {}

/// `count` terminate signals.
pub open spec fn terminate_signals<J>(count: nat) -> Seq<Message<J>> {
    Seq::new(count, |i: int| Message::Terminate)
}

/// Whether every worker has terminated.
pub open spec fn all_terminated(workers: Seq<WorkerView>) -> bool {
    forall|i: int| 0 <= i < workers.len() ==> (#[trigger] workers[i]).state is Terminated
}

/// The ordinals of the workers whose thread has not been joined, in the
/// order of the workers.
pub open spec fn joinable(workers: Seq<WorkerView>) -> Seq<int>
    decreases workers.len(),
{
    if workers.len() == 0 {
        Seq::empty()
    } else if workers.last().joined {
        joinable(workers.drop_last())
    } else {
        joinable(workers.drop_last()).push(workers.last().id)
    }
}

/// The mathematical value of a [`ThreadPool`].
pub struct PoolState<J> {
    /// The messages that wait, oldest first.
    pub queue: Seq<Message<J>>,
    /// The workers, by slot: the worker with the ordinal `k` stands at
    /// `k - 1`.
    pub workers: Seq<WorkerView>,
    /// Whether the pool has been shut down.
    pub closed: bool,
}

impl<J> PoolState<J> {
    /// A pool of `size` workers as it is created: nothing waits, and the
    /// workers `1..=size` run.
    pub open spec fn fresh(size: nat) -> PoolState<J> {
        PoolState {
            queue: Seq::empty(),
            workers: Seq::new(size, |i: int| WorkerView::fresh(i + 1)),
            closed: false,
        }
    }

    /// The pool after `job` has been submitted: the job waits behind
    /// everything that was sent before.
    pub open spec fn submit(self, job: J) -> PoolState<J> {
        PoolState { queue: self.queue.push(Message::NewJob(job)), ..self }
    }

    /// Whether the pool has a worker with the ordinal `id`.
    pub open spec fn has_worker(self, id: int) -> bool {
        1 <= id <= self.workers.len()
    }

    /// One turn of the loop of the worker `id`: the pool after it, and what
    /// the worker's thread does. An ordinal that the pool does not have is
    /// told to exit, and nothing changes.
    pub open spec fn advance(self, id: int) -> (PoolState<J>, Action<J>) {
        if self.has_worker(id) {
            let (worker, queue, action) = self.workers[id - 1].receive(self.queue);
            (PoolState { queue, workers: self.workers.update(id - 1, worker), ..self }, action)
        } else {
            (self, Action::Exit)
        }
    }

    /// The pool after shutdown: one terminate signal for each worker waits
    /// behind everything that was sent before, and the handle of every
    /// worker's thread has been taken.
    pub open spec fn shutdown(self) -> PoolState<J> {
        PoolState {
            queue: self.queue + terminate_signals(self.workers.len()),
            workers: self.workers.map_values(|w: WorkerView| w.take_thread()),
            closed: true,
        }
    }
}

/// The pool: a job queue and the workers that share it.
///
/// The pool is the core of a thread pool and holds no thread itself. Its
/// driver spawns one thread for each worker; the thread of the worker `id`
/// calls [`ThreadPool::advance`] with its ordinal again and again, and does
/// what the returned [`Action`] says.
pub struct ThreadPool<J> {
    queue: JobQueue<J>,
    workers: Vec<Worker>,
    closed: bool,
}

impl<J> View for ThreadPool<J> {
    type V = PoolState<J>;

    closed spec fn view(&self) -> PoolState<J> {
        PoolState {
            queue: self.queue@,
            workers: self.workers@.map_values(|w: Worker| w@),
            closed: self.closed,
        }
    }
}

impl<J> ThreadPool<J> {
    /// A pool of `size` workers, with the ordinals `1..=size`. A pool of no
    /// worker is refused.
    pub fn new(size: usize) -> (pool: Result<ThreadPool<J>, PoolCreationError>)
        ensures
            size == 0 <==> pool is Err,
            pool matches Ok(p) ==> p@ == PoolState::<J>::fresh(size as nat) && p@.workers.len()
                == size,
    {
        if size == 0 {
            return Err(PoolCreationError {});
        }
        let mut workers: Vec<Worker> = Vec::new();
        let mut i: usize = 0;
        while i < size
            invariant
                i <= size,
                workers@.len() == i,
                forall|k: int| 0 <= k < i ==> (#[trigger] workers@[k])@ == WorkerView::fresh(k + 1),
            decreases size - i,
        {
            workers.push(Worker::new(i + 1));
            i += 1;
        }
        let pool = ThreadPool { queue: JobQueue::new(), workers, closed: false };
        assert(pool@.workers =~= PoolState::<J>::fresh(size as nat).workers);
        Ok(pool)
    }

    /// Submits `job`: it waits in the queue for the next worker that
    /// becomes free.
    ///
    /// Jobs are submitted before the pool is shut down.
    pub fn execute(&mut self, job: J)
        requires
            !old(self)@.closed,
        ensures
            final(self)@ == old(self)@.submit(job),
    {
        self.queue.send(Message::NewJob(job));
    }

    /// One turn of the loop of the worker `id`: takes the next message for
    /// it and says what the worker's thread does.
    pub fn advance(&mut self, id: usize) -> (action: Action<J>)
        ensures
            (final(self)@, action) == old(self)@.advance(id as int),
    {
        if id == 0 || id > self.workers.len() {
            return Action::Exit;
        }
        let action = self.workers[id - 1].receive(&mut self.queue);
        assert(self@.workers =~= old(self)@.advance(id as int).0.workers);
        action
    }

    /// Shuts the pool down: sends one terminate signal for each worker, then
    /// takes the handle of each worker's thread in turn. Returns the
    /// ordinals of the workers whose threads are to be joined, in that order.
    ///
    /// A pool is shut down once, at the end of its life.
    pub fn shutdown(&mut self) -> (joins: Vec<usize>)
        requires
            !old(self)@.closed,
        ensures
            final(self)@ == old(self)@.shutdown(),
            joins@.len() == joinable(old(self)@.workers).len(),
            forall|k: int|
                0 <= k < joins@.len() ==> joins@[k] == joinable(old(self)@.workers)[k],
    {
        let size: usize = self.workers.len();
        let mut sent: usize = 0;
        while sent < size
            invariant
                sent <= size,
                size == self.workers@.len(),
                self.workers == old(self).workers,
                self.closed == old(self).closed,
                self.queue@ == old(self).queue@ + terminate_signals::<J>(sent as nat),
            decreases size - sent,
        {
            self.queue.send(Message::Terminate);
            sent += 1;
        }
        let mut joins: Vec<usize> = Vec::new();
        let mut i: usize = 0;
        while i < size
            invariant
                i <= size,
                size == self.workers@.len(),
                size == old(self).workers@.len(),
                self.closed == old(self).closed,
                self.queue@ == old(self).queue@ + terminate_signals::<J>(size as nat),
                forall|k: int|
                    0 <= k < i ==> (#[trigger] self.workers@[k])@ == old(
                        self,
                    ).workers@[k]@.take_thread(),
                forall|k: int|
                    i <= k < size ==> (#[trigger] self.workers@[k])@ == old(self).workers@[k]@,
                joins@.len() == joinable(old(self)@.workers.take(i as int)).len(),
                forall|k: int|
                    0 <= k < joins@.len() ==> joins@[k] == joinable(
                        old(self)@.workers.take(i as int),
                    )[k],
            decreases size - i,
        {
            let taken: bool = self.workers[i].take_thread();
            if taken {
                joins.push(self.workers[i].id());
            }
            assert(old(self)@.workers.take(i + 1).drop_last() =~= old(self)@.workers.take(
                i as int,
            ));
            i += 1;
        }
        self.closed = true;
        assert(old(self)@.workers.take(size as int) =~= old(self)@.workers);
        assert(self@.workers =~= old(self)@.shutdown().workers);
        joins
    }

    /// The number of workers.
    pub fn size(&self) -> (size: usize)
        ensures
            size == self@.workers.len(),
    {
        self.workers.len()
    }

    /// The number of messages that wait in the queue.
    pub fn pending(&self) -> (pending: usize)
        ensures
            pending == self@.queue.len(),
    {
        self.queue.len()
    }

    /// Whether the pool has been shut down.
    pub fn is_shut_down(&self) -> (closed: bool)
        ensures
            closed == self@.closed,
    {
        self.closed
    }

    /// Whether every worker has terminated: a pool that has been shut down
    /// is done once this holds.
    pub fn has_terminated(&self) -> (done: bool)
        ensures
            done <==> all_terminated(self@.workers),
    {
        let mut i: usize = 0;
        while i < self.workers.len()
            invariant
                i <= self.workers@.len(),
                forall|k: int| 0 <= k < i ==> (#[trigger] self@.workers[k]).state is Terminated,
            decreases self.workers@.len() - i,
        {
            if self.workers[i].is_running() {
                assert(self@.workers[i as int].state is Running);
                return false;
            }
            i += 1;
        }
        true
    }

    /// The worker with the ordinal `id`, if the pool has one.
    pub fn worker(&self, id: usize) -> (worker: Option<&Worker>)
        ensures
            self@.has_worker(id as int) <==> worker is Some,
            worker matches Some(w) ==> w@ == self@.workers[id - 1],
    {
        if id == 0 || id > self.workers.len() {
            None
        } else {
            Some(&self.workers[id - 1])
        }
    }
}

} // verus!
