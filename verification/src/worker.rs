//! The worker: one slot of the pool and the loop that its thread runs.

use crate::message::Message;
use crate::queue::JobQueue;
use vstd::prelude::*;

verus! {

/// Where a worker's loop stands.
#[derive(Debug, Clone, Copy, PartialEq, Eq)]
pub enum WorkerState {
    /// The loop runs: the worker executes a job or waits for a message.
    Running,
    /// The worker consumed a terminate signal and left its loop. Terminal.
    Terminated,
}

/// What a worker's thread has to do next.
#[derive(Debug)]
pub enum Action<J> {
    /// Run this job to completion, then ask again.
    Run(J),
    /// Leave the loop: the thread function returns.
    Exit,
    /// Nothing waits in the queue: block until a message is sent, then ask
    /// again.
    Wait,
}

/// The mathematical value of a [`Worker`].
pub struct WorkerView {
    /// The ordinal of the worker, fixed for its lifetime.
    pub id: int,
    /// Where its loop stands.
    pub state: WorkerState,
    /// Whether the handle of its thread has been taken to join it.
    pub joined: bool,
}

impl WorkerView {
    /// A worker as it is created: running, its thread not yet joined.
    pub open spec fn fresh(id: int) -> WorkerView {
        WorkerView { id, state: WorkerState::Running, joined: false }
    }

    /// One turn of the worker's loop on the queue `queue`: the worker after
    /// the turn, the queue after it, and what the thread does.
    ///
    /// A terminated worker takes nothing and exits. A running worker takes
    /// the oldest message: a job is run, a terminate signal ends the loop. On
    /// an empty queue it waits.
    pub open spec fn receive<J>(self, queue: Seq<Message<J>>) -> (
        WorkerView,
        Seq<Message<J>>,
        Action<J>,
    ) {
        if self.state is Terminated {
            (self, queue, Action::Exit)
        } else if queue.len() == 0 {
            (self, queue, Action::Wait)
        } else {
            match queue[0] {
                Message::NewJob(job) => (self, queue.drop_first(), Action::Run(job)),
                Message::Terminate => (
                    WorkerView { state: WorkerState::Terminated, ..self },
                    queue.drop_first(),
                    Action::Exit,
                ),
            }
        }
    }

    /// The worker once the handle of its thread has been taken.
    pub open spec fn take_thread(self) -> WorkerView {
        WorkerView { joined: true, ..self }
    }
}

/// One slot of the pool: an ordinal, the state of the loop that the worker's
/// thread runs, and whether the handle of that thread has been taken.
///
/// The thread itself belongs to the driver, which spawns it when the worker
/// is created and joins it when the pool names the worker at shutdown.
#[derive(Debug)]
pub struct Worker {
    id: usize,
    state: WorkerState,
    joined: bool,
}

impl View for Worker {
    type V = WorkerView;

    closed spec fn view(&self) -> WorkerView {
        WorkerView { id: self.id as int, state: self.state, joined: self.joined }
    }
}

impl Worker {
    /// A running worker with the ordinal `id`.
    pub fn new(id: usize) -> (worker: Worker)
        ensures
            worker@ == WorkerView::fresh(id as int),
    {
        Worker { id, state: WorkerState::Running, joined: false }
    }

    /// The worker's ordinal.
    pub fn id(&self) -> (id: usize)
        ensures
            id == self@.id,
    {
        self.id
    }

    /// Where the worker's loop stands.
    pub fn state(&self) -> (state: WorkerState)
        ensures
            state == self@.state,
    {
        self.state
    }

    /// Whether the worker's loop still runs.
    pub fn is_running(&self) -> (running: bool)
        ensures
            running <==> self@.state is Running,
    {
        match self.state {
            WorkerState::Running => true,
            WorkerState::Terminated => false,
        }
    }

    /// Whether the handle of the worker's thread has been taken.
    pub fn is_joined(&self) -> (joined: bool)
        ensures
            joined == self@.joined,
    {
        self.joined
    }

    /// One turn of the worker's loop: takes the next message from `queue`
    /// and says what the worker's thread does with it.
    pub fn receive<J>(&mut self, queue: &mut JobQueue<J>) -> (action: Action<J>)
        ensures
            (final(self)@, final(queue)@, action) == old(self)@.receive(old(queue)@),
    {
        match self.state {
            WorkerState::Terminated => Action::Exit,
            WorkerState::Running => match queue.receive() {
                None => Action::Wait,
                Some(Message::NewJob(job)) => Action::Run(job),
                Some(Message::Terminate) => {
                    self.state = WorkerState::Terminated;
                    Action::Exit
                },
            },
        }
    }

    /// Records that the handle of the worker's thread is taken, to join the
    /// thread. Returns whether the handle was still there: `false` says that
    /// it has been taken before.
    pub fn take_thread(&mut self) -> (taken: bool)
        ensures
            taken == !old(self)@.joined,
            final(self)@ == old(self)@.take_thread(),
    {
        let taken: bool = !self.joined;
        self.joined = true;
        taken
    }
}

} // verus!
