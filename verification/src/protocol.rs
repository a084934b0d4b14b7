//! The protocol of the pool as a whole.
//!
//! A pool lives through a history of events: its owner submits jobs and, at
//! the end, shuts the pool down, while the workers' threads take turns in any
//! order. This module says what holds after every history that the pool
//! permits, however the turns of the workers are interleaved.

use crate::message::Message;
use crate::pool::{all_terminated, joinable, terminate_signals, PoolState};
use crate::worker::{Action, WorkerState, WorkerView};
use vstd::prelude::*;

verus! {

/// One thing that happens to a pool.
pub enum Event<J> {
    /// The owner submits a job.
    Submit(J),
    /// The thread of the worker with this ordinal takes a turn of its loop.
    Advance(int),
    /// The owner shuts the pool down.
    Shutdown,
}

/// A message that left the queue, and the worker that took it.
pub struct Delivery<J> {
    pub worker: int,
    pub message: Message<J>,
}

/// The messages of a sequence of deliveries, in order.
pub open spec fn messages<J>(deliveries: Seq<Delivery<J>>) -> Seq<Message<J>> {
    deliveries.map_values(|d: Delivery<J>| d.message)
}

/// What a pool sends in its life: a message for each of `jobs`, in order,
/// and behind them `signals` terminate signals.
pub open spec fn sent<J>(jobs: Seq<J>, signals: nat) -> Seq<Message<J>> {
    jobs.map_values(|job: J| Message::NewJob(job)) + terminate_signals(signals)
}

/// The jobs that a history submits, in order.
pub open spec fn submitted<J>(history: Seq<Event<J>>) -> Seq<J>
    decreases history.len(),
{
    if history.len() == 0 {
        Seq::empty()
    } else {
        match history.last() {
            Event::Submit(job) => submitted(history.drop_last()).push(job),
            _ => submitted(history.drop_last()),
        }
    }
}

/// The jobs that the deliveries hand to workers, in order.
pub open spec fn jobs_handed_out<J>(deliveries: Seq<Delivery<J>>) -> Seq<J>
    decreases deliveries.len(),
{
    if deliveries.len() == 0 {
        Seq::empty()
    } else {
        match deliveries.last().message {
            Message::NewJob(job) => jobs_handed_out(deliveries.drop_last()).push(job),
            Message::Terminate => jobs_handed_out(deliveries.drop_last()),
        }
    }
}

/// How many terminate signals the deliveries hand to the worker `worker`.
pub open spec fn signals_to<J>(deliveries: Seq<Delivery<J>>, worker: int) -> nat
    decreases deliveries.len(),
{
    if deliveries.len() == 0 {
        0
    } else if deliveries.last().worker == worker && deliveries.last().message is Terminate {
        signals_to(deliveries.drop_last(), worker) + 1
    } else {
        signals_to(deliveries.drop_last(), worker)
    }
}

/// How many of the workers have terminated.
pub open spec fn terminated(workers: Seq<WorkerView>) -> nat
    decreases workers.len(),
{
    if workers.len() == 0 {
        0
    } else if workers.last().state is Terminated {
        terminated(workers.drop_last()) + 1
    } else {
        terminated(workers.drop_last())
    }
}

impl<J> PoolState<J> {
    /// Whether the pool permits `event`: jobs are submitted, and the pool is
    /// shut down, only while it has not been shut down. A worker may take a
    /// turn at any time.
    pub open spec fn permits(self, event: Event<J>) -> bool {
        match event {
            Event::Advance(_) => true,
            _ => !self.closed,
        }
    }

    /// The pool after `event`.
    pub open spec fn apply(self, event: Event<J>) -> PoolState<J> {
        match event {
            Event::Submit(job) => self.submit(job),
            Event::Advance(id) => self.advance(id).0,
            Event::Shutdown => self.shutdown(),
        }
    }

    /// The message that `event` takes out of the queue, and for whom: the
    /// oldest one, where a running worker of the pool takes a turn and
    /// something waits.
    pub open spec fn delivery(self, event: Event<J>) -> Option<Delivery<J>> {
        match event {
            Event::Advance(id) => if self.has_worker(id) && self.workers[id - 1].state is Running
                && self.queue.len() > 0 {
                Some(Delivery { worker: id, message: self.queue[0] })
            } else {
                None
            },
            _ => None,
        }
    }

    /// The pool after the events of `history`, in order.
    pub open spec fn run(self, history: Seq<Event<J>>) -> PoolState<J>
        decreases history.len(),
    {
        if history.len() == 0 {
            self
        } else {
            self.run(history.drop_last()).apply(history.last())
        }
    }

    /// Whether the pool permits each event of `history` in the state that
    /// the events before it lead to.
    pub open spec fn admits(self, history: Seq<Event<J>>) -> bool
        decreases history.len(),
    {
        history.len() == 0 || (self.admits(history.drop_last()) && self.run(
            history.drop_last(),
        ).permits(history.last()))
    }

    /// The deliveries that `history` makes, in order.
    pub open spec fn deliveries(self, history: Seq<Event<J>>) -> Seq<Delivery<J>>
        decreases history.len(),
    {
        if history.len() == 0 {
            Seq::empty()
        } else {
            match self.run(history.drop_last()).delivery(history.last()) {
                Some(delivery) => self.deliveries(history.drop_last()).push(delivery),
                None => self.deliveries(history.drop_last()),
            }
        }
    }

    /// How many terminate signals the pool has sent: one for each worker
    /// once it has been shut down, none before.
    pub open spec fn signals_sent(self) -> nat {
        if self.closed {
            self.workers.len()
        } else {
            0
        }
    }
}

/// A turn of a worker hands out a job exactly where it delivers the job's
/// message, and ends the worker's loop exactly where it delivers a terminate
/// signal. The delivered message leaves the queue and no other worker
/// changes; a turn that delivers nothing changes nothing and hands out no
/// job.
pub proof fn lemma_advance_delivers<J>(pool: PoolState<J>, id: int)
    ensures
        ({
            let (next, action) = pool.advance(id);
            match pool.delivery(Event::Advance(id)) {
                Some(delivery) => {
                    &&& delivery.worker == id
                    &&& delivery.message == pool.queue[0]
                    &&& next.queue == pool.queue.drop_first()
                    &&& next.workers.len() == pool.workers.len()
                    &&& forall|i: int|
                        0 <= i < pool.workers.len() && i != id - 1 ==> next.workers[i]
                            == pool.workers[i]
                    &&& match delivery.message {
                        Message::NewJob(job) => action == Action::Run(job) && next.workers[id - 1]
                            == pool.workers[id - 1],
                        Message::Terminate => action is Exit && next.workers[id - 1] == (
                        WorkerView { state: WorkerState::Terminated, ..pool.workers[id - 1] }),
                    }
                },
                None => next == pool && !(action is Run),
            }
        }),
{
    let (next, action) = pool.advance(id);
    if pool.delivery(Event::Advance(id)) is None && pool.has_worker(id) {
        assert(next.workers =~= pool.workers);
    }
}

/// Messages leave the queue in deliveries only. A delivery is made to a
/// running worker of the pool, in a turn of that worker: submitting a job
/// and shutting the pool down deliver nothing. An event that delivers
/// nothing takes nothing out of the queue and ends no worker's loop.
pub proof fn lemma_only_turns_deliver<J>(pool: PoolState<J>, event: Event<J>)
    ensures
        ({
            let next = pool.apply(event);
            match pool.delivery(event) {
                Some(delivery) => {
                    &&& event == Event::<J>::Advance(delivery.worker)
                    &&& pool.has_worker(delivery.worker)
                    &&& pool.workers[delivery.worker - 1].state is Running
                },
                None => {
                    &&& pool.queue.len() <= next.queue.len()
                    &&& next.queue.take(pool.queue.len() as int) == pool.queue
                    &&& next.workers.len() == pool.workers.len()
                    &&& forall|i: int|
                        0 <= i < pool.workers.len() ==> (#[trigger] next.workers[i]).state
                            == pool.workers[i].state
                },
            }
        }),
{
    if let Event::Advance(id) = event {
        lemma_advance_delivers(pool, id);
    }
}

/// A pool keeps the workers that it was created with: after every history
/// it has its `size` workers, with the ordinals `1..=size`, and the handle
/// of a worker's thread has been taken exactly if the pool has been shut
/// down.
pub proof fn lemma_pool_keeps_its_workers<J>(size: nat, history: Seq<Event<J>>)
    requires
        PoolState::<J>::fresh(size).admits(history),
    ensures
        ({
            let pool = PoolState::<J>::fresh(size).run(history);
            &&& pool.workers.len() == size
            &&& forall|i: int| 0 <= i < size ==> (#[trigger] pool.workers[i]).id == i + 1
            &&& forall|i: int| 0 <= i < size ==> (#[trigger] pool.workers[i]).joined == pool.closed
        }),
{
    lemma_invariant(size, history);
}

/// A worker runs until it is told to stop: while the pool has not been shut
/// down, every worker runs, so a job is never submitted to a pool that has
/// nobody left to receive it.
pub proof fn lemma_workers_run_until_shutdown<J>(size: nat, history: Seq<Event<J>>)
    requires
        PoolState::<J>::fresh(size).admits(history),
        !PoolState::<J>::fresh(size).run(history).closed,
    ensures
        ({
            let pool = PoolState::<J>::fresh(size).run(history);
            forall|i: int| 0 <= i < size ==> (#[trigger] pool.workers[i]).state is Running
        }),
{
    lemma_invariant(size, history);
    lemma_terminated_bounds(PoolState::<J>::fresh(size).run(history).workers);
}

/// Every message is delivered once, in the order in which it was sent, to
/// a worker of the pool: the messages delivered so far, followed by those
/// that still wait, are the submitted jobs in the order of their submission,
/// followed, once the pool has been shut down, by exactly one terminate
/// signal for each worker.
pub proof fn lemma_messages_are_delivered_in_order<J>(size: nat, history: Seq<Event<J>>)
    requires
        PoolState::<J>::fresh(size).admits(history),
    ensures
        ({
            let pool = PoolState::<J>::fresh(size).run(history);
            let delivered = PoolState::<J>::fresh(size).deliveries(history);
            &&& pool.signals_sent() == (if pool.closed {
                size
            } else {
                0
            })
            &&& messages(delivered) + pool.queue == sent(submitted(history), pool.signals_sent())
            &&& forall|k: int|
                0 <= k < delivered.len() ==> 1 <= (#[trigger] delivered[k]).worker <= size
        }),
{
    lemma_invariant(size, history);
}

/// Every job is handed out once: the jobs handed to workers so far are the first of
/// the submitted jobs, each once and in the order of submission; and once
/// every worker has terminated they are all the submitted jobs.
pub proof fn lemma_every_job_is_handed_out_once<J>(size: nat, history: Seq<Event<J>>)
    requires
        PoolState::<J>::fresh(size).admits(history),
    ensures
        ({
            let pool = PoolState::<J>::fresh(size).run(history);
            let delivered = PoolState::<J>::fresh(size).deliveries(history);
            let jobs = submitted(history);
            &&& jobs_handed_out(delivered).len() <= jobs.len()
            &&& jobs_handed_out(delivered) == jobs.take(jobs_handed_out(delivered).len() as int)
            &&& size >= 1 && all_terminated(pool.workers) ==> jobs_handed_out(delivered) == jobs
        }),
{
    lemma_invariant(size, history);
    let pool = PoolState::<J>::fresh(size).run(history);
    let delivered = PoolState::<J>::fresh(size).deliveries(history);
    let jobs = submitted(history);
    lemma_delivered_is_a_prefix(delivered, pool.queue, sent(jobs, pool.signals_sent()));
    lemma_jobs_of_a_prefix(delivered, jobs, pool.signals_sent());
    if size >= 1 && all_terminated(pool.workers) {
        lemma_terminated_bounds(pool.workers);
    }
}

/// A worker consumes at most one terminate signal: exactly one if it has
/// terminated, none while it runs.
pub proof fn lemma_one_signal_per_worker<J>(size: nat, history: Seq<Event<J>>, worker: int)
    requires
        PoolState::<J>::fresh(size).admits(history),
        1 <= worker <= size,
    ensures
        ({
            let pool = PoolState::<J>::fresh(size).run(history);
            let delivered = PoolState::<J>::fresh(size).deliveries(history);
            signals_to(delivered, worker) == (if pool.workers[worker - 1].state is Terminated {
                1nat
            } else {
                0nat
            })
        }),
{
    lemma_invariant(size, history);
}

/// After shutdown the queue holds the jobs that have not been handed out
/// yet, in the order of their submission, and behind them one terminate
/// signal for each worker that still runs. So a running worker never waits
/// in vain: while one runs, a message waits.
pub proof fn lemma_a_signal_waits_for_each_running_worker<J>(size: nat, history: Seq<Event<J>>)
    requires
        PoolState::<J>::fresh(size).admits(history),
        PoolState::<J>::fresh(size).run(history).closed,
    ensures
        ({
            let pool = PoolState::<J>::fresh(size).run(history);
            let delivered = PoolState::<J>::fresh(size).deliveries(history);
            let jobs = submitted(history);
            &&& terminated(pool.workers) <= size
            &&& pool.queue == sent(
                jobs.skip(jobs_handed_out(delivered).len() as int),
                (size - terminated(pool.workers)) as nat,
            )
            &&& !all_terminated(pool.workers) ==> pool.queue.len() > 0
        }),
{
    lemma_invariant(size, history);
    let pool = PoolState::<J>::fresh(size).run(history);
    let delivered = PoolState::<J>::fresh(size).deliveries(history);
    let jobs = submitted(history);
    let all = sent(jobs, size);
    lemma_terminated_bounds(pool.workers);
    lemma_delivered_is_a_prefix(delivered, pool.queue, all);
    lemma_jobs_of_a_prefix(delivered, jobs, size);
}

/// Shutdown completes: once every worker has terminated, the pool has been
/// shut down, nothing waits in the queue, and what was delivered is every
/// submitted job, in the order of submission, and then one terminate signal
/// for each worker, of which every worker consumed one. No job is left
/// behind.
pub proof fn lemma_shutdown_completes<J>(size: nat, history: Seq<Event<J>>)
    requires
        size >= 1,
        PoolState::<J>::fresh(size).admits(history),
        all_terminated(PoolState::<J>::fresh(size).run(history).workers),
    ensures
        ({
            let pool = PoolState::<J>::fresh(size).run(history);
            let delivered = PoolState::<J>::fresh(size).deliveries(history);
            &&& pool.closed
            &&& pool.queue.len() == 0
            &&& messages(delivered) == sent(submitted(history), size)
            &&& jobs_handed_out(delivered) == submitted(history)
            &&& forall|w: int| 1 <= w <= size ==> #[trigger] signals_to(delivered, w) == 1
        }),
{
    lemma_invariant(size, history);
    lemma_every_job_is_handed_out_once(size, history);
    let pool = PoolState::<J>::fresh(size).run(history);
    let delivered = PoolState::<J>::fresh(size).deliveries(history);
    lemma_terminated_bounds(pool.workers);
    assert(messages(delivered) =~= messages(delivered) + pool.queue);
}

/// The shutdown of a pool takes the handle of every worker's thread, each
/// once and in the order of the workers: before shutdown the threads to be
/// joined are those of the workers `1..=size`, and after it none is left.
pub proof fn lemma_shutdown_joins_every_worker<J>(size: nat, history: Seq<Event<J>>)
    requires
        PoolState::<J>::fresh(size).admits(history),
    ensures
        ({
            let pool = PoolState::<J>::fresh(size).run(history);
            &&& !pool.closed ==> joinable(pool.workers) == Seq::new(size, |i: int| i + 1)
            &&& pool.closed ==> joinable(pool.workers) == Seq::<int>::empty()
            &&& joinable(pool.shutdown().workers) == Seq::<int>::empty()
        }),
{
    lemma_invariant(size, history);
    let pool = PoolState::<J>::fresh(size).run(history);
    if pool.closed {
        lemma_joinable_joined(pool.workers);
    } else {
        lemma_joinable_unjoined(pool.workers);
    }
    lemma_joinable_joined(pool.shutdown().workers);
}

/// What the proofs of this module rest on: the facts that every event of an
/// admitted history keeps.
proof fn lemma_invariant<J>(size: nat, history: Seq<Event<J>>)
    requires
        PoolState::<J>::fresh(size).admits(history),
    ensures
        ({
            let pool = PoolState::<J>::fresh(size).run(history);
            let delivered = PoolState::<J>::fresh(size).deliveries(history);
            let jobs = submitted(history);
            &&& pool.workers.len() == size
            &&& forall|i: int| 0 <= i < size ==> (#[trigger] pool.workers[i]).id == i + 1
            &&& forall|i: int| 0 <= i < size ==> (#[trigger] pool.workers[i]).joined == pool.closed
            &&& messages(delivered) + pool.queue == sent(jobs, pool.signals_sent())
            &&& terminated(pool.workers) == (if delivered.len() <= jobs.len() {
                0
            } else {
                delivered.len() - jobs.len()
            })
            &&& forall|k: int|
                0 <= k < delivered.len() ==> 1 <= (#[trigger] delivered[k]).worker <= size
            &&& forall|w: int|
                1 <= w <= size ==> #[trigger] signals_to(delivered, w) == (if pool.workers[w
                    - 1].state is Terminated {
                    1nat
                } else {
                    0nat
                })
        }),
    decreases history.len(),
{
    let fresh = PoolState::<J>::fresh(size);
    let pool = fresh.run(history);
    let delivered = fresh.deliveries(history);
    let jobs = submitted(history);
    if history.len() == 0 {
        lemma_terminated_bounds(pool.workers);
    } else {
        let earlier = history.drop_last();
        let event = history.last();
        lemma_invariant(size, earlier);
        let before = fresh.run(earlier);
        let delivered_before = fresh.deliveries(earlier);
        let jobs_before = submitted(earlier);
        let sent_before = sent(jobs_before, before.signals_sent());
        match event {
            Event::Submit(job) => {
                assert(messages(delivered) + pool.queue =~= (messages(delivered_before)
                    + before.queue).push(Message::NewJob(job)));
            },
            Event::Shutdown => {
                lemma_terminated_by_state(pool.workers, before.workers);
            },
            Event::Advance(id) => {
                match before.delivery(event) {
                    None => {
                        assert(pool.workers =~= before.workers);
                    },
                    Some(delivery) => {
                        let message = before.queue[0];
                        assert(messages(delivered) + pool.queue =~= messages(delivered_before)
                            + before.queue);
                        assert(sent_before[delivered_before.len() as int] == message);
                        lemma_terminated_update(before.workers, id - 1, pool.workers[id - 1]);
                        assert(delivered.drop_last() =~= delivered_before);
                        assert forall|w: int| 1 <= w <= size implies #[trigger] signals_to(
                            delivered,
                            w,
                        ) == (if pool.workers[w - 1].state is Terminated {
                            1nat
                        } else {
                            0nat
                        }) by {
                            assert(signals_to(delivered_before, w) == (if before.workers[w
                                - 1].state is Terminated {
                                1nat
                            } else {
                                0nat
                            }));
                        }
                    },
                }
            },
        }
    }
}

/// Where some messages followed by others are all that was sent, the first
/// are what was sent first.
proof fn lemma_delivered_is_a_prefix<J>(
    delivered: Seq<Delivery<J>>,
    waiting: Seq<Message<J>>,
    all: Seq<Message<J>>,
)
    requires
        messages(delivered) + waiting == all,
    ensures
        delivered.len() <= all.len(),
        messages(delivered) == all.take(delivered.len() as int),
        waiting == all.skip(delivered.len() as int),
{
}

/// Deliveries that are the first of what was sent hand out the first of
/// the jobs.
proof fn lemma_jobs_of_a_prefix<J>(deliveries: Seq<Delivery<J>>, jobs: Seq<J>, signals: nat)
    requires
        deliveries.len() <= jobs.len() + signals,
        messages(deliveries) == sent(jobs, signals).take(deliveries.len() as int),
    ensures
        jobs_handed_out(deliveries) == jobs.take(
            if deliveries.len() <= jobs.len() {
                deliveries.len() as int
            } else {
                jobs.len() as int
            },
        ),
    decreases deliveries.len(),
{
    if deliveries.len() > 0 {
        let all = sent(jobs, signals);
        let earlier = deliveries.drop_last();
        let last = deliveries.len() - 1;
        assert(messages(earlier) =~= all.take(earlier.len() as int)) by {
            assert forall|i: int| 0 <= i < earlier.len() implies messages(earlier)[i] == all[i] by {
                assert(messages(deliveries)[i] == all.take(deliveries.len() as int)[i]);
            }
        }
        lemma_jobs_of_a_prefix(earlier, jobs, signals);
        assert(deliveries.last().message == all[last]) by {
            assert(messages(deliveries)[last] == all.take(deliveries.len() as int)[last]);
        }
    }
}

proof fn lemma_terminated_bounds(workers: Seq<WorkerView>)
    ensures
        terminated(workers) <= workers.len(),
        terminated(workers) == 0 <==> forall|i: int|
            0 <= i < workers.len() ==> (#[trigger] workers[i]).state is Running,
        terminated(workers) == workers.len() <==> all_terminated(workers),
    decreases workers.len(),
{
    if workers.len() > 0 {
        let rest = workers.drop_last();
        lemma_terminated_bounds(rest);
        if terminated(workers) == 0 {
            assert forall|i: int| 0 <= i < workers.len() implies (#[trigger] workers[i]).state
                is Running by {
                if i < rest.len() {
                    assert(rest[i].state is Running);
                }
            }
        }
        if terminated(workers) == workers.len() {
            assert forall|i: int| 0 <= i < workers.len() implies (#[trigger] workers[i]).state
                is Terminated by {
                if i < rest.len() {
                    assert(rest[i].state is Terminated);
                }
            }
        }
    }
}

/// Replacing one worker changes the count by what that worker adds to it.
proof fn lemma_terminated_update(workers: Seq<WorkerView>, i: int, worker: WorkerView)
    requires
        0 <= i < workers.len(),
    ensures
        terminated(workers.update(i, worker)) + (if workers[i].state is Terminated {
            1nat
        } else {
            0nat
        }) == terminated(workers) + (if worker.state is Terminated {
            1nat
        } else {
            0nat
        }),
    decreases workers.len(),
{
    let updated = workers.update(i, worker);
    if i == workers.len() - 1 {
        assert(updated.drop_last() =~= workers.drop_last());
    } else {
        assert(updated.drop_last() =~= workers.drop_last().update(i, worker));
        lemma_terminated_update(workers.drop_last(), i, worker);
    }
}

/// The count depends on the workers' states alone.
proof fn lemma_terminated_by_state(a: Seq<WorkerView>, b: Seq<WorkerView>)
    requires
        a.len() == b.len(),
        forall|i: int| 0 <= i < a.len() ==> (#[trigger] a[i]).state == b[i].state,
    ensures
        terminated(a) == terminated(b),
    decreases a.len(),
{
    if a.len() > 0 {
        lemma_terminated_by_state(a.drop_last(), b.drop_last());
    }
}

proof fn lemma_joinable_unjoined(workers: Seq<WorkerView>)
    requires
        forall|i: int| 0 <= i < workers.len() ==> !(#[trigger] workers[i]).joined,
    ensures
        joinable(workers) == workers.map_values(|w: WorkerView| w.id),
    decreases workers.len(),
{
    if workers.len() > 0 {
        lemma_joinable_unjoined(workers.drop_last());
    }
}

proof fn lemma_joinable_joined(workers: Seq<WorkerView>)
    requires
        forall|i: int| 0 <= i < workers.len() ==> (#[trigger] workers[i]).joined,
    ensures
        joinable(workers) == Seq::<int>::empty(),
    decreases workers.len(),
{
    if workers.len() > 0 {
        lemma_joinable_joined(workers.drop_last());
    }
}

} // verus!
