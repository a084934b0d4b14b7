//! The job queue: an unbounded, order-preserving transport of messages.

use crate::message::Message;
use std::collections::VecDeque;
use vstd::prelude::*;

verus! {

/// An unbounded FIFO queue of [`Message`]s.
///
/// Its view is the sequence of the messages that wait in it, oldest first.
/// The queue itself never blocks: `receive` answers `None` where a worker
/// would have to wait for the next message.
pub struct JobQueue<J> {
    items: VecDeque<Message<J>>,
}

impl<J> View for JobQueue<J> {
    type V = Seq<Message<J>>;

    closed spec fn view(&self) -> Seq<Message<J>> {
        self.items@
    }
}

impl<J> JobQueue<J> {
    /// An empty queue.
    pub fn new() -> (queue: Self)
        ensures
            queue@ == Seq::<Message<J>>::empty(),
    {
        JobQueue { items: VecDeque::new() }
    }

    /// Enqueues `message` behind everything that already waits.
    pub fn send(&mut self, message: Message<J>)
        ensures
            final(self)@ == old(self)@.push(message),
    {
        self.items.push_back(message);
    }

    /// Takes the oldest message out of the queue, or returns `None` and
    /// leaves the queue as it is where nothing waits.
    pub fn receive(&mut self) -> (message: Option<Message<J>>)
        ensures
            old(self)@.len() == 0 ==> message is None && final(self)@ == old(self)@,
            old(self)@.len() > 0 ==> message == Some(old(self)@[0]),
            old(self)@.len() > 0 ==> final(self)@ == old(self)@.drop_first(),
    {
        self.items.pop_front()
    }

    /// The number of messages that wait.
    pub fn len(&self) -> (n: usize)
        ensures
            n == self@.len(),
    {
        self.items.len()
    }

    /// Whether nothing waits.
    pub fn is_empty(&self) -> (empty: bool)
        ensures
            empty <==> self@.len() == 0,
    {
        self.items.len() == 0
    }
}

} // verus!
