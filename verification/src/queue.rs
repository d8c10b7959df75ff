//! A bounded, ordered inbox of world commands.
//!
//! Producers enqueue asynchronously from the simulation's point of view; the
//! simulation drains the whole backlog, in arrival order, once at the start
//! of each tick. Enqueueing on a full queue fails fast, handing the message
//! back to the producer, and never blocks or slows the simulation.

use vstd::prelude::*;
use crate::body::GridMessage;

verus! {

/// A bounded FIFO queue of pending [`GridMessage`] commands.
pub struct CommandQueue {
    items: Vec<GridMessage>,
    capacity: usize,
}

impl View for CommandQueue {
    type V = Seq<GridMessage>;

    closed spec fn view(&self) -> Seq<GridMessage> {
        self.items@
    }
}

impl CommandQueue {
    /// The most messages the queue will hold at once.
    pub closed spec fn spec_capacity(&self) -> nat {
        self.capacity as nat
    }

    /// Creates an empty queue that holds at most `capacity` messages.
    pub fn new(capacity: usize) -> (q: CommandQueue)
        ensures
            q@ == Seq::<GridMessage>::empty(),
            q.spec_capacity() == capacity,
    {
        CommandQueue { items: Vec::new(), capacity }
    }

    /// Number of messages waiting.
    pub fn len(&self) -> (n: usize)
        ensures
            n == self@.len(),
    {
        self.items.len()
    }

    /// The capacity the queue was created with.
    pub fn capacity(&self) -> (n: usize)
        ensures
            n == self.spec_capacity(),
    {
        self.capacity
    }

    /// Appends a message, or hands it back unchanged when the queue is full.
    pub fn try_send(&mut self, message: GridMessage) -> (result: Result<(), GridMessage>)
        ensures
            final(self).spec_capacity() == old(self).spec_capacity(),
            old(self)@.len() < old(self).spec_capacity() ==> result is Ok && final(self)@
                == old(self)@.push(message),
            old(self)@.len() >= old(self).spec_capacity() ==> result == Result::<
                (),
                GridMessage,
            >::Err(message) && final(self)@ == old(self)@,
    {
        if self.items.len() < self.capacity {
            self.items.push(message);
            Ok(())
        } else {
            Err(message)
        }
    }

    /// Removes and returns the whole backlog in arrival order.
    pub fn drain(&mut self) -> (backlog: Vec<GridMessage>)
        ensures
            backlog@ == old(self)@,
            final(self)@ == Seq::<GridMessage>::empty(),
            final(self).spec_capacity() == old(self).spec_capacity(),
    {
        let backlog = self.items.split_off(0);
        proof {
            assert(backlog@ =~= old(self)@);
            assert(self@ =~= Seq::<GridMessage>::empty());
        }
        backlog
    }
}

} // verus!
