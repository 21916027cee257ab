//! The event stream: the one bounded, ordered queue through which events
//! reach the embedding application. A full stream refuses an event and hands
//! it back, so that a producer waits and tries again instead of blocking or
//! losing it.

use crate::connection::MESSAGE_CHANNEL_BUFFER;
use crate::message::{Message, MessageView};
use std::collections::VecDeque;
use vstd::prelude::*;

verus! {

/// A stream as plain mathematical values: its bound, and the events that
/// wait in it, oldest first.
pub ghost struct EventStreamView {
    pub capacity: nat,
    pub pending: Seq<MessageView>,
}

/// The bounded queue of events between the server and its consumer.
pub struct EventStream {
    capacity: usize,
    pending: VecDeque<Message>,
}

impl View for EventStream {
    type V = EventStreamView;

    closed spec fn view(&self) -> EventStreamView {
        EventStreamView {
            capacity: self.capacity as nat,
            pending: Seq::new(self.pending@.len(), |i: int| self.pending@[i]@),
        }
    }
}

impl EventStream {
    /// No more events wait than the bound allows.
    pub open spec fn wf(&self) -> bool {
        self@.pending.len() <= self@.capacity
    }

    /// An empty stream with the usual bound.
    pub fn new() -> (stream: EventStream)
        ensures
            stream.wf(),
            stream@ == (EventStreamView {
                capacity: MESSAGE_CHANNEL_BUFFER as nat,
                pending: Seq::empty(),
            }),
    {
        Self::with_capacity(MESSAGE_CHANNEL_BUFFER)
    }

    /// An empty stream that holds up to `capacity` events.
    pub fn with_capacity(capacity: usize) -> (stream: EventStream)
        ensures
            stream.wf(),
            stream@ == (EventStreamView { capacity: capacity as nat, pending: Seq::empty() }),
    {
        let stream = EventStream { capacity, pending: VecDeque::new() };
        assert(stream@.pending =~= Seq::empty());
        stream
    }

    /// The number of events that wait in the stream.
    pub fn len(&self) -> (count: usize)
        ensures
            count == self@.pending.len(),
    {
        self.pending.len()
    }

    /// Whether the stream would refuse an event now.
    pub fn is_full(&self) -> (full: bool)
        ensures
            full == (self@.pending.len() >= self@.capacity),
    {
        self.pending.len() >= self.capacity
    }

    /// Puts `event` behind the events that wait. A full stream takes
    /// nothing and hands the event back as it is.
    pub fn push(&mut self, event: Message) -> (refused: Option<Message>)
        requires
            old(self).wf(),
        ensures
            final(self).wf(),
            refused is None <==> old(self)@.pending.len() < old(self)@.capacity,
            refused is None ==> final(self)@ == (EventStreamView {
                pending: old(self)@.pending.push(event@),
                ..old(self)@
            }),
            refused is Some ==> refused->Some_0 == event && final(self)@ == old(self)@,
    {
        if self.pending.len() >= self.capacity {
            return Some(event);
        }
        let ghost pushed = event@;
        self.pending.push_back(event);
        proof {
            assert(final(self)@.pending =~= old(self)@.pending.push(pushed));
        }
        None
    }

    /// Takes the oldest event that waits, if there is one.
    pub fn pop(&mut self) -> (event: Option<Message>)
        requires
            old(self).wf(),
        ensures
            final(self).wf(),
            event is Some <==> old(self)@.pending.len() > 0,
            event is Some ==> event->Some_0@ == old(self)@.pending[0] && final(self)@ == (
            EventStreamView {
                pending: old(self)@.pending.subrange(1, old(self)@.pending.len() as int),
                ..old(self)@
            }),
            event is None ==> final(self)@ == old(self)@,
    {
        let event = self.pending.pop_front();
        proof {
            if event is Some {
                assert(final(self)@.pending =~= old(self)@.pending.subrange(
                    1,
                    old(self)@.pending.len() as int,
                ));
            } else {
                assert(final(self)@.pending =~= old(self)@.pending);
            }
        }
        event
    }
}

} // verus!
