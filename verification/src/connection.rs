//! One accepted peer: its identity, the bytes received from it that are not
//! decoded yet, and the bounded queue of frames waiting to be written to it.

use crate::frame::{
    decode, decode_frame, encode_frame, frame_of, read_outcome, text_from_utf8, DecodeStep,
    FrameError, ReadOutcome, NATIVE_MESSAGING_BUFFER_SIZE,
};
use std::collections::VecDeque;
use vstd::prelude::*;

verus! {

/// The number of frames that may wait in one client's outbound queue.
pub const MESSAGE_CHANNEL_BUFFER: usize = 32;

/// Where a connection stands in its life.
#[derive(Clone, Copy, Debug, PartialEq, Eq, Structural)]
pub enum ConnectionState {
    /// Accepted and given an identity; nothing has been read from it.
    Accepted,
    /// Announced to the application; frames are being read.
    Reading,
    /// Torn down. Nothing is read from it or queued for it again.
    Closed,
}

/// Why a payload was not queued for a client.
#[derive(Clone, Copy, Debug, PartialEq, Eq, Structural)]
pub enum EnqueueError {
    /// The connection is closed.
    Closed,
    /// The payload exceeds the frame cap.
    TooLarge,
    /// The outbound queue is full.
    QueueSaturated,
}

/// What one reading step on a connection produced.
#[derive(Debug)]
pub enum ReadStep {
    /// No whole frame is buffered, or the connection is not being read.
    Pending,
    /// One frame of text.
    Text(String),
    /// The peer broke the protocol; the connection is now closed.
    Violation(FrameError),
}

impl ReadStep {
    /// Whether this step reports the outcome `outcome`.
    pub open spec fn reports(self, outcome: ReadOutcome) -> bool {
        match self {
            ReadStep::Pending => outcome is Pending,
            ReadStep::Text(text) => outcome is Text && outcome->text == text@,
            ReadStep::Violation(error) => outcome == (ReadOutcome::Violation { error }),
        }
    }
}

/// A connection as plain mathematical values.
pub ghost struct ConnectionView {
    pub id: u32,
    pub state: ConnectionState,
    pub inbound: Seq<u8>,
    pub outbound: Seq<Seq<u8>>,
}

impl ConnectionView {
    /// The queue is within its bound, every queued entry is exactly one
    /// frame, and a closed connection holds nothing.
    pub open spec fn well_formed(self) -> bool {
        &&& self.outbound.len() <= MESSAGE_CHANNEL_BUFFER
        &&& forall|i: int|
            0 <= i < self.outbound.len() ==> (#[trigger] decode(self.outbound[i])) is Frame
                && decode(self.outbound[i])->rest.len() == 0
        &&& self.state == ConnectionState::Closed ==> self.inbound.len() == 0
            && self.outbound.len() == 0
    }

    /// Whether `enqueue` would accept a payload of `len` bytes.
    pub open spec fn accepts(self, len: nat) -> bool {
        &&& self.state != ConnectionState::Closed
        &&& len <= NATIVE_MESSAGING_BUFFER_SIZE
        &&& self.outbound.len() < MESSAGE_CHANNEL_BUFFER
    }

    /// The connection after the frame for `payload` joined its queue.
    pub open spec fn with_queued(self, payload: Seq<u8>) -> ConnectionView {
        ConnectionView { outbound: self.outbound.push(frame_of(payload)), ..self }
    }

    /// The connection after `payload` was offered to it.
    pub open spec fn offered(self, payload: Seq<u8>) -> ConnectionView {
        if self.accepts(payload.len()) {
            self.with_queued(payload)
        } else {
            self
        }
    }

    /// The connection after it was announced to the application.
    pub open spec fn reading(self) -> ConnectionView {
        ConnectionView {
            state: if self.state == ConnectionState::Closed {
                ConnectionState::Closed
            } else {
                ConnectionState::Reading
            },
            ..self
        }
    }

    /// The connection after `bytes` arrived from the peer.
    pub open spec fn received(self, bytes: Seq<u8>) -> ConnectionView {
        if self.state == ConnectionState::Closed {
            self
        } else {
            ConnectionView { inbound: self.inbound + bytes, ..self }
        }
    }

    /// What the next reading step finds. Nothing is read from a connection
    /// that is not in the reading state.
    pub open spec fn next_outcome(self) -> ReadOutcome {
        if self.state == ConnectionState::Reading {
            read_outcome(self.inbound)
        } else {
            ReadOutcome::Pending
        }
    }

    /// The connection after the next reading step.
    pub open spec fn after_read(self) -> ConnectionView {
        match self.next_outcome() {
            ReadOutcome::Pending => self,
            ReadOutcome::Text { text, rest } => ConnectionView { inbound: rest, ..self },
            ReadOutcome::Violation { error } => self.closed(),
        }
    }

    /// The connection after the frame at the front of its queue was taken.
    pub open spec fn after_dequeue(self) -> ConnectionView {
        if self.outbound.len() > 0 {
            ConnectionView {
                outbound: self.outbound.subrange(1, self.outbound.len() as int),
                ..self
            }
        } else {
            self
        }
    }

    /// The connection once it is torn down.
    pub open spec fn closed(self) -> ConnectionView {
        ConnectionView {
            id: self.id,
            state: ConnectionState::Closed,
            inbound: Seq::empty(),
            outbound: Seq::empty(),
        }
    }
}

/// One accepted peer.
pub struct ClientConnection {
    id: u32,
    state: ConnectionState,
    inbound: Vec<u8>,
    outbound: VecDeque<Vec<u8>>,
}

impl View for ClientConnection {
    type V = ConnectionView;

    closed spec fn view(&self) -> ConnectionView {
        ConnectionView {
            id: self.id,
            state: self.state,
            inbound: self.inbound@,
            outbound: Seq::new(self.outbound@.len(), |i: int| self.outbound@[i]@),
        }
    }
}

impl ClientConnection {
    /// The connection's invariant, see `ConnectionView::well_formed`.
    pub open spec fn wf(&self) -> bool {
        self@.well_formed()
    }

    /// A freshly accepted connection: nothing buffered, nothing queued.
    pub fn new(id: u32) -> (connection: ClientConnection)
        ensures
            connection.wf(),
            connection@ == (ConnectionView {
                id,
                state: ConnectionState::Accepted,
                inbound: Seq::empty(),
                outbound: Seq::empty(),
            }),
    {
        let connection = ClientConnection {
            id,
            state: ConnectionState::Accepted,
            inbound: Vec::new(),
            outbound: VecDeque::new(),
        };
        assert(connection@.outbound =~= Seq::empty());
        connection
    }

    /// The identity given to this connection.
    pub fn id(&self) -> (id: u32)
        ensures
            id == self@.id,
    {
        self.id
    }

    /// Where the connection stands in its life.
    pub fn state(&self) -> (state: ConnectionState)
        ensures
            state == self@.state,
    {
        self.state
    }

    /// The number of frames waiting to be written.
    pub fn pending(&self) -> (count: usize)
        ensures
            count == self@.outbound.len(),
    {
        self.outbound.len()
    }

    /// Marks the connection as announced, so that reading may begin. A closed
    /// connection stays closed.
    pub fn start_reading(&mut self)
        requires
            old(self).wf(),
        ensures
            final(self).wf(),
            final(self)@ == old(self)@.reading(),
    {
        match self.state {
            ConnectionState::Closed => {},
            _ => {
                self.state = ConnectionState::Reading;
            },
        }
    }

    /// Frames `payload` and puts it at the back of the outbound queue, or
    /// refuses it without waiting and without changing anything.
    pub fn enqueue(&mut self, payload: &[u8]) -> (result: Result<(), EnqueueError>)
        requires
            old(self).wf(),
        ensures
            final(self).wf(),
            final(self)@ == old(self)@.offered(payload@),
            result is Ok <==> old(self)@.accepts(payload@.len()),
            result == Err::<(), EnqueueError>(EnqueueError::Closed) <==> old(self)@.state
                == ConnectionState::Closed,
            result == Err::<(), EnqueueError>(EnqueueError::TooLarge) <==> old(self)@.state
                != ConnectionState::Closed && payload@.len() > NATIVE_MESSAGING_BUFFER_SIZE,
            result == Err::<(), EnqueueError>(EnqueueError::QueueSaturated) <==> old(self)@.state
                != ConnectionState::Closed && payload@.len() <= NATIVE_MESSAGING_BUFFER_SIZE
                && old(self)@.outbound.len() >= MESSAGE_CHANNEL_BUFFER,
    {
        match self.state {
            ConnectionState::Closed => {
                return Err(EnqueueError::Closed);
            },
            _ => {},
        }
        let frame = match encode_frame(payload) {
            Ok(frame) => frame,
            Err(_) => {
                return Err(EnqueueError::TooLarge);
            },
        };
        if self.outbound.len() >= MESSAGE_CHANNEL_BUFFER {
            return Err(EnqueueError::QueueSaturated);
        }
        self.outbound.push_back(frame);
        proof {
            crate::frame::lemma_round_trip(payload@, Seq::empty());
            assert(frame_of(payload@) + Seq::<u8>::empty() =~= frame_of(payload@));
            assert(final(self)@.outbound =~= old(self)@.outbound.push(frame_of(payload@)));
        }
        Ok(())
    }

    /// Takes the frame at the front of the outbound queue, if there is one.
    pub fn dequeue(&mut self) -> (frame: Option<Vec<u8>>)
        requires
            old(self).wf(),
        ensures
            final(self).wf(),
            frame is Some <==> old(self)@.outbound.len() > 0,
            frame is Some ==> frame->Some_0@ == old(self)@.outbound[0],
            final(self)@ == old(self)@.after_dequeue(),
    {
        let frame = self.outbound.pop_front();
        proof {
            if frame is Some {
                assert(final(self)@.outbound =~= old(self)@.outbound.subrange(
                    1,
                    old(self)@.outbound.len() as int,
                ));
            } else {
                assert(final(self)@.outbound =~= old(self)@.outbound);
            }
        }
        frame
    }

    /// Buffers bytes that arrived from the peer. A closed connection drops them.
    pub fn receive(&mut self, bytes: &[u8])
        requires
            old(self).wf(),
        ensures
            final(self).wf(),
            final(self)@ == old(self)@.received(bytes@),
    {
        match self.state {
            ConnectionState::Closed => {
                return ;
            },
            _ => {},
        }
        let n: usize = bytes.len();
        let mut i: usize = 0;
        while i < n
            invariant
                i <= n,
                n == bytes@.len(),
                self.inbound@ == old(self).inbound@ + bytes@.subrange(0, i as int),
                self.id == old(self).id,
                self.state == old(self).state,
                self.outbound == old(self).outbound,
            decreases n - i,
        {
            self.inbound.push(bytes[i]);
            i += 1;
        }
        proof {
            assert(bytes@.subrange(0, n as int) =~= bytes@);
            assert(final(self)@.outbound =~= old(self)@.outbound);
        }
    }

    /// Reads the next frame of text from what is buffered. A frame above the
    /// cap, or one that is not UTF-8, closes the connection.
    pub fn next_message(&mut self) -> (step: ReadStep)
        requires
            old(self).wf(),
        ensures
            final(self).wf(),
            step.reports(old(self)@.next_outcome()),
            final(self)@ == old(self)@.after_read(),
    {
        match self.state {
            ConnectionState::Reading => {},
            _ => {
                return ReadStep::Pending;
            },
        }
        match decode_frame(self.inbound.as_slice()) {
            DecodeStep::Incomplete => ReadStep::Pending,
            DecodeStep::Oversized => {
                self.close();
                ReadStep::Violation(FrameError::TooLarge)
            },
            DecodeStep::Frame { payload, consumed } => {
                let rest = self.inbound.split_off(consumed);
                self.inbound = rest;
                match text_from_utf8(payload) {
                    Some(text) => {
                        proof {
                            assert(final(self)@.outbound =~= old(self)@.outbound);
                        }
                        ReadStep::Text(text)
                    },
                    None => {
                        self.close();
                        ReadStep::Violation(FrameError::InvalidEncoding)
                    },
                }
            },
        }
    }

    /// Tears the connection down: nothing stays buffered or queued. Closing a
    /// closed connection changes nothing.
    pub fn close(&mut self)
        ensures
            final(self).wf(),
            final(self)@ == old(self)@.closed(),
    {
        self.state = ConnectionState::Closed;
        self.inbound = Vec::new();
        self.outbound = VecDeque::new();
        proof {
            assert(final(self)@.outbound =~= Seq::empty());
        }
    }
}

} // verus!
