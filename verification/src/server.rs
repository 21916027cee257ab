//! The server: a state machine over the registry that turns connection
//! activity into one ordered stream of events. It performs no I/O itself.
//! Whoever owns the listener and the sockets tells it what happened and
//! delivers the events that it returns, in the order in which it returns them.

use crate::connection::{ConnectionState, ConnectionView, ReadStep};
use crate::frame::{declared_length, ReadOutcome, NATIVE_MESSAGING_BUFFER_SIZE};
use crate::message::{Message, MessageType, MessageView};
use crate::registry::{
    accepting, fresh_connection, lemma_index_of, lemma_nobody_accepts, lemma_offered,
    lemma_registered_contains, lemma_unregister_idempotent, lemma_with_connection,
    lemma_without_contains, Registry, RegistryView,
};
use vstd::prelude::*;
use vstd::utf8::encode_utf8;

verus! {

/// Why the endpoint could not be bound.
#[derive(Clone, Copy, Debug, PartialEq, Eq, Structural)]
pub enum BindFailure {
    /// Another live server owns the endpoint.
    AddressInUse,
    /// The endpoint may not be created by this user.
    PermissionDenied,
    /// Any other failure of the operating system.
    Io,
}

/// The event that announces client `id`.
pub open spec fn connected_event(id: u32) -> MessageView {
    MessageView { client_id: id, kind: MessageType::Connected, message: None }
}

/// The event that reports the end of client `id`.
pub open spec fn disconnected_event(id: u32) -> MessageView {
    MessageView { client_id: id, kind: MessageType::Disconnected, message: None }
}

/// The event that carries one frame of text from client `id`.
pub open spec fn text_event(id: u32, text: Seq<char>) -> MessageView {
    MessageView { client_id: id, kind: MessageType::Message, message: Some(text) }
}

/// The events of a sequence of executable events.
pub open spec fn views(events: Seq<Message>) -> Seq<MessageView> {
    Seq::new(events.len(), |i: int| events[i]@)
}

/// Whether `log` holds an event of kind `kind` for client `id`.
#[verifier::opaque]
pub open spec fn reported(log: Seq<MessageView>, id: u32, kind: MessageType) -> bool {
    exists|i: int| 0 <= i < log.len() && (#[trigger] log[i]).client_id == id && log[i].kind == kind
}

/// The order that every stream of events keeps, client by client: nothing
/// precedes a client's `Connected`, nothing follows its `Disconnected`, and
/// every other event of the client has its `Connected` before it.
#[verifier::opaque]
pub open spec fn ordered(log: Seq<MessageView>) -> bool {
    &&& forall|i: int| 0 <= i < log.len() ==> (#[trigger] log[i]).well_formed()
    &&& forall|i: int, j: int|
        0 <= i < j < log.len() && (#[trigger] log[i]).client_id == (#[trigger] log[j]).client_id
            ==> log[j].kind != MessageType::Connected && log[i].kind != MessageType::Disconnected
    &&& forall|j: int|
        0 <= j < log.len() && (#[trigger] log[j]).kind != MessageType::Connected ==> reported(
            log.subrange(0, j),
            log[j].client_id,
            MessageType::Connected,
        )
}

/// The events that reading everything buffered on `connection` produces: one
/// `Message` for each whole frame of text, in order, and a `Disconnected`
/// right after the last of them if the next frame breaks the protocol.
pub open spec fn drained_events(connection: ConnectionView) -> Seq<MessageView>
    decreases connection.inbound.len(),
{
    match connection.next_outcome() {
        ReadOutcome::Pending => Seq::empty(),
        ReadOutcome::Text { text, rest } => {
            if rest.len() < connection.inbound.len() {
                seq![text_event(connection.id, text)] + drained_events(connection.after_read())
            } else {
                Seq::empty()
            }
        },
        ReadOutcome::Violation { error } => seq![disconnected_event(connection.id)],
    }
}

/// The connection after everything buffered on it was read; `None` if that
/// ended in a breach of the protocol.
pub open spec fn drained(connection: ConnectionView) -> Option<ConnectionView>
    decreases connection.inbound.len(),
{
    match connection.next_outcome() {
        ReadOutcome::Pending => Some(connection),
        ReadOutcome::Text { text, rest } => {
            if rest.len() < connection.inbound.len() {
                drained(connection.after_read())
            } else {
                Some(connection)
            }
        },
        ReadOutcome::Violation { error } => None,
    }
}

/// Reading a frame takes at least its prefix off the buffered bytes, and
/// leaves the connection sound and in the reading state.
pub proof fn lemma_read_consumes(connection: ConnectionView)
    requires
        connection.well_formed(),
        connection.next_outcome() is Text,
    ensures
        connection.next_outcome()->rest.len() + 4 <= connection.inbound.len(),
        connection.after_read().well_formed(),
        connection.after_read().state == ConnectionState::Reading,
        connection.after_read().id == connection.id,
        connection.after_read().inbound == connection.next_outcome()->rest,
{
}

/// What reading a connection can produce: events of that client alone, each
/// of them sound; `Message` events, and after them one `Disconnected` exactly
/// when the client broke the protocol, in which case it does not stay.
pub proof fn lemma_drained_events(connection: ConnectionView)
    requires
        connection.well_formed(),
    ensures
        forall|i: int|
            0 <= i < drained_events(connection).len() ==> {
                &&& (#[trigger] drained_events(connection)[i]).client_id == connection.id
                &&& drained_events(connection)[i].well_formed()
                &&& drained_events(connection)[i].kind != MessageType::Connected
                &&& i < drained_events(connection).len() - 1 ==> drained_events(connection)[i].kind
                    == MessageType::Message
            },
        drained(connection) is None <==> drained_events(connection).len() > 0 && drained_events(
            connection,
        ).last().kind == MessageType::Disconnected,
        drained(connection) is Some ==> {
            &&& drained(connection)->Some_0.well_formed()
            &&& drained(connection)->Some_0.id == connection.id
            &&& drained(connection)->Some_0.state == connection.state
            &&& drained(connection)->Some_0.outbound == connection.outbound
        },
    decreases connection.inbound.len(),
{
    match connection.next_outcome() {
        ReadOutcome::Pending => {},
        ReadOutcome::Text { text, rest } => {
            lemma_read_consumes(connection);
            let next = connection.after_read();
            lemma_drained_events(next);
            let tail = drained_events(next);
            let all = drained_events(connection);
            assert(all =~= seq![text_event(connection.id, text)] + tail);
            assert forall|i: int| 0 <= i < all.len() implies {
                &&& (#[trigger] all[i]).client_id == connection.id
                &&& all[i].well_formed()
                &&& all[i].kind != MessageType::Connected
                &&& i < all.len() - 1 ==> all[i].kind == MessageType::Message
            } by {
                if i > 0 {
                    assert(all[i] == tail[i - 1]);
                }
            }
            if tail.len() > 0 {
                assert(all.last() == tail.last());
            }
        },
        ReadOutcome::Violation { error } => {},
    }
}

/// A frame that declares more than the cap allows yields no `Message`: the
/// one event that it yields is the `Disconnected` of its sender, who does
/// not stay.
pub proof fn lemma_oversized_frame_disconnects(connection: ConnectionView)
    requires
        connection.state == ConnectionState::Reading,
        connection.inbound.len() >= 4,
        declared_length(connection.inbound) > NATIVE_MESSAGING_BUFFER_SIZE,
    ensures
        drained_events(connection) == seq![disconnected_event(connection.id)],
        drained(connection) is None,
{
}

/// One `Disconnected` event for each of `clients`, in their order.
pub open spec fn farewells(clients: Seq<ConnectionView>) -> Seq<MessageView> {
    Seq::new(clients.len(), |k: int| disconnected_event(clients[k].id))
}

/// A server as plain mathematical values: whether it runs, its registry, and
/// every event that it has returned so far, oldest first.
pub ghost struct ServerView {
    pub running: bool,
    pub registry: RegistryView,
    pub emitted: Seq<MessageView>,
}

impl ServerView {
    /// What holds of a server in every state that it can reach: the events
    /// returned so far are in order; every registered client was announced
    /// and not yet reported gone; every announced client is still registered
    /// or was reported gone; and a stopped server has no clients.
    pub open spec fn well_formed(self) -> bool {
        &&& self.registry.well_formed()
        &&& !self.running ==> self.registry.clients.len() == 0
        &&& ordered(self.emitted)
        &&& forall|k: int|
            0 <= k < self.registry.clients.len() ==> {
                &&& (#[trigger] self.registry.clients[k]).state == ConnectionState::Reading
                &&& reported(self.emitted, self.registry.clients[k].id, MessageType::Connected)
                &&& !reported(self.emitted, self.registry.clients[k].id, MessageType::Disconnected)
            }
        &&& forall|id: u32| #[trigger]
            reported(self.emitted, id, MessageType::Connected) ==> {
                &&& 1 <= id < self.registry.next_id
                &&& self.registry.contains(id) || reported(
                    self.emitted,
                    id,
                    MessageType::Disconnected,
                )
            }
    }
}

/// An empty stream of events is in order and reports nothing.
pub proof fn lemma_nothing_reported(id: u32, kind: MessageType)
    ensures
        ordered(Seq::empty()),
        !reported(Seq::empty(), id, kind),
{
    reveal(ordered);
    reveal(reported);
}

/// The event at place `i` of a stream is reported by it.
pub proof fn lemma_reported_at(log: Seq<MessageView>, i: int)
    requires
        0 <= i < log.len(),
    ensures
        reported(log, log[i].client_id, log[i].kind),
{
    reveal(reported);
}

/// A place at which a reported event stands.
pub proof fn lemma_reported_where(log: Seq<MessageView>, id: u32, kind: MessageType) -> (i: int)
    requires
        reported(log, id, kind),
    ensures
        0 <= i < log.len(),
        log[i].client_id == id,
        log[i].kind == kind,
{
    reveal(reported);
    choose|i: int| 0 <= i < log.len() && (#[trigger] log[i]).client_id == id && log[i].kind == kind
}

/// What a stream reports after one more event is what it reported before,
/// and that event.
pub proof fn lemma_reported_push(log: Seq<MessageView>, event: MessageView)
    ensures
        forall|id: u32, kind: MessageType| #[trigger]
            reported(log.push(event), id, kind) <==> reported(log, id, kind) || (event.client_id
                == id && event.kind == kind),
{
    let longer = log.push(event);
    assert forall|id: u32, kind: MessageType| #[trigger]
        reported(longer, id, kind) <==> reported(log, id, kind) || (event.client_id == id
            && event.kind == kind) by {
        if reported(log, id, kind) {
            let i = lemma_reported_where(log, id, kind);
            assert(longer[i] == log[i]);
            lemma_reported_at(longer, i);
        }
        if event.client_id == id && event.kind == kind {
            assert(longer[log.len() as int] == event);
            lemma_reported_at(longer, log.len() as int);
        }
        if reported(longer, id, kind) {
            let i = lemma_reported_where(longer, id, kind);
            if i < log.len() {
                assert(longer[i] == log[i]);
                lemma_reported_at(log, i);
            }
        }
    }
}

/// A stream in order reports no event of a client that it has not announced.
pub proof fn lemma_unannounced_is_silent(log: Seq<MessageView>, id: u32, i: int)
    requires
        ordered(log),
        !reported(log, id, MessageType::Connected),
        0 <= i < log.len(),
    ensures
        log[i].client_id != id,
{
    reveal(ordered);
    if log[i].client_id == id {
        if log[i].kind == MessageType::Connected {
            lemma_reported_at(log, i);
        } else {
            let before = log.subrange(0, i);
            let c = lemma_reported_where(before, id, MessageType::Connected);
            assert(before[c] == log[c]);
            lemma_reported_at(log, c);
        }
    }
}

/// Announcing a client that the stream has not announced yet keeps it in order.
pub proof fn lemma_ordered_push_connected(log: Seq<MessageView>, id: u32)
    requires
        ordered(log),
        !reported(log, id, MessageType::Connected),
    ensures
        ordered(log.push(connected_event(id))),
{
    let longer = log.push(connected_event(id));
    let n = log.len() as int;
    assert forall|i: int| 0 <= i < n implies (#[trigger] log[i]).client_id != id by {
        lemma_unannounced_is_silent(log, id, i);
    }
    assert(ordered(longer)) by {
        reveal(ordered);
        assert forall|j: int|
            0 <= j < longer.len() && (#[trigger] longer[j]).kind
                != MessageType::Connected implies reported(
            longer.subrange(0, j),
            longer[j].client_id,
            MessageType::Connected,
        ) by {
            assert(longer[j] == log[j]);
            assert(longer.subrange(0, j) =~= log.subrange(0, j));
        }
    }
}

/// A further event of a client that was announced and not reported gone
/// keeps the stream in order.
pub proof fn lemma_ordered_push_later(log: Seq<MessageView>, event: MessageView)
    requires
        ordered(log),
        event.well_formed(),
        event.kind != MessageType::Connected,
        reported(log, event.client_id, MessageType::Connected),
        !reported(log, event.client_id, MessageType::Disconnected),
    ensures
        ordered(log.push(event)),
{
    let longer = log.push(event);
    let n = log.len() as int;
    assert forall|i: int|
        0 <= i < n && (#[trigger] log[i]).client_id == event.client_id implies log[i].kind
        != MessageType::Disconnected by {
        lemma_reported_at(log, i);
    }
    assert(ordered(longer)) by {
        reveal(ordered);
        assert forall|j: int|
            0 <= j < longer.len() && (#[trigger] longer[j]).kind
                != MessageType::Connected implies reported(
            longer.subrange(0, j),
            longer[j].client_id,
            MessageType::Connected,
        ) by {
            if j < n {
                assert(longer[j] == log[j]);
                assert(longer.subrange(0, j) =~= log.subrange(0, j));
            } else {
                assert(longer.subrange(0, j) =~= log);
            }
        }
    }
}

/// The life of each client as the stream of events shows it: one
/// `Connected` at most and one `Disconnected` at most; every `Message` and
/// the `Disconnected` of a client have its `Connected` in the part of the
/// stream before them; every `Message` stands before the `Disconnected` if
/// there is one; and exactly the `Message` events carry text.
pub proof fn lemma_client_lifecycle(log: Seq<MessageView>)
    requires
        ordered(log),
    ensures
        forall|i: int, j: int|
            0 <= i < log.len() && 0 <= j < log.len() && (#[trigger] log[i]).client_id == (
            #[trigger] log[j]).client_id && log[i].kind == log[j].kind && log[i].kind
                != MessageType::Message ==> i == j,
        forall|m: int|
            0 <= m < log.len() && (#[trigger] log[m]).kind != MessageType::Connected ==> reported(
                log.subrange(0, m),
                log[m].client_id,
                MessageType::Connected,
            ),
        forall|m: int, d: int|
            0 <= m < log.len() && 0 <= d < log.len() && (#[trigger] log[m]).client_id == (
            #[trigger] log[d]).client_id && log[m].kind == MessageType::Message && log[d].kind
                == MessageType::Disconnected ==> m < d,
        forall|i: int|
            0 <= i < log.len() ==> ((#[trigger] log[i]).kind == MessageType::Message
                <==> log[i].message is Some),
{
    reveal(ordered);
    assert forall|i: int| 0 <= i < log.len() implies ((#[trigger] log[i]).kind
        == MessageType::Message <==> log[i].message is Some) by {
        assert(log[i].well_formed());
    }
}

/// In every state of a server the events returned so far are in order, and
/// once the server has stopped every client that was ever announced has been
/// reported gone: exactly one `Connected` and exactly one `Disconnected` each.
pub proof fn lemma_server_events(server: ServerView)
    requires
        server.well_formed(),
    ensures
        ordered(server.emitted),
        !server.running ==> forall|id: u32| #[trigger]
            reported(server.emitted, id, MessageType::Connected) ==> reported(
                server.emitted,
                id,
                MessageType::Disconnected,
            ),
{
    assert forall|id: u32| !server.running && #[trigger] reported(
        server.emitted,
        id,
        MessageType::Connected,
    ) implies reported(server.emitted, id, MessageType::Disconnected) by {
        if server.registry.contains(id) {
            let k = server.registry.index_of(id);
            assert(0 <= k < server.registry.clients.len());
        }
    }
}

/// The server: its endpoint, whether it still runs, its registry, and the
/// record of every event that it has returned.
pub struct Server {
    path: String,
    running: bool,
    registry: Registry,
    emitted: Ghost<Seq<MessageView>>,
}

impl View for Server {
    type V = ServerView;

    closed spec fn view(&self) -> ServerView {
        ServerView { running: self.running, registry: self.registry@, emitted: self.emitted@ }
    }
}

impl Server {
    /// The server's invariant, see `ServerView::well_formed`.
    pub open spec fn wf(&self) -> bool {
        self@.well_formed()
    }

    /// The endpoint that this server was started on.
    pub closed spec fn endpoint(&self) -> Seq<char> {
        self.path@
    }

    /// Starts a server on the endpoint `path`, given how binding it went.
    /// A server exists exactly when the endpoint was bound; a failed bind
    /// is handed back as it is and leaves nothing behind.
    pub fn start(path: String, bound: Result<(), BindFailure>) -> (result: Result<
        Server,
        BindFailure,
    >)
        ensures
            match bound {
                Ok(_) => result is Ok && result->Ok_0.wf() && result->Ok_0.endpoint() == path@
                    && result->Ok_0@ == (ServerView {
                    running: true,
                    registry: RegistryView { next_id: 1, clients: Seq::empty() },
                    emitted: Seq::empty(),
                }),
                Err(failure) => result is Err && result->Err_0 == failure,
            },
    {
        match bound {
            Ok(_) => Ok(
                {
                    proof {
                        lemma_nothing_reported(0, MessageType::Connected);
                        assert forall|id: u32|
                            !(#[trigger] reported(
                                Seq::<MessageView>::empty(),
                                id,
                                MessageType::Connected,
                            )) by {
                            lemma_nothing_reported(id, MessageType::Connected);
                        }
                    }
                    Server {
                        path,
                        running: true,
                        registry: Registry::new(),
                        emitted: Ghost(Seq::empty()),
                    }
                },
            ),
            Err(failure) => Err(failure),
        }
    }

    /// The endpoint that this server was started on.
    pub fn path(&self) -> (path: &str)
        ensures
            path@ == self.endpoint(),
    {
        self.path.as_str()
    }

    /// Whether the server has not been stopped yet.
    pub fn is_running(&self) -> (running: bool)
        ensures
            running == self@.running,
    {
        self.running
    }

    /// The identities of the clients that are connected now, oldest first.
    pub fn snapshot(&self) -> (ids: Vec<u32>)
        ensures
            ids@ == self@.registry.ids(),
    {
        self.registry.snapshot()
    }
    /// Takes in a connection that the listener accepted: the client gets the
    /// next identity and is announced by a `Connected` event before anything
    /// is read from it. A stopped server, or one that has used up its
    /// identities, takes nobody in.
    pub fn accept(&mut self) -> (event: Option<Message>)
        requires
            old(self).wf(),
        ensures
            final(self).wf(),
            final(self).endpoint() == old(self).endpoint(),
            event is Some <==> old(self)@.running && old(self)@.registry.next_id < u32::MAX,
            event is Some ==> event->Some_0@ == connected_event(old(self)@.registry.next_id)
                && final(self)@ == (ServerView {
                running: true,
                registry: RegistryView {
                    next_id: (old(self)@.registry.next_id + 1) as u32,
                    clients: old(self)@.registry.clients.push(
                        fresh_connection(old(self)@.registry.next_id).reading(),
                    ),
                },
                emitted: old(self)@.emitted.push(connected_event(old(self)@.registry.next_id)),
            }),
            event is None ==> final(self)@ == old(self)@,
    {
        if !self.running {
            return None;
        }
        let id = match self.registry.register() {
            Some(id) => id,
            None => {
                return None;
            },
        };
        let ghost registered = self.registry@;
        let ghost log = self.emitted@;
        proof {
            assert forall|other: u32|
                old(self)@.registry.contains(other) || other == id <==> #[trigger] registered.contains(
                    other,
                ) by {
                lemma_registered_contains(old(self)@.registry, other);
            }
            lemma_registered_contains(old(self)@.registry, id);
            lemma_index_of(registered, old(self)@.registry.clients.len() as int);
            lemma_with_connection(registered, id, fresh_connection(id).reading());
        }
        self.registry.start_reading(id);
        self.emitted = Ghost(log.push(connected_event(id)));
        proof {
            let after = self.registry@;
            assert(after.clients =~= old(self)@.registry.clients.push(
                fresh_connection(id).reading(),
            ));
            lemma_reported_push(log, connected_event(id));
            lemma_ordered_push_connected(log, id);
            assert forall|k: int| 0 <= k < after.clients.len() implies {
                &&& (#[trigger] after.clients[k]).state == ConnectionState::Reading
                &&& reported(self.emitted@, after.clients[k].id, MessageType::Connected)
                &&& !reported(self.emitted@, after.clients[k].id, MessageType::Disconnected)
            } by {
                if k < old(self)@.registry.clients.len() {
                    assert(after.clients[k] == old(self)@.registry.clients[k]);
                } else {
                    if reported(log, id, MessageType::Disconnected) {
                        let d = lemma_reported_where(log, id, MessageType::Disconnected);
                        lemma_unannounced_is_silent(log, id, d);
                    }
                }
            }
            assert forall|other: u32| #[trigger]
                reported(self.emitted@, other, MessageType::Connected) implies {
                &&& 1 <= other < after.next_id
                &&& after.contains(other) || reported(
                    self.emitted@,
                    other,
                    MessageType::Disconnected,
                )
            } by {
                if other != id {
                    assert(reported(log, other, MessageType::Connected));
                    assert(registered.contains(other) || reported(
                        log,
                        other,
                        MessageType::Disconnected,
                    ));
                }
            }
        }
        Some(Message::connected(id))
    }

    /// Reports that the connection of client `id` ended, for whatever
    /// reason. The client leaves the registry and a `Disconnected` event is
    /// returned for it, once: for an identity that is not registered nothing
    /// happens.
    pub fn disconnect(&mut self, id: u32) -> (event: Option<Message>)
        requires
            old(self).wf(),
        ensures
            final(self).wf(),
            final(self).endpoint() == old(self).endpoint(),
            event is Some <==> old(self)@.registry.contains(id),
            event is Some ==> event->Some_0@ == disconnected_event(id) && final(self)@ == (
            ServerView {
                running: old(self)@.running,
                registry: old(self)@.registry.without(id),
                emitted: old(self)@.emitted.push(disconnected_event(id)),
            }),
            event is None ==> final(self)@ == old(self)@,
    {
        let ghost log = self.emitted@;
        if !self.registry.unregister(id) {
            return None;
        }
        self.emitted = Ghost(log.push(disconnected_event(id)));
        proof {
            Self::lemma_gone(old(self)@, id);
        }
        Some(Message::disconnected(id))
    }

    /// Offers `message` to every connected client and returns how many of
    /// them took it into their outbound queue. That is not the number of
    /// peers that will have read it. A client whose queue is full, and a
    /// message above the frame cap, only lower the count.
    pub fn send(&mut self, message: String) -> (delivered: usize)
        requires
            old(self).wf(),
        ensures
            final(self).wf(),
            final(self).endpoint() == old(self).endpoint(),
            delivered == accepting(
                old(self)@.registry.clients,
                encode_utf8(message@).len(),
            ),
            old(self)@.registry.clients.len() == 0 ==> delivered == 0,
            final(self)@ == (ServerView {
                registry: old(self)@.registry.offered(encode_utf8(message@)),
                ..old(self)@
            }),
    {
        let payload = message.as_str().as_bytes();
        proof {
            lemma_offered(old(self)@.registry, payload@);
            if old(self)@.registry.clients.len() == 0 {
                assert(old(self)@.registry.clients =~= Seq::empty());
                lemma_nobody_accepts(payload@.len());
            }
        }
        let delivered = self.registry.broadcast(payload);
        proof {
            let after = self.registry@;
            assert forall|k: int| 0 <= k < after.clients.len() implies {
                &&& (#[trigger] after.clients[k]).state == ConnectionState::Reading
                &&& reported(self.emitted@, after.clients[k].id, MessageType::Connected)
                &&& !reported(self.emitted@, after.clients[k].id, MessageType::Disconnected)
            } by {
                assert(after.clients[k] == old(self)@.registry.clients[k].offered(payload@));
            }
        }
        delivered
    }

    /// Takes the next frame that waits to be written to client `id`, oldest
    /// first.
    pub fn next_outbound(&mut self, id: u32) -> (frame: Option<Vec<u8>>)
        requires
            old(self).wf(),
        ensures
            final(self).wf(),
            final(self).endpoint() == old(self).endpoint(),
            frame is Some <==> old(self)@.registry.contains(id) && old(self)@.registry.connection(
                id,
            ).outbound.len() > 0,
            frame is Some ==> frame->Some_0@ == old(self)@.registry.connection(id).outbound[0]
                && final(self)@ == (ServerView {
                registry: old(self)@.registry.with_connection(
                    id,
                    old(self)@.registry.connection(id).after_dequeue(),
                ),
                ..old(self)@
            }),
            frame is None ==> final(self)@ == old(self)@,
    {
        proof {
            if old(self)@.registry.contains(id) {
                Self::lemma_same_client(
                    old(self)@,
                    id,
                    old(self)@.registry.connection(id).after_dequeue(),
                );
            }
        }
        self.registry.dequeue(id)
    }

    /// Takes in bytes that arrived from client `id` and reads every whole
    /// frame that is now buffered: one `Message` event for each frame of
    /// text, in order. A frame above the cap, or one that is not UTF-8,
    /// yields no `Message`: the client leaves the registry and a
    /// `Disconnected` event ends the result. No other client is touched.
    /// Bytes for an identity that is not registered are dropped.
    pub fn receive(&mut self, id: u32, bytes: &[u8]) -> (events: Vec<Message>)
        requires
            old(self).wf(),
        ensures
            final(self).wf(),
            final(self).endpoint() == old(self).endpoint(),
            !old(self)@.registry.contains(id) ==> events@.len() == 0 && final(self)@ == old(self)@,
            old(self)@.registry.contains(id) ==> {
                let arrived = old(self)@.registry.connection(id).received(bytes@);
                &&& views(events@) == drained_events(arrived)
                &&& final(self)@ == (ServerView {
                    running: old(self)@.running,
                    registry: match drained(arrived) {
                        Some(connection) => old(self)@.registry.with_connection(id, connection),
                        None => old(self)@.registry.without(id),
                    },
                    emitted: old(self)@.emitted + drained_events(arrived),
                })
            },
    {
        let mut events: Vec<Message> = Vec::new();
        if !self.registry.receive(id, bytes) {
            return events;
        }
        let ghost start = old(self)@.registry;
        let ghost place = start.index_of(id);
        let ghost arrived = start.connection(id).received(bytes@);
        proof {
            assert(start.clients[place].id == id);
            Self::lemma_same_client(old(self)@, id, arrived);
            lemma_with_connection(start, id, arrived);
            assert(views(events@) =~= Seq::empty());
            assert(old(self)@.emitted + views(events@) =~= old(self)@.emitted);
            assert(views(events@) + drained_events(arrived) =~= drained_events(arrived));
        }
        loop
            invariant
                self.wf(),
                self.endpoint() == old(self).endpoint(),
                self.running == old(self).running,
                start == old(self)@.registry,
                arrived == start.connection(id).received(bytes@),
                start.well_formed(),
                start.contains(id),
                place == start.index_of(id),
                self.registry@.contains(id),
                self.registry@.index_of(id) == place,
                self.registry@.connection(id).id == id,
                self.registry@ == start.with_connection(id, self.registry@.connection(id)),
                self.emitted@ == old(self)@.emitted + views(events@),
                views(events@) + drained_events(self.registry@.connection(id)) == drained_events(
                    arrived,
                ),
                drained(self.registry@.connection(id)) == drained(arrived),
            decreases self.registry@.connection(id).inbound.len(),
        {
            let ghost before = self@;
            let ghost current = self.registry@.connection(id);
            let ghost log = self.emitted@;
            let ghost seen = events@;
            proof {
                assert(before.registry.clients[place] == current);
            }
            match self.registry.next_message(id) {
                Some(ReadStep::Text(text)) => {
                    proof {
                        lemma_read_consumes(current);
                        Self::lemma_heard(before, id, current.after_read(), text@);
                        lemma_with_connection(before.registry, id, current.after_read());
                        assert(self.registry@.clients =~= start.clients.update(
                            place,
                            current.after_read(),
                        ));
                    }
                    self.emitted = Ghost(log.push(text_event(id, text@)));
                    events.push(Message::text(id, text));
                    proof {
                        assert(views(events@) =~= views(seen).push(text_event(id, text@)));
                        assert(self.emitted@ =~= old(self)@.emitted + views(events@));
                        assert(views(events@) + drained_events(current.after_read()) =~= views(seen)
                            + drained_events(current));
                    }
                },
                Some(ReadStep::Violation(_)) => {
                    proof {
                        Self::lemma_gone(before, id);
                        assert(self.registry@.clients =~= start.clients.remove(place));
                    }
                    self.emitted = Ghost(log.push(disconnected_event(id)));
                    events.push(Message::disconnected(id));
                    proof {
                        assert(views(events@) =~= views(seen).push(disconnected_event(id)));
                        assert(views(events@) =~= views(seen) + drained_events(current));
                        assert(self.emitted@ =~= old(self)@.emitted + views(events@));
                    }
                    return events;
                },
                _ => {
                    proof {
                        assert(self.registry@.clients =~= before.registry.clients);
                        assert(views(events@) =~= views(seen) + drained_events(current));
                    }
                    return events;
                },
            }
        }
    }

    /// Stops the server: every client that is still connected leaves the
    /// registry and is reported gone, oldest first, and from then on the
    /// server takes nobody in and returns no event. Stopping a stopped
    /// server changes nothing and returns nothing.
    pub fn stop(&mut self) -> (events: Vec<Message>)
        requires
            old(self).wf(),
        ensures
            final(self).wf(),
            final(self).endpoint() == old(self).endpoint(),
            views(events@) == farewells(old(self)@.registry.clients),
            final(self)@ == (ServerView {
                running: false,
                registry: RegistryView {
                    next_id: old(self)@.registry.next_id,
                    clients: Seq::empty(),
                },
                emitted: old(self)@.emitted + farewells(old(self)@.registry.clients),
            }),
            !old(self)@.running ==> events@.len() == 0 && final(self)@ == old(self)@,
    {
        let ids = self.registry.snapshot();
        let n: usize = ids.len();
        let ghost clients = old(self)@.registry.clients;
        let mut events: Vec<Message> = Vec::new();
        let mut i: usize = 0;
        proof {
            assert(clients.subrange(0, n as int) =~= clients);
            assert(old(self)@.emitted + views(events@) =~= old(self)@.emitted);
        }
        while i < n
            invariant
                i <= n,
                n == ids@.len(),
                n == clients.len(),
                clients == old(self)@.registry.clients,
                ids@ == old(self)@.registry.ids(),
                self.wf(),
                self.endpoint() == old(self).endpoint(),
                self.running == old(self).running,
                self.registry@.next_id == old(self)@.registry.next_id,
                self.registry@.clients == clients.subrange(i as int, n as int),
                self.emitted@ == old(self)@.emitted + views(events@),
                events@.len() == i,
                forall|k: int|
                    0 <= k < i ==> (#[trigger] events@[k])@ == disconnected_event(clients[k].id),
            decreases n - i,
        {
            let id = ids[i];
            let ghost before = self@;
            let ghost seen = events@;
            proof {
                assert(before.registry.clients[0] == clients[i as int]);
                lemma_index_of(before.registry, 0);
            }
            match self.disconnect(id) {
                Some(event) => {
                    events.push(event);
                },
                None => {},
            }
            proof {
                assert(self.registry@.clients =~= clients.subrange(i as int + 1, n as int));
                assert(views(events@) =~= views(seen).push(disconnected_event(id)));
                assert(self.emitted@ =~= old(self)@.emitted + views(events@));
            }
            i += 1;
        }
        self.running = false;
        proof {
            assert(self.registry@.clients =~= Seq::empty());
            assert(views(events@) =~= farewells(clients));
            if !old(self)@.running {
                assert(farewells(clients) =~= Seq::empty());
                assert(old(self)@.emitted + farewells(clients) =~= old(self)@.emitted);
                assert(old(self)@.registry.clients =~= Seq::empty());
            }
        }
        events
    }

    /// A server stays sound when a registered client's connection is
    /// replaced by another state of it that is still being read.
    proof fn lemma_same_client(server: ServerView, id: u32, connection: ConnectionView)
        requires
            server.well_formed(),
            server.registry.contains(id),
            connection.id == id,
            connection.well_formed(),
            connection.state == ConnectionState::Reading,
        ensures
            (ServerView {
                registry: server.registry.with_connection(id, connection),
                ..server
            }).well_formed(),
    {
        let after = server.registry.with_connection(id, connection);
        lemma_with_connection(server.registry, id, connection);
        let place = server.registry.index_of(id);
        assert forall|k: int| 0 <= k < after.clients.len() implies {
            &&& (#[trigger] after.clients[k]).state == ConnectionState::Reading
            &&& reported(server.emitted, after.clients[k].id, MessageType::Connected)
            &&& !reported(server.emitted, after.clients[k].id, MessageType::Disconnected)
        } by {
            if k != place {
                assert(after.clients[k] == server.registry.clients[k]);
            } else {
                assert(server.registry.clients[place].id == id);
            }
        }
    }

    /// A server stays sound when a registered client's connection gets one
    /// more `Message` event and moves on to `connection`.
    proof fn lemma_heard(server: ServerView, id: u32, connection: ConnectionView, text: Seq<char>)
        requires
            server.well_formed(),
            server.registry.contains(id),
            connection.id == id,
            connection.well_formed(),
            connection.state == ConnectionState::Reading,
        ensures
            (ServerView {
                running: server.running,
                registry: server.registry.with_connection(id, connection),
                emitted: server.emitted.push(text_event(id, text)),
            }).well_formed(),
    {
        let after = server.registry.with_connection(id, connection);
        let log = server.emitted;
        let longer = log.push(text_event(id, text));
        Self::lemma_same_client(server, id, connection);
        lemma_with_connection(server.registry, id, connection);
        lemma_reported_push(log, text_event(id, text));
        let place = server.registry.index_of(id);
        assert(server.registry.clients[place].id == id);
        lemma_ordered_push_later(log, text_event(id, text));
        assert forall|other: u32| #[trigger]
            reported(longer, other, MessageType::Connected) implies {
            &&& 1 <= other < after.next_id
            &&& after.contains(other) || reported(longer, other, MessageType::Disconnected)
        } by {
            assert(reported(log, other, MessageType::Connected));
        }
    }

    /// A server stays sound when a registered client leaves the registry
    /// and is reported gone.
    proof fn lemma_gone(server: ServerView, id: u32)
        requires
            server.well_formed(),
            server.registry.contains(id),
        ensures
            (ServerView {
                running: server.running,
                registry: server.registry.without(id),
                emitted: server.emitted.push(disconnected_event(id)),
            }).well_formed(),
    {
        let after = server.registry.without(id);
        let log = server.emitted;
        let longer = log.push(disconnected_event(id));
        lemma_unregister_idempotent(server.registry, id);
        lemma_reported_push(log, disconnected_event(id));
        let place = server.registry.index_of(id);
        assert(server.registry.clients[place].id == id);
        lemma_ordered_push_later(log, disconnected_event(id));
        assert forall|k: int| 0 <= k < after.clients.len() implies {
            &&& (#[trigger] after.clients[k]).state == ConnectionState::Reading
            &&& reported(longer, after.clients[k].id, MessageType::Connected)
            &&& !reported(longer, after.clients[k].id, MessageType::Disconnected)
        } by {
            let a = if k < place { k } else { k + 1 };
            assert(after.clients[k] == server.registry.clients[a]);
            lemma_index_of(after, k);
            lemma_without_contains(server.registry, id, after.clients[k].id);
        }
        assert forall|other: u32| #[trigger]
            reported(longer, other, MessageType::Connected) implies {
            &&& 1 <= other < after.next_id
            &&& after.contains(other) || reported(longer, other, MessageType::Disconnected)
        } by {
            assert(reported(log, other, MessageType::Connected));
            lemma_without_contains(server.registry, id, other);
        }
    }
}

} // verus!
