//! The set of currently connected clients, keyed by the identity that the
//! registry gave each of them.

use crate::connection::{ClientConnection, ConnectionState, ConnectionView, ReadStep};
use vstd::prelude::*;

verus! {

/// A registry as plain mathematical values: the identity that the next client
/// gets, and the connected clients in the order in which they registered.
pub ghost struct RegistryView {
    pub next_id: u32,
    pub clients: Seq<ConnectionView>,
}

/// A connection as the registry creates it for identity `id`.
pub open spec fn fresh_connection(id: u32) -> ConnectionView {
    ConnectionView {
        id,
        state: ConnectionState::Accepted,
        inbound: Seq::empty(),
        outbound: Seq::empty(),
    }
}

/// How many of `clients` would accept a payload of `len` bytes.
pub open spec fn accepting(clients: Seq<ConnectionView>, len: nat) -> nat
    decreases clients.len(),
{
    if clients.len() == 0 {
        0
    } else {
        accepting(clients.drop_last(), len) + if clients.last().accepts(len) {
            1nat
        } else {
            0nat
        }
    }
}

impl RegistryView {
    /// Whether a client with identity `id` is registered.
    pub open spec fn contains(self, id: u32) -> bool {
        exists|i: int| 0 <= i < self.clients.len() && (#[trigger] self.clients[i]).id == id
    }

    /// The place of client `id` among the registered clients.
    pub open spec fn index_of(self, id: u32) -> int {
        choose|i: int| 0 <= i < self.clients.len() && (#[trigger] self.clients[i]).id == id
    }

    /// The connection of client `id`.
    pub open spec fn connection(self, id: u32) -> ConnectionView
        recommends
            self.contains(id),
    {
        self.clients[self.index_of(id)]
    }

    /// The identities of the registered clients, oldest first.
    pub open spec fn ids(self) -> Seq<u32> {
        Seq::new(self.clients.len(), |i: int| self.clients[i].id)
    }

    /// Identities start at 1, are handed out in increasing order and are
    /// never handed out twice; every registered connection is sound and open.
    pub open spec fn well_formed(self) -> bool {
        &&& self.next_id >= 1
        &&& forall|i: int|
            0 <= i < self.clients.len() ==> {
                &&& (#[trigger] self.clients[i]).well_formed()
                &&& self.clients[i].state != ConnectionState::Closed
                &&& 1 <= self.clients[i].id < self.next_id
            }
        &&& forall|i: int, j: int|
            0 <= i < j < self.clients.len() ==> (#[trigger] self.clients[i]).id < (
            #[trigger] self.clients[j]).id
    }

    /// The registry after one more client registered.
    pub open spec fn registered(self) -> RegistryView {
        RegistryView {
            next_id: (self.next_id + 1) as u32,
            clients: self.clients.push(fresh_connection(self.next_id)),
        }
    }

    /// The registry without client `id`; the same registry if `id` is not in it.
    pub open spec fn without(self, id: u32) -> RegistryView {
        if self.contains(id) {
            RegistryView { next_id: self.next_id, clients: self.clients.remove(self.index_of(id)) }
        } else {
            self
        }
    }

    /// The registry with the connection of client `id` replaced by `connection`.
    pub open spec fn with_connection(self, id: u32, connection: ConnectionView) -> RegistryView
        recommends
            self.contains(id),
    {
        RegistryView {
            next_id: self.next_id,
            clients: self.clients.update(self.index_of(id), connection),
        }
    }

    /// The registry after `payload` was offered to every client, each on its own.
    pub open spec fn offered(self, payload: Seq<u8>) -> RegistryView {
        RegistryView {
            next_id: self.next_id,
            clients: Seq::new(self.clients.len(), |i: int| self.clients[i].offered(payload)),
        }
    }
}

/// In a sound registry an identity names one place only.
pub proof fn lemma_index_of(registry: RegistryView, i: int)
    requires
        registry.well_formed(),
        0 <= i < registry.clients.len(),
    ensures
        registry.contains(registry.clients[i].id),
        registry.index_of(registry.clients[i].id) == i,
{
    let id = registry.clients[i].id;
    let k = registry.index_of(id);
    assert(0 <= k < registry.clients.len() && registry.clients[k].id == id);
    if k < i {
        assert(registry.clients[k].id < registry.clients[i].id);
    } else if i < k {
        assert(registry.clients[i].id < registry.clients[k].id);
    }
}

/// Unregistering is idempotent: a second removal of the same identity changes nothing.
pub proof fn lemma_unregister_idempotent(registry: RegistryView, id: u32)
    requires
        registry.well_formed(),
    ensures
        !registry.without(id).contains(id),
        registry.without(id).well_formed(),
        registry.without(id).without(id) == registry.without(id),
{
    if registry.contains(id) {
        let k = registry.index_of(id);
        let after = registry.without(id);
        assert forall|i: int| 0 <= i < after.clients.len() implies (#[trigger] after.clients[i]).id
            != id && after.clients[i].well_formed() && after.clients[i].state
            != ConnectionState::Closed && 1 <= after.clients[i].id < after.next_id by {
            if i < k {
                assert(after.clients[i] == registry.clients[i]);
                assert(registry.clients[i].id < registry.clients[k].id);
            } else {
                assert(after.clients[i] == registry.clients[i + 1]);
                assert(registry.clients[k].id < registry.clients[i + 1].id);
            }
        }
        assert forall|i: int, j: int| 0 <= i < j < after.clients.len() implies (
        #[trigger] after.clients[i]).id < (#[trigger] after.clients[j]).id by {
            let a = if i < k { i } else { i + 1 };
            let b = if j < k { j } else { j + 1 };
            assert(after.clients[i] == registry.clients[a]);
            assert(after.clients[j] == registry.clients[b]);
            assert(registry.clients[a].id < registry.clients[b].id);
        }
    }
}

/// Removing one identity leaves every other registered identity in place.
pub proof fn lemma_without_contains(registry: RegistryView, id: u32, other: u32)
    requires
        registry.well_formed(),
    ensures
        registry.without(id).contains(other) <==> registry.contains(other) && other != id,
{
    lemma_unregister_idempotent(registry, id);
    if registry.contains(id) {
        let k = registry.index_of(id);
        let after = registry.without(id);
        if after.contains(other) {
            let i = after.index_of(other);
            let a = if i < k { i } else { i + 1 };
            assert(after.clients[i] == registry.clients[a]);
        }
        if registry.contains(other) && other != id {
            let a = registry.index_of(other);
            let i = if a < k { a } else { a - 1 };
            assert(after.clients[i] == registry.clients[a]);
        }
    }
}

/// Registering adds the new identity to the registered ones and nothing else.
pub proof fn lemma_registered_contains(registry: RegistryView, other: u32)
    requires
        registry.well_formed(),
        registry.next_id < u32::MAX,
    ensures
        registry.registered().well_formed(),
        registry.registered().contains(other) <==> registry.contains(other) || other
            == registry.next_id,
        !registry.contains(registry.next_id),
{
    let after = registry.registered();
    let n = registry.clients.len() as int;
    assert(after.clients[n] == fresh_connection(registry.next_id));
    assert forall|i: int| 0 <= i < n implies after.clients[i] == registry.clients[i] by {}
    if after.contains(other) && other != registry.next_id {
        let i = after.index_of(other);
        assert(after.clients[i] == registry.clients[i]);
    }
    if registry.contains(other) {
        let i = registry.index_of(other);
        assert(after.clients[i] == registry.clients[i]);
    }
}

/// Replacing the connection of a registered client by another state of the
/// same connection keeps every identity at its place.
pub proof fn lemma_with_connection(registry: RegistryView, id: u32, connection: ConnectionView)
    requires
        registry.well_formed(),
        registry.contains(id),
        connection.id == id,
        connection.well_formed(),
        connection.state != ConnectionState::Closed,
    ensures
        registry.with_connection(id, connection).well_formed(),
        registry.with_connection(id, connection).ids() == registry.ids(),
        registry.with_connection(id, connection).contains(id),
        registry.with_connection(id, connection).index_of(id) == registry.index_of(id),
        registry.with_connection(id, connection).connection(id) == connection,
        forall|other: u32|
            registry.contains(other) <==> #[trigger] registry.with_connection(
                id,
                connection,
            ).contains(other),
{
    let k = registry.index_of(id);
    let after = registry.with_connection(id, connection);
    assert(after.clients[k] == connection);
    assert forall|i: int| 0 <= i < after.clients.len() implies (#[trigger] after.clients[i]).id
        == registry.clients[i].id by {}
    assert(after.ids() =~= registry.ids());
    lemma_index_of(after, k);
    assert forall|other: u32| registry.contains(other) <==> #[trigger] after.contains(other) by {
        if registry.contains(other) {
            let i = registry.index_of(other);
            assert(after.clients[i].id == other);
        }
        if after.contains(other) {
            let i = after.index_of(other);
            assert(registry.clients[i].id == other);
        }
    }
}

/// Offering a payload to every client keeps every identity at its place.
pub proof fn lemma_offered(registry: RegistryView, payload: Seq<u8>)
    requires
        registry.well_formed(),
    ensures
        registry.offered(payload).ids() == registry.ids(),
        forall|other: u32|
            registry.contains(other) <==> #[trigger] registry.offered(payload).contains(other),
{
    let after = registry.offered(payload);
    assert(after.ids() =~= registry.ids());
    assert forall|other: u32| registry.contains(other) <==> #[trigger] after.contains(other) by {
        if registry.contains(other) {
            let i = registry.index_of(other);
            assert(after.clients[i].id == other);
        }
        if after.contains(other) {
            let i = after.index_of(other);
            assert(registry.clients[i].id == other);
        }
    }
}

/// With no client registered, nobody accepts anything.
pub proof fn lemma_nobody_accepts(len: nat)
    ensures
        accepting(Seq::<ConnectionView>::empty(), len) == 0,
{
}

/// No more clients accept a payload than are registered.
pub proof fn lemma_accepting_bounded(clients: Seq<ConnectionView>, len: nat)
    ensures
        accepting(clients, len) <= clients.len(),
    decreases clients.len(),
{
    if clients.len() > 0 {
        lemma_accepting_bounded(clients.drop_last(), len);
    }
}

/// The registry of one server: the connected clients and the identity that
/// the next one gets.
pub struct Registry {
    next_id: u32,
    clients: Vec<ClientConnection>,
}

impl View for Registry {
    type V = RegistryView;

    closed spec fn view(&self) -> RegistryView {
        RegistryView {
            next_id: self.next_id,
            clients: Seq::new(self.clients@.len(), |i: int| self.clients@[i]@),
        }
    }
}

impl Registry {
    /// The registry's invariant, see `RegistryView::well_formed`.
    pub open spec fn wf(&self) -> bool {
        self@.well_formed()
    }

    /// An empty registry. The first client gets identity 1.
    pub fn new() -> (registry: Registry)
        ensures
            registry.wf(),
            registry@ == (RegistryView { next_id: 1, clients: Seq::empty() }),
    {
        let registry = Registry { next_id: 1, clients: Vec::new() };
        assert(registry@.clients =~= Seq::empty());
        registry
    }

    /// The number of registered clients.
    pub fn len(&self) -> (count: usize)
        ensures
            count == self@.clients.len(),
    {
        self.clients.len()
    }

    /// The place of client `id`, if it is registered.
    fn find(&self, id: u32) -> (place: Option<usize>)
        requires
            self.wf(),
        ensures
            place is Some <==> self@.contains(id),
            place is Some ==> place->Some_0 == self@.index_of(id) && place->Some_0
                < self.clients@.len(),
    {
        let n: usize = self.clients.len();
        let mut i: usize = 0;
        while i < n
            invariant
                i <= n,
                n == self.clients@.len(),
                self.wf(),
                forall|k: int| 0 <= k < i ==> (#[trigger] self@.clients[k]).id != id,
            decreases n - i,
        {
            if self.clients[i].id() == id {
                proof {
                    assert(self@.clients[i as int].id == id);
                    lemma_index_of(self@, i as int);
                }
                return Some(i);
            }
            i += 1;
        }
        None
    }

    /// Whether client `id` is registered.
    pub fn contains(&self, id: u32) -> (found: bool)
        requires
            self.wf(),
        ensures
            found == self@.contains(id),
    {
        self.find(id).is_some()
    }

    /// Reserves the next identity and creates the slot that tracks its
    /// connection. Fails only when the identities are used up.
    pub fn register(&mut self) -> (id: Option<u32>)
        requires
            old(self).wf(),
        ensures
            final(self).wf(),
            id is Some <==> old(self)@.next_id < u32::MAX,
            id is Some ==> id->Some_0 == old(self)@.next_id && !old(self)@.contains(id->Some_0)
                && final(self)@ == old(self)@.registered(),
            id is None ==> final(self)@ == old(self)@,
    {
        if self.next_id == u32::MAX {
            return None;
        }
        let id = self.next_id;
        self.clients.push(ClientConnection::new(id));
        self.next_id = id + 1;
        proof {
            assert(final(self)@.clients =~= old(self)@.clients.push(fresh_connection(id)));
            assert(!old(self)@.contains(id));
        }
        Some(id)
    }

    /// Removes the slot of client `id`. Removing an identity that is not
    /// registered changes nothing.
    pub fn unregister(&mut self, id: u32) -> (removed: bool)
        requires
            old(self).wf(),
        ensures
            final(self).wf(),
            removed == old(self)@.contains(id),
            final(self)@ == old(self)@.without(id),
            !final(self)@.contains(id),
    {
        proof {
            lemma_unregister_idempotent(old(self)@, id);
        }
        match self.find(id) {
            Some(place) => {
                let _ = self.clients.remove(place);
                proof {
                    assert(final(self)@.clients =~= old(self)@.clients.remove(place as int));
                }
                true
            },
            None => false,
        }
    }

    /// Marks client `id` as announced, so that reading from it may begin.
    pub fn start_reading(&mut self, id: u32) -> (found: bool)
        requires
            old(self).wf(),
        ensures
            final(self).wf(),
            found == old(self)@.contains(id),
            found ==> final(self)@ == old(self)@.with_connection(
                id,
                old(self)@.connection(id).reading(),
            ),
            !found ==> final(self)@ == old(self)@,
    {
        match self.find(id) {
            Some(place) => {
                self.clients[place].start_reading();
                proof {
                    assert(final(self)@.clients =~= old(self)@.clients.update(
                        place as int,
                        old(self)@.clients[place as int].reading(),
                    ));
                }
                true
            },
            None => false,
        }
    }

    /// Buffers bytes that arrived from client `id`.
    pub fn receive(&mut self, id: u32, bytes: &[u8]) -> (found: bool)
        requires
            old(self).wf(),
        ensures
            final(self).wf(),
            found == old(self)@.contains(id),
            found ==> final(self)@ == old(self)@.with_connection(
                id,
                old(self)@.connection(id).received(bytes@),
            ),
            !found ==> final(self)@ == old(self)@,
    {
        match self.find(id) {
            Some(place) => {
                self.clients[place].receive(bytes);
                proof {
                    assert(final(self)@.clients =~= old(self)@.clients.update(
                        place as int,
                        old(self)@.clients[place as int].received(bytes@),
                    ));
                }
                true
            },
            None => false,
        }
    }

    /// Takes the next frame that waits to be written to client `id`.
    pub fn dequeue(&mut self, id: u32) -> (frame: Option<Vec<u8>>)
        requires
            old(self).wf(),
        ensures
            final(self).wf(),
            frame is Some <==> old(self)@.contains(id) && old(self)@.connection(id).outbound.len()
                > 0,
            frame is Some ==> frame->Some_0@ == old(self)@.connection(id).outbound[0]
                && final(self)@ == old(self)@.with_connection(
                id,
                old(self)@.connection(id).after_dequeue(),
            ),
            frame is None ==> final(self)@ == old(self)@,
    {
        match self.find(id) {
            Some(place) => {
                let frame = self.clients[place].dequeue();
                proof {
                    assert(final(self)@.clients =~= old(self)@.clients.update(
                        place as int,
                        old(self)@.clients[place as int].after_dequeue(),
                    ));
                    if frame is None {
                        assert(final(self)@.clients =~= old(self)@.clients);
                    }
                }
                frame
            },
            None => None,
        }
    }

    /// Reads the next frame of text from client `id`. A client that breaks
    /// the protocol is closed and leaves the registry; no other client is
    /// touched.
    pub fn next_message(&mut self, id: u32) -> (step: Option<ReadStep>)
        requires
            old(self).wf(),
        ensures
            final(self).wf(),
            step is Some <==> old(self)@.contains(id),
            step is Some ==> step->Some_0.reports(old(self)@.connection(id).next_outcome()),
            step is Some && !(step->Some_0 is Violation) ==> final(self)@ == old(
                self,
            )@.with_connection(id, old(self)@.connection(id).after_read()),
            step is Some && step->Some_0 is Violation ==> final(self)@ == old(self)@.without(id),
            step is None ==> final(self)@ == old(self)@,
    {
        proof {
            lemma_unregister_idempotent(old(self)@, id);
        }
        match self.find(id) {
            Some(place) => {
                let step = self.clients[place].next_message();
                match step {
                    ReadStep::Violation(error) => {
                        let _ = self.clients.remove(place);
                        proof {
                            assert(final(self)@.clients =~= old(self)@.clients.remove(place as int));
                        }
                        Some(ReadStep::Violation(error))
                    },
                    other => {
                        proof {
                            assert(final(self)@.clients =~= old(self)@.clients.update(
                                place as int,
                                old(self)@.clients[place as int].after_read(),
                            ));
                        }
                        Some(other)
                    },
                }
            },
            None => None,
        }
    }

    /// The identities of the registered clients, oldest first.
    pub fn snapshot(&self) -> (ids: Vec<u32>)
        ensures
            ids@ == self@.ids(),
    {
        let n: usize = self.clients.len();
        let mut ids: Vec<u32> = Vec::new();
        let mut i: usize = 0;
        while i < n
            invariant
                i <= n,
                n == self.clients@.len(),
                ids@.len() == i,
                forall|k: int| 0 <= k < i ==> ids@[k] == self@.clients[k].id,
            decreases n - i,
        {
            ids.push(self.clients[i].id());
            i += 1;
        }
        assert(ids@ =~= self@.ids());
        ids
    }

    /// Offers `payload` to every registered client and returns how many of
    /// them took it into their queue. What one client does with it has no
    /// bearing on any other.
    pub fn broadcast(&mut self, payload: &[u8]) -> (delivered: usize)
        requires
            old(self).wf(),
        ensures
            final(self).wf(),
            final(self)@ == old(self)@.offered(payload@),
            delivered == accepting(old(self)@.clients, payload@.len()),
    {
        let n: usize = self.clients.len();
        let mut delivered: usize = 0;
        let mut i: usize = 0;
        while i < n
            invariant
                i <= n,
                n == self.clients@.len(),
                n == old(self)@.clients.len(),
                self.wf(),
                self.next_id == old(self).next_id,
                delivered == accepting(old(self)@.clients.subrange(0, i as int), payload@.len()),
                delivered <= i,
                forall|k: int|
                    0 <= k < i ==> (#[trigger] self@.clients[k]) == old(self)@.clients[k].offered(
                        payload@,
                    ),
                forall|k: int| i <= k < n ==> (#[trigger] self@.clients[k]) == old(self)@.clients[k],
            decreases n - i,
        {
            let ghost before = self@;
            let result = self.clients[i].enqueue(payload);
            proof {
                let prefix = old(self)@.clients.subrange(0, i as int + 1);
                assert(prefix.drop_last() =~= old(self)@.clients.subrange(0, i as int));
                assert(prefix.last() == old(self)@.clients[i as int]);
                assert(self@.clients =~= before.clients.update(
                    i as int,
                    before.clients[i as int].offered(payload@),
                ));
            }
            if result.is_ok() {
                delivered += 1;
            }
            i += 1;
        }
        proof {
            assert(old(self)@.clients.subrange(0, n as int) =~= old(self)@.clients);
            assert(final(self)@.clients =~= old(self)@.offered(payload@).clients);
        }
        delivered
    }
}

} // verus!
