//! The server as the embedding application holds it: started on a bound
//! endpoint, stopped, and used to send text to all connected clients.

use crate::message::{record_of, IpcMessage, Message};
use crate::registry::{accepting, RegistryView};
use crate::server::{farewells, views, BindFailure, Server, ServerView};
use vstd::prelude::*;
use vstd::utf8::encode_utf8;

verus! {

/// A count of clients as the application's boundary carries it: the count
/// itself where it fits in 32 bits, and 0 where it does not.
pub open spec fn boundary_count(count: nat) -> u32 {
    if count <= u32::MAX {
        count as u32
    } else {
        0
    }
}

/// Hands each event over as the record in which it crosses the boundary,
/// in the same order.
pub fn records(events: Vec<Message>) -> (records: Vec<IpcMessage>)
    ensures
        records@.len() == events@.len(),
        forall|i: int| 0 <= i < events@.len() ==> records@[i] == record_of(#[trigger] events@[i]),
{
    let mut events = events;
    let ghost all = events@;
    let mut reversed: Vec<IpcMessage> = Vec::new();
    while events.len() > 0
        invariant
            events@.len() + reversed@.len() == all.len(),
            events@ == all.subrange(0, events@.len() as int),
            forall|k: int|
                0 <= k < reversed@.len() ==> (#[trigger] reversed@[k]) == record_of(
                    all[all.len() - 1 - k],
                ),
        decreases events@.len(),
    {
        match events.pop() {
            Some(event) => {
                reversed.push(IpcMessage::from(event));
            },
            None => {},
        }
    }
    let mut records: Vec<IpcMessage> = Vec::new();
    while reversed.len() > 0
        invariant
            reversed@.len() + records@.len() == all.len(),
            forall|k: int|
                0 <= k < reversed@.len() ==> (#[trigger] reversed@[k]) == record_of(
                    all[all.len() - 1 - k],
                ),
            forall|k: int| 0 <= k < records@.len() ==> (#[trigger] records@[k]) == record_of(all[k]),
        decreases reversed@.len(),
    {
        match reversed.pop() {
            Some(record) => {
                records.push(record);
            },
            None => {},
        }
    }
    records
}

/// The server as the embedding application holds it.
pub struct IpcServer {
    pub server: Server,
}

impl IpcServer {
    /// Starts the server on the endpoint `path`, given how binding it went.
    /// There is a server exactly when the endpoint was bound.
    pub fn listen(path: String, bound: Result<(), BindFailure>) -> (result: Result<
        IpcServer,
        BindFailure,
    >)
        ensures
            match bound {
                Ok(_) => result is Ok && result->Ok_0.server.wf() && result->Ok_0.server.endpoint()
                    == path@ && result->Ok_0.server@ == (ServerView {
                    running: true,
                    registry: RegistryView { next_id: 1, clients: Seq::empty() },
                    emitted: Seq::empty(),
                }),
                Err(failure) => result is Err && result->Err_0 == failure,
            },
    {
        match Server::start(path, bound) {
            Ok(server) => Ok(IpcServer { server }),
            Err(failure) => Err(failure),
        }
    }

    /// Stops the server and hands over the last events: one `Disconnected`
    /// for each client that was still connected, oldest first. Stopping
    /// again changes nothing and hands over nothing.
    pub fn stop(&mut self) -> (records: Vec<IpcMessage>)
        requires
            old(self).server.wf(),
        ensures
            final(self).server.wf(),
            final(self).server.endpoint() == old(self).server.endpoint(),
            records@.len() == old(self).server@.registry.clients.len(),
            forall|i: int|
                0 <= i < records@.len() ==> {
                    &&& (#[trigger] records@[i]).client_id == old(
                        self,
                    ).server@.registry.clients[i].id
                    &&& records@[i].kind == crate::message::IpcMessageType::Disconnected
                    &&& records@[i].message is None
                },
            final(self).server@ == (ServerView {
                running: false,
                registry: RegistryView {
                    next_id: old(self).server@.registry.next_id,
                    clients: Seq::empty(),
                },
                emitted: old(self).server@.emitted + farewells(old(self).server@.registry.clients),
            }),
            !old(self).server@.running ==> final(self).server@ == old(self).server@,
    {
        let events = self.server.stop();
        let ghost stopped = events@;
        let records = records(events);
        proof {
            assert forall|i: int| 0 <= i < records@.len() implies {
                &&& (#[trigger] records@[i]).client_id == old(self).server@.registry.clients[i].id
                &&& records@[i].kind == crate::message::IpcMessageType::Disconnected
                &&& records@[i].message is None
            } by {
                assert(records@[i] == record_of(stopped[i]));
                assert(views(stopped)[i] == stopped[i]@);
            }
        }
        records
    }

    /// Sends `message` to all connected clients and returns to how many of
    /// them it was handed, as the boundary carries such a count.
    pub fn send(&mut self, message: String) -> (delivered: u32)
        requires
            old(self).server.wf(),
        ensures
            final(self).server.wf(),
            final(self).server.endpoint() == old(self).server.endpoint(),
            delivered == boundary_count(
                accepting(old(self).server@.registry.clients, encode_utf8(message@).len()),
            ),
            old(self).server@.registry.clients.len() == 0 ==> delivered == 0,
            final(self).server@ == (ServerView {
                registry: old(self).server@.registry.offered(encode_utf8(message@)),
                ..old(self).server@
            }),
    {
        let count = self.server.send(message);
        if count <= u32::MAX as usize {
            count as u32
        } else {
            0
        }
    }
}

} // verus!
