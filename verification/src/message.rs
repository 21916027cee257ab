//! Events: what the server reports about its clients, and the record in which
//! an event crosses the boundary to the embedding application.

use vstd::prelude::*;
use vstd::std_specs::convert::FromSpecImpl;

verus! {

/// The kind of an event inside the server.
#[derive(Clone, Copy, Debug, PartialEq, Eq, Structural)]
pub enum MessageType {
    Connected,
    Disconnected,
    Message,
}

/// One event of the server: which client, what happened, and the text that
/// came with it.
#[derive(Clone, Debug)]
pub struct Message {
    pub client_id: u32,
    pub kind: MessageType,
    pub message: Option<String>,
}

/// A `Message` as plain mathematical values.
pub ghost struct MessageView {
    pub client_id: u32,
    pub kind: MessageType,
    pub message: Option<Seq<char>>,
}

impl MessageView {
    /// `Connected` and `Disconnected` carry no text; `Message` always carries one.
    pub open spec fn well_formed(self) -> bool {
        (self.kind == MessageType::Message) <==> (self.message is Some)
    }
}

impl View for Message {
    type V = MessageView;

    open spec fn view(&self) -> MessageView {
        MessageView {
            client_id: self.client_id,
            kind: self.kind,
            message: match self.message {
                Some(text) => Some(text@),
                None => None,
            },
        }
    }
}

impl Message {
    /// `Connected` and `Disconnected` carry no text; `Message` always carries one.
    pub open spec fn well_formed(&self) -> bool {
        self@.well_formed()
    }

    /// The event that reports a newly accepted client.
    pub fn connected(client_id: u32) -> (event: Message)
        ensures
            event@ == (MessageView { client_id, kind: MessageType::Connected, message: None }),
            event.well_formed(),
    {
        Message { client_id, kind: MessageType::Connected, message: None }
    }

    /// The event that reports the end of a client's connection.
    pub fn disconnected(client_id: u32) -> (event: Message)
        ensures
            event@ == (MessageView { client_id, kind: MessageType::Disconnected, message: None }),
            event.well_formed(),
    {
        Message { client_id, kind: MessageType::Disconnected, message: None }
    }

    /// The event that reports one decoded frame from a client.
    pub fn text(client_id: u32, text: String) -> (event: Message)
        ensures
            event@ == (MessageView {
                client_id,
                kind: MessageType::Message,
                message: Some(text@),
            }),
            event.well_formed(),
    {
        Message { client_id, kind: MessageType::Message, message: Some(text) }
    }
}

/// The kind of an event as the embedding application sees it.
#[derive(Clone, Copy, Debug, PartialEq, Eq, Structural)]
pub enum IpcMessageType {
    Connected,
    Disconnected,
    Message,
}

/// The boundary's kind for each kind of event.
pub open spec fn kind_of(message_type: MessageType) -> IpcMessageType {
    match message_type {
        MessageType::Connected => IpcMessageType::Connected,
        MessageType::Disconnected => IpcMessageType::Disconnected,
        MessageType::Message => IpcMessageType::Message,
    }
}

impl From<MessageType> for IpcMessageType {
    fn from(message_type: MessageType) -> (kind: IpcMessageType) {
        match message_type {
            MessageType::Connected => IpcMessageType::Connected,
            MessageType::Disconnected => IpcMessageType::Disconnected,
            MessageType::Message => IpcMessageType::Message,
        }
    }
}

impl FromSpecImpl<MessageType> for IpcMessageType {
    open spec fn obeys_from_spec() -> bool {
        true
    }

    open spec fn from_spec(message_type: MessageType) -> IpcMessageType {
        kind_of(message_type)
    }
}

/// The record handed to the embedding application for each event.
#[derive(Clone, Debug)]
pub struct IpcMessage {
    pub client_id: u32,
    pub kind: IpcMessageType,
    pub message: Option<String>,
}

impl IpcMessage {
    /// `Connected` and `Disconnected` carry no text; `Message` always carries one.
    pub open spec fn well_formed(&self) -> bool {
        (self.kind == IpcMessageType::Message) <==> (self.message is Some)
    }
}

/// The record that carries `message` across the boundary.
pub open spec fn record_of(message: Message) -> IpcMessage {
    IpcMessage {
        client_id: message.client_id,
        kind: kind_of(message.kind),
        message: message.message,
    }
}

impl From<Message> for IpcMessage {
    fn from(message: Message) -> (record: IpcMessage) {
        IpcMessage {
            client_id: message.client_id,
            kind: IpcMessageType::from(message.kind),
            message: message.message,
        }
    }
}

impl FromSpecImpl<Message> for IpcMessage {
    open spec fn obeys_from_spec() -> bool {
        true
    }

    open spec fn from_spec(message: Message) -> IpcMessage {
        record_of(message)
    }
}

/// Crossing the boundary keeps the client, the kind and the text, and with
/// them the rule on which kinds carry text.
pub proof fn lemma_record_keeps_event(message: Message)
    ensures
        record_of(message).client_id == message.client_id,
        record_of(message).message == message.message,
        (record_of(message).kind == IpcMessageType::Connected) <==> (message.kind
            == MessageType::Connected),
        (record_of(message).kind == IpcMessageType::Disconnected) <==> (message.kind
            == MessageType::Disconnected),
        (record_of(message).kind == IpcMessageType::Message) <==> (message.kind
            == MessageType::Message),
        message.well_formed() <==> record_of(message).well_formed(),
{
}

} // verus!
