use desktop_native::message::{IpcMessage, IpcMessageType, Message, MessageType};

#[test]
fn kinds_cross_the_boundary_unchanged() {
    assert_eq!(IpcMessageType::from(MessageType::Connected), IpcMessageType::Connected);
    assert_eq!(IpcMessageType::from(MessageType::Disconnected), IpcMessageType::Disconnected);
    assert_eq!(IpcMessageType::from(MessageType::Message), IpcMessageType::Message);
}

#[test]
fn lifecycle_events_carry_no_text() {
    let connected = Message::connected(4);
    assert_eq!((connected.client_id, connected.kind), (4, MessageType::Connected));
    assert!(connected.message.is_none());
    let gone = Message::disconnected(5);
    assert_eq!((gone.client_id, gone.kind), (5, MessageType::Disconnected));
    assert!(gone.message.is_none());
}

#[test]
fn message_events_carry_their_text() {
    let event = Message::text(6, String::from("ping"));
    assert_eq!((event.client_id, event.kind), (6, MessageType::Message));
    assert_eq!(event.message.as_deref(), Some("ping"));
}

#[test]
fn records_keep_client_kind_and_text() {
    let record = IpcMessage::from(Message::text(7, String::from("hello")));
    assert_eq!(record.client_id, 7);
    assert_eq!(record.kind, IpcMessageType::Message);
    assert_eq!(record.message.as_deref(), Some("hello"));
    let record: IpcMessage = Message::disconnected(8).into();
    assert_eq!(record.client_id, 8);
    assert_eq!(record.kind, IpcMessageType::Disconnected);
    assert_eq!(record.message, None);
}
