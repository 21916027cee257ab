use desktop_native::ipc::{records, IpcServer};
use desktop_native::message::{IpcMessageType, Message, MessageType};
use desktop_native::server::{BindFailure, Server};
use desktop_native::stream::EventStream;

fn started(channel: &str) -> Server {
    Server::start(format!("/tmp/app.{channel}"), Ok(())).unwrap()
}

fn summary(events: &[Message]) -> Vec<(u32, MessageType, Option<String>)> {
    events.iter().map(|e| (e.client_id, e.kind, e.message.clone())).collect()
}

fn frame(text: &str) -> Vec<u8> {
    let mut bytes = (text.len() as u32).to_le_bytes().to_vec();
    bytes.extend_from_slice(text.as_bytes());
    bytes
}

#[test]
fn start_keeps_the_endpoint_and_runs() {
    let server = started("test");
    assert_eq!(server.path(), "/tmp/app.test");
    assert!(server.is_running());
    assert!(server.snapshot().is_empty());
}

#[test]
fn start_fails_when_the_endpoint_is_taken() {
    let mut first = started("test");
    first.accept().unwrap();
    let second = Server::start(String::from("/tmp/app.test"), Err(BindFailure::AddressInUse));
    assert!(matches!(second, Err(BindFailure::AddressInUse)));
    assert_eq!(first.snapshot(), vec![1]);
    assert_eq!(first.send(String::from("still here")), 1);
}

#[test]
fn start_hands_back_each_bind_failure() {
    for failure in [BindFailure::AddressInUse, BindFailure::PermissionDenied, BindFailure::Io] {
        let result = Server::start(String::from("x"), Err(failure));
        assert_eq!(result.err(), Some(failure));
        let result = IpcServer::listen(String::from("x"), Err(failure));
        assert_eq!(result.err(), Some(failure));
    }
}

#[test]
fn send_without_clients_returns_zero() {
    let mut server = started("test");
    assert_eq!(server.send(String::from("anyone?")), 0);
    let mut ipc = IpcServer::listen(String::from("/tmp/app.test"), Ok(())).unwrap();
    assert_eq!(ipc.send(String::from("anyone?")), 0);
}

#[test]
fn ping_pong_scenario() {
    let mut server = started("test");

    let connected = server.accept().unwrap();
    let a = connected.client_id;
    assert_eq!(summary(&[connected]), vec![(a, MessageType::Connected, None)]);

    let events = server.receive(a, &frame("ping"));
    assert_eq!(summary(&events), vec![(a, MessageType::Message, Some(String::from("ping")))]);

    assert_eq!(server.send(String::from("pong")), 1);
    let written = server.next_outbound(a).unwrap();
    assert_eq!(written, frame("pong"));
    assert_eq!(server.next_outbound(a), None);

    let b = server.accept().unwrap().client_id;
    assert_ne!(a, b);

    let gone = server.disconnect(a).unwrap();
    assert_eq!(summary(&[gone]), vec![(a, MessageType::Disconnected, None)]);
    assert_eq!(server.snapshot(), vec![b]);

    let last = server.stop();
    assert_eq!(summary(&last), vec![(b, MessageType::Disconnected, None)]);
    assert!(!server.is_running());
    assert!(server.snapshot().is_empty());
}

#[test]
fn oversized_frame_disconnects_only_its_sender() {
    let mut server = started("test");
    let a = server.accept().unwrap().client_id;
    let b = server.accept().unwrap().client_id;
    // declared length 1 048 577
    let events = server.receive(a, &[0x01, 0x00, 0x10, 0x00, b'x', b'y']);
    assert_eq!(summary(&events), vec![(a, MessageType::Disconnected, None)]);
    assert_eq!(server.snapshot(), vec![b]);
    assert!(server.receive(a, &frame("late")).is_empty());
    assert!(server.disconnect(a).is_none());
    let events = server.receive(b, &frame("fine"));
    assert_eq!(summary(&events), vec![(b, MessageType::Message, Some(String::from("fine")))]);
}

#[test]
fn frames_before_a_violation_are_still_delivered() {
    let mut server = started("test");
    let a = server.accept().unwrap().client_id;
    let mut bytes = frame("one");
    bytes.extend_from_slice(&frame("two"));
    bytes.extend_from_slice(&[1, 0, 0, 0, 0xff]);
    bytes.extend_from_slice(&frame("never"));
    let events = server.receive(a, &bytes);
    assert_eq!(
        summary(&events),
        vec![
            (a, MessageType::Message, Some(String::from("one"))),
            (a, MessageType::Message, Some(String::from("two"))),
            (a, MessageType::Disconnected, None),
        ]
    );
    assert!(server.snapshot().is_empty());
}

#[test]
fn partial_frames_wait_for_their_rest() {
    let mut server = started("test");
    let a = server.accept().unwrap().client_id;
    let bytes = frame("split");
    assert!(server.receive(a, &bytes[..3]).is_empty());
    assert!(server.receive(a, &bytes[3..6]).is_empty());
    let events = server.receive(a, &bytes[6..]);
    assert_eq!(summary(&events), vec![(a, MessageType::Message, Some(String::from("split")))]);
}

#[test]
fn every_client_gets_one_connected_and_one_disconnected() {
    let mut server = started("test");
    let mut log: Vec<Message> = Vec::new();
    for _ in 0..5 {
        log.push(server.accept().unwrap());
    }
    log.extend(server.receive(2, &frame("a")));
    log.extend(server.receive(4, &frame("b")));
    log.extend(server.disconnect(2));
    log.extend(server.receive(2, &frame("ghost")));
    log.extend(server.receive(5, &[0xff, 0xff, 0xff, 0xff]));
    log.extend(server.receive(1, &frame("c")));
    log.extend(server.stop());
    log.extend(server.stop());
    log.extend(server.accept());
    log.extend(server.receive(1, &frame("after stop")));
    for id in 1..=5u32 {
        let own: Vec<MessageType> =
            log.iter().filter(|e| e.client_id == id).map(|e| e.kind).collect();
        assert_eq!(own.first(), Some(&MessageType::Connected));
        assert_eq!(own.last(), Some(&MessageType::Disconnected));
        assert_eq!(own.iter().filter(|k| **k == MessageType::Connected).count(), 1);
        assert_eq!(own.iter().filter(|k| **k == MessageType::Disconnected).count(), 1);
    }
    assert_eq!(log.len(), 5 + 3 + 5);
    assert!(log.iter().all(|e| (e.kind == MessageType::Message) == e.message.is_some()));
}

#[test]
fn stop_is_idempotent_and_silences_the_server() {
    let mut server = started("test");
    server.accept().unwrap();
    server.accept().unwrap();
    let last = server.stop();
    assert_eq!(
        summary(&last),
        vec![(1, MessageType::Disconnected, None), (2, MessageType::Disconnected, None)]
    );
    assert!(server.stop().is_empty());
    assert!(server.accept().is_none());
    assert!(server.receive(1, &frame("x")).is_empty());
    assert!(server.disconnect(1).is_none());
    assert_eq!(server.send(String::from("x")), 0);
    assert_eq!(server.next_outbound(1), None);
    assert!(!server.is_running());
}

#[test]
fn full_queue_lowers_the_count() {
    let mut server = started("test");
    let a = server.accept().unwrap().client_id;
    for _ in 0..32 {
        assert_eq!(server.send(String::from("x")), 1);
    }
    let b = server.accept().unwrap().client_id;
    assert_eq!(server.send(String::from("y")), 1);
    assert_eq!(server.next_outbound(b), Some(frame("y")));
    assert_eq!(server.next_outbound(a), Some(frame("x")));
    assert_eq!(server.send(String::from("z")), 2);
}

#[test]
fn message_above_cap_is_delivered_to_nobody() {
    let mut server = started("test");
    server.accept().unwrap();
    assert_eq!(server.send("a".repeat(1_048_577)), 0);
    assert_eq!(server.send("a".repeat(1_048_576)), 1);
}

#[test]
fn ipc_server_hands_over_records() {
    let mut ipc = IpcServer::listen(String::from("/tmp/app.test"), Ok(())).unwrap();
    let connected = records(ipc.server.accept().into_iter().collect());
    assert_eq!(connected.len(), 1);
    assert_eq!((connected[0].client_id, connected[0].kind), (1, IpcMessageType::Connected));
    ipc.server.accept().unwrap();
    let heard = records(ipc.server.receive(2, &frame("hi")));
    assert_eq!(heard.len(), 1);
    assert_eq!(heard[0].kind, IpcMessageType::Message);
    assert_eq!(heard[0].message.as_deref(), Some("hi"));
    assert_eq!(ipc.send(String::from("all")), 2);
    let last = ipc.stop();
    assert_eq!(last.len(), 2);
    assert_eq!((last[0].client_id, last[0].kind), (1, IpcMessageType::Disconnected));
    assert_eq!((last[1].client_id, last[1].kind), (2, IpcMessageType::Disconnected));
    assert!(last[0].message.is_none() && last[1].message.is_none());
    assert!(ipc.stop().is_empty());
    assert_eq!(ipc.send(String::from("all")), 0);
}

#[test]
fn records_keep_the_order_of_events() {
    let events = vec![
        Message::connected(1),
        Message::text(1, String::from("a")),
        Message::text(1, String::from("b")),
        Message::disconnected(1),
    ];
    let records = records(events);
    let kinds: Vec<IpcMessageType> = records.iter().map(|r| r.kind).collect();
    assert_eq!(
        kinds,
        vec![
            IpcMessageType::Connected,
            IpcMessageType::Message,
            IpcMessageType::Message,
            IpcMessageType::Disconnected
        ]
    );
    assert_eq!(records[1].message.as_deref(), Some("a"));
    assert_eq!(records[2].message.as_deref(), Some("b"));
}

#[test]
fn event_stream_is_bounded_and_ordered() {
    let mut stream = EventStream::new();
    assert_eq!(stream.len(), 0);
    assert!(!stream.is_full());
    assert!(stream.pop().is_none());
    for id in 1..=32u32 {
        assert!(stream.push(Message::connected(id)).is_none());
    }
    assert!(stream.is_full());
    let refused = stream.push(Message::text(33, String::from("wait"))).unwrap();
    assert_eq!(summary(&[refused]), vec![(33, MessageType::Message, Some(String::from("wait")))]);
    assert_eq!(stream.len(), 32);
    for id in 1..=32u32 {
        assert_eq!(stream.pop().unwrap().client_id, id);
    }
    assert!(stream.pop().is_none());
    let mut small = EventStream::with_capacity(1);
    assert!(small.push(Message::connected(1)).is_none());
    assert!(small.push(Message::disconnected(1)).is_some());
    assert_eq!(small.pop().unwrap().kind, MessageType::Connected);
    assert!(small.push(Message::disconnected(1)).is_none());
}
