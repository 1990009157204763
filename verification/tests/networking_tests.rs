use shortgap::addr::PeerAddr;
use shortgap::fanout::FanOut;
use shortgap::framing::{decode_frame, decode_header, encode_frame, FrameStatus};
use shortgap::networking::{
    protocol_notice, protocol_notice_at, ConnectAction, MessageType, NetworkManager, Protocol,
    ServerAction, TransportError,
};
use shortgap::reader::{
    reader_start, reader_step, CloseReason, ReaderAction, ReaderEvent, ReaderState,
};

fn addr(port: u16) -> PeerAddr {
    PeerAddr::v4(10, 0, 0, 1, port)
}

#[test]
fn frame_is_big_endian_length_then_body() {
    assert_eq!(encode_frame("hi").unwrap(), vec![0, 0, 0, 2, b'h', b'i']);
    assert_eq!(encode_frame("").unwrap(), vec![0, 0, 0, 0]);
    let long = "x".repeat(0x0102_03);
    let frame = encode_frame(&long).unwrap();
    assert_eq!(&frame[..4], &[0, 1, 2, 3]);
    assert_eq!(frame.len(), 4 + 0x0102_03);
    // Length counts bytes, not characters.
    assert_eq!(&encode_frame("é").unwrap()[..4], &[0, 0, 0, 2]);
}

#[test]
fn header_is_read_most_significant_byte_first() {
    assert_eq!(decode_header(&vec![0, 0, 1, 2]), 258);
    assert_eq!(decode_header(&vec![255, 255, 255, 255, 9]), u32::MAX);
    assert_eq!(decode_header(&vec![1, 0, 0, 0]), 0x100_0000);
}

#[test]
fn frame_round_trip_with_trailing_bytes() {
    let mut stream = encode_frame("{\"a\":1}").unwrap();
    stream.extend_from_slice(&[0, 0]);
    match decode_frame(&stream) {
        FrameStatus::Complete { text, consumed } => {
            assert_eq!(text, "{\"a\":1}");
            assert_eq!(consumed, 11);
        }
        other => panic!("unexpected status {:?}", other),
    }
}

#[test]
fn incomplete_frames_say_how_much_is_missing() {
    assert!(matches!(decode_frame(&vec![]), FrameStatus::Incomplete { missing: 4 }));
    assert!(matches!(decode_frame(&vec![0, 0]), FrameStatus::Incomplete { missing: 2 }));
    assert!(matches!(decode_frame(&vec![0, 0, 0, 5, b'a']), FrameStatus::Incomplete { missing: 4 }));
    assert!(matches!(
        decode_frame(&vec![0, 0, 0, 0]),
        FrameStatus::Complete { consumed: 4, .. }
    ));
}

#[test]
fn frame_with_invalid_utf8_is_malformed() {
    assert!(matches!(
        decode_frame(&vec![0, 0, 0, 2, 0xff, 0xfe, 1]),
        FrameStatus::Malformed { consumed: 6 }
    ));
    // A valid two-byte character is text.
    assert!(matches!(
        decode_frame(&vec![0, 0, 0, 2, 0xc3, 0xa9]),
        FrameStatus::Complete { consumed: 6, .. }
    ));
}

#[test]
fn reader_walks_header_body_delivery() {
    let (state, action) = reader_start();
    assert_eq!(state, ReaderState::AwaitHeader);
    assert!(matches!(action, ReaderAction::Read { count: 4 }));
    let (state, action) = reader_step(state, ReaderEvent::Bytes(vec![0, 0, 0, 3]));
    assert_eq!(state, ReaderState::AwaitBody { length: 3 });
    assert!(matches!(action, ReaderAction::Read { count: 3 }));
    let (state, action) = reader_step(state, ReaderEvent::Bytes(b"abc".to_vec()));
    assert_eq!(state, ReaderState::AwaitDelivery);
    match action {
        ReaderAction::Deliver { text } => assert_eq!(text, "abc"),
        other => panic!("unexpected action {:?}", other),
    }
    let (state, action) = reader_step(state, ReaderEvent::Delivered);
    assert_eq!(state, ReaderState::AwaitHeader);
    assert!(matches!(action, ReaderAction::Read { count: 4 }));
}

#[test]
fn reader_stops_on_every_failure() {
    let closed = |reason| ReaderState::Closed { reason };
    let (s, a) = reader_step(ReaderState::AwaitHeader, ReaderEvent::ReadFailed);
    assert_eq!(s, closed(CloseReason::Disconnected));
    assert!(matches!(a, ReaderAction::Stop));
    let (s, _) = reader_step(ReaderState::AwaitBody { length: 2 }, ReaderEvent::ReadFailed);
    assert_eq!(s, closed(CloseReason::Disconnected));
    let (s, _) = reader_step(ReaderState::AwaitBody { length: 2 }, ReaderEvent::Bytes(vec![0xff, 0xff]));
    assert_eq!(s, closed(CloseReason::NotUtf8));
    let (s, _) = reader_step(ReaderState::AwaitBody { length: 2 }, ReaderEvent::Bytes(vec![b'a']));
    assert_eq!(s, closed(CloseReason::OutOfStep));
    let (s, _) = reader_step(ReaderState::AwaitHeader, ReaderEvent::Bytes(vec![0, 0, 0]));
    assert_eq!(s, closed(CloseReason::OutOfStep));
    let (s, _) = reader_step(ReaderState::AwaitHeader, ReaderEvent::Delivered);
    assert_eq!(s, closed(CloseReason::OutOfStep));
    let (s, _) = reader_step(ReaderState::AwaitDelivery, ReaderEvent::Undecodable);
    assert_eq!(s, closed(CloseReason::NotAMessage));
    let (s, _) = reader_step(ReaderState::AwaitDelivery, ReaderEvent::QueueClosed);
    assert_eq!(s, closed(CloseReason::QueueClosed));
    let (s, _) = reader_step(ReaderState::AwaitDelivery, ReaderEvent::ReadFailed);
    assert_eq!(s, closed(CloseReason::OutOfStep));
    // A stopped reader stays stopped, for the reason it stopped.
    let (s, a) = reader_step(closed(CloseReason::NotUtf8), ReaderEvent::Bytes(vec![0, 0, 0, 1]));
    assert_eq!(s, closed(CloseReason::NotUtf8));
    assert!(matches!(a, ReaderAction::Stop));
}

#[test]
fn fan_out_goes_on_after_a_failure() {
    let mut fan = FanOut::new(4);
    let mut tried = Vec::new();
    while let Some(target) = fan.next_target() {
        tried.push(target);
        fan.record(target != 1);
    }
    assert_eq!(tried, vec![0, 1, 2, 3]);
    assert!(fan.is_complete());
    assert_eq!(fan.reached_count(), 3);
    assert_eq!(fan.failed_targets(), vec![1]);
    fan.record(false);
    assert_eq!(fan.outcomes.len(), 4);
    let empty = FanOut::new(0);
    assert!(empty.is_complete());
    assert_eq!(empty.next_target(), None);
}

#[test]
fn registry_starts_empty_on_tcp() {
    let m = NetworkManager::new();
    assert!(m.connections.is_empty());
    assert!(m.streams.is_empty());
    assert_eq!(m.current_protocol, Protocol::TCP);
    assert!(!m.is_server);
    assert!(m.server_peer.is_none());
    assert_eq!(m.get_best_server_candidate(), None);
}

#[test]
fn start_server_says_how_to_listen() {
    let mut m = NetworkManager::new();
    assert_eq!(m.start_server(8080, Protocol::TCP), ServerAction::ListenTcp { port: 8080 });
    assert!(m.is_server);
    assert_eq!(m.start_server(9, Protocol::WebRTC), ServerAction::Nothing);
    assert_eq!(m.current_protocol, Protocol::WebRTC);
    assert_eq!(m.connect_to_peer(addr(1), Protocol::TCP), ConnectAction::DialTcp { addr: addr(1) });
    assert_eq!(m.connect_to_peer(addr(1), Protocol::WebSocket), ConnectAction::Nothing);
}

#[test]
fn send_to_unregistered_peer_fails_with_peer_not_found() {
    let mut m = NetworkManager::new();
    assert_eq!(m.send_to_peer("10.0.0.1:1", "{}"), Err(TransportError::PeerNotFound));
    m.peer_accepted("10.0.0.1:1".to_string());
    assert_eq!(m.send_to_peer("10.0.0.1:1", "{}"), Ok(vec![0, 0, 0, 2, b'{', b'}']));
    assert_eq!(m.send_to_peer("10.0.0.1:2", "{}"), Err(TransportError::PeerNotFound));
    assert!(m.connections.is_empty());
}

#[test]
fn broadcast_goes_to_every_registered_stream() {
    let mut m = NetworkManager::new();
    m.peer_accepted("a".to_string());
    m.peer_connected_at("b".to_string(), addr(2), 5);
    m.peer_accepted("a".to_string());
    m.peer_connected("c".to_string(), addr(3));
    let (frame, targets) = m.broadcast_message("hey").unwrap();
    assert_eq!(frame, vec![0, 0, 0, 3, b'h', b'e', b'y']);
    assert_eq!(targets, vec!["a", "b", "c"]);
    assert_eq!(m.broadcast_targets(), targets);
    let list = m.get_peer_list();
    assert_eq!(list.len(), 2);
    assert_eq!(list[0].0, "b");
    assert_eq!(list[0].1.addr, addr(2));
    assert_eq!(list[0].1.protocol, Protocol::TCP);
    assert_eq!(list[0].1.ping_ms, None);
    assert_eq!(list[0].1.last_seen, 5);
    assert!(!list[0].1.is_server);
}

#[test]
fn reconnecting_starts_the_entry_afresh() {
    let mut m = NetworkManager::new();
    m.peer_connected_at("b".to_string(), addr(2), 5);
    m.update_ping_at("b", 40, 6);
    m.peer_connected_at("b".to_string(), addr(9), 7);
    assert_eq!(m.connections.len(), 1);
    assert_eq!(m.streams.len(), 1);
    assert_eq!(m.connections[0].connection.addr, addr(9));
    assert_eq!(m.connections[0].connection.ping_ms, None);
    assert_eq!(m.connections[0].connection.last_seen, 7);
}

#[test]
fn peer_health_needs_recent_sign_and_a_ping() {
    let mut m = NetworkManager::new();
    m.peer_connected_at("b".to_string(), addr(2), 0);
    assert!(!m.is_peer_healthy_at("b", 5, 0));
    m.update_ping_at("b", 40, 60_000);
    m.update_ping_at("zz", 1, 60_000);
    assert_eq!(m.connections.len(), 1);
    assert!(m.is_peer_healthy_at("b", 5, 60_000));
    assert!(m.is_peer_healthy_at("b", 5, 5 * 60_000 + 59_999));
    assert!(!m.is_peer_healthy_at("b", 5, 6 * 60_000));
    assert!(!m.is_peer_healthy_at("c", 5, 60_000));
    m.mark_peer_offline("b");
    assert!(!m.is_peer_healthy_at("b", 5, 60_000));
    assert_eq!(m.connections[0].connection.last_seen, 60_000);
    m.update_ping("b", 3);
    assert!(m.is_peer_healthy("b", 1));
    assert!(!m.is_peer_healthy("b", 0));
}

#[test]
fn stale_connections_are_dropped() {
    let mut m = NetworkManager::new();
    m.peer_connected_at("a".to_string(), addr(1), 0);
    m.peer_connected_at("b".to_string(), addr(2), 60_000);
    m.peer_connected_at("c".to_string(), addr(3), 120_000);
    // "b" has been silent for exactly one minute: not more than the timeout.
    m.cleanup_stale_connections_at(1, 120_000);
    let ids: Vec<&str> = m.connections.iter().map(|e| e.peer_id.as_str()).collect();
    assert_eq!(ids, vec!["b", "c"]);
    // Half a minute later "b" has been silent for longer than the timeout.
    m.cleanup_stale_connections_at(1, 150_000);
    let ids: Vec<&str> = m.connections.iter().map(|e| e.peer_id.as_str()).collect();
    assert_eq!(ids, vec!["c"]);
    m.cleanup_stale_connections_at(1, 180_000);
    assert_eq!(m.connections.len(), 1);
    m.cleanup_stale_connections_at(1, 180_001);
    assert!(m.connections.is_empty());
    assert_eq!(m.streams.len(), 3);
}

#[test]
fn stale_connections_are_judged_to_the_millisecond() {
    let mut m = NetworkManager::new();
    m.peer_connected_at("a".to_string(), addr(1), 0);
    m.cleanup_stale_connections_at(5, 5 * 60_000);
    assert_eq!(m.connections.len(), 1);
    m.cleanup_stale_connections_at(5, 5 * 60_000 + 30_000);
    assert!(m.connections.is_empty());
    m.peer_connected("b".to_string(), addr(2));
    m.cleanup_stale_connections(1);
    assert_eq!(m.connections.len(), 1);
}

#[test]
fn best_server_candidate_has_the_lowest_ping() {
    let mut m = NetworkManager::new();
    m.peer_connected_at("a".to_string(), addr(1), 0);
    m.peer_connected_at("b".to_string(), addr(2), 0);
    m.peer_connected_at("c".to_string(), addr(3), 0);
    assert_eq!(m.get_best_server_candidate(), None);
    m.update_ping_at("c", 30, 1);
    m.update_ping_at("b", 30, 1);
    assert_eq!(m.get_best_server_candidate().as_deref(), Some("b"));
    m.update_ping_at("a", 31, 1);
    assert_eq!(m.get_best_server_candidate().as_deref(), Some("b"));
    m.update_ping_at("a", 0, 1);
    assert_eq!(m.get_best_server_candidate().as_deref(), Some("a"));
}

#[test]
fn disconnect_all_forgets_every_peer() {
    let mut m = NetworkManager::new();
    m.start_server(1, Protocol::TCP);
    m.peer_connected_at("a".to_string(), addr(1), 0);
    m.server_peer = Some("a".to_string());
    assert_eq!(m.disconnect_all(), Ok(()));
    assert!(m.connections.is_empty());
    assert!(m.streams.is_empty());
    assert!(!m.is_server);
    assert!(m.server_peer.is_none());
    assert_eq!(m.current_protocol, Protocol::TCP);
}

#[test]
fn switch_protocol_lists_one_action_per_peer() {
    let mut m = NetworkManager::new();
    let actions = m.switch_protocol(Protocol::WebSocket, &vec![addr(1), addr(2)]);
    assert_eq!(actions, vec![ConnectAction::Nothing, ConnectAction::Nothing]);
    assert_eq!(m.current_protocol, Protocol::WebSocket);
    let actions = m.switch_protocol(Protocol::TCP, &vec![addr(1), addr(2)]);
    assert_eq!(
        actions,
        vec![ConnectAction::DialTcp { addr: addr(1) }, ConnectAction::DialTcp { addr: addr(2) }]
    );
}

#[test]
fn protocol_notice_names_the_protocol() {
    let n = protocol_notice_at(Protocol::WebRTC, None, 7, 8);
    assert_eq!(n.id, 7);
    assert_eq!(n.from, "self");
    assert_eq!(n.to, None);
    assert_eq!(n.message_type, MessageType::ProtocolChange);
    assert_eq!(n.payload, "\"WebRTC\"");
    assert_eq!(n.timestamp, 8);
    let m = protocol_notice(Protocol::TCP, None);
    assert_eq!(m.payload, "\"TCP\"");
    assert_eq!(Protocol::WebSocket.name(), "WebSocket");
    assert_eq!(Protocol::WebSocket.to_document(), "\"WebSocket\"");
    let copy = m.clone();
    assert_eq!(copy.id, m.id);
    assert_eq!(copy.payload, m.payload);
}
