use base64::Engine;
use shortgap::addr::PeerAddr;
use shortgap::commands::{
    begin_join_at, broadcast_envelope, change_protocol, check_room_health, check_room_health_at,
    create_party, expected_payload, generate_invite, get_room_messages, handle_incoming_message,
    handle_incoming_message_at, join_call, join_call_at, join_party, leave_call, leave_call_at,
    leave_party, mark_user_offline_cmd, mark_user_offline_cmd_at, send_message,
    set_user_settings, sync_messages, validate_invite, validate_invite_at, AppState,
    CommandError, Inbound, PayloadKind, UserSettings,
};
use shortgap::invite::InviteData;
use shortgap::networking::{ConnectAction, MessageType, Protocol, ServerAction};
use shortgap::room::{ChatMessage, Room};
use shortgap::user::User;

fn addr(port: u16) -> PeerAddr {
    PeerAddr::v4(192, 168, 1, 100, port)
}

fn state_with_user(name: &str) -> AppState {
    let mut state = AppState::new();
    state.current_user = Some(User::new(name.to_string(), addr(8080)));
    state
}

fn state_in_party() -> AppState {
    let mut state = state_with_user("TestUser");
    create_party(&mut state, "Test Room".to_string(), None).unwrap();
    state
}

fn document_of(invite: &InviteData) -> String {
    let mut map = serde_json::Map::new();
    map.insert(
        "room_id".to_string(),
        serde_json::Value::String(uuid::Uuid::from_u128(invite.room_id).to_string()),
    );
    map.insert("room_name".to_string(), serde_json::Value::String(invite.room_name.clone()));
    map.insert(
        "creator_name".to_string(),
        serde_json::Value::String(invite.creator_name.clone()),
    );
    let peers = invite
        .peer_addresses
        .iter()
        .map(|a| match a {
            PeerAddr::V4 { ip, port } => serde_json::Value::String(format!(
                "{}.{}.{}.{}:{}",
                ip >> 24,
                (ip >> 16) & 0xff,
                (ip >> 8) & 0xff,
                ip & 0xff,
                port
            )),
            PeerAddr::V6 { ip6, port, .. } => {
                serde_json::Value::String(format!("[{:x}]:{}", ip6, port))
            }
        })
        .collect();
    map.insert("peer_addresses".to_string(), serde_json::Value::Array(peers));
    map.insert(
        "protocol".to_string(),
        serde_json::Value::String(invite.protocol.name().to_string()),
    );
    serde_json::to_string(&serde_json::Value::Object(map)).unwrap()
}

#[test]
fn test_generate_invite_with_real_room() {
    let mut state = AppState::new();
    let user = User::new("TestUser".to_string(), addr(8080));
    state.current_user = Some(user.clone());
    let room = Room::new("Test Room for Invite".to_string(), user, Protocol::TCP);
    state.current_party = Some(room);

    let invite_data = generate_invite(&state).unwrap();
    let invite_code = InviteData::generate_invite_code(&document_of(&invite_data)).unwrap();
    assert!(invite_code.starts_with("shortgap://"), "Invite code should start with shortgap://");

    let document = InviteData::parse_invite_code(&invite_code).unwrap();
    let value: serde_json::Value = serde_json::from_str(&document).unwrap();
    assert_eq!(value["room_name"].as_str().unwrap(), "Test Room for Invite");
    assert_eq!(value["creator_name"].as_str().unwrap(), "TestUser");
    assert!(!value["peer_addresses"].as_array().unwrap().is_empty(), "Should have peer addresses");
}

#[test]
fn test_generate_invite_with_existing_room_id() {
    let existing_room_id = "4050bac2-dec6-44e5-89bc-329d279a8e68";
    let mut state = AppState::new();
    let user = User::new("TestUser".to_string(), addr(8080));
    state.current_user = Some(user.clone());

    let room_uuid = uuid::Uuid::parse_str(existing_room_id).unwrap().as_u128();
    let mut room = Room::new("Existing Test Room".to_string(), user, Protocol::TCP);
    room.id = room_uuid;
    room.peer_addresses = vec![PeerAddr::v4(192, 168, 1, 47, 8080)];
    state.current_party = Some(room);

    let invite_data = generate_invite(&state).unwrap();
    let invite_code = InviteData::generate_invite_code(&document_of(&invite_data)).unwrap();
    assert!(invite_code.starts_with("shortgap://"));

    let base64_part = invite_code.strip_prefix("shortgap://").unwrap();
    let decoded = base64::engine::general_purpose::URL_SAFE_NO_PAD
        .decode(base64_part)
        .expect("Should decode base64");
    let json_str = String::from_utf8(decoded).expect("Should be valid UTF-8");

    assert!(json_str.contains(existing_room_id), "Should contain room ID");
    assert!(json_str.contains("192.168.1.47"), "Should contain peer address");
}

#[test]
fn create_party_needs_a_user_and_no_party() {
    let mut state = AppState::new();
    assert!(matches!(
        create_party(&mut state, "R".to_string(), None),
        Err(CommandError::NoUserConfigured)
    ));
    assert!(state.current_party.is_none());
    let mut state = state_with_user("A");
    let action = create_party(&mut state, "R".to_string(), None).unwrap();
    assert_eq!(action, ServerAction::ListenTcp { port: 8080 });
    let party = state.current_party.as_ref().unwrap();
    assert_eq!(party.name, "R");
    assert_eq!(party.protocol, Protocol::TCP);
    assert_eq!(party.server_user_id, Some(state.current_user.as_ref().unwrap().id));
    assert!(state.networking.is_server);
    assert!(matches!(
        create_party(&mut state, "S".to_string(), None),
        Err(CommandError::PartyAlreadyActive)
    ));
    assert_eq!(state.current_party.as_ref().unwrap().name, "R");
    let mut other = state_with_user("B");
    assert_eq!(
        create_party(&mut other, "R".to_string(), Some(Protocol::WebRTC)).unwrap(),
        ServerAction::Nothing
    );
    assert_eq!(other.networking.current_protocol, Protocol::WebRTC);
}

#[test]
fn leave_party_clears_room_and_registry() {
    let mut state = state_in_party();
    state.networking.peer_accepted("x".to_string());
    leave_party(&mut state).unwrap();
    assert!(state.current_party.is_none());
    assert!(state.networking.streams.is_empty());
    assert!(!state.networking.is_server);
    assert!(matches!(leave_party(&mut state), Err(CommandError::NotInParty)));
}

#[test]
fn send_message_adds_the_line_and_hands_it_back() {
    let mut state = state_in_party();
    let message = send_message(&mut state, "hello".to_string()).unwrap();
    let user = state.current_user.as_ref().unwrap();
    assert_eq!(message.user_id, user.id);
    assert_eq!(message.user_name, "TestUser");
    assert_eq!(message.content, "hello");
    let party = state.current_party.as_ref().unwrap();
    assert_eq!(party.messages.len(), 1);
    assert_eq!(party.messages[0].id, message.id);
    let envelope = broadcast_envelope(user.id, MessageType::ChatMessage, "{}".to_string());
    assert_eq!(envelope.from, uuid::Uuid::from_u128(user.id).to_string());
    assert_eq!(envelope.to, None);
    assert_eq!(envelope.payload, "{}");
    assert_eq!(envelope.message_type, MessageType::ChatMessage);
    let mut nobody = AppState::new();
    assert!(matches!(
        send_message(&mut nobody, "x".to_string()),
        Err(CommandError::NoUserConfigured)
    ));
    let mut outside = state_with_user("A");
    assert!(matches!(send_message(&mut outside, "x".to_string()), Err(CommandError::NotInParty)));
}

#[test]
fn user_settings_make_a_user_on_the_default_port() {
    let mut state = AppState::new();
    let settings = UserSettings {
        name: "Zoe".to_string(),
        avatar: Some("z.png".to_string()),
        audio_input_device: None,
        audio_output_device: Some("speakers".to_string()),
    };
    set_user_settings(&mut state, settings, PeerAddr::v4(10, 1, 2, 3, 5));
    let user = state.current_user.as_ref().unwrap();
    assert_eq!(user.name, "Zoe");
    assert_eq!(user.address, PeerAddr::v4(10, 1, 2, 3, 8080));
    assert_eq!(user.avatar.as_deref(), Some("z.png"));
    assert_eq!(user.audio_output_device.as_deref(), Some("speakers"));
    assert!(user.is_online);
}

#[test]
fn generate_invite_needs_party_and_user() {
    assert!(matches!(generate_invite(&AppState::new()), Err(CommandError::NotInParty)));
    let mut state = state_in_party();
    let invite = generate_invite(&state).unwrap();
    assert_eq!(invite.room_id, state.current_party.as_ref().unwrap().id);
    assert_eq!(invite.peer_addresses, vec![addr(8080)]);
    state.current_user = None;
    assert!(matches!(generate_invite(&state), Err(CommandError::NoUserConfigured)));
}

#[test]
fn validate_invite_checks_age_then_peers() {
    let fresh = InviteData::new_at(1, "R".to_string(), "C".to_string(), vec![addr(1)], Protocol::TCP, 0);
    let summary = validate_invite_at(&fresh, 24 * 3_600_000).unwrap();
    assert_eq!(summary.room_name, "R");
    assert_eq!(summary.creator_name, "C");
    assert_eq!(summary.peer_count, 1);
    assert_eq!(summary.protocol, Protocol::TCP);
    assert_eq!(summary.created_at, 0);
    assert!(matches!(
        validate_invite_at(&fresh, 24 * 3_600_000 + 1),
        Err(CommandError::InviteExpired)
    ));
    let empty = InviteData::new_at(1, "R".to_string(), "C".to_string(), vec![], Protocol::TCP, 0);
    assert!(matches!(validate_invite_at(&empty, 0), Err(CommandError::NoPeerAddresses)));
    assert!(matches!(
        validate_invite_at(&empty, 25 * 3_600_000),
        Err(CommandError::InviteExpired)
    ));
    let now_made = InviteData::new(1, "R".to_string(), "C".to_string(), vec![addr(1)], Protocol::TCP);
    assert!(validate_invite(&now_made).is_ok());
}

#[test]
fn room_health_sweeps_then_checks() {
    assert!(matches!(check_room_health(&mut AppState::new()), Err(CommandError::NotInParty)));
    let mut state = AppState::new();
    let a = User::new_at(1, "A".to_string(), addr(1), 0);
    let mut room = Room::new_at(9, "R".to_string(), a, Protocol::TCP, 0);
    room.add_user(User::new_at(2, "B".to_string(), addr(2), 9 * 60_000)).unwrap();
    state.current_party = Some(room);
    // The server was silent for ten minutes: swept, and user 2 takes over;
    // the new server is healthy.
    assert_eq!(check_room_health_at(&mut state, 10 * 60_000).unwrap(), true);
    let party = state.current_party.as_ref().unwrap();
    assert!(!party.users[0].is_online);
    assert_eq!(party.server_user_id, Some(2));
    let mut live = state_in_party();
    assert_eq!(check_room_health(&mut live).unwrap(), true);
}

#[test]
fn commands_by_room_identifier() {
    let mut state = state_in_party();
    let room_id = uuid::Uuid::from_u128(state.current_party.as_ref().unwrap().id).to_string();
    let user_id = uuid::Uuid::from_u128(state.current_user.as_ref().unwrap().id).to_string();
    let other = "4050bac2-dec6-44e5-89bc-329d279a8e68";
    assert!(matches!(
        get_room_messages(&state, "nonsense"),
        Err(CommandError::InvalidRoomId(_))
    ));
    assert!(matches!(get_room_messages(&state, other), Err(CommandError::RoomNotFound)));
    assert!(get_room_messages(&state, &room_id).unwrap().is_empty());
    assert!(matches!(
        mark_user_offline_cmd(&mut state, "x", &user_id),
        Err(CommandError::InvalidRoomId(_))
    ));
    assert!(matches!(
        mark_user_offline_cmd(&mut state, &room_id, "y"),
        Err(CommandError::InvalidUserId(_))
    ));
    assert!(matches!(
        mark_user_offline_cmd(&mut state, other, &user_id),
        Err(CommandError::RoomNotFound)
    ));
    assert!(state.current_party.as_ref().unwrap().users[0].is_online);
    mark_user_offline_cmd(&mut state, &room_id, &user_id).unwrap();
    let party = state.current_party.as_ref().unwrap();
    assert!(!party.users[0].is_online);
    assert_eq!(party.server_user_id, None);
    mark_user_offline_cmd_at(&mut state, &room_id, other, 0).unwrap();
    assert!(matches!(
        mark_user_offline_cmd(&mut AppState::new(), &room_id, &user_id),
        Err(CommandError::RoomNotFound)
    ));
}

#[test]
fn sync_messages_hands_out_sorted_messages() {
    let mut state = state_in_party();
    let room_id = uuid::Uuid::from_u128(state.current_party.as_ref().unwrap().id).to_string();
    for (id, timestamp) in [(1u128, 30i64), (2, 10), (3, 20)] {
        state.current_party.as_mut().unwrap().add_message(ChatMessage {
            id,
            user_id: 1,
            user_name: "A".to_string(),
            content: "c".to_string(),
            timestamp,
        });
    }
    let sorted = sync_messages(&mut state, &room_id).unwrap();
    let ids: Vec<u128> = sorted.iter().map(|m| m.id).collect();
    assert_eq!(ids, vec![2, 3, 1]);
    let kept: Vec<u128> = state.current_party.as_ref().unwrap().messages.iter().map(|m| m.id).collect();
    assert_eq!(kept, ids);
    assert_eq!(get_room_messages(&state, &room_id).unwrap().len(), 3);
    assert!(matches!(sync_messages(&mut state, "??"), Err(CommandError::InvalidRoomId(_))));
    assert!(matches!(
        sync_messages(&mut state, "4050bac2-dec6-44e5-89bc-329d279a8e68"),
        Err(CommandError::RoomNotFound)
    ));
}

#[test]
fn change_protocol_updates_room_and_transport() {
    let mut state = state_in_party();
    let actions = change_protocol(&mut state, Protocol::WebSocket).unwrap();
    assert_eq!(actions, vec![ConnectAction::Nothing]);
    assert_eq!(state.current_party.as_ref().unwrap().protocol, Protocol::WebSocket);
    assert_eq!(state.networking.current_protocol, Protocol::WebSocket);
    assert!(matches!(
        change_protocol(&mut AppState::new(), Protocol::TCP),
        Err(CommandError::NotInParty)
    ));
}

#[test]
fn call_is_started_by_the_first_and_ended_by_the_last() {
    let mut state = AppState::new();
    let me = User::new_at(1, "Me".to_string(), addr(1), 0);
    state.current_user = Some(me.clone());
    let mut room = Room::new_at(9, "R".to_string(), User::new_at(2, "Host".to_string(), addr(2), 0), Protocol::TCP, 0);
    room.call_server_id = None;
    room.add_user(me).unwrap();
    state.current_party = Some(room);

    join_call_at(&mut state, 50).unwrap();
    {
        let party = state.current_party.as_ref().unwrap();
        assert!(party.users[1].is_in_call);
        assert_eq!(party.users[1].last_seen, 50);
        assert!(party.is_call_active);
        assert_eq!(party.call_server_id, Some(1));
        let line = party.messages.last().unwrap();
        assert_eq!(line.user_id, 0);
        assert_eq!(line.user_name, "System");
        assert_eq!(line.content, "**Me** connected to call");
        assert_eq!(line.timestamp, 50);
    }
    assert!(matches!(join_call_at(&mut state, 51), Err(CommandError::AlreadyInCall)));
    state.current_party.as_mut().unwrap().users[0].is_in_call = true;
    leave_call_at(&mut state, 60).unwrap();
    {
        let party = state.current_party.as_ref().unwrap();
        assert!(!party.users[1].is_in_call);
        assert!(party.is_call_active);
        assert_eq!(party.call_server_id, Some(1));
        assert_eq!(party.messages.last().unwrap().content, "**Me** disconnected from call");
    }
    assert!(matches!(leave_call_at(&mut state, 61), Err(CommandError::NotInCall)));
    state.current_party.as_mut().unwrap().users[0].is_in_call = false;
    join_call(&mut state).unwrap();
    leave_call(&mut state).unwrap();
    let party = state.current_party.as_ref().unwrap();
    assert!(!party.is_call_active);
    assert_eq!(party.call_server_id, None);
    assert_eq!(party.messages.len(), 4);
}

#[test]
fn call_commands_need_user_party_and_membership() {
    let mut nobody = AppState::new();
    assert!(matches!(join_call(&mut nobody), Err(CommandError::NoUserConfigured)));
    assert!(matches!(leave_call(&mut nobody), Err(CommandError::NoUserConfigured)));
    let mut outside = state_with_user("A");
    assert!(matches!(join_call(&mut outside), Err(CommandError::NotInParty)));
    assert!(matches!(leave_call(&mut outside), Err(CommandError::NotInParty)));
    let mut stranger = state_in_party();
    stranger.current_user = Some(User::new("X".to_string(), addr(3)));
    assert!(matches!(join_call(&mut stranger), Err(CommandError::UserNotInParty)));
    assert!(matches!(leave_call(&mut stranger), Err(CommandError::UserNotInParty)));
}

#[test]
fn inbound_messages_change_the_room() {
    assert_eq!(expected_payload(MessageType::ChatMessage), PayloadKind::ChatLine);
    assert_eq!(expected_payload(MessageType::UserJoined), PayloadKind::UserRecord);
    assert_eq!(expected_payload(MessageType::UserLeft), PayloadKind::UserIdText);
    assert_eq!(expected_payload(MessageType::VoiceData), PayloadKind::Ignored);
    assert_eq!(expected_payload(MessageType::RoomSync), PayloadKind::Ignored);

    let mut state = state_in_party();
    let newcomer = User::new_at(0x550e8400_e29b_41d4_a716_446655440000, "TestUser".to_string(), addr(9), 0);
    handle_incoming_message(&mut state, Inbound::Joined(newcomer.clone()));
    handle_incoming_message(&mut state, Inbound::Joined(newcomer));
    {
        let party = state.current_party.as_ref().unwrap();
        assert_eq!(party.users.len(), 2);
        assert_eq!(party.users[1].name, "TestUser-2");
        assert_eq!(party.peer_addresses, vec![addr(8080), addr(9)]);
    }
    handle_incoming_message(
        &mut state,
        Inbound::Chat(ChatMessage {
            id: 5,
            user_id: 6,
            user_name: "N".to_string(),
            content: "hi".to_string(),
            timestamp: 7,
        }),
    );
    assert_eq!(state.current_party.as_ref().unwrap().messages.len(), 1);
    handle_incoming_message(&mut state, Inbound::Left("not an id".to_string()));
    handle_incoming_message(&mut state, Inbound::Other);
    assert_eq!(state.current_party.as_ref().unwrap().users.len(), 2);
    handle_incoming_message_at(
        &mut state,
        Inbound::Left("550e8400-e29b-41d4-a716-446655440000".to_string()),
        0,
    );
    let party = state.current_party.as_ref().unwrap();
    assert_eq!(party.users.len(), 1);
    assert_eq!(party.peer_addresses, vec![addr(8080)]);
    let mut outside = AppState::new();
    handle_incoming_message(&mut outside, Inbound::Other);
    assert!(outside.current_party.is_none());
}

#[test]
fn join_tries_peers_in_order_until_one_is_reached() {
    let state = state_with_user("Me");
    let code = InviteData::generate_invite_code("{}").unwrap();
    assert_eq!(join_party(&state, &code).unwrap(), "{}");
    assert!(matches!(join_party(&state, "***"), Err(CommandError::InvalidInvite(_))));
    assert!(matches!(
        join_party(&state_in_party(), &code),
        Err(CommandError::PartyAlreadyActive)
    ));

    let invite = InviteData::new_at(
        77,
        "Room".to_string(),
        "Host".to_string(),
        vec![addr(1), addr(2), addr(3)],
        Protocol::TCP,
        0,
    );
    let mut state = state;
    let mut attempt = begin_join_at(&state, invite, 1_000).unwrap();
    assert_eq!(attempt.next_peer(), Some((addr(1), Protocol::TCP)));
    attempt.peer_failed("refused".to_string());
    assert_eq!(attempt.next_peer(), Some((addr(2), Protocol::TCP)));
    attempt.peer_failed("timeout".to_string());
    assert_eq!(attempt.next_peer(), Some((addr(3), Protocol::TCP)));
    attempt.peer_connected();
    assert_eq!(attempt.next_peer(), None);
    assert_eq!(attempt.failures.len(), 2);
    assert!(attempt.failures[0].primary);
    assert!(!attempt.failures[1].primary);
    assert_eq!(attempt.failures[1].addr, addr(2));
    assert_eq!(attempt.failures[1].cause, "timeout");
    attempt.finish_at(&mut state, 2_000).unwrap();
    let party = state.current_party.as_ref().unwrap();
    assert_eq!(party.id, 77);
    assert_eq!(party.name, "Room");
    assert_eq!(party.peer_addresses, vec![addr(1), addr(2), addr(3)]);
    assert_eq!(party.users.len(), 1);
    assert_eq!(party.users[0].name, "Me");
    assert_eq!(party.created_at, 2_000);
}

#[test]
fn join_fails_when_no_peer_is_reached() {
    let mut state = state_with_user("Me");
    let invite = InviteData::new_at(77, "Room".to_string(), "Host".to_string(), vec![addr(1), addr(2)], Protocol::TCP, 0);
    let mut attempt = begin_join_at(&state, invite, 0).unwrap();
    attempt.peer_failed("a".to_string());
    attempt.peer_failed("b".to_string());
    attempt.peer_failed("ignored".to_string());
    attempt.peer_connected();
    assert_eq!(attempt.next_peer(), None);
    match attempt.finish(&mut state) {
        Err(CommandError::NoPeerReachable { failures }) => {
            assert_eq!(failures.len(), 2);
            assert_eq!(failures[0].cause, "a");
        }
        other => panic!("unexpected result {:?}", other),
    }
    assert!(state.current_party.is_none());
}

#[test]
fn join_is_refused_for_old_invites_and_without_a_user() {
    let invite = || InviteData::new_at(77, "R".to_string(), "H".to_string(), vec![addr(1)], Protocol::TCP, 0);
    assert!(matches!(
        begin_join_at(&state_with_user("Me"), invite(), 24 * 3_600_000 + 1),
        Err(CommandError::InviteExpired)
    ));
    assert!(matches!(
        begin_join_at(&AppState::new(), invite(), 0),
        Err(CommandError::NoUserConfigured)
    ));
    assert!(matches!(
        begin_join_at(&AppState::new(), invite(), 25 * 3_600_000),
        Err(CommandError::InviteExpired)
    ));
}
