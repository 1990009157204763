use shortgap::addr::PeerAddr;
use shortgap::networking::Protocol;
use shortgap::room::{ChatMessage, PingRecord, Room, RoomError, MAX_MESSAGES};
use shortgap::user::User;

fn addr(port: u16) -> PeerAddr {
    PeerAddr::v4(127, 0, 0, 1, port)
}

fn now() -> i64 {
    chrono::Utc::now().timestamp_millis()
}

fn line(id: u128, timestamp: i64) -> ChatMessage {
    ChatMessage {
        id,
        user_id: 1,
        user_name: "Alice".to_string(),
        content: format!("message {}", id),
        timestamp,
    }
}

fn member(room: &Room, id: u128) -> &User {
    room.get_user(id).unwrap()
}

#[test]
fn test_server_election_with_offline_users() {
    let user1 = User::new("User1".to_string(), addr(8080));
    let user2 = User::new("User2".to_string(), addr(8081));
    let user3 = User::new("User3".to_string(), addr(8082));

    let creator_id = user1.id;
    let user2_id = user2.id;
    let user3_id = user3.id;

    let mut room = Room::new("Test Room".to_string(), user1, Protocol::TCP);
    room.add_user(user2).unwrap();
    room.add_user(user3).unwrap();

    room.update_ping(creator_id, 50);
    room.update_ping(user2_id, 30);
    room.update_ping(user3_id, 100);

    assert_eq!(room.server_user_id, Some(creator_id));

    room.mark_user_offline(creator_id).unwrap();
    assert_eq!(room.server_user_id, Some(user2_id));

    room.mark_user_offline(user2_id).unwrap();
    assert_eq!(room.server_user_id, Some(user3_id));

    room.mark_user_offline(user3_id).unwrap();
    assert_eq!(room.server_user_id, None);
}

#[test]
fn test_server_health_check() {
    let user1 = User::new("User1".to_string(), addr(8080));
    let user2 = User::new("User2".to_string(), addr(8081));

    let creator_id = user1.id;
    let user2_id = user2.id;

    let mut room = Room::new("Test Room".to_string(), user1, Protocol::TCP);
    room.add_user(user2).unwrap();

    room.update_ping(creator_id, 50);
    room.update_ping(user2_id, 30);

    assert!(room.check_server_health());
    assert_eq!(room.server_user_id, Some(creator_id));

    room.mark_user_offline(creator_id).unwrap();

    assert!(room.check_server_health());
    assert_eq!(room.server_user_id, Some(user2_id));
}

#[test]
fn test_cleanup_offline_users() {
    let mut user1 = User::new("User1".to_string(), addr(8080));
    let user2 = User::new("User2".to_string(), addr(8081));

    user1.last_seen = now() - 10 * 60_000;

    let user1_id = user1.id;
    let user2_id = user2.id;

    let mut room = Room::new("Test Room".to_string(), user1, Protocol::TCP);
    room.add_user(user2).unwrap();

    assert!(member(&room, user1_id).is_online);
    assert!(member(&room, user2_id).is_online);

    room.cleanup_offline_users(5);

    assert!(!member(&room, user1_id).is_online);
    assert!(member(&room, user2_id).is_online);

    assert_eq!(room.server_user_id, Some(user2_id));
}

#[test]
fn election_picks_lowest_ping_of_three() {
    let a = User::new_at(1, "A".to_string(), addr(1), 1_000);
    let b = User::new_at(2, "B".to_string(), addr(2), 1_000);
    let c = User::new_at(3, "C".to_string(), addr(3), 1_000);
    let mut room = Room::new_at(9, "R".to_string(), a, Protocol::TCP, 1_000);
    room.add_user(b).unwrap();
    room.add_user(c).unwrap();
    room.update_ping_at(1, 50, 2_000);
    room.update_ping_at(2, 30, 2_000);
    room.update_ping_at(3, 100, 2_000);
    room.elect_new_server_at(3_000);
    assert_eq!(room.server_user_id, Some(2));
    assert_eq!(room.election_winner(3_000), Some(2));
}

#[test]
fn election_breaks_ties_by_first_measurement() {
    let a = User::new_at(1, "A".to_string(), addr(1), 0);
    let b = User::new_at(2, "B".to_string(), addr(2), 0);
    let mut room = Room::new_at(9, "R".to_string(), a, Protocol::TCP, 0);
    room.add_user(b).unwrap();
    room.update_ping_at(2, 40, 0);
    room.update_ping_at(1, 40, 0);
    assert_eq!(room.election_winner(0), Some(2));
}

#[test]
fn election_ignores_stale_and_unmeasured_candidates() {
    let a = User::new_at(1, "A".to_string(), addr(1), 0);
    let b = User::new_at(2, "B".to_string(), addr(2), 0);
    let mut room = Room::new_at(9, "R".to_string(), a, Protocol::TCP, 0);
    room.add_user(b).unwrap();
    room.update_ping_at(1, 10, 0);
    room.update_ping_at(2, 500, 6 * 60_000);
    // At minute 6 user 1 was last seen six minutes ago: no longer recent.
    assert_eq!(room.election_winner(6 * 60_000), Some(2));
    // A latency of u64::MAX stands for no measurement.
    room.update_ping_at(2, u64::MAX, 6 * 60_000);
    // No candidate is left: the first online member in join order stands.
    assert_eq!(room.election_winner(6 * 60_000), Some(1));
}

#[test]
fn election_falls_back_to_first_online_member() {
    let a = User::new_at(1, "A".to_string(), addr(1), 0);
    let b = User::new_at(2, "B".to_string(), addr(2), 0);
    let mut room = Room::new_at(9, "R".to_string(), a, Protocol::TCP, 0);
    room.add_user(b).unwrap();
    room.mark_user_offline_at(1, 0).unwrap();
    assert_eq!(room.server_user_id, Some(2));
    room.mark_user_offline_at(2, 0).unwrap();
    assert_eq!(room.server_user_id, None);
    room.mark_user_online_at(1, 5).unwrap();
    assert_eq!(room.server_user_id, None);
    room.elect_new_server_at(5);
    assert_eq!(room.server_user_id, Some(1));
}

#[test]
fn recency_boundary_is_five_whole_minutes() {
    let a = User::new_at(1, "A".to_string(), addr(1), 0);
    let room = Room::new_at(9, "R".to_string(), a, Protocol::TCP, 0);
    assert!(room.is_ping_recent_at(1, 5 * 60_000 - 1));
    assert!(!room.is_ping_recent_at(1, 5 * 60_000));
    assert!(!room.is_ping_recent_at(7, 0));
    assert!(room.is_ping_recent_at(1, -10 * 60_000));
}

#[test]
fn health_check_leaves_healthy_server_untouched() {
    let a = User::new_at(1, "A".to_string(), addr(1), 0);
    let b = User::new_at(2, "B".to_string(), addr(2), 0);
    let mut room = Room::new_at(9, "R".to_string(), a, Protocol::TCP, 0);
    room.add_user(b).unwrap();
    room.update_ping_at(2, 1, 0);
    assert!(room.check_server_health_at(60_000));
    assert_eq!(room.server_user_id, Some(1));
}

#[test]
fn health_check_reelects_when_server_is_stale() {
    let a = User::new_at(1, "A".to_string(), addr(1), 0);
    let b = User::new_at(2, "B".to_string(), addr(2), 0);
    let mut room = Room::new_at(9, "R".to_string(), a, Protocol::TCP, 0);
    room.add_user(b).unwrap();
    room.update_ping_at(2, 30, 6 * 60_000);
    assert!(!room.check_server_health_at(6 * 60_000));
    assert_eq!(room.server_user_id, Some(2));
}

#[test]
fn health_check_reelects_when_server_is_offline_missing_or_unset() {
    let a = User::new_at(1, "A".to_string(), addr(1), 0);
    let b = User::new_at(2, "B".to_string(), addr(2), 0);
    let mut room = Room::new_at(9, "R".to_string(), a, Protocol::TCP, 0);
    room.add_user(b).unwrap();
    room.users[0].is_online = false;
    assert!(!room.check_server_health_at(0));
    assert_eq!(room.server_user_id, Some(2));
    room.server_user_id = Some(77);
    assert!(!room.check_server_health_at(0));
    assert_eq!(room.server_user_id, Some(2));
    room.server_user_id = None;
    assert!(!room.check_server_health_at(0));
    assert_eq!(room.server_user_id, Some(2));
}

#[test]
fn name_collision_numbers_in_join_order() {
    let a = User::new_at(1, "Alice".to_string(), addr(1), 0);
    let mut room = Room::new_at(9, "R".to_string(), a, Protocol::TCP, 0);
    room.add_user(User::new_at(2, "Alice".to_string(), addr(2), 0)).unwrap();
    room.add_user(User::new_at(3, "Alice".to_string(), addr(3), 0)).unwrap();
    let names: Vec<&str> = room.users.iter().map(|u| u.name.as_str()).collect();
    assert_eq!(names, vec!["Alice", "Alice-2", "Alice-3"]);
}

#[test]
fn name_collision_takes_one_above_the_highest_suffix() {
    let a = User::new_at(1, "Bob".to_string(), addr(1), 0);
    let mut room = Room::new_at(9, "R".to_string(), a, Protocol::TCP, 0);
    room.add_user(User::new_at(2, "Bob-7".to_string(), addr(2), 0)).unwrap();
    room.add_user(User::new_at(3, "Bob-x".to_string(), addr(3), 0)).unwrap();
    room.add_user(User::new_at(4, "Bobby".to_string(), addr(4), 0)).unwrap();
    assert_eq!(room.resolve_name_collision("Bob".to_string()), "Bob-8");
    assert_eq!(room.resolve_name_collision("Carol".to_string()), "Carol");
    assert_eq!(room.resolve_name_collision("Bob-7".to_string()), "Bob-7-2");
    room.add_user(User::new_at(5, "Bob-+12".to_string(), addr(5), 0)).unwrap();
    assert_eq!(room.resolve_name_collision("Bob".to_string()), "Bob-13");
    room.add_user(User::new_at(6, "Bob-007".to_string(), addr(6), 0)).unwrap();
    assert_eq!(room.resolve_name_collision("Bob".to_string()), "Bob-13");
    room.add_user(User::new_at(7, "Bob-0019".to_string(), addr(7), 0)).unwrap();
    assert_eq!(room.resolve_name_collision("Bob".to_string()), "Bob-20");
}

#[test]
fn name_collision_reads_suffixes_of_any_size() {
    let a = User::new_at(1, "A".to_string(), addr(1), 0);
    let mut room = Room::new_at(9, "R".to_string(), a, Protocol::TCP, 0);
    room.add_user(User::new_at(2, "A-4294967295".to_string(), addr(2), 0)).unwrap();
    assert_eq!(room.resolve_name_collision("A".to_string()), "A-4294967296");
    room.add_user(User::new_at(3, "A-4294967296".to_string(), addr(3), 0)).unwrap();
    assert_eq!(room.resolve_name_collision("A".to_string()), "A-4294967297");
    room.add_user(User::new_at(4, "A".to_string(), addr(4), 0)).unwrap();
    assert_eq!(room.users[3].name, "A-4294967297");
    room.add_user(User::new_at(5, "A-18446744073709551615".to_string(), addr(5), 0)).unwrap();
    assert_eq!(room.resolve_name_collision("A".to_string()), "A-18446744073709551616");
    room.add_user(
        User::new_at(6, "A-99999999999999999999999999999999999999999".to_string(), addr(6), 0),
    )
    .unwrap();
    assert_eq!(
        room.resolve_name_collision("A".to_string()),
        "A-100000000000000000000000000000000000000000"
    );
}

#[test]
fn admitted_names_are_never_taken() {
    let a = User::new_at(1, "A".to_string(), addr(1), 0);
    let mut room = Room::new_at(9, "R".to_string(), a, Protocol::TCP, 0);
    for (id, name) in [(2u128, "A-2"), (3, "A"), (4, "A-3"), (5, "A"), (6, "A-2"), (7, "A-2-2")] {
        room.add_user(User::new_at(id, name.to_string(), addr(id as u16), 0)).unwrap();
    }
    let names: Vec<&str> = room.users.iter().map(|u| u.name.as_str()).collect();
    assert_eq!(names, vec!["A", "A-2", "A-3", "A-3-2", "A-4", "A-2-2", "A-2-2-2"]);
    for i in 0..names.len() {
        for j in 0..i {
            assert_ne!(names[i], names[j]);
        }
    }
}

#[test]
fn duplicate_user_is_refused_without_change() {
    let a = User::new_at(1, "A".to_string(), addr(1), 0);
    let mut room = Room::new_at(9, "R".to_string(), a, Protocol::TCP, 0);
    let r = room.add_user(User::new_at(1, "Other".to_string(), addr(2), 0));
    assert_eq!(r, Err(RoomError::DuplicateUser));
    assert_eq!(room.users.len(), 1);
    assert_eq!(room.peer_addresses, vec![addr(1)]);
}

#[test]
fn add_user_notes_new_addresses_once() {
    let a = User::new_at(1, "A".to_string(), addr(1), 0);
    let mut room = Room::new_at(9, "R".to_string(), a, Protocol::TCP, 0);
    room.add_user(User::new_at(2, "B".to_string(), addr(1), 0)).unwrap();
    room.add_user(User::new_at(3, "C".to_string(), addr(3), 0)).unwrap();
    assert_eq!(room.peer_addresses, vec![addr(1), addr(3)]);
}

#[test]
fn remove_user_strips_address_and_reelects() {
    let a = User::new_at(1, "A".to_string(), addr(1), 0);
    let mut room = Room::new_at(9, "R".to_string(), a, Protocol::TCP, 0);
    room.add_user(User::new_at(2, "B".to_string(), addr(2), 0)).unwrap();
    room.add_user(User::new_at(3, "C".to_string(), addr(3), 0)).unwrap();
    room.update_ping_at(3, 5, 0);
    room.remove_user_at(1, 0).unwrap();
    assert_eq!(room.peer_addresses, vec![addr(2), addr(3)]);
    assert_eq!(room.users.len(), 2);
    assert_eq!(room.server_user_id, Some(3));
    room.remove_user_at(42, 0).unwrap();
    assert_eq!(room.users.len(), 2);
    room.remove_user_at(2, 0).unwrap();
    assert_eq!(room.server_user_id, Some(3));
    assert_eq!(room.peer_addresses, vec![addr(3)]);
}

#[test]
fn message_window_drops_exactly_the_oldest() {
    let a = User::new_at(1, "A".to_string(), addr(1), 0);
    let mut room = Room::new_at(9, "R".to_string(), a, Protocol::TCP, 0);
    for i in 0..MAX_MESSAGES {
        room.add_message(line(i as u128, i as i64));
    }
    assert_eq!(room.messages.len(), 1000);
    assert_eq!(room.messages[0].id, 0);
    room.add_message(line(1000, 1000));
    assert_eq!(room.messages.len(), 1000);
    assert_eq!(room.messages[0].id, 1);
    assert_eq!(room.messages[999].id, 1000);
    for i in 0..1000 {
        assert_eq!(room.messages[i].id, i as u128 + 1);
    }
}

#[test]
fn overfull_window_is_cut_back_to_the_newest() {
    let a = User::new_at(1, "A".to_string(), addr(1), 0);
    let mut room = Room::new_at(9, "R".to_string(), a, Protocol::TCP, 0);
    for i in 0..1005u128 {
        room.messages.push(line(i, i as i64));
    }
    assert!(!room.is_well_formed());
    room.add_message(line(1005, 1005));
    assert_eq!(room.messages.len(), 1000);
    assert_eq!(room.messages[0].id, 6);
    assert!(room.is_well_formed());
}

#[test]
fn sync_messages_sorts_by_timestamp_and_keeps_ties_in_order() {
    let a = User::new_at(1, "A".to_string(), addr(1), 0);
    let mut room = Room::new_at(9, "R".to_string(), a, Protocol::TCP, 0);
    room.add_message(line(1, 30));
    room.add_message(line(2, 10));
    room.add_message(line(3, 20));
    room.add_message(line(4, 10));
    room.add_message(line(5, -5));
    room.sync_messages();
    let ids: Vec<u128> = room.messages.iter().map(|m| m.id).collect();
    assert_eq!(ids, vec![5, 2, 4, 3, 1]);
}

#[test]
fn update_ping_marks_online_and_replaces_record() {
    let a = User::new_at(1, "A".to_string(), addr(1), 0);
    let mut room = Room::new_at(9, "R".to_string(), a, Protocol::TCP, 0);
    room.users[0].is_online = false;
    room.update_ping_at(1, 40, 77);
    room.update_ping_at(5, 9, 78);
    room.update_ping_at(1, 41, 79);
    assert!(room.users[0].is_online);
    assert_eq!(room.users[0].last_seen, 79);
    assert_eq!(
        room.ping_measurements,
        vec![PingRecord { user_id: 1, ping_ms: 41 }, PingRecord { user_id: 5, ping_ms: 9 }]
    );
}

#[test]
fn cleanup_marks_stale_members_and_prunes_records() {
    let a = User::new_at(1, "A".to_string(), addr(1), 0);
    let b = User::new_at(2, "B".to_string(), addr(2), 8 * 60_000);
    let c = User::new_at(3, "C".to_string(), addr(3), 7 * 60_000);
    let mut room = Room::new_at(9, "R".to_string(), a, Protocol::TCP, 0);
    room.add_user(b).unwrap();
    room.add_user(c).unwrap();
    room.ping_measurements.push(PingRecord { user_id: 1, ping_ms: 10 });
    room.ping_measurements.push(PingRecord { user_id: 2, ping_ms: 20 });
    room.ping_measurements.push(PingRecord { user_id: 3, ping_ms: 30 });
    room.ping_measurements.push(PingRecord { user_id: 4, ping_ms: 40 });
    room.users[2].is_online = false;
    room.cleanup_offline_users_at(5, 10 * 60_000);
    // User 1 was silent for ten minutes: offline, and its record is dropped.
    assert!(!room.users[0].is_online);
    // User 2 was seen two minutes ago: untouched.
    assert!(room.users[1].is_online);
    // User 3 was offline already, but seen three minutes ago: record kept.
    assert_eq!(
        room.ping_measurements,
        vec![PingRecord { user_id: 2, ping_ms: 20 }, PingRecord { user_id: 3, ping_ms: 30 }]
    );
    assert_eq!(room.server_user_id, Some(2));
}

#[test]
fn cleanup_threshold_is_exclusive() {
    let a = User::new_at(1, "A".to_string(), addr(1), 0);
    let mut room = Room::new_at(9, "R".to_string(), a, Protocol::TCP, 0);
    room.cleanup_offline_users_at(5, 5 * 60_000);
    assert!(room.users[0].is_online);
    assert_eq!(room.server_user_id, Some(1));
    room.cleanup_offline_users_at(5, 5 * 60_000 + 1);
    assert!(!room.users[0].is_online);
    assert_eq!(room.server_user_id, None);
}

#[test]
fn ordered_peer_list_puts_unmeasured_last() {
    let a = User::new_at(1, "A".to_string(), addr(1), 0);
    let mut room = Room::new_at(9, "R".to_string(), a, Protocol::TCP, 0);
    room.add_user(User::new_at(2, "B".to_string(), addr(2), 0)).unwrap();
    room.add_user(User::new_at(3, "C".to_string(), addr(3), 0)).unwrap();
    room.add_user(User::new_at(4, "D".to_string(), addr(4), 0)).unwrap();
    room.update_ping_at(3, 5, 0);
    room.update_ping_at(4, 70, 0);
    room.update_ping_at(1, 70, 0);
    assert_eq!(room.get_ordered_peer_list(), vec![addr(3), addr(1), addr(4), addr(2)]);
}

#[test]
fn new_room_has_creator_as_server() {
    let a = User::new("A".to_string(), addr(1));
    let id = a.id;
    let room = Room::new("R".to_string(), a, Protocol::WebRTC);
    assert_eq!(room.creator_id, id);
    assert_eq!(room.server_user_id, Some(id));
    assert_eq!(room.call_server_id, Some(id));
    assert!(room.is_user_server(id));
    assert_eq!(room.get_server_user().unwrap().id, id);
    assert_eq!(room.peer_addresses, vec![addr(1)]);
    assert_eq!(room.protocol, Protocol::WebRTC);
    assert!(room.messages.is_empty());
    assert!(!room.is_call_active);
    assert!(room.is_well_formed());
    assert_ne!(room.id, 0);
    assert_eq!((room.id >> 76) & 0xf, 4);
    assert_eq!((room.id >> 62) & 0x3, 2);
}

#[test]
fn switch_protocol_sets_the_protocol() {
    let a = User::new_at(1, "A".to_string(), addr(1), 0);
    let mut room = Room::new_at(9, "R".to_string(), a, Protocol::TCP, 0);
    room.switch_protocol(Protocol::WebSocket);
    assert_eq!(room.protocol, Protocol::WebSocket);
}

#[test]
fn well_formedness_detects_duplicates() {
    let a = User::new_at(1, "A".to_string(), addr(1), 0);
    let mut room = Room::new_at(9, "R".to_string(), a, Protocol::TCP, 0);
    assert!(room.is_well_formed());
    room.users.push(User::new_at(1, "B".to_string(), addr(2), 0));
    assert!(!room.is_well_formed());
    room.users.pop();
    room.ping_measurements.push(PingRecord { user_id: 1, ping_ms: 1 });
    room.ping_measurements.push(PingRecord { user_id: 1, ping_ms: 2 });
    assert!(!room.is_well_formed());
}

#[test]
fn saved_rooms_are_the_names_that_spell_identifiers() {
    let stems = vec![
        "4050bac2-dec6-44e5-89bc-329d279a8e68".to_string(),
        "notes".to_string(),
        "550e8400e29b41d4a716446655440000".to_string(),
    ];
    assert_eq!(
        Room::list_saved_rooms(&stems),
        vec![0x4050bac2dec644e589bc329d279a8e68u128, 0x550e8400e29b41d4a716446655440000u128]
    );
    let a = User::new_at(1, "A".to_string(), addr(1), 0);
    let room = Room::new_at(0x4050bac2dec644e589bc329d279a8e68, "R".to_string(), a, Protocol::TCP, 0);
    assert_eq!(room.file_name(), "4050bac2-dec6-44e5-89bc-329d279a8e68.json");
}

#[test]
fn clock_driven_operations_use_the_current_time() {
    let a = User::new("A".to_string(), addr(1));
    let b = User::new("B".to_string(), addr(2));
    let (a_id, b_id) = (a.id, b.id);
    let mut room = Room::new("R".to_string(), a, Protocol::TCP);
    room.add_user(b).unwrap();
    room.update_ping(b_id, 12);
    room.elect_new_server();
    assert_eq!(room.server_user_id, Some(b_id));
    room.mark_user_offline(b_id).unwrap();
    assert_eq!(room.server_user_id, Some(a_id));
    let before = now();
    room.mark_user_online(b_id).unwrap();
    assert!(member(&room, b_id).is_online);
    assert!(member(&room, b_id).last_seen >= before);
    assert_eq!(room.server_user_id, Some(a_id));
    room.remove_user(a_id).unwrap();
    assert_eq!(room.server_user_id, Some(b_id));
    assert_eq!(room.peer_addresses, vec![addr(2)]);
    assert!(room.created_at <= now());
}

#[test]
fn cleanup_marks_a_member_silent_for_five_and_a_half_minutes() {
    let a = User::new_at(1, "A".to_string(), addr(1), 0);
    let mut room = Room::new_at(9, "R".to_string(), a, Protocol::TCP, 0);
    room.add_user(User::new_at(2, "B".to_string(), addr(2), 30_000)).unwrap();
    room.cleanup_offline_users_at(5, 5 * 60_000 + 30_000);
    assert!(!room.users[0].is_online);
    assert!(room.users[1].is_online);
    assert_eq!(room.server_user_id, Some(2));
}

#[test]
fn cleanup_keeps_an_offline_members_record_up_to_five_minutes() {
    let a = User::new_at(1, "A".to_string(), addr(1), 0);
    let mut room = Room::new_at(9, "R".to_string(), a, Protocol::TCP, 0);
    room.ping_measurements.push(PingRecord { user_id: 1, ping_ms: 10 });
    room.users[0].is_online = false;
    room.cleanup_offline_users_at(5, 300_000);
    assert_eq!(room.ping_measurements, vec![PingRecord { user_id: 1, ping_ms: 10 }]);
    room.cleanup_offline_users_at(5, 300_001);
    assert!(room.ping_measurements.is_empty());
}
