use shortgap::addr::PeerAddr;
use shortgap::user::User;

#[test]
fn new_user_is_online_and_out_of_call() {
    let user = User::new("Alice".to_string(), PeerAddr::v4(127, 0, 0, 1, 8080));
    assert_eq!(user.name, "Alice");
    assert!(user.is_online);
    assert!(!user.is_in_call);
    assert!(user.avatar.is_none());
    assert!(user.audio_input_device.is_none());
    assert!(user.audio_output_device.is_none());
    assert_ne!(user.id, 0);
    assert_eq!(user.id & 0xF000_C000_0000_0000_0000, 0x4000_8000_0000_0000_0000);
    assert_eq!(user.address, PeerAddr::V4 { ip: 0x7f00_0001, port: 8080 });
    assert_eq!(user.address.port(), 8080);
}

#[test]
fn two_new_users_have_different_identifiers() {
    let a = User::new("A".to_string(), PeerAddr::v4(10, 0, 0, 1, 1));
    let b = User::new("A".to_string(), PeerAddr::v4(10, 0, 0, 1, 1));
    assert_ne!(a.id, b.id);
}

#[test]
fn call_membership_refreshes_last_seen() {
    let mut user = User::new_at(5, "A".to_string(), PeerAddr::v4(10, 0, 0, 1, 1), 100);
    user.join_call_at(200);
    assert!(user.is_in_call);
    assert_eq!(user.last_seen, 200);
    user.leave_call_at(300);
    assert!(!user.is_in_call);
    assert_eq!(user.last_seen, 300);
    user.touch(400);
    assert_eq!(user.last_seen, 400);
    let before = chrono::Utc::now().timestamp_millis();
    user.update_last_seen();
    assert!(user.last_seen >= before);
    user.join_call();
    assert!(user.is_in_call);
    user.leave_call();
    assert!(!user.is_in_call);
}

#[test]
fn settings_are_kept_as_given() {
    let mut user = User::new_at(5, "A".to_string(), PeerAddr::v4(10, 0, 0, 1, 1), 100);
    user.set_avatar(Some("cat.png".to_string()));
    user.set_audio_devices(Some("mic".to_string()), None);
    assert_eq!(user.avatar.as_deref(), Some("cat.png"));
    assert_eq!(user.audio_input_device.as_deref(), Some("mic"));
    assert_eq!(user.audio_output_device, None);
    let copy = user.clone();
    assert_eq!(copy.id, 5);
    assert_eq!(copy.name, "A");
    assert_eq!(copy.avatar.as_deref(), Some("cat.png"));
    assert_eq!(copy.last_seen, 100);
}
