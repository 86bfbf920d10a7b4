use chat_relay::chat::{joined_notice, left_notice, relayed_line, SendMessage, User, UserTmp};

#[test]
fn new_user_keeps_name_and_color() {
    let u = User::new_user("alice".to_string(), Some("0x00ff00".to_string()));
    assert_eq!(u.name, "alice");
    assert_eq!(u.color, "0x00ff00");
}

#[test]
fn with_uuid_keeps_what_it_is_given() {
    let id = 0xa1a2a3a4_b1b2_c1c2_d1d2_d3d4d5d6d7d8_u128;
    let u = User::with_uuid(id, "alice".to_string(), Some(String::new()));
    assert_eq!(u.uuid, id);
    assert_eq!(u.name, "alice");
    assert_eq!(u.color, "");
    let v = User::with_uuid(0, String::new(), None);
    assert_eq!(v.uuid, 0);
    assert_eq!(v.name, "");
    assert_eq!(v.color, "0xff0000");
    assert_eq!(uuid::Uuid::from_u128(u.uuid).to_string(), "a1a2a3a4-b1b2-c1c2-d1d2-d3d4d5d6d7d8");
}

#[test]
fn new_user_keeps_an_empty_color() {
    let u = User::new_user("bob".to_string(), Some(String::new()));
    assert_eq!(u.name, "bob");
    assert_eq!(u.color, "");
}

#[test]
fn new_user_without_color_is_red() {
    let u = User::new_user("bob".to_string(), None);
    assert_eq!(u.name, "bob");
    assert_eq!(u.color, "0xff0000");
}

#[test]
fn default_user_is_called_default() {
    let u = User::default();
    assert_eq!(u.name, "default");
    assert_eq!(u.color, "0xff0000");
}

#[test]
fn user_ids_are_random_uuids() {
    for _ in 0..32 {
        let u = User::new_user(String::new(), None);
        assert_eq!((u.uuid >> 76) & 0xf, 4);
        assert_eq!((u.uuid >> 62) & 0x3, 2);
        let id = uuid::Uuid::from_u128(u.uuid);
        assert_eq!(id.get_version_num(), 4);
        assert_eq!(id.get_variant(), uuid::Variant::RFC4122);
    }
    let d = User::default();
    assert_eq!(uuid::Uuid::from_u128(d.uuid).get_version_num(), 4);
}

#[test]
fn user_ids_are_fresh() {
    let a = User::default();
    let b = User::default();
    assert_ne!(a.uuid, b.uuid);
    assert_ne!(a, b);
}

#[test]
fn user_tmp_reads_the_name() {
    assert_eq!(UserTmp::from_frame("{\"name\":\"alice\"}").name, "alice");
    assert_eq!(UserTmp::from_frame("{\"name\":\"\"}").name, "");
    assert_eq!(UserTmp::from_frame("{\"color\":\"red\",\"name\":\"bob\"}").name, "bob");
}

#[test]
fn user_tmp_falls_back_to_default() {
    assert_eq!(UserTmp::from_frame("nonsense").name, "default");
    assert_eq!(UserTmp::from_frame("{}").name, "default");
    assert_eq!(UserTmp::from_frame("{\"name\":7}").name, "default");
    assert_eq!(UserTmp::from_frame("{\"Name\":\"alice\"}").name, "default");
    assert_eq!(UserTmp::from_members(None).name, "default");
    assert_eq!(UserTmp::from_members(Some(vec![])).name, "default");
}

#[test]
fn user_tmp_from_members_takes_the_last_name() {
    let members = vec![
        ("name".to_string(), Some("first".to_string())),
        ("other".to_string(), Some("x".to_string())),
        ("name".to_string(), Some("last".to_string())),
    ];
    assert_eq!(UserTmp::from_members(Some(members)).name, "last");
    let members = vec![
        ("name".to_string(), Some("first".to_string())),
        ("name".to_string(), None),
    ];
    assert_eq!(UserTmp::from_members(Some(members)).name, "default");
}

#[test]
fn send_message_needs_sender_and_content() {
    let m = SendMessage::from_frame("{\"sender\":\"alice\",\"content\":\"hi\"}").unwrap();
    assert_eq!(m.sender, "alice");
    assert_eq!(m.content, "hi");
    let m = SendMessage::from_frame("{\"content\":\"hi\",\"sender\":\"alice\",\"x\":1}").unwrap();
    assert_eq!(m.sender, "alice");
    assert!(SendMessage::from_frame("{\"sender\":\"alice\"}").is_none());
    assert!(SendMessage::from_frame("{\"content\":\"hi\"}").is_none());
    assert!(SendMessage::from_frame("{\"sender\":1,\"content\":\"hi\"}").is_none());
    assert!(SendMessage::from_frame("[]").is_none());
    assert!(SendMessage::from_frame("").is_none());
    assert!(SendMessage::from_members(None).is_none());
}

#[test]
fn notices_are_plain_sentences() {
    assert_eq!(joined_notice("alice"), "new user joined - alice");
    assert_eq!(joined_notice(""), "new user joined - ");
    assert_eq!(left_notice("alice"), "alice left");
    assert_eq!(relayed_line("alice", "{\"sender\":\"alice\",\"content\":\"hi\"}"),
        "alice : {\"sender\":\"alice\",\"content\":\"hi\"}");
    assert_eq!(relayed_line("", ""), " : ");
}
