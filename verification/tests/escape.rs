use chat_relay::envelope::{generate_reply, SocketMessage, Tag};
use chat_relay::escape::sanitize_text;
use chat_relay::text::{owned, text_eq};

#[test]
fn sanitize_replaces_the_four_characters() {
    assert_eq!(sanitize_text("<"), "&lt;");
    assert_eq!(sanitize_text(">"), "&gt;");
    assert_eq!(sanitize_text("\""), "&quot;");
    assert_eq!(sanitize_text("'"), "&#039;");
}

#[test]
fn sanitize_keeps_everything_else() {
    assert_eq!(sanitize_text(""), "");
    assert_eq!(sanitize_text("plain text & more; \n\t\u{e9}\u{1f600}"), "plain text & more; \n\t\u{e9}\u{1f600}");
}

#[test]
fn sanitize_escapes_in_place() {
    assert_eq!(sanitize_text("hi <b>"), "hi &lt;b&gt;");
    assert_eq!(
        sanitize_text("<a href='x'>\"q\"</a>"),
        "&lt;a href=&#039;x&#039;&gt;&quot;q&quot;&lt;/a&gt;"
    );
}

#[test]
fn sanitize_agrees_with_four_replacements_in_a_row() {
    let samples = ["", "<<>>", "a'b\"c<d>e", "&lt;<&gt;>", "''''", "no markup at all"];
    for s in samples {
        let expected = s
            .replace("<", "&lt;")
            .replace(">", "&gt;")
            .replace("\"", "&quot;")
            .replace("'", "&#039;");
        assert_eq!(sanitize_text(s), expected);
    }
}

#[test]
fn sanitize_twice_is_sanitize_once() {
    let samples = ["hi <b>", "\"'<>", "&lt;", "a & b", "<<script>>"];
    for s in samples {
        let once = sanitize_text(s);
        assert_eq!(sanitize_text(&once), once);
    }
}

#[test]
fn sanitized_text_holds_no_markup() {
    let out = sanitize_text("<a href=\"x\" title='y'>z</a>");
    assert!(!out.contains('<'));
    assert!(!out.contains('>'));
    assert!(!out.contains('"'));
    assert!(!out.contains('\''));
}

#[test]
fn clean_content_sanitizes_sender_and_content_only() {
    let mut m = SocketMessage::new("<type>", "<al>", "it's");
    m.clean_content();
    assert_eq!(m, SocketMessage::new("<type>", "&lt;al&gt;", "it&#039;s"));
}

#[test]
fn clean_content_is_idempotent() {
    let mut m = SocketMessage::new("message", "a\"b", "<i>x</i>");
    m.clean_content();
    let once = m.clone();
    m.clean_content();
    assert_eq!(m, once);
}

#[test]
fn generate_reply_is_from_the_server() {
    let m = generate_reply("invalid_username", "username already in use");
    assert_eq!(m.msg_type, "invalid_username");
    assert_eq!(m.sender, "SERVER");
    assert_eq!(m.content, "username already in use");
}

#[test]
fn tags_parse_back_from_their_names() {
    let all = [
        (Tag::Join, "join"),
        (Tag::Leave, "leave"),
        (Tag::Message, "message"),
        (Tag::Heartbeat, "heartbeat"),
        (Tag::Userlist, "userlist"),
        (Tag::InvalidUsername, "invalid_username"),
        (Tag::BadRequest, "bad_request"),
    ];
    for (tag, name) in all {
        assert_eq!(tag.as_str(), name);
        assert_eq!(Tag::parse(name), Some(tag));
    }
}

#[test]
fn unknown_tags_do_not_parse() {
    assert_eq!(Tag::parse(""), None);
    assert_eq!(Tag::parse("Join"), None);
    assert_eq!(Tag::parse("join "), None);
    assert_eq!(Tag::parse("joi"), None);
    assert_eq!(Tag::parse("whisper"), None);
}

#[test]
fn message_tag_is_read_from_msg_type() {
    assert_eq!(SocketMessage::new("heartbeat", "x", "y").tag(), Some(Tag::Heartbeat));
    assert_eq!(SocketMessage::new("nothing", "x", "y").tag(), None);
}

#[test]
fn text_eq_compares_characters() {
    assert!(text_eq("", ""));
    assert!(text_eq("alice", "alice"));
    assert!(text_eq("\u{e9}t\u{e9}", "\u{e9}t\u{e9}"));
    assert!(!text_eq("alice", "Alice"));
    assert!(!text_eq("alice", "alic"));
    assert!(!text_eq("", "a"));
    assert!(!text_eq("\u{e9}", "e"));
}

#[test]
fn owned_copies_the_text() {
    assert_eq!(owned("abc"), "abc");
    assert_eq!(owned(""), "");
}
