use chat_relay::codec::DecodeError;
use chat_relay::envelope::SocketMessage;
use chat_relay::registry::Registry;
use chat_relay::session::{forward, BusEvent, Fault, Relay, Session};

fn bound(registry: &mut Registry, name: &str) -> Session {
    let mut session = Session::new();
    let out = session.react(registry, Ok(SocketMessage::new("join", name, name)));
    assert!(out.reply.is_none());
    assert!(session.is_bound());
    session
}

fn bad_request(reason: &str) -> SocketMessage {
    SocketMessage::new("bad_request", "SERVER", reason)
}

#[test]
fn a_session_is_bound_exactly_when_its_name_is_not_empty() {
    let mut r = Registry::new();
    let mut s = Session::new();
    assert_eq!(s.is_bound(), !s.bound_name().is_empty());
    s.react(&mut r, Ok(SocketMessage::new("join", "", "")));
    assert_eq!(s.is_bound(), !s.bound_name().is_empty());
    let mut s = bound(&mut r, "alice");
    assert!(s.is_bound() && !s.bound_name().is_empty());
    s.teardown(&mut r);
    assert!(!s.is_bound() && s.bound_name().is_empty());
}

#[test]
fn a_new_session_is_unbound() {
    let s = Session::new();
    assert!(!s.is_bound());
    assert!(!s.has_ended());
    assert_eq!(s.bound_name(), "");
}

#[test]
fn join_binds_and_publishes_join_then_roster() {
    let mut r = Registry::new();
    let mut s = Session::new();
    let out = s.react(&mut r, Ok(SocketMessage::new("join", "alice", "alice")));
    assert_eq!(
        out.publish,
        vec![
            SocketMessage::new("join", "alice", "alice"),
            SocketMessage::new("userlist", "[Host]", "alice"),
        ]
    );
    assert_eq!(out.reply, None);
    assert!(!out.close);
    assert!(s.is_bound());
    assert_eq!(s.bound_name(), "alice");
    assert_eq!(r.snapshot(), vec!["alice"]);
}

#[test]
fn join_takes_the_name_from_content() {
    let mut r = Registry::new();
    let mut s = Session::new();
    let out = s.react(&mut r, Ok(SocketMessage::new("join", "someone", "alice")));
    assert_eq!(s.bound_name(), "alice");
    assert_eq!(out.publish[0], SocketMessage::new("join", "someone", "alice"));
    assert_eq!(r.snapshot(), vec!["alice"]);
}

#[test]
fn join_binds_the_sanitized_name() {
    let mut r = Registry::new();
    let mut s = Session::new();
    let out = s.react(&mut r, Ok(SocketMessage::new("join", "<al>", "<al>")));
    assert_eq!(s.bound_name(), "&lt;al&gt;");
    assert_eq!(r.snapshot(), vec!["&lt;al&gt;"]);
    assert_eq!(
        out.publish,
        vec![
            SocketMessage::new("join", "&lt;al&gt;", "&lt;al&gt;"),
            SocketMessage::new("userlist", "[Host]", "&lt;al&gt;"),
        ]
    );
    let out = s.react(&mut r, Ok(SocketMessage::new("message", "<al>", "hi")));
    assert_eq!(out.publish, vec![SocketMessage::new("message", "&lt;al&gt;", "hi")]);
}

#[test]
fn second_join_lists_both_names() {
    let mut r = Registry::new();
    let _a = bound(&mut r, "alice");
    let mut b = Session::new();
    let out = b.react(&mut r, Ok(SocketMessage::new("join", "bob", "bob")));
    assert_eq!(out.publish[1], SocketMessage::new("userlist", "[Host]", "alice\nbob"));
}

#[test]
fn join_for_a_taken_name_ends_the_session() {
    let mut r = Registry::new();
    let _a = bound(&mut r, "alice");
    let mut b = Session::new();
    let out = b.react(&mut r, Ok(SocketMessage::new("join", "alice", "alice")));
    assert!(out.publish.is_empty());
    assert_eq!(
        out.reply,
        Some(SocketMessage::new("invalid_username", "SERVER", "username already in use"))
    );
    assert!(out.close);
    assert!(b.has_ended());
    assert!(!b.is_bound());
    assert_eq!(b.bound_name(), "");
    assert_eq!(r.snapshot(), vec!["alice"]);
}

#[test]
fn join_for_the_empty_name_ends_the_session() {
    let mut r = Registry::new();
    let mut s = Session::new();
    let out = s.react(&mut r, Ok(SocketMessage::new("join", "", "")));
    assert!(out.publish.is_empty());
    assert_eq!(
        out.reply,
        Some(SocketMessage::new("invalid_username", "SERVER", "username must not be empty"))
    );
    assert!(out.close);
    assert!(s.has_ended());
    assert!(r.is_empty());
}

#[test]
fn a_second_join_is_a_bad_request() {
    let mut r = Registry::new();
    let mut s = bound(&mut r, "alice");
    let out = s.react(&mut r, Ok(SocketMessage::new("join", "bob", "bob")));
    assert!(out.publish.is_empty());
    assert_eq!(out.reply, Some(bad_request("already joined")));
    assert!(!out.close);
    assert_eq!(s.bound_name(), "alice");
    assert_eq!(r.snapshot(), vec!["alice"]);
}

#[test]
fn message_is_published_sanitized() {
    let mut r = Registry::new();
    let mut s = bound(&mut r, "alice");
    let out = s.react(&mut r, Ok(SocketMessage::new("message", "alice", "hi <b>")));
    assert_eq!(out.publish, vec![SocketMessage::new("message", "alice", "hi &lt;b&gt;")]);
    assert_eq!(out.reply, None);
    assert!(!out.close);
}

#[test]
fn message_under_another_name_is_refused() {
    let mut r = Registry::new();
    let mut s = bound(&mut r, "alice");
    let _m = bound(&mut r, "mallory");
    let out = s.react(&mut r, Ok(SocketMessage::new("message", "mallory", "x")));
    assert!(out.publish.is_empty());
    assert_eq!(out.reply, Some(bad_request("Username credentials dont match")));
    assert!(!out.close);
    assert!(s.is_bound());
}

#[test]
fn message_before_join_is_refused() {
    let mut r = Registry::new();
    let mut s = Session::new();
    let out = s.react(&mut r, Ok(SocketMessage::new("message", "", "x")));
    assert!(out.publish.is_empty());
    assert_eq!(out.reply, Some(bad_request("join before sending messages")));
    assert!(!out.close);
    assert!(!s.has_ended());
    let out = s.react(&mut r, Ok(SocketMessage::new("message", "alice", "x")));
    assert_eq!(out.reply, Some(bad_request("join before sending messages")));
    let out = s.react(&mut r, Ok(SocketMessage::new("join", "alice", "alice")));
    assert_eq!(out.publish.len(), 2);
}

#[test]
fn heartbeat_is_silent_in_every_phase() {
    let mut r = Registry::new();
    let mut s = Session::new();
    let out = s.react(&mut r, Ok(SocketMessage::new("heartbeat", "x", "<y>")));
    assert!(out.publish.is_empty() && out.reply.is_none() && !out.close);
    assert!(!s.is_bound() && !s.has_ended());
    let mut s = bound(&mut r, "alice");
    let out = s.react(&mut r, Ok(SocketMessage::new("heartbeat", "mallory", "")));
    assert!(out.publish.is_empty() && out.reply.is_none() && !out.close);
    assert_eq!(s.bound_name(), "alice");
    assert_eq!(r.snapshot(), vec!["alice"]);
}

#[test]
fn heartbeat_frame_is_silent() {
    let mut r = Registry::new();
    let mut s = bound(&mut r, "alice");
    let out = s.on_frame(&mut r, "{\"msg_type\":\"heartbeat\",\"sender\":\"alice\",\"content\":\"\"}");
    assert!(out.publish.is_empty() && out.reply.is_none() && !out.close);
}

#[test]
fn leave_from_a_client_is_ignored() {
    let mut r = Registry::new();
    let mut s = bound(&mut r, "alice");
    let out = s.react(&mut r, Ok(SocketMessage::new("leave", "alice", "User left")));
    assert!(out.publish.is_empty() && out.reply.is_none() && !out.close);
    assert!(s.is_bound());
    assert_eq!(r.snapshot(), vec!["alice"]);
    let out = s.react(&mut r, Ok(SocketMessage::new("leave", "bob", "User left")));
    assert!(out.publish.is_empty() && out.reply.is_none());
}

#[test]
fn server_tags_and_unknown_tags_are_bad_requests() {
    let mut r = Registry::new();
    let mut s = bound(&mut r, "alice");
    for tag in ["userlist", "invalid_username", "bad_request", "whisper", "", "JOIN"] {
        let out = s.react(&mut r, Ok(SocketMessage::new(tag, "alice", "x")));
        assert!(out.publish.is_empty());
        assert_eq!(out.reply, Some(bad_request("unsupported message type")));
        assert!(!out.close);
    }
    let mut u = Session::new();
    let out = u.react(&mut r, Ok(SocketMessage::new("whisper", "alice", "x")));
    assert_eq!(out.reply, Some(bad_request("unsupported message type")));
    assert!(!u.has_ended());
}

#[test]
fn a_frame_that_does_not_decode_is_a_bad_request() {
    let mut r = Registry::new();
    let mut s = bound(&mut r, "alice");
    let cases = [
        (DecodeError::Malformed, "frame is not a JSON object"),
        (DecodeError::MissingField, "frame lacks a required field"),
        (DecodeError::WrongType, "frame holds a field that is not a string"),
        (DecodeError::ExtraField, "frame holds an unknown field"),
    ];
    for (error, reason) in cases {
        let out = s.react(&mut r, Err(error));
        assert!(out.publish.is_empty());
        assert_eq!(out.reply, Some(bad_request(reason)));
        assert!(!out.close);
        assert!(s.is_bound());
    }
}

#[test]
fn on_frame_decodes_and_reacts() {
    let mut r = Registry::new();
    let mut s = Session::new();
    let out = s.on_frame(&mut r, "garbage");
    assert_eq!(out.reply, Some(bad_request("frame is not a JSON object")));
    let out = s.on_frame(&mut r, "{\"msg_type\":\"join\",\"sender\":\"alice\"}");
    assert_eq!(out.reply, Some(bad_request("frame lacks a required field")));
    let out = s.on_frame(&mut r, "{\"msg_type\":\"join\",\"sender\":\"alice\",\"content\":7}");
    assert_eq!(out.reply, Some(bad_request("frame holds a field that is not a string")));
    let out = s.on_frame(
        &mut r,
        "{\"msg_type\":\"join\",\"sender\":\"alice\",\"content\":\"alice\",\"x\":1}",
    );
    assert_eq!(out.reply, Some(bad_request("frame holds an unknown field")));
    assert!(!s.is_bound());
    let out = s.on_frame(&mut r, "{\"msg_type\":\"join\",\"sender\":\"alice\",\"content\":\"alice\"}");
    assert_eq!(out.publish.len(), 2);
    assert_eq!(s.bound_name(), "alice");
}

#[test]
fn teardown_of_a_bound_session_releases_and_tells_the_room() {
    let mut r = Registry::new();
    let mut a = bound(&mut r, "alice");
    let _b = bound(&mut r, "bob");
    let out = a.teardown(&mut r);
    assert_eq!(
        out.publish,
        vec![
            SocketMessage::new("leave", "alice", "User left"),
            SocketMessage::new("userlist", "[Host]", "bob"),
        ]
    );
    assert_eq!(out.reply, None);
    assert!(out.close);
    assert!(a.has_ended());
    assert!(!a.is_bound());
    assert_eq!(a.bound_name(), "");
    assert_eq!(r.snapshot(), vec!["bob"]);
}

#[test]
fn teardown_of_an_unbound_session_is_quiet() {
    let mut r = Registry::new();
    let _a = bound(&mut r, "alice");
    let mut s = Session::new();
    let out = s.teardown(&mut r);
    assert!(out.publish.is_empty());
    assert_eq!(out.reply, None);
    assert!(out.close);
    assert!(s.has_ended());
    assert_eq!(r.snapshot(), vec!["alice"]);
}

#[test]
fn teardown_after_a_refused_join_leaves_the_name_to_its_holder() {
    let mut r = Registry::new();
    let _a = bound(&mut r, "alice");
    let mut b = Session::new();
    b.react(&mut r, Ok(SocketMessage::new("join", "alice", "alice")));
    let out = b.teardown(&mut r);
    assert!(out.publish.is_empty());
    assert_eq!(r.snapshot(), vec!["alice"]);
}

#[test]
fn teardown_twice_is_teardown_once() {
    let mut r = Registry::new();
    let mut a = bound(&mut r, "alice");
    a.teardown(&mut r);
    let mut again = bound(&mut r, "alice");
    let out = a.teardown(&mut r);
    assert!(out.publish.is_empty());
    assert!(out.close);
    assert_eq!(r.snapshot(), vec!["alice"]);
    assert!(again.is_bound());
    again.teardown(&mut r);
    assert!(r.is_empty());
}

#[test]
fn an_ended_session_ignores_every_frame() {
    let mut r = Registry::new();
    let mut a = bound(&mut r, "alice");
    a.teardown(&mut r);
    for m in [
        SocketMessage::new("join", "alice", "alice"),
        SocketMessage::new("message", "alice", "x"),
        SocketMessage::new("whisper", "alice", "x"),
    ] {
        let out = a.react(&mut r, Ok(m));
        assert!(out.publish.is_empty());
        assert_eq!(out.reply, None);
        assert!(out.close);
    }
    let out = a.react(&mut r, Err(DecodeError::Malformed));
    assert!(out.publish.is_empty() && out.reply.is_none() && out.close);
    assert!(r.is_empty());
    assert!(a.has_ended());
}

#[test]
fn a_name_is_free_again_after_its_holder_left() {
    let mut r = Registry::new();
    let mut a = bound(&mut r, "alice");
    a.teardown(&mut r);
    let b = bound(&mut r, "alice");
    assert_eq!(b.bound_name(), "alice");
}

#[test]
fn faults_tell_their_tag_reason_and_end() {
    let cases = [
        (Fault::Decode(DecodeError::Malformed), "bad_request", "frame is not a JSON object", false),
        (Fault::AuthorshipMismatch, "bad_request", "Username credentials dont match", false),
        (Fault::NameTaken, "invalid_username", "username already in use", true),
        (Fault::NameEmpty, "invalid_username", "username must not be empty", true),
        (Fault::MessageBeforeJoin, "bad_request", "join before sending messages", false),
        (Fault::DuplicateJoin, "bad_request", "already joined", false),
        (Fault::UnexpectedTag, "bad_request", "unsupported message type", false),
    ];
    for (fault, tag, reason, ends) in cases {
        assert_eq!(fault.reason(), reason);
        assert_eq!(fault.ends_session(), ends);
        assert_eq!(fault.reply(), SocketMessage::new(tag, "SERVER", reason));
    }
}

#[test]
fn the_writer_forwards_frames_as_they_are() {
    let frame = "{\"msg_type\":\"leave\",\"sender\":\"alice\",\"content\":\"User left\"}";
    match forward(BusEvent::Item(frame.to_string())) {
        Relay::Forward(out) => assert_eq!(out, frame),
        Relay::Stop => panic!("a frame must be forwarded"),
    }
    match forward(BusEvent::Item(String::new())) {
        Relay::Forward(out) => assert_eq!(out, ""),
        Relay::Stop => panic!("a frame must be forwarded"),
    }
}

#[test]
fn the_writer_stops_on_overrun_and_on_the_end_of_the_room() {
    assert!(matches!(forward(BusEvent::Lagged), Relay::Stop));
    assert!(matches!(forward(BusEvent::Closed), Relay::Stop));
}
