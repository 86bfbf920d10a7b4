//! The envelope that travels in every frame, and the closed set of its tags.

use vstd::prelude::*;
use crate::escape::{is_clean, sanitize, sanitize_text};
use crate::text::{owned, text_eq};

verus! {

/// The kinds of envelope that the protocol knows.
#[derive(Clone, Copy, Debug, PartialEq, Eq, Structural)]
pub enum Tag {
    Join,
    Leave,
    Message,
    Heartbeat,
    Userlist,
    InvalidUsername,
    BadRequest,
}

impl Tag {
    /// The text that stands for this tag in `msg_type`.
    pub open spec fn name(self) -> Seq<char> {
        match self {
            Tag::Join => "join"@,
            Tag::Leave => "leave"@,
            Tag::Message => "message"@,
            Tag::Heartbeat => "heartbeat"@,
            Tag::Userlist => "userlist"@,
            Tag::InvalidUsername => "invalid_username"@,
            Tag::BadRequest => "bad_request"@,
        }
    }

    /// The tag that `msg_type` names, if it names one. The match is exact and
    /// case-sensitive.
    pub open spec fn spec_parse(msg_type: Seq<char>) -> Option<Tag> {
        if msg_type == Tag::Join.name() {
            Some(Tag::Join)
        } else if msg_type == Tag::Leave.name() {
            Some(Tag::Leave)
        } else if msg_type == Tag::Message.name() {
            Some(Tag::Message)
        } else if msg_type == Tag::Heartbeat.name() {
            Some(Tag::Heartbeat)
        } else if msg_type == Tag::Userlist.name() {
            Some(Tag::Userlist)
        } else if msg_type == Tag::InvalidUsername.name() {
            Some(Tag::InvalidUsername)
        } else if msg_type == Tag::BadRequest.name() {
            Some(Tag::BadRequest)
        } else {
            None
        }
    }

    /// The text that stands for this tag in `msg_type`.
    pub fn as_str(self) -> (s: &'static str)
        ensures
            s@ == self.name(),
    {
        match self {
            Tag::Join => "join",
            Tag::Leave => "leave",
            Tag::Message => "message",
            Tag::Heartbeat => "heartbeat",
            Tag::Userlist => "userlist",
            Tag::InvalidUsername => "invalid_username",
            Tag::BadRequest => "bad_request",
        }
    }

    /// Reads a tag. Text that names no tag gives `None`.
    pub fn parse(msg_type: &str) -> (tag: Option<Tag>)
        ensures
            tag == Tag::spec_parse(msg_type@),
    {
        if text_eq(msg_type, "join") {
            Some(Tag::Join)
        } else if text_eq(msg_type, "leave") {
            Some(Tag::Leave)
        } else if text_eq(msg_type, "message") {
            Some(Tag::Message)
        } else if text_eq(msg_type, "heartbeat") {
            Some(Tag::Heartbeat)
        } else if text_eq(msg_type, "userlist") {
            Some(Tag::Userlist)
        } else if text_eq(msg_type, "invalid_username") {
            Some(Tag::InvalidUsername)
        } else if text_eq(msg_type, "bad_request") {
            Some(Tag::BadRequest)
        } else {
            None
        }
    }

    /// No two tags share a name, so a tag's name always parses back to it.
    pub proof fn lemma_parse_name(self)
        ensures
            Tag::spec_parse(self.name()) == Some(self),
    {
        reveal_strlit("join");
        reveal_strlit("leave");
        reveal_strlit("message");
        reveal_strlit("heartbeat");
        reveal_strlit("userlist");
        reveal_strlit("invalid_username");
        reveal_strlit("bad_request");
        assert(Tag::Join.name().len() == 4);
        assert(Tag::Leave.name().len() == 5);
        assert(Tag::Message.name().len() == 7);
        assert(Tag::Heartbeat.name().len() == 9);
        assert(Tag::Userlist.name().len() == 8);
        assert(Tag::InvalidUsername.name().len() == 16);
        assert(Tag::BadRequest.name().len() == 11);
    }
}

/// The name under which the server answers one client privately.
pub open spec fn server_sender() -> Seq<char> {
    "SERVER"@
}

/// What a `SocketMessage` holds, as mathematical text.
pub struct Envelope {
    pub msg_type: Seq<char>,
    pub sender: Seq<char>,
    pub content: Seq<char>,
}

impl Envelope {
    /// The envelope with `sender` and `content` sanitized. `msg_type` is kept.
    pub open spec fn sanitized(self) -> Envelope {
        Envelope {
            msg_type: self.msg_type,
            sender: sanitize(self.sender),
            content: sanitize(self.content),
        }
    }

    /// Neither `sender` nor `content` holds a markup character.
    pub open spec fn is_sanitized(self) -> bool {
        is_clean(self.sender) && is_clean(self.content)
    }

    /// The tag of this envelope, if `msg_type` names one.
    pub open spec fn tag(self) -> Option<Tag> {
        Tag::spec_parse(self.msg_type)
    }

    /// What the server sends to one client alone.
    pub open spec fn reply(msg_type: Seq<char>, msg: Seq<char>) -> Envelope {
        Envelope { msg_type, sender: server_sender(), content: msg }
    }
}

/// One frame of the protocol.
#[derive(Debug, PartialEq, Eq)]
pub struct SocketMessage {
    pub msg_type: String,
    pub sender: String,
    pub content: String,
}

impl View for SocketMessage {
    type V = Envelope;

    open spec fn view(&self) -> Envelope {
        Envelope { msg_type: self.msg_type@, sender: self.sender@, content: self.content@ }
    }
}

impl DeepView for SocketMessage {
    type V = Envelope;

    open spec fn deep_view(&self) -> Envelope {
        self@
    }
}

impl Clone for SocketMessage {
    fn clone(&self) -> (m: SocketMessage)
        ensures
            m == *self,
    {
        SocketMessage {
            msg_type: self.msg_type.clone(),
            sender: self.sender.clone(),
            content: self.content.clone(),
        }
    }
}

impl SocketMessage {
    /// An envelope with these three fields, taken as they are.
    pub fn new(msg_type: &str, sender: &str, content: &str) -> (m: SocketMessage)
        ensures
            m@ == (Envelope { msg_type: msg_type@, sender: sender@, content: content@ }),
    {
        SocketMessage { msg_type: owned(msg_type), sender: owned(sender), content: owned(content) }
    }

    /// Replaces `<`, `>`, `"` and `'` in `sender` and `content` by their
    /// entity references. `msg_type` is left alone.
    pub fn clean_content(&mut self)
        ensures
            final(self)@ == old(self)@.sanitized(),
            final(self)@.is_sanitized(),
    {
        self.content = sanitize_text(self.content.as_str());
        self.sender = sanitize_text(self.sender.as_str());
    }

    /// The tag of this envelope, if `msg_type` names one.
    pub fn tag(&self) -> (tag: Option<Tag>)
        ensures
            tag == self@.tag(),
    {
        Tag::parse(self.msg_type.as_str())
    }
}

/// An envelope from the server to one client: `sender` is `SERVER`.
pub fn generate_reply(msg_type: &str, msg: &str) -> (m: SocketMessage)
    ensures
        m@ == Envelope::reply(msg_type@, msg@),
{
    SocketMessage { msg_type: owned(msg_type), sender: owned("SERVER"), content: owned(msg) }
}

/// Sanitizing an envelope twice gives what sanitizing it once gives, and the
/// result holds no markup character in `sender` or `content`.
pub proof fn lemma_sanitized_envelope(e: Envelope)
    ensures
        e.sanitized().is_sanitized(),
        e.sanitized().sanitized() == e.sanitized(),
        e.is_sanitized() ==> e.sanitized() == e,
{
    crate::escape::lemma_sanitize_is_clean(e.sender);
    crate::escape::lemma_sanitize_is_clean(e.content);
    crate::escape::lemma_sanitize_idempotent(e.sender);
    crate::escape::lemma_sanitize_idempotent(e.content);
    if e.is_sanitized() {
        crate::escape::lemma_sanitize_clean_is_identity(e.sender);
        crate::escape::lemma_sanitize_clean_is_identity(e.content);
    }
}

} // verus!
