//! The wire codec: one JSON object per text frame, with exactly the members
//! `msg_type`, `sender` and `content`, each a string.
//!
//! Reading JSON and writing JSON string literals is `serde_json`'s work.
//! Which objects are envelopes, and how an envelope is laid out in a frame,
//! is decided here.

use vstd::prelude::*;
use crate::envelope::{Envelope, SocketMessage};
use crate::text::text_eq;

verus! {

/// The members of the JSON object that `text` is, as `serde_json` reads it:
/// `None` unless the whole of `text` is one JSON document and that document
/// is an object; otherwise one pair for each key of the object, in the order
/// in which `serde_json`'s map hands them out. The second part of a pair is
/// the member's value if that is a JSON string, and `None` for every other
/// kind of value. A key written twice is held once, with the value written
/// last.
pub uninterp spec fn json_members(text: Seq<char>) -> Option<Seq<(Seq<char>, Option<Seq<char>>)>>;

/// The JSON string literal for `text`, quotes included, as `serde_json`
/// writes it.
pub uninterp spec fn json_quoted(text: Seq<char>) -> Seq<char>;

/// Calls `serde_json::from_str` for a `serde_json::Value` and hands out the
/// members of the object that it returns. Trusted: the result is what
/// `json_members` names; nothing more is claimed of it.
#[verifier::external_body]
pub(crate) fn parse_members(text: &str) -> (members: Option<Vec<(String, Option<String>)>>)
    ensures
        members.deep_view() == json_members(text@),
{
    match serde_json::from_str::<serde_json::Value>(text) {
        Ok(serde_json::Value::Object(map)) => Some(
            map.into_iter().map(
                |(key, value)|
                    match value {
                        serde_json::Value::String(s) => (key, Some(s)),
                        _ => (key, None),
                    },
            ).collect(),
        ),
        _ => None,
    }
}

/// Calls `serde_json::to_string` on a `str`. Trusted: the result is what
/// `json_quoted` names. Writing a `str` into memory cannot fail in
/// `serde_json`, so the default is never taken.
#[verifier::external_body]
fn quote(text: &str) -> (out: String)
    ensures
        out@ == json_quoted(text@),
{
    serde_json::to_string(text).unwrap_or_default()
}

/// Why a frame is no envelope.
#[derive(Clone, Copy, Debug, PartialEq, Eq, Structural)]
pub enum DecodeError {
    /// The frame is not one JSON object.
    Malformed,
    /// One of `msg_type`, `sender`, `content` is not there.
    MissingField,
    /// One of the three is there, but is not a string.
    WrongType,
    /// The three are there, and something else besides.
    ExtraField,
}

impl DecodeError {
    /// A sentence for the client.
    pub fn reason(self) -> (s: &'static str)
        ensures
            s@ == self.spec_reason(),
    {
        match self {
            DecodeError::Malformed => "frame is not a JSON object",
            DecodeError::MissingField => "frame lacks a required field",
            DecodeError::WrongType => "frame holds a field that is not a string",
            DecodeError::ExtraField => "frame holds an unknown field",
        }
    }

    /// The sentence that the client is told.
    pub open spec fn spec_reason(self) -> Seq<char> {
        match self {
            DecodeError::Malformed => "frame is not a JSON object"@,
            DecodeError::MissingField => "frame lacks a required field"@,
            DecodeError::WrongType => "frame holds a field that is not a string"@,
            DecodeError::ExtraField => "frame holds an unknown field"@,
        }
    }
}

/// The value under `key`: `None` if no member has that key, otherwise what
/// the last member with that key holds.
pub open spec fn field(members: Seq<(Seq<char>, Option<Seq<char>>)>, key: Seq<char>) -> Option<
    Option<Seq<char>>,
>
    decreases members.len(),
{
    if members.len() == 0 {
        None
    } else if members.last().0 == key {
        Some(members.last().1)
    } else {
        field(members.drop_last(), key)
    }
}

/// The envelope that a list of members is. The first fault found decides the
/// error: a missing member, then a member that is no string, then a member
/// too many.
pub open spec fn envelope_of(members: Option<Seq<(Seq<char>, Option<Seq<char>>)>>) -> Result<
    Envelope,
    DecodeError,
> {
    match members {
        None => Err(DecodeError::Malformed),
        Some(m) => {
            let msg_type = field(m, "msg_type"@);
            let sender = field(m, "sender"@);
            let content = field(m, "content"@);
            if msg_type is None || sender is None || content is None {
                Err(DecodeError::MissingField)
            } else if msg_type->0 is None || sender->0 is None || content->0 is None {
                Err(DecodeError::WrongType)
            } else if m.len() != 3 {
                Err(DecodeError::ExtraField)
            } else {
                Ok(
                    Envelope {
                        msg_type: msg_type->0->0,
                        sender: sender->0->0,
                        content: content->0->0,
                    },
                )
            }
        },
    }
}

/// A decoding result with the envelope taken by its view.
pub open spec fn decoded_view(r: Result<SocketMessage, DecodeError>) -> Result<
    Envelope,
    DecodeError,
> {
    match r {
        Ok(m) => Ok(m@),
        Err(e) => Err(e),
    }
}

/// The frame for an envelope whose three fields are already written as JSON
/// string literals.
pub open spec fn assembled(msg_type: Seq<char>, sender: Seq<char>, content: Seq<char>) -> Seq<
    char,
> {
    "{\"msg_type\":"@ + msg_type + ",\"sender\":"@ + sender + ",\"content\":"@ + content + "}"@
}

/// The frame in which an envelope travels.
pub open spec fn frame_of(e: Envelope) -> Seq<char> {
    assembled(json_quoted(e.msg_type), json_quoted(e.sender), json_quoted(e.content))
}

/// Looks `key` up among the members.
pub(crate) fn find_field(members: &Vec<(String, Option<String>)>, key: &str) -> (found: Option<Option<String>>)
    ensures
        found.deep_view() == field(members.deep_view(), key@),
{
    let ghost all = members.deep_view();
    let mut found: Option<Option<String>> = None;
    let mut i: usize = 0;
    assert(all.take(0) =~= Seq::empty());
    while i < members.len()
        invariant
            i <= members.len(),
            all == members.deep_view(),
            found.deep_view() == field(all.take(i as int), key@),
        decreases members.len() - i,
    {
        proof {
            assert(all.take(i + 1).drop_last() =~= all.take(i as int));
            assert(all.take(i + 1).last() == all[i as int]);
            assert(all[i as int] == members[i as int].deep_view());
        }
        if text_eq(members[i].0.as_str(), key) {
            found = Some(members[i].1.clone());
        }
        i += 1;
    }
    assert(all.take(members.len() as int) =~= all);
    found
}

/// Turns the members of a JSON object into an envelope: it must hold
/// `msg_type`, `sender` and `content`, each a string, and nothing else.
pub fn envelope_from_members(members: Option<Vec<(String, Option<String>)>>) -> (r: Result<
    SocketMessage,
    DecodeError,
>)
    ensures
        decoded_view(r) == envelope_of(members.deep_view()),
{
    let list = match members {
        Some(list) => list,
        None => {
            return Err(DecodeError::Malformed);
        },
    };
    let msg_type = find_field(&list, "msg_type");
    let sender = find_field(&list, "sender");
    let content = find_field(&list, "content");
    match (msg_type, sender, content) {
        (Some(msg_type), Some(sender), Some(content)) => match (msg_type, sender, content) {
            (Some(msg_type), Some(sender), Some(content)) => {
                if list.len() != 3 {
                    Err(DecodeError::ExtraField)
                } else {
                    Ok(SocketMessage { msg_type, sender, content })
                }
            },
            _ => Err(DecodeError::WrongType),
        },
        _ => Err(DecodeError::MissingField),
    }
}

/// Reads one text frame.
pub fn decode(text: &str) -> (r: Result<SocketMessage, DecodeError>)
    ensures
        decoded_view(r) == envelope_of(json_members(text@)),
{
    envelope_from_members(parse_members(text))
}

/// Lays out a frame from three JSON string literals.
pub fn assemble(msg_type: &str, sender: &str, content: &str) -> (frame: String)
    ensures
        frame@ == assembled(msg_type@, sender@, content@),
{
    let mut frame = String::new();
    frame.append("{\"msg_type\":");
    frame.append(msg_type);
    frame.append(",\"sender\":");
    frame.append(sender);
    frame.append(",\"content\":");
    frame.append(content);
    frame.append("}");
    assert(frame@ =~= assembled(msg_type@, sender@, content@));
    frame
}

/// Writes an envelope as one text frame. This never fails.
pub fn encode(message: &SocketMessage) -> (frame: String)
    ensures
        frame@ == frame_of(message@),
{
    let msg_type = quote(message.msg_type.as_str());
    let sender = quote(message.sender.as_str());
    let content = quote(message.content.as_str());
    assemble(msg_type.as_str(), sender.as_str(), content.as_str())
}

} // verus!
