//! The records and notices of the relay's plain-text protocol, in which a
//! client first sends its name and then its messages, and the room is told
//! in plain sentences.

use vstd::prelude::*;
use crate::codec::{field, find_field, json_members, parse_members};
use crate::text::owned;

verus! {

/// The color of a user who chose none.
pub open spec fn default_color() -> Seq<char> {
    "0xff0000"@
}

/// The name of a user who gave none.
pub open spec fn default_name() -> Seq<char> {
    "default"@
}

/// Whether `id` is laid out as a random (version 4) UUID of the usual
/// variant: the version digit is 4 and the two variant bits are `10`.
pub open spec fn is_random_uuid(id: u128) -> bool {
    (id >> 76) & 0xf == 4 && (id >> 62) & 0x3 == 2
}

/// Calls `uuid::Uuid::new_v4` and hands out the 128 bits of the result.
/// Trusted: the version and variant bits are set as `is_random_uuid` says;
/// of the other bits, which come from the system's random source, nothing is
/// claimed.
#[verifier::external_body]
fn random_uuid() -> (id: u128)
    ensures
        is_random_uuid(id),
{
    uuid::Uuid::new_v4().as_u128()
}

/// A user of the room.
#[derive(Debug, PartialEq, Eq, Hash)]
pub struct User {
    /// The 128 bits of the user's UUID.
    pub uuid: u128,
    pub name: String,
    pub color: String,
}

/// What a client sends first: its name.
#[derive(Debug, PartialEq, Eq, Hash)]
pub struct UserTmp {
    pub name: String,
}

/// A message with its author given by UUID.
#[derive(Debug)]
pub struct ChatMessage {
    pub sender: u128,
    pub content: String,
}

/// A message as a client sends it.
#[derive(Debug)]
pub struct SendMessage {
    pub sender: String,
    pub content: String,
}

impl Clone for User {
    fn clone(&self) -> (user: User)
        ensures
            user == *self,
    {
        User { uuid: self.uuid, name: self.name.clone(), color: self.color.clone() }
    }
}

impl Clone for UserTmp {
    fn clone(&self) -> (user: UserTmp)
        ensures
            user == *self,
    {
        UserTmp { name: self.name.clone() }
    }
}

impl User {
    /// The user with this UUID and name, and with the default color if none
    /// is given.
    pub fn with_uuid(uuid: u128, name: String, color: Option<String>) -> (user: User)
        ensures
            user.uuid == uuid,
            user.name == name,
            user.color@ == (match color {
                Some(c) => c@,
                None => default_color(),
            }),
    {
        let color = match color {
            Some(c) => c,
            None => owned("0xff0000"),
        };
        User { uuid, name, color }
    }

    /// A user with a fresh random UUID, and the default color if none is
    /// given.
    pub fn new_user(name: String, color: Option<String>) -> (user: User)
        ensures
            is_random_uuid(user.uuid),
            user.name == name,
            user.color@ == (match color {
                Some(c) => c@,
                None => default_color(),
            }),
    {
        User::with_uuid(random_uuid(), name, color)
    }

    /// The user called `default`, with a fresh random UUID and the default
    /// color.
    pub fn default() -> (user: User)
        ensures
            is_random_uuid(user.uuid),
            user.name@ == default_name(),
            user.color@ == default_color(),
    {
        User::with_uuid(random_uuid(), owned("default"), None)
    }
}

/// The text under `key` among the members of an object, if the object has
/// that key and holds a string under it.
pub open spec fn text_field(
    members: Option<Seq<(Seq<char>, Option<Seq<char>>)>>,
    key: Seq<char>,
) -> Option<Seq<char>> {
    match members {
        Some(m) => match field(m, key) {
            Some(Some(text)) => Some(text),
            _ => None,
        },
        None => None,
    }
}

/// Looks up the text under `key`.
fn find_text(members: &Option<Vec<(String, Option<String>)>>, key: &str) -> (found: Option<String>)
    ensures
        found.deep_view() == text_field(members.deep_view(), key@),
{
    match members {
        Some(list) => match find_field(list, key) {
            Some(Some(text)) => Some(text),
            _ => None,
        },
        None => None,
    }
}

impl UserTmp {
    /// The name that the members of a JSON object give: the string under
    /// `name`, or `default` where there is none.
    pub open spec fn name_of(members: Option<Seq<(Seq<char>, Option<Seq<char>>)>>) -> Seq<char> {
        match text_field(members, "name"@) {
            Some(name) => name,
            None => default_name(),
        }
    }

    /// Reads the name out of the members of a JSON object. Anything that
    /// gives no name gives the name `default`.
    pub fn from_members(members: Option<Vec<(String, Option<String>)>>) -> (user: UserTmp)
        ensures
            user.name@ == UserTmp::name_of(members.deep_view()),
    {
        match find_text(&members, "name") {
            Some(name) => UserTmp { name },
            None => UserTmp { name: owned("default") },
        }
    }

    /// Reads the name out of the first frame of a connection.
    pub fn from_frame(text: &str) -> (user: UserTmp)
        ensures
            user.name@ == UserTmp::name_of(json_members(text@)),
    {
        UserTmp::from_members(parse_members(text))
    }
}

impl SendMessage {
    /// The message that the members of a JSON object give, as
    /// `(sender, content)`: both must be there, each a string.
    pub open spec fn parts_of(members: Option<Seq<(Seq<char>, Option<Seq<char>>)>>) -> Option<
        (Seq<char>, Seq<char>),
    > {
        match (text_field(members, "sender"@), text_field(members, "content"@)) {
            (Some(sender), Some(content)) => Some((sender, content)),
            _ => None,
        }
    }

    /// The parts of an optional message.
    pub open spec fn parts(message: Option<SendMessage>) -> Option<(Seq<char>, Seq<char>)> {
        match message {
            Some(m) => Some((m.sender@, m.content@)),
            None => None,
        }
    }

    /// Reads a message out of the members of a JSON object.
    pub fn from_members(members: Option<Vec<(String, Option<String>)>>) -> (message: Option<
        SendMessage,
    >)
        ensures
            SendMessage::parts(message) == SendMessage::parts_of(members.deep_view()),
    {
        let sender = find_text(&members, "sender");
        let content = find_text(&members, "content");
        match (sender, content) {
            (Some(sender), Some(content)) => Some(SendMessage { sender, content }),
            _ => None,
        }
    }

    /// Reads a message out of a frame.
    pub fn from_frame(text: &str) -> (message: Option<SendMessage>)
        ensures
            SendMessage::parts(message) == SendMessage::parts_of(json_members(text@)),
    {
        SendMessage::from_members(parse_members(text))
    }
}

/// The sentence that tells the room of a new user.
pub fn joined_notice(name: &str) -> (notice: String)
    ensures
        notice@ == "new user joined - "@ + name@,
{
    let mut notice = owned("new user joined - ");
    notice.append(name);
    notice
}

/// The line under which a frame is passed on to the room.
pub fn relayed_line(name: &str, frame: &str) -> (line: String)
    ensures
        line@ == name@ + " : "@ + frame@,
{
    let mut line = owned(name);
    line.append(" : ");
    line.append(frame);
    line
}

/// The sentence that tells the room that a user has left.
pub fn left_notice(name: &str) -> (notice: String)
    ensures
        notice@ == name@ + " left"@,
{
    let mut notice = owned(name);
    notice.append(" left");
    notice
}

} // verus!
