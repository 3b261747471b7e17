use vstd::prelude::*;
use crate::delivery::Client;

verus! {

/// An event that the registry, or a session itself, pushes to a client handle.
#[derive(Clone, Debug)]
pub enum ChatResponseMessage {
    Message { name: String, message: String },
    Joined { room: String, name: String },
    NameChange { name: String },
    ListRooms { rooms: Vec<String> },
}

/// Lets an actix `Recipient` carry the event. Its receiver gives no reply.
impl actix::Message for ChatResponseMessage {
    type Result = ();
}

/// Asks for a place in a room: the room's name, the display name if the
/// session has one, and the handle through which the session is reached.
pub struct JoinRoom(pub String, pub Option<String>, pub Client);

/// Gives up the place that an id stands for in a room.
#[derive(Clone)]
pub struct LeaveRoom(pub String, pub usize);

/// Asks for the names of all rooms.
#[derive(Clone)]
pub struct ListRooms;

/// A text that a member sends to its room.
#[derive(Clone)]
pub struct SendMessage {
    pub name: String,
    pub room_name: String,
    pub id: usize,
    pub msg: String,
}

/// The name under which a session shows: its display name, or "anon"
/// while it has none.
pub open spec fn shown_name(name: Option<String>) -> Seq<char> {
    match name {
        Some(n) => n@,
        None => "anon"@,
    }
}

/// The name under which a session shows.
pub fn display_name(name: Option<String>) -> (shown: String)
    ensures
        shown@ == shown_name(name),
{
    match name {
        Some(n) => n,
        None => "anon".to_owned(),
    }
}

/// The event that announces a new member to its room, under the name
/// that the member shows.
pub fn joined_event(room: &str, name: Option<String>) -> (event: ChatResponseMessage)
    ensures
        event matches ChatResponseMessage::Joined { room: r, name: n } && r@ == room@ && n@
            == shown_name(name),
{
    ChatResponseMessage::Joined { room: room.to_owned(), name: display_name(name) }
}

/// The event that carries a member's text to its room.
pub fn message_event(name: String, text: String) -> (event: ChatResponseMessage)
    ensures
        event == (ChatResponseMessage::Message { name, message: text }),
{
    ChatResponseMessage::Message { name, message: text }
}

} // verus!
