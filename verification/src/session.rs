use vstd::prelude::*;
use crate::message::{display_name, shown_name, ChatResponseMessage, LeaveRoom, SendMessage};

verus! {

/// What one connection knows of itself: the room it stands in, its id
/// there, and its display name once it has chosen one.
pub struct WsChatSession {
    pub id: usize,
    pub room: String,
    pub name: Option<String>,
}

/// A command that a client sends over its connection.
pub enum IncomingMessage {
    Message { message: String },
    Join { room: String },
    Name { name: String },
    List,
}

/// What a session asks its surroundings to do in answer to a command.
pub enum SessionAction {
    /// Publish the leave of the current room, then ask the registry for a
    /// place in `room` under `name`; the reply goes to `joined`.
    Switch { leave: LeaveRoom, room: String, name: Option<String> },
    /// Publish a text to the current room.
    Send(SendMessage),
    /// Ask the registry for the room names.
    List,
    /// Tell the session's own client of an event.
    Notify(ChatResponseMessage),
}

impl WsChatSession {
    /// A session that stands in no room yet and has no name.
    pub fn new() -> (session: Self)
        ensures
            session.id == 0,
            session.room@ == Seq::<char>::empty(),
            session.name.is_none(),
    {
        WsChatSession { id: 0, room: String::new(), name: None }
    }

    fn name_copy(&self) -> (name: Option<String>)
        ensures
            name == self.name,
    {
        match &self.name {
            Some(n) => Some(n.clone()),
            None => None,
        }
    }

    /// The move into a room: the leave of the current room under the
    /// current id, and the request for a place in the new one. The session
    /// itself changes only when the reply comes.
    pub fn join_room(&self, room_name: &str) -> (action: SessionAction)
        ensures
            action matches SessionAction::Switch { leave, room, name } && leave.0 == self.room
                && leave.1 == self.id && room@ == room_name@ && name == self.name,
    {
        SessionAction::Switch {
            leave: LeaveRoom(self.room.clone(), self.id),
            room: room_name.to_owned(),
            name: self.name_copy(),
        }
    }

    /// What a new connection does first: it moves into the room "Main".
    pub fn started(&self) -> (action: SessionAction)
        ensures
            action matches SessionAction::Switch { leave, room, name } && leave.0 == self.room
                && leave.1 == self.id && room@ == "Main"@ && name == self.name,
    {
        self.join_room("Main")
    }

    /// Takes the registry's reply to a join request: with an id the session
    /// stands in the new room under it, without one nothing changes.
    pub fn joined(&mut self, room_name: String, reply: Option<usize>)
        ensures
            final(self).name == old(self).name,
            reply matches Some(id) ==> final(self).id == id && final(self).room == room_name,
            reply.is_none() ==> *final(self) == *old(self),
    {
        if let Some(id) = reply {
            self.id = id;
            self.room = room_name;
        }
    }

    /// The text of a member for its room, under the name that it shows.
    pub fn send_msg(&self, msg: &str) -> (request: SendMessage)
        ensures
            request.name@ == shown_name(self.name),
            request.room_name == self.room,
            request.id == self.id,
            request.msg@ == msg@,
    {
        SendMessage {
            room_name: self.room.clone(),
            id: self.id,
            msg: msg.to_owned(),
            name: display_name(self.name_copy()),
        }
    }

    /// Turns one command of the client into what is to be done. Only a new
    /// name changes the session itself.
    pub fn handle(&mut self, msg: IncomingMessage) -> (action: SessionAction)
        ensures
            match msg {
                IncomingMessage::List => action is List && *final(self) == *old(self),
                IncomingMessage::Join { room: wanted } => {
                    &&& action matches SessionAction::Switch { leave, room, name } && leave.0
                        == old(self).room && leave.1 == old(self).id && room@ == wanted@ && name
                        == old(self).name
                    &&& *final(self) == *old(self)
                },
                IncomingMessage::Name { name: chosen } => {
                    &&& action matches SessionAction::Notify(
                        ChatResponseMessage::NameChange { name },
                    ) && name == chosen
                    &&& final(self).name == Some(chosen)
                    &&& final(self).id == old(self).id
                    &&& final(self).room == old(self).room
                },
                IncomingMessage::Message { message } => {
                    &&& action matches SessionAction::Send(request) && request.name@ == shown_name(
                        old(self).name,
                    ) && request.room_name == old(self).room && request.id == old(self).id
                        && request.msg@ == message@
                    &&& *final(self) == *old(self)
                },
            },
    {
        match msg {
            IncomingMessage::List => SessionAction::List,
            IncomingMessage::Join { room } => self.join_room(room.as_str()),
            IncomingMessage::Name { name } => {
                self.name = Some(name.clone());
                SessionAction::Notify(ChatResponseMessage::NameChange { name })
            },
            IncomingMessage::Message { message } => SessionAction::Send(
                self.send_msg(message.as_str()),
            ),
        }
    }
}

impl Default for WsChatSession {
    fn default() -> (session: Self)
        ensures
            session.id == 0,
            session.room@ == Seq::<char>::empty(),
            session.name.is_none(),
    {
        WsChatSession::new()
    }
}

} // verus!
