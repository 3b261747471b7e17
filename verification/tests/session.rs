use chat_broker::message::{display_name, joined_event, message_event, ChatResponseMessage};
use chat_broker::session::{IncomingMessage, SessionAction, WsChatSession};

#[test]
fn display_name_defaults_to_anon() {
    assert_eq!(display_name(None), "anon");
    assert_eq!(display_name(Some("alice".to_string())), "alice");
    assert_eq!(display_name(Some(String::new())), "");
}

#[test]
fn new_session_starts_by_joining_main() {
    let session = WsChatSession::new();
    assert_eq!(session.id, 0);
    assert_eq!(session.room, "");
    assert_eq!(session.name, None);
    match session.started() {
        SessionAction::Switch { leave, room, name } => {
            assert_eq!(leave.0, "");
            assert_eq!(leave.1, 0);
            assert_eq!(room, "Main");
            assert_eq!(name, None);
        }
        _ => panic!("a new session joins a room first"),
    }
    let same = WsChatSession::default();
    assert_eq!((same.id, same.room, same.name), (0, String::new(), None));
}

#[test]
fn join_reply_moves_the_session() {
    let mut session = WsChatSession::new();
    session.joined("Main".to_string(), Some(42));
    assert_eq!(session.id, 42);
    assert_eq!(session.room, "Main");
    session.joined("Other".to_string(), None);
    assert_eq!(session.id, 42);
    assert_eq!(session.room, "Main");
}

#[test]
fn join_command_leaves_current_room_first() {
    let mut session = WsChatSession::new();
    session.joined("Main".to_string(), Some(5));
    session.name = Some("alice".to_string());
    match session.handle(IncomingMessage::Join { room: "Games".to_string() }) {
        SessionAction::Switch { leave, room, name } => {
            assert_eq!(leave.0, "Main");
            assert_eq!(leave.1, 5);
            assert_eq!(room, "Games");
            assert_eq!(name, Some("alice".to_string()));
        }
        _ => panic!("a join command switches rooms"),
    }
    assert_eq!(session.room, "Main");
    assert_eq!(session.id, 5);
}

#[test]
fn name_command_changes_name_and_notifies() {
    let mut session = WsChatSession::new();
    session.joined("Main".to_string(), Some(5));
    match session.handle(IncomingMessage::Name { name: "bob".to_string() }) {
        SessionAction::Notify(ChatResponseMessage::NameChange { name }) => {
            assert_eq!(name, "bob")
        }
        _ => panic!("a name command notifies of the change"),
    }
    assert_eq!(session.name, Some("bob".to_string()));
    assert_eq!(session.room, "Main");
    assert_eq!(session.id, 5);
}

#[test]
fn message_command_is_sent_under_the_shown_name() {
    let mut session = WsChatSession::new();
    session.joined("Main".to_string(), Some(9));
    match session.handle(IncomingMessage::Message { message: "hello".to_string() }) {
        SessionAction::Send(request) => {
            assert_eq!(request.name, "anon");
            assert_eq!(request.room_name, "Main");
            assert_eq!(request.id, 9);
            assert_eq!(request.msg, "hello");
        }
        _ => panic!("a message command sends"),
    }
    session.name = Some("carol".to_string());
    let request = session.send_msg("again");
    assert_eq!(request.name, "carol");
    assert_eq!(request.msg, "again");
    assert_eq!(request.room_name, "Main");
    assert_eq!(request.id, 9);
}

#[test]
fn list_command_asks_for_the_rooms() {
    let mut session = WsChatSession::new();
    assert!(matches!(session.handle(IncomingMessage::List), SessionAction::List));
    assert_eq!(session.id, 0);
}

#[test]
fn events_carry_room_name_and_text() {
    match joined_event("Main", None) {
        ChatResponseMessage::Joined { room, name } => {
            assert_eq!(room, "Main");
            assert_eq!(name, "anon");
        }
        _ => panic!("a join is announced as a join"),
    }
    match joined_event("Games", Some("dora".to_string())) {
        ChatResponseMessage::Joined { room, name } => {
            assert_eq!(room, "Games");
            assert_eq!(name, "dora");
        }
        _ => panic!("a join is announced as a join"),
    }
    match message_event("alice".to_string(), "hi".to_string()) {
        ChatResponseMessage::Message { name, message } => {
            assert_eq!(name, "alice");
            assert_eq!(message, "hi");
        }
        _ => panic!("a text is carried as a message"),
    }
}
