use chat_app::implemessage::{
    get_receiver_msg, handle_receiver_message, handle_send_message, send_message,
    start_conversation, validate_token, InMemoryDatabase, Message, ReceiverUser,
};
use chat_app::login::{Session, SessionDatabase};
use chat_app::request::{RequestBody, RequestHead};
use chat_app::status::StatusCode;

fn msg(content: &str, owner: &str) -> Message {
    Message { content: content.to_string(), owner: owner.to_string() }
}

fn contents(messages: &[Message]) -> Vec<(String, String)> {
    messages.iter().map(|m| (m.content.clone(), m.owner.clone())).collect()
}

fn sessions(list: &[(&str, &str)]) -> SessionDatabase {
    let mut s = SessionDatabase::new();
    for (token, user) in list {
        s.insert(token.to_string(), Session::new(token.to_string(), user.to_string()));
    }
    s
}

fn head(method: &str, path: &str) -> RequestHead {
    RequestHead { method: method.to_string(), path: path.to_string() }
}

#[test]
fn sent_messages_are_read_back_per_sender_and_receiver() {
    let mut db = InMemoryDatabase::new();
    assert_eq!(send_message(&mut db, Some(msg("hi", "alice")), "bob"), "{\"message\":\"Message sent\"}");
    db.send_message("alice", "bob", "again");
    db.send_message("carol", "bob", "yo");
    assert_eq!(
        contents(&get_receiver_msg(&db, "alice".to_string(), "bob".to_string())),
        vec![("hi".to_string(), "alice".to_string()), ("again".to_string(), "alice".to_string())]
    );
    assert!(get_receiver_msg(&db, "bob".to_string(), "alice".to_string()).is_empty());
    assert_eq!(contents(&db.get_receiver("bob")).len(), 3);
    assert!(db.get_receiver("alice").is_empty());
    db.send_message("a_b", "bob", "three pieces");
    assert_eq!(contents(&db.get_receiver("bob")).len(), 3);
}

#[test]
fn a_body_that_is_not_a_message_is_answered_with_an_error_object() {
    let mut db = InMemoryDatabase::new();
    assert_eq!(send_message(&mut db, None, "bob"), "{\"error\":\"Failed to deserialize message\"}");
    assert!(db.get_receiver("bob").is_empty());
}

#[test]
fn send_response_builds_the_message_only() {
    let db = InMemoryDatabase::new();
    let m = db.send_response("alice", "bob", "pong");
    assert_eq!((m.content.as_str(), m.owner.as_str()), ("pong", "alice"));
    assert!(db.get_receiver("bob").is_empty());
}

#[test]
fn registering_a_conversation() {
    let s = sessions(&[("t1", "alice"), ("t2", "bob")]);
    let mut db = InMemoryDatabase::new();
    let bob = || Some(ReceiverUser { userid: "bob".to_string() });
    assert_eq!(start_conversation("t1", &mut db, &s, None).err(), Some(StatusCode::BadRequest));
    assert_eq!(
        start_conversation("t1", &mut db, &s, Some(ReceiverUser { userid: "zed".to_string() })).err(),
        Some(StatusCode::NotFound)
    );
    assert_eq!(start_conversation("t1", &mut db, &s, bob()).unwrap(), "Success");
    assert_eq!(start_conversation("t1", &mut db, &s, bob()).err(), Some(StatusCode::SeeOther));
    assert_eq!(start_conversation("unknown", &mut db, &s, bob()).err(), Some(StatusCode::SeeOther));
}

#[test]
fn handling_a_sent_message() {
    let s = sessions(&[("t1", "alice")]);
    let mut db = InMemoryDatabase::new();
    let post = head("POST", "/send_message");
    assert_eq!(
        handle_send_message("bad", &mut db, &s, &post, RequestBody::Parsed(msg("x", "alice"))).err(),
        Some(StatusCode::Unauthorized)
    );
    assert_eq!(
        handle_send_message("t1", &mut db, &s, &head("GET", "/send_message"), RequestBody::Malformed).err(),
        Some(StatusCode::MethodNotAllowed)
    );
    assert_eq!(
        handle_send_message("t1", &mut db, &s, &post, RequestBody::Unreadable).err(),
        Some(StatusCode::InternalServerError)
    );
    assert_eq!(
        handle_send_message("t1", &mut db, &s, &post, RequestBody::Malformed).unwrap(),
        "{\"error\":\"Failed to deserialize message\"}"
    );
    assert_eq!(
        handle_send_message("t1", &mut db, &s, &post, RequestBody::Parsed(msg("x", "alice"))).unwrap(),
        "{\"message\":\"Message sent\"}"
    );
    assert_eq!(contents(&get_receiver_msg(&db, "alice".to_string(), "receiver_id".to_string())).len(), 1);
    assert_eq!(
        handle_send_message("", &mut db, &s, &head("POST", "/login"), RequestBody::Parsed(msg("y", "z"))).unwrap(),
        "{\"message\":\"Message sent\"}"
    );
}

#[test]
fn handling_a_request_for_received_messages() {
    let s = sessions(&[("t1", "alice")]);
    let mut db = InMemoryDatabase::new();
    let post = head("POST", "/receive_message");
    assert_eq!(handle_receiver_message("bad", &db, &s, &post).err(), Some(StatusCode::Unauthorized));
    assert_eq!(handle_receiver_message("", &db, &s, &head("POST", "/login")).err(), Some(StatusCode::Unauthorized));
    assert!(handle_receiver_message("t1", &db, &s, &post).unwrap().is_empty());
    db.send_message("alice", "Session ID: alice", "note");
    assert_eq!(
        contents(&handle_receiver_message("t1", &db, &s, &post).unwrap()),
        vec![("note".to_string(), "alice".to_string())]
    );
    assert!(validate_token(&post, "t1", &s));
}

#[test]
fn control_characters_are_escaped_in_answers() {
    let mut db = InMemoryDatabase::new();
    let out = send_message(&mut db, Some(msg("a\u{1}\tb\\", "x")), "y");
    assert_eq!(out, "{\"message\":\"Message sent\"}");
    assert_eq!(contents(&get_receiver_msg(&db, "x".to_string(), "y".to_string()))[0].0, "a\u{1}\tb\\");
}
