use chat_app::login::{login_with_token, LoginRequest, SessionDatabase, UserDatabase};
use chat_app::message::{
    handle_receiver_message, handle_send_message, insert_connection, start_conversation,
    validate_token, Conversation, InMemoryDatabase, Message,
};
use chat_app::request::RequestHead;
use chat_app::status::StatusCode;

fn sessions_of(users: &[(&str, &str, &str)]) -> SessionDatabase {
    let db = UserDatabase::new();
    let mut sessions = SessionDatabase::new();
    for (userid, password, token) in users {
        let request = LoginRequest { userid: userid.to_string(), password: password.to_string() };
        login_with_token(&db, &mut sessions, &request, token.to_string()).unwrap();
    }
    sessions
}

fn talk_to(receiver: &str) -> Conversation {
    Conversation { receiver_id: receiver.to_string() }
}

fn say(content: &str) -> Message {
    Message { content: content.to_string() }
}

#[test]
fn start_conversation_connects_once_and_then_reports_the_connection() {
    let sessions = sessions_of(&[("Swarnjit", "GS1", "ts"), ("Sanjeev", "GS2", "tn")]);
    let mut db = InMemoryDatabase::new();
    assert_eq!(
        start_conversation("ts", &mut db, &sessions, &talk_to("Sanjeev")).unwrap(),
        "User is Online and connection established."
    );
    assert_eq!(
        start_conversation("ts", &mut db, &sessions, &talk_to("Sanjeev")).unwrap(),
        "User: Sanjeev is Online and connection exists."
    );
    assert_eq!(
        start_conversation("tn", &mut db, &sessions, &talk_to("Swarnjit")).unwrap(),
        "User: Swarnjit is Online and connection exists."
    );
}

#[test]
fn start_conversation_with_an_offline_user_or_without_session() {
    let sessions = sessions_of(&[("Swarnjit", "GS1", "ts")]);
    let mut db = InMemoryDatabase::new();
    assert_eq!(start_conversation("ts", &mut db, &sessions, &talk_to("Kamlesh")).unwrap(), "User is Offline.");
    assert_eq!(
        start_conversation("nope", &mut db, &sessions, &talk_to("Swarnjit")).err(),
        Some(StatusCode::Unauthorized)
    );
    assert_eq!(handle_send_message("ts", &mut db, &sessions, &say("hi")).err(), Some(StatusCode::NotFound));
}

#[test]
fn a_sent_message_is_received_in_lowercase_by_the_partner_only() {
    let sessions = sessions_of(&[("Swarnjit", "GS1", "ts"), ("Sanjeev", "GS2", "tn")]);
    let mut db = InMemoryDatabase::new();
    start_conversation("ts", &mut db, &sessions, &talk_to("Sanjeev")).unwrap();
    assert_eq!(handle_send_message("ts", &mut db, &sessions, &say("Hello There")).unwrap(), "Message sent successfully");
    assert_eq!(db.get_messages("Sanjeev").unwrap(), vec!["hello there".to_string()]);
    assert_eq!(db.get_messages("Swarnjit").unwrap(), Vec::<String>::new());
    assert_eq!(
        handle_receiver_message("tn", &db, &sessions).unwrap(),
        "{\"messages\":[\"hello there\"]}"
    );
    assert_eq!(handle_receiver_message("ts", &db, &sessions).unwrap(), "{\"messages\":[]}");
    assert_eq!(handle_receiver_message("bad", &db, &sessions).err(), Some(StatusCode::Unauthorized));
    assert_eq!(handle_send_message("tn", &mut db, &sessions, &say("Fine \"thanks\"")).unwrap(), "Message sent successfully");
    assert_eq!(
        handle_receiver_message("ts", &db, &sessions).unwrap(),
        "{\"messages\":[\"fine \\\"thanks\\\"\"]}"
    );
}

#[test]
fn bye_in_any_case_ends_the_conversation() {
    let sessions = sessions_of(&[("Swarnjit", "GS1", "ts"), ("Sanjeev", "GS2", "tn")]);
    let mut db = InMemoryDatabase::new();
    start_conversation("ts", &mut db, &sessions, &talk_to("Sanjeev")).unwrap();
    handle_send_message("ts", &mut db, &sessions, &say("one")).unwrap();
    assert_eq!(handle_send_message("tn", &mut db, &sessions, &say("ByE")).unwrap(), "Connection ended.");
    assert_eq!(handle_send_message("ts", &mut db, &sessions, &say("two")).err(), Some(StatusCode::NotFound));
    assert_eq!(handle_send_message("tn", &mut db, &sessions, &say("two")).err(), Some(StatusCode::NotFound));
    assert_eq!(db.get_messages("Sanjeev").unwrap(), Vec::<String>::new());
    assert_eq!(
        start_conversation("ts", &mut db, &sessions, &talk_to("Sanjeev")).unwrap(),
        "User is Online and connection established."
    );
    assert_eq!(db.get_messages("Sanjeev").unwrap(), vec!["one".to_string()]);
}

#[test]
fn unknown_sender_is_unauthorized_and_changes_nothing() {
    let sessions = sessions_of(&[("Swarnjit", "GS1", "ts"), ("Sanjeev", "GS2", "tn")]);
    let mut db = InMemoryDatabase::new();
    start_conversation("ts", &mut db, &sessions, &talk_to("Sanjeev")).unwrap();
    assert_eq!(handle_send_message("zz", &mut db, &sessions, &say("x")).err(), Some(StatusCode::Unauthorized));
    assert_eq!(db.get_messages("Sanjeev").unwrap(), Vec::<String>::new());
}

#[test]
fn messages_in_both_directions_share_one_conversation() {
    let sessions = sessions_of(&[("Kamlesh", "GS3", "tk"), ("Sanjeev", "GS2", "tn")]);
    let mut db = InMemoryDatabase::new();
    start_conversation("tk", &mut db, &sessions, &talk_to("Sanjeev")).unwrap();
    db.add_message("Kamlesh", "Sanjeev", "a".to_string());
    db.add_message("Sanjeev", "Kamlesh", "b".to_string());
    db.add_message("Kamlesh", "Sanjeev", "c".to_string());
    assert_eq!(db.get_messages("Sanjeev").unwrap(), vec!["a".to_string(), "c".to_string()]);
    assert_eq!(db.get_messages("Kamlesh").unwrap(), vec!["b".to_string()]);
}

#[test]
fn messages_of_an_inactive_conversation_are_not_received() {
    let mut db = InMemoryDatabase::new();
    db.add_message("x", "y", "hidden".to_string());
    assert_eq!(db.get_messages("y").unwrap(), Vec::<String>::new());
    insert_connection("z", "x_y", &mut db);
    assert_eq!(db.get_messages("y").unwrap(), vec!["hidden".to_string()]);
}

#[test]
fn a_connection_inserted_by_key_gives_the_partner() {
    let sessions = sessions_of(&[("Swarnjit", "GS1", "ts")]);
    let mut db = InMemoryDatabase::new();
    insert_connection("Swarnjit", "Kamlesh", &mut db);
    assert_eq!(handle_send_message("ts", &mut db, &sessions, &say("Hey")).unwrap(), "Message sent successfully");
    assert_eq!(db.get_messages("Kamlesh").unwrap(), Vec::<String>::new());
    insert_connection("q", "Kamlesh_Swarnjit", &mut db);
    assert_eq!(db.get_messages("Kamlesh").unwrap(), vec!["hey".to_string()]);
}

#[test]
fn token_validation_of_the_message_service() {
    let sessions = sessions_of(&[("Sanjeev", "GS2", "tn")]);
    let post_send = RequestHead { method: "POST".to_string(), path: "/send_message".to_string() };
    assert!(validate_token(&post_send, "tn", &sessions));
    assert!(!validate_token(&post_send, "tx", &sessions));
}

#[test]
fn bye_right_after_starting_leaves_no_connection_behind() {
    let sessions = sessions_of(&[("Swarnjit", "GS1", "ts"), ("Kamlesh", "GS3", "tk")]);
    let mut db = InMemoryDatabase::new();
    insert_connection("Sanjeev", "Sanjeev_x", &mut db);
    start_conversation("ts", &mut db, &sessions, &talk_to("Kamlesh")).unwrap();
    assert_eq!(handle_send_message("ts", &mut db, &sessions, &say("bye")).unwrap(), "Connection ended.");
    assert_eq!(handle_send_message("tk", &mut db, &sessions, &say("hi")).err(), Some(StatusCode::NotFound));
    assert_eq!(db.get_messages("x").unwrap(), Vec::<String>::new());
}

#[test]
fn ascii_content_is_kept_in_lowercase() {
    let sessions = sessions_of(&[("Swarnjit", "GS1", "ts"), ("Kamlesh", "GS3", "tk")]);
    let mut db = InMemoryDatabase::new();
    start_conversation("ts", &mut db, &sessions, &talk_to("Kamlesh")).unwrap();
    handle_send_message("ts", &mut db, &sessions, &say("Hi")).unwrap();
    handle_send_message("ts", &mut db, &sessions, &say("ÀÉ Ω")).unwrap();
    assert_eq!(db.get_messages("Kamlesh").unwrap(), vec!["hi".to_string(), "àé ω".to_string()]);
    assert_eq!(
        handle_receiver_message("tk", &db, &sessions).unwrap(),
        "{\"messages\":[\"hi\",\"àé ω\"]}"
    );
}

#[test]
fn received_messages_are_escaped_as_json_strings() {
    let sessions = sessions_of(&[("Swarnjit", "GS1", "ts"), ("Kamlesh", "GS3", "tk")]);
    let mut db = InMemoryDatabase::new();
    start_conversation("ts", &mut db, &sessions, &talk_to("Kamlesh")).unwrap();
    handle_send_message("ts", &mut db, &sessions, &say("a\u{1}\tb\\\u{1f}")).unwrap();
    assert_eq!(
        handle_receiver_message("tk", &db, &sessions).unwrap(),
        "{\"messages\":[\"a\\u0001\\tb\\\\\\u001f\"]}"
    );
}
