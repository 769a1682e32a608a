use chat_app::client::{
    begin, display_menu, listof_users, received_lines, send_succeeded, step, ClientEvent,
    ClientState, Reply,
};

fn line(s: &str) -> ClientEvent {
    ClientEvent::Line(s.to_string())
}

fn strs(v: &[&str]) -> Vec<String> {
    v.iter().map(|s| s.to_string()).collect()
}

fn menu() -> Vec<String> {
    strs(&["", "Welcome to App", "", "1. Login", "2. Exit", "", "Enter your choice (1-2):"])
}

#[test]
fn the_menu() {
    assert_eq!(display_menu(), strs(&["Welcome to App", "", "1. Login", "2. Exit"]));
    let (state, lines) = begin();
    assert!(matches!(state, ClientState::AwaitChoice));
    assert_eq!(lines, menu());
}

#[test]
fn users_listed_for_each_login() {
    assert_eq!(listof_users("Swarnjit"), strs(&["Total available users ", "", "Sanjeev", "Kamlesh"]));
    assert_eq!(listof_users("Sanjeev"), strs(&["Total available users ", "", "Swarnjit", "Kamlesh"]));
    assert_eq!(listof_users("Kamlesh"), strs(&["Total available users ", "", "Swarnjit", "Sanjeev"]));
    assert_eq!(listof_users("Other"), strs(&["Total available users ", "", ""]));
}

#[test]
fn menu_choices() {
    let (s, lines) = step(ClientState::AwaitChoice, line(" 2 "));
    assert!(matches!(s, ClientState::Exited));
    assert_eq!(lines, strs(&["", "Exiting App", ""]));
    let (s, lines) = step(ClientState::AwaitChoice, line("abc"));
    assert!(matches!(s, ClientState::AwaitChoice));
    let mut expected = strs(&["", "Invalid input please make sure you enter valid input"]);
    expected.extend(menu());
    assert_eq!(lines, expected);
    let (s, lines) = step(ClientState::AwaitChoice, line("7"));
    assert!(matches!(s, ClientState::AwaitChoice));
    let mut expected = strs(&["", "Invalid operations, please select a valid option (1-2)."]);
    expected.extend(menu());
    assert_eq!(lines, expected);
}

#[test]
fn a_whole_session() {
    let (s, lines) = step(ClientState::AwaitChoice, line("1\n"));
    assert_eq!(lines, strs(&["", "Welcome to Login App", "", "Enter UserId"]));
    let (s, lines) = step(s, line("  Sanjeev "));
    assert_eq!(lines, strs(&["", "Enter password"]));
    let (s, lines) = step(s, line("GS2"));
    assert!(lines.is_empty());
    match &s {
        ClientState::LoggingIn { auth } => {
            assert_eq!((auth.userid.as_str(), auth.password.as_str()), ("Sanjeev", "GS2"));
        }
        _ => panic!("expected the login request"),
    }
    let (s, lines) = step(s, ClientEvent::LoginReply(Reply::Success("tok".to_string())));
    assert_eq!(
        lines,
        strs(&["", "Login Successfully !", "", "Total available users ", "", "Swarnjit", "Kamlesh", "", "Enter Receiver Id"])
    );
    let (s, lines) = step(s, line("Kamlesh"));
    assert!(lines.is_empty());
    match &s {
        ClientState::StartingConversation { token, receiver } => {
            assert_eq!((token.as_str(), receiver.receiver_id.as_str()), ("tok", "Kamlesh"));
        }
        _ => panic!("expected the conversation request"),
    }
    let (s, lines) = step(s, ClientEvent::ConversationReply(Reply::Success(Some("User is Offline.".to_string()))));
    assert_eq!(lines, strs(&["User is Offline.", "", "Enter your message"]));
    let (s, lines) = step(s, line("Hi!"));
    assert_eq!(lines, strs(&[""]));
    let inbox = Some(vec![Some("hello".to_string()), None]);
    let (s, lines) = step(s, ClientEvent::InboxReply(Reply::Success(inbox)));
    assert_eq!(lines, strs(&["Message Received: ", " hello", "Invalid message content"]));
    match &s {
        ClientState::Sending { token, message } => {
            assert_eq!(token, "tok");
            assert_eq!((message.receiver_id.as_str(), message.content.as_str()), ("Kamlesh", "Hi!"));
        }
        _ => panic!("expected the message to go out"),
    }
    let (s, lines) = step(s, ClientEvent::SendReply(Reply::Success("Message sent successfully\n".to_string())));
    assert_eq!(lines, strs(&["", "Message sent successfully", "", "Enter your message"]));
    assert!(matches!(s, ClientState::AwaitMessage { .. }));
    let (s, _) = step(s, line("again"));
    let (s, lines) = step(s, ClientEvent::InboxReply(Reply::Refused { status: "401 Unauthorized".to_string(), text: "".to_string() }));
    assert_eq!(lines, strs(&["Failed 401 Unauthorized: "]));
    let (s, lines) = step(s, ClientEvent::SendReply(Reply::Refused { status: "404 Not Found".to_string(), text: "x".to_string() }));
    assert_eq!(lines, strs(&["failed 404 Not Found: x", "Message sending failed", "", "Enter Receiver Id"]));
    assert!(matches!(s, ClientState::AwaitReceiver { .. }));
}

#[test]
fn failed_login_and_errors_go_back_to_the_menu() {
    let auth_state = |u: &str| {
        let (s, _) = step(ClientState::AwaitUserId, line(u));
        step(s, line("pw")).0
    };
    let (s, lines) = step(auth_state("x"), ClientEvent::LoginReply(Reply::Refused { status: "401 Unauthorized".to_string(), text: "".to_string() }));
    assert!(matches!(s, ClientState::AwaitChoice));
    let mut expected = strs(&["", "Login failed with status 401 Unauthorized: ", ""]);
    expected.extend(menu());
    assert_eq!(lines, expected);
    let (s, lines) = step(auth_state("x"), ClientEvent::LoginReply(Reply::Failed("boom".to_string())));
    assert!(matches!(s, ClientState::AwaitChoice));
    let mut expected = strs(&["Error: boom"]);
    expected.extend(menu());
    assert_eq!(lines, expected);
}

#[test]
fn conversation_and_send_failures_ask_for_a_receiver_again() {
    let start = || ClientState::StartingConversation {
        token: "t".to_string(),
        receiver: chat_app::client::ReceiveUser { receiver_id: "r".to_string() },
    };
    let (s, lines) = step(start(), ClientEvent::ConversationReply(Reply::Refused { status: "404".to_string(), text: "".to_string() }));
    assert!(matches!(s, ClientState::AwaitReceiver { .. }));
    assert_eq!(lines, strs(&["", "Invalid receiver ID or Not-active User !", "", "Enter Receiver Id"]));
    let (_, lines) = step(start(), ClientEvent::ConversationReply(Reply::Failed("e".to_string())));
    assert_eq!(lines, strs(&["Failed to start conversation due to an error", "", "Enter Receiver Id"]));
    let (_, lines) = step(start(), ClientEvent::ConversationReply(Reply::Success(None)));
    assert_eq!(lines, strs(&["Response is not a string", "", "Enter your message"]));
    let sending = || ClientState::Sending {
        token: "t".to_string(),
        message: chat_app::client::Message { receiver_id: "r".to_string(), content: "c".to_string() },
    };
    let (_, lines) = step(sending(), ClientEvent::SendReply(Reply::Success("Success".to_string())));
    assert_eq!(lines, strs(&["Unexpected response: Success", "Message sending failed", "", "Enter Receiver Id"]));
    let (_, lines) = step(sending(), ClientEvent::SendReply(Reply::Failed("net".to_string())));
    assert_eq!(lines, strs(&["Error sending message: net", "", "Enter Receiver Id"]));
}

#[test]
fn a_failed_inbox_request_stops_the_client() {
    let fetching = ClientState::FetchingInbox {
        token: "t".to_string(),
        message: chat_app::client::Message { receiver_id: "r".to_string(), content: "c".to_string() },
    };
    let (s, lines) = step(fetching, ClientEvent::InboxReply(Reply::Failed("down".to_string())));
    assert!(lines.is_empty());
    match s {
        ClientState::Stopped { error } => assert_eq!(error, "down"),
        _ => panic!("expected the client to stop"),
    }
}

#[test]
fn unexpected_events_change_nothing() {
    let (s, lines) = step(ClientState::AwaitChoice, ClientEvent::SendReply(Reply::Failed("x".to_string())));
    assert!(matches!(s, ClientState::AwaitChoice));
    assert!(lines.is_empty());
    let (s, lines) = step(ClientState::Exited, line("1"));
    assert!(matches!(s, ClientState::Exited));
    assert!(lines.is_empty());
}

#[test]
fn received_messages_are_listed_or_reported_missing() {
    assert_eq!(received_lines(&None), strs(&["No messages found in Received message"]));
    assert_eq!(received_lines(&Some(vec![])), strs(&["Message Received: "]));
    assert!(send_succeeded("  Message sent successfully "));
    assert!(!send_succeeded("Message sent"));
}
