//! The interactive terminal client.
//!
//! The client is a state machine: each line that the user types and each
//! answer of the service is an event; `step` gives the next state and the
//! lines to print. The state tells the driver what to do next: read a line,
//! or send one of the four requests and report the answer.

use vstd::prelude::*;
use vstd::string::*;

use crate::text::{concat2, owned, parse_u32, parse_u32_seq, same_text, trim, trim_seq};

verus! {

/// The credentials that the client logs in with.
#[derive(Debug)]
pub struct Auth {
    pub userid: String,
    pub password: String,
}

/// The user that the client asks to talk to.
#[derive(Debug)]
pub struct ReceiveUser {
    pub receiver_id: String,
}

/// A message that the client sends.
#[derive(Debug)]
pub struct Message {
    pub receiver_id: String,
    pub content: String,
}

/// How the service answered a request: successfully with a value read from
/// the answer, with a failure status (its text and the answer's body), or not
/// at all (the error's text).
pub enum Reply<T> {
    Success(T),
    Refused { status: String, text: String },
    Failed(String),
}

/// A reply taken by its characters.
pub enum ReplyView<V> {
    Success(V),
    Refused { status: Seq<char>, text: Seq<char> },
    Failed(Seq<char>),
}

impl<T: DeepView> DeepView for Reply<T> {
    type V = ReplyView<T::V>;

    open spec fn deep_view(&self) -> ReplyView<T::V> {
        match self {
            Reply::Success(v) => ReplyView::Success(v.deep_view()),
            Reply::Refused { status, text } => ReplyView::Refused { status: status@, text: text@ },
            Reply::Failed(e) => ReplyView::Failed(e@),
        }
    }
}

/// Where the client stands.
pub enum ClientState {
    /// The menu is shown; the next line is the choice.
    AwaitChoice,
    /// The next line is the user id.
    AwaitUserId,
    /// The next line is the password of `userid`.
    AwaitPassword { userid: String },
    /// The login request with `auth` goes out next.
    LoggingIn { auth: Auth },
    /// Logged in with `token`; the next line is the receiver's id.
    AwaitReceiver { token: String },
    /// The request to talk to `receiver` goes out next.
    StartingConversation { token: String, receiver: ReceiveUser },
    /// Talking to `receiver_id`; the next line is a message.
    AwaitMessage { token: String, receiver_id: String },
    /// The request for received messages goes out next, then `message`.
    FetchingInbox { token: String, message: Message },
    /// `message` goes out next.
    Sending { token: String, message: Message },
    /// The user chose to leave.
    Exited,
    /// Fetching the received messages failed with `error`; the client stops
    /// with that error.
    Stopped { error: String },
}

/// A client state taken by its characters.
pub enum ClientStateView {
    AwaitChoice,
    AwaitUserId,
    AwaitPassword { userid: Seq<char> },
    LoggingIn { userid: Seq<char>, password: Seq<char> },
    AwaitReceiver { token: Seq<char> },
    StartingConversation { token: Seq<char>, receiver_id: Seq<char> },
    AwaitMessage { token: Seq<char>, receiver_id: Seq<char> },
    FetchingInbox { token: Seq<char>, receiver_id: Seq<char>, content: Seq<char> },
    Sending { token: Seq<char>, receiver_id: Seq<char>, content: Seq<char> },
    Exited,
    Stopped { error: Seq<char> },
}

impl DeepView for ClientState {
    type V = ClientStateView;

    open spec fn deep_view(&self) -> ClientStateView {
        match self {
            ClientState::AwaitChoice => ClientStateView::AwaitChoice,
            ClientState::AwaitUserId => ClientStateView::AwaitUserId,
            ClientState::AwaitPassword { userid } => ClientStateView::AwaitPassword {
                userid: userid@,
            },
            ClientState::LoggingIn { auth } => ClientStateView::LoggingIn {
                userid: auth.userid@,
                password: auth.password@,
            },
            ClientState::AwaitReceiver { token } => ClientStateView::AwaitReceiver {
                token: token@,
            },
            ClientState::StartingConversation { token, receiver } =>
                ClientStateView::StartingConversation {
                token: token@,
                receiver_id: receiver.receiver_id@,
            },
            ClientState::AwaitMessage { token, receiver_id } => ClientStateView::AwaitMessage {
                token: token@,
                receiver_id: receiver_id@,
            },
            ClientState::FetchingInbox { token, message } => ClientStateView::FetchingInbox {
                token: token@,
                receiver_id: message.receiver_id@,
                content: message.content@,
            },
            ClientState::Sending { token, message } => ClientStateView::Sending {
                token: token@,
                receiver_id: message.receiver_id@,
                content: message.content@,
            },
            ClientState::Exited => ClientStateView::Exited,
            ClientState::Stopped { error } => ClientStateView::Stopped { error: error@ },
        }
    }
}

/// What happens to the client.
pub enum ClientEvent {
    /// The user typed a line (without its line break).
    Line(String),
    /// The answer to the login request: the token.
    LoginReply(Reply<String>),
    /// The answer to the request to talk to someone: the answer's body where
    /// it is a JSON string.
    ConversationReply(Reply<Option<String>>),
    /// The answer to the request for received messages: the array in the
    /// field `messages` of the answer's body, if there is one, each element
    /// where it is a string.
    InboxReply(Reply<Option<Vec<Option<String>>>>),
    /// The answer to a sent message: the answer's body.
    SendReply(Reply<String>),
}

/// A client event taken by its characters.
pub enum ClientEventView {
    Line(Seq<char>),
    LoginReply(ReplyView<Seq<char>>),
    ConversationReply(ReplyView<Option<Seq<char>>>),
    InboxReply(ReplyView<Option<Seq<Option<Seq<char>>>>>),
    SendReply(ReplyView<Seq<char>>),
}

impl DeepView for ClientEvent {
    type V = ClientEventView;

    open spec fn deep_view(&self) -> ClientEventView {
        match self {
            ClientEvent::Line(l) => ClientEventView::Line(l@),
            ClientEvent::LoginReply(r) => ClientEventView::LoginReply(r.deep_view()),
            ClientEvent::ConversationReply(r) => ClientEventView::ConversationReply(r.deep_view()),
            ClientEvent::InboxReply(r) => ClientEventView::InboxReply(r.deep_view()),
            ClientEvent::SendReply(r) => ClientEventView::SendReply(r.deep_view()),
        }
    }
}

/// The menu.
pub open spec fn menu_lines() -> Seq<Seq<char>> {
    seq!["Welcome to App"@, ""@, "1. Login"@, "2. Exit"@]
}

/// The menu with the blank lines around it and the question for a choice.
pub open spec fn menu_prompt() -> Seq<Seq<char>> {
    seq![""@] + menu_lines() + seq![""@, "Enter your choice (1-2):"@]
}

/// The users that `loggedin_user` can talk to, as the client lists them.
pub open spec fn user_list_lines(loggedin_user: Seq<char>) -> Seq<Seq<char>> {
    seq!["Total available users "@, ""@] + if loggedin_user == "Swarnjit"@ {
        seq!["Sanjeev"@, "Kamlesh"@]
    } else if loggedin_user == "Sanjeev"@ {
        seq!["Swarnjit"@, "Kamlesh"@]
    } else if loggedin_user == "Kamlesh"@ {
        seq!["Swarnjit"@, "Sanjeev"@]
    } else {
        seq![""@]
    }
}

/// The question for a receiver.
pub open spec fn receiver_prompt() -> Seq<Seq<char>> {
    seq![""@, "Enter Receiver Id"@]
}

/// The question for a message.
pub open spec fn message_prompt() -> Seq<Seq<char>> {
    seq![""@, "Enter your message"@]
}

/// How the received messages are shown.
pub open spec fn inbox_lines(messages: Option<Seq<Option<Seq<char>>>>) -> Seq<Seq<char>> {
    match messages {
        Some(items) => seq!["Message Received: "@] + items.map_values(
            |item: Option<Seq<char>>|
                match item {
                    Some(text) => " "@ + text,
                    None => "Invalid message content"@,
                },
        ),
        None => seq!["No messages found in Received message"@],
    }
}

/// The service confirmed a sent message.
pub open spec fn send_confirmed(body: Seq<char>) -> bool {
    trim_seq(body) == "Message sent successfully"@
}

/// The next state and the lines to print after a choice at the menu.
pub open spec fn after_choice(line: Seq<char>) -> (ClientStateView, Seq<Seq<char>>) {
    match parse_u32_seq(trim_seq(line)) {
        None => (
            ClientStateView::AwaitChoice,
            seq![""@, "Invalid input please make sure you enter valid input"@] + menu_prompt(),
        ),
        Some(choice) => if choice == 1 {
            (ClientStateView::AwaitUserId, seq![""@, "Welcome to Login App"@, ""@, "Enter UserId"@])
        } else if choice == 2 {
            (ClientStateView::Exited, seq![""@, "Exiting App"@, ""@])
        } else {
            (
                ClientStateView::AwaitChoice,
                seq![""@, "Invalid operations, please select a valid option (1-2)."@]
                    + menu_prompt(),
            )
        },
    }
}

/// The next state and the lines to print after the answer to a login.
pub open spec fn after_login(userid: Seq<char>, reply: ReplyView<Seq<char>>) -> (
    ClientStateView,
    Seq<Seq<char>>,
) {
    match reply {
        ReplyView::Success(token) => (
            ClientStateView::AwaitReceiver { token },
            seq![""@, "Login Successfully !"@, ""@] + user_list_lines(userid) + receiver_prompt(),
        ),
        ReplyView::Refused { status, text } => (
            ClientStateView::AwaitChoice,
            seq![""@, "Login failed with status "@ + status + ": "@ + text, ""@] + menu_prompt(),
        ),
        ReplyView::Failed(error) => (
            ClientStateView::AwaitChoice,
            seq!["Error: "@ + error] + menu_prompt(),
        ),
    }
}

/// The next state and the lines to print after the answer to a request to
/// talk to `receiver_id`.
pub open spec fn after_conversation(
    token: Seq<char>,
    receiver_id: Seq<char>,
    reply: ReplyView<Option<Seq<char>>>,
) -> (ClientStateView, Seq<Seq<char>>) {
    match reply {
        ReplyView::Success(body) => (
            ClientStateView::AwaitMessage { token, receiver_id },
            match body {
                Some(text) => seq![text],
                None => seq!["Response is not a string"@],
            } + message_prompt(),
        ),
        ReplyView::Refused { .. } => (
            ClientStateView::AwaitReceiver { token },
            seq![""@, "Invalid receiver ID or Not-active User !"@] + receiver_prompt(),
        ),
        ReplyView::Failed(_) => (
            ClientStateView::AwaitReceiver { token },
            seq!["Failed to start conversation due to an error"@] + receiver_prompt(),
        ),
    }
}

/// The next state and the lines to print after the answer to the request for
/// received messages.
pub open spec fn after_inbox(
    token: Seq<char>,
    receiver_id: Seq<char>,
    content: Seq<char>,
    reply: ReplyView<Option<Seq<Option<Seq<char>>>>>,
) -> (ClientStateView, Seq<Seq<char>>) {
    match reply {
        ReplyView::Success(messages) => (
            ClientStateView::Sending { token, receiver_id, content },
            inbox_lines(messages),
        ),
        ReplyView::Refused { status, text } => (
            ClientStateView::Sending { token, receiver_id, content },
            seq!["Failed "@ + status + ": "@ + text],
        ),
        ReplyView::Failed(error) => (ClientStateView::Stopped { error }, Seq::empty()),
    }
}

/// The next state and the lines to print after the answer to a sent message.
pub open spec fn after_send(
    token: Seq<char>,
    receiver_id: Seq<char>,
    reply: ReplyView<Seq<char>>,
) -> (ClientStateView, Seq<Seq<char>>) {
    match reply {
        ReplyView::Success(body) => if send_confirmed(body) {
            (
                ClientStateView::AwaitMessage { token, receiver_id },
                seq![""@, "Message sent successfully"@] + message_prompt(),
            )
        } else {
            (
                ClientStateView::AwaitReceiver { token },
                seq!["Unexpected response: "@ + body, "Message sending failed"@]
                    + receiver_prompt(),
            )
        },
        ReplyView::Refused { status, text } => (
            ClientStateView::AwaitReceiver { token },
            seq!["failed "@ + status + ": "@ + text, "Message sending failed"@]
                + receiver_prompt(),
        ),
        ReplyView::Failed(error) => (
            ClientStateView::AwaitReceiver { token },
            seq!["Error sending message: "@ + error] + receiver_prompt(),
        ),
    }
}

/// The transitions of the client. An event that the state does not wait for
/// changes nothing and prints nothing.
pub open spec fn client_step(state: ClientStateView, event: ClientEventView) -> (
    ClientStateView,
    Seq<Seq<char>>,
) {
    match (state, event) {
        (ClientStateView::AwaitChoice, ClientEventView::Line(line)) => after_choice(line),
        (ClientStateView::AwaitUserId, ClientEventView::Line(line)) => (
            ClientStateView::AwaitPassword { userid: trim_seq(line) },
            seq![""@, "Enter password"@],
        ),
        (ClientStateView::AwaitPassword { userid }, ClientEventView::Line(line)) => (
            ClientStateView::LoggingIn { userid, password: trim_seq(line) },
            Seq::empty(),
        ),
        (
            ClientStateView::LoggingIn { userid, .. },
            ClientEventView::LoginReply(reply),
        ) => after_login(userid, reply),
        (ClientStateView::AwaitReceiver { token }, ClientEventView::Line(line)) => (
            ClientStateView::StartingConversation { token, receiver_id: trim_seq(line) },
            Seq::empty(),
        ),
        (
            ClientStateView::StartingConversation { token, receiver_id },
            ClientEventView::ConversationReply(reply),
        ) => after_conversation(token, receiver_id, reply),
        (ClientStateView::AwaitMessage { token, receiver_id }, ClientEventView::Line(line)) => (
            ClientStateView::FetchingInbox { token, receiver_id, content: trim_seq(line) },
            seq![""@],
        ),
        (
            ClientStateView::FetchingInbox { token, receiver_id, content },
            ClientEventView::InboxReply(reply),
        ) => after_inbox(token, receiver_id, content, reply),
        (
            ClientStateView::Sending { token, receiver_id, .. },
            ClientEventView::SendReply(reply),
        ) => after_send(token, receiver_id, reply),
        _ => (state, Seq::empty()),
    }
}

fn push_all(lines: &mut Vec<String>, more: Vec<String>)
    ensures
        final(lines).deep_view() == old(lines).deep_view() + more.deep_view(),
{
    let ghost start = lines.deep_view();
    let n = more.len();
    let mut more = more;
    let ghost all = more.deep_view();
    let mut taken: Vec<String> = Vec::new();
    let mut i: usize = 0;
    while i < n
        invariant
            n == all.len(),
            i <= n,
            more.deep_view() == all,
            lines.deep_view() == start + all.take(i as int),
        decreases n - i,
    {
        let line = more[i].clone();
        let ghost before = lines.deep_view();
        lines.push(line);
        assert(lines.deep_view() =~= before.push(all[i as int]));
        assert(start + all.take(i + 1) =~= (start + all.take(i as int)).push(all[i as int]));
        i += 1;
    }
    assert(all.take(n as int) =~= all);
}

/// The menu, line by line.
pub fn display_menu() -> (lines: Vec<String>)
    ensures
        lines.deep_view() == menu_lines(),
{
    let mut lines: Vec<String> = Vec::new();
    lines.push(owned("Welcome to App"));
    lines.push(owned(""));
    lines.push(owned("1. Login"));
    lines.push(owned("2. Exit"));
    assert(lines.deep_view() =~= menu_lines());
    lines
}

fn menu_prompt_lines() -> (lines: Vec<String>)
    ensures
        lines.deep_view() == menu_prompt(),
{
    let mut lines: Vec<String> = Vec::new();
    lines.push(owned(""));
    assert(lines.deep_view() =~= seq![""@]);
    push_all(&mut lines, display_menu());
    let ghost middle = lines.deep_view();
    assert(middle == seq![""@] + menu_lines());
    lines.push(owned(""));
    lines.push(owned("Enter your choice (1-2):"));
    assert(lines.deep_view() =~= middle.push(""@).push("Enter your choice (1-2):"@));
    assert(lines.deep_view() =~= menu_prompt());
    lines
}

/// The users that `loggedin_user` can talk to, line by line: the two other
/// known users, or an empty line for a user the client does not know.
pub fn listof_users(loggedin_user: &str) -> (lines: Vec<String>)
    ensures
        lines.deep_view() == user_list_lines(loggedin_user@),
{
    let mut lines: Vec<String> = Vec::new();
    lines.push(owned("Total available users "));
    lines.push(owned(""));
    if same_text(loggedin_user, "Swarnjit") {
        lines.push(owned("Sanjeev"));
        lines.push(owned("Kamlesh"));
    } else if same_text(loggedin_user, "Sanjeev") {
        lines.push(owned("Swarnjit"));
        lines.push(owned("Kamlesh"));
    } else if same_text(loggedin_user, "Kamlesh") {
        lines.push(owned("Swarnjit"));
        lines.push(owned("Sanjeev"));
    } else {
        lines.push(owned(""));
    }
    assert(lines.deep_view() =~= user_list_lines(loggedin_user@));
    lines
}

/// How the received messages are shown: a heading and one line per message,
/// or a note that the answer held none.
pub fn received_lines(messages: &Option<Vec<Option<String>>>) -> (lines: Vec<String>)
    ensures
        lines.deep_view() == inbox_lines(messages.deep_view()),
{
    let mut lines: Vec<String> = Vec::new();
    match messages {
        Some(items) => {
            lines.push(owned("Message Received: "));
            let ghost views = items.deep_view();
            let ghost shown = views.map_values(
                |item: Option<Seq<char>>|
                    match item {
                        Some(t) => " "@ + t,
                        None => "Invalid message content"@,
                    },
            );
            let n = items.len();
            let mut i: usize = 0;
            while i < n
                invariant
                    n == views.len(),
                    views == items.deep_view(),
                    i <= n,
                    shown == views.map_values(
                        |item: Option<Seq<char>>|
                            match item {
                                Some(t) => " "@ + t,
                                None => "Invalid message content"@,
                            },
                    ),
                    lines.deep_view() == seq!["Message Received: "@] + shown.take(i as int),
                decreases n - i,
            {
                let line = match &items[i] {
                    Some(t) => concat2(" ", t.as_str()),
                    None => owned("Invalid message content"),
                };
                assert(line@ == shown[i as int]);
                let ghost before = lines.deep_view();
                lines.push(line);
                assert(lines.deep_view() =~= before.push(shown[i as int]));
                assert(seq!["Message Received: "@] + shown.take(i + 1) =~= (seq![
                    "Message Received: "@,
                ] + shown.take(i as int)).push(shown[i as int]));
                i += 1;
            }
            assert(shown.take(n as int) =~= shown);
        },
        None => {
            lines.push(owned("No messages found in Received message"));
            assert(lines.deep_view() =~= seq!["No messages found in Received message"@]);
        },
    }
    lines
}

/// Whether the answer to a sent message confirms it.
pub fn send_succeeded(body: &str) -> (r: bool)
    ensures
        r == send_confirmed(body@),
{
    let trimmed = trim(body);
    same_text(trimmed.as_str(), "Message sent successfully")
}

fn on_choice(line: &str) -> (r: (ClientState, Vec<String>))
    ensures
        (r.0.deep_view(), r.1.deep_view()) == after_choice(line@),
{
    let trimmed = trim(line);
    let mut lines: Vec<String> = Vec::new();
    match parse_u32(trimmed.as_str()) {
        None => {
            lines.push(owned(""));
            lines.push(owned("Invalid input please make sure you enter valid input"));
            let ghost first = lines.deep_view();
            push_all(&mut lines, menu_prompt_lines());
            assert(first =~= seq![""@, "Invalid input please make sure you enter valid input"@]);
            (ClientState::AwaitChoice, lines)
        },
        Some(choice) => {
            if choice == 1 {
                lines.push(owned(""));
                lines.push(owned("Welcome to Login App"));
                lines.push(owned(""));
                lines.push(owned("Enter UserId"));
                assert(lines.deep_view() =~= seq![
                    ""@,
                    "Welcome to Login App"@,
                    ""@,
                    "Enter UserId"@,
                ]);
                (ClientState::AwaitUserId, lines)
            } else if choice == 2 {
                lines.push(owned(""));
                lines.push(owned("Exiting App"));
                lines.push(owned(""));
                assert(lines.deep_view() =~= seq![""@, "Exiting App"@, ""@]);
                (ClientState::Exited, lines)
            } else {
                lines.push(owned(""));
                lines.push(owned("Invalid operations, please select a valid option (1-2)."));
                let ghost first = lines.deep_view();
                push_all(&mut lines, menu_prompt_lines());
                assert(first =~= seq![
                    ""@,
                    "Invalid operations, please select a valid option (1-2)."@,
                ]);
                (ClientState::AwaitChoice, lines)
            }
        },
    }
}

fn receiver_prompt_lines() -> (lines: Vec<String>)
    ensures
        lines.deep_view() == receiver_prompt(),
{
    let mut lines: Vec<String> = Vec::new();
    lines.push(owned(""));
    lines.push(owned("Enter Receiver Id"));
    assert(lines.deep_view() =~= receiver_prompt());
    lines
}

fn message_prompt_lines() -> (lines: Vec<String>)
    ensures
        lines.deep_view() == message_prompt(),
{
    let mut lines: Vec<String> = Vec::new();
    lines.push(owned(""));
    lines.push(owned("Enter your message"));
    assert(lines.deep_view() =~= message_prompt());
    lines
}

fn status_line(prefix: &str, status: &str, body: &str) -> (r: String)
    ensures
        r@ == prefix@ + status@ + ": "@ + body@,
{
    concat2(concat2(concat2(prefix, status).as_str(), ": ").as_str(), body)
}

fn on_login(auth: Auth, reply: Reply<String>) -> (r: (ClientState, Vec<String>))
    ensures
        (r.0.deep_view(), r.1.deep_view()) == after_login(auth.userid@, reply.deep_view()),
{
    let mut lines: Vec<String> = Vec::new();
    match reply {
        Reply::Success(token) => {
            lines.push(owned(""));
            lines.push(owned("Login Successfully !"));
            lines.push(owned(""));
            let ghost first = lines.deep_view();
            assert(first =~= seq![""@, "Login Successfully !"@, ""@]);
            push_all(&mut lines, listof_users(auth.userid.as_str()));
            push_all(&mut lines, receiver_prompt_lines());
            (ClientState::AwaitReceiver { token }, lines)
        },
        Reply::Refused { status, text: body } => {
            lines.push(owned(""));
            lines.push(status_line("Login failed with status ", status.as_str(), body.as_str()));
            lines.push(owned(""));
            let ghost first = lines.deep_view();
            assert(first =~= seq![
                ""@,
                "Login failed with status "@ + status@ + ": "@ + body@,
                ""@,
            ]);
            push_all(&mut lines, menu_prompt_lines());
            (ClientState::AwaitChoice, lines)
        },
        Reply::Failed(error) => {
            lines.push(concat2("Error: ", error.as_str()));
            let ghost first = lines.deep_view();
            assert(first =~= seq!["Error: "@ + error@]);
            push_all(&mut lines, menu_prompt_lines());
            (ClientState::AwaitChoice, lines)
        },
    }
}

fn on_conversation(token: String, receiver: ReceiveUser, reply: Reply<Option<String>>) -> (r: (
    ClientState,
    Vec<String>,
))
    ensures
        (r.0.deep_view(), r.1.deep_view()) == after_conversation(
            token@,
            receiver.receiver_id@,
            reply.deep_view(),
        ),
{
    let mut lines: Vec<String> = Vec::new();
    match reply {
        Reply::Success(body) => {
            match body {
                Some(message) => {
                    let ghost m = message@;
                    lines.push(message);
                    assert(lines.deep_view() =~= seq![m]);
                },
                None => {
                    lines.push(owned("Response is not a string"));
                    assert(lines.deep_view() =~= seq!["Response is not a string"@]);
                },
            }
            push_all(&mut lines, message_prompt_lines());
            (ClientState::AwaitMessage { token, receiver_id: receiver.receiver_id }, lines)
        },
        Reply::Refused { .. } => {
            lines.push(owned(""));
            lines.push(owned("Invalid receiver ID or Not-active User !"));
            assert(lines.deep_view() =~= seq![""@, "Invalid receiver ID or Not-active User !"@]);
            push_all(&mut lines, receiver_prompt_lines());
            (ClientState::AwaitReceiver { token }, lines)
        },
        Reply::Failed(_) => {
            lines.push(owned("Failed to start conversation due to an error"));
            assert(lines.deep_view() =~= seq!["Failed to start conversation due to an error"@]);
            push_all(&mut lines, receiver_prompt_lines());
            (ClientState::AwaitReceiver { token }, lines)
        },
    }
}

fn on_inbox(token: String, message: Message, reply: Reply<Option<Vec<Option<String>>>>) -> (r: (
    ClientState,
    Vec<String>,
))
    ensures
        (r.0.deep_view(), r.1.deep_view()) == after_inbox(
            token@,
            message.receiver_id@,
            message.content@,
            reply.deep_view(),
        ),
{
    match reply {
        Reply::Success(messages) => {
            let lines = received_lines(&messages);
            (ClientState::Sending { token, message }, lines)
        },
        Reply::Refused { status, text: body } => {
            let mut lines: Vec<String> = Vec::new();
            lines.push(status_line("Failed ", status.as_str(), body.as_str()));
            assert(lines.deep_view() =~= seq!["Failed "@ + status@ + ": "@ + body@]);
            (ClientState::Sending { token, message }, lines)
        },
        Reply::Failed(error) => {
            let lines: Vec<String> = Vec::new();
            assert(lines.deep_view() =~= Seq::<Seq<char>>::empty());
            (ClientState::Stopped { error }, lines)
        },
    }
}

fn on_send(token: String, message: Message, reply: Reply<String>) -> (r: (ClientState, Vec<String>))
    ensures
        (r.0.deep_view(), r.1.deep_view()) == after_send(
            token@,
            message.receiver_id@,
            reply.deep_view(),
        ),
{
    let mut lines: Vec<String> = Vec::new();
    match reply {
        Reply::Success(body) => {
            if send_succeeded(body.as_str()) {
                lines.push(owned(""));
                lines.push(owned("Message sent successfully"));
                assert(lines.deep_view() =~= seq![""@, "Message sent successfully"@]);
                push_all(&mut lines, message_prompt_lines());
                (ClientState::AwaitMessage { token, receiver_id: message.receiver_id }, lines)
            } else {
                lines.push(concat2("Unexpected response: ", body.as_str()));
                lines.push(owned("Message sending failed"));
                assert(lines.deep_view() =~= seq![
                    "Unexpected response: "@ + body@,
                    "Message sending failed"@,
                ]);
                push_all(&mut lines, receiver_prompt_lines());
                (ClientState::AwaitReceiver { token }, lines)
            }
        },
        Reply::Refused { status, text: body } => {
            lines.push(status_line("failed ", status.as_str(), body.as_str()));
            lines.push(owned("Message sending failed"));
            assert(lines.deep_view() =~= seq![
                "failed "@ + status@ + ": "@ + body@,
                "Message sending failed"@,
            ]);
            push_all(&mut lines, receiver_prompt_lines());
            (ClientState::AwaitReceiver { token }, lines)
        },
        Reply::Failed(error) => {
            lines.push(concat2("Error sending message: ", error.as_str()));
            assert(lines.deep_view() =~= seq!["Error sending message: "@ + error@]);
            push_all(&mut lines, receiver_prompt_lines());
            (ClientState::AwaitReceiver { token }, lines)
        },
    }
}

/// Where the client starts: the menu is shown and a choice is awaited.
pub fn begin() -> (r: (ClientState, Vec<String>))
    ensures
        r.0.deep_view() == ClientStateView::AwaitChoice,
        r.1.deep_view() == menu_prompt(),
{
    (ClientState::AwaitChoice, menu_prompt_lines())
}

/// The next state of the client and the lines to print, for `event` in `state`.
pub fn step(state: ClientState, event: ClientEvent) -> (r: (ClientState, Vec<String>))
    ensures
        (r.0.deep_view(), r.1.deep_view()) == client_step(state.deep_view(), event.deep_view()),
{
    match (state, event) {
        (ClientState::AwaitChoice, ClientEvent::Line(line)) => on_choice(line.as_str()),
        (ClientState::AwaitUserId, ClientEvent::Line(line)) => {
            let mut lines: Vec<String> = Vec::new();
            lines.push(owned(""));
            lines.push(owned("Enter password"));
            assert(lines.deep_view() =~= seq![""@, "Enter password"@]);
            (ClientState::AwaitPassword { userid: trim(line.as_str()) }, lines)
        },
        (ClientState::AwaitPassword { userid }, ClientEvent::Line(line)) => {
            let lines: Vec<String> = Vec::new();
            assert(lines.deep_view() =~= Seq::<Seq<char>>::empty());
            let auth = Auth { userid, password: trim(line.as_str()) };
            (ClientState::LoggingIn { auth }, lines)
        },
        (ClientState::LoggingIn { auth }, ClientEvent::LoginReply(reply)) => on_login(auth, reply),
        (ClientState::AwaitReceiver { token }, ClientEvent::Line(line)) => {
            let lines: Vec<String> = Vec::new();
            assert(lines.deep_view() =~= Seq::<Seq<char>>::empty());
            let receiver = ReceiveUser { receiver_id: trim(line.as_str()) };
            (ClientState::StartingConversation { token, receiver }, lines)
        },
        (
            ClientState::StartingConversation { token, receiver },
            ClientEvent::ConversationReply(reply),
        ) => on_conversation(token, receiver, reply),
        (ClientState::AwaitMessage { token, receiver_id }, ClientEvent::Line(line)) => {
            let mut lines: Vec<String> = Vec::new();
            lines.push(owned(""));
            assert(lines.deep_view() =~= seq![""@]);
            let message = Message { receiver_id, content: trim(line.as_str()) };
            (ClientState::FetchingInbox { token, message }, lines)
        },
        (ClientState::FetchingInbox { token, message }, ClientEvent::InboxReply(reply)) => on_inbox(
            token,
            message,
            reply,
        ),
        (ClientState::Sending { token, message }, ClientEvent::SendReply(reply)) => on_send(
            token,
            message,
            reply,
        ),
        (state, _) => {
            let lines: Vec<String> = Vec::new();
            assert(lines.deep_view() =~= Seq::<Seq<char>>::empty());
            (state, lines)
        },
    }
}

/// After the answer to a sent message, the client goes on with the same
/// conversation only where the answer's body, trimmed, is `Message sent
/// successfully`; any other answer (another body, a failure status, no
/// answer) sends it back to asking for a receiver, with the same token.
pub proof fn lemma_send_outcome(
    token: Seq<char>,
    receiver_id: Seq<char>,
    content: Seq<char>,
    reply: ReplyView<Seq<char>>,
)
    ensures
        ({
            let next = client_step(
                ClientStateView::Sending { token, receiver_id, content },
                ClientEventView::SendReply(reply),
            ).0;
            if reply matches ReplyView::Success(body) && trim_seq(body)
                == "Message sent successfully"@ {
                next == ClientStateView::AwaitMessage { token, receiver_id }
            } else {
                next == ClientStateView::AwaitReceiver { token }
            }
        }),
{
}

} // verus!
