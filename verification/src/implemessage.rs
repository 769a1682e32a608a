//! The first design of the message store: messages are kept under the key
//! `sender_receiver`, and a receiver reads what was sent to it per sender.

use vstd::prelude::*;
use vstd::string::*;

use crate::json::{json_object_of_string, json_object_with_string};
use crate::login::{SessionDatabase, SessionView, session_text};
use crate::request::{RequestBody, RequestHead};
use crate::status::StatusCode;
use crate::strmap::{
    StrMap,
    distinct_keys,
    has_key,
    key_index,
    lemma_append_view,
    lemma_entry_in_view,
    pairs_append,
    pairs_insert,
    pairs_view,
    values_under,
};
use crate::message::user_has_session;
use crate::text::{free_of, join_underscore, lemma_split_joined, same_text, split_on, split_seq};

verus! {

/// A message and the user who wrote it.
#[derive(Clone, Debug)]
pub struct Message {
    pub content: String,
    pub owner: String,
}

/// A message taken by its characters.
pub struct MessageView {
    pub content: Seq<char>,
    pub owner: Seq<char>,
}

impl DeepView for Message {
    type V = MessageView;

    open spec fn deep_view(&self) -> MessageView {
        MessageView { content: self.content@, owner: self.owner@ }
    }
}

impl Message {
    /// A copy of this message.
    pub fn copied(&self) -> (m: Self)
        ensures
            m.deep_view() == self.deep_view(),
    {
        Message { content: self.content.clone(), owner: self.owner.clone() }
    }
}

/// A request to talk to the user `receiver_id`.
#[derive(Clone, Debug)]
pub struct Conversation {
    pub receiver_id: String,
}

/// A user named by id.
#[derive(Clone, Debug)]
pub struct ReceiverUser {
    pub userid: String,
}

/// The messages and the conversations.
#[derive(Debug)]
pub struct InMemoryDatabase {
    chat: StrMap<Vec<Message>>,
    connections: StrMap<String>,
}

/// The key of what `sender` sends to `receiver`.
pub open spec fn chat_key(sender: Seq<char>, receiver: Seq<char>) -> Seq<char> {
    sender + seq!['_'] + receiver
}

/// The messages of the chat entries, in order, whose key splits at
/// underscores into exactly two pieces, the second of them `receiver`.
pub open spec fn addressed_to(chat: Seq<(Seq<char>, Seq<MessageView>)>, receiver: Seq<char>) -> Seq<
    MessageView,
>
    decreases chat.len(),
{
    if chat.len() == 0 {
        Seq::<MessageView>::empty()
    } else {
        let prev = addressed_to(chat.drop_last(), receiver);
        let pieces = split_seq(chat.last().0, '_');
        if pieces.len() == 2 && pieces[1] == receiver {
            prev + chat.last().1
        } else {
            prev
        }
    }
}

impl InMemoryDatabase {
    /// The keys with their messages, in the order of their first message.
    pub closed spec fn chat(&self) -> Seq<(Seq<char>, Seq<MessageView>)> {
        self.chat.pairs()
    }

    /// The connections, in the order in which they were made.
    pub closed spec fn connection_entries(&self) -> Seq<(Seq<char>, Seq<char>)> {
        self.connections.pairs()
    }

    /// The connections by key.
    pub open spec fn connections(&self) -> Map<Seq<char>, Seq<char>> {
        pairs_view(self.connection_entries())
    }

    /// Brings into a caller's proof that neither table holds a key twice (the
    /// invariant of the maps that hold them).
    pub fn assert_distinct_keys(&self)
        ensures
            distinct_keys(self.chat()),
            distinct_keys(self.connection_entries()),
    {
        self.chat.assert_distinct_keys();
        self.connections.assert_distinct_keys();
    }

    /// No messages and no connections.
    pub fn new() -> (db: Self)
        ensures
            db.chat() == Seq::<(Seq<char>, Seq<MessageView>)>::empty(),
            db.connection_entries() == Seq::<(Seq<char>, Seq<char>)>::empty(),
    {
        InMemoryDatabase { chat: StrMap::new(), connections: StrMap::new() }
    }

    /// Keeps `message`, written by `sender`, under the key `sender_receiver`.
    pub fn send_message(&mut self, sender: &str, receiver: &str, message: &str)
        ensures
            final(self).chat() == pairs_append(
                old(self).chat(),
                chat_key(sender@, receiver@),
                MessageView { content: message@, owner: sender@ },
            ),
            pairs_view(final(self).chat()) == pairs_view(old(self).chat()).insert(
                chat_key(sender@, receiver@),
                values_under(old(self).chat(), chat_key(sender@, receiver@)).push(
                    MessageView { content: message@, owner: sender@ },
                ),
            ),
            final(self).connection_entries() == old(self).connection_entries(),
    {
        self.chat.assert_distinct_keys();
        proof {
            lemma_append_view(
                self.chat.pairs(),
                chat_key(sender@, receiver@),
                MessageView { content: message@, owner: sender@ },
            );
        }
        let key = join_underscore(sender, receiver);
        let message_struct = Message { content: message.to_owned(), owner: sender.to_owned() };
        let ghost mv = message_struct.deep_view();
        let ghost before = self.chat.pairs();
        match self.chat.position(key.as_str()) {
            Some(i) => {
                self.chat.assert_distinct_keys();
                proof {
                    lemma_entry_in_view(before, i as int);
                }
                let mut messages = self.chat.replace_at(i, Vec::new());
                messages.push(message_struct);
                self.chat.replace_at(i, messages);
                proof {
                    assert(messages.deep_view() =~= before[i as int].1.push(mv));
                    assert(self.chat.pairs() =~= pairs_append(before, key@, mv));
                }
            },
            None => {
                let mut messages: Vec<Message> = Vec::new();
                messages.push(message_struct);
                proof {
                    assert(messages.deep_view() =~= seq![mv]);
                }
                self.chat.insert(key, messages);
            },
        }
    }

    /// The message that answers from `sender` to `receiver` with `content`;
    /// nothing is kept.
    pub fn send_response(&self, sender: &str, receiver: &str, content: &str) -> (m: Message)
        ensures
            m.deep_view() == (MessageView { content: content@, owner: sender@ }),
    {
        Message { content: content.to_owned(), owner: sender.to_owned() }
    }

    /// The messages sent to `receiver_id`: those of every key `sender_receiver`
    /// with exactly one underscore whose second part is `receiver_id`, in the
    /// order of the chat.
    pub fn get_receiver(&self, receiver_id: &str) -> (messages: Vec<Message>)
        ensures
            messages.deep_view() == addressed_to(self.chat(), receiver_id@),
    {
        let mut messages: Vec<Message> = Vec::new();
        let ghost chat = self.chat.pairs();
        let receiver = receiver_id.to_owned();
        let n = self.chat.len();
        let mut i: usize = 0;
        assert(chat.take(0) =~= Seq::<(Seq<char>, Seq<MessageView>)>::empty());
        assert(messages.deep_view() =~= Seq::<MessageView>::empty());
        while i < n
            invariant
                n == chat.len(),
                chat == self.chat.pairs(),
                i <= n,
                receiver@ == receiver_id@,
                messages.deep_view() == addressed_to(chat.take(i as int), receiver_id@),
            decreases n - i,
        {
            let (key, value) = self.chat.entry_at(i);
            let parts = split_on(key.as_str(), '_');
            assert(chat.take(i + 1).drop_last() =~= chat.take(i as int));
            if parts.len() == 2 && parts[1] == receiver {
                let ghost base = messages.deep_view();
                let m = value.len();
                let mut j: usize = 0;
                assert(base + value.deep_view().take(0) =~= base);
                while j < m
                    invariant
                        m == value@.len(),
                        j <= m,
                        messages.deep_view() == base + value.deep_view().take(j as int),
                    decreases m - j,
                {
                    let copy = value[j].copied();
                    let ghost before = messages.deep_view();
                    messages.push(copy);
                    assert(messages.deep_view() =~= before.push(copy.deep_view()));
                    assert(base + value.deep_view().take(j + 1) =~= (base + value.deep_view().take(
                        j as int,
                    )).push(value.deep_view()[j as int]));
                    j += 1;
                }
                assert(value.deep_view().take(m as int) =~= value.deep_view());
            }
            i += 1;
        }
        assert(chat.take(n as int) =~= chat);
        messages
    }
}

/// Keeps a message that arrived as the body of a request: where the body was a
/// message, stores it from its owner to `receiver` and answers the JSON object
/// `{"message":"Message sent"}`; otherwise stores nothing and answers
/// `{"error":"Failed to deserialize message"}`.
pub fn send_message(db: &mut InMemoryDatabase, message: Option<Message>, receiver: &str) -> (r:
    String)
    ensures
        match message {
            Some(m) => {
                &&& r@ == json_object_of_string("message"@, "Message sent"@)
                &&& final(db).chat() == pairs_append(
                    old(db).chat(),
                    chat_key(m.owner@, receiver@),
                    m.deep_view(),
                )
            },
            None => {
                &&& r@ == json_object_of_string("error"@, "Failed to deserialize message"@)
                &&& final(db).chat() == old(db).chat()
            },
        },
        final(db).connection_entries() == old(db).connection_entries(),
{
    match message {
        Some(m) => {
            db.send_message(m.owner.as_str(), receiver, m.content.as_str());
            json_object_with_string("message", "Message sent")
        },
        None => json_object_with_string("error", "Failed to deserialize message"),
    }
}

/// The messages kept under `sender_receiver`, or none.
pub fn get_receiver_msg(db: &InMemoryDatabase, sender: String, receiver: String) -> (messages: Vec<
    Message,
>)
    ensures
        messages.deep_view() == values_under(db.chat(), chat_key(sender@, receiver@)),
{
    let key = join_underscore(sender.as_str(), receiver.as_str());
    match db.chat.get(key.as_str()) {
        Some(found) => {
            let mut messages: Vec<Message> = Vec::new();
            let m = found.len();
            let mut j: usize = 0;
            while j < m
                invariant
                    m == found@.len(),
                    j <= m,
                    messages.deep_view() == found.deep_view().take(j as int),
                decreases m - j,
            {
                let ghost before = messages.deep_view();
                let copy = found[j].copied();
                messages.push(copy);
                assert(messages.deep_view() =~= before.push(copy.deep_view()));
                assert(found.deep_view().take(j + 1) =~= found.deep_view().take(j as int).push(
                    found.deep_view()[j as int],
                ));
                j += 1;
            }
            assert(found.deep_view().take(m as int) =~= found.deep_view());
            messages
        },
        None => {
            let messages: Vec<Message> = Vec::new();
            assert(messages.deep_view() =~= Seq::<MessageView>::empty());
            messages
        },
    }
}

/// Whether a request may go on: the login request always may, any other only
/// with the token of an open session.
pub fn validate_token(req: &RequestHead, token: &str, session_db: &SessionDatabase) -> (r: bool)
    ensures
        r == (crate::message::is_login_request(req.method@, req.path@)
            || session_db@.contains_key(token@)),
{
    crate::message::validate_token(req, token, session_db)
}

/// The user id of the last session, in the order of the sessions, whose own
/// token is `token`; empty where there is none.
pub open spec fn sender_of_token(sessions: Seq<(Seq<char>, SessionView)>, token: Seq<char>) -> Seq<
    char,
>
    decreases sessions.len(),
{
    if sessions.len() == 0 {
        Seq::<char>::empty()
    } else if sessions.last().1.token == token {
        sessions.last().1.userid
    } else {
        sender_of_token(sessions.drop_last(), token)
    }
}

/// The answer to a request to talk to `receiver` (`None` where the request
/// body was not a user).
pub open spec fn registration_result(
    sessions: Seq<(Seq<char>, SessionView)>,
    connections: Map<Seq<char>, Seq<char>>,
    receiver: Option<Seq<char>>,
) -> Result<Seq<char>, StatusCode> {
    match receiver {
        None => Err(StatusCode::BadRequest),
        Some(r) => if !user_has_session(sessions, r) {
            Err(StatusCode::NotFound)
        } else if connections.contains_key(r) {
            Err(StatusCode::SeeOther)
        } else {
            Ok("Success"@)
        },
    }
}

/// The connections after a request to talk to `receiver`: where the receiver
/// has a session, the key `receiver` takes the sender's id.
pub open spec fn connections_after_registration(
    sessions: Seq<(Seq<char>, SessionView)>,
    connections: Seq<(Seq<char>, Seq<char>)>,
    token: Seq<char>,
    receiver: Option<Seq<char>>,
) -> Seq<(Seq<char>, Seq<char>)> {
    match receiver {
        Some(r) => if user_has_session(sessions, r) {
            pairs_insert(connections, r, sender_of_token(sessions, token))
        } else {
            connections
        },
        None => connections,
    }
}

/// Connects the user of `token` with the user that the request body names.
/// The sender is the user of the last session whose token is `token` (no one,
/// the empty id, where there is none). Answers `BadRequest` where the body was
/// not a user and `NotFound` where the receiver has no session; otherwise
/// stores the sender under the receiver's id and answers `Success`, or
/// `SeeOther` where something was stored under that id already (the new sender
/// replaces it all the same).
pub fn start_conversation(
    token: &str,
    db: &mut InMemoryDatabase,
    session_db: &SessionDatabase,
    receiver: Option<ReceiverUser>,
) -> (r: Result<String, StatusCode>)
    ensures
        ({
            let expected = registration_result(
                session_db.pairs(),
                old(db).connections(),
                match receiver {
                    Some(u) => Some(u.userid@),
                    None => None,
                },
            );
            match r {
                Ok(text) => expected == Ok::<Seq<char>, StatusCode>(text@),
                Err(e) => expected == Err::<Seq<char>, StatusCode>(e),
            }
        }),
        final(db).connection_entries() == connections_after_registration(
            session_db.pairs(),
            old(db).connection_entries(),
            token@,
            match receiver {
                Some(u) => Some(u.userid@),
                None => None,
            },
        ),
        final(db).chat() == old(db).chat(),
{
    proof {
        reveal_strlit("Success");
    }
    let wanted = token.to_owned();
    let mut sender = String::new();
    let ghost order = session_db.pairs();
    let n = session_db.len();
    let mut i: usize = 0;
    assert(order.take(0) =~= Seq::<(Seq<char>, SessionView)>::empty());
    while i < n
        invariant
            n == order.len(),
            order == session_db.pairs(),
            i <= n,
            wanted@ == token@,
            sender@ == sender_of_token(order.take(i as int), token@),
        decreases n - i,
    {
        let (_key, session) = session_db.entry_at(i);
        assert(order.take(i + 1).drop_last() =~= order.take(i as int));
        if session.token == wanted {
            sender = session.userid.clone();
        }
        i += 1;
    }
    assert(order.take(n as int) =~= order);
    let receiver = match receiver {
        Some(u) => u,
        None => {
            return Err(StatusCode::BadRequest);
        },
    };
    let receiver_id = receiver.userid.clone();
    match crate::message::check_user_online(receiver_id.as_str(), session_db) {
        Some(_) => match db.connections.insert(receiver_id, sender) {
            Some(_) => Err(StatusCode::SeeOther),
            None => Ok(crate::text::owned("Success")),
        },
        None => Err(StatusCode::NotFound),
    }
}

/// Handles a message sent by request: answers `Unauthorized` where the token
/// is not accepted, `MethodNotAllowed` for any method but `POST`, and
/// `InternalServerError` where the body could not be read; otherwise passes
/// the body to `send_message` with the receiver id `receiver_id` and answers
/// with what that gives.
pub fn handle_send_message(
    token: &str,
    db: &mut InMemoryDatabase,
    session_db: &SessionDatabase,
    req: &RequestHead,
    body: RequestBody<Message>,
) -> (r: Result<String, StatusCode>)
    ensures
        !(crate::message::is_login_request(req.method@, req.path@) || session_db@.contains_key(
            token@,
        )) ==> r == Err::<String, StatusCode>(StatusCode::Unauthorized),
        (crate::message::is_login_request(req.method@, req.path@) || session_db@.contains_key(
            token@,
        )) ==> {
            if req.method@ != "POST"@ {
                r == Err::<String, StatusCode>(StatusCode::MethodNotAllowed)
            } else {
                match body {
                    RequestBody::Unreadable => r == Err::<String, StatusCode>(
                        StatusCode::InternalServerError,
                    ),
                    RequestBody::Malformed => r matches Ok(text) && text@ == json_object_of_string(
                        "error"@,
                        "Failed to deserialize message"@,
                    ),
                    RequestBody::Parsed(m) => {
                        &&& r matches Ok(text) && text@ == json_object_of_string(
                            "message"@,
                            "Message sent"@,
                        )
                        &&& final(db).chat() == pairs_append(
                            old(db).chat(),
                            chat_key(m.owner@, "receiver_id"@),
                            m.deep_view(),
                        )
                    },
                }
            }
        },
        r is Err || body !is Parsed ==> final(db).chat() == old(db).chat(),
        final(db).connection_entries() == old(db).connection_entries(),
{
    proof {
        reveal_strlit("POST");
        reveal_strlit("receiver_id");
    }
    if !validate_token(req, token, session_db) {
        return Err(StatusCode::Unauthorized);
    }
    if !same_text(req.method.as_str(), "POST") {
        return Err(StatusCode::MethodNotAllowed);
    }
    match body {
        RequestBody::Unreadable => Err(StatusCode::InternalServerError),
        RequestBody::Malformed => Ok(send_message(db, None, "receiver_id")),
        RequestBody::Parsed(m) => Ok(send_message(db, Some(m), "receiver_id")),
    }
}

/// Handles a request for received messages: answers `Unauthorized` where the
/// token is not accepted or opens no session; otherwise gives the messages
/// kept under the user id joined to the session's text (`Session ID: ` and
/// the user id).
pub fn handle_receiver_message(
    token: &str,
    db: &InMemoryDatabase,
    session_db: &SessionDatabase,
    req: &RequestHead,
) -> (r: Result<Vec<Message>, StatusCode>)
    ensures
        !session_db@.contains_key(token@) ==> r == Err::<Vec<Message>, StatusCode>(
            StatusCode::Unauthorized,
        ),
        session_db@.contains_key(token@) ==> (r matches Ok(messages) && messages.deep_view()
            == values_under(
            db.chat(),
            chat_key(
                session_db@[token@].userid,
                session_text(session_db@[token@].userid),
            ),
        )),
{
    if !validate_token(req, token, session_db) {
        return Err(StatusCode::Unauthorized);
    }
    let receiver_id = match session_db.get(token) {
        Some(session) => session.to_string(),
        None => {
            return Err(StatusCode::Unauthorized);
        },
    };
    let sender_id = match crate::message::extract_sender_id(token, session_db) {
        Some(id) => id,
        None => {
            return Err(StatusCode::InternalServerError);
        },
    };
    Ok(get_receiver_msg(db, sender_id, receiver_id))
}

/// What was sent from `sender` to `receiver` is read back, after what was
/// there before: `get_receiver_msg` gives the messages under `sender_receiver`
/// with the one that `send_message` kept last.
pub proof fn lemma_sent_message_read_back(
    chat: Seq<(Seq<char>, Seq<MessageView>)>,
    sender: Seq<char>,
    receiver: Seq<char>,
    message: MessageView,
)
    requires
        crate::strmap::distinct_keys(chat),
    ensures
        values_under(pairs_append(chat, chat_key(sender, receiver), message), chat_key(sender, receiver))
            == values_under(chat, chat_key(sender, receiver)).push(message),
{
    lemma_append_view(chat, chat_key(sender, receiver), message);
}

/// The messages of an entry addressed to `receiver` are among what
/// `get_receiver` gives `receiver`.
pub proof fn lemma_addressed_to_includes(
    chat: Seq<(Seq<char>, Seq<MessageView>)>,
    receiver: Seq<char>,
    i: int,
    message: MessageView,
)
    requires
        0 <= i < chat.len(),
        split_seq(chat[i].0, '_').len() == 2,
        split_seq(chat[i].0, '_')[1] == receiver,
        chat[i].1.contains(message),
    ensures
        addressed_to(chat, receiver).contains(message),
    decreases chat.len(),
{
    let prev = addressed_to(chat.drop_last(), receiver);
    if i == chat.len() - 1 {
        let k = choose|k: int| 0 <= k < chat[i].1.len() && chat[i].1[k] == message;
        assert((prev + chat.last().1)[prev.len() + k] == message);
    } else {
        lemma_addressed_to_includes(chat.drop_last(), receiver, i, message);
        let k = choose|k: int| 0 <= k < prev.len() && prev[k] == message;
        let pieces = split_seq(chat.last().0, '_');
        if pieces.len() == 2 && pieces[1] == receiver {
            assert((prev + chat.last().1)[k] == message);
        }
    }
}

/// A message sent to a user reaches that user: after `send_message` from
/// `sender` to `receiver`, neither id holding an underscore, what
/// `get_receiver` gives `receiver` holds the message.
pub proof fn lemma_sent_message_reaches_receiver(
    chat: Seq<(Seq<char>, Seq<MessageView>)>,
    sender: Seq<char>,
    receiver: Seq<char>,
    content: Seq<char>,
)
    requires
        free_of(sender, '_'),
        free_of(receiver, '_'),
    ensures
        addressed_to(
            pairs_append(chat, chat_key(sender, receiver), MessageView { content, owner: sender }),
            receiver,
        ).contains(MessageView { content, owner: sender }),
{
    let key = chat_key(sender, receiver);
    let m = MessageView { content, owner: sender };
    let after = pairs_append(chat, key, m);
    lemma_split_joined(sender, receiver, '_');
    let i = if has_key(chat, key) {
        key_index(chat, key)
    } else {
        chat.len() as int
    };
    let before_messages = if has_key(chat, key) {
        chat[i].1
    } else {
        Seq::<MessageView>::empty()
    };
    assert(after[i] == (key, before_messages.push(m)));
    assert(before_messages.push(m)[before_messages.len() as int] == m);
    lemma_addressed_to_includes(after, receiver, i, m);
}

impl Default for InMemoryDatabase {
    /// No messages and no connections.
    fn default() -> (db: Self)
        ensures
            db.chat() == Seq::<(Seq<char>, Seq<MessageView>)>::empty(),
            db.connection_entries() == Seq::<(Seq<char>, Seq<char>)>::empty(),
    {
        InMemoryDatabase::new()
    }
}

/// What a single entry gives a receiver: its messages, in the order in
/// which they were stored, where its key is `sender_receiver` with exactly one
/// underscore; nothing otherwise.
pub proof fn lemma_addressed_to_one_entry(
    key: Seq<char>,
    messages: Seq<MessageView>,
    receiver: Seq<char>,
)
    ensures
        addressed_to(seq![(key, messages)], receiver) == if split_seq(key, '_').len() == 2
            && split_seq(key, '_')[1] == receiver {
            messages
        } else {
            Seq::<MessageView>::empty()
        },
{
    let one = seq![(key, messages)];
    assert(one.drop_last() =~= Seq::<(Seq<char>, Seq<MessageView>)>::empty());
    assert(addressed_to(one.drop_last(), receiver) == Seq::<MessageView>::empty());
    assert(one.last() == (key, messages));
    assert(Seq::<MessageView>::empty() + messages =~= messages);
}

/// What a receiver gets from two runs of entries, one after the other, is
/// what it gets from the first followed by what it gets from the second.
pub proof fn lemma_addressed_to_concat(
    first: Seq<(Seq<char>, Seq<MessageView>)>,
    second: Seq<(Seq<char>, Seq<MessageView>)>,
    receiver: Seq<char>,
)
    ensures
        addressed_to(first + second, receiver) == addressed_to(first, receiver) + addressed_to(
            second,
            receiver,
        ),
    decreases second.len(),
{
    if second.len() == 0 {
        assert(first + second =~= first);
        assert(addressed_to(first, receiver) + Seq::<MessageView>::empty() =~= addressed_to(
            first,
            receiver,
        ));
    } else {
        lemma_addressed_to_concat(first, second.drop_last(), receiver);
        assert((first + second).drop_last() =~= first + second.drop_last());
        assert((first + second).last() == second.last());
        let pieces = split_seq(second.last().0, '_');
        if pieces.len() == 2 && pieces[1] == receiver {
            assert(addressed_to(first, receiver) + addressed_to(second.drop_last(), receiver)
                + second.last().1 =~= addressed_to(first, receiver) + (addressed_to(
                second.drop_last(),
                receiver,
            ) + second.last().1));
        }
    }
}

/// Messages sent from one user to another are read back by the receiver in
/// the order in which they were sent: where `sender_receiver` splits into the
/// two ids, two messages sent one after the other end what the receiver gets
/// from that entry, the first before the second.
pub proof fn lemma_receiver_reads_in_sending_order(
    chat: Seq<(Seq<char>, Seq<MessageView>)>,
    sender: Seq<char>,
    receiver: Seq<char>,
    first: MessageView,
    second: MessageView,
)
    requires
        free_of(sender, '_'),
        free_of(receiver, '_'),
        !has_key(chat, chat_key(sender, receiver)),
    ensures
        addressed_to(
            pairs_append(pairs_append(chat, chat_key(sender, receiver), first), chat_key(sender, receiver), second),
            receiver,
        ) == addressed_to(chat, receiver) + seq![first, second],
{
    let key = chat_key(sender, receiver);
    lemma_split_joined(sender, receiver, '_');
    let once = pairs_append(chat, key, first);
    assert(once == chat.push((key, seq![first])));
    assert(has_key(once, key)) by {
        assert(once[chat.len() as int].0 == key);
    }
    let j = key_index(once, key);
    assert(j == chat.len()) by {
        if j < chat.len() {
            assert(chat[j].0 == key);
        }
    }
    let twice = pairs_append(once, key, second);
    assert(once[j].1 == seq![first]);
    assert(seq![first].push(second) =~= seq![first, second]);
    assert(twice == once.update(j, (key, seq![first, second])));
    assert(twice =~= chat + seq![(key, seq![first, second])]);
    lemma_addressed_to_concat(chat, seq![(key, seq![first, second])], receiver);
    lemma_addressed_to_one_entry(key, seq![first, second], receiver);
}

} // verus!
