//! Conversations and messages: who talks to whom, what was said, and what
//! each user receives.
//!
//! Two tables make up the state. `connections` holds, for every pair of users
//! that `start_conversation` connected, the key `a_b` with value `b` and the
//! key `b_a` with value `a`. `chat` holds, for every pair that has exchanged messages, the key made
//! of the two user ids in the order of `str` and the messages in the order in
//! which they were sent.

use vstd::prelude::*;
use vstd::string::*;

use crate::json::{json_object_of_strings, json_object_with_strings};
use crate::login::{SessionDatabase, SessionView};
use crate::request::RequestHead;
use crate::status::StatusCode;
use crate::strmap::{
    StrMap,
    distinct_keys,
    has_key,
    key_index,
    lemma_append_view,
    lemma_insert_has_key,
    lemma_insert_view,
    lemma_entry_in_view,
    lemma_remove_view,
    pairs_append,
    pairs_insert,
    pairs_remove,
    pairs_view,
    values_under,
};
use crate::text::{
    concat2,
    concat_in_reverse,
    concat_reversed,
    owned,
    ends_with,
    has_prefix,
    has_suffix,
    join_underscore,
    le_text,
    free_of,
    lemma_split_joined,
    lemma_split_nonempty,
    lemma_split_two,
    all_ascii,
    ascii_lower,
    lemma_text_le_antisymmetric,
    lemma_text_le_total,
    lowered,
    same_text,
    split_on,
    split_seq,
    starts_with,
    text_le,
    to_lowercase,
};

verus! {

/// A message that a client sends.
#[derive(Clone, Debug)]
pub struct Message {
    pub content: String,
}

/// A message as the service keeps it: what was said and who said it.
#[derive(Clone, Debug)]
pub struct StoredMessage {
    pub content: String,
    pub owner: String,
}

/// A stored message taken by its characters.
pub struct StoredMessageView {
    pub content: Seq<char>,
    pub owner: Seq<char>,
}

impl DeepView for StoredMessage {
    type V = StoredMessageView;

    open spec fn deep_view(&self) -> StoredMessageView {
        StoredMessageView { content: self.content@, owner: self.owner@ }
    }
}

/// A request to talk to the user `receiver_id`.
#[derive(Clone, Debug)]
pub struct Conversation {
    pub receiver_id: String,
}

/// A user named by id.
#[derive(Clone, Debug)]
pub struct ReceiverUser {
    pub userid: String,
}

/// The messages and the conversations of the service.
#[derive(Debug)]
pub struct InMemoryDatabase {
    chat: StrMap<Vec<StoredMessage>>,
    connections: StrMap<String>,
}

/// The key under which the messages between `a` and `b` are kept: the two ids
/// in the order of `str`, joined by an underscore.
pub open spec fn conversation_key(a: Seq<char>, b: Seq<char>) -> Seq<char> {
    if text_le(a, b) {
        a + seq!['_'] + b
    } else {
        b + seq!['_'] + a
    }
}

/// The key of the connection from `a` to `b`.
pub open spec fn connection_key(a: Seq<char>, b: Seq<char>) -> Seq<char> {
    a + seq!['_'] + b
}

/// `chat` after `message` was added under `key`: appended to the messages kept
/// there, or a new entry at the end.
pub open spec fn chat_with_message(
    chat: Seq<(Seq<char>, Seq<StoredMessageView>)>,
    key: Seq<char>,
    message: StoredMessageView,
) -> Seq<(Seq<char>, Seq<StoredMessageView>)> {
    pairs_append(chat, key, message)
}

/// The key that a chat key becomes when its underscore-separated pieces are
/// written in reverse order with nothing between them.
pub open spec fn pieces_reversed(key: Seq<char>) -> Seq<char> {
    concat_reversed(split_seq(key, '_'))
}

/// The messages kept under `key` still count: the connections hold `key`, or
/// hold the key with its pieces reversed.
pub open spec fn is_active(connections: Map<Seq<char>, Seq<char>>, key: Seq<char>) -> bool {
    connections.contains_key(key) || connections.contains_key(pieces_reversed(key))
}

/// The key names `user` on one of its two sides: it ends with `_user` or
/// begins with `user_`.
pub open spec fn key_concerns(key: Seq<char>, user: Seq<char>) -> bool {
    has_suffix(key, seq!['_'] + user) || has_prefix(key, user + seq!['_'])
}

/// The contents of the messages of `messages`, kept under `key`, that `user`
/// receives: where the key concerns the user and someone else wrote them.
pub open spec fn received_in(
    messages: Seq<StoredMessageView>,
    key: Seq<char>,
    user: Seq<char>,
) -> Seq<Seq<char>>
    decreases messages.len(),
{
    if messages.len() == 0 {
        Seq::<Seq<char>>::empty()
    } else {
        let prev = received_in(messages.drop_last(), key, user);
        if key_concerns(key, user) && messages.last().owner != user {
            prev.push(messages.last().content)
        } else {
            prev
        }
    }
}

/// What `user` receives from `chat`: conversation by conversation in the order
/// of `chat`, only those that are active, the messages that the user receives
/// there.
pub open spec fn inbox(
    chat: Seq<(Seq<char>, Seq<StoredMessageView>)>,
    connections: Map<Seq<char>, Seq<char>>,
    user: Seq<char>,
) -> Seq<Seq<char>>
    decreases chat.len(),
{
    if chat.len() == 0 {
        Seq::<Seq<char>>::empty()
    } else {
        let prev = inbox(chat.drop_last(), connections, user);
        if is_active(connections, chat.last().0) {
            prev + received_in(chat.last().1, chat.last().0, user)
        } else {
            prev
        }
    }
}

/// The partner of `sender` that the connections name first: the part before
/// the first underscore of the first key whose value is `sender`.
pub open spec fn partner_of(connections: Seq<(Seq<char>, Seq<char>)>, sender: Seq<char>) -> Option<
    Seq<char>,
>
    decreases connections.len(),
{
    if connections.len() == 0 {
        None
    } else if connections[0].1 == sender {
        Some(split_seq(connections[0].0, '_')[0])
    } else {
        partner_of(connections.drop_first(), sender)
    }
}

/// Some session belongs to `userid`.
pub open spec fn user_has_session(sessions: Seq<(Seq<char>, SessionView)>, userid: Seq<char>) -> bool {
    exists|i: int| 0 <= i < sessions.len() && #[trigger] sessions[i].1.userid == userid
}

/// The request is the login request, which needs no token.
pub open spec fn is_login_request(method: Seq<char>, path: Seq<char>) -> bool {
    method == "POST"@ && path == "/login"@
}

/// What `start_conversation` answers where the receiver is online and the two
/// users are already connected.
pub open spec fn connection_exists_text(userid: Seq<char>) -> Seq<char> {
    "User: "@ + userid + " is Online and connection exists."@
}

impl InMemoryDatabase {
    /// The conversations with their messages, in the order of their first message.
    pub closed spec fn chat(&self) -> Seq<(Seq<char>, Seq<StoredMessageView>)> {
        self.chat.pairs()
    }

    /// The connections, in the order in which they were made.
    pub closed spec fn connection_entries(&self) -> Seq<(Seq<char>, Seq<char>)> {
        self.connections.pairs()
    }

    /// The connections by key.
    pub open spec fn connections(&self) -> Map<Seq<char>, Seq<char>> {
        pairs_view(self.connection_entries())
    }

    /// Brings into a caller's proof that neither table holds a key twice (the
    /// invariant of the maps that hold them).
    pub fn assert_distinct_keys(&self)
        ensures
            distinct_keys(self.chat()),
            distinct_keys(self.connection_entries()),
    {
        self.chat.assert_distinct_keys();
        self.connections.assert_distinct_keys();
    }

    /// No messages and no connections.
    pub fn new() -> (db: Self)
        ensures
            db.chat() == Seq::<(Seq<char>, Seq<StoredMessageView>)>::empty(),
            db.connection_entries() == Seq::<(Seq<char>, Seq<char>)>::empty(),
            db.connections() == Map::<Seq<char>, Seq<char>>::empty(),
    {
        InMemoryDatabase { chat: StrMap::new(), connections: StrMap::new() }
    }

    /// Keeps `content`, written by `sender`, among the messages between
    /// `sender` and `receiver`.
    pub fn add_message(&mut self, sender: &str, receiver: &str, content: String)
        ensures
            final(self).chat() == chat_with_message(
                old(self).chat(),
                conversation_key(sender@, receiver@),
                StoredMessageView { content: content@, owner: sender@ },
            ),
            pairs_view(final(self).chat()) == pairs_view(old(self).chat()).insert(
                conversation_key(sender@, receiver@),
                values_under(old(self).chat(), conversation_key(sender@, receiver@)).push(
                    StoredMessageView { content: content@, owner: sender@ },
                ),
            ),
            final(self).connection_entries() == old(self).connection_entries(),
    {
        self.chat.assert_distinct_keys();
        proof {
            lemma_append_view(
                self.chat.pairs(),
                conversation_key(sender@, receiver@),
                StoredMessageView { content: content@, owner: sender@ },
            );
        }
        let key = if le_text(sender, receiver) {
            join_underscore(sender, receiver)
        } else {
            join_underscore(receiver, sender)
        };
        let message = StoredMessage { content, owner: sender.to_owned() };
        let ghost mv = message.deep_view();
        let ghost before = self.chat.pairs();
        match self.chat.position(key.as_str()) {
            Some(i) => {
                self.chat.assert_distinct_keys();
                proof {
                    crate::strmap::lemma_entry_in_view(before, i as int);
                }
                let mut messages = self.chat.replace_at(i, Vec::new());
                messages.push(message);
                self.chat.replace_at(i, messages);
                proof {
                    assert(messages.deep_view() =~= before[i as int].1.push(mv));
                    assert(self.chat.pairs() =~= chat_with_message(before, key@, mv));
                }
            },
            None => {
                let mut messages: Vec<StoredMessage> = Vec::new();
                messages.push(message);
                proof {
                    assert(messages.deep_view() =~= seq![mv]);
                }
                self.chat.insert(key, messages);
            },
        }
    }

    /// What `user_id` receives: for each active conversation, in the order of
    /// the chat, the messages that others wrote in a conversation whose key
    /// names the user. Never fails.
    pub fn get_messages(&self, user_id: &str) -> (r: Result<Vec<String>, StatusCode>)
        ensures
            r matches Ok(messages) && messages.deep_view() == inbox(
                self.chat(),
                self.connections(),
                user_id@,
            ),
    {
        let mut messages: Vec<String> = Vec::new();
        let user = user_id.to_owned();
        let sent_key_prefix = concat2(user_id, "_");
        let received_key_suffix = concat2("_", user_id);
        proof {
            reveal_strlit("_");
        }
        let ghost chat = self.chat.pairs();
        let ghost conns = self.connections@;
        let n = self.chat.len();
        let mut i: usize = 0;
        assert(chat.take(0) =~= Seq::<(Seq<char>, Seq<StoredMessageView>)>::empty());
        assert(messages.deep_view() =~= Seq::<Seq<char>>::empty());
        while i < n
            invariant
                n == chat.len(),
                chat == self.chat.pairs(),
                conns == self.connections@,
                i <= n,
                user@ == user_id@,
                sent_key_prefix@ == user_id@ + seq!['_'],
                received_key_suffix@ == seq!['_'] + user_id@,
                messages.deep_view() == inbox(chat.take(i as int), conns, user_id@),
            decreases n - i,
        {
            let (key, value) = self.chat.entry_at(i);
            let reversed = concat_in_reverse(&split_on(key.as_str(), '_'));
            let is_active = self.connections.contains_key(key.as_str())
                || self.connections.contains_key(reversed.as_str());
            assert(chat.take(i + 1).drop_last() =~= chat.take(i as int));
            if is_active {
                let concerns = ends_with(key.as_str(), received_key_suffix.as_str())
                    || starts_with(key.as_str(), sent_key_prefix.as_str());
                let ghost base = messages.deep_view();
                let m = value.len();
                let mut j: usize = 0;
                assert(value.deep_view().take(0) =~= Seq::<StoredMessageView>::empty());
                assert(base + received_in(value.deep_view().take(0), key@, user_id@) =~= base);
                while j < m
                    invariant
                        m == value@.len(),
                        j <= m,
                        user@ == user_id@,
                        concerns == key_concerns(key@, user_id@),
                        messages.deep_view() == base + received_in(
                            value.deep_view().take(j as int),
                            key@,
                            user_id@,
                        ),
                    decreases m - j,
                {
                    let msg = &value[j];
                    assert(value.deep_view().take(j + 1).drop_last() =~= value.deep_view().take(
                        j as int,
                    ));
                    assert(value.deep_view().take(j + 1).last() == msg.deep_view());
                    if concerns && !(msg.owner == user) {
                        let ghost before = messages.deep_view();
                        messages.push(msg.content.clone());
                        assert(messages.deep_view() =~= before.push(msg.content@));
                    }
                    j += 1;
                }
                assert(value.deep_view().take(m as int) =~= value.deep_view());
            }
            i += 1;
        }
        assert(chat.take(n as int) =~= chat);
        Ok(messages)
    }
}

/// Whether a request may go on: the login request always may, any other only
/// with the token of an open session.
pub fn validate_token(req: &RequestHead, token: &str, session_db: &SessionDatabase) -> (r: bool)
    ensures
        r == (is_login_request(req.method@, req.path@) || session_db@.contains_key(token@)),
{
    proof {
        reveal_strlit("POST");
        reveal_strlit("/login");
    }
    if same_text(req.method.as_str(), "POST") && same_text(req.path.as_str(), "/login") {
        return true;
    }
    session_db.contains_key(token)
}

/// The user id of the session with token `token`.
pub(crate) fn extract_sender_id(token: &str, session_db: &SessionDatabase) -> (r: Option<String>)
    ensures
        r is Some <==> session_db@.contains_key(token@),
        r matches Some(id) ==> id@ == session_db@[token@].userid,
{
    match session_db.get(token) {
        Some(session) => Some(session.userid.clone()),
        None => None,
    }
}

/// `userid` where some session belongs to that user.
pub(crate) fn check_user_online(userid: &str, sessions: &SessionDatabase) -> (r: Option<String>)
    ensures
        r is Some <==> user_has_session(sessions.pairs(), userid@),
        r matches Some(id) ==> id@ == userid@,
{
    let wanted = userid.to_owned();
    let n = sessions.len();
    let mut i: usize = 0;
    while i < n
        invariant
            n == sessions.pairs().len(),
            i <= n,
            wanted@ == userid@,
            forall|j: int| 0 <= j < i ==> sessions.pairs()[j].1.userid != userid@,
        decreases n - i,
    {
        let (_token, session) = sessions.entry_at(i);
        if session.userid == wanted {
            assert(sessions.pairs()[i as int].1.userid == userid@);
            return Some(session.userid.clone());
        }
        i += 1;
    }
    None
}

/// The result of a request to talk to `receiver`.
pub open spec fn start_conversation_result(
    sessions: Map<Seq<char>, SessionView>,
    session_order: Seq<(Seq<char>, SessionView)>,
    connections: Map<Seq<char>, Seq<char>>,
    token: Seq<char>,
    receiver: Seq<char>,
) -> Result<Seq<char>, StatusCode> {
    if !sessions.contains_key(token) {
        Err(StatusCode::Unauthorized)
    } else if !user_has_session(session_order, receiver) {
        Ok("User is Offline."@)
    } else {
        let sender = sessions[token].userid;
        if connections.contains_key(connection_key(sender, receiver)) || connections.contains_key(
            connection_key(receiver, sender),
        ) {
            Ok(connection_exists_text(receiver))
        } else {
            Ok("User is Online and connection established."@)
        }
    }
}

/// The connections after a request to talk to `receiver`: where the sender
/// has a session, the receiver is online and the two are not connected yet,
/// the connection from sender to receiver and then the one back are added.
pub open spec fn connections_after_start(
    sessions: Map<Seq<char>, SessionView>,
    session_order: Seq<(Seq<char>, SessionView)>,
    connections: Seq<(Seq<char>, Seq<char>)>,
    token: Seq<char>,
    receiver: Seq<char>,
) -> Seq<(Seq<char>, Seq<char>)> {
    if sessions.contains_key(token) && user_has_session(session_order, receiver) {
        let sender = sessions[token].userid;
        let by_key = pairs_view(connections);
        if by_key.contains_key(connection_key(sender, receiver)) || by_key.contains_key(
            connection_key(receiver, sender),
        ) {
            connections
        } else {
            pairs_insert(
                pairs_insert(connections, connection_key(sender, receiver), receiver),
                connection_key(receiver, sender),
                sender,
            )
        }
    } else {
        connections
    }
}

/// The connections by key after a request to talk to `receiver`.
pub open spec fn connection_map_after_start(
    sessions: Map<Seq<char>, SessionView>,
    session_order: Seq<(Seq<char>, SessionView)>,
    connections: Map<Seq<char>, Seq<char>>,
    token: Seq<char>,
    receiver: Seq<char>,
) -> Map<Seq<char>, Seq<char>> {
    if sessions.contains_key(token) && user_has_session(session_order, receiver) {
        let sender = sessions[token].userid;
        if connections.contains_key(connection_key(sender, receiver)) || connections.contains_key(
            connection_key(receiver, sender),
        ) {
            connections
        } else {
            connections.insert(connection_key(sender, receiver), receiver).insert(
                connection_key(receiver, sender),
                sender,
            )
        }
    } else {
        connections
    }
}

/// Over distinct keys, the entries after a request to talk to `receiver`
/// describe the map that `connection_map_after_start` gives, again with
/// distinct keys.
pub proof fn lemma_start_conversation_view(
    sessions: Map<Seq<char>, SessionView>,
    session_order: Seq<(Seq<char>, SessionView)>,
    connections: Seq<(Seq<char>, Seq<char>)>,
    token: Seq<char>,
    receiver: Seq<char>,
)
    requires
        distinct_keys(connections),
    ensures
        distinct_keys(
            connections_after_start(sessions, session_order, connections, token, receiver),
        ),
        pairs_view(connections_after_start(sessions, session_order, connections, token, receiver))
            == connection_map_after_start(
            sessions,
            session_order,
            pairs_view(connections),
            token,
            receiver,
        ),
{
    if sessions.contains_key(token) && user_has_session(session_order, receiver) {
        let sender = sessions[token].userid;
        let once = pairs_insert(connections, connection_key(sender, receiver), receiver);
        lemma_insert_view(connections, connection_key(sender, receiver), receiver);
        lemma_insert_view(once, connection_key(receiver, sender), sender);
    }
}

/// Starts a conversation of the user of `token` with the user that `request`
/// names: answers `Unauthorized` without a session, says that the receiver is
/// offline where no session belongs to the receiver, and otherwise connects the
/// two users in both directions unless they already are.
pub fn start_conversation(
    token: &str,
    db: &mut InMemoryDatabase,
    session_db: &SessionDatabase,
    request: &Conversation,
) -> (r: Result<String, StatusCode>)
    ensures
        match r {
            Ok(text) => start_conversation_result(
                session_db@,
                session_db.pairs(),
                old(db).connections(),
                token@,
                request.receiver_id@,
            ) == Ok::<Seq<char>, StatusCode>(text@),
            Err(e) => start_conversation_result(
                session_db@,
                session_db.pairs(),
                old(db).connections(),
                token@,
                request.receiver_id@,
            ) == Err::<Seq<char>, StatusCode>(e),
        },
        final(db).connection_entries() == connections_after_start(
            session_db@,
            session_db.pairs(),
            old(db).connection_entries(),
            token@,
            request.receiver_id@,
        ),
        final(db).connections() == connection_map_after_start(
            session_db@,
            session_db.pairs(),
            old(db).connections(),
            token@,
            request.receiver_id@,
        ),
        final(db).chat() == old(db).chat(),
{
    db.assert_distinct_keys();
    proof {
        lemma_start_conversation_view(
            session_db@,
            session_db.pairs(),
            db.connection_entries(),
            token@,
            request.receiver_id@,
        );
        reveal_strlit("_");
        reveal_strlit("User: ");
        reveal_strlit(" is Online and connection exists.");
        reveal_strlit("User is Online and connection established.");
        reveal_strlit("User is Offline.");
    }
    let sender_id = match session_db.get(token) {
        Some(session) => session.userid.clone(),
        None => {
            return Err(StatusCode::Unauthorized);
        },
    };
    let receiver_userid = request.receiver_id.as_str();
    match check_user_online(receiver_userid, session_db) {
        Some(userid) => {
            let key = join_underscore(sender_id.as_str(), receiver_userid);
            let reverse_key = join_underscore(receiver_userid, sender_id.as_str());
            if db.connections.contains_key(key.as_str()) || db.connections.contains_key(
                reverse_key.as_str(),
            ) {
                let text = concat2(
                    concat2("User: ", userid.as_str()).as_str(),
                    " is Online and connection exists.",
                );
                Ok(text)
            } else {
                db.connections.insert(key, receiver_userid.to_owned());
                db.connections.insert(reverse_key, sender_id.clone());
                Ok(owned("User is Online and connection established."))
            }
        },
        None => Ok(owned("User is Offline.")),
    }
}

/// Records that `sender_id` talks to `receiver_id`: the key `receiver_id`
/// takes the value `sender_id`.
pub fn insert_connection(sender_id: &str, receiver_id: &str, in_memory_db: &mut InMemoryDatabase)
    ensures
        final(in_memory_db).connection_entries() == pairs_insert(
            old(in_memory_db).connection_entries(),
            receiver_id@,
            sender_id@,
        ),
        final(in_memory_db).connections() == old(in_memory_db).connections().insert(
            receiver_id@,
            sender_id@,
        ),
        final(in_memory_db).chat() == old(in_memory_db).chat(),
{
    in_memory_db.connections.insert(receiver_id.to_owned(), sender_id.to_owned());
}

/// The partner that the connections give for `sender`.
fn find_partner(connections: &StrMap<String>, sender: &str) -> (r: Option<String>)
    ensures
        match r {
            Some(p) => partner_of(connections.pairs(), sender@) == Some(p@),
            None => partner_of(connections.pairs(), sender@) is None,
        },
{
    let wanted = sender.to_owned();
    let n = connections.len();
    let ghost all = connections.pairs();
    let mut i: usize = 0;
    assert(all.skip(0) =~= all);
    while i < n
        invariant
            n == all.len(),
            all == connections.pairs(),
            i <= n,
            wanted@ == sender@,
            partner_of(all, sender@) == partner_of(all.skip(i as int), sender@),
        decreases n - i,
    {
        let (key, value) = connections.entry_at(i);
        assert(all.skip(i as int)[0] == all[i as int]);
        if *value == wanted {
            let pieces = split_on(key.as_str(), '_');
            proof {
                lemma_split_nonempty(key@, '_');
            }
            return Some(pieces[0].clone());
        }
        assert(all.skip(i as int).drop_first() =~= all.skip(i + 1));
        i += 1;
    }
    None
}

/// The outcome of sending `content` with `token`.
pub open spec fn send_message_result(
    sessions: Map<Seq<char>, SessionView>,
    connections: Seq<(Seq<char>, Seq<char>)>,
    token: Seq<char>,
    content: Seq<char>,
) -> Result<Seq<char>, StatusCode> {
    if !sessions.contains_key(token) {
        Err(StatusCode::Unauthorized)
    } else if partner_of(connections, sessions[token].userid) is None {
        Err(StatusCode::NotFound)
    } else if lowered(content) == "bye"@ {
        Ok("Connection ended."@)
    } else {
        Ok("Message sent successfully"@)
    }
}

/// The connections by key after the user of `token` sent `content`: a `bye`
/// that goes through removes the connection from the sender to the partner
/// and the one back; anything else leaves them.
pub open spec fn connection_map_after_send(
    sessions: Map<Seq<char>, SessionView>,
    connections: Seq<(Seq<char>, Seq<char>)>,
    token: Seq<char>,
    content: Seq<char>,
) -> Map<Seq<char>, Seq<char>> {
    if send_message_result(sessions, connections, token, content) is Ok && lowered(content)
        == "bye"@ {
        let sender = sessions[token].userid;
        let partner = partner_of(connections, sender)->0;
        pairs_view(connections).remove(connection_key(sender, partner)).remove(
            connection_key(partner, sender),
        )
    } else {
        pairs_view(connections)
    }
}

/// Sends a message from the user of `token` to the partner that the
/// connections give for that user. The message is kept in lowercase. A message
/// that reads `bye` in lowercase ends the conversation instead: both
/// connections between the two users go. Answers `Unauthorized` without a
/// session and `NotFound` without a partner; nothing changes then.
pub fn handle_send_message(
    token: &str,
    db: &mut InMemoryDatabase,
    session_db: &SessionDatabase,
    request: &Message,
) -> (r: Result<String, StatusCode>)
    ensures
        match r {
            Ok(text) => send_message_result(
                session_db@,
                old(db).connection_entries(),
                token@,
                request.content@,
            ) == Ok::<Seq<char>, StatusCode>(text@),
            Err(e) => send_message_result(
                session_db@,
                old(db).connection_entries(),
                token@,
                request.content@,
            ) == Err::<Seq<char>, StatusCode>(e),
        },
        r is Err ==> *final(db) == *old(db),
        r is Ok ==> {
            let sender = session_db@[token@].userid;
            let partner = partner_of(old(db).connection_entries(), sender)->0;
            if lowered(request.content@) == "bye"@ {
                &&& final(db).connection_entries() == pairs_remove(
                    pairs_remove(old(db).connection_entries(), connection_key(sender, partner)),
                    connection_key(partner, sender),
                )
                &&& final(db).connections() == old(db).connections().remove(
                    connection_key(sender, partner),
                ).remove(connection_key(partner, sender))
                &&& final(db).chat() == old(db).chat()
            } else {
                &&& final(db).chat() == chat_with_message(
                    old(db).chat(),
                    conversation_key(sender, partner),
                    StoredMessageView { content: lowered(request.content@), owner: sender },
                )
                &&& final(db).connection_entries() == old(db).connection_entries()
            }
        },
        final(db).connections() == connection_map_after_send(
            session_db@,
            old(db).connection_entries(),
            token@,
            request.content@,
        ),
{
    proof {
        reveal_strlit("bye");
        reveal_strlit("_");
        reveal_strlit("Connection ended.");
        reveal_strlit("Message sent successfully");
    }
    let sender_id = match extract_sender_id(token, session_db) {
        Some(id) => id,
        None => {
            return Err(StatusCode::Unauthorized);
        },
    };
    let receiver_id = match find_partner(&db.connections, sender_id.as_str()) {
        Some(id) => id,
        None => {
            return Err(StatusCode::NotFound);
        },
    };
    let content = to_lowercase(request.content.as_str());
    if same_text(content.as_str(), "bye") {
        db.connections.assert_distinct_keys();
        proof {
            lemma_remove_view(
                db.connections.pairs(),
                connection_key(sender_id@, receiver_id@),
            );
        }
        let key = join_underscore(sender_id.as_str(), receiver_id.as_str());
        let reverse_key = join_underscore(receiver_id.as_str(), sender_id.as_str());
        db.connections.remove(key.as_str());
        db.connections.remove(reverse_key.as_str());
        return Ok(owned("Connection ended."));
    }
    db.add_message(sender_id.as_str(), receiver_id.as_str(), content);
    Ok(owned("Message sent successfully"))
}

/// Answers the user of `token` with the JSON object whose field `messages`
/// holds what the user receives; `Unauthorized` without a session.
pub fn handle_receiver_message(
    token: &str,
    db: &InMemoryDatabase,
    session_db: &SessionDatabase,
) -> (r: Result<String, StatusCode>)
    ensures
        !session_db@.contains_key(token@) ==> r == Err::<String, StatusCode>(
            StatusCode::Unauthorized,
        ),
        session_db@.contains_key(token@) ==> (r matches Ok(body) && body@ == json_object_of_strings(
            "messages"@,
            inbox(db.chat(), db.connections(), session_db@[token@].userid),
        )),
{
    let receiver_id = match extract_sender_id(token, session_db) {
        Some(id) => id,
        None => {
            return Err(StatusCode::Unauthorized);
        },
    };
    let messages = match db.get_messages(receiver_id.as_str()) {
        Ok(messages) => messages,
        Err(_) => {
            return Err(StatusCode::InternalServerError);
        },
    };
    Ok(json_object_with_strings("messages", &messages))
}

/// The messages between two users are kept under one key, whichever of them
/// writes: the conversation key does not depend on the order of the two ids.
pub proof fn lemma_conversation_key_symmetric(a: Seq<char>, b: Seq<char>)
    ensures
        conversation_key(a, b) == conversation_key(b, a),
{
    lemma_text_le_total(a, b);
    if text_le(a, b) && text_le(b, a) {
        lemma_text_le_antisymmetric(a, b);
    }
}

/// A conversation key names both of its users.
pub proof fn lemma_conversation_key_concerns(a: Seq<char>, b: Seq<char>)
    ensures
        key_concerns(conversation_key(a, b), a),
        key_concerns(conversation_key(a, b), b),
{
    let ab = a + seq!['_'] + b;
    let ba = b + seq!['_'] + a;
    assert(ab.subrange(0, a.len() + 1int) =~= a + seq!['_']);
    assert(ab.subrange(ab.len() - (b.len() + 1), ab.len() as int) =~= seq!['_'] + b);
    assert(ba.subrange(0, b.len() + 1int) =~= b + seq!['_']);
    assert(ba.subrange(ba.len() - (a.len() + 1), ba.len() as int) =~= seq!['_'] + a);
}

/// What a user receives from one active conversation is part of the user's inbox.
pub proof fn lemma_inbox_includes(
    chat: Seq<(Seq<char>, Seq<StoredMessageView>)>,
    connections: Map<Seq<char>, Seq<char>>,
    user: Seq<char>,
    i: int,
    content: Seq<char>,
)
    requires
        0 <= i < chat.len(),
        is_active(connections, chat[i].0),
        received_in(chat[i].1, chat[i].0, user).contains(content),
    ensures
        inbox(chat, connections, user).contains(content),
    decreases chat.len(),
{
    let prev = inbox(chat.drop_last(), connections, user);
    if i == chat.len() - 1 {
        let part = received_in(chat.last().1, chat.last().0, user);
        let k = choose|k: int| 0 <= k < part.len() && part[k] == content;
        assert((prev + part)[prev.len() + k] == content);
    } else {
        lemma_inbox_includes(chat.drop_last(), connections, user, i, content);
        let k = choose|k: int| 0 <= k < prev.len() && prev[k] == content;
        if is_active(connections, chat.last().0) {
            let part = received_in(chat.last().1, chat.last().0, user);
            assert((prev + part)[k] == content);
        }
    }
}

/// A message sent between two connected users reaches the receiver: after
/// `add_message` from `sender` to `receiver`, where both directions of their
/// connection exist, what `get_messages` gives the receiver holds the content.
pub proof fn lemma_sent_message_is_received(
    chat: Seq<(Seq<char>, Seq<StoredMessageView>)>,
    connections: Seq<(Seq<char>, Seq<char>)>,
    sender: Seq<char>,
    receiver: Seq<char>,
    content: Seq<char>,
)
    requires
        sender != receiver,
        pairs_view(connections).contains_key(connection_key(sender, receiver)),
        pairs_view(connections).contains_key(connection_key(receiver, sender)),
    ensures
        inbox(
            chat_with_message(
                chat,
                conversation_key(sender, receiver),
                StoredMessageView { content, owner: sender },
            ),
            pairs_view(connections),
            receiver,
        ).contains(content),
{
    let key = conversation_key(sender, receiver);
    let m = StoredMessageView { content, owner: sender };
    let after = chat_with_message(chat, key, m);
    lemma_conversation_key_concerns(sender, receiver);
    let i = if has_key(chat, key) {
        key_index(chat, key)
    } else {
        chat.len() as int
    };
    let before_messages = if has_key(chat, key) {
        chat[i].1
    } else {
        Seq::<StoredMessageView>::empty()
    };
    assert(after[i] == (key, before_messages.push(m)));
    assert(before_messages.push(m).drop_last() =~= before_messages);
    let got = received_in(before_messages.push(m), key, receiver);
    assert(got[got.len() - 1] == content);
    lemma_inbox_includes(after, pairs_view(connections), receiver, i, content);
}

/// Asking again to talk to the same user changes nothing more: a second
/// `start_conversation` with the same token and receiver leaves the
/// connections as the first left them.
pub proof fn lemma_start_conversation_idempotent(
    sessions: Map<Seq<char>, SessionView>,
    session_order: Seq<(Seq<char>, SessionView)>,
    connections: Seq<(Seq<char>, Seq<char>)>,
    token: Seq<char>,
    receiver: Seq<char>,
)
    ensures
        connections_after_start(
            sessions,
            session_order,
            connections_after_start(sessions, session_order, connections, token, receiver),
            token,
            receiver,
        ) == connections_after_start(sessions, session_order, connections, token, receiver),
{
    if sessions.contains_key(token) && user_has_session(session_order, receiver) {
        let sender = sessions[token].userid;
        let once = connections_after_start(sessions, session_order, connections, token, receiver);
        if once != connections {
            lemma_insert_has_key(
                pairs_insert(connections, connection_key(sender, receiver), receiver),
                connection_key(receiver, sender),
                sender,
            );
        }
    }
}

/// Once `start_conversation` has connected two users, asking again answers
/// that the connection exists.
pub proof fn lemma_second_start_reports_connection(
    sessions: Map<Seq<char>, SessionView>,
    session_order: Seq<(Seq<char>, SessionView)>,
    connections: Seq<(Seq<char>, Seq<char>)>,
    token: Seq<char>,
    receiver: Seq<char>,
)
    requires
        start_conversation_result(
            sessions,
            session_order,
            pairs_view(connections),
            token,
            receiver,
        ) is Ok,
        user_has_session(session_order, receiver),
    ensures
        start_conversation_result(
            sessions,
            session_order,
            pairs_view(
                connections_after_start(sessions, session_order, connections, token, receiver),
            ),
            token,
            receiver,
        ) == Ok::<Seq<char>, StatusCode>(connection_exists_text(receiver)),
{
    let sender = sessions[token].userid;
    let once = connections_after_start(sessions, session_order, connections, token, receiver);
    if once != connections {
        lemma_insert_has_key(
            pairs_insert(connections, connection_key(sender, receiver), receiver),
            connection_key(receiver, sender),
            sender,
        );
    }
}

/// Sending never loses a message: every conversation keeps its key and its
/// position, and the messages it had stay, in order, at the start of what it
/// holds afterwards.
pub proof fn lemma_messages_are_never_lost(
    chat: Seq<(Seq<char>, Seq<StoredMessageView>)>,
    key: Seq<char>,
    message: StoredMessageView,
)
    ensures
        chat_with_message(chat, key, message).len() >= chat.len(),
        forall|i: int|
            0 <= i < chat.len() ==> {
                let after = #[trigger] chat_with_message(chat, key, message)[i];
                &&& after.0 == chat[i].0
                &&& after.1.len() >= chat[i].1.len()
                &&& after.1.subrange(0, chat[i].1.len() as int) == chat[i].1
            },
{
    assert forall|i: int| 0 <= i < chat.len() implies {
        let after = #[trigger] chat_with_message(chat, key, message)[i];
        &&& after.0 == chat[i].0
        &&& after.1.len() >= chat[i].1.len()
        &&& after.1.subrange(0, chat[i].1.len() as int) == chat[i].1
    } by {
        let after = chat_with_message(chat, key, message)[i];
        if has_key(chat, key) && i == key_index(chat, key) {
            assert(after.1.subrange(0, chat[i].1.len() as int) =~= chat[i].1);
        } else {
            assert(after == chat[i]);
            assert(after.1.subrange(0, chat[i].1.len() as int) =~= chat[i].1);
        }
    }
}

/// The key that answers `k` in a symmetric table: its two pieces swapped.
pub open spec fn mirror_key(k: Seq<char>) -> Seq<char> {
    connection_key(split_seq(k, '_')[1], split_seq(k, '_')[0])
}

/// Every connection `a_b` (two ids without underscores) leads to `b`, and the
/// connection `b_a` exists and leads to `a`.
pub open spec fn connections_symmetric(c: Map<Seq<char>, Seq<char>>) -> bool {
    forall|k: Seq<char>| #[trigger]
        c.contains_key(k) ==> {
            &&& split_seq(k, '_').len() == 2
            &&& c[k] == split_seq(k, '_')[1]
            &&& c.contains_key(mirror_key(k))
            &&& c[mirror_key(k)] == split_seq(k, '_')[0]
        }
}

/// The key joining two ids without underscores splits back into them, and its
/// mirror joins them the other way round.
pub proof fn lemma_connection_key_pieces(a: Seq<char>, b: Seq<char>)
    requires
        free_of(a, '_'),
        free_of(b, '_'),
    ensures
        split_seq(connection_key(a, b), '_') == seq![a, b],
        mirror_key(connection_key(a, b)) == connection_key(b, a),
{
    lemma_split_joined(a, b, '_');
}

/// The partner that the connections give is the first piece of a key whose
/// value is the sender.
pub proof fn lemma_partner_found(connections: Seq<(Seq<char>, Seq<char>)>, sender: Seq<char>)
    requires
        partner_of(connections, sender) is Some,
    ensures
        exists|i: int|
            0 <= i < connections.len() && #[trigger] connections[i].1 == sender && partner_of(
                connections,
                sender,
            )->0 == split_seq(connections[i].0, '_')[0],
    decreases connections.len(),
{
    if connections[0].1 == sender {
        assert(connections[0].1 == sender);
    } else {
        lemma_partner_found(connections.drop_first(), sender);
        let j = choose|j: int|
            0 <= j < connections.drop_first().len() && #[trigger] connections.drop_first()[j].1
                == sender && partner_of(connections.drop_first(), sender)->0 == split_seq(
                connections.drop_first()[j].0,
                '_',
            )[0];
        assert(connections[j + 1].1 == sender);
    }
}

/// Starting a conversation keeps the connections symmetric, where the two
/// user ids hold no underscore.
pub proof fn lemma_start_conversation_keeps_symmetry(
    sessions: Map<Seq<char>, SessionView>,
    session_order: Seq<(Seq<char>, SessionView)>,
    connections: Seq<(Seq<char>, Seq<char>)>,
    token: Seq<char>,
    receiver: Seq<char>,
)
    requires
        distinct_keys(connections),
        connections_symmetric(pairs_view(connections)),
        sessions.contains_key(token) ==> free_of(sessions[token].userid, '_'),
        free_of(receiver, '_'),
    ensures
        connections_symmetric(
            pairs_view(connections_after_start(sessions, session_order, connections, token, receiver)),
        ),
{
    lemma_start_conversation_view(sessions, session_order, connections, token, receiver);
    let c = pairs_view(connections);
    if sessions.contains_key(token) && user_has_session(session_order, receiver) {
        let s = sessions[token].userid;
        let r = receiver;
        let k1 = connection_key(s, r);
        let k2 = connection_key(r, s);
        if !(c.contains_key(k1) || c.contains_key(k2)) {
            let n = c.insert(k1, r).insert(k2, s);
            lemma_connection_key_pieces(s, r);
            lemma_connection_key_pieces(r, s);
            if k1 == k2 {
                assert(s == r) by {
                    assert(seq![s, r] == seq![r, s]);
                    assert(seq![s, r][0] == seq![r, s][0]);
                }
            }
            assert forall|k: Seq<char>| #[trigger] n.contains_key(k) implies {
                &&& split_seq(k, '_').len() == 2
                &&& n[k] == split_seq(k, '_')[1]
                &&& n.contains_key(mirror_key(k))
                &&& n[mirror_key(k)] == split_seq(k, '_')[0]
            } by {
                if k != k1 && k != k2 {
                    assert(c.contains_key(k));
                    assert(c.contains_key(mirror_key(k)));
                }
            }
        }
    }
}

/// Sending keeps the connections symmetric: a `bye` removes a connection
/// together with the one back, and nothing else changes them.
pub proof fn lemma_send_message_keeps_symmetry(
    sessions: Map<Seq<char>, SessionView>,
    connections: Seq<(Seq<char>, Seq<char>)>,
    token: Seq<char>,
    content: Seq<char>,
)
    requires
        distinct_keys(connections),
        connections_symmetric(pairs_view(connections)),
    ensures
        connections_symmetric(connection_map_after_send(sessions, connections, token, content)),
{
    let c = pairs_view(connections);
    if send_message_result(sessions, connections, token, content) is Ok && lowered(content)
        == "bye"@ {
        let s = sessions[token].userid;
        lemma_partner_found(connections, s);
        let i = choose|i: int|
            0 <= i < connections.len() && #[trigger] connections[i].1 == s && partner_of(
                connections,
                s,
            )->0 == split_seq(connections[i].0, '_')[0];
        let p = partner_of(connections, s)->0;
        let k0 = connections[i].0;
        lemma_entry_in_view(connections, i);
        assert(c.contains_key(k0));
        lemma_split_two(k0, '_');
        let x = split_seq(k0, '_')[0];
        let y = split_seq(k0, '_')[1];
        assert(y == s);
        assert(x == p);
        let k1 = connection_key(s, p);
        let k2 = connection_key(p, s);
        assert(k0 == k2);
        lemma_connection_key_pieces(p, s);
        lemma_connection_key_pieces(s, p);
        let n = c.remove(k1).remove(k2);
        assert forall|k: Seq<char>| #[trigger] n.contains_key(k) implies {
            &&& split_seq(k, '_').len() == 2
            &&& n[k] == split_seq(k, '_')[1]
            &&& n.contains_key(mirror_key(k))
            &&& n[mirror_key(k)] == split_seq(k, '_')[0]
        } by {
            assert(c.contains_key(k));
            lemma_split_two(k, '_');
            let a = split_seq(k, '_')[0];
            let b = split_seq(k, '_')[1];
            lemma_connection_key_pieces(b, a);
            let m = mirror_key(k);
            assert(m == connection_key(b, a));
            if m == k1 {
                assert(seq![b, a] == seq![s, p]);
                assert(seq![b, a][0] == seq![s, p][0] && seq![b, a][1] == seq![s, p][1]);
                assert(k == connection_key(a, b));
                assert(false);
            }
            if m == k2 {
                assert(seq![b, a] == seq![p, s]);
                assert(seq![b, a][0] == seq![p, s][0] && seq![b, a][1] == seq![p, s][1]);
                assert(k == connection_key(a, b));
                assert(false);
            }
        }
    }
}

/// Where no connection leads to `prefix`'s holder, the partner is found in
/// what follows.
pub proof fn lemma_partner_after(
    prefix: Seq<(Seq<char>, Seq<char>)>,
    rest: Seq<(Seq<char>, Seq<char>)>,
    sender: Seq<char>,
)
    requires
        forall|i: int| 0 <= i < prefix.len() ==> #[trigger] prefix[i].1 != sender,
    ensures
        partner_of(prefix + rest, sender) == partner_of(rest, sender),
    decreases prefix.len(),
{
    if prefix.len() > 0 {
        assert((prefix + rest)[0] == prefix[0]);
        assert((prefix + rest).drop_first() =~= prefix.drop_first() + rest);
        lemma_partner_after(prefix.drop_first(), rest, sender);
    } else {
        assert(prefix + rest =~= rest);
    }
}

/// A `bye` right after a fresh conversation undoes it: where the sender had
/// no connection, `start_conversation` followed by a `bye` from the sender
/// ends the conversation with its new partner and leaves the connections as
/// they were before.
pub proof fn lemma_bye_after_start_restores(
    sessions: Map<Seq<char>, SessionView>,
    session_order: Seq<(Seq<char>, SessionView)>,
    connections: Seq<(Seq<char>, Seq<char>)>,
    token: Seq<char>,
    receiver: Seq<char>,
)
    requires
        distinct_keys(connections),
        sessions.contains_key(token),
        user_has_session(session_order, receiver),
        free_of(sessions[token].userid, '_'),
        free_of(receiver, '_'),
        forall|i: int| 0 <= i < connections.len() ==> #[trigger] connections[i].1
            != sessions[token].userid,
        !pairs_view(connections).contains_key(connection_key(sessions[token].userid, receiver)),
        !pairs_view(connections).contains_key(connection_key(receiver, sessions[token].userid)),
    ensures
        ({
            let sender = sessions[token].userid;
            let started = connections_after_start(
                sessions,
                session_order,
                connections,
                token,
                receiver,
            );
            &&& partner_of(started, sender) == Some(receiver)
            &&& send_message_result(sessions, started, token, "bye"@) == Ok::<
                Seq<char>,
                StatusCode,
            >("Connection ended."@)
            &&& pairs_remove(
                pairs_remove(started, connection_key(sender, receiver)),
                connection_key(receiver, sender),
            ) == connections
        }),
{
    reveal_strlit("bye");
    let s = sessions[token].userid;
    let r = receiver;
    let k1 = connection_key(s, r);
    let k2 = connection_key(r, s);
    lemma_connection_key_pieces(s, r);
    lemma_connection_key_pieces(r, s);
    assert(!has_key(connections, k1)) by {
        if has_key(connections, k1) {
            lemma_entry_in_view(connections, key_index(connections, k1));
        }
    }
    assert(!has_key(connections, k2)) by {
        if has_key(connections, k2) {
            lemma_entry_in_view(connections, key_index(connections, k2));
        }
    }
    let once = connections.push((k1, r));
    assert(pairs_insert(connections, k1, r) == once);
    let started = connections_after_start(sessions, session_order, connections, token, receiver);
    assert(all_ascii("bye"@));
    assert(ascii_lower("bye"@) =~= "bye"@);
    if s == r {
        assert(k1 == k2);
        assert(has_key(once, k1)) by {
            assert(once[connections.len() as int].0 == k1);
        }
        let j = key_index(once, k1);
        assert(j == connections.len()) by {
            if j < connections.len() {
                assert(connections[j].0 == k1);
            }
        }
        assert(started == once.update(j, (k1, s)));
        assert(started =~= once);
        lemma_partner_after(connections, seq![(k1, r)], s);
        assert(connections + seq![(k1, r)] =~= once);
        assert(seq![(k1, r)].drop_first() =~= Seq::<(Seq<char>, Seq<char>)>::empty());
        assert(partner_of(started, s) == Some(r));
        assert(pairs_remove(started, k1) =~= connections);
        assert(pairs_remove(connections, k2) == connections);
    } else {
        assert(k1 != k2) by {
            if k1 == k2 {
                assert(seq![s, r][0] == seq![r, s][0]);
            }
        }
        assert(!has_key(once, k2)) by {
            if has_key(once, k2) {
                let j = key_index(once, k2);
                if j < connections.len() {
                    assert(connections[j].0 == k2);
                }
            }
        }
        let twice = once.push((k2, s));
        assert(started == twice);
        lemma_partner_after(connections, seq![(k1, r), (k2, s)], s);
        assert(connections + seq![(k1, r), (k2, s)] =~= twice);
        assert(seq![(k1, r), (k2, s)].drop_first() =~= seq![(k2, s)]);
        assert(split_seq(k2, '_')[0] == r);
        assert(partner_of(seq![(k2, s)], s) == Some(r));
        assert(seq![(k1, r), (k2, s)][0].1 == r);
        assert(partner_of(seq![(k1, r), (k2, s)], s) == Some(r));
        assert(partner_of(started, s) == Some(r));
        assert(has_key(twice, k1)) by {
            assert(twice[connections.len() as int].0 == k1);
        }
        let j1 = key_index(twice, k1);
        assert(j1 == connections.len()) by {
            if j1 < connections.len() {
                assert(connections[j1].0 == k1);
            } else if j1 == connections.len() + 1 {
                assert(twice[j1].0 == k2);
            }
        }
        let after1 = twice.remove(j1);
        assert(after1 =~= connections.push((k2, s)));
        assert(has_key(after1, k2)) by {
            assert(after1[connections.len() as int].0 == k2);
        }
        let j2 = key_index(after1, k2);
        assert(j2 == connections.len()) by {
            if j2 < connections.len() {
                assert(connections[j2].0 == k2);
            }
        }
        assert(after1.remove(j2) =~= connections);
    }
}

/// Two messages in opposite directions land under the one conversation key,
/// in the order in which they were sent, and no other conversation changes.
pub proof fn lemma_replies_share_a_conversation(
    chat: Seq<(Seq<char>, Seq<StoredMessageView>)>,
    a: Seq<char>,
    b: Seq<char>,
    first: Seq<char>,
    second: Seq<char>,
)
    requires
        distinct_keys(chat),
    ensures
        ({
            let key = conversation_key(a, b);
            let m1 = StoredMessageView { content: first, owner: a };
            let m2 = StoredMessageView { content: second, owner: b };
            let after = chat_with_message(
                chat_with_message(chat, conversation_key(a, b), m1),
                conversation_key(b, a),
                m2,
            );
            &&& values_under(after, key) == values_under(chat, key).push(m1).push(m2)
            &&& pairs_view(after) == pairs_view(chat).insert(
                key,
                values_under(chat, key).push(m1).push(m2),
            )
        }),
{
    let key = conversation_key(a, b);
    let m1 = StoredMessageView { content: first, owner: a };
    let m2 = StoredMessageView { content: second, owner: b };
    lemma_conversation_key_symmetric(a, b);
    let once = chat_with_message(chat, key, m1);
    lemma_append_view(chat, key, m1);
    lemma_append_view(once, key, m2);
    assert(pairs_view(chat).insert(key, values_under(chat, key).push(m1)).insert(
        key,
        values_under(chat, key).push(m1).push(m2),
    ) =~= pairs_view(chat).insert(key, values_under(chat, key).push(m1).push(m2)));
}

impl Default for InMemoryDatabase {
    /// No messages and no connections.
    fn default() -> (db: Self)
        ensures
            db.chat() == Seq::<(Seq<char>, Seq<StoredMessageView>)>::empty(),
            db.connection_entries() == Seq::<(Seq<char>, Seq<char>)>::empty(),
    {
        InMemoryDatabase::new()
    }
}

/// A content that `received_in` gives comes from a message of `messages`
/// written by someone other than `user`, and the key names `user` on one side.
proof fn lemma_received_in_sound(
    messages: Seq<StoredMessageView>,
    key: Seq<char>,
    user: Seq<char>,
    content: Seq<char>,
)
    requires
        received_in(messages, key, user).contains(content),
    ensures
        has_suffix(key, seq!['_'] + user) || has_prefix(key, user + seq!['_']),
        exists|j: int|
            0 <= j < messages.len() && #[trigger] messages[j].content == content && messages[j].owner
                != user,
    decreases messages.len(),
{
    let prev = received_in(messages.drop_last(), key, user);
    let k = choose|k: int|
        0 <= k < received_in(messages, key, user).len() && received_in(messages, key, user)[k]
            == content;
    if k < prev.len() {
        assert(prev[k] == content);
        lemma_received_in_sound(messages.drop_last(), key, user, content);
        let j = choose|j: int|
            0 <= j < messages.drop_last().len() && #[trigger] messages.drop_last()[j].content
                == content && messages.drop_last()[j].owner != user;
        assert(messages[j] == messages.drop_last()[j]);
    } else {
        assert(messages[messages.len() - 1].content == content);
    }
}

/// Every message of `messages` that someone other than `user` wrote, under a
/// key that names `user` on one side, is among what `received_in` gives.
proof fn lemma_received_in_complete(
    messages: Seq<StoredMessageView>,
    key: Seq<char>,
    user: Seq<char>,
    j: int,
)
    requires
        0 <= j < messages.len(),
        messages[j].owner != user,
        has_suffix(key, seq!['_'] + user) || has_prefix(key, user + seq!['_']),
    ensures
        received_in(messages, key, user).contains(messages[j].content),
    decreases messages.len(),
{
    let prev = received_in(messages.drop_last(), key, user);
    if j == messages.len() - 1 {
        assert(received_in(messages, key, user) == prev.push(messages[j].content));
        assert(prev.push(messages[j].content)[prev.len() as int] == messages[j].content);
    } else {
        assert(messages.drop_last()[j] == messages[j]);
        lemma_received_in_complete(messages.drop_last(), key, user, j);
        let k = choose|k: int| 0 <= k < prev.len() && prev[k] == messages[j].content;
        if key_concerns(key, user) && messages.last().owner != user {
            assert(prev.push(messages.last().content)[k] == messages[j].content);
        }
    }
}

/// A user receives only what others wrote in the user's own active
/// conversations: every content that `get_messages` gives `user` is the
/// content of a message, written by someone else, kept under a key that ends
/// with `_user` or begins with `user_` and that the connections hold (as it
/// is, or with its pieces reversed).
pub proof fn lemma_received_only_from_own_conversations(
    chat: Seq<(Seq<char>, Seq<StoredMessageView>)>,
    connections: Map<Seq<char>, Seq<char>>,
    user: Seq<char>,
    content: Seq<char>,
)
    requires
        inbox(chat, connections, user).contains(content),
    ensures
        exists|i: int, j: int|
            #![trigger chat[i].1[j]]
            0 <= i < chat.len() && 0 <= j < chat[i].1.len() && chat[i].1[j].content == content
                && chat[i].1[j].owner != user && (has_suffix(chat[i].0, seq!['_'] + user)
                || has_prefix(chat[i].0, user + seq!['_'])) && (connections.contains_key(chat[i].0)
                || connections.contains_key(concat_reversed(split_seq(chat[i].0, '_')))),
    decreases chat.len(),
{
    let prev = inbox(chat.drop_last(), connections, user);
    let all = inbox(chat, connections, user);
    let k = choose|k: int| 0 <= k < all.len() && all[k] == content;
    let last = chat.len() - 1;
    if k < prev.len() {
        assert(prev[k] == content);
        lemma_received_only_from_own_conversations(chat.drop_last(), connections, user, content);
        let (i, j) = choose|i: int, j: int|
            #![trigger chat.drop_last()[i].1[j]]
            0 <= i < chat.drop_last().len() && 0 <= j < chat.drop_last()[i].1.len()
                && chat.drop_last()[i].1[j].content == content && chat.drop_last()[i].1[j].owner
                != user && (has_suffix(chat.drop_last()[i].0, seq!['_'] + user) || has_prefix(
                chat.drop_last()[i].0,
                user + seq!['_'],
            )) && (connections.contains_key(chat.drop_last()[i].0) || connections.contains_key(
                concat_reversed(split_seq(chat.drop_last()[i].0, '_')),
            ));
        assert(chat[i] == chat.drop_last()[i]);
        assert(chat[i].1[j].content == content);
    } else {
        let part = received_in(chat[last].1, chat[last].0, user);
        assert(is_active(connections, chat[last].0));
        assert(all == prev + part);
        assert(part[k - prev.len()] == content);
        lemma_received_in_sound(chat[last].1, chat[last].0, user, content);
        let j = choose|j: int|
            0 <= j < chat[last].1.len() && #[trigger] chat[last].1[j].content == content
                && chat[last].1[j].owner != user;
        assert(chat[last].1[j].content == content);
    }
}

/// A user whose id no conversation key names on either side receives nothing.
pub proof fn lemma_no_conversation_no_messages(
    chat: Seq<(Seq<char>, Seq<StoredMessageView>)>,
    connections: Map<Seq<char>, Seq<char>>,
    user: Seq<char>,
)
    requires
        forall|i: int|
            0 <= i < chat.len() ==> !has_suffix(#[trigger] chat[i].0, seq!['_'] + user)
                && !has_prefix(chat[i].0, user + seq!['_']),
    ensures
        inbox(chat, connections, user).len() == 0,
{
    let all = inbox(chat, connections, user);
    if all.len() > 0 {
        assert(all[0] == all[0]);
        lemma_received_only_from_own_conversations(chat, connections, user, all[0]);
    }
}

/// A user receives everything that others wrote in the user's active
/// conversations: a message, written by someone else, under a key that ends
/// with `_user` or begins with `user_` and that the connections hold (as it is
/// or with its pieces reversed), is among what `get_messages` gives `user`.
pub proof fn lemma_receives_all_of_own_conversations(
    chat: Seq<(Seq<char>, Seq<StoredMessageView>)>,
    connections: Map<Seq<char>, Seq<char>>,
    user: Seq<char>,
    i: int,
    j: int,
)
    requires
        0 <= i < chat.len(),
        0 <= j < chat[i].1.len(),
        chat[i].1[j].owner != user,
        has_suffix(chat[i].0, seq!['_'] + user) || has_prefix(chat[i].0, user + seq!['_']),
        connections.contains_key(chat[i].0) || connections.contains_key(
            concat_reversed(split_seq(chat[i].0, '_')),
        ),
    ensures
        inbox(chat, connections, user).contains(chat[i].1[j].content),
{
    lemma_received_in_complete(chat[i].1, chat[i].0, user, j);
    lemma_inbox_includes(chat, connections, user, i, chat[i].1[j].content);
}

/// The partner of a sender is read off the first connection whose value is
/// the sender: the part of its key before the first underscore.
pub proof fn lemma_partner_is_first_connection(
    connections: Seq<(Seq<char>, Seq<char>)>,
    sender: Seq<char>,
    i: int,
)
    requires
        0 <= i < connections.len(),
        connections[i].1 == sender,
        forall|j: int| 0 <= j < i ==> #[trigger] connections[j].1 != sender,
    ensures
        partner_of(connections, sender) == Some(split_seq(connections[i].0, '_')[0]),
    decreases i,
{
    if i > 0 {
        assert(connections[0].1 != sender);
        assert forall|j: int| 0 <= j < i - 1 implies #[trigger] connections.drop_first()[j].1
            != sender by {
            assert(connections.drop_first()[j] == connections[j + 1]);
        }
        lemma_partner_is_first_connection(connections.drop_first(), sender, i - 1);
    }
}

/// A sender has a partner exactly where some connection has the sender as
/// its value.
pub proof fn lemma_partner_exists_iff_connected(
    connections: Seq<(Seq<char>, Seq<char>)>,
    sender: Seq<char>,
)
    ensures
        partner_of(connections, sender) is Some <==> exists|i: int|
            0 <= i < connections.len() && #[trigger] connections[i].1 == sender,
    decreases connections.len(),
{
    if connections.len() > 0 {
        lemma_partner_exists_iff_connected(connections.drop_first(), sender);
        if exists|i: int| 0 <= i < connections.len() && #[trigger] connections[i].1 == sender {
            let i = choose|i: int| 0 <= i < connections.len() && #[trigger] connections[i].1 == sender;
            if connections[0].1 != sender {
                assert(connections.drop_first()[i - 1].1 == sender);
            }
        }
        if partner_of(connections, sender) is Some && connections[0].1 != sender {
            let i = choose|i: int|
                0 <= i < connections.drop_first().len() && #[trigger] connections.drop_first()[i].1
                    == sender;
            assert(connections[i + 1].1 == sender);
        }
    }
}

/// A user with a session who is connected to someone can always send: where
/// some connection has the sender as its value, a message that is not `bye`
/// is answered `Message sent successfully`, however many partners the sender
/// has.
pub proof fn lemma_connected_sender_can_send(
    sessions: Map<Seq<char>, SessionView>,
    connections: Seq<(Seq<char>, Seq<char>)>,
    token: Seq<char>,
    content: Seq<char>,
    i: int,
)
    requires
        sessions.contains_key(token),
        0 <= i < connections.len(),
        connections[i].1 == sessions[token].userid,
        lowered(content) != "bye"@,
    ensures
        send_message_result(sessions, connections, token, content) == Ok::<Seq<char>, StatusCode>(
            "Message sent successfully"@,
        ),
{
    lemma_partner_exists_iff_connected(connections, sessions[token].userid);
}

/// An online receiver that the sender is not connected with gets connected,
/// whatever other connections exist: the answer is `User is Online and
/// connection established.`, and the connection from sender to receiver and
/// the one back are added to the connections as they were.
pub proof fn lemma_online_receiver_gets_connected(
    sessions: Map<Seq<char>, SessionView>,
    session_order: Seq<(Seq<char>, SessionView)>,
    connections: Seq<(Seq<char>, Seq<char>)>,
    token: Seq<char>,
    receiver: Seq<char>,
    i: int,
)
    requires
        distinct_keys(connections),
        sessions.contains_key(token),
        0 <= i < session_order.len(),
        session_order[i].1.userid == receiver,
        !pairs_view(connections).contains_key(connection_key(sessions[token].userid, receiver)),
        !pairs_view(connections).contains_key(connection_key(receiver, sessions[token].userid)),
    ensures
        start_conversation_result(sessions, session_order, pairs_view(connections), token, receiver)
            == Ok::<Seq<char>, StatusCode>("User is Online and connection established."@),
        pairs_view(connections_after_start(sessions, session_order, connections, token, receiver))
            == pairs_view(connections).insert(
            connection_key(sessions[token].userid, receiver),
            receiver,
        ).insert(connection_key(receiver, sessions[token].userid), sessions[token].userid),
        connection_map_after_start(
            sessions,
            session_order,
            pairs_view(connections),
            token,
            receiver,
        ) == pairs_view(connections).insert(
            connection_key(sessions[token].userid, receiver),
            receiver,
        ).insert(connection_key(receiver, sessions[token].userid), sessions[token].userid),
{
    assert(user_has_session(session_order, receiver));
    lemma_start_conversation_view(sessions, session_order, connections, token, receiver);
}

/// What one message gives a user: its content where someone else wrote it
/// under a key that ends with `_user` or begins with `user_`; nothing
/// otherwise.
pub proof fn lemma_received_one_message(message: StoredMessageView, key: Seq<char>, user: Seq<char>)
    ensures
        received_in(seq![message], key, user) == if (has_suffix(key, seq!['_'] + user)
            || has_prefix(key, user + seq!['_'])) && message.owner != user {
            seq![message.content]
        } else {
            Seq::<Seq<char>>::empty()
        },
{
    assert(seq![message].drop_last() =~= Seq::<StoredMessageView>::empty());
    assert(received_in(Seq::<StoredMessageView>::empty(), key, user) == Seq::<Seq<char>>::empty());
    assert(Seq::<Seq<char>>::empty().push(message.content) =~= seq![message.content]);
}

/// The messages of a conversation are received in the order in which they
/// were written: what two runs of messages give is what the first gives
/// followed by what the second gives.
pub proof fn lemma_received_concat(
    first: Seq<StoredMessageView>,
    second: Seq<StoredMessageView>,
    key: Seq<char>,
    user: Seq<char>,
)
    ensures
        received_in(first + second, key, user) == received_in(first, key, user) + received_in(
            second,
            key,
            user,
        ),
    decreases second.len(),
{
    if second.len() == 0 {
        assert(first + second =~= first);
        assert(received_in(first, key, user) + Seq::<Seq<char>>::empty() =~= received_in(
            first,
            key,
            user,
        ));
    } else {
        lemma_received_concat(first, second.drop_last(), key, user);
        assert((first + second).drop_last() =~= first + second.drop_last());
        assert((first + second).last() == second.last());
        if key_concerns(key, user) && second.last().owner != user {
            assert(received_in(first, key, user) + received_in(second.drop_last(), key, user).push(
                second.last().content,
            ) =~= (received_in(first, key, user) + received_in(second.drop_last(), key, user)).push(
                second.last().content,
            ));
        }
    }
}

/// What a user receives from one conversation: what its messages give where
/// the connections hold its key (as it is, or with its pieces reversed);
/// nothing otherwise.
pub proof fn lemma_inbox_one_conversation(
    key: Seq<char>,
    messages: Seq<StoredMessageView>,
    connections: Map<Seq<char>, Seq<char>>,
    user: Seq<char>,
)
    ensures
        inbox(seq![(key, messages)], connections, user) == if connections.contains_key(key)
            || connections.contains_key(concat_reversed(split_seq(key, '_'))) {
            received_in(messages, key, user)
        } else {
            Seq::<Seq<char>>::empty()
        },
{
    let one = seq![(key, messages)];
    assert(one.drop_last() =~= Seq::<(Seq<char>, Seq<StoredMessageView>)>::empty());
    assert(inbox(one.drop_last(), connections, user) == Seq::<Seq<char>>::empty());
    assert(one.last() == (key, messages));
    assert(Seq::<Seq<char>>::empty() + received_in(messages, key, user) =~= received_in(
        messages,
        key,
        user,
    ));
}

/// Conversations are delivered in the order of the chat: what two runs of
/// conversations give a user is what the first gives followed by what the
/// second gives.
pub proof fn lemma_inbox_concat(
    first: Seq<(Seq<char>, Seq<StoredMessageView>)>,
    second: Seq<(Seq<char>, Seq<StoredMessageView>)>,
    connections: Map<Seq<char>, Seq<char>>,
    user: Seq<char>,
)
    ensures
        inbox(first + second, connections, user) == inbox(first, connections, user) + inbox(
            second,
            connections,
            user,
        ),
    decreases second.len(),
{
    if second.len() == 0 {
        assert(first + second =~= first);
        assert(inbox(first, connections, user) + Seq::<Seq<char>>::empty() =~= inbox(
            first,
            connections,
            user,
        ));
    } else {
        lemma_inbox_concat(first, second.drop_last(), connections, user);
        assert((first + second).drop_last() =~= first + second.drop_last());
        assert((first + second).last() == second.last());
        if is_active(connections, second.last().0) {
            let part = received_in(second.last().1, second.last().0, user);
            assert(inbox(first, connections, user) + inbox(second.drop_last(), connections, user)
                + part =~= inbox(first, connections, user) + (inbox(
                second.drop_last(),
                connections,
                user,
            ) + part));
        }
    }
}

/// Asking to talk to someone already connected with the sender, in either
/// direction, changes nothing and answers that the connection exists.
pub proof fn lemma_connected_receiver_is_reported(
    sessions: Map<Seq<char>, SessionView>,
    session_order: Seq<(Seq<char>, SessionView)>,
    connections: Seq<(Seq<char>, Seq<char>)>,
    token: Seq<char>,
    receiver: Seq<char>,
    i: int,
)
    requires
        sessions.contains_key(token),
        0 <= i < session_order.len(),
        session_order[i].1.userid == receiver,
        pairs_view(connections).contains_key(connection_key(sessions[token].userid, receiver))
            || pairs_view(connections).contains_key(
            connection_key(receiver, sessions[token].userid),
        ),
    ensures
        start_conversation_result(sessions, session_order, pairs_view(connections), token, receiver)
            == Ok::<Seq<char>, StatusCode>("User: "@ + receiver + " is Online and connection exists."@),
        connections_after_start(sessions, session_order, connections, token, receiver)
            == connections,
{
    assert(user_has_session(session_order, receiver));
}

/// Asking without a session is refused and changes nothing; asking for a
/// receiver that has no session answers that the receiver is offline and
/// changes nothing.
pub proof fn lemma_start_without_sessions(
    sessions: Map<Seq<char>, SessionView>,
    session_order: Seq<(Seq<char>, SessionView)>,
    connections: Seq<(Seq<char>, Seq<char>)>,
    token: Seq<char>,
    receiver: Seq<char>,
)
    ensures
        !sessions.contains_key(token) ==> start_conversation_result(
            sessions,
            session_order,
            pairs_view(connections),
            token,
            receiver,
        ) == Err::<Seq<char>, StatusCode>(StatusCode::Unauthorized),
        sessions.contains_key(token) && (forall|i: int|
            0 <= i < session_order.len() ==> #[trigger] session_order[i].1.userid != receiver)
            ==> start_conversation_result(
            sessions,
            session_order,
            pairs_view(connections),
            token,
            receiver,
        ) == Ok::<Seq<char>, StatusCode>("User is Offline."@),
        (!sessions.contains_key(token) || (forall|i: int|
            0 <= i < session_order.len() ==> #[trigger] session_order[i].1.userid != receiver))
            ==> connections_after_start(sessions, session_order, connections, token, receiver)
            == connections,
{
}

} // verus!
