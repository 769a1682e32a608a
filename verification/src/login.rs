//! Accounts, login and sessions.

use vstd::prelude::*;
use vstd::string::*;

use crate::status::StatusCode;
use crate::strmap::{StrMap, has_key, key_index, lemma_entry_in_view};
use crate::text::{concat2, owned};

verus! {

/// The credentials that a client logs in with.
#[derive(Debug)]
pub struct LoginRequest {
    pub userid: String,
    pub password: String,
}

/// The answer to a successful login: the session's token.
#[derive(Debug)]
pub struct LoginResponse {
    pub token: String,
}

/// A logged-in user: the token handed out at login and the user it belongs to.
#[derive(Clone, Debug)]
pub struct Session {
    pub token: String,
    pub userid: String,
}

/// A session taken by its characters.
pub struct SessionView {
    pub token: Seq<char>,
    pub userid: Seq<char>,
}

impl DeepView for Session {
    type V = SessionView;

    open spec fn deep_view(&self) -> SessionView {
        SessionView { token: self.token@, userid: self.userid@ }
    }
}

/// The open sessions, keyed by token.
pub type SessionDatabase = StrMap<Session>;

/// What `Session::to_string` writes.
pub open spec fn session_text(userid: Seq<char>) -> Seq<char> {
    "Session ID: "@ + userid
}

impl Session {
    /// A session of `userid` under `token`.
    pub fn new(token: String, userid: String) -> (s: Self)
        ensures
            s.token == token,
            s.userid == userid,
    {
        Session { token, userid }
    }

    /// A copy of this session.
    pub fn copied(&self) -> (s: Self)
        ensures
            s.deep_view() == self.deep_view(),
    {
        Session { token: self.token.clone(), userid: self.userid.clone() }
    }

    /// The text by which a session shows itself: `Session ID: ` and the user id.
    pub fn to_string(&self) -> (t: String)
        ensures
            t@ == session_text(self.userid@),
    {
        concat2("Session ID: ", self.userid.as_str())
    }
}

/// The session stored under `token`, if any.
pub fn get_session(session_db: &SessionDatabase, token: &str) -> (r: Option<Session>)
    ensures
        r is Some <==> session_db@.contains_key(token@),
        r matches Some(s) ==> s.deep_view() == session_db@[token@],
{
    match session_db.get(token) {
        Some(s) => Some(s.copied()),
        None => None,
    }
}

/// A registered user.
#[derive(Clone, Debug)]
pub struct User {
    pub userid: String,
    pub password: String,
    pub online: bool,
}

/// A user taken by its characters.
pub struct UserView {
    pub userid: Seq<char>,
    pub password: Seq<char>,
    pub online: bool,
}

impl DeepView for User {
    type V = UserView;

    open spec fn deep_view(&self) -> UserView {
        UserView { userid: self.userid@, password: self.password@, online: self.online }
    }
}

/// The accounts that the service knows, keyed by user id.
#[derive(Debug)]
pub struct UserDatabase {
    users: StrMap<User>,
}

/// The accounts that the service starts with.
pub open spec fn initial_users() -> Map<Seq<char>, UserView> {
    map![
        "Swarnjit"@ => UserView { userid: "Swarnjit"@, password: "GS1"@, online: false },
        "Sanjeev"@ => UserView { userid: "Sanjeev"@, password: "GS2"@, online: false },
        "Kamlesh"@ => UserView { userid: "Kamlesh"@, password: "GS3"@, online: false },
    ]
}

impl UserDatabase {
    /// The accounts by user id.
    pub closed spec fn view(&self) -> Map<Seq<char>, UserView> {
        self.users@
    }

    /// The accounts in the order in which they were registered.
    pub closed spec fn accounts(&self) -> Seq<(Seq<char>, UserView)> {
        self.users.pairs()
    }

    /// Each account is stored under its own user id.
    #[verifier::type_invariant]
    closed spec fn keyed_by_userid(self) -> bool {
        forall|i: int|
            0 <= i < self.users.pairs().len() ==> #[trigger] self.users.pairs()[i].0
                == self.users.pairs()[i].1.userid
    }

    /// The three accounts of the service, all offline.
    pub fn new() -> (db: Self)
        ensures
            db@ == initial_users(),
            db.accounts() == seq![
                ("Swarnjit"@, UserView { userid: "Swarnjit"@, password: "GS1"@, online: false }),
                ("Sanjeev"@, UserView { userid: "Sanjeev"@, password: "GS2"@, online: false }),
                ("Kamlesh"@, UserView { userid: "Kamlesh"@, password: "GS3"@, online: false }),
            ],
    {
        proof {
            reveal_strlit("Swarnjit");
            reveal_strlit("Sanjeev");
            reveal_strlit("Kamlesh");
            reveal_strlit("GS1");
            reveal_strlit("GS2");
            reveal_strlit("GS3");
        }
        let mut users: StrMap<User> = StrMap::new();
        let ghost a = ("Swarnjit"@, UserView { userid: "Swarnjit"@, password: "GS1"@, online: false });
        let ghost b = ("Sanjeev"@, UserView { userid: "Sanjeev"@, password: "GS2"@, online: false });
        let ghost c = ("Kamlesh"@, UserView { userid: "Kamlesh"@, password: "GS3"@, online: false });
        users.insert(
            owned("Swarnjit"),
            User { userid: owned("Swarnjit"), password: owned("GS1"), online: false },
        );
        assert(users.pairs() =~= seq![a]);
        assert(!has_key(users.pairs(), b.0)) by {
            assert(users.pairs()[0].0.len() != b.0.len());
        }
        users.insert(
            owned("Sanjeev"),
            User { userid: owned("Sanjeev"), password: owned("GS2"), online: false },
        );
        assert(users.pairs() =~= seq![a, b]);
        assert(!has_key(users.pairs(), c.0)) by {
            assert(users.pairs()[0].0[0] != c.0[0]);
            assert(users.pairs()[1].0[0] != c.0[0]);
        }
        users.insert(
            owned("Kamlesh"),
            User { userid: owned("Kamlesh"), password: owned("GS3"), online: false },
        );
        assert(users.pairs() =~= seq![a, b, c]);
        let db = UserDatabase { users };
        assert(db@ =~= initial_users());
        db
    }

    /// The account with user id `userid`.
    pub fn get(&self, userid: &str) -> (r: Option<&User>)
        ensures
            r is Some <==> self@.contains_key(userid@),
            r matches Some(u) ==> u.deep_view() == self@[userid@],
    {
        self.users.get(userid)
    }

    /// Whether the account with user id `userid` is online; `None` where no
    /// account has that user id.
    pub fn is_online(&self, userid: &str) -> (r: Option<bool>)
        ensures
            r is Some <==> exists|i: int|
                0 <= i < self.accounts().len() && #[trigger] self.accounts()[i].1.userid
                    == userid@,
            r is Some <==> self@.contains_key(userid@),
            r matches Some(online) ==> online == self@[userid@].online,
    {
        proof {
            use_type_invariant(self);
        }
        let wanted = owned(userid);
        let n = self.users.len();
        let mut i: usize = 0;
        while i < n
            invariant
                n == self.users.pairs().len(),
                i <= n,
                wanted@ == userid@,
                forall|j: int| 0 <= j < i ==> self.users.pairs()[j].1.userid != userid@,
            decreases n - i,
        {
            let (_key, user) = self.users.entry_at(i);
            if user.userid == wanted {
                self.users.assert_distinct_keys();
                proof {
                    use_type_invariant(self);
                    lemma_entry_in_view(self.users.pairs(), i as int);
                    assert(self.accounts()[i as int].1.userid == userid@);
                }
                return Some(user.online);
            }
            i += 1;
        }
        proof {
            use_type_invariant(self);
            if has_key(self.users.pairs(), userid@) {
                let j = key_index(self.users.pairs(), userid@);
                assert(self.users.pairs()[j].0 == self.users.pairs()[j].1.userid);
            }
        }
        None
    }
}

/// A lowercase hexadecimal digit.
pub open spec fn is_lower_hex(c: char) -> bool {
    ('0' <= c && c <= '9') || ('a' <= c && c <= 'f')
}

/// The hyphenated lowercase text of a random (version 4, RFC variant) UUID,
/// such as `67e55044-10b1-426f-9247-bb680e5fe0c8`.
pub open spec fn is_v4_uuid_text(s: Seq<char>) -> bool {
    &&& s.len() == 36
    &&& forall|i: int|
        0 <= i < 36 ==> if i == 8 || i == 13 || i == 18 || i == 23 {
            #[trigger] s[i] == '-'
        } else {
            is_lower_hex(s[i])
        }
    &&& s[14] == '4'
    &&& (s[19] == '8' || s[19] == '9' || s[19] == 'a' || s[19] == 'b')
}

/// Calls `uuid::Uuid::new_v4` and formats the UUID with `to_string`, which
/// writes it hyphenated in lowercase hexadecimal; `new_v4` sets the version
/// nibble to 4 and the variant bits to `10`. The value is random: only its
/// shape is claimed, and nothing is said of two calls giving different
/// values. `new_v4` panics where the operating system gives no random bytes.
#[verifier::external_body]
fn new_session_token() -> (token: String)
    ensures
        is_v4_uuid_text(token@),
{
    uuid::Uuid::new_v4().to_string()
}

/// The sessions after `login` has handed out `token` to `userid`.
pub open spec fn sessions_after_login(
    sessions: Map<Seq<char>, SessionView>,
    token: Seq<char>,
    userid: Seq<char>,
) -> Map<Seq<char>, SessionView> {
    sessions.insert(token, SessionView { token, userid })
}

/// Whether `request` names an account and gives its password.
pub open spec fn credentials_match(users: Map<Seq<char>, UserView>, userid: Seq<char>, password: Seq<char>) -> bool {
    users.contains_key(userid) && users[userid].password == password
}

/// Logs a user in with a token that has already been drawn: where the user
/// exists and the password matches, opens a session under `token` and answers
/// with it; otherwise answers `Unauthorized` and opens nothing.
pub fn login_with_token(
    database: &UserDatabase,
    sessions: &mut SessionDatabase,
    request: &LoginRequest,
    token: String,
) -> (r: Result<LoginResponse, StatusCode>)
    ensures
        credentials_match(database@, request.userid@, request.password@) ==> {
            &&& r matches Ok(resp) && resp.token@ == token@
            &&& final(sessions)@ == sessions_after_login(old(sessions)@, token@, request.userid@)
        },
        !credentials_match(database@, request.userid@, request.password@) ==> {
            &&& r == Err::<LoginResponse, StatusCode>(StatusCode::Unauthorized)
            &&& final(sessions)@ == old(sessions)@
        },
{
    match database.get(request.userid.as_str()) {
        Some(user) => {
            if user.password == request.password {
                let session = Session { token: token.clone(), userid: request.userid.clone() };
                sessions.insert(token.clone(), session);
                Ok(LoginResponse { token })
            } else {
                Err(StatusCode::Unauthorized)
            }
        },
        None => Err(StatusCode::Unauthorized),
    }
}

/// Logs a user in: where the user exists and the password matches, draws a
/// fresh random token, opens a session under it for the user and answers with
/// the token; otherwise answers `Unauthorized` and opens nothing.
pub fn login(
    database: &UserDatabase,
    sessions: &mut SessionDatabase,
    request: &LoginRequest,
) -> (r: Result<LoginResponse, StatusCode>)
    ensures
        credentials_match(database@, request.userid@, request.password@) ==> {
            &&& r matches Ok(resp)
            &&& is_v4_uuid_text(resp.token@)
            &&& final(sessions)@ == sessions_after_login(old(sessions)@, resp.token@, request.userid@)
        },
        !credentials_match(database@, request.userid@, request.password@) ==> {
            &&& r == Err::<LoginResponse, StatusCode>(StatusCode::Unauthorized)
            &&& final(sessions)@ == old(sessions)@
        },
{
    if credentials_hold(database, request) {
        let token = new_session_token();
        login_with_token(database, sessions, request, token)
    } else {
        Err(StatusCode::Unauthorized)
    }
}

fn credentials_hold(database: &UserDatabase, request: &LoginRequest) -> (b: bool)
    ensures
        b == credentials_match(database@, request.userid@, request.password@),
{
    match database.get(request.userid.as_str()) {
        Some(user) => user.password == request.password,
        None => false,
    }
}

/// Asks whether a user is online.
#[derive(Debug)]
pub struct CheckOnlineStatusByUserIdRequest {
    pub userid: String,
}

/// Whether the user asked about is online.
#[derive(Debug)]
pub struct CheckOnlineStatusByUserIdResponse {
    pub online: bool,
}

/// Answers whether the account with the requested user id is online, or
/// `NotFound` where no account has that user id.
pub fn online_status(
    database: &UserDatabase,
    request: &CheckOnlineStatusByUserIdRequest,
) -> (r: Result<CheckOnlineStatusByUserIdResponse, StatusCode>)
    ensures
        database@.contains_key(request.userid@) ==> (r matches Ok(resp) && resp.online
            == database@[request.userid@].online),
        !database@.contains_key(request.userid@) ==> r == Err::<
            CheckOnlineStatusByUserIdResponse,
            StatusCode,
        >(StatusCode::NotFound),
{
    match database.is_online(request.userid.as_str()) {
        Some(online) => Ok(CheckOnlineStatusByUserIdResponse { online }),
        None => Err(StatusCode::NotFound),
    }
}

/// A token that `login` hands out opens a session of the user who logged in:
/// afterwards the sessions hold that token, and the session under it belongs to
/// the user, whatever sessions there were before.
pub proof fn lemma_login_opens_session(
    sessions: Map<Seq<char>, SessionView>,
    token: Seq<char>,
    userid: Seq<char>,
)
    ensures
        sessions_after_login(sessions, token, userid).contains_key(token),
        sessions_after_login(sessions, token, userid)[token] == (SessionView { token, userid }),
        forall|other: Seq<char>|
            other != token ==> #[trigger] sessions_after_login(sessions, token, userid).contains_key(
                other,
            ) == sessions.contains_key(other),
{
}

} // verus!
