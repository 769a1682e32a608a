use chat_app::login::{
    get_session, login, login_with_token, online_status, CheckOnlineStatusByUserIdRequest,
    LoginRequest, Session, SessionDatabase, UserDatabase,
};
use chat_app::message::validate_token;
use chat_app::request::RequestHead;
use chat_app::status::StatusCode;

fn request(userid: &str, password: &str) -> LoginRequest {
    LoginRequest { userid: userid.to_string(), password: password.to_string() }
}

fn head(method: &str, path: &str) -> RequestHead {
    RequestHead { method: method.to_string(), path: path.to_string() }
}

#[test]
fn the_three_accounts_start_offline() {
    let db = UserDatabase::new();
    for (id, pw) in [("Swarnjit", "GS1"), ("Sanjeev", "GS2"), ("Kamlesh", "GS3")] {
        let user = db.get(id).unwrap();
        assert_eq!(user.userid, id);
        assert_eq!(user.password, pw);
        assert!(!user.online);
        assert_eq!(db.is_online(id), Some(false));
    }
    assert!(db.get("Nobody").is_none());
    assert_eq!(db.is_online("Nobody"), None);
}

#[test]
fn login_hands_out_a_uuid_token_that_is_accepted_afterwards() {
    let db = UserDatabase::new();
    let mut sessions: SessionDatabase = SessionDatabase::new();
    let response = login(&db, &mut sessions, &request("Sanjeev", "GS2")).unwrap();
    let token = response.token.clone();
    assert_eq!(token.len(), 36);
    assert_eq!(uuid_shape(&token), true);
    let session = get_session(&sessions, &token).unwrap();
    assert_eq!(session.token, token);
    assert_eq!(session.userid, "Sanjeev");
    assert!(validate_token(&head("POST", "/send_message"), &token, &sessions));
    assert!(!validate_token(&head("POST", "/send_message"), "other", &sessions));
}

fn uuid_shape(t: &str) -> bool {
    t.chars().enumerate().all(|(i, c)| {
        if [8, 13, 18, 23].contains(&i) {
            c == '-'
        } else {
            c.is_ascii_hexdigit() && !c.is_ascii_uppercase()
        }
    }) && t.as_bytes()[14] == b'4'
}

#[test]
fn two_logins_give_two_sessions() {
    let db = UserDatabase::new();
    let mut sessions = SessionDatabase::new();
    let a = login(&db, &mut sessions, &request("Swarnjit", "GS1")).unwrap().token;
    let b = login(&db, &mut sessions, &request("Swarnjit", "GS1")).unwrap().token;
    assert_ne!(a, b);
    assert_eq!(sessions.len(), 2);
}

#[test]
fn wrong_password_or_unknown_user_is_unauthorized() {
    let db = UserDatabase::new();
    let mut sessions = SessionDatabase::new();
    assert_eq!(login(&db, &mut sessions, &request("Kamlesh", "GS1")).err(), Some(StatusCode::Unauthorized));
    assert_eq!(login(&db, &mut sessions, &request("Nobody", "GS1")).err(), Some(StatusCode::Unauthorized));
    assert_eq!(sessions.len(), 0);
}

#[test]
fn login_with_a_given_token_stores_that_token() {
    let db = UserDatabase::new();
    let mut sessions = SessionDatabase::new();
    let r = login_with_token(&db, &mut sessions, &request("Kamlesh", "GS3"), "tok".to_string());
    assert_eq!(r.unwrap().token, "tok");
    let s = get_session(&sessions, "tok").unwrap();
    assert_eq!(s.userid, "Kamlesh");
    assert_eq!(s.token, "tok");
    assert!(get_session(&sessions, "else").is_none());
}

#[test]
fn login_request_needs_no_token() {
    let sessions = SessionDatabase::new();
    assert!(validate_token(&head("POST", "/login"), "", &sessions));
    assert!(!validate_token(&head("GET", "/login"), "", &sessions));
    assert!(!validate_token(&head("POST", "/status"), "", &sessions));
}

#[test]
fn online_status_answers_per_account() {
    let db = UserDatabase::new();
    let r = online_status(&db, &CheckOnlineStatusByUserIdRequest { userid: "Sanjeev".to_string() });
    assert_eq!(r.unwrap().online, false);
    let r = online_status(&db, &CheckOnlineStatusByUserIdRequest { userid: "Ghost".to_string() });
    assert_eq!(r.err(), Some(StatusCode::NotFound));
}

#[test]
fn session_shows_its_user() {
    let s = Session::new("t".to_string(), "Kamlesh".to_string());
    assert_eq!(s.to_string(), "Session ID: Kamlesh");
    let c = s.copied();
    assert_eq!((c.token.as_str(), c.userid.as_str()), ("t", "Kamlesh"));
}

#[test]
fn status_numbers() {
    let all = [
        (StatusCode::Success, 200),
        (StatusCode::SeeOther, 303),
        (StatusCode::BadRequest, 400),
        (StatusCode::Unauthorized, 401),
        (StatusCode::NotFound, 404),
        (StatusCode::MethodNotAllowed, 405),
        (StatusCode::InternalServerError, 500),
    ];
    for (s, n) in all {
        assert_eq!(s.as_u16(), n);
    }
}
