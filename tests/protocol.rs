use sepha::auth::{
    authenticate, complete_authentication, init, issue_challenge, verify, IssueError,
    CHALLENGE_LIFETIME, PUBLIC_TOKEN_LEN, SESSION_LIFETIME,
};
use sepha::claims::{read_claims, write_claims, Claims};
use sepha::token::{check_token, judge_payload, sign_claims, Subject, TokenError};

const KEY: &[u8] = b"relay signing key";
const NOW: i64 = 1_560_000_000;

fn chars(s: &str) -> Vec<char> {
    s.chars().collect()
}

fn text(v: &[char]) -> String {
    v.iter().collect()
}

fn now() -> i64 {
    std::time::SystemTime::now()
        .duration_since(std::time::UNIX_EPOCH)
        .unwrap()
        .as_secs() as i64
}

#[test]
fn it_works() {
    assert_eq!(1 + 1, 2);
}

#[test]
fn claims_text_layout() {
    let c = Claims {
        exp: 300,
        iat: 0,
        sub: chars("init"),
        id: 42,
        public_token: Some(chars("Ab3x9")),
    };
    assert_eq!(
        text(&write_claims(&c)),
        r#"{"exp":300,"iat":0,"sub":"init","id":42,"public_token":"Ab3x9"}"#
    );
    let s = Claims { exp: -5, iat: -3605, sub: chars("auth_token"), id: 0, public_token: None };
    assert_eq!(text(&write_claims(&s)), r#"{"exp":-5,"iat":-3605,"sub":"auth_token","id":0}"#);
}

#[test]
fn claims_read_back() {
    let c = Claims {
        exp: i64::MAX,
        iat: i64::MIN,
        sub: chars("init"),
        id: u64::MAX,
        public_token: Some(chars("zZ09")),
    };
    let back = read_claims(&write_claims(&c)).unwrap();
    assert_eq!(back.exp, i64::MAX);
    assert_eq!(back.iat, i64::MIN);
    assert_eq!(text(&back.sub), "init");
    assert_eq!(back.id, u64::MAX);
    assert_eq!(back.public_token.map(|t| text(&t)), Some("zZ09".to_string()));
}

#[test]
fn claims_read_rejects_other_layouts() {
    for bad in [
        r#"{"exp":0300,"iat":0,"sub":"init","id":42}"#,
        r#"{"exp":300, "iat":0,"sub":"init","id":42}"#,
        r#"{"iat":0,"exp":300,"sub":"init","id":42}"#,
        r#"{"exp":300,"iat":0,"sub":"in it","id":42}"#,
        r#"{"exp":99999999999999999999,"iat":0,"sub":"init","id":42}"#,
        r#"{"exp":300,"iat":0,"sub":"init","id":42"#,
        "",
    ] {
        assert!(read_claims(&chars(bad)).is_none(), "{}", bad);
    }
    assert!(read_claims(&chars(r#"{"exp":300,"iat":0,"sub":"init","id":42}"#)).is_some());
}

#[test]
fn judge_payload_outcomes() {
    let p = chars(r#"{"exp":300,"iat":0,"sub":"init","id":7,"public_token":"ab"}"#);
    assert_eq!(judge_payload(&p, Subject::Init, 300).unwrap().id, 7);
    assert_eq!(judge_payload(&p, Subject::Init, 301).err(), Some(TokenError::Expired));
    assert_eq!(judge_payload(&p, Subject::Session, 0).err(), Some(TokenError::WrongSubject));
    let no_token = chars(r#"{"exp":300,"iat":0,"sub":"init","id":7}"#);
    assert_eq!(judge_payload(&no_token, Subject::Init, 0).err(), Some(TokenError::Malformed));
    assert_eq!(judge_payload(&chars("{}"), Subject::Session, 0).err(), Some(TokenError::Malformed));
}

#[test]
fn challenge_opens_with_its_id_and_token() {
    let ch = issue_challenge(42, chars("Ab3x9"), NOW, KEY).unwrap();
    assert_eq!(ch.public_token, "Ab3x9");
    assert_eq!(ch.secret.split('.').count(), 3);
    let c = authenticate(&ch.secret, KEY, NOW + CHALLENGE_LIFETIME).unwrap();
    assert_eq!(c.id, 42);
    assert_eq!(c.exp, NOW + 300);
    assert_eq!(c.iat, NOW);
    assert_eq!(c.public_token.map(|t| text(&t)), Some("Ab3x9".to_string()));
}

#[test]
fn challenge_expires_after_five_minutes() {
    let ch = issue_challenge(42, chars("Ab3x9"), NOW, KEY).unwrap();
    assert_eq!(authenticate(&ch.secret, KEY, NOW + 301).err(), Some(TokenError::Expired));
}

#[test]
fn equal_inputs_give_equal_challenges() {
    let a = issue_challenge(42, chars("Ab3x9"), NOW, KEY).unwrap();
    let b = issue_challenge(42, chars("Ab3x9"), NOW, KEY).unwrap();
    assert_eq!(a.public_token, b.public_token);
    assert_eq!(a.secret, b.secret);
}

#[test]
fn challenge_clock_out_of_range() {
    let r = issue_challenge(1, chars("a"), i64::MAX - 299, KEY);
    assert_eq!(r.err(), Some(IssueError::ClockOutOfRange));
}

#[test]
fn tampered_or_foreign_secret_rejected() {
    let ch = issue_challenge(42, chars("Ab3x9"), NOW, KEY).unwrap();
    assert_eq!(authenticate(&ch.secret, b"another key", NOW).err(), Some(TokenError::BadSignature));
    let mut forged: Vec<&str> = ch.secret.split('.').collect();
    let other = issue_challenge(43, chars("Ab3x9"), NOW, KEY).unwrap();
    let other_parts: Vec<&str> = other.secret.split('.').collect();
    forged[1] = other_parts[1];
    let forged = forged.join(".");
    assert_eq!(authenticate(&forged, KEY, NOW).err(), Some(TokenError::BadSignature));
    assert_eq!(authenticate("not a token", KEY, NOW).err(), Some(TokenError::Malformed));
    assert_eq!(authenticate("abc", KEY, NOW).err(), Some(TokenError::Malformed));
    assert_eq!(authenticate("a.b.c", KEY, NOW).err(), Some(TokenError::Malformed));
}

#[test]
fn blurb_must_match_exactly() {
    let ch = issue_challenge(42, chars("Ab3x9"), NOW, KEY).unwrap();
    let c = authenticate(&ch.secret, KEY, NOW).unwrap();
    assert_eq!(complete_authentication(&c, "ab3x9", KEY, NOW), Ok(None));
    assert_eq!(complete_authentication(&c, "Ab3x9 ", KEY, NOW), Ok(None));
    assert_eq!(complete_authentication(&c, "", KEY, NOW), Ok(None));
    let t = complete_authentication(&c, "Ab3x9", KEY, NOW).unwrap().unwrap();
    assert!(verify(&t, KEY, NOW));
    let again = authenticate(&ch.secret, KEY, NOW + 200).unwrap();
    let t2 = complete_authentication(&again, "Ab3x9", KEY, NOW + 200).unwrap().unwrap();
    assert_eq!(check_token(&t2, KEY, Subject::Session, NOW + 200).unwrap().id, 42);
    assert_eq!(
        complete_authentication(&c, "Ab3x9", KEY, i64::MAX - 3599),
        Err(IssueError::ClockOutOfRange)
    );
}

#[test]
fn session_valid_for_one_hour() {
    let ch = issue_challenge(9, chars("Q"), NOW, KEY).unwrap();
    let c = authenticate(&ch.secret, KEY, NOW).unwrap();
    let t = complete_authentication(&c, "Q", KEY, NOW).unwrap().unwrap();
    assert!(verify(&t, KEY, NOW + SESSION_LIFETIME));
    assert!(!verify(&t, KEY, NOW + SESSION_LIFETIME + 1));
    assert!(!verify(&t, b"another key", NOW));
    let s = check_token(&t, KEY, Subject::Session, NOW).unwrap();
    assert_eq!(s.id, 9);
    assert_eq!(s.exp, NOW + 3600);
    assert!(s.public_token.is_none());
}

#[test]
fn challenge_is_not_a_session() {
    let ch = issue_challenge(42, chars("Ab3x9"), NOW, KEY).unwrap();
    assert!(!verify(&ch.secret, KEY, NOW));
    assert_eq!(
        check_token(&ch.secret, KEY, Subject::Session, NOW).err(),
        Some(TokenError::WrongSubject)
    );
}

#[test]
fn session_is_not_a_challenge() {
    let c = Claims { exp: NOW + 3600, iat: NOW, sub: chars("auth_token"), id: 5, public_token: None };
    let t = sign_claims(&c, KEY);
    assert_eq!(authenticate(&t, KEY, NOW).err(), Some(TokenError::WrongSubject));
    assert!(verify(&t, KEY, NOW));
}

#[test]
fn init_then_authenticate_then_verify() {
    let ch = init(42, KEY).unwrap();
    assert_eq!(ch.public_token.chars().count(), PUBLIC_TOKEN_LEN);
    assert!(ch.public_token.chars().all(|c| c.is_ascii_alphanumeric()));
    let now = now();
    let c = authenticate(&ch.secret, KEY, now).unwrap();
    assert_eq!(c.id, 42);
    assert!(c.exp - c.iat == CHALLENGE_LIFETIME);
    let token = complete_authentication(&c, &ch.public_token, KEY, now).unwrap().unwrap();
    assert!(verify(&token, KEY, now));
}

#[test]
fn init_tokens_differ() {
    let a = init(1, KEY).unwrap();
    let b = init(1, KEY).unwrap();
    assert_ne!(a.public_token, b.public_token);
}
