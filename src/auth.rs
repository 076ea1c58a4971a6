//! The challenge/response protocol: issue a challenge, confirm ownership by
//! comparing the profile text with the challenge's public token, issue and
//! check session tokens.
use crate::claims::{claims_text, is_plain, lemma_claims_round_trip, Claims, ClaimsModel};
use crate::token::{
    check_token, claims_result, judge, lemma_subjects, opened, sign_claims, signed_token, subject_chars, subject_text, token_payload,
    Subject, TokenError,
};
use rand::Rng;
use vstd::prelude::*;
use vstd::string::*;

verus! {

/// Length of the random public token a user publishes on their profile.
pub const PUBLIC_TOKEN_LEN: usize = 64;

/// Seconds a challenge stays valid.
pub const CHALLENGE_LIFETIME: i64 = 300;

/// Seconds a session token stays valid.
pub const SESSION_LIFETIME: i64 = 3600;

/// Why no token could be issued.
#[derive(PartialEq, Eq, Structural, Clone, Copy, Debug)]
pub enum IssueError {
    /// The expiration time would not fit in a timestamp.
    ClockOutOfRange,
}

/// What a client gets from starting a challenge: the text to publish and the
/// signed token to hand back later.
pub struct Challenge {
    pub public_token: String,
    pub secret: String,
}

pub open spec fn is_alnum(c: char) -> bool {
    ('0' <= c && c <= '9') || ('a' <= c && c <= 'z') || ('A' <= c && c <= 'Z')
}

/// Claims of a challenge for user `id` with `token`, issued at `now`.
pub open spec fn challenge_model(id: nat, token: Seq<char>, now: int) -> ClaimsModel {
    ClaimsModel {
        exp: now + CHALLENGE_LIFETIME,
        iat: now,
        sub: subject_text(Subject::Init),
        id,
        public_token: Some(token),
    }
}

/// Claims of a session for user `id`, issued at `now`.
pub open spec fn session_model(id: nat, now: int) -> ClaimsModel {
    ClaimsModel {
        exp: now + SESSION_LIFETIME,
        iat: now,
        sub: subject_text(Subject::Session),
        id,
        public_token: None,
    }
}

/// Relies on `rand::distributions::Alphanumeric` drawn from `thread_rng`:
/// `n` characters, each an ASCII letter or digit.
#[verifier::external_body]
fn random_alphanumeric(n: usize) -> (r: Vec<char>)
    ensures
        r@.len() == n,
        forall|k: int| 0 <= k < r@.len() ==> is_alnum(#[trigger] r@[k]),
{
    rand::thread_rng().sample_iter(rand::distributions::Alphanumeric).take(n).collect()
}

/// Relies on `chrono::Utc::now`: the current time in whole seconds since the
/// epoch.
#[verifier::external_body]
fn now_seconds() -> (r: i64) {
    chrono::Utc::now().timestamp()
}

/// Relies on `String`'s `FromIterator<char>`: the characters in order.
#[verifier::external_body]
fn string_of(chars: &Vec<char>) -> (r: String)
    ensures
        r@ == chars@,
{
    chars.iter().collect()
}

/// Whether `s` holds exactly the characters of `v`.
pub fn str_equals(s: &str, v: &Vec<char>) -> (r: bool)
    ensures
        r == (s@ == v@),
{
    let n = s.unicode_len();
    if n != v.len() {
        return false;
    }
    let mut i: usize = 0;
    while i < n
        invariant
            n == s@.len(),
            n == v@.len(),
            i <= n,
            forall|k: int| 0 <= k < i ==> s@[k] == v@[k],
        decreases n - i,
    {
        if s.get_char(i) != v[i] {
            return false;
        }
        i = i + 1;
    }
    assert(s@ =~= v@);
    true
}

/// Issues a challenge for user `id` with the given public token at time `now`.
pub fn issue_challenge(id: u64, public_token: Vec<char>, now: i64, key: &[u8]) -> (r: Result<
    Challenge,
    IssueError,
>)
    requires
        is_plain(public_token@),
    ensures
        r is Err <==> now > i64::MAX - CHALLENGE_LIFETIME,
        r is Err ==> r == Err::<Challenge, IssueError>(IssueError::ClockOutOfRange),
        r matches Ok(ch) ==> ch.public_token@ == public_token@ && ch.secret@ == signed_token(
            claims_text(challenge_model(id as nat, public_token@, now as int)),
            key@,
        ) && token_payload(ch.secret@, key@) == Some(
            claims_text(challenge_model(id as nat, public_token@, now as int)),
        ),
{
    if now > i64::MAX - CHALLENGE_LIFETIME {
        return Err(IssueError::ClockOutOfRange);
    }
    let shown = string_of(&public_token);
    let c = Claims {
        exp: now + CHALLENGE_LIFETIME,
        iat: now,
        sub: subject_chars(Subject::Init),
        id,
        public_token: Some(public_token),
    };
    assert(c@ == challenge_model(id as nat, shown@, now as int));
    proof {
        lemma_subjects();
    }
    let secret = sign_claims(&c, key);
    Ok(Challenge { public_token: shown, secret })
}

/// Starts a challenge for user `id`: a fresh random public token of
/// `PUBLIC_TOKEN_LEN` letters and digits, and a secret token that binds it to
/// `id` for `CHALLENGE_LIFETIME` seconds.
pub fn init(id: u64, key: &[u8]) -> (r: Result<Challenge, IssueError>)
    ensures
        r is Err ==> r == Err::<Challenge, IssueError>(IssueError::ClockOutOfRange),
        r matches Ok(ch) ==> {
            &&& ch.public_token@.len() == PUBLIC_TOKEN_LEN
            &&& forall|k: int| 0 <= k < ch.public_token@.len() ==> is_alnum(#[trigger] ch.public_token@[k])
            &&& exists|now: int|
                token_payload(ch.secret@, key@) == Some(
                    claims_text(#[trigger] challenge_model(id as nat, ch.public_token@, now)),
                ) && i64::MIN <= now <= i64::MAX - CHALLENGE_LIFETIME
        },
{
    let token = random_alphanumeric(PUBLIC_TOKEN_LEN);
    let now = now_seconds();
    issue_challenge(id, token, now, key)
}

/// First step of authentication: opens the secret token of a challenge. The
/// caller then looks up the profile text of the claims' `id` and hands it to
/// `complete_authentication`.
pub fn authenticate(secret: &str, key: &[u8], now: i64) -> (r: Result<Claims, TokenError>)
    ensures
        claims_result(r) == opened(secret@, key@, Subject::Init, now as int),
{
    check_token(secret, key, Subject::Init, now)
}

/// Second step of authentication: `Ok(Some(token))`, a session token for the
/// claims' user, exactly when `blurb` equals the challenge's public token and
/// the session's expiry fits in a timestamp; `Ok(None)` when they differ.
pub fn complete_authentication(claims: &Claims, blurb: &str, key: &[u8], now: i64) -> (r: Result<
    Option<String>,
    IssueError,
>)
    ensures
        (r == Ok::<Option<String>, IssueError>(None)) <==> claims@.public_token != Some(blurb@),
        (r == Err::<Option<String>, IssueError>(IssueError::ClockOutOfRange)) <==> (
        claims@.public_token == Some(blurb@) && now > i64::MAX - SESSION_LIFETIME),
        claims@.public_token == Some(blurb@) && now <= i64::MAX - SESSION_LIFETIME ==> r matches Ok(
            Some(_),
        ),
        r matches Ok(Some(t)) ==> t@ == signed_token(
            claims_text(session_model(claims.id as nat, now as int)),
            key@,
        ) && token_payload(t@, key@) == Some(
            claims_text(session_model(claims.id as nat, now as int)),
        ),
{
    let matches = match &claims.public_token {
        Some(tok) => str_equals(blurb, tok),
        None => false,
    };
    if !matches {
        return Ok(None);
    }
    if now > i64::MAX - SESSION_LIFETIME {
        return Err(IssueError::ClockOutOfRange);
    }
    let c = Claims {
        exp: now + SESSION_LIFETIME,
        iat: now,
        sub: subject_chars(Subject::Session),
        id: claims.id,
        public_token: None,
    };
    assert(c@ == session_model(claims.id as nat, now as int));
    proof {
        lemma_subjects();
    }
    Ok(Some(sign_claims(&c, key)))
}

/// Whether `token` is a session token signed with `key` that has not expired
/// at `now`.
pub fn verify(token: &str, key: &[u8], now: i64) -> (r: bool)
    ensures
        r == opened(token@, key@, Subject::Session, now as int) is Ok,
{
    check_token(token, key, Subject::Session, now).is_ok()
}

/// A challenge's claims, opened for the challenge purpose at any time up to its
/// expiry, give back exactly the user id and public token it was issued with.
pub proof fn lemma_challenge_opens(id: nat, token: Seq<char>, iat: int, now: int)
    requires
        id <= u64::MAX,
        is_plain(token),
        i64::MIN <= iat <= i64::MAX - CHALLENGE_LIFETIME,
        now <= iat + CHALLENGE_LIFETIME,
    ensures
        judge(claims_text(challenge_model(id, token, iat)), Subject::Init, now) == Ok::<
            ClaimsModel,
            TokenError,
        >(challenge_model(id, token, iat)),
{
    lemma_subjects();
    lemma_claims_round_trip(challenge_model(id, token, iat));
}

/// Once its window has passed, a challenge is rejected as expired.
pub proof fn lemma_challenge_expires(id: nat, token: Seq<char>, iat: int, now: int)
    requires
        id <= u64::MAX,
        is_plain(token),
        i64::MIN <= iat <= i64::MAX - CHALLENGE_LIFETIME,
        now > iat + CHALLENGE_LIFETIME,
    ensures
        judge(claims_text(challenge_model(id, token, iat)), Subject::Init, now) == Err::<
            ClaimsModel,
            TokenError,
        >(TokenError::Expired),
{
    lemma_subjects();
    lemma_claims_round_trip(challenge_model(id, token, iat));
}

/// A session token's claims are accepted as a session up to its expiry and
/// rejected as expired after it.
pub proof fn lemma_session_lifetime(id: nat, iat: int, now: int)
    requires
        id <= u64::MAX,
        i64::MIN <= iat <= i64::MAX - SESSION_LIFETIME,
    ensures
        now <= iat + SESSION_LIFETIME ==> judge(
            claims_text(session_model(id, iat)),
            Subject::Session,
            now,
        ) == Ok::<ClaimsModel, TokenError>(session_model(id, iat)),
        now > iat + SESSION_LIFETIME ==> judge(
            claims_text(session_model(id, iat)),
            Subject::Session,
            now,
        ) == Err::<ClaimsModel, TokenError>(TokenError::Expired),
{
    lemma_subjects();
    lemma_claims_round_trip(session_model(id, iat));
}

/// A challenge's claims are never accepted as a session.
pub proof fn lemma_challenge_is_no_session(id: nat, token: Seq<char>, iat: int, now: int)
    requires
        id <= u64::MAX,
        is_plain(token),
        i64::MIN <= iat <= i64::MAX - CHALLENGE_LIFETIME,
    ensures
        judge(claims_text(challenge_model(id, token, iat)), Subject::Session, now) is Err,
        now <= iat + CHALLENGE_LIFETIME ==> judge(
            claims_text(challenge_model(id, token, iat)),
            Subject::Session,
            now,
        ) == Err::<ClaimsModel, TokenError>(TokenError::WrongSubject),
{
    lemma_subjects();
    lemma_claims_round_trip(challenge_model(id, token, iat));
}

} // verus!
