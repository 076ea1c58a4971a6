//! Signed tokens: signing claims text, opening a token back to its claims,
//! and judging those claims for expiry and purpose.
use crate::claims::{
    claims_text, claims_wf, is_plain, lemma_claims_round_trip, parse_claims, read_claims, same_chars, Claims,
    ClaimsModel,
};
use vstd::prelude::*;

verus! {

/// Why a token was not accepted.
#[derive(PartialEq, Eq, Structural, Clone, Copy, Debug)]
pub enum TokenError {
    /// The token or its payload is not in the expected shape.
    Malformed,
    /// The signature does not match the key.
    BadSignature,
    /// The expiration time lies in the past.
    Expired,
    /// The subject marker names another purpose.
    WrongSubject,
}

/// The purpose a token is issued for.
#[derive(PartialEq, Eq, Structural, Clone, Copy, Debug)]
pub enum Subject {
    /// An outstanding ownership challenge (`init`).
    Init,
    /// A confirmed session (`auth_token`).
    Session,
}

pub open spec fn subject_text(s: Subject) -> Seq<char> {
    match s {
        Subject::Init => seq!['i', 'n', 'i', 't'],
        Subject::Session => seq!['a', 'u', 't', 'h', '_', 't', 'o', 'k', 'e', 'n'],
    }
}

/// The compact token that signing `claims` with `key` gives.
pub uninterp spec fn signed_token(claims: Seq<char>, key: Seq<u8>) -> Seq<char>;

/// The claims text a token carries, when its signature checks out under `key`.
pub uninterp spec fn token_payload(token: Seq<char>, key: Seq<u8>) -> Option<Seq<char>>;

/// Whether a token is well formed up to its signature (three parts and an
/// HS256 header) and its signature does not match `key`.
pub uninterp spec fn signature_rejected(token: Seq<char>, key: Seq<u8>) -> bool;

/// Relies on `jsonwebtoken::encode` with the default HS256 header and an HMAC
/// key, which signs the JSON text that `serde_json::value::RawValue::from_string`
/// carries as it stands. Both accept any JSON object, and HMAC signing does not
/// fail. The text has no surrounding whitespace, so `jsonwebtoken::decode` with
/// the same key gives it back.
#[verifier::external_body]
fn sign_text(claims: &Vec<char>, key: &[u8]) -> (r: Option<String>)
    requires
        parse_claims(claims@) is Some,
    ensures
        r is Some,
        r->0@ == signed_token(claims@, key@),
        token_payload(r->0@, key@) == Some(claims@),
{
    let text: String = claims.iter().collect();
    let raw = serde_json::value::RawValue::from_string(text).ok()?;
    jsonwebtoken::encode(
        &jsonwebtoken::Header::default(),
        &raw,
        &jsonwebtoken::EncodingKey::from_secret(key),
    ).ok()
}

/// Relies on `jsonwebtoken::decode` with HS256 and no time-based checks: it
/// hands back the claims text when the signature matches `key`, and reports
/// `ErrorKind::InvalidSignature` exactly when the token is well formed up to a
/// signature that does not match.
#[verifier::external_body]
fn open_text(token: &str, key: &[u8]) -> (r: Result<Vec<char>, TokenError>)
    ensures
        match r {
            Ok(p) => token_payload(token@, key@) == Some(p@) && !signature_rejected(token@, key@),
            Err(e) => token_payload(token@, key@) is None && (e == TokenError::BadSignature
                <==> signature_rejected(token@, key@)) && (e == TokenError::Malformed || e
                == TokenError::BadSignature),
        },
{
    let validation = jsonwebtoken::Validation { validate_exp: false, ..Default::default() };
    let key = jsonwebtoken::DecodingKey::from_secret(key);
    match jsonwebtoken::decode::<Box<serde_json::value::RawValue>>(token, &key, &validation) {
        Ok(data) => Ok(data.claims.get().chars().collect()),
        Err(e) => match e.kind() {
            jsonwebtoken::errors::ErrorKind::InvalidSignature => Err(TokenError::BadSignature),
            _ => Err(TokenError::Malformed),
        },
    }
}

pub open spec fn claims_result(r: Result<Claims, TokenError>) -> Result<ClaimsModel, TokenError> {
    match r {
        Ok(c) => Ok(c@),
        Err(e) => Err(e),
    }
}

/// What a signed payload means for a token of purpose `subject` at time `now`.
pub open spec fn judge(payload: Seq<char>, subject: Subject, now: int) -> Result<ClaimsModel, TokenError> {
    match parse_claims(payload) {
        None => Err(TokenError::Malformed),
        Some(m) => if m.exp < now {
            Err(TokenError::Expired)
        } else if m.sub != subject_text(subject) {
            Err(TokenError::WrongSubject)
        } else if subject == Subject::Init && m.public_token is None {
            Err(TokenError::Malformed)
        } else {
            Ok(m)
        },
    }
}

/// What opening `token` with `key` for `subject` at time `now` gives.
pub open spec fn opened(token: Seq<char>, key: Seq<u8>, subject: Subject, now: int) -> Result<
    ClaimsModel,
    TokenError,
> {
    match token_payload(token, key) {
        Some(p) => judge(p, subject, now),
        None => if signature_rejected(token, key) {
            Err(TokenError::BadSignature)
        } else {
            Err(TokenError::Malformed)
        },
    }
}

pub fn subject_chars(s: Subject) -> (r: Vec<char>)
    ensures
        r@ == subject_text(s),
{
    let r = match s {
        Subject::Init => vec!['i', 'n', 'i', 't'],
        Subject::Session => vec!['a', 'u', 't', 'h', '_', 't', 'o', 'k', 'e', 'n'],
    };
    assert(r@ =~= subject_text(s));
    r
}

/// Judges a verified payload: its claims when they are well formed, meant for
/// `subject` and not yet expired at `now`.
pub fn judge_payload(payload: &Vec<char>, subject: Subject, now: i64) -> (r: Result<Claims, TokenError>)
    ensures
        claims_result(r) == judge(payload@, subject, now as int),
{
    let c = match read_claims(payload) {
        Some(c) => c,
        None => return Err(TokenError::Malformed),
    };
    if c.exp < now {
        return Err(TokenError::Expired);
    }
    let want = subject_chars(subject);
    if !same_chars(&c.sub, &want) {
        return Err(TokenError::WrongSubject);
    }
    if subject == Subject::Init && c.public_token.is_none() {
        return Err(TokenError::Malformed);
    }
    Ok(c)
}

/// Opens a token: checks its signature under `key`, then judges its claims.
pub fn check_token(token: &str, key: &[u8], subject: Subject, now: i64) -> (r: Result<Claims, TokenError>)
    ensures
        claims_result(r) == opened(token@, key@, subject, now as int),
{
    match open_text(token, key) {
        Ok(p) => judge_payload(&p, subject, now),
        Err(e) => Err(e),
    }
}

/// Signs the text of well-formed claims with `key`.
pub fn sign_claims(c: &Claims, key: &[u8]) -> (r: String)
    requires
        claims_wf(c@),
    ensures
        r@ == signed_token(claims_text(c@), key@),
        token_payload(r@, key@) == Some(claims_text(c@)),
{
    let text = crate::claims::write_claims(c);
    proof {
        lemma_claims_round_trip(c@);
    }
    match sign_text(&text, key) {
        Some(t) => t,
        None => {
            proof {
                assert(false);
            }
            String::new()
        },
    }
}

/// Both subject markers are plain text, and they differ.
pub proof fn lemma_subjects()
    ensures
        is_plain(subject_text(Subject::Init)),
        is_plain(subject_text(Subject::Session)),
        subject_text(Subject::Init) != subject_text(Subject::Session),
{
    assert(subject_text(Subject::Init).len() != subject_text(Subject::Session).len());
}

} // verus!
