//! Bearer tokens: a JSON Web Token (HS256) naming the user, valid for 24 hours,
//! and the check that lets a request through only with such a token.
use vstd::prelude::*;
use jsonwebtoken::{decode, encode, DecodingKey, EncodingKey, Header, Validation};
use serde_json::Value;
use std::time::{SystemTime, UNIX_EPOCH};
use uuid::Uuid;
use crate::error::AppError;

verus! {

/// How long a token stays valid, in seconds.
pub const TOKEN_LIFETIME_SECS: u64 = 86400u64;

/// The text of the HS256 JSON Web Token that `jsonwebtoken::encode` writes, with the
/// default header, for the claims `sub` (the user's id in hyphenated form) and
/// `exp` (the expiry in seconds since 1970), signed with the secret.
pub uninterp spec fn jwt_text(user_id: u128, exp: u64, secret: Seq<char>) -> Seq<char>;

/// How many dots the text holds.
pub open spec fn dot_count(s: Seq<char>) -> nat
    decreases s.len(),
{
    if s.len() == 0 {
        0
    } else {
        dot_count(s.drop_last()) + if s.last() == '.' {
            1nat
        } else {
            0nat
        }
    }
}

/// Whether the token passes the signature step of `jsonwebtoken::decode` under the
/// secret with the default validation: it has three dot-separated parts, its
/// header names HS256, and its signature is the HMAC-SHA256 of its first two parts
/// under the secret's bytes. This depends on the token and the secret alone.
pub uninterp spec fn jwt_signature_valid(token: Seq<char>, secret: Seq<char>) -> bool;

/// Seconds since 1970 by the system clock (`SystemTime::now`), or 0 where the clock
/// reads earlier. The clock's reading is not stated.
#[verifier::external_body]
pub(crate) fn unix_now() -> u64 {
    match SystemTime::now().duration_since(UNIX_EPOCH) {
        Ok(elapsed) => elapsed.as_secs(),
        Err(_) => 0,
    }
}

/// Signs the claims `sub` and `exp` with `jsonwebtoken::encode` (default header,
/// HS256, the secret's bytes as key). HMAC signing of a JSON map does not fail.
/// The text joins header, claims and signature, each in dot-free URL-safe base64,
/// with two dots, so it is not empty, and its signature is the one that `decode`
/// recomputes under the same secret.
#[verifier::external_body]
fn jwt_encode(user_id: u128, exp: u64, secret: &String) -> (r: String)
    ensures
        r@ == jwt_text(user_id, exp, secret@),
        r@.len() > 0,
        dot_count(r@) == 2,
        jwt_signature_valid(r@, secret@),
{
    let mut claims = serde_json::Map::new();
    claims.insert("sub".to_string(), Value::from(Uuid::from_u128(user_id).to_string()));
    claims.insert("exp".to_string(), Value::from(exp));
    encode(&Header::default(), &claims, &EncodingKey::from_secret(secret.as_bytes())).expect(
        "signing a token should not fail",
    )
}

/// Whether `jsonwebtoken::decode` with the default validation (HS256, `exp` required
/// and not more than 60 seconds past by the system clock) accepts the token under
/// the secret. `decode` checks the signature before any claim, so a token it
/// accepts has a valid signature; it splits the token at its last two dots and
/// decodes header and claims as URL-safe base64, which holds no dot, so a token it
/// accepts has exactly two dots. Whether the expiry has passed depends on the
/// clock, so acceptance itself is not stated.
#[verifier::external_body]
fn jwt_accepts(token: &String, secret: &String) -> (r: bool)
    ensures
        r ==> jwt_signature_valid(token@, secret@),
        r ==> dot_count(token@) == 2,
{
    decode::<serde_json::Map<String, Value>>(
        token,
        &DecodingKey::from_secret(secret.as_bytes()),
        &Validation::default(),
    ).is_ok()
}

/// The expiry of a token issued at `now` (seconds since 1970): 24 hours later, or
/// the last representable second where that overflows.
pub open spec fn expiry_after(now: u64) -> u64 {
    if now as int + TOKEN_LIFETIME_SECS as int > u64::MAX as int {
        u64::MAX
    } else {
        (now + TOKEN_LIFETIME_SECS) as u64
    }
}

/// The token for the user issued at `now` (seconds since 1970): signed with the
/// secret, expiring 24 hours later.
pub fn token_at(user_id: u128, now: u64, secret: &String) -> (r: String)
    ensures
        r@ == jwt_text(user_id, expiry_after(now), secret@),
        r@.len() > 0,
        dot_count(r@) == 2,
        jwt_signature_valid(r@, secret@),
{
    let exp = if now > u64::MAX - TOKEN_LIFETIME_SECS {
        u64::MAX
    } else {
        now + TOKEN_LIFETIME_SECS
    };
    jwt_encode(user_id, exp, secret)
}

/// A token for the user, signed with the secret, expiring 24 hours after the
/// moment it is issued: `token_at` at the system clock's reading, which is not
/// stated.
pub fn issue_token(user_id: u128, secret: &String) -> (r: String)
    ensures
        exists|now: u64| r@ == jwt_text(user_id, #[trigger] expiry_after(now), secret@),
        r@.len() > 0,
        dot_count(r@) == 2,
        jwt_signature_valid(r@, secret@),
{
    let now = unix_now();
    let r = token_at(user_id, now, secret);
    assert(r@ == jwt_text(user_id, expiry_after(now), secret@));
    r
}

/// The scheme word that opens an `Authorization` header with a bearer token.
pub open spec fn bearer_prefix() -> Seq<char> {
    seq!['B', 'e', 'a', 'r', 'e', 'r', ' ']
}

/// The token that an `Authorization` header carries, where it reads `Bearer `
/// followed by the token.
pub open spec fn bearer_of(header: Seq<char>) -> Option<Seq<char>> {
    if header.len() >= 7 && header.subrange(0, 7) == bearer_prefix() {
        Some(header.subrange(7, header.len() as int))
    } else {
        None
    }
}

/// The token that the header carries after `Bearer `, if it reads so.
pub fn bearer_token(header: &String) -> (r: Option<String>)
    ensures
        r is Some <==> bearer_of(header@) is Some,
        r matches Some(t) ==> Some(t@) == bearer_of(header@),
{
    let s = header.as_str();
    let n = s.unicode_len();
    if n < 7 {
        return None;
    }
    let prefixed = s.get_char(0) == 'B' && s.get_char(1) == 'e' && s.get_char(2) == 'a'
        && s.get_char(3) == 'r' && s.get_char(4) == 'e' && s.get_char(5) == 'r' && s.get_char(6)
        == ' ';
    if !prefixed {
        proof {
            if header@.subrange(0, 7) == bearer_prefix() {
                assert(header@.subrange(0, 7)[0] == header@[0]);
                assert(header@.subrange(0, 7)[1] == header@[1]);
                assert(header@.subrange(0, 7)[2] == header@[2]);
                assert(header@.subrange(0, 7)[3] == header@[3]);
                assert(header@.subrange(0, 7)[4] == header@[4]);
                assert(header@.subrange(0, 7)[5] == header@[5]);
                assert(header@.subrange(0, 7)[6] == header@[6]);
            }
        }
        return None;
    }
    proof {
        assert(header@.subrange(0, 7) =~= bearer_prefix());
    }
    let token = s.substring_char(7, n);
    Some(String::from_str(token))
}

/// The text of a refusal for want of a valid token.
pub open spec fn refused_token_text() -> &'static str {
    "missing or invalid token"
}

/// The answer to a request on a protected route: it is let through where the
/// header carries a bearer token and the token was accepted, and refused as
/// unauthorized otherwise.
pub fn access_decision(header: &Option<String>, token_accepted: bool) -> (r: Result<(), AppError>)
    ensures
        r is Ok <==> (header matches Some(h) && bearer_of(h@) is Some && token_accepted),
        r is Err ==> r == Err::<(), AppError>(AppError::Unauthorized(refused_token_text())),
{
    let carries_token = match header {
        Some(h) => bearer_token(h).is_some(),
        None => false,
    };
    if carries_token && token_accepted {
        Ok(())
    } else {
        Err(AppError::Unauthorized("missing or invalid token"))
    }
}

/// Lets a request through where its `Authorization` header carries a bearer token
/// that `jsonwebtoken` accepts under the secret (signature valid, not expired);
/// refuses it as unauthorized otherwise. A request without such a header, or whose
/// token is not three dot-separated parts signed with the secret, is always refused;
/// whether a well-signed token has expired rests on the clock.
pub fn authorize(header: &Option<String>, secret: &String) -> (r: Result<(), AppError>)
    ensures
        r is Err ==> r == Err::<(), AppError>(AppError::Unauthorized(refused_token_text())),
        r is Ok ==> (header matches Some(h) && bearer_of(h@) matches Some(t)
            && jwt_signature_valid(t, secret@) && dot_count(t) == 2),
{
    let accepted = match header {
        Some(h) => match bearer_token(h) {
            Some(t) => jwt_accepts(&t, secret),
            None => false,
        },
        None => false,
    };
    access_decision(header, accepted)
}

} // verus!
