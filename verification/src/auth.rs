//! Bearer tokens: claims, minting and verification.
//!
//! A token binds a principal id and display name to an issue time and an
//! expiry a day later, signed with the server secret.  Signing is
//! deterministic, so the minted token is pinned as a function of the
//! claims; verification depends on the clock and is therefore stated only
//! through what the verified extraction code does with whatever comes back.

use vstd::prelude::*;

use crate::json::{json_get_str, json_get_u64, json_str_field, json_u64_field};

verus! {

/// Seconds a token stays valid after issue: one day.
pub const TOKEN_LIFETIME_SECS: u64 = 86400;

/// What a bearer token asserts: subject id, display name, expiry and
/// issue time in seconds since the epoch.
#[derive(Debug)]
pub struct Claims {
    pub sub: u128,
    pub username: String,
    pub exp: u64,
    pub iat: u64,
}

/// Why a token operation was refused.
#[derive(Clone, Copy, Debug, PartialEq, Eq, Structural)]
pub enum AuthError {
    /// A token that does not verify: bad signature, expired, or claims of
    /// the wrong shape.
    InvalidToken,
    /// Signing failed.  The signing wrapper's contract shows this arm is
    /// never taken for an HMAC key with the default header.
    TokenCreation,
}

/// The `sub` claim of a token's payload, when present as a string.  The
/// payload is a function of the token bytes alone; validation decides
/// only whether it is released.
pub uninterp spec fn jwt_sub_of(token: Seq<char>) -> Option<Seq<char>>;

/// The `username` claim of a token's payload, when present as a string.
pub uninterp spec fn jwt_username_of(token: Seq<char>) -> Option<Seq<char>>;

/// The `exp` claim of a token's payload, when present as a `u64`.
pub uninterp spec fn jwt_exp_of(token: Seq<char>) -> Option<u64>;

/// The `iat` claim of a token's payload, when present as a `u64`.
pub uninterp spec fn jwt_iat_of(token: Seq<char>) -> Option<u64>;

/// The signed token minted for these claims: one fixed header, the claims
/// object, and their signature under `secret`.  Signing is deterministic,
/// so the result is a function of the arguments alone.
pub uninterp spec fn jwt_token_of(
    sub: u128,
    username: Seq<char>,
    exp: u64,
    iat: u64,
    secret: Seq<char>,
) -> Seq<char>;

/// The value of a sequence of decimal digit characters.
pub open spec fn dec_val(s: Seq<char>) -> nat
    decreases s.len(),
{
    if s.len() == 0 {
        0
    } else {
        (dec_val(s.drop_last()) * 10 + ((s.last() as u32) - 48)) as nat
    }
}

/// Nothing but decimal digits, and at least one.
pub open spec fn is_dec(s: Seq<char>) -> bool {
    s.len() > 0 && forall|i: int| 0 <= i < s.len() ==> 48 <= (#[trigger] s[i] as u32) <= 57
}

/// `s` with one leading plus sign removed, if present.
pub open spec fn plus_stripped(s: Seq<char>) -> Seq<char> {
    if s.len() > 0 && s[0] == '+' {
        s.subrange(1, s.len() as int)
    } else {
        s
    }
}

/// The parse of an optional leading plus sign followed by decimal digits,
/// when their value fits.
pub open spec fn u128_dec_parse(s: Seq<char>) -> Option<u128> {
    if is_dec(plus_stripped(s)) && dec_val(plus_stripped(s)) <= u128::MAX {
        Some(dec_val(plus_stripped(s)) as u128)
    } else {
        None
    }
}

/// Relies on `str::parse::<u128>`: accepts an optional leading plus sign
/// followed by decimal digits whose value fits, and returns that value.
#[verifier::external_body]
fn parse_u128_digits(s: &str) -> (r: Option<u128>)
    ensures
        r == u128_dec_parse(s@),
{
    s.parse::<u128>().ok()
}

/// Relies on `jsonwebtoken::encode` with the default header and an HMAC
/// key from `secret`: the deterministic signed token for these claims.
/// Signing succeeds: for an HMAC key the algorithm families match, and a
/// string-keyed claims object always serializes.
#[verifier::external_body]
fn jwt_encode_hs256(sub: u128, username: &str, exp: u64, iat: u64, secret: &str) -> (r: Result<
    String,
    AuthError,
>)
    ensures
        r is Ok,
        r matches Ok(t) ==> t@ == jwt_token_of(sub, username@, exp, iat, secret@),
{
    let mut m = serde_json::Map::new();
    m.insert("sub".to_string(), serde_json::Value::String(sub.to_string()));
    m.insert("username".to_string(), serde_json::Value::String(username.to_string()));
    m.insert("exp".to_string(), serde_json::Value::from(exp));
    m.insert("iat".to_string(), serde_json::Value::from(iat));
    let key = jsonwebtoken::EncodingKey::from_secret(secret.as_bytes());
    let claims = serde_json::Value::Object(m);
    match jsonwebtoken::encode(&jsonwebtoken::Header::default(), &claims, &key) {
        Ok(t) => Ok(t),
        Err(_) => Err(AuthError::TokenCreation),
    }
}

/// Relies on `jsonwebtoken::decode` with default validation: the claims
/// object of a token whose signature checks out under `secret` and whose
/// expiry has not passed by the system clock.  Whether anything comes
/// back depends on that clock; what comes back is the token's own
/// payload, so its fields are pinned as functions of the token.
#[verifier::external_body]
fn jwt_decode_hs256(token: &str, secret: &str) -> (r: Option<serde_json::Value>)
    ensures
        r matches Some(claims) ==> json_str_field(claims, "sub"@) == jwt_sub_of(token@)
            && json_str_field(claims, "username"@) == jwt_username_of(token@)
            && json_u64_field(claims, "exp"@) == jwt_exp_of(token@)
            && json_u64_field(claims, "iat"@) == jwt_iat_of(token@),
{
    let key = jsonwebtoken::DecodingKey::from_secret(secret.as_bytes());
    let validation = jsonwebtoken::Validation::default();
    match jsonwebtoken::decode::<serde_json::Value>(token, &key, &validation) {
        Ok(data) => Some(data.claims),
        Err(_) => None,
    }
}

/// Relies on `chrono::Utc::now`: the clock's seconds since the epoch; no
/// fixed value can be promised of a clock.
#[verifier::external_body]
fn now_unix() -> (r: i64) {
    chrono::Utc::now().timestamp()
}

/// The claims minted at time `now` for a principal: issued now, expiring
/// one day later.
pub fn make_claims(user_id: u128, username: String, now: u64) -> (c: Claims)
    requires
        now + TOKEN_LIFETIME_SECS <= u64::MAX,
    ensures
        c.sub == user_id,
        c.username@ == username@,
        c.iat == now,
        c.exp == now + TOKEN_LIFETIME_SECS,
        c.exp - c.iat == TOKEN_LIFETIME_SECS,
{
    Claims { sub: user_id, username, exp: now + TOKEN_LIFETIME_SECS, iat: now }
}

/// Mint a signed token for a principal: claims issued at the current
/// clock reading with a one-day expiry, signed with `secret`.  Minting
/// succeeds, and the token is pinned as the signature of those claims.
pub fn create_token(user_id: u128, username: &str, secret: &str) -> (r: Result<String, AuthError>)
    ensures
        r is Ok,
        r matches Ok(t) ==> exists|iat: u64|
            iat + TOKEN_LIFETIME_SECS <= u64::MAX && t@ == #[trigger] jwt_token_of(
                user_id,
                username@,
                (iat + TOKEN_LIFETIME_SECS) as u64,
                iat,
                secret@,
            ),
{
    let now_signed = now_unix();
    let now: u64 = if now_signed < 0 {
        0
    } else {
        now_signed as u64
    };
    assert(now + TOKEN_LIFETIME_SECS <= u64::MAX) by {
        assert(now <= i64::MAX as u64);
    };
    let claims = make_claims(user_id, username.to_owned(), now);
    proof {
        assert(jwt_token_of(
            user_id,
            username@,
            (claims.iat + TOKEN_LIFETIME_SECS) as u64,
            claims.iat,
            secret@,
        ) == jwt_token_of(user_id, username@, claims.exp, claims.iat, secret@));
    }
    jwt_encode_hs256(claims.sub, username, claims.exp, claims.iat, secret)
}

/// Check a token against `secret` and extract its claims: the subject id
/// as decimal digits, the display name, and the two timestamps.  Any
/// missing or ill-shaped claim, a bad signature or a passed expiry is one
/// error, carrying nothing of the token.  Whether verification succeeds
/// rests on the clock; what a success returns is pinned: exactly the
/// token's own claim fields.
pub fn verify_token(token: &str, secret: &str) -> (r: Result<Claims, AuthError>)
    ensures
        r matches Err(e) ==> e == AuthError::InvalidToken,
        r matches Ok(c) ==> {
            &&& jwt_sub_of(token@) matches Some(digits) && u128_dec_parse(digits) == Some(c.sub)
            &&& jwt_username_of(token@) == Some(c.username@)
            &&& jwt_exp_of(token@) == Some(c.exp)
            &&& jwt_iat_of(token@) == Some(c.iat)
        },
{
    let claims = match jwt_decode_hs256(token, secret) {
        Some(v) => v,
        None => return Err(AuthError::InvalidToken),
    };
    let sub_text = match json_get_str(&claims, "sub") {
        Some(s) => s,
        None => return Err(AuthError::InvalidToken),
    };
    let sub = match parse_u128_digits(sub_text.as_str()) {
        Some(v) => v,
        None => return Err(AuthError::InvalidToken),
    };
    let username = match json_get_str(&claims, "username") {
        Some(s) => s,
        None => return Err(AuthError::InvalidToken),
    };
    let exp = match json_get_u64(&claims, "exp") {
        Some(n) => n,
        None => return Err(AuthError::InvalidToken),
    };
    let iat = match json_get_u64(&claims, "iat") {
        Some(n) => n,
        None => return Err(AuthError::InvalidToken),
    };
    Ok(Claims { sub, username, exp, iat })
}

} // verus!
