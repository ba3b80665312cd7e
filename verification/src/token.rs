//! Tokens: the claims that are signed, and the key that signs them.

use crate::clock::{has_hour_around, hour_fits, unix_now, utc_timestamp, HOUR};
use crate::crypto::{
    claim_texts, pkcs1_pem_reencoded, reencode_pem, rs256_token, sign_rs256, utf8_text,
};
use crate::db::{chosen, fetch_key, KeyRecord, KeyStore, SigningKey};
use crate::decimal::{decimal, decimal_text};
use vstd::prelude::*;
use vstd::string::StringExecFns;
use vstd::utf8::*;

verus! {

/// Why no token was issued.
#[derive(Debug, Clone, Copy, PartialEq, Eq, Structural)]
pub enum TokenError {
    /// No stored key is on the side of the clock that was asked for.
    NoKey,
    /// The stored material is not the text of an RSA private key.
    MalformedKey,
    /// The key was read but the token could not be signed with it.
    Signing,
    /// The clock is so near the end of the machine's integers that an hour
    /// cannot be added to it or taken from it.
    Clock,
}

/// The `exp` claim: an hour before `now` for a token that is asked to be
/// expired, an hour after it otherwise.
pub open spec fn expiry_claim(expired: bool, now: int) -> int {
    if expired {
        now - HOUR
    } else {
        now + HOUR
    }
}

/// An expired token's `exp` claim lies strictly before the moment it is
/// issued at, any other token's strictly after it.
pub proof fn lemma_expiry_claim_side(expired: bool, now: int)
    ensures
        expired ==> expiry_claim(expired, now) < now,
        !expired ==> expiry_claim(expired, now) > now,
{
}

/// The claims of a token, in the order in which they are set: a fixed
/// subject, name and issued-at value, and the expiry.
pub open spec fn claim_pairs(expired: bool, now: int) -> Seq<(Seq<char>, Seq<char>)> {
    seq![
        ("sub"@, "1234567890"@),
        ("name"@, "John Doe"@),
        ("iat"@, "1516239022"@),
        ("exp"@, decimal_text(expiry_claim(expired, now))),
    ]
}

/// The token that the key `k` signs: its identifier in decimal names it in the
/// header, and its material is read as text and as a private key before it
/// signs the claims.
pub open spec fn token_for(k: KeyRecord, expired: bool, now: int) -> Result<Seq<char>, TokenError> {
    if !valid_utf8(k.material) {
        Err(TokenError::MalformedKey)
    } else {
        match pkcs1_pem_reencoded(decode_utf8(k.material)) {
            None => Err(TokenError::MalformedKey),
            Some(pem) => match rs256_token(decimal_text(k.id), claim_pairs(expired, now), pem) {
                None => Err(TokenError::Signing),
                Some(token) => Ok(token),
            },
        }
    }
}

/// The outcome of a request for a token: the key is looked up at `selected_at`
/// and the claims are dated from `issued_at`.
pub open spec fn token_outcome(s: Seq<KeyRecord>, expired: bool, selected_at: int, issued_at: int) -> Result<
    Seq<char>,
    TokenError,
> {
    match chosen(s, expired, selected_at) {
        None => Err(TokenError::NoKey),
        Some(k) => token_for(k, expired, issued_at),
    }
}

/// A token or an error, with the token as plain text.
pub open spec fn token_text(r: Result<String, TokenError>) -> Result<Seq<char>, TokenError> {
    match r {
        Ok(token) => Ok(token@),
        Err(e) => Err(e),
    }
}

/// The `exp` claim as a number. An expired token's lies strictly before
/// `now`, any other strictly after it.
pub fn token_expiry(expired: bool, now: i64) -> (r: i64)
    requires
        hour_fits(now as int),
    ensures
        r == expiry_claim(expired, now as int),
        expired ==> r < now,
        !expired ==> r > now,
{
    if expired {
        now - HOUR
    } else {
        now + HOUR
    }
}

/// The claims of a token that is issued at `now`.
pub fn token_claims(expired: bool, now: i64) -> (r: Vec<(String, String)>)
    requires
        hour_fits(now as int),
    ensures
        claim_texts(r@) == claim_pairs(expired, now as int),
{
    let mut claims: Vec<(String, String)> = Vec::new();
    claims.push((String::from_str("sub"), String::from_str("1234567890")));
    claims.push((String::from_str("name"), String::from_str("John Doe")));
    claims.push((String::from_str("iat"), String::from_str("1516239022")));
    claims.push((String::from_str("exp"), decimal(token_expiry(expired, now))));
    assert(claim_texts(claims@) =~= claim_pairs(expired, now as int));
    claims
}

/// What is returned for each outcome of the signing call.
pub fn signed_token(signed: Result<String, jsonwebtoken::errors::Error>) -> (r: Result<String, TokenError>)
    ensures
        signed matches Ok(token) ==> r is Ok && r->Ok_0@ == token@,
        signed is Err ==> r == Err::<String, TokenError>(TokenError::Signing),
{
    match signed {
        Ok(token) => Ok(token),
        Err(_) => Err(TokenError::Signing),
    }
}

/// Signs a token with `key`, dated from `now`.
pub fn sign_with(key: &SigningKey, expired: bool, now: i64) -> (r: Result<String, TokenError>)
    requires
        hour_fits(now as int),
    ensures
        token_text(r) == token_for(key@, expired, now as int),
{
    let text = match utf8_text(key.material.as_slice()) {
        Some(text) => text,
        None => {
            return Err(TokenError::MalformedKey);
        },
    };
    let pem = match reencode_pem(text) {
        Ok(pem) => pem,
        Err(_) => {
            return Err(TokenError::MalformedKey);
        },
    };
    let kid = decimal(key.id);
    let claims = token_claims(expired, now);
    signed_token(sign_rs256(kid.as_str(), &claims, pem.as_str()))
}

/// Issues a token: looks up the key at `selected_at` on the side that
/// `expired` asks for, and signs claims dated from `issued_at` with it.
pub fn issue_token(store: &KeyStore, expired: bool, selected_at: i64, issued_at: i64) -> (r: Result<
    String,
    TokenError,
>)
    requires
        hour_fits(issued_at as int),
    ensures
        token_text(r) == token_outcome(store@, expired, selected_at as int, issued_at as int),
{
    match fetch_key(store, expired, selected_at) {
        None => Err(TokenError::NoKey),
        Some(key) => sign_with(&key, expired, issued_at),
    }
}

/// Issues a token for the present moment: the clock is read once for the
/// lookup and once for the claims. Whatever the clock says, the result is the
/// outcome for some pair of moments.
pub fn issue_token_now(store: &KeyStore, expired: bool) -> (r: Result<String, TokenError>)
    ensures
        r matches Err(e) && e == TokenError::Clock || exists|selected_at: int, issued_at: int|
            hour_fits(issued_at) && token_text(r) == #[trigger] token_outcome(
                store@,
                expired,
                selected_at,
                issued_at,
            ),
{
    let selected_at = unix_now();
    let issued_at = utc_timestamp();
    if !has_hour_around(issued_at) {
        return Err(TokenError::Clock);
    }
    let r = issue_token(store, expired, selected_at, issued_at);
    assert(token_text(r) == token_outcome(store@, expired, selected_at as int, issued_at as int));
    r
}

} // verus!
