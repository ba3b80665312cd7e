//! The published key set: the public half of every valid key.

use crate::clock::unix_now;
use crate::crypto::{base64url, base64url_text, pkcs1_pem_public_parts, public_parts, utf8_text};
use crate::db::{
    fetch_all_valid_keys, lemma_same_id_same_record, lemma_valid_records, records, valid_records,
    KeyRecord, KeyStore, SigningKey,
};
use crate::decimal::{decimal, decimal_text, lemma_decimal_injective};
use vstd::prelude::*;
use vstd::string::StringExecFns;
use vstd::utf8::*;

verus! {

/// One published key.
pub struct Jwk {
    pub kty: String,
    pub kid: String,
    pub key_use: String,
    pub n: String,
    pub e: String,
    pub alg: String,
}

/// A published key as plain text.
pub struct JwkText {
    pub kty: Seq<char>,
    pub kid: Seq<char>,
    pub key_use: Seq<char>,
    pub n: Seq<char>,
    pub e: Seq<char>,
    pub alg: Seq<char>,
}

impl View for Jwk {
    type V = JwkText;

    open spec fn view(&self) -> JwkText {
        JwkText {
            kty: self.kty@,
            kid: self.kid@,
            key_use: self.key_use@,
            n: self.n@,
            e: self.e@,
            alg: self.alg@,
        }
    }
}

/// Why no key set was published.
#[derive(Debug, Clone, Copy, PartialEq, Eq, Structural)]
pub enum JwksError {
    /// The material of a valid key is not the text of an RSA private key.
    MalformedKey,
}

/// The published form of the key with identifier `id`, given its encoded
/// modulus and exponent: an RSA signature key for RS256, named by the
/// identifier in decimal.
pub open spec fn jwk_with(id: int, n: Seq<char>, e: Seq<char>) -> JwkText {
    JwkText { kty: "RSA"@, kid: decimal_text(id), key_use: "sig"@, n: n, e: e, alg: "RS256"@ }
}

/// The published form of a stored key, where its material can be read.
pub open spec fn jwk_of(k: KeyRecord) -> Option<JwkText> {
    if !valid_utf8(k.material) {
        None
    } else {
        match pkcs1_pem_public_parts(decode_utf8(k.material)) {
            None => None,
            Some(parts) => Some(jwk_with(k.id, base64url_text(parts.0), base64url_text(parts.1))),
        }
    }
}

/// The key set at `now`: the valid records' published forms, in registry
/// order, provided that all of them can be read.
pub open spec fn jwks_outcome(s: Seq<KeyRecord>, now: int) -> Result<Seq<JwkText>, JwksError> {
    let valid = valid_records(s, now);
    if forall|i: int| 0 <= i < valid.len() ==> jwk_of(#[trigger] valid[i]) is Some {
        Ok(Seq::new(valid.len(), |i: int| jwk_of(valid[i])->0))
    } else {
        Err(JwksError::MalformedKey)
    }
}

/// The texts of a list of published keys.
pub open spec fn jwk_texts(keys: Seq<Jwk>) -> Seq<JwkText> {
    keys.map_values(|k: Jwk| k@)
}

/// A key set or an error, with the keys as plain text.
pub open spec fn jwks_text(r: Result<Vec<Jwk>, JwksError>) -> Result<Seq<JwkText>, JwksError> {
    match r {
        Ok(keys) => Ok(jwk_texts(keys@)),
        Err(e) => Err(e),
    }
}

/// Assembles a published key from an identifier and the encoded modulus and exponent.
pub fn make_jwk(id: i64, n: String, e: String) -> (r: Jwk)
    ensures
        r@ == jwk_with(id as int, n@, e@),
{
    Jwk {
        kty: String::from_str("RSA"),
        kid: decimal(id),
        key_use: String::from_str("sig"),
        n,
        e,
        alg: String::from_str("RS256"),
    }
}

/// The published form of `key`: its public modulus and exponent, each as
/// big-endian bytes in unpadded URL-safe base64.
pub fn jwk_for(key: &SigningKey) -> (r: Result<Jwk, JwksError>)
    ensures
        r matches Ok(jwk) ==> jwk_of(key@) == Some(jwk@),
        r is Err ==> r == Err::<Jwk, JwksError>(JwksError::MalformedKey) && jwk_of(key@) is None,
{
    let text = match utf8_text(key.material.as_slice()) {
        Some(text) => text,
        None => {
            return Err(JwksError::MalformedKey);
        },
    };
    match public_parts(text) {
        Err(_) => Err(JwksError::MalformedKey),
        Ok(parts) => {
            let n = base64url(parts.0.as_slice());
            let e = base64url(parts.1.as_slice());
            Ok(make_jwk(key.id, n, e))
        },
    }
}

/// The key set at `now`. Only valid keys are published: each entry is the
/// published form of the valid record at the same position, so none is named
/// after an expired key, and the identifiers ascend.
pub fn jwks(store: &KeyStore, now: i64) -> (r: Result<Vec<Jwk>, JwksError>)
    ensures
        jwks_text(r) == jwks_outcome(store@, now as int),
        r matches Ok(keys) ==> keys@.len() == valid_records(store@, now as int).len() && forall|i: int|
            0 <= i < keys@.len() ==> {
                let k = #[trigger] valid_records(store@, now as int)[i];
                &&& store@.contains(k)
                &&& k.expires_at > now
                &&& keys@[i].kid@ == decimal_text(k.id)
                &&& jwk_of(k) == Some(keys@[i]@)
            },
        r matches Ok(keys) ==> forall|i: int, j: int|
            0 <= i < keys@.len() && 0 <= j < store@.len() && store@[j].expires_at <= now
                ==> #[trigger] keys@[i].kid@ != decimal_text(#[trigger] store@[j].id),
{
    let valid = fetch_all_valid_keys(store, now);
    let ghost v = valid_records(store@, now as int);
    let mut out: Vec<Jwk> = Vec::new();
    let mut i: usize = 0;
    while i < valid.len()
        invariant
            i <= valid.len(),
            v == records(valid@),
            v == valid_records(store@, now as int),
            out@.len() == i,
            forall|j: int| 0 <= j < i ==> jwk_of(#[trigger] v[j]) == Some(out@[j]@),
        decreases valid.len() - i,
    {
        assert(v[i as int] == valid@[i as int]@);
        match jwk_for(&valid[i]) {
            Ok(jwk) => {
                out.push(jwk);
            },
            Err(e) => {
                assert(jwk_of(v[i as int]) is None);
                assert(!(forall|j: int| 0 <= j < v.len() ==> jwk_of(#[trigger] v[j]) is Some));
                return Err(e);
            },
        }
        i = i + 1;
    }
    proof {
        lemma_valid_records(store@, now as int);
        assert(jwk_texts(out@) =~= Seq::new(v.len(), |i: int| jwk_of(v[i])->0));
        assert forall|i: int, j: int|
            0 <= i < out@.len() && 0 <= j < store@.len() && store@[j].expires_at
                <= now implies #[trigger] out@[i].kid@ != decimal_text(#[trigger] store@[j].id) by {
            if out@[i].kid@ == decimal_text(store@[j].id) {
                assert(jwk_of(v[i]) == Some(out@[i]@));
                lemma_decimal_injective(v[i].id, store@[j].id);
                assert(store@.contains(v[i]));
                lemma_same_id_same_record(store@, v[i], store@[j]);
            }
        }
    }
    Ok(out)
}

/// The key set at the present moment. Whatever the clock says, the result is
/// the key set of some moment.
pub fn jwks_now(store: &KeyStore) -> (r: Result<Vec<Jwk>, JwksError>)
    ensures
        exists|now: int| jwks_text(r) == #[trigger] jwks_outcome(store@, now),
{
    let now = unix_now();
    let r = jwks(store, now);
    assert(jwks_text(r) == jwks_outcome(store@, now as int));
    r
}

} // verus!
