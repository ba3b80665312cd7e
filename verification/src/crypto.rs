//! The calls into the RSA, token and encoding crates, each behind a contract
//! that is taken on trust.

use rsa::pkcs1::DecodeRsaPrivateKey;
use rsa::pkcs1::EncodeRsaPrivateKey;
use rsa::traits::PublicKeyParts;
use vstd::prelude::*;
use vstd::utf8::*;

verus! {

/// The failure of an RSA operation.
#[verifier::external_type_specification]
#[verifier::external_body]
pub struct ExRsaError(rsa::errors::Error);

/// The failure of reading or writing a PKCS#1 document.
#[verifier::external_type_specification]
#[verifier::external_body]
pub struct ExPkcs1Error(rsa::pkcs1::Error);

/// The failure of building or signing a token.
#[verifier::external_type_specification]
#[verifier::external_body]
pub struct ExJwtError(jsonwebtoken::errors::Error);

/// What `base64_url::encode` makes of `bytes`: base64 in the URL-safe alphabet, without padding.
pub uninterp spec fn base64url_text(bytes: Seq<u8>) -> Seq<char>;

/// The PKCS#1 PEM text, with line feeds, of the private key that `pem` holds;
/// `None` where `pem` holds no such key.
pub uninterp spec fn pkcs1_pem_reencoded(pem: Seq<char>) -> Option<Seq<char>>;

/// Modulus and public exponent, each as big-endian bytes, of the private key
/// that the PKCS#1 PEM text `pem` holds; `None` where it holds none.
pub uninterp spec fn pkcs1_pem_public_parts(pem: Seq<char>) -> Option<(Seq<u8>, Seq<u8>)>;

/// The RS256 token with key identifier `kid` in its header and `claims` as
/// its claims, signed with the key in the PEM text `pem`; `None` where the
/// key cannot be used.
pub uninterp spec fn rs256_token(
    kid: Seq<char>,
    claims: Seq<(Seq<char>, Seq<char>)>,
    pem: Seq<char>,
) -> Option<Seq<char>>;

/// Names and values of claims, as plain text.
pub open spec fn claim_texts(claims: Seq<(String, String)>) -> Seq<(Seq<char>, Seq<char>)> {
    claims.map_values(|c: (String, String)| (c.0@, c.1@))
}

/// `std::str::from_utf8`: the text that `bytes` encode, where they are valid UTF-8, and
/// nothing where they are not.
#[verifier::external_body]
pub(crate) fn utf8_text(bytes: &[u8]) -> (r: Option<&str>)
    ensures
        r is Some <==> valid_utf8(bytes@),
        r matches Some(text) ==> text@ == decode_utf8(bytes@),
{
    std::str::from_utf8(bytes).ok()
}

/// `base64_url::encode`. The encoding depends on the bytes alone; the contract
/// gives it a name and says no more of it.
#[verifier::external_body]
pub(crate) fn base64url(bytes: &[u8]) -> (r: String)
    ensures
        r@ == base64url_text(bytes@),
{
    base64_url::encode(bytes)
}

/// `rsa::RsaPrivateKey::new` on the operating system's random source
/// (`rand::rngs::OsRng`) for a modulus of `bits` bits, then `to_pkcs1_pem`
/// with the platform's line ending. The key is random, so nothing is claimed
/// of the text; a failure of either step comes back as the error. Sizes
/// below 64 bits, for which the generator estimates with floating point
/// whether enough primes exist, and above the largest modulus that the crate
/// accepts are left out.
#[verifier::external_body]
pub(crate) fn generate_key_pem(bits: usize) -> (r: Result<String, rsa::errors::Error>)
    requires
        64 <= bits <= 4096,
{
    let key = rsa::RsaPrivateKey::new(&mut rand::rngs::OsRng, bits)?;
    let pem = key.to_pkcs1_pem(Default::default())?;
    Ok(pem.to_string())
}

/// `rsa::RsaPrivateKey::from_pkcs1_pem`, then `to_pkcs1_pem` with line feeds.
/// Whether the text parses, and the text that comes back, depend on `pem`
/// alone; the contract names that result.
#[verifier::external_body]
pub(crate) fn reencode_pem(pem: &str) -> (r: Result<String, rsa::pkcs1::Error>)
    ensures
        r matches Ok(text) ==> pkcs1_pem_reencoded(pem@) == Some(text@),
        r is Err ==> pkcs1_pem_reencoded(pem@) is None,
{
    let key = rsa::RsaPrivateKey::from_pkcs1_pem(pem)?;
    let text = key.to_pkcs1_pem(rsa::pkcs1::LineEnding::LF)?;
    Ok(text.to_string())
}

/// `rsa::RsaPrivateKey::from_pkcs1_pem`, then `rsa::RsaPublicKey::from` and
/// the `to_bytes_be` of its `n` and `e`. Whether the text parses, and the two
/// byte strings, depend on `pem` alone; the contract names that result.
#[verifier::external_body]
pub(crate) fn public_parts(pem: &str) -> (r: Result<(Vec<u8>, Vec<u8>), rsa::pkcs1::Error>)
    ensures
        r matches Ok(parts) ==> pkcs1_pem_public_parts(pem@) == Some((parts.0@, parts.1@)),
        r is Err ==> pkcs1_pem_public_parts(pem@) is None,
{
    let key = rsa::RsaPrivateKey::from_pkcs1_pem(pem)?;
    let public = rsa::RsaPublicKey::from(&key);
    Ok((public.n().to_bytes_be(), public.e().to_bytes_be()))
}

/// `jsonwebtoken::EncodingKey::from_rsa_pem`, then `jsonwebtoken::encode`
/// with a default header whose algorithm is RS256 and whose key identifier is
/// `kid`, and with the claims as a map from name to value. RS256 signatures
/// are deterministic, so the token depends on the three arguments alone; the
/// contract names that result.
#[verifier::external_body]
pub(crate) fn sign_rs256(kid: &str, claims: &Vec<(String, String)>, pem: &str) -> (r: Result<
    String,
    jsonwebtoken::errors::Error,
>)
    ensures
        r matches Ok(token) ==> rs256_token(kid@, claim_texts(claims@), pem@) == Some(token@),
        r is Err ==> rs256_token(kid@, claim_texts(claims@), pem@) is None,
{
    let mut header = jsonwebtoken::Header::default();
    header.alg = jsonwebtoken::Algorithm::RS256;
    header.kid = Some(kid.to_string());
    let map: std::collections::BTreeMap<String, String> = claims.iter().cloned().collect();
    let key = jsonwebtoken::EncodingKey::from_rsa_pem(pem.as_bytes())?;
    jsonwebtoken::encode(&header, &map, &key)
}

} // verus!
