//! The start-up policy: a valid and an expired signing key must both exist.

use crate::clock::{has_hour_around, hour_fits, unix_now, HOUR};
use crate::crypto::generate_key_pem;
use crate::db::{
    chosen, fetch_key, insert_key, lemma_chosen_after_push, lemma_chosen_qualifies, next_id,
    qualifies, well_formed, KeyRecord, KeyStore,
};
use vstd::prelude::*;
use vstd::utf8::*;

verus! {

/// Why provisioning stopped.
#[derive(Debug, Clone, Copy, PartialEq, Eq, Structural)]
pub enum ProvisionError {
    /// A key pair could not be generated or written as text.
    KeyGeneration,
    /// The registry has no identifier left for a new record.
    StoreFull,
    /// The clock is so near the end of the machine's integers that an hour
    /// cannot be added to it or taken from it.
    Clock,
}

/// The size of the modulus of a generated key, in bits.
pub const KEY_BITS: usize = 2048;

/// The expiry that a freshly generated key is stored with: an hour before
/// `now` for the expired key, an hour after it for the valid one.
pub open spec fn fresh_expiry(expired: bool, now: int) -> int {
    if expired {
        now - HOUR
    } else {
        now + HOUR
    }
}

/// How many of the two keys are missing at `now`.
pub open spec fn missing(s: Seq<KeyRecord>, now: int) -> int {
    (if chosen(s, false, now) is None {
        1int
    } else {
        0int
    }) + (if chosen(s, true, now) is None {
        1int
    } else {
        0int
    })
}

/// Stores the outcome of a key generation with the expiry `exp`. A failed
/// generation stores nothing.
pub fn store_generated(
    store: &mut KeyStore,
    generated: Result<String, rsa::errors::Error>,
    exp: i64,
) -> (r: Result<i64, ProvisionError>)
    ensures
        well_formed(old(store)@),
        well_formed(final(store)@),
        r is Ok <==> generated is Ok && next_id(old(store)@) <= i64::MAX,
        r matches Ok(id) ==> id == next_id(old(store)@) && final(store)@ == old(store)@.push(
            KeyRecord {
                id: id as int,
                material: encode_utf8(generated->Ok_0@),
                expires_at: exp as int,
            },
        ),
        r matches Err(e) ==> final(store)@ == old(store)@ && e == if generated is Err {
            ProvisionError::KeyGeneration
        } else {
            ProvisionError::StoreFull
        },
{
    match generated {
        Err(_) => {
            let _ = store.len();
            Err(ProvisionError::KeyGeneration)
        },
        Ok(pem) => {
            match insert_key(store, pem.as_str().as_bytes(), exp) {
                Ok(id) => Ok(id),
                Err(_) => Err(ProvisionError::StoreFull),
            }
        },
    }
}

/// Whether a key with a modulus of `bits` bits can be asked for.
pub open spec fn key_size_accepted(bits: int) -> bool {
    64 <= bits <= 4096
}

/// Makes sure that a lookup on the given side of `now` finds a key. Where it
/// already does, nothing changes; else a fresh key with a modulus of `bits`
/// bits is generated and stored with an expiry one hour on that side of
/// `now`. A lookup on the other side finds what it found before.
pub fn provide_key(store: &mut KeyStore, expired: bool, now: i64, bits: usize) -> (r: Result<
    bool,
    ProvisionError,
>)
    requires
        hour_fits(now as int),
        key_size_accepted(bits as int),
    ensures
        well_formed(old(store)@),
        well_formed(final(store)@),
        chosen(old(store)@, expired, now as int) is Some ==> r == Ok::<bool, ProvisionError>(false),
        chosen(old(store)@, expired, now as int) is None ==> r != Ok::<bool, ProvisionError>(false),
        r == Ok::<bool, ProvisionError>(false) || r is Err ==> final(store)@ == old(store)@,
        r == Ok::<bool, ProvisionError>(true) ==> final(store)@.len() == old(store)@.len() + 1
            && final(store)@.drop_last() == old(store)@ && final(store)@.last().id == next_id(
            old(store)@,
        ) && final(store)@.last().expires_at == fresh_expiry(expired, now as int),
        r matches Err(e) ==> e != ProvisionError::Clock && (e == ProvisionError::StoreFull
            ==> next_id(old(store)@) > i64::MAX),
        r is Ok ==> chosen(final(store)@, expired, now as int) is Some,
        r == Ok::<bool, ProvisionError>(true) ==> next_id(old(store)@) <= i64::MAX,
        chosen(final(store)@, !expired, now as int) == chosen(old(store)@, !expired, now as int),
{
    let found = fetch_key(store, expired, now);
    proof {
        lemma_chosen_qualifies(store@, expired, now as int);
    }
    if found.is_some() {
        return Ok(false);
    }
    let exp = if expired {
        now - HOUR
    } else {
        now + HOUR
    };
    let generated = generate_key_pem(bits);
    match store_generated(store, generated, exp) {
        Ok(_) => {
            proof {
                let k = final(store)@.last();
                assert(final(store)@.drop_last() =~= old(store)@);
                assert(old(store)@.push(k) =~= final(store)@);
                lemma_chosen_after_push(old(store)@, k, expired, now as int);
                lemma_chosen_after_push(old(store)@, k, !expired, now as int);
            }
            Ok(true)
        },
        Err(e) => Err(e),
    }
}

/// Makes sure, for the time `now`, that a valid and an expired key exist, and
/// says how many keys were added: none where both were there already. The
/// valid key is seen to first.
pub fn provision(store: &mut KeyStore, now: i64) -> (r: Result<usize, ProvisionError>)
    requires
        hour_fits(now as int),
    ensures
        well_formed(final(store)@),
        old(store)@.len() <= final(store)@.len(),
        final(store)@.take(old(store)@.len() as int) == old(store)@,
        missing(old(store)@, now as int) == 0 ==> r == Ok::<usize, ProvisionError>(0),
        missing(old(store)@, now as int) == 0 ==> final(store)@ == old(store)@,
        r is Ok ==> missing(final(store)@, now as int) == 0,
        r matches Ok(n) ==> n == missing(old(store)@, now as int),
        r matches Ok(n) ==> final(store)@.len() == old(store)@.len() + n,
        r matches Ok(n) ==> (chosen(final(store)@, false, now as int) matches Some(k)
            && k.expires_at > now) && (chosen(final(store)@, true, now as int) matches Some(k)
            && k.expires_at <= now),
        r matches Err(e) ==> e != ProvisionError::Clock,
{
    let ghost before = store@;
    let valid_added = match provide_key(store, false, now, KEY_BITS) {
        Ok(added) => added,
        Err(e) => {
            assert(store@.take(before.len() as int) =~= before);
            return Err(e);
        },
    };
    let ghost middle = store@;
    assert(middle.take(before.len() as int) =~= before);
    let expired_added = match provide_key(store, true, now, KEY_BITS) {
        Ok(added) => added,
        Err(e) => {
            return Err(e);
        },
    };
    proof {
        assert(store@.take(middle.len() as int) =~= middle);
        assert(store@.take(before.len() as int) =~= before);
        lemma_chosen_qualifies(store@, false, now as int);
        lemma_chosen_qualifies(store@, true, now as int);
    }
    let mut n: usize = 0;
    if valid_added {
        n = n + 1;
    }
    if expired_added {
        n = n + 1;
    }
    Ok(n)
}

/// Reads the clock and provisions for that moment. Whatever the clock says:
/// records are only ever added, and after a success there is a moment for
/// which a valid and an expired key both exist.
pub fn ensure_keys_in_db(store: &mut KeyStore) -> (r: Result<usize, ProvisionError>)
    ensures
        well_formed(final(store)@),
        old(store)@.len() <= final(store)@.len(),
        final(store)@.take(old(store)@.len() as int) == old(store)@,
        r matches Ok(n) ==> final(store)@.len() == old(store)@.len() + n && n <= 2,
        r matches Ok(n) ==> exists|now: int|
            n == missing(old(store)@, now) && chosen(final(store)@, false, now) is Some && chosen(
                final(store)@,
                true,
                now,
            ) is Some,
{
    let now = unix_now();
    if !has_hour_around(now) {
        let _ = store.len();
        assert(store@.take(store@.len() as int) =~= store@);
        return Err(ProvisionError::Clock);
    }
    let r = provision(store, now);
    proof {
        if r is Ok {
            assert(r->Ok_0 == missing(old(store)@, now as int));
        }
    }
    r
}

} // verus!
