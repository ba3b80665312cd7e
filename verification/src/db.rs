//! The append-only registry of signing keys and its expiry-qualified queries.

use vstd::prelude::*;
use vstd::slice::slice_to_vec;

verus! {

/// One stored signing key.
pub struct SigningKey {
    pub id: i64,
    pub material: Vec<u8>,
    pub expires_at: i64,
}

/// What a stored key is, mathematically.
pub struct KeyRecord {
    pub id: int,
    pub material: Seq<u8>,
    pub expires_at: int,
}

impl View for SigningKey {
    type V = KeyRecord;

    open spec fn view(&self) -> KeyRecord {
        KeyRecord { id: self.id as int, material: self.material@, expires_at: self.expires_at as int }
    }
}

impl SigningKey {
    /// An independent copy of this key.
    pub fn duplicate(&self) -> (r: SigningKey)
        ensures
            r@ == self@,
    {
        let material = self.material.clone();
        assert(material@ =~= self.material@);
        SigningKey { id: self.id, material, expires_at: self.expires_at }
    }
}

/// The record of a key that may be absent.
pub open spec fn record_of(k: Option<SigningKey>) -> Option<KeyRecord> {
    match k {
        Some(k) => Some(k@),
        None => None,
    }
}

/// The records that a list of keys stands for, in the same order.
pub open spec fn records(keys: Seq<SigningKey>) -> Seq<KeyRecord> {
    keys.map_values(|k: SigningKey| k@)
}

/// Identifiers start at 1 and grow strictly along the registry, so none occurs twice.
pub open spec fn well_formed(s: Seq<KeyRecord>) -> bool {
    &&& forall|i: int| 0 <= i < s.len() ==> 1 <= (#[trigger] s[i]).id <= i64::MAX
    &&& forall|i: int, j: int| 0 <= i < j < s.len() ==> (#[trigger] s[i]).id < (#[trigger] s[j]).id
}

/// A key is valid while its expiry lies strictly after `now`, and expired from then on.
pub open spec fn is_valid(k: KeyRecord, now: int) -> bool {
    k.expires_at > now
}

/// Whether `k` is on the side of `now` that the query asks for.
pub open spec fn qualifies(k: KeyRecord, expired: bool, now: int) -> bool {
    if expired {
        !is_valid(k, now)
    } else {
        is_valid(k, now)
    }
}

/// Whether the query takes `a` rather than `b`: the expiry nearest to `now`
/// wins, and on equal expiry the smaller identifier.
pub open spec fn preferred(a: KeyRecord, b: KeyRecord, expired: bool) -> bool {
    if a.expires_at == b.expires_at {
        a.id < b.id
    } else if expired {
        a.expires_at > b.expires_at
    } else {
        a.expires_at < b.expires_at
    }
}

/// `k` is a qualifying record of `s` that is preferred to every other qualifying one.
pub open spec fn is_choice(s: Seq<KeyRecord>, k: KeyRecord, expired: bool, now: int) -> bool {
    &&& s.contains(k)
    &&& qualifies(k, expired, now)
    &&& forall|j: int|
        0 <= j < s.len() && qualifies(#[trigger] s[j], expired, now) && s[j] != k ==> preferred(
            k,
            s[j],
            expired,
        )
}

/// The record that an expiry-qualified lookup yields, if any.
pub open spec fn chosen(s: Seq<KeyRecord>, expired: bool, now: int) -> Option<KeyRecord> {
    if exists|k: KeyRecord| is_choice(s, k, expired, now) {
        Some(choose|k: KeyRecord| is_choice(s, k, expired, now))
    } else {
        None
    }
}

/// The valid records of `s`, in registry order.
pub open spec fn valid_records(s: Seq<KeyRecord>, now: int) -> Seq<KeyRecord> {
    s.filter(|k: KeyRecord| is_valid(k, now))
}

/// The identifier that the next insertion receives.
pub open spec fn next_id(s: Seq<KeyRecord>) -> int {
    if s.len() == 0 {
        1
    } else {
        s.last().id + 1
    }
}

/// Why the registry refused an insertion.
#[derive(Debug, Clone, Copy, PartialEq, Eq, Structural)]
pub enum StoreError {
    /// Every identifier has been handed out.
    Full,
}

/// The registry: records in the order of their insertion.
pub struct KeyStore {
    keys: Vec<SigningKey>,
}

impl View for KeyStore {
    type V = Seq<KeyRecord>;

    closed spec fn view(&self) -> Seq<KeyRecord> {
        records(self.keys@)
    }
}

impl KeyStore {
    #[verifier::type_invariant]
    closed spec fn inv(&self) -> bool {
        well_formed(records(self.keys@))
    }

    /// A registry without records.
    pub fn new() -> (r: KeyStore)
        ensures
            r@ == Seq::<KeyRecord>::empty(),
            well_formed(r@),
    {
        let r = KeyStore { keys: Vec::new() };
        assert(r@ =~= Seq::<KeyRecord>::empty());
        r
    }

    /// The number of records. Every registry is well formed.
    pub fn len(&self) -> (n: usize)
        ensures
            n == self@.len(),
            well_formed(self@),
    {
        proof {
            use_type_invariant(self);
        }
        self.keys.len()
    }

    /// The record at position `i`, counted in insertion order.
    pub fn get(&self, i: usize) -> (r: Option<&SigningKey>)
        ensures
            i >= self@.len() ==> r is None,
            i < self@.len() ==> r is Some && r->0@ == self@[i as int],
    {
        if i < self.keys.len() {
            Some(&self.keys[i])
        } else {
            None
        }
    }

    /// Takes rows as a registry, provided their identifiers start at 1 or
    /// above and grow strictly.
    pub fn from_rows(rows: Vec<SigningKey>) -> (r: Option<KeyStore>)
        ensures
            r is Some <==> well_formed(records(rows@)),
            r matches Some(store) ==> store@ == records(rows@),
    {
        let ghost s = records(rows@);
        let mut i: usize = 0;
        let mut last: i64 = 0;
        while i < rows.len()
            invariant
                i <= rows.len(),
                s == records(rows@),
                well_formed(s.take(i as int)),
                0 <= last,
                i == 0 ==> last == 0,
                i > 0 ==> last == s[i - 1].id,
            decreases rows.len() - i,
        {
            assert(s[i as int] == rows@[i as int]@);
            if rows[i].id <= last {
                proof {
                    if i > 0 {
                        assert(s[i - 1].id >= s[i as int].id);
                    } else {
                        assert(s[0].id < 1);
                    }
                }
                return None;
            }
            last = rows[i].id;
            proof {
                let t = s.take(i as int + 1);
                assert forall|a: int, b: int| 0 <= a < b < t.len() implies (#[trigger] t[a]).id < (
                #[trigger] t[b]).id by {
                    if b < i {
                        assert(s.take(i as int)[a] == t[a] && s.take(i as int)[b] == t[b]);
                    } else if a + 1 < i {
                        assert(s.take(i as int)[a] == t[a]);
                        assert(s.take(i as int)[i - 1] == s[i - 1]);
                    }
                }
                assert forall|a: int| 0 <= a < t.len() implies 1 <= (#[trigger] t[a]).id
                    <= i64::MAX by {
                    if a < i {
                        assert(s.take(i as int)[a] == t[a]);
                    } else {
                        assert(t[a] == s[i as int]);
                    }
                }
            }
            i = i + 1;
        }
        assert(s.take(i as int) =~= s);
        Some(KeyStore { keys: rows })
    }
}

/// Makes sure that a registry exists: one that is already there is kept as it
/// is, and where there is none an empty one is set up.
pub fn init_db(existing: Option<KeyStore>) -> (r: KeyStore)
    ensures
        well_formed(r@),
        r@ == match existing {
            Some(store) => store@,
            None => Seq::<KeyRecord>::empty(),
        },
{
    match existing {
        Some(store) => {
            proof {
                use_type_invariant(&store);
            }
            store
        },
        None => KeyStore::new(),
    }
}

/// Appends a record and returns the identifier that it was given. Nothing is
/// compared with what is already stored: the same material may be stored twice.
pub fn insert_key(store: &mut KeyStore, key: &[u8], exp: i64) -> (r: Result<i64, StoreError>)
    ensures
        well_formed(old(store)@),
        well_formed(final(store)@),
        r is Ok <==> next_id(old(store)@) <= i64::MAX,
        r matches Ok(id) ==> id == next_id(old(store)@) && final(store)@ == old(store)@.push(
            KeyRecord { id: id as int, material: key@, expires_at: exp as int },
        ),
        r is Err ==> r == Err::<i64, StoreError>(StoreError::Full) && final(store)@ == old(store)@,
{
    proof {
        use_type_invariant(&*store);
    }
    let ghost before = store@;
    let n = store.keys.len();
    let mut id: i64 = 1;
    if n > 0 {
        assert(before[n - 1] == store.keys@[n - 1]@);
        let last = store.keys[n - 1].id;
        if last == i64::MAX {
            return Err(StoreError::Full);
        }
        id = last + 1;
    }
    let material = slice_to_vec(key);
    let mut taken = KeyStore::new();
    std::mem::swap(store, &mut taken);
    let mut keys = taken.keys;
    keys.push(SigningKey { id, material, expires_at: exp });
    proof {
        let rec = KeyRecord { id: id as int, material: key@, expires_at: exp as int };
        assert(records(keys@) =~= before.push(rec));
        assert forall|i: int, j: int| 0 <= i < j < before.push(rec).len() implies (
        #[trigger] before.push(rec)[i]).id < (#[trigger] before.push(rec)[j]).id by {
            if j == n && n > 0 && i < n - 1 {
                assert(before[i].id < before[n - 1].id);
            }
        }
    }
    *store = KeyStore { keys };
    Ok(id)
}

/// The expiry-qualified lookup. Without `expired` it yields, among the valid
/// records, the one that expires soonest; with it, among the expired ones, the
/// one that expired last. On equal expiry the smaller identifier wins. Where
/// no record qualifies there is no result.
pub fn fetch_key(store: &KeyStore, expired: bool, now: i64) -> (r: Option<SigningKey>)
    ensures
        well_formed(store@),
        r is None <==> forall|j: int|
            0 <= j < store@.len() ==> !qualifies(#[trigger] store@[j], expired, now as int),
        r matches Some(k) ==> is_choice(store@, k@, expired, now as int),
        record_of(r) == chosen(store@, expired, now as int),
{
    proof {
        use_type_invariant(store);
    }
    let ghost s = store@;
    let mut best: Option<usize> = None;
    let mut i: usize = 0;
    while i < store.keys.len()
        invariant
            i <= store.keys.len(),
            s == records(store.keys@),
            well_formed(s),
            best is None <==> forall|j: int|
                0 <= j < i ==> !qualifies(#[trigger] s[j], expired, now as int),
            best matches Some(b) ==> b < i && qualifies(s[b as int], expired, now as int)
                && forall|j: int|
                0 <= j < i && qualifies(#[trigger] s[j], expired, now as int) && j != b
                    ==> preferred(s[b as int], s[j], expired),
        decreases store.keys.len() - i,
    {
        let cand = &store.keys[i];
        assert(s[i as int] == cand@);
        let fits = if expired {
            cand.expires_at <= now
        } else {
            cand.expires_at > now
        };
        if fits {
            match best {
                None => {
                    best = Some(i);
                },
                Some(b) => {
                    let cur = &store.keys[b];
                    assert(s[b as int] == cur@);
                    let wins = if cand.expires_at == cur.expires_at {
                        cand.id < cur.id
                    } else if expired {
                        cand.expires_at > cur.expires_at
                    } else {
                        cand.expires_at < cur.expires_at
                    };
                    if wins {
                        best = Some(i);
                    }
                },
            }
        }
        i = i + 1;
    }
    match best {
        None => {
            proof {
                assert forall|k: KeyRecord| !is_choice(s, k, expired, now as int) by {
                    if s.contains(k) {
                        let j = choose|j: int| 0 <= j < s.len() && s[j] == k;
                        assert(!qualifies(s[j], expired, now as int));
                    }
                }
            }
            None
        },
        Some(b) => {
            let k = store.keys[b].duplicate();
            proof {
                assert(s[b as int] == k@);
                assert(s.contains(k@));
                assert(is_choice(s, k@, expired, now as int));
                lemma_choice_unique(s, k@, chosen(s, expired, now as int)->0, expired, now as int);
            }
            Some(k)
        },
    }
}

/// All valid records, in registry order, which is that of ascending
/// identifiers. An expired record is never among them.
pub fn fetch_all_valid_keys(store: &KeyStore, now: i64) -> (r: Vec<SigningKey>)
    ensures
        well_formed(store@),
        records(r@) == valid_records(store@, now as int),
        forall|i: int| 0 <= i < r@.len() ==> (#[trigger] r@[i]).expires_at > now,
        forall|i: int, j: int| 0 <= i < j < r@.len() ==> (#[trigger] r@[i]).id < (#[trigger] r@[j]).id,
{
    proof {
        use_type_invariant(store);
    }
    let ghost s = store@;
    let ghost valid = |k: KeyRecord| is_valid(k, now as int);
    let mut out: Vec<SigningKey> = Vec::new();
    let mut i: usize = 0;
    assert(s.take(0) =~= Seq::<KeyRecord>::empty());
    assert(records(out@) =~= s.take(0).filter(valid));
    while i < store.keys.len()
        invariant
            i <= store.keys.len(),
            s == records(store.keys@),
            valid == |k: KeyRecord| is_valid(k, now as int),
            records(out@) == s.take(i as int).filter(valid),
        decreases store.keys.len() - i,
    {
        let cand = &store.keys[i];
        assert(s[i as int] == cand@);
        let ghost before = records(out@);
        proof {
            s.lemma_take_succ_push(i as int);
            s.take(i as int).lemma_filter_push(s[i as int], valid);
        }
        if cand.expires_at > now {
            let k = cand.duplicate();
            out.push(k);
            assert(records(out@) =~= before.push(k@));
        }
        i = i + 1;
    }
    proof {
        assert(s.take(i as int) =~= s);
        lemma_valid_records(s, now as int);
        assert forall|i: int| 0 <= i < out@.len() implies (#[trigger] out@[i]).expires_at > now by {
            assert(records(out@)[i] == out@[i]@);
        }
        assert forall|i: int, j: int| 0 <= i < j < out@.len() implies (#[trigger] out@[i]).id < (
        #[trigger] out@[j]).id by {
            assert(records(out@)[i] == out@[i]@);
            assert(records(out@)[j] == out@[j]@);
            assert(valid_records(s, now as int)[i].id < valid_records(s, now as int)[j].id);
        }
    }
    out
}

/// A lookup has at most one result: two records that each are preferred to
/// every other qualifying one are the same record.
pub proof fn lemma_choice_unique(s: Seq<KeyRecord>, a: KeyRecord, b: KeyRecord, expired: bool, now: int)
    requires
        is_choice(s, a, expired, now),
        is_choice(s, b, expired, now),
    ensures
        a == b,
{
    if a != b {
        let i = choose|i: int| 0 <= i < s.len() && s[i] == a;
        let j = choose|j: int| 0 <= j < s.len() && s[j] == b;
        assert(preferred(a, s[j], expired));
        assert(preferred(b, s[i], expired));
    }
}

/// The valid records of a well-formed registry are all valid, each is a
/// record of the registry, and their identifiers ascend.
pub proof fn lemma_valid_records(s: Seq<KeyRecord>, now: int)
    requires
        well_formed(s),
    ensures
        forall|i: int|
            0 <= i < valid_records(s, now).len() ==> is_valid(#[trigger] valid_records(s, now)[i], now)
                && s.contains(valid_records(s, now)[i]),
        forall|i: int, j: int|
            0 <= i < j < valid_records(s, now).len() ==> (#[trigger] valid_records(s, now)[i]).id < (
            #[trigger] valid_records(s, now)[j]).id,
        forall|k: int| 0 <= k < s.len() && is_valid(#[trigger] s[k], now) ==> valid_records(s, now).contains(s[k]),
    decreases s.len(),
{
    let valid = |k: KeyRecord| is_valid(k, now);
    let v = s.filter(valid);
    assert(v == valid_records(s, now));
    assert forall|i: int| 0 <= i < v.len() implies is_valid(#[trigger] v[i], now) && s.contains(v[i]) by {
        s.lemma_filter_pred(valid, i);
        assert(v.contains(v[i]));
        s.lemma_filter_contains_rev(valid, v[i]);
    }
    assert forall|k: int| 0 <= k < s.len() && is_valid(#[trigger] s[k], now) implies v.contains(s[k]) by {
        s.lemma_filter_contains(valid, k);
    }
    if s.len() > 0 {
        let t = s.drop_last();
        assert(s =~= t.push(s.last()));
        t.lemma_filter_push(s.last(), valid);
        assert forall|i: int, j: int| 0 <= i < j < t.len() implies (#[trigger] t[i]).id < (#[trigger] t[j]).id by {
            assert(t[i] == s[i] && t[j] == s[j]);
        }
        assert forall|i: int| 0 <= i < t.len() implies 1 <= (#[trigger] t[i]).id <= i64::MAX by {
            assert(t[i] == s[i]);
        }
        lemma_valid_records(t, now);
        let w = t.filter(valid);
        assert(w == valid_records(t, now));
        assert forall|i: int, j: int| 0 <= i < j < v.len() implies (#[trigger] v[i]).id < (#[trigger] v[j]).id by {
            if j == w.len() {
                assert(v[j] == s.last());
                assert(w.contains(w[i]));
                t.lemma_filter_contains_rev(valid, w[i]);
                let m = choose|m: int| 0 <= m < t.len() && t[m] == w[i];
                assert(s[m] == w[i]);
                assert(s[m].id < s[s.len() - 1].id);
            } else {
                assert(v[i] == w[i] && v[j] == w[j]);
            }
        }
    }
}

/// Every prefix of a well-formed registry is well formed.
pub proof fn lemma_prefix_well_formed(s: Seq<KeyRecord>, n: int)
    requires
        well_formed(s),
        0 <= n <= s.len(),
    ensures
        well_formed(s.take(n)),
{
    let t = s.take(n);
    assert forall|i: int| 0 <= i < t.len() implies 1 <= (#[trigger] t[i]).id <= i64::MAX by {
        assert(t[i] == s[i]);
    }
    assert forall|i: int, j: int| 0 <= i < j < t.len() implies (#[trigger] t[i]).id < (#[trigger] t[j]).id by {
        assert(t[i] == s[i] && t[j] == s[j]);
    }
}

/// A lookup finds a record exactly where some record qualifies: in a
/// well-formed registry with a qualifying record, one of them is preferred to
/// all the others.
pub proof fn lemma_choice_exists(s: Seq<KeyRecord>, expired: bool, now: int)
    requires
        well_formed(s),
        exists|j: int| 0 <= j < s.len() && qualifies(#[trigger] s[j], expired, now),
    ensures
        chosen(s, expired, now) is Some,
        is_choice(s, chosen(s, expired, now)->0, expired, now),
    decreases s.len(),
{
    let n = s.len() - 1;
    let t = s.take(n);
    let last = s[n];
    lemma_prefix_well_formed(s, n);
    assert(s.contains(last));
    if exists|j: int| 0 <= j < t.len() && qualifies(#[trigger] t[j], expired, now) {
        lemma_choice_exists(t, expired, now);
        let c = chosen(t, expired, now)->0;
        let m = choose|m: int| 0 <= m < t.len() && t[m] == c;
        assert(s[m] == c);
        assert(s.contains(c));
        assert(s[m].id < s[n].id);
        if qualifies(last, expired, now) && preferred(last, c, expired) {
            assert forall|j: int|
                0 <= j < s.len() && qualifies(#[trigger] s[j], expired, now) && s[j] != last implies preferred(
                last,
                s[j],
                expired,
            ) by {
                assert(t[j] == s[j]);
                if t[j] != c {
                    assert(preferred(c, t[j], expired));
                }
            }
            assert(is_choice(s, last, expired, now));
        } else {
            assert forall|j: int|
                0 <= j < s.len() && qualifies(#[trigger] s[j], expired, now) && s[j] != c implies preferred(
                c,
                s[j],
                expired,
            ) by {
                if j < n {
                    assert(t[j] == s[j]);
                }
            }
            assert(is_choice(s, c, expired, now));
        }
    } else {
        assert forall|j: int|
            0 <= j < s.len() && qualifies(#[trigger] s[j], expired, now) && s[j] != last implies preferred(
            last,
            s[j],
            expired,
        ) by {
            assert(t[j] == s[j]);
        }
        let w = choose|j: int| 0 <= j < s.len() && qualifies(#[trigger] s[j], expired, now);
        if w < n {
            assert(t[w] == s[w]);
        }
        assert(is_choice(s, last, expired, now));
    }
}

/// What a lookup finds is a record of the registry on the side of `now` that
/// was asked for; it finds nothing only where no record is on that side.
pub proof fn lemma_chosen_qualifies(s: Seq<KeyRecord>, expired: bool, now: int)
    requires
        well_formed(s),
    ensures
        chosen(s, expired, now) matches Some(k) ==> s.contains(k) && qualifies(k, expired, now),
        chosen(s, expired, now) is None <==> forall|j: int|
            0 <= j < s.len() ==> !qualifies(#[trigger] s[j], expired, now),
{
    if exists|j: int| 0 <= j < s.len() && qualifies(#[trigger] s[j], expired, now) {
        lemma_choice_exists(s, expired, now);
    }
    if chosen(s, expired, now) is Some {
        let k = chosen(s, expired, now)->0;
        assert(is_choice(s, k, expired, now));
        let j = choose|j: int| 0 <= j < s.len() && s[j] == k;
        assert(qualifies(s[j], expired, now));
    }
}

/// Of two qualifying records with the same expiry, the one with the larger
/// identifier is never the result of a lookup.
pub proof fn lemma_tie_goes_to_smaller_id(
    s: Seq<KeyRecord>,
    a: KeyRecord,
    b: KeyRecord,
    expired: bool,
    now: int,
)
    requires
        s.contains(a),
        s.contains(b),
        qualifies(a, expired, now),
        qualifies(b, expired, now),
        a.expires_at == b.expires_at,
        a.id < b.id,
    ensures
        chosen(s, expired, now) != Some(b),
{
    if chosen(s, expired, now) == Some(b) {
        assert(is_choice(s, b, expired, now));
        let i = choose|i: int| 0 <= i < s.len() && s[i] == a;
        assert(preferred(b, s[i], expired));
    }
}

/// A record that is inserted on the side that a lookup asks for is found by
/// it, unless an older record is preferred; one on the other side leaves the
/// lookup as it was.
pub proof fn lemma_chosen_after_push(s: Seq<KeyRecord>, k: KeyRecord, expired: bool, now: int)
    requires
        well_formed(s),
        well_formed(s.push(k)),
    ensures
        !qualifies(k, expired, now) ==> chosen(s.push(k), expired, now) == chosen(s, expired, now),
        qualifies(k, expired, now) ==> chosen(s.push(k), expired, now) == match chosen(s, expired, now) {
            Some(c) => if preferred(k, c, expired) {
                Some(k)
            } else {
                Some(c)
            },
            None => Some(k),
        },
{
    let p = s.push(k);
    let n = s.len() as int;
    assert(p[n] == k);
    assert(p.contains(k));
    lemma_chosen_qualifies(s, expired, now);
    lemma_chosen_qualifies(p, expired, now);
    assert forall|j: int| 0 <= j < n implies #[trigger] p[j] == s[j] by {}
    let want = if qualifies(k, expired, now) {
        match chosen(s, expired, now) {
            Some(c) => if preferred(k, c, expired) {
                Some(k)
            } else {
                Some(c)
            },
            None => Some(k),
        }
    } else {
        chosen(s, expired, now)
    };
    match want {
        None => {
            assert forall|j: int| 0 <= j < p.len() implies !qualifies(#[trigger] p[j], expired, now) by {
                if j < n {
                    assert(p[j] == s[j]);
                }
            }
        },
        Some(w) => {
            if chosen(s, expired, now) is Some {
                let c = chosen(s, expired, now)->0;
                let m = choose|m: int| 0 <= m < s.len() && s[m] == c;
                assert(p[m] == c);
                assert(p[m].id < p[n].id);
            }
            assert(p.contains(w));
            assert forall|j: int|
                0 <= j < p.len() && qualifies(#[trigger] p[j], expired, now) && p[j] != w implies preferred(
                w,
                p[j],
                expired,
            ) by {
                if j < n {
                    assert(p[j] == s[j]);
                    if chosen(s, expired, now) is Some {
                        let c = chosen(s, expired, now)->0;
                        if s[j] != c {
                            assert(preferred(c, s[j], expired));
                        }
                    }
                }
            }
            assert(is_choice(p, w, expired, now));
            lemma_choice_unique(p, w, chosen(p, expired, now)->0, expired, now);
        },
    }
}

/// An identifier names one record: two records of a well-formed registry with
/// the same identifier are the same record.
pub proof fn lemma_same_id_same_record(s: Seq<KeyRecord>, a: KeyRecord, b: KeyRecord)
    requires
        well_formed(s),
        s.contains(a),
        s.contains(b),
        a.id == b.id,
    ensures
        a == b,
{
    let i = choose|i: int| 0 <= i < s.len() && s[i] == a;
    let j = choose|j: int| 0 <= j < s.len() && s[j] == b;
    if i < j {
        assert(s[i].id < s[j].id);
    } else if j < i {
        assert(s[j].id < s[i].id);
    }
}

} // verus!
