//! The identity cache.
//!
//! The record describing the authenticated user is fetched once per
//! credential and kept under a key derived from a one-way hash of the
//! credential. A hit answers without any remote call; a miss fetches,
//! stores, and answers. Entries are never refreshed: a changed remote
//! record under an unchanged credential goes unseen until the store is
//! cleared by hand, a known limitation.
//!
//! The store itself is a plain key-to-record map here; the surrounding glue
//! decides where such a map lives (on disk) and how records are carried
//! (bytes). [`get_identity_with`] is the whole policy, verified: what is
//! answered, when the remote is consulted, and what the store holds after.

use vstd::prelude::*;
use vstd::string::StringExecFns;
use crate::schema::Me;
use crate::text::str_eq;

verus! {

/// The lowercase hex digest that the SHA-256 of a text encodes to. A
/// function of the text alone.
pub uninterp spec fn sha256_hex(s: Seq<char>) -> Seq<char>;

/// Relies on `sha256::digest`: the lowercase hex form of the SHA-256 digest
/// of the text, 64 characters for the 32 digest bytes, a function of the
/// text alone.
#[verifier::external_body]
fn sha256_digest(s: &str) -> (r: String)
    ensures
        r@ == sha256_hex(s@),
        r@.len() == 64,
{
    sha256::digest(s)
}

/// The cache key a credential is stored under.
pub open spec fn cache_key_model(credential: Seq<char>) -> Seq<char> {
    "identity::"@ + sha256_hex(credential)
}

/// Builds the cache key of a credential: a fixed prefix followed by the
/// credential's hex digest, so that the credential itself never names an
/// entry.
pub fn cache_key_for(credential: &str) -> (r: String)
    ensures
        r@ == cache_key_model(credential@),
{
    let mut key = String::from_str("identity::");
    let digest = sha256_digest(credential);
    key.append(digest.as_str());
    key
}

/// Why an identity lookup can fail: the remote lookup failed on a miss, or
/// the freshly fetched record could not be stored. A write failure fails
/// the whole call even though the fetched record was in hand.
pub enum IdentityError {
    RemoteLookupFailure(String),
    CacheWriteFailure(String),
}

impl IdentityError {
    /// The failure as a line of diagnostic text.
    pub fn message(&self) -> (r: String)
        ensures
            self is RemoteLookupFailure ==> r@ == "identity lookup failed: "@
                + self->RemoteLookupFailure_0@,
            self is CacheWriteFailure ==> r@ == "could not store the fetched identity: "@
                + self->CacheWriteFailure_0@,
    {
        match self {
            IdentityError::RemoteLookupFailure(why) => {
                let mut r = String::from_str("identity lookup failed: ");
                r.append(why.as_str());
                r
            },
            IdentityError::CacheWriteFailure(why) => {
                let mut r = String::from_str("could not store the fetched identity: ");
                r.append(why.as_str());
                r
            },
        }
    }
}

/// What to do after reading the cache: answer from it, or consult the
/// remote.
pub enum CacheDecision {
    UseCached(Me),
    FetchRemote,
}

/// The one decision the cache makes: a readable entry answers the call, and
/// anything else — no entry, an unreadable one — means the remote is
/// consulted.
pub fn after_cache_read(cached: Option<Me>) -> (r: CacheDecision)
    ensures
        cached is Some ==> r == CacheDecision::UseCached(cached->0),
        cached is None ==> r == CacheDecision::FetchRemote,
{
    match cached {
        Some(me) => CacheDecision::UseCached(me),
        None => CacheDecision::FetchRemote,
    }
}

/// A key-to-record store, the shape the cache policy is verified against.
pub struct IdentityStore {
    pub entries: Vec<(String, Me)>,
}

impl IdentityStore {
    /// The store's entries as key texts and records.
    pub open spec fn model(&self) -> Seq<(Seq<char>, Me)> {
        Seq::new(self.entries@.len(), |i: int| (self.entries@[i].0@, self.entries@[i].1))
    }

    /// An empty store.
    pub fn new() -> (r: IdentityStore)
        ensures
            r.model() == Seq::<(Seq<char>, Me)>::empty(),
    {
        let r = IdentityStore { entries: Vec::new() };
        proof {
            assert(r.model() =~= Seq::<(Seq<char>, Me)>::empty());
        }
        r
    }
}

/// The first record stored under `key`, or `None` where none is.
pub open spec fn store_lookup(entries: Seq<(Seq<char>, Me)>, key: Seq<char>) -> Option<Me>
    decreases entries.len(),
{
    if entries.len() == 0 {
        None
    } else if entries[0].0 == key {
        Some(entries[0].1)
    } else {
        store_lookup(entries.drop_first(), key)
    }
}

/// A match at `k`, with no match before it, is what [`store_lookup`] finds.
proof fn lemma_store_lookup_at(entries: Seq<(Seq<char>, Me)>, key: Seq<char>, k: int)
    requires
        0 <= k < entries.len(),
        forall|m: int| 0 <= m < k ==> entries[m].0 != key,
        entries[k].0 == key,
    ensures
        store_lookup(entries, key) == Some(entries[k].1),
    decreases k,
{
    if k > 0 {
        let rest = entries.drop_first();
        assert(forall|m: int| 0 <= m < k - 1 ==> rest[m].0 != key);
        lemma_store_lookup_at(rest, key, k - 1);
    }
}

/// With no match anywhere, [`store_lookup`] finds nothing.
proof fn lemma_store_lookup_none(entries: Seq<(Seq<char>, Me)>, key: Seq<char>)
    requires
        forall|m: int| 0 <= m < entries.len() ==> entries[m].0 != key,
    ensures
        store_lookup(entries, key) is None,
    decreases entries.len(),
{
    if entries.len() > 0 {
        lemma_store_lookup_none(entries.drop_first(), key);
    }
}

/// The cache policy, whole: look the credential's key up; a hit answers
/// without touching the remote or the store; a miss answers with what the
/// remote returned — handed in as `remote` by the caller that performed the
/// lookup — and stores it under the key. The second component tells whether
/// the remote was consulted.
pub fn get_identity_with(store: &mut IdentityStore, credential: &str, remote: Me) -> (r: (Me, bool))
    ensures
        ({
            let key = cache_key_model(credential@);
            let looked = store_lookup(old(store).model(), key);
            &&& (looked is Some ==> r.0 == looked->0 && r.1 == false && final(store).model()
                == old(store).model())
            &&& (looked is None ==> r.0 == remote && r.1 == true && final(store).model() == old(
                store,
            ).model().push((key, remote)))
        }),
{
    let key = cache_key_for(credential);
    let ghost entries = store.model();
    let ghost keym = cache_key_model(credential@);
    let mut k: usize = 0;
    while k < store.entries.len()
        invariant
            k <= store.entries.len(),
            entries == store.model(),
            entries == old(store).model(),
            keym == key@,
            keym == cache_key_model(credential@),
            forall|m: int| 0 <= m < k ==> (#[trigger] entries[m]).0 != keym,
        decreases store.entries.len() - k,
    {
        if str_eq(store.entries[k].0.as_str(), key.as_str()) {
            proof {
                assert(entries[k as int].0 == keym);
                lemma_store_lookup_at(entries, keym, k as int);
            }
            let found = store.entries[k].1.clone();
            assert(found == entries[k as int].1);
            return (found, false);
        }
        assert(entries[k as int].0 != keym);
        k += 1;
    }
    proof {
        lemma_store_lookup_none(entries, keym);
    }
    let answer = remote.clone();
    store.entries.push((key, remote));
    proof {
        assert(store.model() =~= entries.push((keym, remote)));
    }
    (answer, true)
}

/// The cache answers the second call itself: a first call on an empty store
/// consults the remote and stores the record, and a second call with the
/// same credential finds that very record, so no further remote call is
/// made and the data returned is identical.
pub proof fn lemma_identity_cache_round_trip(credential: Seq<char>, fetched: Me)
    ensures
        store_lookup(Seq::<(Seq<char>, Me)>::empty(), cache_key_model(credential)) is None,
        store_lookup(
            Seq::<(Seq<char>, Me)>::empty().push((cache_key_model(credential), fetched)),
            cache_key_model(credential),
        ) == Some(fetched),
{
    let key = cache_key_model(credential);
    let one = Seq::<(Seq<char>, Me)>::empty().push((key, fetched));
    assert(one[0].0 == key);
}

} // verus!
