//! The cache of interned keys: a table of fixed size that hands out one key
//! for every occurrence of a short text.

use crate::hash::{hash_text, text_hash};
use crate::datum::{key_hash, Key};
use associative_cache::{AssociativeCache, Capacity512, HashDirectMapped, RoundRobinReplacement};
use std::sync::Arc;
use vstd::prelude::*;

verus! {

/// The number of keys that the table can hold.
pub const SLOTS: usize = 512;

/// What the table keeps of a key: its shared text, and the hash that was
/// computed for it when it was made.
#[derive(Clone, Debug)]
pub(crate) struct CachedKey {
    text: Arc<String>,
    hash: u64,
}

impl View for CachedKey {
    type V = (Seq<char>, u64);

    closed spec fn view(&self) -> (Seq<char>, u64) {
        ((*self.text)@, self.hash)
    }
}

impl CachedKey {
    /// What is kept of `key`.
    pub(crate) fn new(key: &Key) -> (entry: CachedKey)
        ensures
            entry@ == (key@, key_hash(key@)),
    {
        let (text, hash) = key.parts();
        CachedKey { text, hash }
    }

    /// A new reference to the key, with the hash kept for it. The hash must
    /// be that of the text.
    pub(crate) fn get(self) -> (key: Key)
        requires
            self@.1 == key_hash(self@.0),
        ensures
            key@ == self@.0,
    {
        Key::from_parts(self.text, self.hash)
    }
}

/// A direct-mapped `associative_cache::AssociativeCache` of [`SLOTS`] slots
/// from the hash of a text to the key that was made for it. Every hash has
/// one slot, and a slot holds one key; what comes into a slot that is taken
/// puts out what was there.
#[verifier::external_body]
pub struct KeyMap {
    table: AssociativeCache<u64, CachedKey, Capacity512, HashDirectMapped, RoundRobinReplacement>,
}

/// What a table holds: for each hash in it, the text and the hash of the
/// key kept under it.
pub uninterp spec fn cached(map: KeyMap) -> Map<u64, (Seq<char>, u64)>;

/// True when `after` is `before` with `entry` put under `hash`, and
/// `replaced` is what left the table for it: the entry that was under
/// `hash`, or one under another hash that had the same slot, or nothing.
pub open spec fn put(
    before: Map<u64, (Seq<char>, u64)>,
    hash: u64,
    entry: (Seq<char>, u64),
    replaced: Option<(u64, (Seq<char>, u64))>,
    after: Map<u64, (Seq<char>, u64)>,
) -> bool {
    &&& replaced matches Some(out) ==> before.contains_key(out.0) && before[out.0] == out.1
    &&& before.contains_key(hash) ==> (replaced matches Some(out) && out.0 == hash)
    &&& after == match replaced {
        Some(out) => before.remove(out.0).insert(hash, entry),
        None => before.insert(hash, entry),
    }
}

/// True when the table holds a finite number of keys, at most [`SLOTS`].
pub open spec fn bounded(held: Map<u64, (Seq<char>, u64)>) -> bool {
    held.dom().finite() && held.dom().len() <= SLOTS
}

/// `AssociativeCache::default`: a table in which every slot is empty.
#[verifier::external_body]
fn key_map_new() -> (map: KeyMap)
    ensures
        cached(map).dom() == Set::<u64>::empty(),
        bounded(cached(map)),
{
    KeyMap { table: AssociativeCache::default() }
}

/// `AssociativeCache::get`: the entry under `hash`, if the slot of `hash`
/// holds one for it. The table is left as it is.
#[verifier::external_body]
fn key_map_get(map: &KeyMap, hash: u64) -> (found: Option<CachedKey>)
    ensures
        found is Some <==> cached(*map).contains_key(hash),
        found matches Some(entry) ==> entry@ == cached(*map)[hash],
{
    map.table.get(&hash).cloned()
}

/// `AssociativeCache::insert`: puts the entry into the slot of `hash` and
/// hands back what the slot held. No other slot is touched, and the table
/// never holds more than [`SLOTS`] entries.
#[verifier::external_body]
fn key_map_insert(map: &mut KeyMap, hash: u64, entry: CachedKey) -> (replaced: Option<
    (u64, CachedKey),
>)
    ensures
        put(
            cached(*old(map)),
            hash,
            entry@,
            match replaced {
                Some(out) => Some((out.0, out.1@)),
                None => None,
            },
            cached(*final(map)),
        ),
        bounded(cached(*final(map))),
{
    map.table.insert(hash, entry)
}

/// `AssociativeCache::len`: the number of entries in the table.
#[verifier::external_body]
fn key_map_len(map: &KeyMap) -> (count: usize)
    ensures
        count == cached(*map).dom().len(),
{
    map.table.len()
}

/// What a [`KeyCache`] holds: its seed, and the text of each key under the
/// hash that the text of its first occurrence has under the seed.
pub struct CacheView {
    pub seed: u64,
    pub keys: Map<u64, Seq<char>>,
}

impl CacheView {
    /// True when the cache holds a finite number of keys, at most
    /// [`SLOTS`].
    pub open spec fn bounded(&self) -> bool {
        self.keys.dom().finite() && self.keys.dom().len() <= SLOTS
    }

    /// True when every key is kept under a hash that its own text has
    /// under the seed.
    pub open spec fn faithful(&self) -> bool {
        forall|hash: u64| #[trigger]
            self.keys.contains_key(hash) ==> text_hash(self.keys[hash], self.seed) == hash
    }
}

/// True when `after` is `before` with `text` put under `hash`: the text is
/// there, no other key has come or changed, and at most one has left.
pub open spec fn installed(
    before: Map<u64, Seq<char>>,
    hash: u64,
    text: Seq<char>,
    after: Map<u64, Seq<char>>,
) -> bool {
    &&& after.contains_key(hash) && after[hash] == text
    &&& forall|other: u64|
        other != hash && #[trigger] after.contains_key(other) ==> before.contains_key(other)
            && after[other] == before[other]
    &&& forall|one: u64, other: u64|
        #![trigger after.contains_key(one), after.contains_key(other)]
        before.contains_key(one) && before.contains_key(other) && !after.contains_key(one)
            && !after.contains_key(other) ==> one == other
}

/// What a look-up of `raw` does to a cache and gives. A cache that has a
/// key under the hash of `raw` gives that key and stays as it is. Any other
/// cache gives a key of the text `raw` and takes it in under that hash.
pub open spec fn resolved(
    before: CacheView,
    raw: Seq<char>,
    key: Seq<char>,
    after: CacheView,
) -> bool {
    let hash = text_hash(raw, before.seed);
    &&& after.seed == before.seed
    &&& if before.keys.contains_key(hash) {
        key == before.keys[hash] && after == before
    } else {
        key == raw && installed(before.keys, hash, raw, after.keys)
    }
}

/// A key that was looked up is in the cache afterwards, under the hash of
/// the text that was asked for.
pub proof fn lemma_lookup_caches(before: CacheView, raw: Seq<char>, key: Seq<char>, after: CacheView)
    requires
        resolved(before, raw, key, after),
    ensures
        after.keys.contains_key(text_hash(raw, after.seed)),
        after.keys[text_hash(raw, after.seed)] == key,
{
}

/// Two look-ups of one text in a row give the same key, and the second
/// leaves the cache as the first left it: no second key is made.
pub proof fn lemma_second_lookup_reuses(
    before: CacheView,
    raw: Seq<char>,
    first: Seq<char>,
    between: CacheView,
    second: Seq<char>,
    after: CacheView,
)
    requires
        resolved(before, raw, first, between),
        resolved(between, raw, second, after),
    ensures
        second == first,
        after == between,
{
}

/// A look-up in a faithful cache gives a key whose text has the hash of
/// the text that was asked for: the text itself, unless another text of
/// that hash was there before.
pub proof fn lemma_lookup_matches_hash(
    before: CacheView,
    raw: Seq<char>,
    key: Seq<char>,
    after: CacheView,
)
    requires
        before.faithful(),
        resolved(before, raw, key, after),
    ensures
        text_hash(key, before.seed) == text_hash(raw, before.seed),
        after.faithful(),
{
    let hash = text_hash(raw, before.seed);
    if !before.keys.contains_key(hash) {
        assert forall|other: u64| #[trigger] after.keys.contains_key(other) implies text_hash(
            after.keys[other],
            after.seed,
        ) == other by {
            if other != hash {
                assert(before.keys.contains_key(other));
            }
        }
    }
}

/// A look-up never lets the cache grow by more than the one key it takes
/// in, and makes at most one key leave: the keys that were in the cache
/// and are no longer form a set of at most one.
pub proof fn lemma_lookup_evicts_at_most_one(
    before: CacheView,
    raw: Seq<char>,
    key: Seq<char>,
    after: CacheView,
)
    requires
        before.keys.dom().finite(),
        resolved(before, raw, key, after),
    ensures
        before.keys.dom().difference(after.keys.dom()).finite(),
        before.keys.dom().difference(after.keys.dom()).len() <= 1,
        after.keys.dom().subset_of(before.keys.dom().insert(text_hash(raw, before.seed))),
{
    let gone = before.keys.dom().difference(after.keys.dom());
    vstd::set_lib::lemma_len_difference(before.keys.dom(), after.keys.dom());
    if gone.len() > 0 {
        let one = gone.choose();
        assert(gone.contains(one));
        assert forall|other: u64| gone.contains(other) implies other == one by {
            assert(before.keys.contains_key(other) && !after.keys.contains_key(other));
            assert(before.keys.contains_key(one) && !after.keys.contains_key(one));
        }
        assert(gone =~= set![one]);
    }
    assert forall|hash: u64| after.keys.dom().contains(hash) implies before.keys.dom().insert(
        text_hash(raw, before.seed),
    ).contains(hash) by {
        assert(after.keys.contains_key(hash));
    }
}

/// A cache of keys under the hashes of their texts. It is made once and
/// handed to every decoding; it starts empty and never holds more than
/// [`SLOTS`] keys.
pub struct KeyCache {
    seed: u64,
    map: KeyMap,
}

impl View for KeyCache {
    type V = CacheView;

    closed spec fn view(&self) -> CacheView {
        CacheView {
            seed: self.seed,
            keys: Map::new(
                |hash: u64| cached(self.map).contains_key(hash),
                |hash: u64| cached(self.map)[hash].0,
            ),
        }
    }
}

impl Default for KeyCache {
    /// An empty cache that hashes under the seed zero.
    fn default() -> (cache: KeyCache)
        ensures
            cache.wf(),
            cache@.seed == 0,
            cache@.keys == Map::<u64, Seq<char>>::empty(),
    {
        KeyCache::new(0)
    }
}

impl KeyCache {
    /// True for a cache as [`KeyCache::new`] makes it and
    /// [`KeyCache::get_or_create`] leaves it: it holds at most [`SLOTS`]
    /// keys, each under the hash of its own text and each with the hash
    /// that belongs to it.
    pub closed spec fn wf(&self) -> bool {
        &&& bounded(cached(self.map))
        &&& forall|hash: u64| #[trigger]
            cached(self.map).contains_key(hash) ==> {
                &&& cached(self.map)[hash].1 == key_hash(cached(self.map)[hash].0)
                &&& text_hash(cached(self.map)[hash].0, self.seed) == hash
            }
    }

    /// A well-formed cache holds at most [`SLOTS`] keys, each under the
    /// hash of its own text.
    pub proof fn lemma_wf(&self)
        requires
            self.wf(),
        ensures
            self@.bounded(),
            self@.faithful(),
    {
        assert(self@.keys.dom() =~= cached(self.map).dom());
    }

    /// An empty cache that hashes under `seed`.
    pub fn new(seed: u64) -> (cache: KeyCache)
        ensures
            cache.wf(),
            cache@.seed == seed,
            cache@.keys == Map::<u64, Seq<char>>::empty(),
    {
        let cache = KeyCache { seed, map: key_map_new() };
        assert(cache@.keys =~= Map::<u64, Seq<char>>::empty());
        cache
    }

    /// The number of keys in the cache.
    pub fn len(&self) -> (len: usize)
        requires
            self.wf(),
        ensures
            self@.bounded(),
            len == self@.keys.dom().len(),
            len <= SLOTS,
    {
        proof {
            assert(self@.keys.dom() =~= cached(self.map).dom());
        }
        key_map_len(&self.map)
    }

    /// The key for `raw_key`: the one that the cache has under the hash of
    /// `raw_key`, or else a fresh one, which the cache takes in. A key that
    /// leaves the cache for the fresh one is released.
    pub fn get_or_create(&mut self, raw_key: &str) -> (key: Key)
        requires
            old(self).wf(),
        ensures
            final(self).wf(),
            resolved(old(self)@, raw_key@, key@, final(self)@),
            text_hash(key@, old(self)@.seed) == text_hash(raw_key@, old(self)@.seed),
            final(self)@.bounded(),
            final(self)@.faithful(),
    {
        let ghost before = cached(self.map);
        let hash = hash_text(raw_key, self.seed);
        match key_map_get(&self.map, hash) {
            Some(entry) => {
                proof {
                    assert(self@.keys.dom() =~= before.dom());
                }
                entry.get()
            },
            None => {
                let key = Key::new(raw_key);
                let replaced = key_map_insert(&mut self.map, hash, CachedKey::new(&key));
                proof {
                    let after = cached(self.map);
                    assert(self@.keys.dom() =~= after.dom());
                    assert(old(self)@.keys.dom() =~= before.dom());
                }
                key
            },
        }
    }
}

} // verus!
