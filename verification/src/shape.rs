//! What a decoding owes to the document alone, whatever the cache holds.

use crate::cache::{lemma_lookup_matches_hash, lemma_second_lookup_reuses, CacheView};
use crate::datum::{dict_insert, distinct_keys, lemma_insert_keeps_distinct, DatumView};
use crate::decode::{
    built, dict_of, items_built, key_resolved, leads, members_built, scalar, sets,
    MAX_CACHED_KEY_LEN,
};
use crate::hash::text_hash;
use crate::json::Json;
use vstd::prelude::*;
use vstd::utf8::encode_utf8;

verus! {

/// True when `key` can stand for the member name `name` in a cache that
/// hashes under `seed`: it has the hash of the name, and is the name itself
/// where the name is too long for the cache.
pub open spec fn key_alike(name: Seq<char>, key: Seq<char>, seed: u64) -> bool {
    &&& text_hash(key, seed) == text_hash(name, seed)
    &&& encode_utf8(name).len() > MAX_CACHED_KEY_LEN ==> key == name
}

/// True when `entries` are those of a map into which the keys were set to
/// the values one after the other.
pub open spec fn pairs(
    keys: Seq<Seq<char>>,
    values: Seq<DatumView>,
    entries: Seq<(Seq<char>, DatumView)>,
) -> bool {
    keys.len() == values.len() && entries == dict_of(keys, values)
}

/// True when `value` is what `tree` decodes to, up to the keys: a scalar
/// is decoded to itself, an array to the list of what its items decode to,
/// and an object to the map into which a key like each member's name was
/// set to what the member's value decodes to, one member after the other.
pub open spec fn alike(tree: Json, value: DatumView, seed: u64) -> bool
    decreases tree,
{
    match tree {
        Json::Array(items) => {
            &&& value matches DatumView::List(values)
            &&& values.len() == items.len()
            &&& forall|i: int| 0 <= i < items.len() ==> alike(#[trigger] items[i], values[i], seed)
        },
        Json::Object(members) => {
            &&& value matches DatumView::Dict(entries)
            &&& exists|keys: Seq<Seq<char>>, values: Seq<DatumView>| #[trigger]
                pairs(keys, values, entries) && members_alike(members, keys, values, seed)
        },
        _ => value == scalar(tree),
    }
}

/// True when each key is like the name of its member, and each value is
/// what the value of its member decodes to, up to the keys.
pub open spec fn members_alike(
    members: Seq<(Seq<char>, Json)>,
    keys: Seq<Seq<char>>,
    values: Seq<DatumView>,
    seed: u64,
) -> bool
    decreases members,
{
    &&& keys.len() == members.len()
    &&& values.len() == members.len()
    &&& forall|i: int|
        0 <= i < members.len() ==> key_alike((#[trigger] members[i]).0, keys[i], seed) && alike(
            members[i].1,
            values[i],
            seed,
        )
}

/// The key that is resolved for a name in a faithful cache is like the
/// name, and the cache stays faithful and keeps its seed.
pub proof fn lemma_key_resolved_alike(
    before: CacheView,
    name: Seq<char>,
    key: Seq<char>,
    after: CacheView,
)
    requires
        before.faithful(),
        key_resolved(before, name, key, after),
    ensures
        after.faithful(),
        after.seed == before.seed,
        key_alike(name, key, before.seed),
{
    if encode_utf8(name).len() <= MAX_CACHED_KEY_LEN {
        lemma_lookup_matches_hash(before, name, key, after);
    }
}

/// Decoding with a faithful cache gives what the document decodes to, up
/// to the keys, and leaves the cache faithful and with its seed: the cache
/// has a say in the keys only, and there only among texts of one hash.
pub proof fn lemma_built_alike(tree: Json, before: CacheView, value: DatumView, after: CacheView)
    requires
        before.faithful(),
        built(tree, before, value, after),
    ensures
        after.faithful(),
        after.seed == before.seed,
        alike(tree, value, before.seed),
    decreases tree, 0int,
{
    match tree {
        Json::Array(items) => {
            let values = value->List_0;
            let states = choose|states: Seq<CacheView>| #[trigger]
                leads(states, before, after) && items_built(items, states, values);
            lemma_items_alike(items, states, values, items.len() as int);
        },
        Json::Object(members) => {
            let entries = value->Dict_0;
            let (keys, values, mids, states) = choose|
                keys: Seq<Seq<char>>,
                values: Seq<DatumView>,
                mids: Seq<CacheView>,
                states: Seq<CacheView>,
            |
                #![trigger sets(keys, values, mids, entries), leads(states, before, after)]
                sets(keys, values, mids, entries) && leads(states, before, after) && members_built(
                    members,
                    states,
                    mids,
                    keys,
                    values,
                );
            lemma_members_alike(members, states, mids, keys, values, members.len() as int);
            assert(pairs(keys, values, entries));
            assert(members_alike(members, keys, values, before.seed));
        },
        _ => {},
    }
}

/// The first `upto` items of an array, decoded one after the other from a
/// faithful cache.
proof fn lemma_items_alike(
    items: Seq<Json>,
    states: Seq<CacheView>,
    values: Seq<DatumView>,
    upto: int,
)
    requires
        items_built(items, states, values),
        states[0].faithful(),
        0 <= upto <= items.len(),
    ensures
        forall|j: int|
            0 <= j <= upto ==> (#[trigger] states[j]).faithful() && states[j].seed == states[0].seed,
        forall|j: int| 0 <= j < upto ==> alike(#[trigger] items[j], values[j], states[0].seed),
    decreases items, upto,
{
    if upto > 0 {
        lemma_items_alike(items, states, values, upto - 1);
        let last = upto - 1;
        assert(built(items[last], states[last], values[last], states[last + 1]));
        assert(states[last].faithful());
        lemma_built_alike(items[last], states[last], values[last], states[last + 1]);
    }
}

/// The first `upto` members of an object, decoded one after the other from
/// a faithful cache.
proof fn lemma_members_alike(
    members: Seq<(Seq<char>, Json)>,
    states: Seq<CacheView>,
    mids: Seq<CacheView>,
    keys: Seq<Seq<char>>,
    values: Seq<DatumView>,
    upto: int,
)
    requires
        members_built(members, states, mids, keys, values),
        states[0].faithful(),
        0 <= upto <= members.len(),
    ensures
        forall|j: int|
            0 <= j <= upto ==> (#[trigger] states[j]).faithful() && states[j].seed == states[0].seed,
        forall|j: int|
            0 <= j < upto ==> key_alike((#[trigger] members[j]).0, keys[j], states[0].seed)
                && alike(members[j].1, values[j], states[0].seed),
    decreases members, upto,
{
    if upto > 0 {
        lemma_members_alike(members, states, mids, keys, values, upto - 1);
        let last = upto - 1;
        assert(key_resolved(states[last], members[last].0, keys[last], mids[last]));
        assert(built(members[last].1, mids[last], values[last], states[last + 1]));
        assert(states[last].faithful());
        lemma_key_resolved_alike(states[last], members[last].0, keys[last], mids[last]);
        lemma_built_alike(members[last].1, mids[last], values[last], states[last + 1]);
    }
}

/// A name of more than [`MAX_CACHED_KEY_LEN`] bytes never touches the
/// cache: its key is the name, and the cache stays as it is.
pub proof fn lemma_long_name_bypasses(
    before: CacheView,
    name: Seq<char>,
    key: Seq<char>,
    after: CacheView,
)
    requires
        encode_utf8(name).len() > MAX_CACHED_KEY_LEN,
        key_resolved(before, name, key, after),
    ensures
        key == name,
        after == before,
{
}

/// True when every member name in `tree`, at any depth, has more than
/// [`MAX_CACHED_KEY_LEN`] bytes.
pub open spec fn names_long(tree: Json) -> bool
    decreases tree,
{
    match tree {
        Json::Array(items) => forall|i: int|
            0 <= i < items.len() ==> names_long(#[trigger] items[i]),
        Json::Object(members) => forall|i: int|
            0 <= i < members.len() ==> encode_utf8((#[trigger] members[i]).0).len()
                > MAX_CACHED_KEY_LEN && names_long(members[i].1),
        _ => true,
    }
}

/// A document whose member names are all too long for the cache is decoded
/// without a touch of the cache.
pub proof fn lemma_long_names_leave_cache(
    tree: Json,
    before: CacheView,
    value: DatumView,
    after: CacheView,
)
    requires
        names_long(tree),
        built(tree, before, value, after),
    ensures
        after == before,
    decreases tree, 0int,
{
    match tree {
        Json::Array(items) => {
            let values = value->List_0;
            let states = choose|states: Seq<CacheView>| #[trigger]
                leads(states, before, after) && items_built(items, states, values);
            lemma_long_items(items, states, values, items.len() as int);
        },
        Json::Object(members) => {
            let entries = value->Dict_0;
            let (keys, values, mids, states) = choose|
                keys: Seq<Seq<char>>,
                values: Seq<DatumView>,
                mids: Seq<CacheView>,
                states: Seq<CacheView>,
            |
                #![trigger sets(keys, values, mids, entries), leads(states, before, after)]
                sets(keys, values, mids, entries) && leads(states, before, after) && members_built(
                    members,
                    states,
                    mids,
                    keys,
                    values,
                );
            lemma_long_members(members, states, mids, keys, values, members.len() as int);
        },
        _ => {},
    }
}

/// The first `upto` items of an array whose member names are all long.
proof fn lemma_long_items(
    items: Seq<Json>,
    states: Seq<CacheView>,
    values: Seq<DatumView>,
    upto: int,
)
    requires
        items_built(items, states, values),
        forall|i: int| 0 <= i < items.len() ==> names_long(#[trigger] items[i]),
        0 <= upto <= items.len(),
    ensures
        forall|j: int| 0 <= j <= upto ==> #[trigger] states[j] == states[0],
    decreases items, upto,
{
    if upto > 0 {
        lemma_long_items(items, states, values, upto - 1);
        let last = upto - 1;
        assert(built(items[last], states[last], values[last], states[last + 1]));
        lemma_long_names_leave_cache(items[last], states[last], values[last], states[last + 1]);
    }
}

/// The first `upto` members of an object whose member names are all long.
proof fn lemma_long_members(
    members: Seq<(Seq<char>, Json)>,
    states: Seq<CacheView>,
    mids: Seq<CacheView>,
    keys: Seq<Seq<char>>,
    values: Seq<DatumView>,
    upto: int,
)
    requires
        members_built(members, states, mids, keys, values),
        forall|i: int|
            0 <= i < members.len() ==> encode_utf8((#[trigger] members[i]).0).len()
                > MAX_CACHED_KEY_LEN && names_long(members[i].1),
        0 <= upto <= members.len(),
    ensures
        forall|j: int| 0 <= j <= upto ==> #[trigger] states[j] == states[0],
    decreases members, upto,
{
    if upto > 0 {
        lemma_long_members(members, states, mids, keys, values, upto - 1);
        let last = upto - 1;
        assert(key_resolved(states[last], members[last].0, keys[last], mids[last]));
        assert(built(members[last].1, mids[last], values[last], states[last + 1]));
        lemma_long_names_leave_cache(members[last].1, mids[last], values[last], states[last + 1]);
    }
}

/// What `tree` decodes to when every member gets a key of its own name.
pub open spec fn plain(tree: Json) -> DatumView
    decreases tree,
{
    match tree {
        Json::Array(items) => DatumView::List(
            Seq::new(
                items.len(),
                |i: int|
                    if 0 <= i < items.len() {
                        plain(items[i])
                    } else {
                        DatumView::Null
                    },
            ),
        ),
        Json::Object(members) => DatumView::Dict(
            dict_of(member_names(members), plain_values(members)),
        ),
        _ => scalar(tree),
    }
}

/// The names of the members, in order.
pub open spec fn member_names(members: Seq<(Seq<char>, Json)>) -> Seq<Seq<char>> {
    Seq::new(members.len(), |i: int| members[i].0)
}

/// What the values of the members decode to, in order.
pub open spec fn plain_values(members: Seq<(Seq<char>, Json)>) -> Seq<DatumView>
    decreases members,
{
    Seq::new(
        members.len(),
        |i: int|
            if 0 <= i < members.len() {
                plain(members[i].1)
            } else {
                DatumView::Null
            },
    )
}

/// True when every member name in `tree`, at any depth, is among `texts`.
pub open spec fn names_among(tree: Json, texts: Set<Seq<char>>) -> bool
    decreases tree,
{
    match tree {
        Json::Array(items) => forall|i: int|
            0 <= i < items.len() ==> names_among(#[trigger] items[i], texts),
        Json::Object(members) => forall|i: int|
            0 <= i < members.len() ==> texts.contains((#[trigger] members[i]).0) && names_among(
                members[i].1,
                texts,
            ),
        _ => true,
    }
}

/// True when every key in the cache is among `texts`.
pub open spec fn cached_among(cache: CacheView, texts: Set<Seq<char>>) -> bool {
    forall|hash: u64| #[trigger] cache.keys.contains_key(hash) ==> texts.contains(cache.keys[hash])
}

/// True when no two of `texts` have the same hash under `seed`.
pub open spec fn collision_free(texts: Set<Seq<char>>, seed: u64) -> bool {
    forall|one: Seq<char>, other: Seq<char>|
        texts.contains(one) && texts.contains(other) && #[trigger] text_hash(one, seed)
            == #[trigger] text_hash(other, seed) ==> one == other
}

/// Among texts of which no two have the same hash, the key that is
/// resolved for a name is the name.
pub proof fn lemma_key_resolved_exact(
    before: CacheView,
    name: Seq<char>,
    key: Seq<char>,
    after: CacheView,
    texts: Set<Seq<char>>,
)
    requires
        before.faithful(),
        cached_among(before, texts),
        texts.contains(name),
        collision_free(texts, before.seed),
        key_resolved(before, name, key, after),
    ensures
        key == name,
        after.faithful(),
        after.seed == before.seed,
        cached_among(after, texts),
{
    lemma_key_resolved_alike(before, name, key, after);
    if encode_utf8(name).len() <= MAX_CACHED_KEY_LEN {
        let hash = text_hash(name, before.seed);
        if before.keys.contains_key(hash) {
            assert(texts.contains(key));
        } else {
            assert forall|other: u64| #[trigger] after.keys.contains_key(other) implies texts.contains(
                after.keys[other],
            ) by {
                if other != hash {
                    assert(before.keys.contains_key(other));
                }
            }
        }
    }
}

/// Among texts of which no two have the same hash, what a document decodes
/// to is owed to the document alone: whatever the cache holds, every member
/// has a key of its own name.
pub proof fn lemma_built_plain(
    tree: Json,
    before: CacheView,
    value: DatumView,
    after: CacheView,
    texts: Set<Seq<char>>,
)
    requires
        before.faithful(),
        cached_among(before, texts),
        names_among(tree, texts),
        collision_free(texts, before.seed),
        built(tree, before, value, after),
    ensures
        value == plain(tree),
        after.faithful(),
        after.seed == before.seed,
        cached_among(after, texts),
    decreases tree, 0int,
{
    match tree {
        Json::Array(items) => {
            let values = value->List_0;
            let states = choose|states: Seq<CacheView>| #[trigger]
                leads(states, before, after) && items_built(items, states, values);
            lemma_plain_items(items, states, values, texts, items.len() as int);
            assert(values =~= plain(tree)->List_0);
        },
        Json::Object(members) => {
            let entries = value->Dict_0;
            let (keys, values, mids, states) = choose|
                keys: Seq<Seq<char>>,
                values: Seq<DatumView>,
                mids: Seq<CacheView>,
                states: Seq<CacheView>,
            |
                #![trigger sets(keys, values, mids, entries), leads(states, before, after)]
                sets(keys, values, mids, entries) && leads(states, before, after) && members_built(
                    members,
                    states,
                    mids,
                    keys,
                    values,
                );
            lemma_plain_members(members, states, mids, keys, values, texts, members.len() as int);
            assert(keys =~= member_names(members));
            assert(values =~= plain_values(members));
        },
        _ => {},
    }
}

/// The first `upto` items of an array, decoded among texts of which no two
/// have the same hash.
proof fn lemma_plain_items(
    items: Seq<Json>,
    states: Seq<CacheView>,
    values: Seq<DatumView>,
    texts: Set<Seq<char>>,
    upto: int,
)
    requires
        items_built(items, states, values),
        states[0].faithful(),
        cached_among(states[0], texts),
        collision_free(texts, states[0].seed),
        forall|i: int| 0 <= i < items.len() ==> names_among(#[trigger] items[i], texts),
        0 <= upto <= items.len(),
    ensures
        forall|j: int|
            0 <= j <= upto ==> (#[trigger] states[j]).faithful() && states[j].seed == states[0].seed
                && cached_among(states[j], texts),
        forall|j: int| 0 <= j < upto ==> #[trigger] values[j] == plain(items[j]),
    decreases items, upto,
{
    if upto > 0 {
        lemma_plain_items(items, states, values, texts, upto - 1);
        let last = upto - 1;
        assert(built(items[last], states[last], values[last], states[last + 1]));
        assert(states[last].faithful());
        lemma_built_plain(items[last], states[last], values[last], states[last + 1], texts);
    }
}

/// The first `upto` members of an object, decoded among texts of which no
/// two have the same hash.
proof fn lemma_plain_members(
    members: Seq<(Seq<char>, Json)>,
    states: Seq<CacheView>,
    mids: Seq<CacheView>,
    keys: Seq<Seq<char>>,
    values: Seq<DatumView>,
    texts: Set<Seq<char>>,
    upto: int,
)
    requires
        members_built(members, states, mids, keys, values),
        states[0].faithful(),
        cached_among(states[0], texts),
        collision_free(texts, states[0].seed),
        forall|i: int|
            0 <= i < members.len() ==> texts.contains((#[trigger] members[i]).0) && names_among(
                members[i].1,
                texts,
            ),
        0 <= upto <= members.len(),
    ensures
        forall|j: int|
            0 <= j <= upto ==> (#[trigger] states[j]).faithful() && states[j].seed == states[0].seed
                && cached_among(states[j], texts),
        forall|j: int|
            0 <= j < upto ==> #[trigger] keys[j] == members[j].0 && values[j] == plain(
                members[j].1,
            ),
    decreases members, upto,
{
    if upto > 0 {
        lemma_plain_members(members, states, mids, keys, values, texts, upto - 1);
        let last = upto - 1;
        assert(key_resolved(states[last], members[last].0, keys[last], mids[last]));
        assert(built(members[last].1, mids[last], values[last], states[last + 1]));
        assert(states[last].faithful());
        lemma_key_resolved_exact(states[last], members[last].0, keys[last], mids[last], texts);
        lemma_built_plain(members[last].1, mids[last], values[last], states[last + 1], texts);
    }
}

/// Among texts of which no two have the same hash, a document decodes to
/// the same value again, whatever went through the cache in between.
pub proof fn lemma_decoding_repeats(
    tree: Json,
    first_before: CacheView,
    first: DatumView,
    first_after: CacheView,
    second_before: CacheView,
    second: DatumView,
    second_after: CacheView,
    texts: Set<Seq<char>>,
)
    requires
        first_before.faithful(),
        second_before.faithful(),
        first_before.seed == second_before.seed,
        cached_among(first_before, texts),
        cached_among(second_before, texts),
        names_among(tree, texts),
        collision_free(texts, first_before.seed),
        built(tree, first_before, first, first_after),
        built(tree, second_before, second, second_after),
    ensures
        second == first,
{
    lemma_built_plain(tree, first_before, first, first_after, texts);
    lemma_built_plain(tree, second_before, second, second_after, texts);
}

/// What an object of one member decodes to: a map of one entry, whose key
/// is resolved first and whose value is decoded then.
pub proof fn lemma_single_member(
    name: Seq<char>,
    below: Json,
    before: CacheView,
    value: DatumView,
    after: CacheView,
) -> (step: (Seq<char>, DatumView, CacheView))
    requires
        built(Json::Object(seq![(name, below)]), before, value, after),
    ensures
        value == DatumView::Dict(seq![(step.0, step.1)]),
        key_resolved(before, name, step.0, step.2),
        built(below, step.2, step.1, after),
{
    let members = seq![(name, below)];
    let entries = value->Dict_0;
    let (keys, values, mids, states) = choose|
        keys: Seq<Seq<char>>,
        values: Seq<DatumView>,
        mids: Seq<CacheView>,
        states: Seq<CacheView>,
    |
        #![trigger sets(keys, values, mids, entries), leads(states, before, after)]
        sets(keys, values, mids, entries) && leads(states, before, after) && members_built(
            members,
            states,
            mids,
            keys,
            values,
        );
    assert(members[0] == (name, below));
    assert(key_resolved(states[0], members[0].0, keys[0], mids[0]));
    assert(built(members[0].1, mids[0], values[0], states[1]));
    reveal_with_fuel(dict_of, 2);
    assert(keys.drop_last().len() == 0);
    assert(dict_of(keys, values) =~= seq![(keys[0], values[0])]);
    (keys[0], values[0], mids[0])
}

/// Two objects that have a member of the same short name, decoded one
/// after the other, get the same key for it: the second decoding takes the
/// key that the first one left in the cache, and leaves the cache as it
/// found it. The values of the two members are taken to hold no short names
/// of their own, so that nothing else goes through the cache.
pub proof fn lemma_shared_name_reuses_key(
    name: Seq<char>,
    first_below: Json,
    second_below: Json,
    before: CacheView,
    first: DatumView,
    between: CacheView,
    second: DatumView,
    after: CacheView,
)
    requires
        encode_utf8(name).len() <= MAX_CACHED_KEY_LEN,
        names_long(first_below),
        names_long(second_below),
        built(Json::Object(seq![(name, first_below)]), before, first, between),
        built(Json::Object(seq![(name, second_below)]), between, second, after),
    ensures
        first is Dict && second is Dict,
        first->Dict_0.len() == 1 && second->Dict_0.len() == 1,
        second->Dict_0[0].0 == first->Dict_0[0].0,
        after == between,
{
    let one = lemma_single_member(name, first_below, before, first, between);
    lemma_long_names_leave_cache(first_below, one.2, one.1, between);
    let other = lemma_single_member(name, second_below, between, second, after);
    lemma_long_names_leave_cache(second_below, other.2, other.1, after);
    lemma_second_lookup_reuses(before, name, one.0, between, other.0, after);
}

/// The keys of a map that was filled key by key are distinct.
pub proof fn lemma_dict_of_distinct(keys: Seq<Seq<char>>, values: Seq<DatumView>)
    ensures
        distinct_keys(dict_of(keys, values)),
    decreases keys.len(),
{
    if keys.len() > 0 {
        lemma_dict_of_distinct(keys.drop_last(), values.drop_last());
        lemma_insert_keeps_distinct(
            dict_of(keys.drop_last(), values.drop_last()),
            keys.last(),
            values.last(),
        );
    }
}

} // verus!
