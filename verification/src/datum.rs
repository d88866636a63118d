//! The values that a JSON document decodes to.

use crate::hash::{hash_text, same_text, text_hash};
use std::sync::Arc;
use vstd::prelude::*;

verus! {

/// The seed under which the hash of a key is taken.
pub const KEY_HASH_SEED: u64 = 0;

/// The hash that belongs to a key of the given text.
pub open spec fn key_hash(text: Seq<char>) -> u64 {
    text_hash(text, KEY_HASH_SEED)
}

/// `Arc::clone`: another pointer to the same text.
#[verifier::external_body]
fn arc_clone(text: &Arc<String>) -> (shared: Arc<String>)
    ensures
        shared == *text,
{
    Arc::clone(text)
}

/// The key of a map entry: a shared text with its hash, which is computed
/// once, when the key is made.
#[derive(Debug, PartialEq, Eq)]
pub struct Key {
    text: Arc<String>,
    hash: u64,
}

impl View for Key {
    type V = Seq<char>;

    closed spec fn view(&self) -> Seq<char> {
        (*self.text)@
    }
}

impl Key {
    #[verifier::type_invariant]
    spec fn hash_is_of_text(&self) -> bool {
        self.hash == key_hash((*self.text)@)
    }

    /// A fresh key of the given text.
    pub fn new(text: &str) -> (key: Key)
        ensures
            key@ == text@,
    {
        let hash = hash_text(text, KEY_HASH_SEED);
        Key { text: Arc::new(text.to_owned()), hash }
    }

    /// A new reference to this key: the same text, and the hash that was
    /// computed for it.
    pub fn get(&self) -> (key: Key)
        ensures
            key@ == self@,
    {
        proof {
            use_type_invariant(self);
        }
        Key { text: arc_clone(&self.text), hash: self.hash }
    }

    /// The shared text of this key and its hash.
    pub(crate) fn parts(&self) -> (parts: (Arc<String>, u64))
        ensures
            (*parts.0)@ == self@,
            parts.1 == key_hash(self@),
    {
        proof {
            use_type_invariant(self);
        }
        (arc_clone(&self.text), self.hash)
    }

    /// A key of a text that is shared already, with the hash that was
    /// computed for it.
    pub(crate) fn from_parts(text: Arc<String>, hash: u64) -> (key: Key)
        requires
            hash == key_hash((*text)@),
        ensures
            key@ == (*text)@,
    {
        Key { text, hash }
    }

    /// The text of this key.
    pub fn as_str(&self) -> (text: &str)
        ensures
            text@ == self@,
    {
        self.text.as_str()
    }

    /// The hash of this key.
    pub fn hash(&self) -> (hash: u64)
        ensures
            hash == key_hash(self@),
    {
        proof {
            use_type_invariant(self);
        }
        self.hash
    }

    /// Tells whether two keys have the same text. Keys of different hashes
    /// are told apart without a look at their text.
    pub fn same(&self, other: &Key) -> (same: bool)
        ensures
            same == (self@ == other@),
    {
        proof {
            use_type_invariant(self);
            use_type_invariant(other);
        }
        self.hash == other.hash && same_text(self.text.as_str(), other.text.as_str())
    }
}

/// A decoded value.
#[derive(Debug, PartialEq)]
pub enum Datum {
    Null,
    Bool(bool),
    /// An integer that fits sixty-four bits with a sign.
    Int(i64),
    /// An integer above the signed range.
    UInt(u64),
    /// A double-precision number, held as its bits.
    Float(u64),
    Str(String),
    List(Vec<Datum>),
    Dict(Dict),
}

/// A map from keys to values that keeps its entries in the order in which
/// their keys first came.
#[derive(Debug, PartialEq)]
pub struct Dict {
    entries: Vec<(Key, Datum)>,
}

/// What a [`Datum`] stands for. The two kinds of integer are one here, and
/// a key is its text.
pub enum DatumView {
    Null,
    Bool(bool),
    Int(int),
    Float(u64),
    Str(Seq<char>),
    List(Seq<DatumView>),
    Dict(Seq<(Seq<char>, DatumView)>),
}

impl View for Datum {
    type V = DatumView;

    open spec fn view(&self) -> DatumView {
        datum_view(*self)
    }
}

impl View for Dict {
    type V = Seq<(Seq<char>, DatumView)>;

    open spec fn view(&self) -> Seq<(Seq<char>, DatumView)> {
        dict_view(*self)
    }
}

/// What `value` stands for.
pub open spec fn datum_view(value: Datum) -> DatumView
    decreases value,
{
    match value {
        Datum::Null => DatumView::Null,
        Datum::Bool(b) => DatumView::Bool(b),
        Datum::Int(i) => DatumView::Int(i as int),
        Datum::UInt(u) => DatumView::Int(u as int),
        Datum::Float(bits) => DatumView::Float(bits),
        Datum::Str(s) => DatumView::Str(s@),
        Datum::List(items) => DatumView::List(
            Seq::new(
                items@.len(),
                |i: int|
                    if 0 <= i < items@.len() {
                        datum_view(items@[i])
                    } else {
                        DatumView::Null
                    },
            ),
        ),
        Datum::Dict(dict) => DatumView::Dict(dict_view(dict)),
    }
}

/// The entries of `dict`: the text of each key with what its value stands
/// for, in order.
pub closed spec fn dict_view(dict: Dict) -> Seq<(Seq<char>, DatumView)>
    decreases dict,
{
    Seq::new(
        dict.entries@.len(),
        |i: int|
            if 0 <= i < dict.entries@.len() {
                (dict.entries@[i].0@, datum_view(dict.entries@[i].1))
            } else {
                (Seq::<char>::empty(), DatumView::Null)
            },
    )
}

/// True when every integer in `value` is held in the signed kind where it
/// fits, and in the unsigned kind only above that.
pub open spec fn canonical(value: Datum) -> bool
    decreases value,
{
    match value {
        Datum::UInt(u) => u > i64::MAX,
        Datum::List(items) => forall|i: int|
            0 <= i < items@.len() ==> canonical(#[trigger] items@[i]),
        Datum::Dict(dict) => dict_canonical(dict),
        _ => true,
    }
}

/// True when every value in `dict` is canonical.
pub closed spec fn dict_canonical(dict: Dict) -> bool
    decreases dict,
{
    forall|i: int| 0 <= i < dict.entries@.len() ==> canonical((#[trigger] dict.entries@[i]).1)
}

/// The place of the first entry with the given key at or after `from`, or
/// the number of entries where there is none.
pub open spec fn index_of(entries: Seq<(Seq<char>, DatumView)>, key: Seq<char>, from: int) -> int
    decreases entries.len() - from,
{
    if from < 0 || from >= entries.len() {
        entries.len() as int
    } else if entries[from].0 == key {
        from
    } else {
        index_of(entries, key, from + 1)
    }
}

/// The entries after `key` was set to `value`: the value of the entry with
/// that key is replaced where there is one, and a new entry is put at the
/// end where there is none.
pub open spec fn dict_insert(
    entries: Seq<(Seq<char>, DatumView)>,
    key: Seq<char>,
    value: DatumView,
) -> Seq<(Seq<char>, DatumView)> {
    let at = index_of(entries, key, 0);
    if at < entries.len() {
        entries.update(at, (key, value))
    } else {
        entries.push((key, value))
    }
}

/// True when no two entries have the same key.
pub open spec fn distinct_keys(entries: Seq<(Seq<char>, DatumView)>) -> bool {
    forall|i: int, j: int|
        0 <= i < j < entries.len() ==> (#[trigger] entries[i]).0 != (#[trigger] entries[j]).0
}

/// Where the search from `from` ends: at an entry with the key, before
/// which none has it, or at the end, before which none has it.
pub proof fn lemma_index_of(entries: Seq<(Seq<char>, DatumView)>, key: Seq<char>, from: int)
    requires
        0 <= from <= entries.len(),
    ensures
        from <= index_of(entries, key, from) <= entries.len(),
        index_of(entries, key, from) < entries.len() ==> entries[index_of(entries, key, from)].0
            == key,
        forall|j: int| from <= j < index_of(entries, key, from) ==> (#[trigger] entries[j]).0 != key,
    decreases entries.len() - from,
{
    if from < entries.len() && entries[from].0 != key {
        lemma_index_of(entries, key, from + 1);
    }
}

/// Setting a key keeps the keys distinct.
pub proof fn lemma_insert_keeps_distinct(
    entries: Seq<(Seq<char>, DatumView)>,
    key: Seq<char>,
    value: DatumView,
)
    requires
        distinct_keys(entries),
    ensures
        distinct_keys(dict_insert(entries, key, value)),
{
    lemma_index_of(entries, key, 0);
    let after = dict_insert(entries, key, value);
    let at = index_of(entries, key, 0);
    assert forall|i: int, j: int| 0 <= i < j < after.len() implies (#[trigger] after[i]).0 != (
    #[trigger] after[j]).0 by {
        if at < entries.len() {
            assert(after[i].0 == entries[i].0);
            assert(after[j].0 == entries[j].0);
        } else if j < entries.len() {
            assert(after[i] == entries[i]);
            assert(after[j] == entries[j]);
        } else {
            assert(after[i] == entries[i]);
        }
    }
}

impl Dict {
    /// A map without entries.
    pub fn new() -> (dict: Dict)
        ensures
            dict@ == Seq::<(Seq<char>, DatumView)>::empty(),
            dict_canonical(dict),
    {
        let dict = Dict { entries: Vec::new() };
        assert(dict@ =~= Seq::<(Seq<char>, DatumView)>::empty());
        dict
    }

    /// The number of entries.
    pub fn len(&self) -> (len: usize)
        ensures
            len == self@.len(),
    {
        self.entries.len()
    }

    /// The key of the entry at `index`.
    pub fn key(&self, index: usize) -> (key: &Key)
        requires
            index < self@.len(),
        ensures
            key@ == self@[index as int].0,
    {
        &self.entries[index].0
    }

    /// The value of the entry at `index`.
    pub fn value(&self, index: usize) -> (value: &Datum)
        requires
            index < self@.len(),
        ensures
            value@ == self@[index as int].1,
            dict_canonical(*self) ==> canonical(*value),
    {
        &self.entries[index].1
    }

    /// Sets `key` to `value`. The hash that the key brings is compared
    /// before any text is. An entry that has the key keeps its place and
    /// its own key, and takes the value; else a new entry is put at the end.
    pub fn insert(&mut self, key: Key, value: Datum)
        ensures
            final(self)@ == dict_insert(old(self)@, key@, value@),
            dict_canonical(*old(self)) && canonical(value) ==> dict_canonical(*final(self)),
    {
        let ghost before = self@;
        let mut at: usize = 0;
        let mut found = false;
        while at < self.entries.len() && !found
            invariant
                *self == *old(self),
                at <= self.entries@.len(),
                index_of(before, key@, 0) == index_of(before, key@, at as int),
                before == self@,
                found ==> at < self.entries@.len() && before[at as int].0 == key@,
            decreases self.entries@.len() - at + if found { 0int } else { 1int },
        {
            if self.entries[at].0.same(&key) {
                found = true;
            } else {
                at = at + 1;
            }
        }
        if found {
            assert(index_of(before, key@, 0) == at);
            let slot = &mut self.entries[at];
            slot.1 = value;
            assert(self@ =~= dict_insert(before, key@, value@));
        } else {
            self.entries.push((key, value));
            assert(self@ =~= dict_insert(before, key@, value@));
        }
    }
}

} // verus!
