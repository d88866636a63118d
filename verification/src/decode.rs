//! The decode engine: from input to a tree of values.

use crate::cache::{resolved, CacheView, KeyCache};
use crate::datum::{canonical, dict_canonical, dict_insert, Datum, DatumView, Dict, Key};
use crate::elements::ElementBuffer;
use crate::error::{input_type_error, invalid_string_error, syntax_error, DecodeError, DecodeErrorView};
use crate::json::{json_document, parse, Json, Node};
use vstd::prelude::*;
use vstd::string::StringSliceAdditionalSpecFns;
use vstd::utf8::{decode_utf8, encode_utf8, valid_utf8};

verus! {

/// The longest key, in bytes, that goes through the cache.
pub const MAX_CACHED_KEY_LEN: usize = 64;

/// How the key of a member comes about. A text of more than
/// [`MAX_CACHED_KEY_LEN`] bytes gets a fresh key and the cache is not
/// touched; a shorter one is looked up in the cache.
pub open spec fn key_resolved(
    before: CacheView,
    raw: Seq<char>,
    key: Seq<char>,
    after: CacheView,
) -> bool {
    if encode_utf8(raw).len() > MAX_CACHED_KEY_LEN {
        key == raw && after == before
    } else {
        resolved(before, raw, key, after)
    }
}

/// The entries of a map into which the keys were set to the values one
/// after the other.
pub open spec fn dict_of(keys: Seq<Seq<char>>, values: Seq<DatumView>) -> Seq<
    (Seq<char>, DatumView),
>
    decreases keys.len(),
{
    if keys.len() == 0 {
        Seq::empty()
    } else {
        dict_insert(dict_of(keys.drop_last(), values.drop_last()), keys.last(), values.last())
    }
}

/// True when the states of the cache lead from `before` to `after`.
pub open spec fn leads(states: Seq<CacheView>, before: CacheView, after: CacheView) -> bool {
    states.len() >= 1 && states.first() == before && states.last() == after
}

/// True when `entries` are those of a map into which the keys were set to
/// the values one after the other, with one state of the cache between each
/// key and its value.
pub open spec fn sets(
    keys: Seq<Seq<char>>,
    values: Seq<DatumView>,
    mids: Seq<CacheView>,
    entries: Seq<(Seq<char>, DatumView)>,
) -> bool {
    keys.len() == values.len() && keys.len() == mids.len() && entries == dict_of(keys, values)
}

/// What a document without parts decodes to.
pub open spec fn scalar(tree: Json) -> DatumView {
    match tree {
        Json::Bool(b) => DatumView::Bool(b),
        Json::Unsigned(u) => DatumView::Int(u as int),
        Json::Signed(i) => DatumView::Int(i as int),
        Json::Float(bits) => DatumView::Float(bits),
        Json::Text(s) => DatumView::Str(s),
        _ => DatumView::Null,
    }
}

/// True when decoding `tree` with a cache in the state `before` gives
/// `value` and leaves the cache in the state `after`.
///
/// A document without parts gives its scalar and leaves the cache alone.
/// An array gives the list of what its items give, decoded one after the
/// other. An object gives the map into which, for one member after the
/// other, the key that [`key_resolved`] tells of was set to what the
/// member's value gives; the key is resolved before the value is decoded.
pub open spec fn built(tree: Json, before: CacheView, value: DatumView, after: CacheView) -> bool
    decreases tree,
{
    match tree {
        Json::Array(items) => {
            &&& value matches DatumView::List(values)
            &&& exists|states: Seq<CacheView>| #[trigger]
                leads(states, before, after) && items_built(items, states, values)
        },
        Json::Object(members) => {
            &&& value matches DatumView::Dict(entries)
            &&& exists|
                keys: Seq<Seq<char>>,
                values: Seq<DatumView>,
                mids: Seq<CacheView>,
                states: Seq<CacheView>,
            |
                #![trigger sets(keys, values, mids, entries), leads(states, before, after)]
                sets(keys, values, mids, entries) && leads(states, before, after) && members_built(
                    members,
                    states,
                    mids,
                    keys,
                    values,
                )
        },
        _ => value == scalar(tree) && after == before,
    }
}

/// True when each item, decoded with the cache in the state before it,
/// gives its value and leaves the cache in the state after it.
pub open spec fn items_built(
    items: Seq<Json>,
    states: Seq<CacheView>,
    values: Seq<DatumView>,
) -> bool
    decreases items,
{
    &&& states.len() == items.len() + 1
    &&& values.len() == items.len()
    &&& forall|i: int|
        0 <= i < items.len() ==> built(#[trigger] items[i], states[i], values[i], states[i + 1])
}

/// True when, for each member, the key is resolved with the cache in the
/// state before the member, and the value is then decoded, which leaves the
/// cache in the state after the member.
pub open spec fn members_built(
    members: Seq<(Seq<char>, Json)>,
    states: Seq<CacheView>,
    mids: Seq<CacheView>,
    keys: Seq<Seq<char>>,
    values: Seq<DatumView>,
) -> bool
    decreases members,
{
    &&& states.len() == members.len() + 1
    &&& mids.len() == members.len()
    &&& keys.len() == members.len()
    &&& values.len() == members.len()
    &&& forall|i: int|
        0 <= i < members.len() ==> key_resolved(
            states[i],
            (#[trigger] members[i]).0,
            keys[i],
            mids[i],
        ) && built(members[i].1, mids[i], values[i], states[i + 1])
}

/// The key for the member name `raw_key`: a fresh one for a name of more
/// than [`MAX_CACHED_KEY_LEN`] bytes, and else the one that the cache has
/// or makes for it.
pub fn resolve_key(cache: &mut KeyCache, raw_key: &str) -> (key: Key)
    requires
        old(cache).wf(),
    ensures
        final(cache).wf(),
        key_resolved(old(cache)@, raw_key@, key@, final(cache)@),
{
    if raw_key.as_bytes().len() > MAX_CACHED_KEY_LEN {
        Key::new(raw_key)
    } else {
        cache.get_or_create(raw_key)
    }
}

/// Decodes a document into a value. A scalar gives its value, with an
/// integer in the signed kind where it fits; the items of an array are
/// gathered and made a list; the members of an object are set into a map
/// one after the other, each under the key that [`resolve_key`] gives for
/// its name.
pub fn build(node: &Node, cache: &mut KeyCache) -> (value: Datum)
    requires
        old(cache).wf(),
    ensures
        final(cache).wf(),
        built(node@, old(cache)@, value@, final(cache)@),
        canonical(value),
    decreases node,
{
    match node {
        Node::Null => Datum::Null,
        Node::Bool(b) => Datum::Bool(*b),
        Node::Unsigned(u) => {
            if *u <= i64::MAX as u64 {
                Datum::Int(*u as i64)
            } else {
                Datum::UInt(*u)
            }
        },
        Node::Signed(i) => Datum::Int(*i),
        Node::Float(bits) => Datum::Float(*bits),
        Node::Text(s) => Datum::Str(s.clone()),
        Node::Array(items) => {
            let ghost trees = node@->Array_0;
            let mut elements = ElementBuffer::new();
            let ghost mut states: Seq<CacheView> = seq![cache@];
            let mut i: usize = 0;
            while i < items.len()
                invariant
                    cache.wf(),
                    i <= items@.len(),
                    trees.len() == items@.len(),
                    forall|j: int| 0 <= j < items@.len() ==> trees[j] == (#[trigger] items@[j])@,
                    forall|j: int| 0 <= j < items@.len() ==> decreases_to!(node => #[trigger] items@[j]),
                    elements@.len() == i,
                    forall|j: int| 0 <= j < i ==> canonical(#[trigger] elements@[j]),
                    states.len() == i + 1,
                    states[0] == old(cache)@,
                    states[i as int] == cache@,
                    forall|j: int|
                        0 <= j < i ==> built(
                            #[trigger] trees[j],
                            states[j],
                            elements@[j]@,
                            states[j + 1],
                        ),
                decreases items@.len() - i,
            {
                let value = build(&items[i], cache);
                elements.push(value);
                proof {
                    states = states.push(cache@);
                }
                i = i + 1;
            }
            let list = Datum::List(elements.into_vec());
            proof {
                let values = list@->List_0;
                assert(values.len() == trees.len());
                assert forall|j: int| 0 <= j < trees.len() implies built(
                    #[trigger] trees[j],
                    states[j],
                    values[j],
                    states[j + 1],
                ) by {
                    assert(values[j] == elements@[j]@);
                }
                assert(items_built(trees, states, values));
                assert(leads(states, old(cache)@, cache@));
            }
            list
        },
        Node::Object(members) => {
            let ghost trees = node@->Object_0;
            let mut dict = Dict::new();
            let ghost mut states: Seq<CacheView> = seq![cache@];
            let ghost mut mids: Seq<CacheView> = Seq::empty();
            let ghost mut keys: Seq<Seq<char>> = Seq::empty();
            let ghost mut values: Seq<DatumView> = Seq::empty();
            let mut i: usize = 0;
            while i < members.len()
                invariant
                    cache.wf(),
                    i <= members@.len(),
                    trees.len() == members@.len(),
                    forall|j: int|
                        0 <= j < members@.len() ==> trees[j] == ((#[trigger] members@[j]).0@, members@[j].1@),
                    forall|j: int|
                        0 <= j < members@.len() ==> decreases_to!(node => (#[trigger] members@[j]).1),
                    states.len() == i + 1,
                    mids.len() == i,
                    keys.len() == i,
                    values.len() == i,
                    states[0] == old(cache)@,
                    states[i as int] == cache@,
                    dict@ == dict_of(keys, values),
                    dict_canonical(dict),
                    forall|j: int|
                        0 <= j < i ==> key_resolved(
                            states[j],
                            (#[trigger] trees[j]).0,
                            keys[j],
                            mids[j],
                        ) && built(trees[j].1, mids[j], values[j], states[j + 1]),
                decreases members@.len() - i,
            {
                let key = resolve_key(cache, members[i].0.as_str());
                let ghost mid = cache@;
                let value = build(&members[i].1, cache);
                proof {
                    let ghost_keys = keys.push(key@);
                    let ghost_values = values.push(value@);
                    assert(ghost_keys.drop_last() =~= keys);
                    assert(ghost_values.drop_last() =~= values);
                    states = states.push(cache@);
                    mids = mids.push(mid);
                    keys = ghost_keys;
                    values = ghost_values;
                }
                dict.insert(key, value);
                i = i + 1;
            }
            let map = Datum::Dict(dict);
            proof {
                assert(members_built(trees, states, mids, keys, values));
                assert(leads(states, old(cache)@, cache@));
                assert(sets(keys, values, mids, map@->Dict_0));
            }
            map
        },
    }
}

/// What is handed in for decoding.
#[derive(Clone, Copy, Debug, PartialEq, Eq)]
pub enum Input<'a> {
    /// A text, with its UTF-8 form where it has one. A text that holds
    /// half of a surrogate pair has none.
    Str(Option<&'a str>),
    /// Bytes that cannot change.
    Bytes(&'a [u8]),
    /// Bytes of a buffer that can.
    ByteArray(&'a [u8]),
    /// Anything else.
    Other,
}

/// The text that an input holds, or the error that the input is refused
/// with: text or bytes that are not well-formed UTF-8 up to their end are
/// an invalid string, and what is neither text nor bytes is no input.
pub open spec fn input_text(input: Input) -> Result<Seq<char>, DecodeErrorView> {
    match input {
        Input::Str(Some(text)) => Ok(text@),
        Input::Str(None) => Err(invalid_string_error()),
        Input::Bytes(bytes) => if valid_utf8(bytes@) {
            Ok(decode_utf8(bytes@))
        } else {
            Err(invalid_string_error())
        },
        Input::ByteArray(bytes) => if valid_utf8(bytes@) {
            Ok(decode_utf8(bytes@))
        } else {
            Err(invalid_string_error())
        },
        Input::Other => Err(input_type_error()),
    }
}

/// What a decoding gave, as what it stands for.
pub open spec fn outcome(decoded: Result<Datum, DecodeError>) -> Result<DatumView, DecodeErrorView> {
    match decoded {
        Ok(value) => Ok(value@),
        Err(error) => Err(error@),
    }
}

/// True when decoding `input` with a cache in the state `before` gives
/// `decoded` and leaves the cache in the state `after`.
///
/// An input that is refused gives its error. A text that the parser
/// refuses gives a syntax error with the parser's message. Either leaves
/// the cache as it was. Any other text gives what its document decodes to.
pub open spec fn deserialized(
    input: Input,
    before: CacheView,
    decoded: Result<DatumView, DecodeErrorView>,
    after: CacheView,
) -> bool {
    match document(input) {
        Err(error) => decoded == Err::<DatumView, DecodeErrorView>(error) && after == before,
        Ok(tree) => decoded matches Ok(value) && built(tree, before, value, after),
    }
}

/// Bytes that hold a byte from 0xF8 up are not well-formed UTF-8, wherever
/// that byte stands.
pub proof fn lemma_stray_byte_is_malformed(bytes: Seq<u8>, at: int)
    requires
        0 <= at < bytes.len(),
        bytes[at] >= 0xf8,
    ensures
        !valid_utf8(bytes),
    decreases bytes.len(),
{
    if valid_utf8(bytes) {
        let first = vstd::utf8::length_of_first_scalar(bytes);
        assert(vstd::utf8::valid_first_scalar(bytes));
        assert(1 <= first <= 4 && first <= bytes.len());
        if at >= first {
            let rest = vstd::utf8::pop_first_scalar(bytes);
            assert(rest[at - first] == bytes[at]);
            lemma_stray_byte_is_malformed(rest, at - first);
        }
    }
}

/// Bytes that are not well-formed UTF-8 are refused as an invalid string,
/// be they bytes or a byte array, and wherever the fault lies in them: at
/// a byte from 0xF8 up in any place, for one.
pub proof fn lemma_invalid_bytes_refused(bytes: &[u8], at: int)
    ensures
        !valid_utf8(bytes@) ==> document(Input::Bytes(bytes)) == Err::<Json, DecodeErrorView>(
            invalid_string_error(),
        ) && document(Input::ByteArray(bytes)) == Err::<Json, DecodeErrorView>(
            invalid_string_error(),
        ),
        0 <= at < bytes@.len() && bytes@[at] >= 0xf8 ==> !valid_utf8(bytes@),
{
    if 0 <= at < bytes@.len() && bytes@[at] >= 0xf8 {
        lemma_stray_byte_is_malformed(bytes@, at);
    }
}

/// `encoding_rs::Encoding::utf8_valid_up_to`: the index of the first byte
/// that makes the input malformed as UTF-8, which is the length of the
/// input exactly when all of it is well-formed.
#[verifier::external_body]
fn utf8_valid_up_to(bytes: &[u8]) -> (valid: usize)
    ensures
        valid <= bytes@.len(),
        valid == bytes@.len() <==> valid_utf8(bytes@),
{
    encoding_rs::Encoding::utf8_valid_up_to(bytes)
}

/// The text that `bytes` spell, if they are well-formed UTF-8 up to their
/// end.
pub fn utf8_text(bytes: &[u8]) -> (text: Option<&str>)
    ensures
        text is Some <==> valid_utf8(bytes@),
        text matches Some(t) ==> t@ == decode_utf8(bytes@),
{
    if utf8_valid_up_to(bytes) != bytes.len() {
        return None;
    }
    match core::str::from_utf8(bytes) {
        Ok(text) => {
            proof {
                vstd::utf8::encode_utf8_decode_utf8(text@);
            }
            Some(text)
        },
        Err(_) => None,
    }
}

/// What reading gave, as what it stands for.
pub open spec fn reading(read: Result<Node, DecodeError>) -> Result<Json, DecodeErrorView> {
    match read {
        Ok(node) => Ok(node@),
        Err(error) => Err(error@),
    }
}

/// The document that `input` holds, or the error that it is refused with:
/// that of the input where it holds no text, and else a syntax error with
/// the message of the parser where the text is not one JSON document.
pub open spec fn document(input: Input) -> Result<Json, DecodeErrorView> {
    match input_text(input) {
        Err(error) => Err(error),
        Ok(text) => match json_document(text) {
            Err(message) => Err(syntax_error(message)),
            Ok(tree) => Ok(tree),
        },
    }
}

/// Reads the document that `input` holds. No cache is needed for this.
pub fn read(input: Input) -> (read: Result<Node, DecodeError>)
    ensures
        reading(read) == document(input),
{
    let contents: Option<&str> = match input {
        Input::Str(text) => text,
        Input::Bytes(bytes) => utf8_text(bytes),
        Input::ByteArray(bytes) => utf8_text(bytes),
        Input::Other => {
            return Err(DecodeError::input_type());
        },
    };
    match contents {
        None => Err(DecodeError::invalid_string()),
        Some(text) => match parse(text) {
            Err(message) => Err(DecodeError::syntax(message)),
            Ok(node) => Ok(node),
        },
    }
}

/// Decodes one JSON document from `input`: reads it, and builds its value.
/// Keys of members go through `cache`; a refused input leaves the cache as
/// it was.
///
/// The errors: input that is neither text nor bytes; text or bytes that are
/// not well-formed UTF-8; and a text that is not one JSON document, with
/// the message of the parser.
pub fn deserialize(input: Input, cache: &mut KeyCache) -> (decoded: Result<Datum, DecodeError>)
    requires
        old(cache).wf(),
    ensures
        final(cache).wf(),
        deserialized(input, old(cache)@, outcome(decoded), final(cache)@),
        decoded matches Ok(value) ==> canonical(value),
{
    match read(input) {
        Err(error) => Err(error),
        Ok(node) => Ok(build(&node, cache)),
    }
}

} // verus!
