//! Hashes of key text.

use vstd::prelude::*;
use vstd::string::StringSliceAdditionalSpecFns;
use vstd::utf8::encode_utf8;

verus! {

/// The 64-bit wyhash of `bytes` under `seed`.
pub uninterp spec fn wyhash_of(bytes: Seq<u8>, seed: u64) -> u64;

/// `wyhash::wyhash`: the hash of the bytes under the seed, which depends on
/// nothing else.
#[verifier::external_body]
fn wyhash_bytes(bytes: &[u8], seed: u64) -> (hash: u64)
    ensures
        hash == wyhash_of(bytes@, seed),
{
    wyhash::wyhash(bytes, seed)
}

/// The hash of a text under `seed`: the wyhash of its UTF-8 bytes.
pub open spec fn text_hash(text: Seq<char>, seed: u64) -> u64 {
    wyhash_of(encode_utf8(text), seed)
}

/// Hashes the UTF-8 bytes of `text` under `seed`.
pub fn hash_text(text: &str, seed: u64) -> (hash: u64)
    ensures
        hash == text_hash(text@, seed),
{
    wyhash_bytes(text.as_bytes(), seed)
}

/// Tells whether two texts are the same, byte by byte.
pub fn same_text(left: &str, right: &str) -> (same: bool)
    ensures
        same == (left@ == right@),
{
    let a = left.as_bytes();
    let b = right.as_bytes();
    proof {
        vstd::utf8::encode_utf8_decode_utf8(left@);
        vstd::utf8::encode_utf8_decode_utf8(right@);
    }
    if a.len() != b.len() {
        return false;
    }
    let mut i: usize = 0;
    while i < a.len()
        invariant
            a@.len() == b@.len(),
            i <= a@.len(),
            forall|j: int| 0 <= j < i ==> a@[j] == b@[j],
            a@ == encode_utf8(left@),
            b@ == encode_utf8(right@),
            vstd::utf8::decode_utf8(encode_utf8(left@)) == left@,
            vstd::utf8::decode_utf8(encode_utf8(right@)) == right@,
        decreases a@.len() - i,
    {
        if a[i] != b[i] {
            return false;
        }
        i = i + 1;
    }
    assert(a@ =~= b@);
    true
}

} // verus!
