//! Text made of ASCII bytes.

use vstd::prelude::*;
use vstd::string::StringExecFns;
use vstd::string::StringSliceAdditionalSpecFns;
use vstd::utf8::{decode_utf8, encode_utf8, is_ascii_chars, valid_utf8};

verus! {

/// True when every byte of `text` is below 128.
pub open spec fn is_ascii_bytes(text: Seq<u8>) -> bool {
    forall|i: int| 0 <= i < text.len() ==> #[trigger] text[i] < 128
}

/// The characters that ASCII bytes stand for, one for one.
pub open spec fn ascii_chars(text: Seq<u8>) -> Seq<char> {
    Seq::new(text.len(), |i: int| text[i] as char)
}

/// `core::str::Utf8Error`, which says where bytes stop being UTF-8. It is
/// handed on unread.
#[verifier::external_type_specification]
#[verifier::external_body]
pub struct ExUtf8Error(core::str::Utf8Error);

/// `core::str::from_utf8` succeeds exactly on well-formed UTF-8, and the
/// string slice it gives is made of the very bytes it was given.
pub assume_specification[ core::str::from_utf8 ](v: &[u8]) -> (text: Result<
    &str,
    core::str::Utf8Error,
>)
    ensures
        text.is_ok() <==> valid_utf8(v@),
        text matches Ok(s) ==> s.spec_bytes() == v@,
;

/// ASCII bytes are well-formed UTF-8 and decode to one character each.
pub proof fn lemma_ascii_is_utf8(text: Seq<u8>)
    requires
        is_ascii_bytes(text),
    ensures
        valid_utf8(text),
        decode_utf8(text) == ascii_chars(text),
        encode_utf8(ascii_chars(text)) == text,
{
    let chars = ascii_chars(text);
    assert(is_ascii_chars(chars)) by {
        assert forall|i: int| 0 <= i < chars.len() implies (0 <= #[trigger] (chars[i] as nat)
            < 128) by {
            assert(text[i] < 128);
        }
    }
    vstd::utf8::is_ascii_chars_encode_utf8(chars);
    assert(encode_utf8(chars) =~= text) by {
        assert forall|i: int| 0 <= i < text.len() implies (chars[i] as u8) == text[i] by {
            assert(text[i] < 128);
        }
    }
    vstd::utf8::encode_utf8_valid_utf8(chars);
    vstd::utf8::encode_utf8_decode_utf8(chars);
}

/// The string that ASCII bytes spell.
pub fn ascii_string(text: &[u8]) -> (s: String)
    requires
        is_ascii_bytes(text@),
    ensures
        s@ == ascii_chars(text@),
{
    proof {
        lemma_ascii_is_utf8(text@);
    }
    let parsed = core::str::from_utf8(text);
    let slice = parsed.unwrap();
    proof {
        vstd::utf8::decode_utf8_encode_utf8(text@);
        vstd::utf8::encode_utf8_decode_utf8(slice@);
    }
    String::from_str(slice)
}

} // verus!
