use orjson::cache::KeyCache;
use orjson::datum::{Datum, Dict, Key};
use orjson::decode::{build, deserialize, resolve_key, utf8_text, Input, MAX_CACHED_KEY_LEN};
use orjson::elements::ElementBuffer;
use orjson::error::{DecodeError, DecodeErrorKind};
use orjson::json::{parse, Node};

fn decode(text: &str) -> Result<Datum, DecodeError> {
    let mut cache = KeyCache::new(7);
    deserialize(Input::Str(Some(text)), &mut cache)
}

fn entries(value: &Datum) -> Vec<(String, &Datum)> {
    match value {
        Datum::Dict(dict) => (0..dict.len())
            .map(|i| (dict.key(i).as_str().to_string(), dict.value(i)))
            .collect(),
        _ => panic!("not a map"),
    }
}

#[test]
fn scalars_decode_to_themselves() {
    assert_eq!(decode("null"), Ok(Datum::Null));
    assert_eq!(decode("true"), Ok(Datum::Bool(true)));
    assert_eq!(decode("false"), Ok(Datum::Bool(false)));
    assert_eq!(decode("0"), Ok(Datum::Int(0)));
    assert_eq!(decode("-17"), Ok(Datum::Int(-17)));
    assert_eq!(decode("\"a\\nb\""), Ok(Datum::Str("a\nb".to_string())));
    assert_eq!(decode("  \"\"  "), Ok(Datum::Str(String::new())));
}

#[test]
fn integers_are_signed_where_they_fit() {
    assert_eq!(decode("9223372036854775807"), Ok(Datum::Int(i64::MAX)));
    assert_eq!(decode("-9223372036854775808"), Ok(Datum::Int(i64::MIN)));
    assert_eq!(decode("9223372036854775808"), Ok(Datum::UInt(9223372036854775808)));
    assert_eq!(decode("18446744073709551615"), Ok(Datum::UInt(u64::MAX)));
}

#[test]
fn numbers_beyond_sixty_four_bits_are_floats() {
    assert_eq!(decode("18446744073709551616"), Ok(Datum::Float(18446744073709551616f64.to_bits())));
    assert_eq!(decode("-9223372036854775809"), Ok(Datum::Float((-9223372036854775809f64).to_bits())));
}

#[test]
fn floats_keep_their_bits() {
    assert_eq!(decode("1.5"), Ok(Datum::Float(1.5f64.to_bits())));
    assert_eq!(decode("-0.0"), Ok(Datum::Float((-0.0f64).to_bits())));
    assert_eq!(decode("1e3"), Ok(Datum::Float(1000f64.to_bits())));
    assert_eq!(decode("0.1"), Ok(Datum::Float(0.1f64.to_bits())));
}

#[test]
fn arrays_keep_their_items_in_order() {
    assert_eq!(decode("[]"), Ok(Datum::List(vec![])));
    assert_eq!(
        decode("[1, \"two\", [3], null]"),
        Ok(Datum::List(vec![
            Datum::Int(1),
            Datum::Str("two".to_string()),
            Datum::List(vec![Datum::Int(3)]),
            Datum::Null,
        ]))
    );
}

#[test]
fn long_arrays_spill_out_of_the_inline_buffer() {
    let decoded = decode("[0,1,2,3,4,5,6,7,8,9,10,11]").unwrap();
    let expected: Vec<Datum> = (0..12).map(Datum::Int).collect();
    assert_eq!(decoded, Datum::List(expected));
}

#[test]
fn objects_keep_their_members_in_order() {
    let decoded = decode("{\"b\": 1, \"a\": [true], \"c\": {\"d\": null}}").unwrap();
    let members = entries(&decoded);
    assert_eq!(members.len(), 3);
    assert_eq!(members[0], ("b".to_string(), &Datum::Int(1)));
    assert_eq!(members[1], ("a".to_string(), &Datum::List(vec![Datum::Bool(true)])));
    assert_eq!(entries(members[2].1), vec![("d".to_string(), &Datum::Null)]);
    assert_eq!(decode("{}").map(|v| entries(&v).len()), Ok(0));
}

#[test]
fn a_repeated_member_keeps_its_place_and_takes_the_last_value() {
    let decoded = decode("{\"a\": 1, \"b\": 2, \"a\": 3}").unwrap();
    assert_eq!(
        entries(&decoded),
        vec![("a".to_string(), &Datum::Int(3)), ("b".to_string(), &Datum::Int(2))]
    );
}

#[test]
fn malformed_member_is_a_syntax_error() {
    let mut cache = KeyCache::new(7);
    let error = deserialize(Input::Str(Some("{\"a\":}")), &mut cache).unwrap_err();
    assert_eq!(error.kind, DecodeErrorKind::Syntax);
    assert_eq!(error.message(), "expected value at line 1 column 6");
    assert_eq!(error.line, 0);
    assert_eq!(error.column, 0);
    assert_eq!(cache.len(), 0);
}

#[test]
fn syntax_errors_carry_the_message_of_the_parser() {
    for text in ["", "[1,", "{\"a\": 1", "1 2", "nul", "[1 2]", "{\"a\" 1}", "\"open", "tru", "01"] {
        let error = decode(text).unwrap_err();
        assert_eq!(error.kind, DecodeErrorKind::Syntax, "{}", text);
        assert!(!error.message().is_empty());
        assert_eq!((error.line, error.column), (0, 0));
    }
    assert_eq!(decode("1 2").unwrap_err().message(), "trailing characters at line 1 column 3");
    assert_eq!(
        decode("[1,").unwrap_err().message(),
        "EOF while parsing a value at line 1 column 3"
    );
}

#[test]
fn white_space_may_follow_the_document() {
    assert_eq!(decode("1 \n\t "), Ok(Datum::Int(1)));
}

#[test]
fn invalid_utf8_is_an_invalid_string_wherever_it_stands() {
    let inputs: [&[u8]; 6] = [
        b"\xff{\"a\": 1}",
        b"{\"a\xff\": 1}",
        b"{\"a\": 1}\xff",
        b"\"\xed\xa0\x80\"",
        b"\"\xc0\xaf\"",
        b"\"\xe2\x82",
    ];
    for bytes in inputs {
        let mut cache = KeyCache::new(7);
        for input in [Input::Bytes(bytes), Input::ByteArray(bytes)] {
            let error = deserialize(input, &mut cache).unwrap_err();
            assert_eq!(error.kind, DecodeErrorKind::InvalidString);
            assert_eq!(error.message(), "str is not valid UTF-8: surrogates not allowed");
            assert_eq!((error.line, error.column), (0, 0));
        }
        assert_eq!(cache.len(), 0);
    }
}

#[test]
fn text_without_utf8_form_is_an_invalid_string() {
    let mut cache = KeyCache::new(7);
    let error = deserialize(Input::Str(None), &mut cache).unwrap_err();
    assert_eq!(error, DecodeError::invalid_string());
    assert_eq!(error.kind, DecodeErrorKind::InvalidString);
}

#[test]
fn other_input_is_refused_by_type() {
    let mut cache = KeyCache::new(7);
    let error = deserialize(Input::Other, &mut cache).unwrap_err();
    assert_eq!(error.kind, DecodeErrorKind::InputType);
    assert_eq!(error.message(), "Input must be bytes, bytearray, or str");
    assert_eq!(error, DecodeError::input_type());
    assert_eq!(cache.len(), 0);
}

#[test]
fn bytes_decode_like_text() {
    let text = "{\"gr\u{fc}\u{df}\": [\"\u{1f600}\", 1]}";
    let mut cache = KeyCache::new(7);
    let from_text = deserialize(Input::Str(Some(text)), &mut cache).unwrap();
    let from_bytes = deserialize(Input::Bytes(text.as_bytes()), &mut cache).unwrap();
    let from_array = deserialize(Input::ByteArray(text.as_bytes()), &mut cache).unwrap();
    assert_eq!(from_text, from_bytes);
    assert_eq!(from_text, from_array);
    assert_eq!(entries(&from_text)[0].0, "gr\u{fc}\u{df}");
}

#[test]
fn utf8_text_gives_the_text_of_valid_bytes_only() {
    assert_eq!(utf8_text(b"abc"), Some("abc"));
    assert_eq!(utf8_text("\u{e9}".as_bytes()), Some("\u{e9}"));
    assert_eq!(utf8_text(b""), Some(""));
    assert_eq!(utf8_text(b"ab\xff"), None);
    assert_eq!(utf8_text(b"\x80"), None);
}

#[test]
fn parse_gives_the_tree_of_the_text() {
    assert_eq!(
        parse("{\"k\": [1, -2, 2.5, \"s\", true, null]}"),
        Ok(Node::Object(vec![(
            "k".to_string(),
            Node::Array(vec![
                Node::Unsigned(1),
                Node::Signed(-2),
                Node::Float(2.5f64.to_bits()),
                Node::Text("s".to_string()),
                Node::Bool(true),
                Node::Null,
            ])
        )]))
    );
    assert_eq!(parse("{\"a\":}"), Err("expected value at line 1 column 6".to_string()));
}

#[test]
fn deep_nesting_is_refused_by_the_parser() {
    let text = "[".repeat(200) + &"]".repeat(200);
    assert_eq!(decode(&text).unwrap_err().kind, DecodeErrorKind::Syntax);
    let text = "[".repeat(100) + &"]".repeat(100);
    assert!(decode(&text).is_ok());
}

#[test]
fn build_decodes_a_tree_written_by_hand() {
    let mut cache = KeyCache::new(1);
    let node = Node::Object(vec![
        ("n".to_string(), Node::Unsigned(u64::MAX)),
        ("m".to_string(), Node::Unsigned(5)),
        ("n".to_string(), Node::Signed(-5)),
        ("l".to_string(), Node::Array(vec![Node::Float(7), Node::Text("t".to_string())])),
    ]);
    let value = build(&node, &mut cache);
    assert_eq!(
        entries(&value),
        vec![
            ("n".to_string(), &Datum::Int(-5)),
            ("m".to_string(), &Datum::Int(5)),
            ("l".to_string(), &Datum::List(vec![Datum::Float(7), Datum::Str("t".to_string())])),
        ]
    );
    assert_eq!(cache.len(), 3);
    assert_eq!(build(&Node::Unsigned(1 << 63), &mut cache), Datum::UInt(1 << 63));
    assert_eq!(build(&Node::Unsigned((1 << 63) - 1), &mut cache), Datum::Int(i64::MAX));
}

#[test]
fn keys_of_two_documents_are_shared_through_the_cache() {
    let mut cache = KeyCache::new(7);
    let first = deserialize(Input::Str(Some("{\"name\": 1}")), &mut cache).unwrap();
    assert_eq!(cache.len(), 1);
    let second = deserialize(Input::Str(Some("[{\"name\": 2}, {\"name\": 3}]")), &mut cache).unwrap();
    assert_eq!(cache.len(), 1);
    assert_eq!(entries(&first)[0].0, "name");
    match second {
        Datum::List(items) => {
            assert_eq!(entries(&items[0]), vec![("name".to_string(), &Datum::Int(2))]);
            assert_eq!(entries(&items[1]), vec![("name".to_string(), &Datum::Int(3))]);
        },
        _ => panic!("not a list"),
    }
}

#[test]
fn long_keys_do_not_touch_the_cache() {
    let long = "k".repeat(MAX_CACHED_KEY_LEN + 1);
    let short = "k".repeat(MAX_CACHED_KEY_LEN);
    let mut cache = KeyCache::new(7);
    let text = format!("{{\"{}\": 1}}", long);
    let decoded = deserialize(Input::Str(Some(&text)), &mut cache).unwrap();
    assert_eq!(entries(&decoded), vec![(long.clone(), &Datum::Int(1))]);
    assert_eq!(cache.len(), 0);
    let key = resolve_key(&mut cache, &long);
    assert_eq!(key.as_str(), long);
    assert_eq!(cache.len(), 0);
    let key = resolve_key(&mut cache, &short);
    assert_eq!(key.as_str(), short);
    assert_eq!(cache.len(), 1);
}

#[test]
fn key_length_is_counted_in_bytes() {
    let mut cache = KeyCache::new(7);
    let thirty_three_letters = "\u{e9}".repeat(33);
    resolve_key(&mut cache, &thirty_three_letters);
    assert_eq!(cache.len(), 0);
    let thirty_two_letters = "\u{e9}".repeat(32);
    resolve_key(&mut cache, &thirty_two_letters);
    assert_eq!(cache.len(), 1);
}

#[test]
fn dict_sets_keys_in_order_of_first_arrival() {
    let mut dict = Dict::new();
    assert_eq!(dict.len(), 0);
    dict.insert(Key::new("x"), Datum::Int(1));
    dict.insert(Key::new("y"), Datum::Int(2));
    dict.insert(Key::new("x"), Datum::Int(3));
    assert_eq!(dict.len(), 2);
    assert_eq!(dict.key(0).as_str(), "x");
    assert_eq!(dict.value(0), &Datum::Int(3));
    assert_eq!(dict.key(1).as_str(), "y");
    assert_eq!(dict.value(1), &Datum::Int(2));
}

#[test]
fn element_buffer_hands_out_what_was_pushed() {
    let mut buffer = ElementBuffer::new();
    for i in 0..20 {
        buffer.push(Datum::Int(i));
    }
    let expected: Vec<Datum> = (0..20).map(Datum::Int).collect();
    assert_eq!(buffer.into_vec(), expected);
    assert_eq!(ElementBuffer::new().into_vec(), Vec::<Datum>::new());
}

#[test]
fn a_document_decodes_to_the_same_value_again() {
    let text = "{\"a\": [1, {\"b\": null, \"a\": 2.5}], \"c\": \"a\", \"b\": {\"x\": {}}}";
    let mut warm = KeyCache::new(7);
    let first = deserialize(Input::Str(Some(text)), &mut warm).unwrap();
    deserialize(Input::Str(Some("{\"q\": 1, \"r\": 2}")), &mut warm).unwrap();
    let second = deserialize(Input::Str(Some(text)), &mut warm).unwrap();
    let mut cold = KeyCache::new(99);
    let third = deserialize(Input::Str(Some(text)), &mut cold).unwrap();
    assert_eq!(first, second);
    assert_eq!(first, third);
}

#[test]
fn reading_needs_no_cache() {
    let mut cache = KeyCache::default();
    let node = orjson::decode::read(Input::Bytes(b"{\"k\": [1]}")).unwrap();
    assert_eq!(cache.len(), 0);
    let value = build(&node, &mut cache);
    assert_eq!(entries(&value), vec![("k".to_string(), &Datum::List(vec![Datum::Int(1)]))]);
    assert_eq!(cache.len(), 1);
    let error = orjson::decode::read(Input::Bytes(b"\xff")).unwrap_err();
    assert_eq!(error.kind, DecodeErrorKind::InvalidString);
    let error = orjson::decode::read(Input::Other).unwrap_err();
    assert_eq!(error.kind, DecodeErrorKind::InputType);
    let error = orjson::decode::read(Input::Str(Some("{"))).unwrap_err();
    assert_eq!(error.kind, DecodeErrorKind::Syntax);
}
