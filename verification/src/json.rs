//! JSON documents as trees, and the parser that reads them.

use vstd::prelude::*;

verus! {

/// `serde_json::Value`, the document as the parser hands it out. What it
/// holds is told by [`json_of`].
#[verifier::external_type_specification]
#[verifier::external_body]
pub struct ExJsonValue(serde_json::Value);

/// A JSON document. A number is an integer from zero up, a negative
/// integer, or the bits of a double; the members of an object stand in the
/// order in which the parser hands them out, which is that of the text,
/// with a name that comes again in the place where it first came.
pub enum Json {
    Null,
    Bool(bool),
    Unsigned(u64),
    Signed(i64),
    Float(u64),
    Text(Seq<char>),
    Array(Seq<Json>),
    Object(Seq<(Seq<char>, Json)>),
}

/// A JSON document in memory.
#[derive(Debug, PartialEq)]
pub enum Node {
    Null,
    Bool(bool),
    Unsigned(u64),
    Signed(i64),
    Float(u64),
    Text(String),
    Array(Vec<Node>),
    Object(Vec<(String, Node)>),
}

impl View for Node {
    type V = Json;

    open spec fn view(&self) -> Json {
        node_view(*self)
    }
}

/// The document that `node` holds.
pub open spec fn node_view(node: Node) -> Json
    decreases node,
{
    match node {
        Node::Null => Json::Null,
        Node::Bool(b) => Json::Bool(b),
        Node::Unsigned(u) => Json::Unsigned(u),
        Node::Signed(i) => Json::Signed(i),
        Node::Float(bits) => Json::Float(bits),
        Node::Text(s) => Json::Text(s@),
        Node::Array(items) => Json::Array(
            Seq::new(
                items@.len(),
                |i: int|
                    if 0 <= i < items@.len() {
                        node_view(items@[i])
                    } else {
                        Json::Null
                    },
            ),
        ),
        Node::Object(members) => Json::Object(
            Seq::new(
                members@.len(),
                |i: int|
                    if 0 <= i < members@.len() {
                        (members@[i].0@, node_view(members@[i].1))
                    } else {
                        (Seq::<char>::empty(), Json::Null)
                    },
            ),
        ),
    }
}

/// The document that a `serde_json::Value` holds, as its variants and
/// their fields show it.
pub uninterp spec fn json_of(document: serde_json::Value) -> Json;

/// What `serde_json::from_str` makes of a text: the document that the
/// text spells, or the message that says where it is not JSON.
pub uninterp spec fn json_document(text: Seq<char>) -> Result<Json, Seq<char>>;

/// The top of a value of the parser: its kind, with what a scalar holds or
/// with the values below it.
enum Layer<'a> {
    Null,
    Bool(bool),
    Unsigned(u64),
    Signed(i64),
    Float(u64),
    Text(&'a String),
    Array(&'a Vec<serde_json::Value>),
    Object(Vec<(&'a String, &'a serde_json::Value)>),
}

/// The document that a layer is the top of.
spec fn layer_json(layer: Layer) -> Json {
    match layer {
        Layer::Null => Json::Null,
        Layer::Bool(b) => Json::Bool(b),
        Layer::Unsigned(u) => Json::Unsigned(u),
        Layer::Signed(i) => Json::Signed(i),
        Layer::Float(bits) => Json::Float(bits),
        Layer::Text(s) => Json::Text(s@),
        Layer::Array(items) => Json::Array(Seq::new(items@.len(), |i: int| json_of(items@[i]))),
        Layer::Object(members) => Json::Object(
            Seq::new(members@.len(), |i: int| (members@[i].0@, json_of(*members@[i].1))),
        ),
    }
}

/// What a parse gave, as documents and messages.
spec fn handed_out(parsed: Result<serde_json::Value, String>) -> Result<Json, Seq<char>> {
    match parsed {
        Ok(document) => Ok(json_of(document)),
        Err(message) => Err(message@),
    }
}

/// `serde_json::from_str` into a `serde_json::Value`: the whole text must
/// be one JSON document, with nothing but white space after it. A failure
/// is handed on as the message of the parser's error.
#[verifier::external_body]
fn from_str(text: &str) -> (parsed: Result<serde_json::Value, String>)
    ensures
        handed_out(parsed) == json_document(text@),
{
    match serde_json::from_str::<serde_json::Value>(text) {
        Ok(document) => Ok(document),
        Err(error) => Err(error.to_string()),
    }
}

/// The variants of `serde_json::Value`, told apart: a number is unsigned
/// where `Number::as_u64` gives it, signed where `Number::as_i64` does, and
/// else the bits of what `Number::as_f64` gives; the members of an object
/// come in the order in which its map walks them.
#[verifier::external_body]
fn unpack<'a>(document: &'a serde_json::Value) -> (layer: Layer<'a>)
    ensures
        layer_json(layer) == json_of(*document),
{
    match document {
        serde_json::Value::Null => Layer::Null,
        serde_json::Value::Bool(b) => Layer::Bool(*b),
        serde_json::Value::Number(n) => match (n.as_u64(), n.as_i64()) {
            (Some(u), _) => Layer::Unsigned(u),
            (None, Some(i)) => Layer::Signed(i),
            (None, None) => Layer::Float(n.as_f64().map_or(0, |f| f.to_bits())),
        },
        serde_json::Value::String(s) => Layer::Text(s),
        serde_json::Value::Array(items) => Layer::Array(items),
        serde_json::Value::Object(map) => Layer::Object(map.iter().collect()),
    }
}

/// The tree of a value of the parser.
fn node_from(document: &serde_json::Value) -> (node: Node)
    ensures
        node@ == json_of(*document),
    decreases json_of(*document),
{
    match unpack(document) {
        Layer::Null => Node::Null,
        Layer::Bool(b) => Node::Bool(b),
        Layer::Unsigned(u) => Node::Unsigned(u),
        Layer::Signed(i) => Node::Signed(i),
        Layer::Float(bits) => Node::Float(bits),
        Layer::Text(s) => Node::Text(s.clone()),
        Layer::Array(items) => {
            let mut nodes: Vec<Node> = Vec::new();
            let mut i: usize = 0;
            while i < items.len()
                invariant
                    i <= items@.len(),
                    nodes@.len() == i,
                    json_of(*document) == Json::Array(
                        Seq::new(items@.len(), |j: int| json_of(items@[j])),
                    ),
                    forall|j: int| 0 <= j < i ==> (#[trigger] nodes@[j])@ == json_of(items@[j]),
                decreases items@.len() - i,
            {
                proof {
                    let below = json_of(*document)->Array_0;
                    assert(below[i as int] == json_of(items@[i as int]));
                    assert(decreases_to!(below => below[i as int]));
                }
                let node = node_from(&items[i]);
                nodes.push(node);
                i = i + 1;
            }
            let node = Node::Array(nodes);
            assert(node@->Array_0 =~= json_of(*document)->Array_0);
            node
        },
        Layer::Object(members) => {
            let mut nodes: Vec<(String, Node)> = Vec::new();
            let mut i: usize = 0;
            while i < members.len()
                invariant
                    i <= members@.len(),
                    nodes@.len() == i,
                    json_of(*document) == Json::Object(
                        Seq::new(
                            members@.len(),
                            |j: int| (members@[j].0@, json_of(*members@[j].1)),
                        ),
                    ),
                    forall|j: int|
                        0 <= j < i ==> (#[trigger] nodes@[j]).0@ == members@[j].0@ && nodes@[j].1@
                            == json_of(*members@[j].1),
                decreases members@.len() - i,
            {
                let name = members[i].0.clone();
                proof {
                    let below = json_of(*document)->Object_0;
                    assert(below[i as int].1 == json_of(*members@[i as int].1));
                    assert(decreases_to!(below => below[i as int]));
                }
                let node = node_from(members[i].1);
                nodes.push((name, node));
                i = i + 1;
            }
            let node = Node::Object(nodes);
            assert(node@->Object_0 =~= json_of(*document)->Object_0);
            node
        },
    }
}

/// Reads `text` as one JSON document: the tree that the text spells, or
/// the message of the parser where the text is not JSON or goes on after
/// the document.
pub fn parse(text: &str) -> (parsed: Result<Node, String>)
    ensures
        match json_document(text@) {
            Ok(tree) => parsed matches Ok(node) && node@ == tree,
            Err(message) => parsed matches Err(said) && said@ == message,
        },
{
    match from_str(text) {
        Ok(document) => Ok(node_from(&document)),
        Err(message) => Err(message),
    }
}

} // verus!
