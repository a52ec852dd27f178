//! From a path and the bytes of a document to the source of its expression.
use vstd::prelude::*;
use crate::laws::lemma_round_trip;
use crate::plan::{compile_model, evaluate};
use crate::recipe::compile;
use crate::source::source_text;
use crate::value::{
    Json, JsonValue, entry_models, keys_distinct, lemma_entries_well_formed_index,
    lemma_elements_well_formed_index, lemma_entry_models_index, lemma_models_index, models,
    well_formed,
};

verus! {

/// Why a document could not be turned into an expression.
#[derive(Debug, PartialEq, Eq)]
pub enum EmbedError {
    /// The path is relative; only an absolute path is taken.
    NotAbsolute,
    /// The file could not be read; the message names the cause and the path.
    IoFailure(String),
    /// The bytes are not a JSON document; the message is the parser's.
    ParseFailure(String),
}

/// `serde_json::Value`, the parser's value tree, carried through unopened.
#[verifier::external_type_specification]
#[verifier::external_body]
pub struct ExValue(serde_json::Value);

/// `serde_json::Error`, the parser's complaint.
#[verifier::external_type_specification]
#[verifier::external_body]
pub struct ExError(serde_json::Error);

/// The bytes form one JSON document that the parser accepts.
pub uninterp spec fn accepted_json(b: Seq<u8>) -> bool;

/// A path that has neither a root nor a drive: it does not start with a
/// slash or a backslash, and it holds no colon.
pub open spec fn lacks_root(p: Seq<char>) -> bool {
    p.len() == 0 || (p[0] != '/' && p[0] != '\\' && forall|i: int|
        0 <= i < p.len() ==> #[trigger] p[i] != ':')
}

/// Relies on `std::path::Path::is_relative`. A path without a root or a
/// drive is relative on every platform; what else is depends on the platform.
#[verifier::external_body]
fn path_is_relative(p: &str) -> (r: bool)
    ensures
        lacks_root(p@) ==> r,
{
    std::path::Path::new(p).is_relative()
}

/// The tree that the parser builds from the bytes, where it accepts them.
pub uninterp spec fn parsed_json(b: Seq<u8>) -> Json;

/// The parser's message on bytes that it refuses.
pub uninterp spec fn parse_error_message(b: Seq<u8>) -> Seq<char>;

/// The tree that a parsed value holds.
pub uninterp spec fn tree_of(v: serde_json::Value) -> Json;

/// The text of a parser error.
pub uninterp spec fn error_text(e: serde_json::Error) -> Seq<char>;

/// Relies on `serde_json::from_slice` into a `serde_json::Value`: it
/// succeeds exactly on the documents that the parser accepts, and what it
/// returns depends on the bytes alone.
#[verifier::external_body]
fn parse_value(b: &[u8]) -> (r: Result<serde_json::Value, serde_json::Error>)
    ensures
        r is Ok <==> accepted_json(b@),
        r matches Ok(v) ==> tree_of(v) == parsed_json(b@),
        r matches Err(e) ==> error_text(e) == parse_error_message(b@),
{
    serde_json::from_slice::<serde_json::Value>(b)
}

/// Relies on the `Display` of `serde_json::Error`: the parser's message.
#[verifier::external_body]
fn parse_error_text(e: &serde_json::Error) -> (r: String)
    ensures
        r@ == error_text(*e),
{
    e.to_string()
}

/// One level of a parsed value, its children still parsed values.
pub enum Node {
    Null,
    Bool(bool),
    Number(String),
    String(String),
    Array(Vec<serde_json::Value>),
    Object(Vec<(String, serde_json::Value)>),
}

/// Relies on the variants of `serde_json::Value`, on the `Display` of
/// `serde_json::Number` (the number's text), and on `serde_json::Map`
/// holding each key once and walking its entries in order.
#[verifier::external_body]
fn open_node(v: serde_json::Value) -> (r: Node)
    ensures
        r matches Node::Null ==> tree_of(v) == Json::Null,
        r matches Node::Bool(b) ==> tree_of(v) == Json::Bool(b),
        r matches Node::Number(t) ==> tree_of(v) == Json::Number(t@),
        r matches Node::String(t) ==> tree_of(v) == Json::Str(t@),
        r matches Node::Array(a) ==> tree_of(v) == Json::Array(
            a@.map_values(|x: serde_json::Value| tree_of(x)),
        ),
        r matches Node::Object(e) ==> tree_of(v) == Json::Object(
            e@.map_values(|p: (String, serde_json::Value)| (p.0@, tree_of(p.1))),
        ),
        r matches Node::Object(e) ==> forall|i: int, j: int|
            0 <= i < j < e@.len() ==> e@[i].0@ != e@[j].0@,
{
    match v {
        serde_json::Value::Null => Node::Null,
        serde_json::Value::Bool(b) => Node::Bool(b),
        serde_json::Value::Number(n) => Node::Number(n.to_string()),
        serde_json::Value::String(s) => Node::String(s),
        serde_json::Value::Array(a) => Node::Array(a),
        serde_json::Value::Object(m) => Node::Object(m.into_iter().collect()),
    }
}

/// Turns a parsed value into the library's value tree.
fn from_parsed(v: serde_json::Value) -> (r: JsonValue)
    ensures
        r.model() == tree_of(v),
        well_formed(tree_of(v)),
    decreases tree_of(v),
{
    let ghost t = tree_of(v);
    match open_node(v) {
        Node::Null => JsonValue::Null,
        Node::Bool(b) => JsonValue::Bool(b),
        Node::Number(n) => JsonValue::Number(n),
        Node::String(s) => JsonValue::String(s),
        Node::Array(items) => {
            let ghost i0 = items@;
            let ghost n = i0.len();
            let mut items = items;
            let mut rev: Vec<JsonValue> = Vec::new();
            while items.len() > 0
                invariant
                    t == tree_of(v),
                    t == Json::Array(i0.map_values(|x: serde_json::Value| tree_of(x))),
                    n == i0.len(),
                    items@.len() + rev@.len() == n,
                    forall|k: int| 0 <= k < items@.len() ==> #[trigger] items@[k] == i0[k],
                    forall|k: int|
                        0 <= k < rev@.len() ==> #[trigger] rev@[k].model() == tree_of(
                            i0[n - 1 - k],
                        ) && well_formed(rev@[k].model()),
                decreases items.len(),
            {
                let ghost last = items@.len() - 1;
                if let Some(x) = items.pop() {
                    proof {
                        let s = i0.map_values(|x: serde_json::Value| tree_of(x));
                        assert(s[last] == tree_of(x));
                        assert(decreases_to!(t => t->Array_0));
                        assert(decreases_to!(t => s[last]));
                    }
                    let j = from_parsed(x);
                    rev.push(j);
                }
            }
            let ghost r0 = rev@;
            let mut out: Vec<JsonValue> = Vec::new();
            while rev.len() > 0
                invariant
                    r0.len() == n,
                    forall|k: int|
                        0 <= k < n ==> #[trigger] r0[k].model() == tree_of(i0[n - 1 - k])
                            && well_formed(r0[k].model()),
                    rev@.len() + out@.len() == n,
                    forall|k: int| 0 <= k < rev@.len() ==> #[trigger] rev@[k] == r0[k],
                    forall|k: int| 0 <= k < out@.len() ==> #[trigger] out@[k] == r0[n - 1 - k],
                decreases rev.len(),
            {
                if let Some(j) = rev.pop() {
                    out.push(j);
                }
            }
            proof {
                lemma_models_index(out@);
                let m = models(out@);
                assert forall|k: int| 0 <= k < n implies #[trigger] m[k] == tree_of(i0[k]) by {
                    assert(out@[k] == r0[n - 1 - k]);
                }
                assert(m =~= i0.map_values(|x: serde_json::Value| tree_of(x)));
                assert forall|k: int| 0 <= k < m.len() implies #[trigger] well_formed(m[k]) by {
                    assert(out@[k] == r0[n - 1 - k]);
                }
                lemma_elements_well_formed_index(m);
            }
            JsonValue::Array(out)
        },
        Node::Object(entries) => {
            let ghost e0 = entries@;
            let ghost n = e0.len();
            let mut entries = entries;
            let mut rev: Vec<(String, JsonValue)> = Vec::new();
            while entries.len() > 0
                invariant
                    t == tree_of(v),
                    t == Json::Object(
                        e0.map_values(|p: (String, serde_json::Value)| (p.0@, tree_of(p.1))),
                    ),
                    forall|i: int, j: int| 0 <= i < j < n ==> e0[i].0@ != e0[j].0@,
                    n == e0.len(),
                    entries@.len() + rev@.len() == n,
                    forall|k: int| 0 <= k < entries@.len() ==> #[trigger] entries@[k] == e0[k],
                    forall|k: int|
                        0 <= k < rev@.len() ==> #[trigger] rev@[k].0@ == e0[n - 1 - k].0@
                            && rev@[k].1.model() == tree_of(e0[n - 1 - k].1) && well_formed(
                            rev@[k].1.model(),
                        ),
                decreases entries.len(),
            {
                let ghost last = entries@.len() - 1;
                if let Some(kv) = entries.pop() {
                    let (k, x) = kv;
                    proof {
                        let s = e0.map_values(
                            |p: (String, serde_json::Value)| (p.0@, tree_of(p.1)),
                        );
                        assert(s[last].1 == tree_of(x));
                        assert(decreases_to!(t => t->Object_0));
                        assert(decreases_to!(t => s[last]));
                        assert(decreases_to!(t => s[last].1));
                    }
                    let j = from_parsed(x);
                    rev.push((k, j));
                }
            }
            let ghost r0 = rev@;
            let mut out: Vec<(String, JsonValue)> = Vec::new();
            while rev.len() > 0
                invariant
                    r0.len() == n,
                    forall|k: int|
                        0 <= k < n ==> #[trigger] r0[k].0@ == e0[n - 1 - k].0@ && r0[k].1.model()
                            == tree_of(e0[n - 1 - k].1) && well_formed(r0[k].1.model()),
                    rev@.len() + out@.len() == n,
                    forall|k: int| 0 <= k < rev@.len() ==> #[trigger] rev@[k] == r0[k],
                    forall|k: int| 0 <= k < out@.len() ==> #[trigger] out@[k] == r0[n - 1 - k],
                decreases rev.len(),
            {
                if let Some(kv) = rev.pop() {
                    out.push(kv);
                }
            }
            proof {
                lemma_entry_models_index(out@);
                let m = entry_models(out@);
                assert forall|k: int| 0 <= k < n implies #[trigger] m[k] == (
                e0[k].0@,
                tree_of(e0[k].1),
                ) by {
                    assert(out@[k] == r0[n - 1 - k]);
                }
                assert(m =~= e0.map_values(|p: (String, serde_json::Value)| (p.0@, tree_of(p.1))));
                assert forall|i: int, j: int| 0 <= i < j < m.len() implies m[i].0 != m[j].0 by {
                    assert(m[i] == (e0[i].0@, tree_of(e0[i].1)));
                    assert(m[j] == (e0[j].0@, tree_of(e0[j].1)));
                }
                assert(keys_distinct(m));
                assert forall|k: int| 0 <= k < m.len() implies #[trigger] well_formed(m[k].1) by {
                    assert(out@[k] == r0[n - 1 - k]);
                }
                lemma_entries_well_formed_index(m);
            }
            JsonValue::Object(out)
        },
    }
}

/// The answer to a path, given whether the platform calls it relative.
pub fn path_verdict(relative: bool) -> (r: Result<(), EmbedError>)
    ensures
        relative ==> r == Err::<(), EmbedError>(EmbedError::NotAbsolute),
        !relative ==> r == Ok::<(), EmbedError>(()),
{
    if relative {
        Err(EmbedError::NotAbsolute)
    } else {
        Ok(())
    }
}

/// Checks the path that names the document. A relative path is refused,
/// whether or not a file stands there: it is never read.
pub fn check_path(path: &str) -> (r: Result<(), EmbedError>)
    ensures
        r is Err ==> r == Err::<(), EmbedError>(EmbedError::NotAbsolute),
        lacks_root(path@) ==> r == Err::<(), EmbedError>(EmbedError::NotAbsolute),
{
    path_verdict(path_is_relative(path))
}

/// Parses the bytes of a document into a value tree.
pub fn parse_document(b: &[u8]) -> (r: Result<JsonValue, EmbedError>)
    ensures
        r is Ok <==> accepted_json(b@),
        r matches Ok(v) ==> v.model() == parsed_json(b@) && well_formed(v.model()),
        r matches Err(e) ==> e matches EmbedError::ParseFailure(m) && m@ == parse_error_message(
            b@,
        ),
{
    match parse_value(b) {
        Ok(v) => Ok(from_parsed(v)),
        Err(e) => Err(EmbedError::ParseFailure(parse_error_text(&e))),
    }
}

/// The Rust source of the expression that rebuilds `v`.
pub fn value_source(v: &JsonValue) -> (r: String)
    ensures
        r@ == source_text(compile_model(v.model())),
{
    compile(v).to_source()
}

/// The Rust source of the expression that rebuilds the document held in
/// the bytes, or the parser's complaint. The expression, once run, gives
/// back the parsed document.
pub fn document_source(b: &[u8]) -> (r: Result<String, EmbedError>)
    ensures
        r is Ok <==> accepted_json(b@),
        r matches Ok(s) ==> s@ == source_text(compile_model(parsed_json(b@))) && evaluate(
            compile_model(parsed_json(b@)),
        ) == parsed_json(b@),
        r matches Err(e) ==> e matches EmbedError::ParseFailure(m) && m@ == parse_error_message(
            b@,
        ),
{
    match parse_document(b) {
        Ok(v) => {
            proof {
                lemma_round_trip(v.model());
            }
            Ok(value_source(&v))
        },
        Err(e) => Err(e),
    }
}

} // verus!
