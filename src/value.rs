//! The JSON value tree and its mathematical model.
use vstd::prelude::*;

verus! {

/// A JSON value as the parser produced it.
///
/// A number keeps the text that the parser renders for it, so that an
/// integer and a float with the same magnitude stay apart (`10` and `10.0`).
/// An object keeps its entries in their iteration order.
#[derive(Debug, PartialEq, Eq)]
pub enum JsonValue {
    Null,
    Bool(bool),
    Number(String),
    String(String),
    Array(Vec<JsonValue>),
    Object(Vec<(String, JsonValue)>),
}

/// The model of a `JsonValue`: the same tree over sequences.
pub enum Json {
    Null,
    Bool(bool),
    Number(Seq<char>),
    Str(Seq<char>),
    Array(Seq<Json>),
    Object(Seq<(Seq<char>, Json)>),
}

impl JsonValue {
    pub open spec fn model(self) -> Json
        decreases self,
    {
        match self {
            JsonValue::Null => Json::Null,
            JsonValue::Bool(b) => Json::Bool(b),
            JsonValue::Number(n) => Json::Number(n@),
            JsonValue::String(s) => Json::Str(s@),
            JsonValue::Array(a) => Json::Array(models(a@)),
            JsonValue::Object(o) => Json::Object(entry_models(o@)),
        }
    }
}

/// The models of a sequence of values, in order.
pub open spec fn models(s: Seq<JsonValue>) -> Seq<Json>
    decreases s,
{
    if s.len() == 0 {
        Seq::empty()
    } else {
        models(s.subrange(0, s.len() - 1)).push(s[s.len() - 1].model())
    }
}

/// The models of a sequence of object entries, in order.
pub open spec fn entry_models(s: Seq<(String, JsonValue)>) -> Seq<(Seq<char>, Json)>
    decreases s,
{
    if s.len() == 0 {
        Seq::empty()
    } else {
        entry_models(s.subrange(0, s.len() - 1)).push(
            (s[s.len() - 1].0@, s[s.len() - 1].1.model()),
        )
    }
}

} // verus!

verus! {

/// No two entries of an object share a key.
pub open spec fn keys_distinct(e: Seq<(Seq<char>, Json)>) -> bool {
    forall|i: int, j: int| 0 <= i < j < e.len() ==> e[i].0 != e[j].0
}

/// Every object in the tree has distinct keys, as a parsed document has.
pub open spec fn well_formed(j: Json) -> bool
    decreases j,
{
    match j {
        Json::Array(a) => elements_well_formed(a),
        Json::Object(e) => keys_distinct(e) && entries_well_formed(e),
        _ => true,
    }
}

/// Every element of an array is well formed.
pub open spec fn elements_well_formed(a: Seq<Json>) -> bool
    decreases a,
{
    a.len() == 0 || (elements_well_formed(a.subrange(0, a.len() - 1)) && well_formed(
        a[a.len() - 1],
    ))
}

/// Every value among the entries of an object is well formed.
pub open spec fn entries_well_formed(e: Seq<(Seq<char>, Json)>) -> bool
    decreases e,
{
    e.len() == 0 || (entries_well_formed(e.subrange(0, e.len() - 1)) && well_formed(
        e[e.len() - 1].1,
    ))
}

/// `models` works element by element.
pub proof fn lemma_models_index(s: Seq<JsonValue>)
    ensures
        models(s).len() == s.len(),
        forall|i: int| 0 <= i < s.len() ==> #[trigger] models(s)[i] == s[i].model(),
    decreases s.len(),
{
    if s.len() > 0 {
        let pre = s.subrange(0, s.len() - 1);
        lemma_models_index(pre);
        assert forall|i: int| 0 <= i < s.len() implies #[trigger] models(s)[i] == s[i].model() by {
            if i < s.len() - 1 {
                assert(pre[i] == s[i]);
            }
        }
    }
}

/// `entry_models` works entry by entry.
pub proof fn lemma_entry_models_index(s: Seq<(String, JsonValue)>)
    ensures
        entry_models(s).len() == s.len(),
        forall|i: int|
            0 <= i < s.len() ==> #[trigger] entry_models(s)[i] == (s[i].0@, s[i].1.model()),
    decreases s.len(),
{
    if s.len() > 0 {
        let pre = s.subrange(0, s.len() - 1);
        lemma_entry_models_index(pre);
        assert forall|i: int| 0 <= i < s.len() implies #[trigger] entry_models(s)[i] == (
        s[i].0@,
        s[i].1.model(),
        ) by {
            if i < s.len() - 1 {
                assert(pre[i] == s[i]);
            }
        }
    }
}

/// `elements_well_formed` holds exactly when every element is well formed.
pub proof fn lemma_elements_well_formed_index(a: Seq<Json>)
    ensures
        elements_well_formed(a) <==> forall|i: int| 0 <= i < a.len() ==> #[trigger] well_formed(a[i]),
    decreases a.len(),
{
    if a.len() > 0 {
        let pre = a.subrange(0, a.len() - 1);
        lemma_elements_well_formed_index(pre);
        if forall|i: int| 0 <= i < a.len() ==> #[trigger] well_formed(a[i]) {
            assert forall|i: int| 0 <= i < pre.len() implies #[trigger] well_formed(pre[i]) by {
                assert(pre[i] == a[i]);
            }
            assert(well_formed(a[a.len() - 1]));
        }
        if elements_well_formed(a) {
            assert forall|i: int| 0 <= i < a.len() implies #[trigger] well_formed(a[i]) by {
                if i < a.len() - 1 {
                    assert(pre[i] == a[i]);
                }
            }
        }
    }
}

/// `entries_well_formed` holds exactly when every entry's value is well formed.
pub proof fn lemma_entries_well_formed_index(e: Seq<(Seq<char>, Json)>)
    ensures
        entries_well_formed(e) <==> forall|i: int|
            0 <= i < e.len() ==> #[trigger] well_formed(e[i].1),
    decreases e.len(),
{
    if e.len() > 0 {
        let pre = e.subrange(0, e.len() - 1);
        lemma_entries_well_formed_index(pre);
        if forall|i: int| 0 <= i < e.len() ==> #[trigger] well_formed(e[i].1) {
            assert forall|i: int| 0 <= i < pre.len() implies #[trigger] well_formed(pre[i].1) by {
                assert(pre[i] == e[i]);
            }
            assert(well_formed(e[e.len() - 1].1));
        }
        if entries_well_formed(e) {
            assert forall|i: int| 0 <= i < e.len() implies #[trigger] well_formed(e[i].1) by {
                if i < e.len() - 1 {
                    assert(pre[i] == e[i]);
                }
            }
        }
    }
}

} // verus!
