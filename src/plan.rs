//! Construction plans: what the generated expression does when it runs.
use vstd::prelude::*;
use crate::value::{Json, keys_distinct, well_formed};

verus! {

/// The model of a construction expression for one value.
pub enum Plan {
    /// `Value::Null`.
    NullCtor,
    /// `Value::Bool(b)`.
    BoolCtor(bool),
    /// `Value::Number` parsed at run time from the number's text.
    NumberFromText(Seq<char>),
    /// `Value::String` from a string literal.
    StringFrom(Seq<char>),
    /// `Value::Array` from the default (empty) vector.
    EmptyArray,
    /// `Value::Array` from a vector of the elements' expressions.
    ArrayOf(Seq<Plan>),
    /// `Value::Object` from a new, empty map.
    EmptyMap,
    /// `Value::Object` from a map made with the given capacity, followed by
    /// one insert per entry, in order.
    MapInserts(nat, Seq<(Seq<char>, Plan)>),
}

/// The plan that the compiler emits for a value.
pub open spec fn compile_model(j: Json) -> Plan
    decreases j,
{
    match j {
        Json::Null => Plan::NullCtor,
        Json::Bool(b) => Plan::BoolCtor(b),
        Json::Number(t) => Plan::NumberFromText(t),
        Json::Str(s) => Plan::StringFrom(s),
        Json::Array(a) => if a.len() == 0 {
            Plan::EmptyArray
        } else {
            Plan::ArrayOf(compile_elements(a))
        },
        Json::Object(e) => if e.len() == 0 {
            Plan::EmptyMap
        } else {
            Plan::MapInserts(e.len(), compile_entries(e))
        },
    }
}

/// The plans of the elements of an array, in order.
pub open spec fn compile_elements(a: Seq<Json>) -> Seq<Plan>
    decreases a,
{
    if a.len() == 0 {
        Seq::empty()
    } else {
        compile_elements(a.subrange(0, a.len() - 1)).push(compile_model(a[a.len() - 1]))
    }
}

/// The keys and value plans of the entries of an object, in order.
pub open spec fn compile_entries(e: Seq<(Seq<char>, Json)>) -> Seq<(Seq<char>, Plan)>
    decreases e,
{
    if e.len() == 0 {
        Seq::empty()
    } else {
        compile_entries(e.subrange(0, e.len() - 1)).push(
            (e[e.len() - 1].0, compile_model(e[e.len() - 1].1)),
        )
    }
}

/// Inserting into an ordered map: an existing key keeps its place and takes
/// the new value; a new key goes last.
pub open spec fn map_insert(m: Seq<(Seq<char>, Json)>, k: Seq<char>, v: Json) -> Seq<
    (Seq<char>, Json),
> {
    if exists|i: int| 0 <= i < m.len() && m[i].0 == k {
        let i = choose|i: int| 0 <= i < m.len() && m[i].0 == k;
        m.update(i, (k, v))
    } else {
        m.push((k, v))
    }
}

/// The value that running a plan produces.
pub open spec fn evaluate(p: Plan) -> Json
    decreases p,
{
    match p {
        Plan::NullCtor => Json::Null,
        Plan::BoolCtor(b) => Json::Bool(b),
        Plan::NumberFromText(t) => Json::Number(t),
        Plan::StringFrom(s) => Json::Str(s),
        Plan::EmptyArray => Json::Array(Seq::empty()),
        Plan::ArrayOf(s) => Json::Array(evaluate_elements(s)),
        Plan::EmptyMap => Json::Object(Seq::empty()),
        Plan::MapInserts(_, s) => Json::Object(evaluate_inserts(s)),
    }
}

/// The values of a sequence of element plans, in order.
pub open spec fn evaluate_elements(s: Seq<Plan>) -> Seq<Json>
    decreases s,
{
    if s.len() == 0 {
        Seq::empty()
    } else {
        evaluate_elements(s.subrange(0, s.len() - 1)).push(evaluate(s[s.len() - 1]))
    }
}

/// The map that a run of inserts builds from an empty map.
pub open spec fn evaluate_inserts(s: Seq<(Seq<char>, Plan)>) -> Seq<(Seq<char>, Json)>
    decreases s,
{
    if s.len() == 0 {
        Seq::empty()
    } else {
        map_insert(
            evaluate_inserts(s.subrange(0, s.len() - 1)),
            s[s.len() - 1].0,
            evaluate(s[s.len() - 1].1),
        )
    }
}

/// `compile_elements` works element by element.
pub proof fn lemma_compile_elements_index(a: Seq<Json>)
    ensures
        compile_elements(a).len() == a.len(),
        forall|i: int|
            0 <= i < a.len() ==> #[trigger] compile_elements(a)[i] == compile_model(a[i]),
    decreases a.len(),
{
    if a.len() > 0 {
        let pre = a.subrange(0, a.len() - 1);
        lemma_compile_elements_index(pre);
        assert(forall|i: int| 0 <= i < pre.len() ==> pre[i] == a[i]);
    }
}

/// `compile_entries` works entry by entry.
pub proof fn lemma_compile_entries_index(e: Seq<(Seq<char>, Json)>)
    ensures
        compile_entries(e).len() == e.len(),
        forall|i: int|
            0 <= i < e.len() ==> #[trigger] compile_entries(e)[i] == (
            e[i].0,
            compile_model(e[i].1),
            ),
    decreases e.len(),
{
    if e.len() > 0 {
        let pre = e.subrange(0, e.len() - 1);
        lemma_compile_entries_index(pre);
        assert(forall|i: int| 0 <= i < pre.len() ==> pre[i] == e[i]);
    }
}

/// `evaluate_elements` works element by element.
pub proof fn lemma_evaluate_elements_index(s: Seq<Plan>)
    ensures
        evaluate_elements(s).len() == s.len(),
        forall|i: int| 0 <= i < s.len() ==> #[trigger] evaluate_elements(s)[i] == evaluate(s[i]),
    decreases s.len(),
{
    if s.len() > 0 {
        let pre = s.subrange(0, s.len() - 1);
        lemma_evaluate_elements_index(pre);
        assert(forall|i: int| 0 <= i < pre.len() ==> pre[i] == s[i]);
    }
}

} // verus!
