//! What holds of the compiler and of the expressions that it emits.
use vstd::prelude::*;
use crate::plan::{
    Plan, compile_elements, compile_entries, compile_model, evaluate, evaluate_elements,
    evaluate_inserts, lemma_compile_elements_index, lemma_compile_entries_index,
};
use crate::value::{Json, elements_well_formed, entries_well_formed, keys_distinct, well_formed};

verus! {

proof fn lemma_elements_round_trip(a: Seq<Json>)
    requires
        elements_well_formed(a),
    ensures
        evaluate_elements(compile_elements(a)) == a,
    decreases a,
{
    if a.len() > 0 {
        let n = a.len() - 1;
        let pre = a.subrange(0, n);
        lemma_elements_round_trip(pre);
        lemma_round_trip(a[n]);
        lemma_compile_elements_index(pre);
        let c = compile_elements(a);
        assert(c.subrange(0, c.len() - 1) =~= compile_elements(pre));
        assert(pre.push(a[n]) =~= a);
    }
}

proof fn lemma_entries_round_trip(e: Seq<(Seq<char>, Json)>)
    requires
        keys_distinct(e),
        entries_well_formed(e),
    ensures
        evaluate_inserts(compile_entries(e)) == e,
    decreases e,
{
    if e.len() > 0 {
        let n = e.len() - 1;
        let pre = e.subrange(0, n);
        assert(keys_distinct(pre));
        lemma_entries_round_trip(pre);
        lemma_round_trip(e[n].1);
        lemma_compile_entries_index(pre);
        let c = compile_entries(e);
        assert(c.subrange(0, c.len() - 1) =~= compile_entries(pre));
        assert(!exists|i: int| 0 <= i < pre.len() && pre[i].0 == e[n].0);
        assert(pre.push((e[n].0, e[n].1)) =~= e);
    }
}

/// Running the expression that the compiler emits for a well-formed value
/// rebuilds that value: the same variants, the same elements and entries in
/// the same order, the same number text and so the same numeric kind.
pub proof fn lemma_round_trip(j: Json)
    requires
        well_formed(j),
    ensures
        evaluate(compile_model(j)) == j,
    decreases j,
{
    match j {
        Json::Array(a) => {
            if a.len() > 0 {
                lemma_elements_round_trip(a);
            } else {
                assert(a =~= Seq::empty());
            }
        },
        Json::Object(e) => {
            if e.len() > 0 {
                lemma_entries_round_trip(e);
            } else {
                assert(e =~= Seq::empty());
            }
        },
        _ => {},
    }
}

/// Rebuilding an object keeps its keys in the order the document gave them.
pub proof fn lemma_key_order_kept(e: Seq<(Seq<char>, Json)>)
    requires
        well_formed(Json::Object(e)),
    ensures
        evaluate(compile_model(Json::Object(e))) is Object,
        evaluate(compile_model(Json::Object(e)))->Object_0.len() == e.len(),
        forall|i: int|
            0 <= i < e.len() ==> #[trigger] evaluate(compile_model(Json::Object(e)))->Object_0[i].0
                == e[i].0,
{
    lemma_round_trip(Json::Object(e));
}

/// A number's text reads as an integer: no fraction and no exponent.
pub open spec fn integer_text(t: Seq<char>) -> bool {
    forall|i: int| 0 <= i < t.len() ==> #[trigger] t[i] != '.' && t[i] != 'e' && t[i] != 'E'
}

/// A number is rebuilt from its own text, so an integer stays an integer
/// and a float stays a float.
pub proof fn lemma_number_kind_kept(t: Seq<char>)
    ensures
        compile_model(Json::Number(t)) == Plan::NumberFromText(t),
        evaluate(compile_model(Json::Number(t))) is Number,
        integer_text(evaluate(compile_model(Json::Number(t)))->Number_0) == integer_text(t),
{
}

} // verus!
