//! The compiler from values to construction recipes, and a builder that runs
//! a recipe the way the generated code does.
use vstd::prelude::*;
use crate::plan::{
    Plan, compile_elements, compile_entries, compile_model, evaluate, evaluate_elements,
    evaluate_inserts, lemma_compile_elements_index, lemma_compile_entries_index,
    lemma_evaluate_elements_index, map_insert,
};
use crate::value::{
    Json, JsonValue, entry_models, keys_distinct, lemma_entry_models_index, lemma_models_index,
    models,
};

verus! {

/// A construction expression for one value (see `Plan`).
#[derive(Debug, PartialEq, Eq)]
pub enum Recipe {
    NullCtor,
    BoolCtor(bool),
    NumberFromText(String),
    StringFrom(String),
    EmptyArray,
    ArrayOf(Vec<Recipe>),
    EmptyMap,
    MapInserts(usize, Vec<(String, Recipe)>),
}

impl Recipe {
    pub open spec fn model(self) -> Plan
        decreases self,
    {
        match self {
            Recipe::NullCtor => Plan::NullCtor,
            Recipe::BoolCtor(b) => Plan::BoolCtor(b),
            Recipe::NumberFromText(t) => Plan::NumberFromText(t@),
            Recipe::StringFrom(s) => Plan::StringFrom(s@),
            Recipe::EmptyArray => Plan::EmptyArray,
            Recipe::ArrayOf(a) => Plan::ArrayOf(recipe_models(a@)),
            Recipe::EmptyMap => Plan::EmptyMap,
            Recipe::MapInserts(n, e) => Plan::MapInserts(n as nat, insert_models(e@)),
        }
    }
}

/// The models of a sequence of recipes, in order.
pub open spec fn recipe_models(s: Seq<Recipe>) -> Seq<Plan>
    decreases s,
{
    if s.len() == 0 {
        Seq::empty()
    } else {
        recipe_models(s.subrange(0, s.len() - 1)).push(s[s.len() - 1].model())
    }
}

/// The models of a sequence of keyed recipes, in order.
pub open spec fn insert_models(s: Seq<(String, Recipe)>) -> Seq<(Seq<char>, Plan)>
    decreases s,
{
    if s.len() == 0 {
        Seq::empty()
    } else {
        insert_models(s.subrange(0, s.len() - 1)).push(
            (s[s.len() - 1].0@, s[s.len() - 1].1.model()),
        )
    }
}

pub(crate) proof fn lemma_recipe_models_index(s: Seq<Recipe>)
    ensures
        recipe_models(s).len() == s.len(),
        forall|i: int| 0 <= i < s.len() ==> #[trigger] recipe_models(s)[i] == s[i].model(),
    decreases s.len(),
{
    if s.len() > 0 {
        let pre = s.subrange(0, s.len() - 1);
        lemma_recipe_models_index(pre);
        assert(forall|i: int| 0 <= i < pre.len() ==> pre[i] == s[i]);
    }
}

pub(crate) proof fn lemma_insert_models_index(s: Seq<(String, Recipe)>)
    ensures
        insert_models(s).len() == s.len(),
        forall|i: int|
            0 <= i < s.len() ==> #[trigger] insert_models(s)[i] == (s[i].0@, s[i].1.model()),
    decreases s.len(),
{
    if s.len() > 0 {
        let pre = s.subrange(0, s.len() - 1);
        lemma_insert_models_index(pre);
        assert(forall|i: int| 0 <= i < pre.len() ==> pre[i] == s[i]);
    }
}

/// Compiles a value into the recipe that rebuilds it.
///
/// A number becomes a parse of its text, an empty array or object the empty
/// constructor, and a non-empty object a map of its size filled by one insert
/// per entry, in the object's order.
pub fn compile(v: &JsonValue) -> (r: Recipe)
    ensures
        r.model() == compile_model(v.model()),
    decreases v.model(),
{
    match v {
        JsonValue::Null => Recipe::NullCtor,
        JsonValue::Bool(b) => Recipe::BoolCtor(*b),
        JsonValue::Number(t) => Recipe::NumberFromText(t.clone()),
        JsonValue::String(s) => Recipe::StringFrom(s.clone()),
        JsonValue::Array(a) => {
            proof {
                lemma_models_index(a@);
                lemma_compile_elements_index(models(a@));
            }
            if a.len() == 0 {
                return Recipe::EmptyArray;
            }
            let mut out: Vec<Recipe> = Vec::new();
            let mut i: usize = 0;
            while i < a.len()
                invariant
                    v.model() == Json::Array(models(a@)),
                    models(a@).len() == a@.len(),
                    forall|k: int| 0 <= k < a@.len() ==> #[trigger] models(a@)[k] == a@[k].model(),
                    i <= a.len(),
                    out@.len() == i,
                    forall|k: int|
                        0 <= k < i ==> #[trigger] out@[k].model() == compile_model(a@[k].model()),
                decreases a.len() - i,
            {
                proof {
                    let m = v.model();
                    assert(decreases_to!(m => m->Array_0));
                    assert(decreases_to!(m => models(a@)[i as int]));
                }
                let r = compile(&a[i]);
                out.push(r);
                i = i + 1;
            }
            proof {
                lemma_recipe_models_index(out@);
                assert(recipe_models(out@) =~= compile_elements(models(a@)));
            }
            Recipe::ArrayOf(out)
        },
        JsonValue::Object(e) => {
            proof {
                lemma_entry_models_index(e@);
                lemma_compile_entries_index(entry_models(e@));
            }
            if e.len() == 0 {
                return Recipe::EmptyMap;
            }
            let mut out: Vec<(String, Recipe)> = Vec::new();
            let mut i: usize = 0;
            while i < e.len()
                invariant
                    v.model() == Json::Object(entry_models(e@)),
                    entry_models(e@).len() == e@.len(),
                    forall|k: int|
                        0 <= k < e@.len() ==> #[trigger] entry_models(e@)[k] == (
                        e@[k].0@,
                        e@[k].1.model(),
                        ),
                    i <= e.len(),
                    out@.len() == i,
                    forall|k: int|
                        0 <= k < i ==> #[trigger] out@[k].0@ == e@[k].0@ && out@[k].1.model()
                            == compile_model(e@[k].1.model()),
                decreases e.len() - i,
            {
                proof {
                    let m = v.model();
                    let q = entry_models(e@)[i as int];
                    assert(decreases_to!(m => m->Object_0));
                    assert(decreases_to!(m => q));
                    assert(decreases_to!(m => q.1));
                }
                let r = compile(&e[i].1);
                out.push((e[i].0.clone(), r));
                i = i + 1;
            }
            proof {
                lemma_insert_models_index(out@);
                assert(insert_models(out@) =~= compile_entries(entry_models(e@)));
            }
            Recipe::MapInserts(e.len(), out)
        },
    }
}

/// Inserts into an object kept as a vector of entries: an existing key keeps
/// its place and takes the new value; a new key goes last.
fn insert_entry(m: &mut Vec<(String, JsonValue)>, k: String, v: JsonValue)
    requires
        keys_distinct(entry_models(old(m)@)),
    ensures
        entry_models(final(m)@) == map_insert(entry_models(old(m)@), k@, v.model()),
        keys_distinct(entry_models(final(m)@)),
{
    proof {
        lemma_entry_models_index(m@);
    }
    let ghost before = entry_models(m@);
    let mut j: usize = 0;
    while j < m.len()
        invariant
            j <= m.len(),
            m@.len() == before.len(),
            before == entry_models(m@),
            before == entry_models(old(m)@),
            keys_distinct(before),
            forall|x: int|
                0 <= x < m@.len() ==> #[trigger] before[x] == (m@[x].0@, m@[x].1.model()),
            forall|x: int| 0 <= x < j ==> #[trigger] before[x].0 != k@,
        decreases m.len() - j,
    {
        if m[j].0 == k {
            proof {
                assert(before[j as int].0 == k@);
                let i = choose|i: int| 0 <= i < before.len() && before[i].0 == k@;
                assert(i == j);
            }
            let ghost kv = k@;
            let ghost vm = v.model();
            m.set(j, (k, v));
            proof {
                lemma_entry_models_index(m@);
                assert(entry_models(m@) =~= before.update(j as int, (kv, vm)));
                assert(keys_distinct(before.update(j as int, (kv, vm))));
                assert(before[j as int].0 == kv);
                assert(map_insert(before, kv, vm) == before.update(j as int, (kv, vm)));
            }
            return;
        }
        j = j + 1;
    }
    let ghost kv = k@;
    let ghost vm = v.model();
    m.push((k, v));
    proof {
        lemma_entry_models_index(m@);
        assert(!exists|i: int| 0 <= i < before.len() && before[i].0 == kv);
        assert(entry_models(m@) =~= before.push((kv, vm)));
        assert(keys_distinct(before.push((kv, vm))));
        assert(map_insert(before, kv, vm) == before.push((kv, vm)));
    }
}

impl Recipe {
    /// Runs the recipe: builds the value that the generated expression
    /// builds when the program runs.
    pub fn build(&self) -> (r: JsonValue)
        ensures
            r.model() == evaluate(self.model()),
        decreases self.model(),
    {
        match self {
            Recipe::NullCtor => JsonValue::Null,
            Recipe::BoolCtor(b) => JsonValue::Bool(*b),
            Recipe::NumberFromText(t) => JsonValue::Number(t.clone()),
            Recipe::StringFrom(s) => JsonValue::String(s.clone()),
            Recipe::EmptyArray => {
                proof {
                    assert(models(Seq::<JsonValue>::empty()) =~= Seq::<Json>::empty());
                }
                JsonValue::Array(Vec::new())
            },
            Recipe::ArrayOf(a) => {
                proof {
                    lemma_recipe_models_index(a@);
                }
                let mut out: Vec<JsonValue> = Vec::new();
                let mut i: usize = 0;
                while i < a.len()
                    invariant
                        self.model() == Plan::ArrayOf(recipe_models(a@)),
                        recipe_models(a@).len() == a@.len(),
                        forall|k: int|
                            0 <= k < a@.len() ==> #[trigger] recipe_models(a@)[k] == a@[k].model(),
                        i <= a.len(),
                        out@.len() == i,
                        forall|k: int|
                            0 <= k < i ==> #[trigger] out@[k].model() == evaluate(a@[k].model()),
                    decreases a.len() - i,
                {
                    proof {
                        let m = self.model();
                        assert(decreases_to!(m => m->ArrayOf_0));
                        assert(decreases_to!(m => recipe_models(a@)[i as int]));
                    }
                    let r = a[i].build();
                    out.push(r);
                    i = i + 1;
                }
                proof {
                    lemma_models_index(out@);
                    lemma_evaluate_elements_index(recipe_models(a@));
                    assert(models(out@) =~= evaluate_elements(recipe_models(a@)));
                }
                JsonValue::Array(out)
            },
            Recipe::EmptyMap => {
                proof {
                    assert(entry_models(Seq::<(String, JsonValue)>::empty()) =~= Seq::<
                        (Seq<char>, Json),
                    >::empty());
                }
                JsonValue::Object(Vec::new())
            },
            Recipe::MapInserts(n, e) => {
                proof {
                    lemma_insert_models_index(e@);
                }
                let mut out: Vec<(String, JsonValue)> = Vec::with_capacity(*n);
                let mut i: usize = 0;
                while i < e.len()
                    invariant
                        self.model() == Plan::MapInserts(*n as nat, insert_models(e@)),
                        insert_models(e@).len() == e@.len(),
                        forall|k: int|
                            0 <= k < e@.len() ==> #[trigger] insert_models(e@)[k] == (
                            e@[k].0@,
                            e@[k].1.model(),
                            ),
                        i <= e.len(),
                        keys_distinct(entry_models(out@)),
                        entry_models(out@) == evaluate_inserts(
                            insert_models(e@).subrange(0, i as int),
                        ),
                    decreases e.len() - i,
                {
                    proof {
                        let m = self.model();
                        let q = insert_models(e@)[i as int];
                        assert(decreases_to!(m => m->MapInserts_1));
                        assert(decreases_to!(m => q));
                        assert(decreases_to!(m => q.1));
                    }
                    let r = e[i].1.build();
                    insert_entry(&mut out, e[i].0.clone(), r);
                    proof {
                        let s = insert_models(e@).subrange(0, i + 1);
                        assert(s.subrange(0, i as int) =~= insert_models(e@).subrange(
                            0,
                            i as int,
                        ));
                    }
                    i = i + 1;
                }
                proof {
                    assert(insert_models(e@).subrange(0, e@.len() as int) =~= insert_models(e@));
                }
                JsonValue::Object(out)
            },
        }
    }
}

} // verus!
