//! Rust source text for a recipe: the expression that the build inserts in
//! place of the macro call.
use vstd::prelude::*;
use crate::plan::Plan;
use crate::recipe::{
    Recipe, insert_models, lemma_insert_models_index, lemma_recipe_models_index, recipe_models,
};

verus! {

/// The lower-case hexadecimal digit for `d < 16`.
pub open spec fn hex_digit(d: nat) -> char {
    if d < 10 { digit(d) } else if d == 10 { 'a' } else if d == 11 { 'b' } else if d == 12 { 'c' }
    else if d == 13 { 'd' } else if d == 14 { 'e' } else { 'f' }
}

/// The hexadecimal numeral of `n`, without leading zeros.
pub open spec fn hex(n: nat) -> Seq<char>
    decreases n,
{
    if n < 16 {
        seq![hex_digit(n)]
    } else {
        hex(n / 16).push(hex_digit(n % 16))
    }
}

/// How one character is written inside a string literal: printable ASCII
/// as itself, a quote or a backslash behind a backslash, and every other
/// character as a `\u{..}` escape of its code point.
pub open spec fn escape_char(c: char) -> Seq<char> {
    if c == '"' {
        seq!['\\', '"']
    } else if c == '\\' {
        seq!['\\', '\\']
    } else if 0x20 <= (c as u32) <= 0x7e {
        seq![c]
    } else {
        seq!['\\', 'u', '{'] + hex(c as u32 as nat) + seq!['}']
    }
}

/// The escaped characters of a string, in order.
pub open spec fn escaped(s: Seq<char>) -> Seq<char>
    decreases s.len(),
{
    if s.len() == 0 {
        Seq::empty()
    } else {
        escaped(s.subrange(0, s.len() - 1)) + escape_char(s[s.len() - 1])
    }
}

/// The Rust source of a string literal whose value is `s`.
pub open spec fn string_literal(s: Seq<char>) -> Seq<char> {
    seq!['"'] + escaped(s) + seq!['"']
}

/// The decimal digit for `d < 10`.
pub open spec fn digit(d: nat) -> char {
    if d == 0 { '0' } else if d == 1 { '1' } else if d == 2 { '2' } else if d == 3 { '3' }
    else if d == 4 { '4' } else if d == 5 { '5' } else if d == 6 { '6' } else if d == 7 { '7' }
    else if d == 8 { '8' } else { '9' }
}

/// The decimal numeral of `n`, without sign, suffix or leading zeros.
pub open spec fn decimal(n: nat) -> Seq<char>
    decreases n,
{
    if n < 10 {
        seq![digit(n)]
    } else {
        decimal(n / 10).push(digit(n % 10))
    }
}

/// Relies on `String::push`: the character goes at the end.
#[verifier::external_body]
fn push_char(out: &mut String, c: char)
    ensures
        final(out)@ == old(out)@.push(c),
{
    out.push(c)
}

/// Relies on `str::chars`, collected: the characters of the string in order.
#[verifier::external_body]
fn chars_of(s: &str) -> (r: Vec<char>)
    ensures
        r@ == s@,
{
    s.chars().collect()
}

fn hex_digit_char(d: u32) -> (c: char)
    requires
        d < 16,
    ensures
        c == hex_digit(d as nat),
{
    if d < 10 { decimal_digit_char(d as usize) } else if d == 10 { 'a' } else if d == 11 { 'b' }
    else if d == 12 { 'c' } else if d == 13 { 'd' } else if d == 14 { 'e' } else { 'f' }
}

fn decimal_digit_char(d: usize) -> (c: char)
    requires
        d < 10,
    ensures
        c == digit(d as nat),
{
    if d == 0 { '0' } else if d == 1 { '1' } else if d == 2 { '2' } else if d == 3 { '3' }
    else if d == 4 { '4' } else if d == 5 { '5' } else if d == 6 { '6' } else if d == 7 { '7' }
    else if d == 8 { '8' } else { '9' }
}

fn push_hex(out: &mut String, n: u32)
    ensures
        final(out)@ == old(out)@ + hex(n as nat),
    decreases n,
{
    if n >= 16 {
        push_hex(out, n / 16);
    }
    push_char(out, hex_digit_char(n % 16));
    proof {
        if n < 16 {
            assert(old(out)@.push(hex_digit((n % 16) as nat)) =~= old(out)@ + hex(n as nat));
        } else {
            assert(final(out)@ =~= old(out)@ + hex(n as nat));
        }
    }
}

fn push_decimal(out: &mut String, n: usize)
    ensures
        final(out)@ == old(out)@ + decimal(n as nat),
    decreases n,
{
    if n >= 10 {
        push_decimal(out, n / 10);
    }
    push_char(out, decimal_digit_char(n % 10));
    proof {
        if n < 10 {
            assert(old(out)@.push(digit((n % 10) as nat)) =~= old(out)@ + decimal(n as nat));
        } else {
            assert(final(out)@ =~= old(out)@ + decimal(n as nat));
        }
    }
}

fn push_escaped_char(out: &mut String, c: char)
    ensures
        final(out)@ == old(out)@ + escape_char(c),
{
    if c == '"' {
        push_char(out, '\\');
        push_char(out, '"');
    } else if c == '\\' {
        push_char(out, '\\');
        push_char(out, '\\');
    } else if 0x20 <= (c as u32) && (c as u32) <= 0x7e {
        push_char(out, c);
    } else {
        push_char(out, '\\');
        push_char(out, 'u');
        push_char(out, '{');
        push_hex(out, c as u32);
        push_char(out, '}');
    }
    proof {
        assert(final(out)@ =~= old(out)@ + escape_char(c));
    }
}

/// Writes the string literal of `s`.
fn push_string_literal(out: &mut String, s: &str)
    ensures
        final(out)@ == old(out)@ + string_literal(s@),
{
    let ghost start = out@;
    let cs = chars_of(s);
    push_char(out, '"');
    let mut i: usize = 0;
    while i < cs.len()
        invariant
            i <= cs@.len(),
            cs@ == s@,
            out@ == start + seq!['"'] + escaped(cs@.subrange(0, i as int)),
        decreases cs.len() - i,
    {
        push_escaped_char(out, cs[i]);
        proof {
            let t = cs@.subrange(0, i + 1);
            assert(t.subrange(0, i as int) =~= cs@.subrange(0, i as int));
            assert(out@ =~= start + seq!['"'] + escaped(t));
        }
        i = i + 1;
    }
    push_char(out, '"');
    proof {
        assert(cs@.subrange(0, cs@.len() as int) =~= s@);
        assert(out@ =~= old(out)@ + string_literal(s@));
    }
}

/// The source text of the expression that a plan stands for.
pub open spec fn source_text(p: Plan) -> Seq<char>
    decreases p,
{
    match p {
        Plan::NullCtor => "::serde_json::Value::Null"@,
        Plan::BoolCtor(b) => "::serde_json::Value::Bool("@ + (if b {
            "true"@
        } else {
            "false"@
        }) + ")"@,
        Plan::NumberFromText(t) => "::serde_json::Value::Number(::core::str::FromStr::from_str("@
            + string_literal(t) + ").unwrap())"@,
        Plan::StringFrom(s) => "::serde_json::Value::String(::core::convert::From::from("@
            + string_literal(s) + "))"@,
        Plan::EmptyArray => "::serde_json::Value::Array(::core::default::Default::default())"@,
        Plan::ArrayOf(s) => "::serde_json::Value::Array(::std::vec!["@ + elements_text(s) + "])"@,
        Plan::EmptyMap => "::serde_json::Value::Object(::serde_json::Map::new())"@,
        Plan::MapInserts(n, e) => "::serde_json::Value::Object({ let mut object = ::serde_json::Map::with_capacity("@
            + decimal(n) + "); "@ + inserts_text(e) + "object })"@,
    }
}

/// The elements of a vector expression, separated by commas.
pub open spec fn elements_text(s: Seq<Plan>) -> Seq<char>
    decreases s,
{
    if s.len() == 0 {
        Seq::empty()
    } else if s.len() == 1 {
        source_text(s[0])
    } else {
        elements_text(s.subrange(0, s.len() - 1)) + ", "@ + source_text(s[s.len() - 1])
    }
}

/// One insert statement per entry, in order.
pub open spec fn inserts_text(e: Seq<(Seq<char>, Plan)>) -> Seq<char>
    decreases e,
{
    if e.len() == 0 {
        Seq::empty()
    } else {
        inserts_text(e.subrange(0, e.len() - 1))
            + "let _ = object.insert(::core::convert::From::from("@ + string_literal(
            e[e.len() - 1].0,
        ) + "), "@ + source_text(e[e.len() - 1].1) + "); "@
    }
}

fn push_source(r: &Recipe, out: &mut String)
    ensures
        final(out)@ == old(out)@ + source_text(r.model()),
    decreases r.model(),
{
    let ghost start = out@;
    match r {
        Recipe::NullCtor => out.append("::serde_json::Value::Null"),
        Recipe::BoolCtor(b) => {
            out.append("::serde_json::Value::Bool(");
            if *b {
                out.append("true");
            } else {
                out.append("false");
            }
            out.append(")");
        },
        Recipe::NumberFromText(t) => {
            out.append("::serde_json::Value::Number(::core::str::FromStr::from_str(");
            push_string_literal(out, t.as_str());
            out.append(").unwrap())");
        },
        Recipe::StringFrom(t) => {
            out.append("::serde_json::Value::String(::core::convert::From::from(");
            push_string_literal(out, t.as_str());
            out.append("))");
        },
        Recipe::EmptyArray => out.append(
            "::serde_json::Value::Array(::core::default::Default::default())",
        ),
        Recipe::ArrayOf(a) => {
            out.append("::serde_json::Value::Array(::std::vec![");
            let ghost head = out@;
            let ghost rm = recipe_models(a@);
            proof {
                lemma_recipe_models_index(a@);
            }
            let mut i: usize = 0;
            while i < a.len()
                invariant
                    r.model() == Plan::ArrayOf(rm),
                    rm == recipe_models(a@),
                    rm.len() == a@.len(),
                    forall|k: int| 0 <= k < a@.len() ==> #[trigger] rm[k] == a@[k].model(),
                    i <= a.len(),
                    out@ == head + elements_text(rm.subrange(0, i as int)),
                decreases a.len() - i,
            {
                proof {
                    let m = r.model();
                    assert(decreases_to!(m => m->ArrayOf_0));
                    assert(decreases_to!(m => rm[i as int]));
                }
                let ghost before = out@;
                if i > 0 {
                    out.append(", ");
                }
                push_source(&a[i], out);
                proof {
                    let s = rm.subrange(0, i + 1);
                    assert(s.subrange(0, i as int) =~= rm.subrange(0, i as int));
                    if i == 0 {
                        assert(elements_text(rm.subrange(0, 0)) =~= Seq::<char>::empty());
                    }
                    assert(out@ =~= head + elements_text(s));
                }
                i = i + 1;
            }
            proof {
                assert(rm.subrange(0, a@.len() as int) =~= rm);
            }
            out.append("])");
        },
        Recipe::EmptyMap => out.append("::serde_json::Value::Object(::serde_json::Map::new())"),
        Recipe::MapInserts(n, e) => {
            out.append(
                "::serde_json::Value::Object({ let mut object = ::serde_json::Map::with_capacity(",
            );
            push_decimal(out, *n);
            out.append("); ");
            let ghost head = out@;
            let ghost em = insert_models(e@);
            proof {
                lemma_insert_models_index(e@);
            }
            let mut i: usize = 0;
            while i < e.len()
                invariant
                    r.model() == Plan::MapInserts(*n as nat, em),
                    em == insert_models(e@),
                    em.len() == e@.len(),
                    forall|k: int|
                        0 <= k < e@.len() ==> #[trigger] em[k] == (e@[k].0@, e@[k].1.model()),
                    i <= e.len(),
                    out@ == head + inserts_text(em.subrange(0, i as int)),
                decreases e.len() - i,
            {
                proof {
                    let m = r.model();
                    let q = em[i as int];
                    assert(decreases_to!(m => m->MapInserts_1));
                    assert(decreases_to!(m => q));
                    assert(decreases_to!(m => q.1));
                }
                out.append("let _ = object.insert(::core::convert::From::from(");
                push_string_literal(out, e[i].0.as_str());
                out.append("), ");
                push_source(&e[i].1, out);
                out.append("); ");
                proof {
                    let s = em.subrange(0, i + 1);
                    assert(s.subrange(0, i as int) =~= em.subrange(0, i as int));
                    assert(out@ =~= head + inserts_text(s));
                }
                i = i + 1;
            }
            proof {
                assert(em.subrange(0, e@.len() as int) =~= em);
            }
            out.append("object })");
        },
    }
    proof {
        assert(out@ =~= start + source_text(r.model()));
    }
}

impl Recipe {
    /// The Rust source of the expression that this recipe stands for.
    pub fn to_source(&self) -> (r: String)
        ensures
            r@ == source_text(self.model()),
    {
        let mut out = String::new();
        push_source(self, &mut out);
        proof {
            assert(out@ =~= Seq::<char>::empty() + source_text(self.model()));
        }
        out
    }
}

} // verus!
