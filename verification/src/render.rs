//! Canonical text form of document values: the serializer used to render
//! result documents and to state the compiler's round-trip law.

use vstd::prelude::*;
use vstd::string::StringExecFns;

use crate::value::{
    array_models, lemma_array_models, lemma_array_models_tail, lemma_object_models,
    lemma_object_models_tail, object_models, value_model, Value, ValueModel,
};

verus! {

/// The ten decimal digit characters.
pub open spec fn is_digit(c: char) -> bool {
    c == '0' || c == '1' || c == '2' || c == '3' || c == '4' || c == '5' || c == '6' || c == '7'
        || c == '8' || c == '9'
}

/// The digit character for `d` (meaningful for `0 <= d <= 9`).
pub open spec fn digit_char(d: int) -> char {
    if d == 0 {
        '0'
    } else if d == 1 {
        '1'
    } else if d == 2 {
        '2'
    } else if d == 3 {
        '3'
    } else if d == 4 {
        '4'
    } else if d == 5 {
        '5'
    } else if d == 6 {
        '6'
    } else if d == 7 {
        '7'
    } else if d == 8 {
        '8'
    } else {
        '9'
    }
}

/// The value of a digit character (meaningful for digit characters).
pub open spec fn char_digit(c: char) -> int {
    if c == '0' {
        0
    } else if c == '1' {
        1
    } else if c == '2' {
        2
    } else if c == '3' {
        3
    } else if c == '4' {
        4
    } else if c == '5' {
        5
    } else if c == '6' {
        6
    } else if c == '7' {
        7
    } else if c == '8' {
        8
    } else {
        9
    }
}

/// Decimal digits of a nonnegative integer, most significant first.
pub open spec fn ser_nat(n: int) -> Seq<char>
    decreases n,
{
    if n < 10 {
        seq![digit_char(n)]
    } else {
        ser_nat(n / 10).push(digit_char(n % 10))
    }
}

/// Decimal text of an integer, with a leading minus sign when negative.
pub open spec fn ser_int(i: int) -> Seq<char> {
    if i < 0 {
        seq!['-'] + ser_nat(-i)
    } else {
        ser_nat(i)
    }
}

/// Canonical text of a value: no whitespace, strings quoted verbatim,
/// object pairs and array elements comma-separated in order.
pub open spec fn ser_model(m: ValueModel) -> Seq<char>
    decreases m, 1int,
{
    match m {
        ValueModel::Null => seq!['n', 'u', 'l', 'l'],
        ValueModel::Bool(b) => if b {
            seq!['t', 'r', 'u', 'e']
        } else {
            seq!['f', 'a', 'l', 's', 'e']
        },
        ValueModel::Int(i) => ser_int(i),
        ValueModel::Str(s) => seq!['"'] + s + seq!['"'],
        ValueModel::Array(els) => seq!['['] + ser_elems(els) + seq![']'],
        ValueModel::Object(ps) => seq!['{'] + ser_pairs(ps) + seq!['}'],
    }
}

/// Comma-joined canonical text of array elements.
pub open spec fn ser_elems(els: Seq<ValueModel>) -> Seq<char>
    decreases els, 2int,
{
    if els.len() == 0 {
        Seq::empty()
    } else if els.len() == 1 {
        ser_model(els[0])
    } else {
        ser_model(els[0]) + seq![','] + ser_elems(els.subrange(1, els.len() as int))
    }
}

/// Canonical text of one key/value pair.
pub open spec fn ser_pair(p: (Seq<char>, ValueModel)) -> Seq<char>
    decreases p, 2int,
{
    seq!['"'] + p.0 + seq!['"', ':'] + ser_model(p.1)
}

/// Comma-joined canonical text of object pairs.
pub open spec fn ser_pairs(ps: Seq<(Seq<char>, ValueModel)>) -> Seq<char>
    decreases ps, 3int,
{
    if ps.len() == 0 {
        Seq::empty()
    } else if ps.len() == 1 {
        ser_pair(ps[0])
    } else {
        ser_pair(ps[0]) + seq![','] + ser_pairs(ps.subrange(1, ps.len() as int))
    }
}

/// Appends the digit character for `d`.
fn push_digit(out: &mut String, d: u64)
    requires
        d < 10,
    ensures
        final(out)@ == old(out)@ + seq![digit_char(d as int)],
{
    let ds: &str = if d == 0 {
        "0"
    } else if d == 1 {
        "1"
    } else if d == 2 {
        "2"
    } else if d == 3 {
        "3"
    } else if d == 4 {
        "4"
    } else if d == 5 {
        "5"
    } else if d == 6 {
        "6"
    } else if d == 7 {
        "7"
    } else if d == 8 {
        "8"
    } else {
        "9"
    };
    proof {
        reveal_strlit("0");
        reveal_strlit("1");
        reveal_strlit("2");
        reveal_strlit("3");
        reveal_strlit("4");
        reveal_strlit("5");
        reveal_strlit("6");
        reveal_strlit("7");
        reveal_strlit("8");
        reveal_strlit("9");
        assert(ds@ =~= seq![digit_char(d as int)]);
    }
    out.append(ds);
}

/// Appends the decimal digits of `n`, most significant first.
pub(crate) fn push_nat(out: &mut String, n: u64)
    ensures
        final(out)@ == old(out)@ + ser_nat(n as int),
    decreases n,
{
    if n < 10 {
        push_digit(out, n);
    } else {
        push_nat(out, n / 10);
        push_digit(out, n % 10);
        assert(final(out)@ =~= old(out)@ + ser_nat(n as int));
    }
}

/// Appends the decimal text of `i`, with a minus sign when negative.
fn push_int(out: &mut String, i: i64)
    ensures
        final(out)@ == old(out)@ + ser_int(i as int),
{
    if i >= 0 {
        push_nat(out, i as u64);
    } else {
        proof {
            reveal_strlit("-");
        }
        out.append("-");
        let mag: u64 = if i == i64::MIN {
            9223372036854775808
        } else {
            (-i) as u64
        };
        assert(mag as int == -(i as int));
        push_nat(out, mag);
        assert(final(out)@ =~= old(out)@ + ser_int(i as int));
    }
}

/// Appends the canonical text of `v`.
pub fn push_value(out: &mut String, v: &Value)
    ensures
        final(out)@ == old(out)@ + ser_model(v@),
    decreases v, 0int, 0int,
{
    match v {
        Value::Null => {
            proof {
                reveal_strlit("null");
                assert(("null")@ =~= seq!['n', 'u', 'l', 'l']);
            }
            out.append("null");
        },
        Value::Bool(b) => {
            if *b {
                proof {
                    reveal_strlit("true");
                    assert(("true")@ =~= seq!['t', 'r', 'u', 'e']);
                }
                out.append("true");
            } else {
                proof {
                    reveal_strlit("false");
                    assert(("false")@ =~= seq!['f', 'a', 'l', 's', 'e']);
                }
                out.append("false");
            }
        },
        Value::Int(i) => {
            push_int(out, *i);
        },
        Value::Str(s) => {
            proof {
                reveal_strlit("\"");
                assert(("\"")@ =~= seq!['"']);
            }
            out.append("\"");
            out.append(s.as_str());
            out.append("\"");
            assert(final(out)@ =~= old(out)@ + ser_model(v@));
        },
        Value::Array(els) => {
            proof {
                reveal_strlit("[");
                reveal_strlit("]");
                assert(("[")@ =~= seq!['[']);
                assert(("]")@ =~= seq![']']);
            }
            out.append("[");
            if els.len() > 0 {
                push_elems(out, els, 0);
                proof {
                    assert(els@.subrange(0, els@.len() as int) =~= els@);
                }
            } else {
                assert(array_models(els@) =~= Seq::<ValueModel>::empty());
            }
            out.append("]");
            assert(final(out)@ =~= old(out)@ + ser_model(v@));
        },
        Value::Object(ps) => {
            proof {
                reveal_strlit("{");
                reveal_strlit("}");
                assert(("{")@ =~= seq!['{']);
                assert(("}")@ =~= seq!['}']);
            }
            out.append("{");
            if ps.len() > 0 {
                push_pairs(out, ps, 0);
                proof {
                    assert(ps@.subrange(0, ps@.len() as int) =~= ps@);
                }
            } else {
                assert(object_models(ps@) =~= Seq::<(Seq<char>, ValueModel)>::empty());
            }
            out.append("}");
            assert(final(out)@ =~= old(out)@ + ser_model(v@));
        },
    }
}

/// Appends the comma-joined canonical text of `els[from..]`.
fn push_elems(out: &mut String, els: &Vec<Value>, from: usize)
    requires
        from < els.len(),
    ensures
        final(out)@ == old(out)@ + ser_elems(
            array_models(els@.subrange(from as int, els@.len() as int)),
        ),
    decreases els, els@.len() - from, 1int,
{
    let ghost sub = els@.subrange(from as int, els@.len() as int);
    proof {
        broadcast use vstd::std_specs::vec::group_vec_axioms;

        lemma_array_models(sub);
        assert(decreases_to!(els => els@));
        assert(decreases_to!(els@ => els@[from as int]));
    }
    push_value(out, &els[from]);
    if from + 1 < els.len() {
        proof {
            reveal_strlit(",");
            assert((",")@ =~= seq![',']);
        }
        out.append(",");
        push_elems(out, els, from + 1);
        proof {
            lemma_array_models_tail(els@, from as int);
            assert(final(out)@ =~= old(out)@ + ser_elems(array_models(sub)));
        }
    } else {
        assert(sub[0] == els@[from as int]);
    }
}

/// Appends the comma-joined canonical text of the pairs `ps[from..]`.
fn push_pairs(out: &mut String, ps: &Vec<(String, Value)>, from: usize)
    requires
        from < ps.len(),
    ensures
        final(out)@ == old(out)@ + ser_pairs(
            object_models(ps@.subrange(from as int, ps@.len() as int)),
        ),
    decreases ps, ps@.len() - from, 1int,
{
    let ghost sub = ps@.subrange(from as int, ps@.len() as int);
    proof {
        broadcast use vstd::std_specs::vec::group_vec_axioms;

        lemma_object_models(sub);
        assert(decreases_to!(ps => ps@));
        assert(decreases_to!(ps@ => ps@[from as int]));
        assert(decreases_to!(ps@[from as int] => ps@[from as int].1));
        reveal_strlit("\"");
        reveal_strlit("\":");
        assert(("\"")@ =~= seq!['"']);
        assert(("\":")@ =~= seq!['"', ':']);
    }
    out.append("\"");
    out.append(ps[from].0.as_str());
    out.append("\":");
    push_value(out, &ps[from].1);
    assert(out@ =~= old(out)@ + ser_pair(object_models(sub)[0]));
    if from + 1 < ps.len() {
        proof {
            reveal_strlit(",");
            assert((",")@ =~= seq![',']);
        }
        out.append(",");
        push_pairs(out, ps, from + 1);
        proof {
            lemma_object_models_tail(ps@, from as int);
            assert(final(out)@ =~= old(out)@ + ser_pairs(object_models(sub)));
        }
    } else {
        assert(sub[0] == ps@[from as int]);
    }
}

/// The canonical text of a value: the form results are rendered in and
/// the form whose re-parse the round-trip law speaks about.
pub fn to_text(v: &Value) -> (out: String)
    ensures
        out@ == ser_model(v@),
{
    let mut out = String::new();
    push_value(&mut out, v);
    proof {
        assert(out@ =~= ser_model(v@));
    }
    out
}

} // verus!
