//! The round-trip law: re-parsing the canonical text of a well-formed
//! value yields that value back, position-exactly. This is the statement
//! that the serializer and the grammar agree.

use vstd::prelude::*;

use crate::parse::{
    is_ws, lemma_obj_insert_absent, lemma_parse_string_rest_scan, matches_at, obj_insert,
    parse_digits, parse_elems, parse_int, parse_pairs, parse_text, parse_value, skip_ws,
};
use crate::render::{
    char_digit, digit_char, is_digit, ser_elems, ser_int, ser_model, ser_nat, ser_pair, ser_pairs,
};
use crate::value::{
    lemma_wf_elems_index, lemma_wf_pairs_index, model_has_key, text_ok, wf_elems, wf_model,
    wf_pairs, ValueModel,
};

verus! {

/// Folds decimal digits onto an accumulator, most significant first.
pub open spec fn fold_digits(acc: int, ds: Seq<char>) -> int
    decreases ds.len(),
{
    if ds.len() == 0 {
        acc
    } else {
        fold_digits(acc * 10 + char_digit(ds[0]), ds.subrange(1, ds.len() as int))
    }
}

/// The digits of a nonnegative integer are digits, and there is at
/// least one of them.
pub proof fn lemma_ser_nat_digits(n: int)
    requires
        n >= 0,
    ensures
        ser_nat(n).len() >= 1,
        forall|x: int| 0 <= x < ser_nat(n).len() ==> is_digit(#[trigger] ser_nat(n)[x]),
    decreases n,
{
    if n >= 10 {
        lemma_ser_nat_digits(n / 10);
        assert forall|x: int|
            0 <= x < ser_nat(n).len() implies is_digit(#[trigger] ser_nat(n)[x]) by {
            if x < ser_nat(n / 10).len() {
                assert(ser_nat(n)[x] == ser_nat(n / 10)[x]);
            }
        }
    }
}

/// Folding after appending one digit multiplies by ten and adds it.
pub proof fn lemma_fold_snoc(acc: int, ds: Seq<char>, c: char)
    ensures
        fold_digits(acc, ds.push(c)) == fold_digits(acc, ds) * 10 + char_digit(c),
    decreases ds.len(),
{
    if ds.len() == 0 {
        assert(ds.push(c).subrange(1, 1) =~= Seq::<char>::empty());
        reveal_with_fuel(fold_digits, 2);
    } else {
        assert(ds.push(c).subrange(1, ds.len() as int + 1) =~= ds.subrange(
            1,
            ds.len() as int,
        ).push(c));
        lemma_fold_snoc(acc * 10 + char_digit(ds[0]), ds.subrange(1, ds.len() as int), c);
    }
}

/// Folding the digits of a nonnegative integer recovers it.
pub proof fn lemma_fold_ser_nat(n: int)
    requires
        n >= 0,
    ensures
        fold_digits(0, ser_nat(n)) == n,
    decreases n,
{
    if n < 10 {
        reveal_with_fuel(fold_digits, 2);
        assert(ser_nat(n).subrange(1, 1) =~= Seq::<char>::empty());
    } else {
        lemma_fold_ser_nat(n / 10);
        lemma_fold_snoc(0, ser_nat(n / 10), digit_char(n % 10));
    }
}

/// A digit run standing in `s` at `i`, followed by a non-digit, is
/// consumed whole by the digit scanner and folds onto the accumulator.
pub proof fn lemma_parse_digits_chunk(s: Seq<char>, i: int, ds: Seq<char>, acc: int)
    requires
        0 <= i,
        i + ds.len() <= s.len(),
        s.subrange(i, i + ds.len() as int) == ds,
        forall|x: int| 0 <= x < ds.len() ==> is_digit(#[trigger] ds[x]),
        i + ds.len() == s.len() || !is_digit(s[i + ds.len()]),
    ensures
        parse_digits(s, i, acc) == (fold_digits(acc, ds), i + ds.len()),
    decreases ds.len(),
{
    if ds.len() == 0 {
    } else {
        assert(s[i] == s.subrange(i, i + ds.len() as int)[0]);
        let tail = ds.subrange(1, ds.len() as int);
        assert forall|x: int| 0 <= x < tail.len() implies is_digit(#[trigger] tail[x]) by {
            assert(tail[x] == ds[x + 1]);
        }
        assert(s.subrange(i + 1, i + ds.len() as int) =~= tail) by {
            assert forall|x: int|
                0 <= x < tail.len() implies s.subrange(i + 1, i + ds.len() as int)[x] == tail[x] by {
                assert(s.subrange(i, i + ds.len() as int)[x + 1] == ds[x + 1]);
            }
        }
        lemma_parse_digits_chunk(s, i + 1, tail, acc * 10 + char_digit(ds[0]));
    }
}

/// The decimal text of an in-range integer, followed by a non-digit,
/// parses back to that integer.
pub proof fn lemma_parse_ser_int(s: Seq<char>, i: int, v: int)
    requires
        i64::MIN <= v <= i64::MAX,
        0 <= i,
        i + ser_int(v).len() <= s.len(),
        s.subrange(i, i + ser_int(v).len() as int) == ser_int(v),
        i + ser_int(v).len() == s.len() || !is_digit(s[i + ser_int(v).len()]),
    ensures
        parse_int(s, i) == Some((ValueModel::Int(v), i + ser_int(v).len())),
{
    let se = ser_int(v);
    let l = se.len() as int;
    assert(s[i] == s.subrange(i, i + l)[0]);
    if v >= 0 {
        lemma_ser_nat_digits(v);
        assert(is_digit(s[i]));
        assert forall|x: int| i <= x < i + l implies is_digit(s[x]) && s[x] != '-' by {
            assert(s.subrange(i, i + l)[x - i] == s[x]);
            assert(is_digit(se[x - i]));
        }
        lemma_parse_digits_chunk(s, i, se, 0);
        lemma_fold_ser_nat(v);
    } else {
        lemma_ser_nat_digits(-v);
        assert(se == seq!['-'] + ser_nat(-v));
        assert(s[i] == '-');
        let ds = ser_nat(-v);
        assert(s.subrange(i + 1, i + l) =~= ds) by {
            assert forall|x: int| 0 <= x < ds.len() implies s.subrange(i + 1, i + l)[x]
                == ds[x] by {
                assert(s.subrange(i, i + l)[x + 1] == se[x + 1]);
            }
        }
        assert(s[i + 1] == s.subrange(i + 1, i + l)[0]);
        assert(is_digit(s[i + 1]));
        lemma_parse_digits_chunk(s, i + 1, ds, 0);
        lemma_fold_ser_nat(-v);
    }
}

/// The first character of a value's canonical text: never whitespace,
/// never a separator or a closing bracket.
pub proof fn lemma_ser_head(m: ValueModel)
    ensures
        ser_model(m).len() > 0,
        ({
            let c = ser_model(m)[0];
            c == 'n' || c == 't' || c == 'f' || c == '"' || c == '-' || is_digit(c) || c == '['
                || c == '{'
        }),
{
    match m {
        ValueModel::Int(v) => {
            if v >= 0 {
                lemma_ser_nat_digits(v);
            } else {
                lemma_ser_nat_digits(-v);
            }
        },
        _ => {},
    }
}

/// The joined text of a non-empty element list starts with the first
/// element's text.
pub proof fn lemma_ser_elems_first(els: Seq<ValueModel>)
    requires
        els.len() > 0,
    ensures
        ser_elems(els).len() >= ser_model(els[0]).len(),
        ser_elems(els).len() > 0,
        forall|x: int|
            0 <= x < ser_model(els[0]).len() ==> #[trigger] ser_elems(els)[x] == ser_model(
                els[0],
            )[x],
{
    lemma_ser_head(els[0]);
    if els.len() == 1 {
    } else {
        let se0 = ser_model(els[0]);
        let rest = seq![','] + ser_elems(els.subrange(1, els.len() as int));
        assert(ser_elems(els) == se0 + rest);
        assert forall|x: int|
            0 <= x < se0.len() implies #[trigger] ser_elems(els)[x] == se0[x] by {
            assert((se0 + rest)[x] == se0[x]);
        }
    }
}

/// The joined text of a non-empty pair list starts with the first
/// pair's text, whose first character is a quote.
pub proof fn lemma_ser_pairs_first(ps: Seq<(Seq<char>, ValueModel)>)
    requires
        ps.len() > 0,
    ensures
        ser_pairs(ps).len() >= ser_pair(ps[0]).len(),
        ser_pair(ps[0]).len() > 0,
        forall|x: int|
            0 <= x < ser_pair(ps[0]).len() ==> #[trigger] ser_pairs(ps)[x] == ser_pair(ps[0])[x],
        ser_pair(ps[0])[0] == '"',
{
    let sp0 = ser_pair(ps[0]);
    assert(sp0 == seq!['"'] + ps[0].0 + seq!['"', ':'] + ser_model(ps[0].1));
    assert(sp0[0] == (seq!['"'] + ps[0].0)[0]);
    if ps.len() == 1 {
    } else {
        let rest = seq![','] + ser_pairs(ps.subrange(1, ps.len() as int));
        assert(ser_pairs(ps) == sp0 + rest);
        assert forall|x: int| 0 <= x < sp0.len() implies #[trigger] ser_pairs(ps)[x] == sp0[x] by {
            assert((sp0 + rest)[x] == sp0[x]);
        }
    }
}

/// The canonical text of a well-formed value, standing in `s` at `i` and
/// followed by the end of text or a non-digit, parses back to exactly
/// that value, ending exactly past the text.
pub proof fn lemma_parse_ser_value(s: Seq<char>, i: int, m: ValueModel)
    requires
        wf_model(m),
        0 <= i,
        i + ser_model(m).len() <= s.len(),
        s.subrange(i, i + ser_model(m).len() as int) == ser_model(m),
        i + ser_model(m).len() == s.len() || !is_digit(s[i + ser_model(m).len()]),
    ensures
        parse_value(s, i) == Some((m, i + ser_model(m).len())),
    decreases m, 0int,
{
    let se = ser_model(m);
    let l = se.len() as int;
    lemma_ser_head(m);
    assert forall|x: int| 0 <= x < l implies s[i + x] == #[trigger] se[x] by {
        assert(s.subrange(i, i + l)[x] == se[x]);
    }
    assert(s[i] == se[0]);
    assert(!is_ws(s[i]));
    assert(skip_ws(s, i) == i);
    match m {
        ValueModel::Null => {
            assert(matches_at(s, i, seq!['n', 'u', 'l', 'l']));
        },
        ValueModel::Bool(b) => {
            if b {
                assert(matches_at(s, i, seq!['t', 'r', 'u', 'e']));
            } else {
                assert(matches_at(s, i, seq!['f', 'a', 'l', 's', 'e']));
                assert(s[i] != 'n' && s[i] != 't');
            }
        },
        ValueModel::Int(v) => {
            lemma_parse_ser_int(s, i, v);
        },
        ValueModel::Str(t) => {
            assert(se == seq!['"'] + t + seq!['"']);
            assert(s[i] == '"');
            assert forall|x: int| i + 1 <= x < i + 1 + t.len() implies s[x] != '"' by {
                assert(se[x - i] == t[x - i - 1]);
                assert(s[i + (x - i)] == se[x - i]);
            }
            assert(se[1 + t.len() as int] == '"');
            assert(s[i + (1 + t.len() as int)] == se[1 + t.len() as int]);
            lemma_parse_string_rest_scan(s, i + 1, i + 1 + t.len() as int);
            assert(s.subrange(i + 1, i + 1 + t.len() as int) =~= t) by {
                assert forall|y: int|
                    0 <= y < t.len() implies s.subrange(i + 1, i + 1 + t.len() as int)[y]
                    == t[y] by {
                    assert(s[i + (1 + y)] == se[1 + y]);
                    assert(se[1 + y] == t[y]);
                }
            }
        },
        ValueModel::Array(els) => {
            assert(s[i] == '[');
            if els.len() == 0 {
                assert(s[i + 1] == se[1]);
                assert(s[i + 1] == ']');
                assert(skip_ws(s, i + 1) == i + 1);
                assert(els =~= Seq::<ValueModel>::empty());
                assert(ValueModel::Array(els) == ValueModel::Array(Seq::<ValueModel>::empty()));
            } else {
                let inner = ser_elems(els);
                assert(se == seq!['['] + inner + seq![']']);
                lemma_wf_elems_index(els);
                lemma_ser_elems_first(els);
                lemma_ser_head(els[0]);
                assert(se[1] == inner[0]);
                assert(inner[0] == ser_model(els[0])[0]);
                assert(s[i + 1] == se[1]);
                assert(!is_ws(s[i + 1]));
                assert(skip_ws(s, i + 1) == i + 1);
                assert(s[i + 1] != ']');
                assert(s.subrange(i + 1, i + 1 + inner.len() as int) =~= inner) by {
                    assert forall|x: int|
                        0 <= x < inner.len() implies s.subrange(
                        i + 1,
                        i + 1 + inner.len() as int,
                    )[x] == inner[x] by {
                        assert(s[i + (1 + x)] == se[1 + x]);
                        assert(se[1 + x] == inner[x]);
                    }
                }
                assert(se[l - 1] == ']');
                assert(s[i + (l - 1)] == se[l - 1]);
                assert(s[i + 1 + inner.len()] == ']');
                lemma_parse_ser_elems(s, i + 1, els, Seq::empty());
                assert(Seq::<ValueModel>::empty() + els =~= els);
            }
        },
        ValueModel::Object(ps) => {
            assert(s[i] == '{');
            if ps.len() == 0 {
                assert(s[i + 1] == se[1]);
                assert(s[i + 1] == '}');
                assert(skip_ws(s, i + 1) == i + 1);
                assert(ps =~= Seq::<(Seq<char>, ValueModel)>::empty());
                assert(ValueModel::Object(ps) == ValueModel::Object(
                    Seq::<(Seq<char>, ValueModel)>::empty(),
                ));
            } else {
                let inner = ser_pairs(ps);
                assert(se == seq!['{'] + inner + seq!['}']);
                lemma_ser_pairs_first(ps);
                assert(inner[0] == '"');
                assert(se[1] == inner[0]);
                assert(s[i + 1] == se[1]);
                assert(skip_ws(s, i + 1) == i + 1);
                assert(s[i + 1] != '}');
                assert(s.subrange(i + 1, i + 1 + inner.len() as int) =~= inner) by {
                    assert forall|x: int|
                        0 <= x < inner.len() implies s.subrange(
                        i + 1,
                        i + 1 + inner.len() as int,
                    )[x] == inner[x] by {
                        assert(s[i + (1 + x)] == se[1 + x]);
                        assert(se[1 + x] == inner[x]);
                    }
                }
                assert(se[l - 1] == '}');
                assert(s[i + (l - 1)] == se[l - 1]);
                assert(s[i + 1 + inner.len()] == '}');
                assert(Seq::<(Seq<char>, ValueModel)>::empty() + ps =~= ps);
                lemma_parse_ser_pairs(s, i + 1, ps, Seq::empty());
            }
        },
    }
}

/// The comma-joined canonical texts of well-formed elements, standing in
/// `s` and closed by `]`, parse back to exactly those elements appended
/// to the accumulator.
pub proof fn lemma_parse_ser_elems(s: Seq<char>, i: int, els: Seq<ValueModel>, acc: Seq<ValueModel>)
    requires
        els.len() > 0,
        wf_elems(els),
        0 <= i,
        i + ser_elems(els).len() + 1 <= s.len(),
        s.subrange(i, i + ser_elems(els).len() as int) == ser_elems(els),
        s[i + ser_elems(els).len()] == ']',
    ensures
        parse_elems(s, i, acc) == Some(
            (ValueModel::Array(acc + els), i + ser_elems(els).len() + 1),
        ),
    decreases els, 1int,
{
    let inner = ser_elems(els);
    let il = inner.len() as int;
    let e0 = els[0];
    let se0 = ser_model(e0);
    let l0 = se0.len() as int;
    lemma_ser_head(e0);
    assert(wf_model(e0));
    assert forall|x: int| 0 <= x < il implies s[i + x] == #[trigger] inner[x] by {
        assert(s.subrange(i, i + il)[x] == inner[x]);
    }
    if els.len() == 1 {
        assert(inner == se0);
        lemma_parse_ser_value(s, i, e0);
        assert(s[i + l0] == ']');
        assert(skip_ws(s, i + l0) == i + l0);
        assert(acc.push(e0) =~= acc + els);
        assert(ValueModel::Array(acc.push(e0)) == ValueModel::Array(acc + els));
    } else {
        let tail = els.subrange(1, els.len() as int);
        let it = ser_elems(tail);
        assert(inner == se0 + seq![','] + it);
        assert(s.subrange(i, i + l0) =~= se0) by {
            assert forall|x: int| 0 <= x < l0 implies s.subrange(i, i + l0)[x] == se0[x] by {
                assert(s[i + x] == inner[x]);
                assert(inner[x] == ((se0 + seq![',']) + it)[x]);
                assert(((se0 + seq![',']) + it)[x] == (se0 + seq![','])[x]);
            }
        }
        assert(inner[l0] == ((se0 + seq![',']) + it)[l0]);
        assert(s[i + l0] == ',');
        assert(!is_digit(','));
        lemma_parse_ser_value(s, i, e0);
        assert(skip_ws(s, i + l0) == i + l0);
        assert(wf_elems(tail));
        assert(tail.len() > 0);
        assert(s.subrange(i + l0 + 1, i + l0 + 1 + it.len() as int) =~= it) by {
            assert forall|x: int|
                0 <= x < it.len() implies s.subrange(i + l0 + 1, i + l0 + 1 + it.len() as int)[x]
                == it[x] by {
                assert(s[i + (l0 + 1 + x)] == inner[l0 + 1 + x]);
                assert(inner[l0 + 1 + x] == ((se0 + seq![',']) + it)[l0 + 1 + x]);
            }
        }
        assert(i + l0 + 1 + it.len() == i + il);
        assert(s[i + l0 + 1 + it.len()] == ']');
        lemma_parse_ser_elems(s, i + l0 + 1, tail, acc.push(e0));
        assert(acc.push(e0) + tail =~= acc + els);
        assert(ValueModel::Array(acc.push(e0) + tail) == ValueModel::Array(acc + els));
    }
}

/// The comma-joined canonical texts of well-formed pairs, standing in
/// `s` and closed by `}`, parse back to exactly those pairs appended to
/// the accumulator.
pub proof fn lemma_parse_ser_pairs(
    s: Seq<char>,
    i: int,
    ps: Seq<(Seq<char>, ValueModel)>,
    acc: Seq<(Seq<char>, ValueModel)>,
)
    requires
        ps.len() > 0,
        wf_pairs(acc + ps),
        0 <= i,
        i + ser_pairs(ps).len() + 1 <= s.len(),
        s.subrange(i, i + ser_pairs(ps).len() as int) == ser_pairs(ps),
        s[i + ser_pairs(ps).len()] == '}',
    ensures
        parse_pairs(s, i, acc) == Some(
            (ValueModel::Object(acc + ps), i + ser_pairs(ps).len() + 1),
        ),
    decreases ps, 1int,
{
    let inner = ser_pairs(ps);
    let il = inner.len() as int;
    let key = ps[0].0;
    let v = ps[0].1;
    let kl = key.len() as int;
    let sp0 = ser_pair(ps[0]);
    let l0 = sp0.len() as int;
    let sv = ser_model(v);
    lemma_wf_pairs_index(acc + ps);
    assert((acc + ps)[acc.len() as int] == ps[0]);
    assert(text_ok(key) && wf_model(v));
    lemma_ser_pairs_first(ps);
    assert forall|x: int| 0 <= x < il implies s[i + x] == #[trigger] inner[x] by {
        assert(s.subrange(i, i + il)[x] == inner[x]);
    }
    assert forall|x: int| 0 <= x < l0 implies s[i + x] == #[trigger] sp0[x] by {
        assert(inner[x] == sp0[x]);
    }
    // the pair's pieces: quote, key, quote, colon, value text
    assert(sp0 == ((seq!['"'] + key) + seq!['"', ':']) + sv);
    assert(sp0[0] == '"');
    assert(s[i] == sp0[0]);
    assert(skip_ws(s, i) == i);
    assert forall|x: int| 0 <= x < kl implies #[trigger] sp0[1 + x] == key[x] by {
        assert(((seq!['"'] + key) + seq!['"', ':'])[1 + x] == (seq!['"'] + key)[1 + x]);
        assert((seq!['"'] + key)[1 + x] == key[x]);
    }
    assert forall|x: int| i + 1 <= x < i + 1 + kl implies s[x] != '"' by {
        assert(s[i + (x - i)] == sp0[x - i]);
        assert(sp0[1 + (x - i - 1)] == key[x - i - 1]);
    }
    assert(sp0[1 + kl] == ((seq!['"'] + key) + seq!['"', ':'])[1 + kl]);
    assert(sp0[1 + kl] == '"');
    assert(s[i + (1 + kl)] == sp0[1 + kl]);
    lemma_parse_string_rest_scan(s, i + 1, i + 1 + kl);
    assert(s.subrange(i + 1, i + 1 + kl) =~= key) by {
        assert forall|x: int| 0 <= x < kl implies s.subrange(i + 1, i + 1 + kl)[x] == key[x] by {
            assert(s[i + (1 + x)] == sp0[1 + x]);
        }
    }
    let k = i + kl + 2;
    assert(sp0[kl + 2] == ((seq!['"'] + key) + seq!['"', ':'])[kl + 2]);
    assert(sp0[kl + 2] == ':');
    assert(s[i + (kl + 2)] == sp0[kl + 2]);
    assert(s[k] == ':');
    assert(skip_ws(s, k) == k);
    // the value: its text runs to i + l0, followed by ',' or '}'
    assert(s.subrange(k + 1, i + l0) =~= sv) by {
        assert forall|x: int| 0 <= x < sv.len() implies s.subrange(k + 1, i + l0)[x] == sv[x] by {
            assert(s[i + (kl + 3 + x)] == sp0[kl + 3 + x]);
            assert(sp0[kl + 3 + x] == sv[x]);
        }
    }
    if ps.len() == 1 {
        assert(inner == sp0);
        assert(s[i + l0] == '}');
    } else {
        let it = ser_pairs(ps.subrange(1, ps.len() as int));
        assert(inner == sp0 + seq![','] + it);
        assert(inner[l0] == ((sp0 + seq![',']) + it)[l0]);
        assert(s[i + l0] == inner[l0]);
        assert(s[i + l0] == ',');
    }
    lemma_parse_ser_value(s, k + 1, v);
    let m = i + l0;
    assert(skip_ws(s, m) == m);
    // key is absent from the accumulator, so the insert appends
    if model_has_key(acc, key) {
        let w = choose|y: int| 0 <= y < acc.len() && (#[trigger] acc[y]).0 == key;
        assert((acc + ps)[w] == acc[w]);
        assert(false);
    }
    lemma_obj_insert_absent(acc, key, v);
    assert((key, v) == ps[0]);
    assert(obj_insert(acc, key, v) =~= acc.push(ps[0]));
    if ps.len() == 1 {
        assert(acc.push(ps[0]) =~= acc + ps);
        assert(ValueModel::Object(obj_insert(acc, key, v)) == ValueModel::Object(acc + ps));
    } else {
        let tail = ps.subrange(1, ps.len() as int);
        let it = ser_pairs(tail);
        assert(inner == sp0 + seq![','] + it);
        assert(s.subrange(m + 1, m + 1 + it.len() as int) =~= it) by {
            assert forall|x: int|
                0 <= x < it.len() implies s.subrange(m + 1, m + 1 + it.len() as int)[x]
                == it[x] by {
                assert(s[i + (l0 + 1 + x)] == inner[l0 + 1 + x]);
                assert(inner[l0 + 1 + x] == ((sp0 + seq![',']) + it)[l0 + 1 + x]);
            }
        }
        assert(m + 1 + it.len() == i + il);
        assert(s[m + 1 + it.len()] == '}');
        assert(acc.push(ps[0]) + tail =~= acc + ps);
        lemma_parse_ser_pairs(s, m + 1, tail, acc.push(ps[0]));
        assert(ValueModel::Object(acc.push(ps[0]) + tail) == ValueModel::Object(acc + ps));
    }
}

/// The round-trip law over parsed texts: whatever value a text parses
/// to, the value's canonical text parses back to the same value.
pub proof fn lemma_parse_ser_parse(s: Seq<char>)
    ensures
        match parse_text(s) {
            Some(m) => parse_text(ser_model(m)) == Some(m),
            None => true,
        },
{
    crate::parse::lemma_parse_value_wf(s, 0);
    match parse_text(s) {
        Some(m) => lemma_value_round_trip(m),
        None => {},
    }
}

/// The round-trip law over complete texts: the canonical text of any
/// well-formed value parses back to exactly that value.
pub proof fn lemma_value_round_trip(m: ValueModel)
    requires
        wf_model(m),
    ensures
        parse_text(ser_model(m)) == Some(m),
{
    let s = ser_model(m);
    assert(s.subrange(0, s.len() as int) =~= s);
    lemma_parse_ser_value(s, 0, m);
    assert(skip_ws(s, s.len() as int) == s.len() as int);
}

} // verus!
