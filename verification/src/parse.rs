//! The query-language value grammar: a recursive-descent parser for the
//! JSON-like document sublanguage (object / array / string / signed
//! 64-bit integer / boolean / null), with insignificant whitespace
//! between tokens and no escape sequences inside strings.
//!
//! The spec functions in this module are the grammar's definition; the
//! executable parser is proved to return exactly what they describe.

use vstd::prelude::*;
use vstd::string::{StrSliceExecFns, StringExecFns};

use crate::render::{char_digit, is_digit};
use crate::value::{
    array_models, lemma_array_models_push, lemma_object_models, lemma_object_models_push,
    lemma_object_models_update, model_has_key, object_models, text_ok, value_model, wf_elems,
    wf_model, wf_pairs, Value, ValueModel,
};

verus! {

/// Whitespace characters the grammar ignores between tokens.
pub open spec fn is_ws(c: char) -> bool {
    c == ' ' || c == '\t' || c == '\n' || c == '\r'
}

/// Position of the first non-whitespace character at or after `i`.
pub open spec fn skip_ws(s: Seq<char>, i: int) -> int
    decreases s.len() - i,
{
    if 0 <= i && i < s.len() && is_ws(s[i]) {
        skip_ws(s, i + 1)
    } else {
        i
    }
}

/// The literal `lit` occurs in `s` starting at position `i`.
pub open spec fn matches_at(s: Seq<char>, i: int, lit: Seq<char>) -> bool {
    &&& 0 <= i
    &&& i + lit.len() <= s.len()
    &&& s.subrange(i, i + lit.len() as int) == lit
}

/// Parses the remainder of a string token after the opening quote:
/// the contents up to the next quote, and the position after it.
pub open spec fn parse_string_rest(s: Seq<char>, i: int) -> Option<(Seq<char>, int)>
    decreases s.len() - i,
{
    if i < 0 || i >= s.len() {
        None
    } else if s[i] == '"' {
        Some((Seq::empty(), i + 1))
    } else {
        match parse_string_rest(s, i + 1) {
            None => None,
            Some((t, k)) => Some((seq![s[i]] + t, k)),
        }
    }
}

/// Consumes a maximal digit run starting at `i`, folding the digits onto
/// `acc` most significant first; yields the value and the end position.
pub open spec fn parse_digits(s: Seq<char>, i: int, acc: int) -> (int, int)
    decreases s.len() - i,
{
    if 0 <= i && i < s.len() && is_digit(s[i]) {
        parse_digits(s, i + 1, acc * 10 + char_digit(s[i]))
    } else {
        (acc, i)
    }
}

/// Parses an optionally signed integer literal. A value outside the
/// signed 64-bit range is a syntax error, not a wrapped value.
pub open spec fn parse_int(s: Seq<char>, i: int) -> Option<(ValueModel, int)> {
    if 0 <= i && i < s.len() && s[i] == '-' {
        if i + 1 < s.len() && is_digit(s[i + 1]) {
            let (n, k) = parse_digits(s, i + 1, 0);
            if i64::MIN <= -n {
                Some((ValueModel::Int(-n), k))
            } else {
                None
            }
        } else {
            None
        }
    } else if 0 <= i && i < s.len() && is_digit(s[i]) {
        let (n, k) = parse_digits(s, i, 0);
        if n <= i64::MAX {
            Some((ValueModel::Int(n), k))
        } else {
            None
        }
    } else {
        None
    }
}

/// Inserting a pair into an ordered object: an existing key keeps its
/// position and takes the new value; a new key is appended.
pub open spec fn obj_insert(
    ps: Seq<(Seq<char>, ValueModel)>,
    key: Seq<char>,
    v: ValueModel,
) -> Seq<(Seq<char>, ValueModel)>
    decreases ps.len(),
{
    if ps.len() == 0 {
        seq![(key, v)]
    } else if ps[0].0 == key {
        seq![(key, v)] + ps.subrange(1, ps.len() as int)
    } else {
        seq![ps[0]] + obj_insert(ps.subrange(1, ps.len() as int), key, v)
    }
}

/// Parses one value starting at `i0` (leading whitespace allowed) and
/// yields its model and the position just past it.
pub open spec fn parse_value(s: Seq<char>, i0: int) -> Option<(ValueModel, int)>
    decreases s.len() - i0, 10int,
{
    if i0 < 0 {
        None
    } else {
        let i = skip_ws(s, i0);
        if i < i0 || i >= s.len() {
            None
        } else if s[i] == 'n' {
            if matches_at(s, i, seq!['n', 'u', 'l', 'l']) {
                Some((ValueModel::Null, i + 4))
            } else {
                None
            }
        } else if s[i] == 't' {
            if matches_at(s, i, seq!['t', 'r', 'u', 'e']) {
                Some((ValueModel::Bool(true), i + 4))
            } else {
                None
            }
        } else if s[i] == 'f' {
            if matches_at(s, i, seq!['f', 'a', 'l', 's', 'e']) {
                Some((ValueModel::Bool(false), i + 5))
            } else {
                None
            }
        } else if s[i] == '"' {
            match parse_string_rest(s, i + 1) {
                None => None,
                Some((t, k)) => Some((ValueModel::Str(t), k)),
            }
        } else if s[i] == '-' || is_digit(s[i]) {
            parse_int(s, i)
        } else if s[i] == '[' {
            let j = skip_ws(s, i + 1);
            if j <= i {
                None
            } else if j < s.len() && s[j] == ']' {
                Some((ValueModel::Array(Seq::empty()), j + 1))
            } else {
                parse_elems(s, i + 1, Seq::empty())
            }
        } else if s[i] == '{' {
            let j = skip_ws(s, i + 1);
            if j <= i {
                None
            } else if j < s.len() && s[j] == '}' {
                Some((ValueModel::Object(Seq::empty()), j + 1))
            } else {
                parse_pairs(s, i + 1, Seq::empty())
            }
        } else {
            None
        }
    }
}

/// Parses the remaining elements of a non-empty array, the elements
/// already read standing in `acc`.
pub open spec fn parse_elems(s: Seq<char>, i: int, acc: Seq<ValueModel>) -> Option<
    (ValueModel, int),
>
    decreases s.len() - i, 11int,
{
    if i < 0 {
        None
    } else {
        match parse_value(s, i) {
            None => None,
            Some((v, k)) => {
                if k <= i || k > s.len() {
                    None
                } else {
                    let k2 = skip_ws(s, k);
                    if k2 < k || k2 >= s.len() {
                        None
                    } else if s[k2] == ',' {
                        parse_elems(s, k2 + 1, acc.push(v))
                    } else if s[k2] == ']' {
                        Some((ValueModel::Array(acc.push(v)), k2 + 1))
                    } else {
                        None
                    }
                }
            },
        }
    }
}

/// Parses the remaining pairs of a non-empty object, the pairs already
/// read standing in `acc`.
pub open spec fn parse_pairs(
    s: Seq<char>,
    i: int,
    acc: Seq<(Seq<char>, ValueModel)>,
) -> Option<(ValueModel, int)>
    decreases s.len() - i, 11int,
{
    if i < 0 {
        None
    } else {
        let j = skip_ws(s, i);
        if j < i || j >= s.len() {
            None
        } else if s[j] != '"' {
            None
        } else {
            match parse_string_rest(s, j + 1) {
                None => None,
                Some((key, k)) => {
                    if k <= j || k > s.len() {
                        None
                    } else {
                        let k2 = skip_ws(s, k);
                        if k2 < k || k2 >= s.len() {
                            None
                        } else if s[k2] != ':' {
                            None
                        } else {
                            match parse_value(s, k2 + 1) {
                                None => None,
                                Some((v, m)) => {
                                    if m <= k2 || m > s.len() {
                                        None
                                    } else {
                                        let m2 = skip_ws(s, m);
                                        if m2 < m || m2 >= s.len() {
                                            None
                                        } else if s[m2] == ',' {
                                            parse_pairs(s, m2 + 1, obj_insert(acc, key, v))
                                        } else if s[m2] == '}' {
                                            Some(
                                                (
                                                    ValueModel::Object(obj_insert(acc, key, v)),
                                                    m2 + 1,
                                                ),
                                            )
                                        } else {
                                            None
                                        }
                                    }
                                },
                            }
                        }
                    }
                },
            }
        }
    }
}

/// What a successful string-token parse returns: the characters up to
/// the next quote, none of them a quote, and the position after it.
pub proof fn lemma_parse_string_rest_props(s: Seq<char>, i: int)
    requires
        0 <= i <= s.len(),
    ensures
        parse_string_rest(s, i) matches Some((t, k)) ==> {
            &&& i < k <= s.len()
            &&& t =~= s.subrange(i, k - 1)
            &&& s[k - 1] == '"'
            &&& text_ok(t)
        },
    decreases s.len() - i,
{
    if i < s.len() && s[i] != '"' {
        lemma_parse_string_rest_props(s, i + 1);
    }
}

/// A scan that stops at the first quote character at position `j` is
/// exactly what the string-token parse returns.
pub proof fn lemma_parse_string_rest_scan(s: Seq<char>, i: int, j: int)
    requires
        0 <= i <= j < s.len(),
        forall|k: int| i <= k < j ==> s[k] != '"',
        s[j] == '"',
    ensures
        parse_string_rest(s, i) == Some((s.subrange(i, j), j + 1)),
    decreases j - i,
{
    if i == j {
        assert(s.subrange(i, j) =~= Seq::<char>::empty());
    } else {
        lemma_parse_string_rest_scan(s, i + 1, j);
        assert(seq![s[i]] + s.subrange(i + 1, j) =~= s.subrange(i, j));
    }
}

/// Without a closing quote the string-token parse fails.
pub proof fn lemma_parse_string_rest_none(s: Seq<char>, i: int)
    requires
        0 <= i <= s.len(),
        forall|k: int| i <= k < s.len() ==> s[k] != '"',
    ensures
        parse_string_rest(s, i) is None,
    decreases s.len() - i,
{
    if i < s.len() {
        lemma_parse_string_rest_none(s, i + 1);
    }
}

/// A digit run covers digits only, ends at the first non-digit, and its
/// folded value can only grow from the accumulator.
pub proof fn lemma_parse_digits_props(s: Seq<char>, i: int, acc: int)
    requires
        0 <= i <= s.len(),
        acc >= 0,
    ensures
        ({
            let (n, k) = parse_digits(s, i, acc);
            &&& i <= k <= s.len()
            &&& (k < s.len() ==> !is_digit(s[k]))
            &&& forall|x: int| i <= x < k ==> is_digit(s[x])
            &&& n >= acc
            &&& (k > i ==> n >= 0)
        }),
    decreases s.len() - i,
{
    if i < s.len() && is_digit(s[i]) {
        lemma_parse_digits_props(s, i + 1, acc * 10 + char_digit(s[i]));
    }
}

/// Inserting into an object whose keys do not include `key` appends.
pub proof fn lemma_obj_insert_absent(
    ps: Seq<(Seq<char>, ValueModel)>,
    key: Seq<char>,
    v: ValueModel,
)
    requires
        !model_has_key(ps, key),
    ensures
        obj_insert(ps, key, v) =~= ps.push((key, v)),
    decreases ps.len(),
{
    if ps.len() > 0 {
        let tail = ps.subrange(1, ps.len() as int);
        assert(ps[0].0 != key);
        assert forall|i: int| 0 <= i < tail.len() implies (#[trigger] tail[i]).0 != key by {
            assert(tail[i] == ps[i + 1]);
        }
        lemma_obj_insert_absent(tail, key, v);
        assert(seq![ps[0]] + tail.push((key, v)) =~= ps.push((key, v)));
    }
}

/// Inserting at the position of an existing key replaces its value in
/// place.
pub proof fn lemma_obj_insert_found(
    ps: Seq<(Seq<char>, ValueModel)>,
    key: Seq<char>,
    v: ValueModel,
    idx: int,
)
    requires
        0 <= idx < ps.len(),
        ps[idx].0 == key,
        forall|j: int| 0 <= j < idx ==> (#[trigger] ps[j]).0 != key,
    ensures
        obj_insert(ps, key, v) =~= ps.update(idx, (key, v)),
    decreases idx,
{
    if idx == 0 {
        assert(seq![(key, v)] + ps.subrange(1, ps.len() as int) =~= ps.update(0, (key, v)));
    } else {
        let tail = ps.subrange(1, ps.len() as int);
        assert(ps[0].0 != key);
        assert(tail[idx - 1].0 == key);
        assert forall|j: int| 0 <= j < idx - 1 implies (#[trigger] tail[j]).0 != key by {
            assert(tail[j] == ps[j + 1]);
        }
        lemma_obj_insert_found(tail, key, v, idx - 1);
        assert(seq![ps[0]] + tail.update(idx - 1, (key, v)) =~= ps.update(idx, (key, v)));
    }
}

/// Inserting a well-formed pair into a well-formed object keeps the
/// object well formed, and introduces no key other than `key`.
pub proof fn lemma_obj_insert_wf(ps: Seq<(Seq<char>, ValueModel)>, key: Seq<char>, v: ValueModel)
    requires
        wf_pairs(ps),
        text_ok(key),
        wf_model(v),
    ensures
        wf_pairs(obj_insert(ps, key, v)),
        forall|x: int|
            0 <= x < obj_insert(ps, key, v).len() ==> ((#[trigger] obj_insert(ps, key, v)[x]).0
                == key || model_has_key(ps, obj_insert(ps, key, v)[x].0)),
    decreases ps.len(),
{
    let r = obj_insert(ps, key, v);
    reveal_with_fuel(wf_pairs, 2);
    if ps.len() == 0 {
        assert(r.subrange(1, r.len() as int) =~= Seq::<(Seq<char>, ValueModel)>::empty());
    } else {
        let tail = ps.subrange(1, ps.len() as int);
        if ps[0].0 == key {
            assert(r.subrange(1, r.len() as int) =~= tail);
            assert forall|x: int|
                0 <= x < r.len() implies ((#[trigger] r[x]).0 == key || model_has_key(
                ps,
                r[x].0,
            )) by {
                if x > 0 {
                    assert(r[x] == ps[x]);
                }
            }
        } else {
            lemma_obj_insert_wf(tail, key, v);
            let rt = obj_insert(tail, key, v);
            assert(r =~= seq![ps[0]] + rt);
            assert(r.subrange(1, r.len() as int) =~= rt);
            if model_has_key(rt, ps[0].0) {
                let w = choose|y: int| 0 <= y < rt.len() && (#[trigger] rt[y]).0 == ps[0].0;
                if rt[w].0 != key {
                    let u = choose|y: int|
                        0 <= y < tail.len() && (#[trigger] tail[y]).0 == rt[w].0;
                    assert(model_has_key(tail, ps[0].0));
                }
                assert(false);
            }
            assert forall|x: int|
                0 <= x < r.len() implies ((#[trigger] r[x]).0 == key || model_has_key(
                ps,
                r[x].0,
            )) by {
                if x > 0 {
                    assert(r[x] == rt[x - 1]);
                    if rt[x - 1].0 != key {
                        let w = choose|y: int|
                            0 <= y < tail.len() && (#[trigger] tail[y]).0 == rt[x - 1].0;
                        assert(ps[w + 1] == tail[w]);
                        assert(model_has_key(ps, r[x].0));
                    }
                } else {
                    assert(ps[0].0 == r[0].0);
                    assert(model_has_key(ps, r[0].0));
                }
            }
        }
    }
}

/// Appending a well-formed element keeps an array well formed.
pub proof fn lemma_wf_elems_push(els: Seq<ValueModel>, v: ValueModel)
    requires
        wf_elems(els),
        wf_model(v),
    ensures
        wf_elems(els.push(v)),
    decreases els.len(),
{
    reveal_with_fuel(wf_elems, 2);
    if els.len() == 0 {
        assert(els.push(v)[0] == v);
        assert(els.push(v).subrange(1, 1) =~= Seq::<ValueModel>::empty());
    } else {
        let tail = els.subrange(1, els.len() as int);
        lemma_wf_elems_push(tail, v);
        assert(els.push(v).subrange(1, els.len() as int + 1) =~= tail.push(v));
        assert(els.push(v)[0] == els[0]);
    }
}

/// Every value the grammar yields is well formed: integers in range,
/// no quote inside a string, object keys unique.
pub proof fn lemma_parse_value_wf(s: Seq<char>, i0: int)
    ensures
        parse_value(s, i0) matches Some((m, k)) ==> wf_model(m),
    decreases s.len() - i0, 10int,
{
    if i0 >= 0 {
        let i = skip_ws(s, i0);
        if i0 <= i < s.len() {
            if s[i] == '"' {
                lemma_parse_string_rest_props(s, i + 1);
            } else if s[i] == '-' || is_digit(s[i]) {
                if s[i] == '-' && i + 1 < s.len() && is_digit(s[i + 1]) {
                    lemma_parse_digits_props(s, i + 1, 0);
                } else if is_digit(s[i]) {
                    lemma_parse_digits_props(s, i, 0);
                }
            } else if s[i] == '[' {
                let j = skip_ws(s, i + 1);
                if j > i && !(j < s.len() && s[j] == ']') {
                    lemma_parse_elems_wf(s, i + 1, Seq::empty());
                }
            } else if s[i] == '{' {
                let j = skip_ws(s, i + 1);
                if j > i && !(j < s.len() && s[j] == '}') {
                    lemma_parse_pairs_wf(s, i + 1, Seq::empty());
                }
            }
        }
    }
}

/// Array elements parsed onto a well-formed accumulator yield a
/// well-formed array.
pub proof fn lemma_parse_elems_wf(s: Seq<char>, i: int, acc: Seq<ValueModel>)
    requires
        wf_elems(acc),
    ensures
        parse_elems(s, i, acc) matches Some((m, k)) ==> wf_model(m),
    decreases s.len() - i, 11int,
{
    if i >= 0 {
        lemma_parse_value_wf(s, i);
        match parse_value(s, i) {
            None => {},
            Some((v, k)) => {
                if i < k <= s.len() {
                    let k2 = skip_ws(s, k);
                    if k <= k2 < s.len() {
                        lemma_wf_elems_push(acc, v);
                        if s[k2] == ',' {
                            lemma_parse_elems_wf(s, k2 + 1, acc.push(v));
                        }
                    }
                }
            },
        }
    }
}

/// Object pairs parsed onto a well-formed accumulator yield a
/// well-formed object.
pub proof fn lemma_parse_pairs_wf(s: Seq<char>, i: int, acc: Seq<(Seq<char>, ValueModel)>)
    requires
        wf_pairs(acc),
    ensures
        parse_pairs(s, i, acc) matches Some((m, k)) ==> wf_model(m),
    decreases s.len() - i, 11int,
{
    if i >= 0 {
        let j = skip_ws(s, i);
        if i <= j < s.len() && s[j] == '"' {
            lemma_parse_string_rest_props(s, j + 1);
            match parse_string_rest(s, j + 1) {
                None => {},
                Some((key, k)) => {
                    if j < k <= s.len() {
                        let k2 = skip_ws(s, k);
                        if k <= k2 < s.len() && s[k2] == ':' {
                            lemma_parse_value_wf(s, k2 + 1);
                            match parse_value(s, k2 + 1) {
                                None => {},
                                Some((v, m)) => {
                                    if k2 < m <= s.len() {
                                        lemma_obj_insert_wf(acc, key, v);
                                        let m2 = skip_ws(s, m);
                                        if m <= m2 < s.len() && s[m2] == ',' {
                                            lemma_parse_pairs_wf(s, m2 + 1, obj_insert(acc, key, v));
                                        }
                                    }
                                },
                            }
                        }
                    }
                },
            }
        }
    }
}

/// Parses a complete text as one value: one value token, possibly
/// surrounded by whitespace, and nothing else.
pub open spec fn parse_text(s: Seq<char>) -> Option<ValueModel> {
    match parse_value(s, 0) {
        None => None,
        Some((v, k)) => if skip_ws(s, k) == s.len() {
            Some(v)
        } else {
            None
        },
    }
}

/// Position of the first non-whitespace character at or after `i`,
/// executably.
pub(crate) fn ws_end(s: &str, i: usize) -> (r: usize)
    requires
        i as int <= s@.len(),
    ensures
        r as int == skip_ws(s@, i as int),
        i <= r,
        r as int <= s@.len(),
    decreases s@.len() - i as int,
{
    let n = s.unicode_len();
    if i < n {
        let c = s.get_char(i);
        if c == ' ' || c == '\t' || c == '\n' || c == '\r' {
            return ws_end(s, i + 1);
        }
    }
    i
}

/// Whether the literal `lit` stands in `s` at `i`, matched from
/// character `k` on.
pub(crate) fn match_prefix(s: &str, i: usize, lit: &str, k: usize) -> (r: bool)
    requires
        i as int + lit@.len() <= s@.len(),
        i as int + lit@.len() <= usize::MAX,
        k as int <= lit@.len(),
        forall|x: int| 0 <= x < k as int ==> s@[i + x] == lit@[x],
    ensures
        r == matches_at(s@, i as int, lit@),
    decreases lit@.len() - k as int,
{
    let ll = lit.unicode_len();
    if k == ll {
        proof {
            assert(s@.subrange(i as int, i as int + lit@.len() as int) =~= lit@) by {
                assert forall|x: int|
                    0 <= x < lit@.len() implies s@.subrange(
                    i as int,
                    i as int + lit@.len() as int,
                )[x] == lit@[x] by {
                    assert(s@[i + x] == lit@[x]);
                }
            }
        }
        true
    } else {
        let a = s.get_char(i + k);
        let b = lit.get_char(k);
        if a == b {
            assert forall|x: int| 0 <= x < k as int + 1 implies s@[i + x] == lit@[x] by {
                if x < k as int {
                    assert(s@[i + x] == lit@[x]);
                }
            }
            match_prefix(s, i, lit, k + 1)
        } else {
            proof {
                if matches_at(s@, i as int, lit@) {
                    assert(s@.subrange(i as int, i as int + lit@.len() as int)[k as int]
                        == lit@[k as int]);
                }
            }
            false
        }
    }
}

/// Whether the literal `lit` stands in `s` at position `i`.
pub(crate) fn match_lit(s: &str, i: usize, lit: &str) -> (r: bool)
    requires
        i as int <= s@.len(),
    ensures
        r == matches_at(s@, i as int, lit@),
{
    let n = s.unicode_len();
    let ll = lit.unicode_len();
    if ll > n - i {
        assert(!matches_at(s@, i as int, lit@));
        return false;
    }
    match_prefix(s, i, lit, 0)
}

/// Position of the first quote character at or after `i`, if any.
pub(crate) fn quote_end(s: &str, i: usize) -> (r: Option<usize>)
    requires
        i as int <= s@.len(),
    ensures
        match r {
            Some(q) => i <= q && (q as int) < s@.len() && s@[q as int] == '"' && forall|x: int|
                i as int <= x < q as int ==> s@[x] != '"',
            None => forall|x: int| i as int <= x < s@.len() ==> s@[x] != '"',
        },
    decreases s@.len() - i as int,
{
    let n = s.unicode_len();
    if i >= n {
        return None;
    }
    let c = s.get_char(i);
    if c == '"' {
        return Some(i);
    }
    let r = quote_end(s, i + 1);
    proof {
        match r {
            Some(q) => {
                assert forall|x: int| i as int <= x < q as int implies s@[x] != '"' by {
                    if x > i as int {
                        assert(s@[x] != '"');
                    }
                }
            },
            None => {
                assert forall|x: int| i as int <= x < s@.len() implies s@[x] != '"' by {
                    if x > i as int {
                        assert(s@[x] != '"');
                    }
                }
            },
        }
    }
    r
}

/// The numeric value of a digit character.
pub(crate) fn digit_val(c: char) -> (r: Option<u64>)
    ensures
        match r {
            Some(d) => is_digit(c) && d as int == char_digit(c) && d <= 9,
            None => !is_digit(c),
        },
{
    if c == '0' {
        Some(0)
    } else if c == '1' {
        Some(1)
    } else if c == '2' {
        Some(2)
    } else if c == '3' {
        Some(3)
    } else if c == '4' {
        Some(4)
    } else if c == '5' {
        Some(5)
    } else if c == '6' {
        Some(6)
    } else if c == '7' {
        Some(7)
    } else if c == '8' {
        Some(8)
    } else if c == '9' {
        Some(9)
    } else {
        None
    }
}

/// Consumes a maximal digit run, tracking whether the folded value still
/// fits below `2^63`; a larger value can only grow further.
fn scan_digits(s: &str, i: usize, acc: Option<u64>, g: Ghost<int>) -> (r: (Option<u64>, usize))
    requires
        i as int <= s@.len(),
        g@ >= 0,
        match acc {
            Some(a) => a as int == g@ && g@ <= 0x8000000000000000,
            None => g@ > 0x8000000000000000,
        },
    ensures
        ({
            let (n, k) = parse_digits(s@, i as int, g@);
            &&& r.1 as int == k
            &&& i <= r.1
            &&& k <= s@.len()
            &&& match r.0 {
                Some(a) => a as int == n && n <= 0x8000000000000000,
                None => n > 0x8000000000000000,
            }
        }),
    decreases s@.len() - i as int,
{
    let n_len = s.unicode_len();
    if i >= n_len {
        return (acc, i);
    }
    let c = s.get_char(i);
    match digit_val(c) {
        None => (acc, i),
        Some(d) => {
            let next: Option<u64> = match acc {
                Some(a) => {
                    if a <= 922337203685477580 {
                        let w = a * 10 + d;
                        if w <= 0x8000000000000000 {
                            Some(w)
                        } else {
                            None
                        }
                    } else {
                        assert(g@ * 10 + char_digit(s@[i as int]) > 0x8000000000000000);
                        None
                    }
                },
                None => {
                    assert(g@ * 10 + char_digit(s@[i as int]) > 0x8000000000000000);
                    None
                },
            };
            scan_digits(s, i + 1, next, Ghost(g@ * 10 + char_digit(s@[i as int])))
        },
    }
}

/// Parses an optionally signed integer literal, executably.
fn parse_int_at(s: &str, i: usize) -> (r: Option<(i64, usize)>)
    requires
        i as int <= s@.len(),
    ensures
        match (r, parse_int(s@, i as int)) {
            (None, None) => true,
            (Some((v, k)), Some((vm, km))) => vm == ValueModel::Int(v as int) && k as int == km
                && i < k && k as int <= s@.len(),
            _ => false,
        },
{
    let n = s.unicode_len();
    if i >= n {
        return None;
    }
    let c = s.get_char(i);
    if c == '-' {
        if i + 1 < n {
            let c2 = s.get_char(i + 1);
            if digit_val(c2).is_some() {
                proof {
                    lemma_parse_digits_props(s@, i as int + 1, 0);
                }
                let (opt, end) = scan_digits(s, i + 1, Some(0), Ghost(0int));
                match opt {
                    Some(a) => {
                        let v: i64 = if a == 0x8000000000000000 {
                            i64::MIN
                        } else {
                            -(a as i64)
                        };
                        Some((v, end))
                    },
                    None => None,
                }
            } else {
                None
            }
        } else {
            None
        }
    } else {
        match digit_val(c) {
            Some(_) => {
                proof {
                    lemma_parse_digits_props(s@, i as int, 0);
                }
                let (opt, end) = scan_digits(s, i, Some(0), Ghost(0int));
                match opt {
                    Some(a) => {
                        if a <= 0x7fffffffffffffff {
                            Some((a as i64, end))
                        } else {
                            None
                        }
                    },
                    None => None,
                }
            },
            None => None,
        }
    }
}

/// Parses one value starting at `i`, executably: returns exactly what
/// the grammar's spec parser describes, as an executable [`Value`].
pub fn parse_value_at(s: &str, i: usize) -> (r: Option<(Value, usize)>)
    requires
        i as int <= s@.len(),
    ensures
        match (r, parse_value(s@, i as int)) {
            (None, None) => true,
            (Some((v, k)), Some((vm, km))) => v@ == vm && k as int == km && i < k && k as int
                <= s@.len(),
            _ => false,
        },
    decreases s@.len() - i as int, 10int,
{
    let n = s.unicode_len();
    let j = ws_end(s, i);
    if j >= n {
        return None;
    }
    let c = s.get_char(j);
    proof {
        reveal_strlit("null");
        reveal_strlit("true");
        reveal_strlit("false");
        assert(("null")@ =~= seq!['n', 'u', 'l', 'l']);
        assert(("true")@ =~= seq!['t', 'r', 'u', 'e']);
        assert(("false")@ =~= seq!['f', 'a', 'l', 's', 'e']);
    }
    if c == 'n' {
        if match_lit(s, j, "null") {
            Some((Value::Null, j + 4))
        } else {
            None
        }
    } else if c == 't' {
        if match_lit(s, j, "true") {
            Some((Value::Bool(true), j + 4))
        } else {
            None
        }
    } else if c == 'f' {
        if match_lit(s, j, "false") {
            Some((Value::Bool(false), j + 5))
        } else {
            None
        }
    } else if c == '"' {
        match quote_end(s, j + 1) {
            None => {
                proof {
                    lemma_parse_string_rest_none(s@, j as int + 1);
                }
                None
            },
            Some(q) => {
                let content = s.substring_char(j + 1, q);
                let st = String::from_str(content);
                proof {
                    lemma_parse_string_rest_scan(s@, j as int + 1, q as int);
                }
                Some((Value::Str(st), q + 1))
            },
        }
    } else if c == '-' || digit_val(c).is_some() {
        match parse_int_at(s, j) {
            None => None,
            Some((v, k)) => Some((Value::Int(v), k)),
        }
    } else if c == '[' {
        let j2 = ws_end(s, j + 1);
        if j2 < n && s.get_char(j2) == ']' {
            let out: Vec<Value> = Vec::new();
            proof {
                assert(array_models(out@) =~= Seq::<ValueModel>::empty());
            }
            Some((Value::Array(out), j2 + 1))
        } else {
            let mut acc: Vec<Value> = Vec::new();
            proof {
                assert(array_models(acc@) =~= Seq::<ValueModel>::empty());
            }
            match parse_elems_at(s, j + 1, &mut acc) {
                None => None,
                Some(k) => Some((Value::Array(acc), k)),
            }
        }
    } else if c == '{' {
        let j2 = ws_end(s, j + 1);
        if j2 < n && s.get_char(j2) == '}' {
            let out: Vec<(String, Value)> = Vec::new();
            proof {
                assert(object_models(out@) =~= Seq::<(Seq<char>, ValueModel)>::empty());
            }
            Some((Value::Object(out), j2 + 1))
        } else {
            let mut acc: Vec<(String, Value)> = Vec::new();
            proof {
                assert(object_models(acc@) =~= Seq::<(Seq<char>, ValueModel)>::empty());
            }
            match parse_pairs_at(s, j + 1, &mut acc) {
                None => None,
                Some(k) => Some((Value::Object(acc), k)),
            }
        }
    } else {
        None
    }
}

/// Parses the remaining elements of a non-empty array onto `acc`,
/// executably.
fn parse_elems_at(s: &str, i: usize, acc: &mut Vec<Value>) -> (r: Option<usize>)
    requires
        i as int <= s@.len(),
    ensures
        match (r, parse_elems(s@, i as int, array_models(old(acc)@))) {
            (None, None) => true,
            (Some(k), Some((vm, km))) => k as int == km && i < k && k as int <= s@.len() && vm
                == ValueModel::Array(array_models(final(acc)@)),
            _ => false,
        },
    decreases s@.len() - i as int, 11int,
{
    let ghost ms0 = array_models(acc@);
    match parse_value_at(s, i) {
        None => None,
        Some((v, k)) => {
            proof {
                lemma_array_models_push(acc@, v);
            }
            let ghost vm = v@;
            acc.push(v);
            let n = s.unicode_len();
            let k2 = ws_end(s, k);
            if k2 >= n {
                return None;
            }
            let c = s.get_char(k2);
            if c == ',' {
                parse_elems_at(s, k2 + 1, acc)
            } else if c == ']' {
                Some(k2 + 1)
            } else {
                None
            }
        },
    }
}

/// First position at or after `from` whose pair carries `key`, if any.
fn find_key(ps: &Vec<(String, Value)>, key: &String, from: usize) -> (r: Option<usize>)
    requires
        from <= ps.len(),
    ensures
        match r {
            Some(x) => from <= x < ps.len() && (#[trigger] ps@[x as int]).0@ == key@ && forall|
                y: int,
            |
                from as int <= y < x as int ==> (#[trigger] ps@[y]).0@ != key@,
            None => forall|y: int|
                from as int <= y < ps@.len() ==> (#[trigger] ps@[y]).0@ != key@,
        },
    decreases ps.len() - from,
{
    if from == ps.len() {
        return None;
    }
    if ps[from].0 == *key {
        return Some(from);
    }
    let r = find_key(ps, key, from + 1);
    proof {
        match r {
            Some(x) => {
                assert forall|y: int|
                    from as int <= y < x as int implies (#[trigger] ps@[y]).0@ != key@ by {
                    if y > from as int {
                        assert(ps@[y].0@ != key@);
                    }
                }
            },
            None => {
                assert forall|y: int|
                    from as int <= y < ps@.len() implies (#[trigger] ps@[y]).0@ != key@ by {
                    if y > from as int {
                        assert(ps@[y].0@ != key@);
                    }
                }
            },
        }
    }
    r
}

/// Ordered-object insert on the executable representation: an existing
/// key keeps its position and takes the new value; a new key is
/// appended.
pub fn obj_insert_exec(ps: &mut Vec<(String, Value)>, key: String, v: Value)
    ensures
        object_models(final(ps)@) == obj_insert(object_models(old(ps)@), key@, value_model(v)),
{
    let ghost ms = object_models(ps@);
    proof {
        lemma_object_models(ps@);
    }
    match find_key(ps, &key, 0) {
        Some(x) => {
            proof {
                lemma_object_models_update(ps@, x as int, (key, v));
                assert(ms[x as int].0 == key@);
                assert forall|y: int| 0 <= y < x as int implies (#[trigger] ms[y]).0 != key@ by {
                    assert(ms[y] == (ps@[y].0@, value_model(ps@[y].1)));
                }
                lemma_obj_insert_found(ms, key@, value_model(v), x as int);
            }
            ps.set(x, (key, v));
        },
        None => {
            proof {
                lemma_object_models_push(ps@, (key, v));
                if model_has_key(ms, key@) {
                    let w = choose|y: int| 0 <= y < ms.len() && (#[trigger] ms[y]).0 == key@;
                    assert(ms[w] == (ps@[w].0@, value_model(ps@[w].1)));
                    assert(false);
                }
                lemma_obj_insert_absent(ms, key@, value_model(v));
            }
            ps.push((key, v));
        },
    }
}

/// Parses the remaining pairs of a non-empty object onto `acc`,
/// executably.
fn parse_pairs_at(s: &str, i: usize, acc: &mut Vec<(String, Value)>) -> (r: Option<usize>)
    requires
        i as int <= s@.len(),
    ensures
        match (r, parse_pairs(s@, i as int, object_models(old(acc)@))) {
            (None, None) => true,
            (Some(k), Some((vm, km))) => k as int == km && i < k && k as int <= s@.len() && vm
                == ValueModel::Object(object_models(final(acc)@)),
            _ => false,
        },
    decreases s@.len() - i as int, 11int,
{
    let n = s.unicode_len();
    let j = ws_end(s, i);
    if j >= n {
        return None;
    }
    let c = s.get_char(j);
    if c != '"' {
        return None;
    }
    match quote_end(s, j + 1) {
        None => {
            proof {
                lemma_parse_string_rest_none(s@, j as int + 1);
            }
            None
        },
        Some(q) => {
            let content = s.substring_char(j + 1, q);
            let key = String::from_str(content);
            proof {
                lemma_parse_string_rest_scan(s@, j as int + 1, q as int);
            }
            let k = q + 1;
            let k2 = ws_end(s, k);
            if k2 >= n {
                return None;
            }
            let c2 = s.get_char(k2);
            if c2 != ':' {
                return None;
            }
            match parse_value_at(s, k2 + 1) {
                None => None,
                Some((v, m)) => {
                    obj_insert_exec(acc, key, v);
                    let m2 = ws_end(s, m);
                    if m2 >= n {
                        return None;
                    }
                    let c3 = s.get_char(m2);
                    if c3 == ',' {
                        parse_pairs_at(s, m2 + 1, acc)
                    } else if c3 == '}' {
                        Some(m2 + 1)
                    } else {
                        None
                    }
                },
            }
        },
    }
}

/// Parses a complete text as one value, executably; the result is well
/// formed.
pub fn parse_value_text(s: &str) -> (r: Option<Value>)
    ensures
        match (r, parse_text(s@)) {
            (None, None) => true,
            (Some(v), Some(vm)) => v@ == vm && wf_model(vm),
            _ => false,
        },
{
    proof {
        lemma_parse_value_wf(s@, 0);
    }
    match parse_value_at(s, 0) {
        None => None,
        Some((v, k)) => {
            let n = s.unicode_len();
            let k2 = ws_end(s, k);
            if k2 == n {
                Some(v)
            } else {
                None
            }
        },
    }
}

} // verus!
