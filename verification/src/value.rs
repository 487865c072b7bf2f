//! The recursive document-value type shared between the query compiler
//! and the wire payload, together with its mathematical model.

use vstd::prelude::*;

verus! {

/// Mathematical model of a document value: the spec-level mirror of
/// [`Value`], with unbounded integers and sequences.
pub enum ValueModel {
    Null,
    Bool(bool),
    Int(int),
    Str(Seq<char>),
    Array(Seq<ValueModel>),
    Object(Seq<(Seq<char>, ValueModel)>),
}

/// A document value: object / array / string / signed 64-bit integer /
/// boolean / null. Objects keep insertion order and have unique keys
/// (see [`wf_model`]).
#[derive(Debug, PartialEq)]
pub enum Value {
    Null,
    Bool(bool),
    Int(i64),
    Str(String),
    Array(Vec<Value>),
    Object(Vec<(String, Value)>),
}

/// The model of an executable value.
pub open spec fn value_model(v: Value) -> ValueModel
    decreases v, 1int,
    via value_model_decreases
{
    match v {
        Value::Null => ValueModel::Null,
        Value::Bool(b) => ValueModel::Bool(b),
        Value::Int(i) => ValueModel::Int(i as int),
        Value::Str(s) => ValueModel::Str(s@),
        Value::Array(els) => ValueModel::Array(array_models(els@)),
        Value::Object(ps) => ValueModel::Object(object_models(ps@)),
    }
}

/// The models of the elements of an array, in order.
pub open spec fn array_models(els: Seq<Value>) -> Seq<ValueModel>
    decreases els, 0int,
{
    if els.len() == 0 {
        Seq::empty()
    } else {
        seq![value_model(els[0])] + array_models(els.subrange(1, els.len() as int))
    }
}

/// The models of the key/value pairs of an object, in order.
pub open spec fn object_models(ps: Seq<(String, Value)>) -> Seq<(Seq<char>, ValueModel)>
    decreases ps, 0int,
{
    if ps.len() == 0 {
        Seq::empty()
    } else {
        seq![(ps[0].0@, value_model(ps[0].1))] + object_models(ps.subrange(1, ps.len() as int))
    }
}

#[via_fn]
proof fn value_model_decreases(v: Value) {
    broadcast use vstd::std_specs::vec::group_vec_axioms;

    match v {
        Value::Array(els) => {
            assert(decreases_to!(v => els));
            assert(decreases_to!(els => els@));
        },
        Value::Object(ps) => {
            assert(decreases_to!(v => ps));
            assert(decreases_to!(ps => ps@));
        },
        _ => {},
    }
}

/// Element-wise reading of [`array_models`].
pub proof fn lemma_array_models(els: Seq<Value>)
    ensures
        array_models(els).len() == els.len(),
        forall|i: int|
            0 <= i < els.len() ==> array_models(els)[i] == value_model(#[trigger] els[i]),
    decreases els.len(),
{
    if els.len() > 0 {
        let tail = els.subrange(1, els.len() as int);
        lemma_array_models(tail);
        assert forall|i: int|
            0 <= i < els.len() implies array_models(els)[i] == value_model(#[trigger] els[i]) by {
            if i > 0 {
                assert(tail[i - 1] == els[i]);
            }
        }
    }
}

/// Element-wise reading of [`object_models`].
pub proof fn lemma_object_models(ps: Seq<(String, Value)>)
    ensures
        object_models(ps).len() == ps.len(),
        forall|i: int|
            0 <= i < ps.len() ==> object_models(ps)[i] == ((#[trigger] ps[i]).0@,
            value_model(ps[i].1)),
    decreases ps.len(),
{
    if ps.len() > 0 {
        let tail = ps.subrange(1, ps.len() as int);
        lemma_object_models(tail);
        assert forall|i: int|
            0 <= i < ps.len() implies object_models(ps)[i] == ((#[trigger] ps[i]).0@,
        value_model(ps[i].1)) by {
            if i > 0 {
                assert(tail[i - 1] == ps[i]);
            }
        }
    }
}

impl View for Value {
    type V = ValueModel;

    open spec fn view(&self) -> ValueModel {
        value_model(*self)
    }
}

/// Dropping the first element of a suffix of `els` commutes with taking models.
pub proof fn lemma_array_models_tail(els: Seq<Value>, from: int)
    requires
        0 <= from < els.len(),
    ensures
        array_models(els.subrange(from, els.len() as int)).subrange(
            1,
            els.len() - from,
        ) =~= array_models(els.subrange(from + 1, els.len() as int)),
{
    let sub = els.subrange(from, els.len() as int);
    let sub1 = els.subrange(from + 1, els.len() as int);
    lemma_array_models(sub);
    lemma_array_models(sub1);
    assert forall|i: int|
        0 <= i < sub1.len() implies array_models(sub).subrange(1, els.len() - from)[i]
        == array_models(sub1)[i] by {
        assert(sub[i + 1] == els[from + 1 + i]);
        assert(sub1[i] == els[from + 1 + i]);
    }
}

/// Dropping the first pair of a suffix of `ps` commutes with taking models.
pub proof fn lemma_object_models_tail(ps: Seq<(String, Value)>, from: int)
    requires
        0 <= from < ps.len(),
    ensures
        object_models(ps.subrange(from, ps.len() as int)).subrange(
            1,
            ps.len() - from,
        ) =~= object_models(ps.subrange(from + 1, ps.len() as int)),
{
    let sub = ps.subrange(from, ps.len() as int);
    let sub1 = ps.subrange(from + 1, ps.len() as int);
    lemma_object_models(sub);
    lemma_object_models(sub1);
    assert forall|i: int|
        0 <= i < sub1.len() implies object_models(sub).subrange(1, ps.len() - from)[i]
        == object_models(sub1)[i] by {
        assert(sub[i + 1] == ps[from + 1 + i]);
        assert(sub1[i] == ps[from + 1 + i]);
    }
}

/// Appending an element appends its model.
pub proof fn lemma_array_models_push(els: Seq<Value>, v: Value)
    ensures
        array_models(els.push(v)) =~= array_models(els).push(value_model(v)),
{
    lemma_array_models(els.push(v));
    lemma_array_models(els);
    assert forall|i: int|
        0 <= i < els.len() + 1 implies array_models(els.push(v))[i] == array_models(els).push(
        value_model(v),
    )[i] by {
        if i < els.len() {
            assert(els.push(v)[i] == els[i]);
        } else {
            assert(els.push(v)[i] == v);
        }
    }
}

/// Appending a pair appends its model.
pub proof fn lemma_object_models_push(ps: Seq<(String, Value)>, p: (String, Value))
    ensures
        object_models(ps.push(p)) =~= object_models(ps).push((p.0@, value_model(p.1))),
{
    lemma_object_models(ps.push(p));
    lemma_object_models(ps);
    assert forall|i: int|
        0 <= i < ps.len() + 1 implies object_models(ps.push(p))[i] == object_models(ps).push(
        (p.0@, value_model(p.1)),
    )[i] by {
        if i < ps.len() {
            assert(ps.push(p)[i] == ps[i]);
        } else {
            assert(ps.push(p)[i] == p);
        }
    }
}

/// Replacing a pair replaces its model.
pub proof fn lemma_object_models_update(ps: Seq<(String, Value)>, x: int, p: (String, Value))
    requires
        0 <= x < ps.len(),
    ensures
        object_models(ps.update(x, p)) =~= object_models(ps).update(x, (p.0@, value_model(p.1))),
{
    lemma_object_models(ps.update(x, p));
    lemma_object_models(ps);
    assert forall|i: int|
        0 <= i < ps.len() implies object_models(ps.update(x, p))[i] == object_models(ps).update(
        x,
        (p.0@, value_model(p.1)),
    )[i] by {
        if i != x {
            assert(ps.update(x, p)[i] == ps[i]);
        } else {
            assert(ps.update(x, p)[i] == p);
        }
    }
}

/// A value's model is an object exactly when the value is.
pub proof fn lemma_value_model_object(v: Value)
    ensures
        (value_model(v) is Object) <==> (v is Object),
{
    match v {
        Value::Null => {},
        Value::Bool(_) => {},
        Value::Int(_) => {},
        Value::Str(_) => {},
        Value::Array(_) => {},
        Value::Object(_) => {},
    }
}

/// String contents the grammar can represent: the language has no escape
/// sequences, so a serialized string must not contain a quote character.
pub open spec fn text_ok(s: Seq<char>) -> bool {
    forall|i: int| 0 <= i < s.len() ==> s[i] != '"'
}

/// A key occurs among the pairs.
pub open spec fn model_has_key(ps: Seq<(Seq<char>, ValueModel)>, key: Seq<char>) -> bool {
    exists|i: int| 0 <= i < ps.len() && (#[trigger] ps[i]).0 == key
}

/// Well-formed values: integers fit in 64 bits, strings and keys carry
/// no quote character, and object keys are unique.
pub open spec fn wf_model(m: ValueModel) -> bool
    decreases m, 1int,
{
    match m {
        ValueModel::Null => true,
        ValueModel::Bool(_) => true,
        ValueModel::Int(i) => i64::MIN <= i <= i64::MAX,
        ValueModel::Str(s) => text_ok(s),
        ValueModel::Array(els) => wf_elems(els),
        ValueModel::Object(ps) => wf_pairs(ps),
    }
}

/// All elements are well formed.
pub open spec fn wf_elems(els: Seq<ValueModel>) -> bool
    decreases els, 2int,
{
    if els.len() == 0 {
        true
    } else {
        wf_model(els[0]) && wf_elems(els.subrange(1, els.len() as int))
    }
}

/// All pairs are well formed and no key occurs twice.
pub open spec fn wf_pairs(ps: Seq<(Seq<char>, ValueModel)>) -> bool
    decreases ps, 2int,
{
    if ps.len() == 0 {
        true
    } else {
        &&& text_ok(ps[0].0)
        &&& wf_model(ps[0].1)
        &&& !model_has_key(ps.subrange(1, ps.len() as int), ps[0].0)
        &&& wf_pairs(ps.subrange(1, ps.len() as int))
    }
}

/// Index-wise reading of [`wf_elems`].
pub proof fn lemma_wf_elems_index(els: Seq<ValueModel>)
    requires
        wf_elems(els),
    ensures
        forall|i: int| 0 <= i < els.len() ==> wf_model(#[trigger] els[i]),
    decreases els.len(),
{
    if els.len() > 0 {
        let tail = els.subrange(1, els.len() as int);
        lemma_wf_elems_index(tail);
        assert forall|i: int| 0 <= i < els.len() implies wf_model(#[trigger] els[i]) by {
            if i > 0 {
                assert(els[i] == tail[i - 1]);
            }
        }
    }
}

/// Index-wise reading of [`wf_pairs`]: pointwise well-formedness and
/// pairwise-distinct keys.
pub proof fn lemma_wf_pairs_index(ps: Seq<(Seq<char>, ValueModel)>)
    requires
        wf_pairs(ps),
    ensures
        forall|i: int|
            #![trigger ps[i]]
            0 <= i < ps.len() ==> text_ok(ps[i].0) && wf_model(ps[i].1),
        forall|i: int, j: int|
            #![trigger ps[i], ps[j]]
            0 <= i < j < ps.len() ==> ps[i].0 != ps[j].0,
    decreases ps.len(),
{
    if ps.len() > 0 {
        let tail = ps.subrange(1, ps.len() as int);
        lemma_wf_pairs_index(tail);
        assert forall|i: int|
            #![trigger ps[i]]
            0 <= i < ps.len() implies text_ok(ps[i].0) && wf_model(ps[i].1) by {
            if i > 0 {
                assert(ps[i] == tail[i - 1]);
            }
        }
        assert forall|i: int, j: int|
            #![trigger ps[i], ps[j]]
            0 <= i < j < ps.len() implies ps[i].0 != ps[j].0 by {
            if i > 0 {
                assert(ps[i] == tail[i - 1]);
                assert(ps[j] == tail[j - 1]);
            } else {
                assert(ps[j] == tail[j - 1]);
                if tail[j - 1].0 == ps[0].0 {
                    assert(model_has_key(tail, ps[0].0));
                }
            }
        }
    }
}

} // verus!
