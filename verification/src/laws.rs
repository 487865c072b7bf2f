//! Laws that tie the compiler, the serializer and the grammar together
//! across several functions.

use vstd::prelude::*;

use crate::parse::{lemma_parse_string_rest_scan, lemma_parse_value_wf, matches_at,
    parse_string_rest, parse_text, skip_ws};
use crate::query::{grammar_call, parse_bare_call, parse_doc_call, CallModel, Verb};
use crate::render::ser_model;
use crate::roundtrip::lemma_value_round_trip;
use crate::value::{text_ok, wf_model};

verus! {

/// Every document the call grammar yields is well formed.
proof fn lemma_parse_doc_call_wf(s: Seq<char>, i: int, verb: Verb)
    ensures
        parse_doc_call(s, i, verb) matches Some((c, k)) ==> (match c.document {
            Some(d) => wf_model(d),
            None => true,
        }),
{
    let j = skip_ws(s, i);
    if 0 <= j && j < s.len() && s[j] == '(' {
        let j2 = skip_ws(s, j + 1);
        if j2 < s.len() && s[j2] == '"' {
            match parse_string_rest(s, j2 + 1) {
                None => {},
                Some((key, k)) => {
                    let k2 = skip_ws(s, k);
                    if k2 < s.len() && s[k2] == ',' {
                        lemma_parse_value_wf(s, k2 + 1);
                    }
                },
            }
        }
    }
}

/// The document of every line the grammar accepts is well formed.
pub proof fn lemma_grammar_call_wf(s: Seq<char>)
    ensures
        grammar_call(s) matches Some(c) ==> (match c.document {
            Some(d) => wf_model(d),
            None => true,
        }),
{
    let j = skip_ws(s, 0);
    if matches_at(s, j, seq!['i', 'n', 's', 'e', 'r', 't']) {
        lemma_parse_doc_call_wf(s, j + 6, Verb::Insert);
    } else if matches_at(s, j, seq!['u', 'p', 'd', 'a', 't', 'e']) {
        lemma_parse_doc_call_wf(s, j + 6, Verb::Update);
    }
}

/// The round-trip law over compiled calls: for every line the grammar
/// accepts, serializing the compiled document back to text and
/// re-parsing yields an equal value.
pub proof fn lemma_compile_round_trip(text: Seq<char>)
    ensures
        match grammar_call(text) {
            Some(c) => match c.document {
                Some(d) => parse_text(ser_model(d)) == Some(d),
                None => true,
            },
            None => true,
        },
{
    lemma_grammar_call_wf(text);
    match grammar_call(text) {
        Some(c) => match c.document {
            Some(d) => lemma_value_round_trip(d),
            None => {},
        },
        None => {},
    }
}

/// `get("k")` compiles to the `Get` verb with key `k` and no document,
/// for every key text without a quote character.
pub proof fn lemma_get_compile(key: Seq<char>)
    requires
        text_ok(key),
    ensures
        grammar_call(seq!['g', 'e', 't', '(', '"'] + key + seq!['"', ')']) == Some(
            CallModel { verb: Verb::Get, key, document: None },
        ),
{
    let pre = seq!['g', 'e', 't', '(', '"'];
    let suf = seq!['"', ')'];
    let s = pre + key + suf;
    let kl = key.len() as int;
    assert(s.len() == kl + 7);
    assert forall|x: int| 0 <= x < 5 implies s[x] == pre[x] by {
        assert((pre + key)[x] == pre[x]);
    }
    assert forall|y: int| 0 <= y < kl implies s[5 + y] == key[y] by {
        assert((pre + key)[5 + y] == key[y]);
    }
    assert(s[5 + kl] == suf[0]);
    assert(s[6 + kl] == suf[1]);
    assert(skip_ws(s, 0) == 0);
    if matches_at(s, 0, seq!['i', 'n', 's', 'e', 'r', 't']) {
        assert(s.subrange(0, 6)[0] == s[0]);
        assert(false);
    }
    if matches_at(s, 0, seq!['u', 'p', 'd', 'a', 't', 'e']) {
        assert(s.subrange(0, 6)[0] == s[0]);
        assert(false);
    }
    if matches_at(s, 0, seq!['d', 'e', 'l', 'e', 't', 'e']) {
        assert(s.subrange(0, 6)[0] == s[0]);
        assert(false);
    }
    assert(matches_at(s, 0, seq!['g', 'e', 't'])) by {
        assert(s.subrange(0, 3) =~= seq!['g', 'e', 't']);
    }
    assert(skip_ws(s, 3) == 3);
    assert(skip_ws(s, 4) == 4);
    lemma_parse_string_rest_scan(s, 5, 5 + kl);
    assert(s.subrange(5, 5 + kl) =~= key);
    assert(skip_ws(s, 6 + kl) == 6 + kl);
    assert(skip_ws(s, 7 + kl) == 7 + kl);
    assert(parse_bare_call(s, 3, Verb::Get) == Some(
        (CallModel { verb: Verb::Get, key, document: None }, 7 + kl),
    ));
}

/// `delete("k")` compiles to the `Delete` verb with key `k` and no
/// document, for every key text without a quote character.
pub proof fn lemma_delete_compile(key: Seq<char>)
    requires
        text_ok(key),
    ensures
        grammar_call(seq!['d', 'e', 'l', 'e', 't', 'e', '(', '"'] + key + seq!['"', ')'])
            == Some(CallModel { verb: Verb::Delete, key, document: None }),
{
    let pre = seq!['d', 'e', 'l', 'e', 't', 'e', '(', '"'];
    let suf = seq!['"', ')'];
    let s = pre + key + suf;
    let kl = key.len() as int;
    assert(s.len() == kl + 10);
    assert forall|x: int| 0 <= x < 8 implies s[x] == pre[x] by {
        assert((pre + key)[x] == pre[x]);
    }
    assert forall|y: int| 0 <= y < kl implies s[8 + y] == key[y] by {
        assert((pre + key)[8 + y] == key[y]);
    }
    assert(s[8 + kl] == suf[0]);
    assert(s[9 + kl] == suf[1]);
    assert(skip_ws(s, 0) == 0);
    if matches_at(s, 0, seq!['i', 'n', 's', 'e', 'r', 't']) {
        assert(s.subrange(0, 6)[0] == s[0]);
        assert(false);
    }
    if matches_at(s, 0, seq!['u', 'p', 'd', 'a', 't', 'e']) {
        assert(s.subrange(0, 6)[0] == s[0]);
        assert(false);
    }
    assert(matches_at(s, 0, seq!['d', 'e', 'l', 'e', 't', 'e'])) by {
        assert(s.subrange(0, 6) =~= seq!['d', 'e', 'l', 'e', 't', 'e']);
    }
    assert(skip_ws(s, 6) == 6);
    assert(skip_ws(s, 7) == 7);
    lemma_parse_string_rest_scan(s, 8, 8 + kl);
    assert(s.subrange(8, 8 + kl) =~= key);
    assert(skip_ws(s, 9 + kl) == 9 + kl);
    assert(skip_ws(s, 10 + kl) == 10 + kl);
    assert(parse_bare_call(s, 6, Verb::Delete) == Some(
        (CallModel { verb: Verb::Delete, key, document: None }, 10 + kl),
    ));
}

} // verus!
