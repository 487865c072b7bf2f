//! The query-language compiler: turns a typed line such as
//! `insert("key", {...})` into a verb, a key and an optional document.
//! A line holds one or more calls; the four verbs are `get`, `insert`,
//! `update` and `delete`.

use vstd::prelude::*;
use vstd::string::{StrSliceExecFns, StringExecFns};

use crate::parse::{
    lemma_parse_string_rest_none, lemma_parse_string_rest_scan, lemma_parse_value_wf, matches_at,
    parse_string_rest, parse_value, skip_ws, parse_value_at,
};
use crate::value::{wf_model, value_model, Value, ValueModel};

verus! {

/// One of the four supported remote operations.
#[derive(Clone, Copy, Debug, PartialEq, Eq, Structural)]
pub enum Verb {
    Get,
    Insert,
    Update,
    Delete,
}

/// Mathematical model of a compiled call.
pub struct CallModel {
    pub verb: Verb,
    pub key: Seq<char>,
    pub document: Option<ValueModel>,
}

/// A compiled call: the verb, the key, and the document for `insert`
/// and `update`. The compiler only produces documents that are objects.
#[derive(Debug, PartialEq)]
pub struct ParsedCall {
    pub verb: Verb,
    pub key: String,
    pub document: Option<Value>,
}

impl View for ParsedCall {
    type V = CallModel;

    open spec fn view(&self) -> CallModel {
        CallModel {
            verb: self.verb,
            key: self.key@,
            document: match self.document {
                Some(d) => Some(value_model(d)),
                None => None,
            },
        }
    }
}

/// Grammar of the tail of a `get`/`delete` call: `( "key" )`.
pub open spec fn parse_bare_call(s: Seq<char>, i: int, verb: Verb) -> Option<(CallModel, int)> {
    let j = skip_ws(s, i);
    if 0 <= j && j < s.len() && s[j] == '(' {
        let j2 = skip_ws(s, j + 1);
        if j2 < s.len() && s[j2] == '"' {
            match parse_string_rest(s, j2 + 1) {
                None => None,
                Some((key, k)) => {
                    let k2 = skip_ws(s, k);
                    if k2 < s.len() && s[k2] == ')' {
                        Some((CallModel { verb, key, document: None }, k2 + 1))
                    } else {
                        None
                    }
                },
            }
        } else {
            None
        }
    } else {
        None
    }
}

/// Grammar of the tail of an `insert`/`update` call: `( "key" , value )`.
/// The grammar accepts any value; that the document must be an object is
/// the compiler's post-check, not a grammar rule.
pub open spec fn parse_doc_call(s: Seq<char>, i: int, verb: Verb) -> Option<(CallModel, int)> {
    let j = skip_ws(s, i);
    if 0 <= j && j < s.len() && s[j] == '(' {
        let j2 = skip_ws(s, j + 1);
        if j2 < s.len() && s[j2] == '"' {
            match parse_string_rest(s, j2 + 1) {
                None => None,
                Some((key, k)) => {
                    let k2 = skip_ws(s, k);
                    if k2 < s.len() && s[k2] == ',' {
                        match parse_value(s, k2 + 1) {
                            None => None,
                            Some((v, m)) => {
                                let m2 = skip_ws(s, m);
                                if m2 < s.len() && s[m2] == ')' {
                                    Some(
                                        (
                                            CallModel { verb, key, document: Some(v) },
                                            m2 + 1,
                                        ),
                                    )
                                } else {
                                    None
                                }
                            },
                        }
                    } else {
                        None
                    }
                },
            }
        } else {
            None
        }
    } else {
        None
    }
}

/// Grammar of one call: a verb name followed by its argument list.
pub open spec fn parse_call(s: Seq<char>, i: int) -> Option<(CallModel, int)> {
    let j = skip_ws(s, i);
    if matches_at(s, j, seq!['i', 'n', 's', 'e', 'r', 't']) {
        parse_doc_call(s, j + 6, Verb::Insert)
    } else if matches_at(s, j, seq!['u', 'p', 'd', 'a', 't', 'e']) {
        parse_doc_call(s, j + 6, Verb::Update)
    } else if matches_at(s, j, seq!['d', 'e', 'l', 'e', 't', 'e']) {
        parse_bare_call(s, j + 6, Verb::Delete)
    } else if matches_at(s, j, seq!['g', 'e', 't']) {
        parse_bare_call(s, j + 3, Verb::Get)
    } else {
        None
    }
}

/// The document of an `insert`/`update` call is an object at top level.
pub open spec fn doc_is_object(c: CallModel) -> bool {
    match c.document {
        Some(d) => d is Object,
        None => true,
    }
}

/// Grammar of a whole line as one call: the call and nothing after it
/// but whitespace. The document post-check is not part of this.
pub open spec fn grammar_call(s: Seq<char>) -> Option<CallModel> {
    match parse_call(s, 0) {
        None => None,
        Some((c, k)) => if skip_ws(s, k) == s.len() {
            Some(c)
        } else {
            None
        },
    }
}

/// Grammar of a whole line as one or more calls followed by the end of
/// the text.
pub open spec fn parse_calls(s: Seq<char>, i: int) -> Option<Seq<CallModel>>
    decreases s.len() - i,
{
    match parse_call(s, i) {
        None => None,
        Some((c, k)) => {
            if skip_ws(s, k) == s.len() {
                Some(seq![c])
            } else if k <= i || k > s.len() {
                None
            } else {
                match parse_calls(s, k) {
                    None => None,
                    Some(cs) => Some(seq![c] + cs),
                }
            }
        },
    }
}

/// Where a failed `get`/`delete` tail stops conforming: the character
/// that was not the expected `(`, key string, or `)`; an unterminated
/// key is reported at its opening quote.
pub open spec fn bare_call_fail_pos(s: Seq<char>, i: int) -> int {
    let j = skip_ws(s, i);
    if !(0 <= j && j < s.len() && s[j] == '(') {
        j
    } else {
        let j2 = skip_ws(s, j + 1);
        if !(j2 < s.len() && s[j2] == '"') {
            j2
        } else {
            match parse_string_rest(s, j2 + 1) {
                None => j2,
                Some((key, k)) => skip_ws(s, k),
            }
        }
    }
}

/// Where a failed `insert`/`update` tail stops conforming: as for the
/// bare tail, with a failed document argument reported at the
/// argument's first character.
pub open spec fn doc_call_fail_pos(s: Seq<char>, i: int) -> int {
    let j = skip_ws(s, i);
    if !(0 <= j && j < s.len() && s[j] == '(') {
        j
    } else {
        let j2 = skip_ws(s, j + 1);
        if !(j2 < s.len() && s[j2] == '"') {
            j2
        } else {
            match parse_string_rest(s, j2 + 1) {
                None => j2,
                Some((key, k)) => {
                    let k2 = skip_ws(s, k);
                    if !(k2 < s.len() && s[k2] == ',') {
                        k2
                    } else {
                        match parse_value(s, k2 + 1) {
                            None => skip_ws(s, k2 + 1),
                            Some((v, m)) => skip_ws(s, m),
                        }
                    }
                },
            }
        }
    }
}

/// Where a failed call stops conforming: a line that opens with no verb
/// name is reported at its first non-whitespace character.
pub open spec fn call_fail_pos(s: Seq<char>, i: int) -> int {
    let j = skip_ws(s, i);
    if matches_at(s, j, seq!['i', 'n', 's', 'e', 'r', 't']) {
        doc_call_fail_pos(s, j + 6)
    } else if matches_at(s, j, seq!['u', 'p', 'd', 'a', 't', 'e']) {
        doc_call_fail_pos(s, j + 6)
    } else if matches_at(s, j, seq!['d', 'e', 'l', 'e', 't', 'e']) {
        bare_call_fail_pos(s, j + 6)
    } else if matches_at(s, j, seq!['g', 'e', 't']) {
        bare_call_fail_pos(s, j + 3)
    } else {
        j
    }
}

/// Where a single-call line stops conforming: inside the call, or at
/// the first character of unexpected trailing text.
pub open spec fn line_fail_pos(s: Seq<char>) -> int {
    match parse_call(s, 0) {
        None => call_fail_pos(s, 0),
        Some((c, k)) => skip_ws(s, k),
    }
}

/// Where a multi-call line stops conforming: inside the first call that
/// does not parse.
pub open spec fn calls_fail_pos(s: Seq<char>, i: int) -> int
    decreases s.len() - i,
{
    match parse_call(s, i) {
        None => call_fail_pos(s, i),
        Some((c, k)) => {
            if skip_ws(s, k) == s.len() {
                s.len() as int
            } else if k <= i || k > s.len() {
                k
            } else {
                calls_fail_pos(s, k)
            }
        },
    }
}

/// Why a line was rejected: a grammar mismatch, or an `insert`/`update`
/// whose document argument is not an object.
#[derive(Clone, Copy, Debug, PartialEq, Eq, Structural)]
pub enum CompileError {
    /// A grammar mismatch, with the position (in characters, counted
    /// from the start of the line) where the line stops conforming.
    Syntax { pos: usize },
    NotADocument,
}

impl CompileError {
    /// A human-readable description of the rejection: what went wrong,
    /// and for a grammar mismatch, where.
    pub fn describe(&self) -> (r: String)
        ensures
            r@ == self.spec_describe(),
    {
        match self {
            CompileError::Syntax { pos } => {
                let mut out = String::from_str("syntax error in query text at position ");
                crate::render::push_nat(&mut out, *pos as u64);
                out
            },
            CompileError::NotADocument => {
                String::from_str("document argument is not an object")
            },
        }
    }

    /// The description text of each rejection.
    pub open spec fn spec_describe(&self) -> Seq<char> {
        match self {
            CompileError::Syntax { pos } => "syntax error in query text at position "@
                + crate::render::ser_nat(*pos as int),
            CompileError::NotADocument => "document argument is not an object"@,
        }
    }
}

/// Where a failed `get`/`delete` tail stops conforming, executably.
fn bare_call_fail_pos_at(s: &str, i: usize) -> (r: usize)
    requires
        i as int <= s@.len(),
    ensures
        r as int == bare_call_fail_pos(s@, i as int),
        r as int <= s@.len(),
{
    let n = s.unicode_len();
    let j = crate::parse::ws_end(s, i);
    if j >= n || s.get_char(j) != '(' {
        return j;
    }
    let j2 = crate::parse::ws_end(s, j + 1);
    if j2 >= n || s.get_char(j2) != '"' {
        return j2;
    }
    match crate::parse::quote_end(s, j2 + 1) {
        None => {
            proof {
                lemma_parse_string_rest_none(s@, j2 as int + 1);
            }
            j2
        },
        Some(q) => {
            proof {
                lemma_parse_string_rest_scan(s@, j2 as int + 1, q as int);
            }
            crate::parse::ws_end(s, q + 1)
        },
    }
}

/// Where a failed `insert`/`update` tail stops conforming, executably.
fn doc_call_fail_pos_at(s: &str, i: usize) -> (r: usize)
    requires
        i as int <= s@.len(),
    ensures
        r as int == doc_call_fail_pos(s@, i as int),
        r as int <= s@.len(),
{
    let n = s.unicode_len();
    let j = crate::parse::ws_end(s, i);
    if j >= n || s.get_char(j) != '(' {
        return j;
    }
    let j2 = crate::parse::ws_end(s, j + 1);
    if j2 >= n || s.get_char(j2) != '"' {
        return j2;
    }
    match crate::parse::quote_end(s, j2 + 1) {
        None => {
            proof {
                lemma_parse_string_rest_none(s@, j2 as int + 1);
            }
            j2
        },
        Some(q) => {
            proof {
                lemma_parse_string_rest_scan(s@, j2 as int + 1, q as int);
            }
            let k2 = crate::parse::ws_end(s, q + 1);
            if k2 >= n || s.get_char(k2) != ',' {
                return k2;
            }
            match parse_value_at(s, k2 + 1) {
                None => crate::parse::ws_end(s, k2 + 1),
                Some((_, m)) => crate::parse::ws_end(s, m),
            }
        },
    }
}

/// Where a failed call stops conforming, executably.
fn call_fail_pos_at(s: &str, i: usize) -> (r: usize)
    requires
        i as int <= s@.len(),
    ensures
        r as int == call_fail_pos(s@, i as int),
        r as int <= s@.len(),
{
    proof {
        reveal_strlit("insert");
        reveal_strlit("update");
        reveal_strlit("delete");
        reveal_strlit("get");
        assert(("insert")@ =~= seq!['i', 'n', 's', 'e', 'r', 't']);
        assert(("update")@ =~= seq!['u', 'p', 'd', 'a', 't', 'e']);
        assert(("delete")@ =~= seq!['d', 'e', 'l', 'e', 't', 'e']);
        assert(("get")@ =~= seq!['g', 'e', 't']);
    }
    let n = s.unicode_len();
    let j = crate::parse::ws_end(s, i);
    assert(j <= n);
    if crate::parse::match_lit(s, j, "insert") {
        doc_call_fail_pos_at(s, j + 6)
    } else if crate::parse::match_lit(s, j, "update") {
        doc_call_fail_pos_at(s, j + 6)
    } else if crate::parse::match_lit(s, j, "delete") {
        bare_call_fail_pos_at(s, j + 6)
    } else if crate::parse::match_lit(s, j, "get") {
        bare_call_fail_pos_at(s, j + 3)
    } else {
        j
    }
}

/// Parses the tail of a `get`/`delete` call, executably.
fn parse_bare_call_at(s: &str, i: usize, verb: Verb) -> (r: Option<(ParsedCall, usize)>)
    requires
        i as int <= s@.len(),
    ensures
        match (r, parse_bare_call(s@, i as int, verb)) {
            (None, None) => true,
            (Some((c, k)), Some((cm, km))) => c@ == cm && k as int == km && i <= k && k as int
                <= s@.len(),
            _ => false,
        },
{
    let n = s.unicode_len();
    let j = crate::parse::ws_end(s, i);
    if j >= n || s.get_char(j) != '(' {
        return None;
    }
    let j2 = crate::parse::ws_end(s, j + 1);
    if j2 >= n || s.get_char(j2) != '"' {
        return None;
    }
    match crate::parse::quote_end(s, j2 + 1) {
        None => {
            proof {
                lemma_parse_string_rest_none(s@, j2 as int + 1);
            }
            None
        },
        Some(q) => {
            let key = String::from_str(s.substring_char(j2 + 1, q));
            proof {
                lemma_parse_string_rest_scan(s@, j2 as int + 1, q as int);
            }
            let k2 = crate::parse::ws_end(s, q + 1);
            if k2 >= n || s.get_char(k2) != ')' {
                return None;
            }
            Some((ParsedCall { verb, key, document: None }, k2 + 1))
        },
    }
}

/// Parses the tail of an `insert`/`update` call, executably. The
/// document it yields is well formed.
fn parse_doc_call_at(s: &str, i: usize, verb: Verb) -> (r: Option<(ParsedCall, usize)>)
    requires
        i as int <= s@.len(),
    ensures
        match (r, parse_doc_call(s@, i as int, verb)) {
            (None, None) => true,
            (Some((c, k)), Some((cm, km))) => c@ == cm && k as int == km && i <= k && k as int
                <= s@.len() && (match cm.document {
                Some(d) => wf_model(d),
                None => true,
            }),
            _ => false,
        },
{
    let n = s.unicode_len();
    let j = crate::parse::ws_end(s, i);
    if j >= n || s.get_char(j) != '(' {
        return None;
    }
    let j2 = crate::parse::ws_end(s, j + 1);
    if j2 >= n || s.get_char(j2) != '"' {
        return None;
    }
    match crate::parse::quote_end(s, j2 + 1) {
        None => {
            proof {
                lemma_parse_string_rest_none(s@, j2 as int + 1);
            }
            None
        },
        Some(q) => {
            let key = String::from_str(s.substring_char(j2 + 1, q));
            proof {
                lemma_parse_string_rest_scan(s@, j2 as int + 1, q as int);
            }
            let k2 = crate::parse::ws_end(s, q + 1);
            if k2 >= n || s.get_char(k2) != ',' {
                return None;
            }
            proof {
                lemma_parse_value_wf(s@, k2 as int + 1);
            }
            match parse_value_at(s, k2 + 1) {
                None => None,
                Some((v, m)) => {
                    let m2 = crate::parse::ws_end(s, m);
                    if m2 >= n || s.get_char(m2) != ')' {
                        return None;
                    }
                    Some((ParsedCall { verb, key, document: Some(v) }, m2 + 1))
                },
            }
        },
    }
}

/// Parses one call starting at `i`, executably.
fn parse_call_at(s: &str, i: usize) -> (r: Option<(ParsedCall, usize)>)
    requires
        i as int <= s@.len(),
    ensures
        match (r, parse_call(s@, i as int)) {
            (None, None) => true,
            (Some((c, k)), Some((cm, km))) => c@ == cm && k as int == km && i <= k && k as int
                <= s@.len() && (match cm.document {
                Some(d) => wf_model(d),
                None => true,
            }),
            _ => false,
        },
{
    proof {
        reveal_strlit("insert");
        reveal_strlit("update");
        reveal_strlit("delete");
        reveal_strlit("get");
        assert(("insert")@ =~= seq!['i', 'n', 's', 'e', 'r', 't']);
        assert(("update")@ =~= seq!['u', 'p', 'd', 'a', 't', 'e']);
        assert(("delete")@ =~= seq!['d', 'e', 'l', 'e', 't', 'e']);
        assert(("get")@ =~= seq!['g', 'e', 't']);
    }
    let n = s.unicode_len();
    let j = crate::parse::ws_end(s, i);
    assert(j <= n);
    if crate::parse::match_lit(s, j, "insert") {
        parse_doc_call_at(s, j + 6, Verb::Insert)
    } else if crate::parse::match_lit(s, j, "update") {
        parse_doc_call_at(s, j + 6, Verb::Update)
    } else if crate::parse::match_lit(s, j, "delete") {
        parse_bare_call_at(s, j + 6, Verb::Delete)
    } else if crate::parse::match_lit(s, j, "get") {
        parse_bare_call_at(s, j + 3, Verb::Get)
    } else {
        None
    }
}

/// Compiles a line holding exactly one call.
///
/// Returns `Ok` exactly on the lines the grammar accepts as one call
/// whose document, if any, is an object at top level; `Err(Syntax)`
/// exactly on grammar mismatches, with the position where the line
/// stops conforming; `Err(NotADocument)` exactly when the grammar
/// accepts the line but the `insert`/`update` argument is a bare array
/// or scalar.
pub fn compile(text: &str) -> (r: Result<ParsedCall, CompileError>)
    ensures
        match grammar_call(text@) {
            None => (match r {
                Err(CompileError::Syntax { pos }) => pos as int == line_fail_pos(text@),
                _ => false,
            }),
            Some(cm) => if doc_is_object(cm) {
                match r {
                    Ok(c) => c@ == cm && (match cm.document {
                        Some(d) => wf_model(d),
                        None => true,
                    }),
                    Err(_) => false,
                }
            } else {
                r == Err::<ParsedCall, CompileError>(CompileError::NotADocument)
            },
        },
{
    let n = s_len(text);
    match parse_call_at(text, 0) {
        None => Err(CompileError::Syntax { pos: call_fail_pos_at(text, 0) }),
        Some((c, k)) => {
            let k2 = crate::parse::ws_end(text, k);
            if k2 != n {
                return Err(CompileError::Syntax { pos: k2 });
            }
            match &c.document {
                None => Ok(c),
                Some(d) => {
                    if matches!(d, Value::Object(_)) {
                        Ok(c)
                    } else {
                        Err(CompileError::NotADocument)
                    }
                },
            }
        },
    }
}

/// The character length of a text.
fn s_len(s: &str) -> (r: usize)
    ensures
        r as int == s@.len(),
{
    s.unicode_len()
}

/// The models of compiled calls, in order.
pub open spec fn call_models(cs: Seq<ParsedCall>) -> Seq<CallModel>
    decreases cs.len(),
{
    if cs.len() == 0 {
        Seq::empty()
    } else {
        seq![cs[0]@] + call_models(cs.subrange(1, cs.len() as int))
    }
}

/// Appending a call appends its model.
pub proof fn lemma_call_models_push(cs: Seq<ParsedCall>, c: ParsedCall)
    ensures
        call_models(cs.push(c)) =~= call_models(cs).push(c@),
    decreases cs.len(),
{
    if cs.len() == 0 {
        reveal_with_fuel(call_models, 2);
        assert(cs.push(c).subrange(1, 1) =~= Seq::<ParsedCall>::empty());
        assert(cs.push(c)[0] == c);
    } else {
        let tail = cs.subrange(1, cs.len() as int);
        lemma_call_models_push(tail, c);
        assert(cs.push(c).subrange(1, cs.len() as int + 1) =~= tail.push(c));
        assert(cs.push(c)[0] == cs[0]);
    }
}

/// All documents among the calls are objects.
pub open spec fn docs_are_objects(cs: Seq<CallModel>) -> bool {
    forall|x: int| 0 <= x < cs.len() ==> doc_is_object(#[trigger] cs[x])
}

/// Parses calls from `i` to the end of the text onto `out`, executably;
/// a failure carries the position where the line stops conforming.
fn parse_calls_at(s: &str, i: usize, out: &mut Vec<ParsedCall>) -> (r: Result<(), usize>)
    requires
        i as int <= s@.len(),
    ensures
        match parse_calls(s@, i as int) {
            None => (match r {
                Err(p) => p as int == calls_fail_pos(s@, i as int),
                Ok(_) => false,
            }),
            Some(cs) => r is Ok && call_models(final(out)@) == call_models(old(out)@) + cs && (
            docs_wf(cs)),
        },
    decreases s@.len() - i as int,
{
    let n = s.unicode_len();
    match parse_call_at(s, i) {
        None => Err(call_fail_pos_at(s, i)),
        Some((c, k)) => {
            let ghost cm = c@;
            proof {
                lemma_call_models_push(out@, c);
            }
            out.push(c);
            let k2 = crate::parse::ws_end(s, k);
            if k2 == n {
                proof {
                    let cs = seq![cm];
                    assert(cs[0] == cm);
                    assert(call_models(out@) =~= call_models(old(out)@) + cs);
                }
                Ok(())
            } else if k == i {
                // a call consumes at least its verb name, so the grammar's
                // progress guard never fires; mirroring it keeps the result
                // equal to the grammar's in every case
                Err(k)
            } else {
                let r = parse_calls_at(s, k, out);
                proof {
                    if r is Ok {
                        match parse_calls(s@, k as int) {
                            Some(rest) => {
                                let cs = seq![cm] + rest;
                                assert(call_models(old(out)@).push(cm) + rest =~= call_models(
                                    old(out)@,
                                ) + cs);
                                assert(cs[0] == cm);
                                assert forall|x: int|
                                    0 <= x < cs.len() implies (match (#[trigger] cs[x]).document {
                                    Some(d) => wf_model(d),
                                    None => true,
                                }) by {
                                    if x > 0 {
                                        assert(cs[x] == rest[x - 1]);
                                    }
                                }
                            },
                            None => {},
                        }
                    }
                }
                r
            }
        },
    }
}

/// The documents of all the calls are well formed.
pub open spec fn docs_wf(cs: Seq<CallModel>) -> bool {
    forall|x: int|
        0 <= x < cs.len() ==> (match (#[trigger] cs[x]).document {
            Some(d) => wf_model(d),
            None => true,
        })
}

/// Compiles a line holding one or more calls, in order.
///
/// Returns `Ok` exactly on the lines the grammar accepts whose documents
/// are all objects at top level; `Err(Syntax)` exactly on grammar
/// mismatches, with the position where the line stops conforming;
/// `Err(NotADocument)` exactly when the grammar accepts the line but
/// some `insert`/`update` argument is a bare array or scalar.
pub fn parse(input: &str) -> (r: Result<Vec<ParsedCall>, CompileError>)
    ensures
        match parse_calls(input@, 0) {
            None => (match r {
                Err(CompileError::Syntax { pos }) => pos as int == calls_fail_pos(input@, 0),
                _ => false,
            }),
            Some(cs) => if docs_are_objects(cs) {
                match r {
                    Ok(out) => call_models(out@) == cs && docs_wf(cs),
                    Err(_) => false,
                }
            } else {
                r == Err::<Vec<ParsedCall>, CompileError>(CompileError::NotADocument)
            },
        },
{
    let mut out: Vec<ParsedCall> = Vec::new();
    proof {
        assert(call_models(out@) =~= Seq::<CallModel>::empty());
    }
    match parse_calls_at(input, 0, &mut out) {
        Err(p) => {
            return Err(CompileError::Syntax { pos: p });
        },
        Ok(()) => {},
    }
    let ghost cs = parse_calls(input@, 0)->Some_0;
    proof {
        assert(Seq::<CallModel>::empty() + cs =~= cs);
        lemma_call_models_index(out@);
    }
    let mut x: usize = 0;
    while x < out.len()
        invariant
            parse_calls(input@, 0) == Some(cs),
            docs_wf(cs),
            x <= out.len(),
            call_models(out@) == cs,
            out@.len() == cs.len(),
            forall|y: int| 0 <= y < out@.len() ==> cs[y] == (#[trigger] out@[y])@,
            forall|y: int| 0 <= y < x as int ==> doc_is_object(#[trigger] cs[y]),
        decreases out.len() - x,
    {
        let ok = match &out[x].document {
            None => true,
            Some(d) => matches!(d, Value::Object(_)),
        };
        proof {
            match out@[x as int].document {
                Some(d) => {
                    crate::value::lemma_value_model_object(d);
                },
                None => {},
            }
        }
        if !ok {
            proof {
                match out@[x as int].document {
                    Some(d) => {
                        crate::value::lemma_value_model_object(d);
                    },
                    None => {},
                }
                assert(!doc_is_object(cs[x as int]));
            }
            return Err(CompileError::NotADocument);
        }
        x += 1;
    }
    Ok(out)
}

/// Index-wise reading of [`call_models`].
proof fn lemma_call_models_index(cs: Seq<ParsedCall>)
    ensures
        call_models(cs).len() == cs.len(),
        forall|y: int| 0 <= y < cs.len() ==> call_models(cs)[y] == (#[trigger] cs[y])@,
    decreases cs.len(),
{
    if cs.len() > 0 {
        let tail = cs.subrange(1, cs.len() as int);
        lemma_call_models_index(tail);
        assert forall|y: int|
            0 <= y < cs.len() implies call_models(cs)[y] == (#[trigger] cs[y])@ by {
            if y > 0 {
                assert(tail[y - 1] == cs[y]);
            }
        }
    }
}

} // verus!
