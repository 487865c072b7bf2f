//! Tests of the query compiler, the value parser and the serializer.

use rustbase_cli::parse::parse_value_text;
use rustbase_cli::query::{compile, parse, CompileError, ParsedCall, Verb};
use rustbase_cli::render::to_text;
use rustbase_cli::value::Value;

fn obj(pairs: Vec<(&str, Value)>) -> Value {
    Value::Object(pairs.into_iter().map(|(k, v)| (k.to_string(), v)).collect())
}

fn s(text: &str) -> Value {
    Value::Str(text.to_string())
}

#[test]
fn get_compiles_to_parsed_call() {
    let call = compile("get(\"k\")").unwrap();
    assert_eq!(
        call,
        ParsedCall { verb: Verb::Get, key: "k".to_string(), document: None }
    );
}

#[test]
fn delete_compiles_to_parsed_call() {
    let call = compile("delete(\"some key with spaces\")").unwrap();
    assert_eq!(call.verb, Verb::Delete);
    assert_eq!(call.key, "some key with spaces");
    assert_eq!(call.document, None);
}

#[test]
fn empty_object_and_array_compile() {
    assert_eq!(parse_value_text("{}"), Some(Value::Object(vec![])));
    assert_eq!(parse_value_text("[]"), Some(Value::Array(vec![])));
    let call = compile("insert(\"k\", {})").unwrap();
    assert_eq!(call.document, Some(Value::Object(vec![])));
}

#[test]
fn nested_documents_compile() {
    let call = compile(
        "update(\"deep\", {\"a\": [{\"b\": [1, true, null]}, \"s\"], \"c\": {\"d\": {\"e\": -5}}})",
    )
    .unwrap();
    let expected = obj(vec![
        (
            "a",
            Value::Array(vec![
                obj(vec![(
                    "b",
                    Value::Array(vec![Value::Int(1), Value::Bool(true), Value::Null]),
                )]),
                s("s"),
            ]),
        ),
        ("c", obj(vec![("d", obj(vec![("e", Value::Int(-5))]))])),
    ]);
    assert_eq!(call.verb, Verb::Update);
    assert_eq!(call.document, Some(expected));
}

#[test]
fn round_trip_canonical_text() {
    let call = compile("insert(\"k\", { \"n\": -42, \"t\": [true, false, null, \"x\"] })").unwrap();
    let doc = call.document.unwrap();
    let text = to_text(&doc);
    assert_eq!(parse_value_text(&text), Some(doc));
}

#[test]
fn insert_with_array_argument_rejected() {
    assert_eq!(
        compile("insert(\"k\", [1, 2])"),
        Err(CompileError::NotADocument)
    );
    assert_eq!(
        compile("update(\"k\", 7)"),
        Err(CompileError::NotADocument)
    );
}

#[test]
fn syntax_errors_carry_positions() {
    // no verb name: reported at the line's first non-whitespace character
    assert_eq!(compile("frobnicate(\"k\")"), Err(CompileError::Syntax { pos: 0 }));
    assert_eq!(compile(""), Err(CompileError::Syntax { pos: 0 }));
    assert_eq!(compile("  nonsense"), Err(CompileError::Syntax { pos: 2 }));
    // unterminated key: reported at its opening quote
    assert_eq!(compile("get(\"k"), Err(CompileError::Syntax { pos: 4 }));
    // missing ')' at the end of the line: reported at the line's end
    assert_eq!(compile("get(\"k\""), Err(CompileError::Syntax { pos: 7 }));
    // trailing text after a complete call: reported at its first character
    assert_eq!(compile("get(\"k\") trailing"), Err(CompileError::Syntax { pos: 9 }));
    // missing closing parenthesis: reported where ')' was expected
    assert_eq!(compile("get(\"k\" oops"), Err(CompileError::Syntax { pos: 8 }));
}

#[test]
fn errors_describe_themselves() {
    let e = compile("get(\"k\") trailing").unwrap_err();
    assert_eq!(e.describe(), "syntax error in query text at position 9");
    let e = compile("insert(\"k\", [1])").unwrap_err();
    assert_eq!(e, CompileError::NotADocument);
    assert_eq!(e.describe(), "document argument is not an object");
}

#[test]
fn integer_bounds_enforced() {
    assert_eq!(
        parse_value_text("9223372036854775807"),
        Some(Value::Int(i64::MAX))
    );
    assert_eq!(
        parse_value_text("-9223372036854775808"),
        Some(Value::Int(i64::MIN))
    );
    assert_eq!(parse_value_text("9223372036854775808"), None);
    assert_eq!(parse_value_text("-9223372036854775809"), None);
    assert!(matches!(
        compile("insert(\"k\", {\"n\": 99999999999999999999})"),
        Err(CompileError::Syntax { .. })
    ));
}

#[test]
fn long_zero_padded_integer_parses() {
    assert_eq!(
        parse_value_text("00000000000000000000000000042"),
        Some(Value::Int(42))
    );
}

#[test]
fn integers_render_exactly() {
    assert_eq!(to_text(&Value::Int(0)), "0");
    assert_eq!(to_text(&Value::Int(-7)), "-7");
    assert_eq!(to_text(&Value::Int(1048576)), "1048576");
    assert_eq!(to_text(&Value::Int(i64::MIN)), "-9223372036854775808");
    assert_eq!(to_text(&Value::Int(i64::MAX)), "9223372036854775807");
}

#[test]
fn values_render_exactly() {
    let v = obj(vec![
        ("a", Value::Int(1)),
        ("b", Value::Array(vec![Value::Bool(true), Value::Null, s("x")])),
    ]);
    assert_eq!(to_text(&v), "{\"a\":1,\"b\":[true,null,\"x\"]}");
    assert_eq!(to_text(&Value::Object(vec![])), "{}");
    assert_eq!(to_text(&Value::Array(vec![])), "[]");
}

#[test]
fn duplicate_keys_replace_in_place() {
    assert_eq!(
        parse_value_text("{\"a\":1,\"b\":2,\"a\":3}"),
        Some(obj(vec![("a", Value::Int(3)), ("b", Value::Int(2))]))
    );
}

#[test]
fn whitespace_is_insignificant() {
    let call = compile("  get \t( \"k\" )\n").unwrap();
    assert_eq!(call.key, "k");
    assert_eq!(
        parse_value_text(" [ 1 , { \"a\" : null } ] "),
        Some(Value::Array(vec![
            Value::Int(1),
            obj(vec![("a", Value::Null)])
        ]))
    );
}

#[test]
fn multiple_calls_parse_in_order() {
    let calls = parse("get(\"a\") delete(\"b\") insert(\"c\", {\"x\": 1})").unwrap();
    assert_eq!(calls.len(), 3);
    assert_eq!(calls[0].verb, Verb::Get);
    assert_eq!(calls[0].key, "a");
    assert_eq!(calls[1].verb, Verb::Delete);
    assert_eq!(calls[1].key, "b");
    assert_eq!(calls[2].verb, Verb::Insert);
    assert_eq!(calls[2].document, Some(obj(vec![("x", Value::Int(1))])));
}

#[test]
fn multiple_calls_reject_any_bad_document() {
    assert_eq!(
        parse("get(\"a\") insert(\"c\", [1])"),
        Err(CompileError::NotADocument)
    );
    assert_eq!(
        parse("get(\"a\") nonsense"),
        Err(CompileError::Syntax { pos: 9 })
    );
}

#[test]
fn unterminated_string_rejected() {
    assert_eq!(parse_value_text("\"abc"), None);
    assert_eq!(parse_value_text("{\"a\": \"abc}"), None);
}

#[test]
fn unicode_text_round_trips() {
    let v = obj(vec![("gruß", s("héllo — wörld"))]);
    let text = to_text(&v);
    assert_eq!(parse_value_text(&text), Some(v));
}

#[test]
fn trailing_garbage_rejected() {
    assert_eq!(parse_value_text("{} x"), None);
    assert_eq!(parse_value_text("1 2"), None);
    assert_eq!(parse_value_text("nullx"), None);
    assert_eq!(parse_value_text("12x"), None);
}

#[test]
fn malformed_tokens_rejected() {
    assert_eq!(parse_value_text("-"), None);
    assert_eq!(parse_value_text("tru"), None);
    assert_eq!(parse_value_text("[1,]"), None);
    assert_eq!(parse_value_text("{\"a\"}"), None);
    assert_eq!(parse_value_text("{\"a\":}"), None);
    assert_eq!(parse_value_text(""), None);
    assert_eq!(parse_value_text("   "), None);
}
