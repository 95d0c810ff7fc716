use chromeprofiles::json::{parse_json, JsonValue};

fn s(text: &str) -> JsonValue {
    JsonValue::Str(text.to_string())
}

#[test]
fn parses_literals() {
    assert_eq!(parse_json("true"), Some(JsonValue::Bool(true)));
    assert_eq!(parse_json("false"), Some(JsonValue::Bool(false)));
    assert_eq!(parse_json("null"), Some(JsonValue::Null));
    assert_eq!(parse_json("  true  "), Some(JsonValue::Bool(true)));
}

#[test]
fn parses_integers() {
    assert_eq!(parse_json("0"), Some(JsonValue::Int(0)));
    assert_eq!(parse_json("-0"), Some(JsonValue::Int(0)));
    assert_eq!(parse_json("42"), Some(JsonValue::Int(42)));
    assert_eq!(parse_json("-123456"), Some(JsonValue::Int(-123456)));
    assert_eq!(
        parse_json("9223372036854775807"),
        Some(JsonValue::Int(9223372036854775807))
    );
    assert_eq!(
        parse_json("-9223372036854775808"),
        Some(JsonValue::Int(i64::MIN))
    );
}

#[test]
fn keeps_other_numbers_verbatim() {
    assert_eq!(parse_json("1.5"), Some(JsonValue::Num("1.5".to_string())));
    assert_eq!(
        parse_json("-2.25e10"),
        Some(JsonValue::Num("-2.25e10".to_string()))
    );
    assert_eq!(parse_json("1e3"), Some(JsonValue::Num("1e3".to_string())));
    // one past i64::MAX stays a lexeme
    assert_eq!(
        parse_json("9223372036854775808"),
        Some(JsonValue::Num("9223372036854775808".to_string()))
    );
}

#[test]
fn parses_strings_and_escapes() {
    assert_eq!(parse_json("\"\""), Some(s("")));
    assert_eq!(parse_json("\"abc\""), Some(s("abc")));
    assert_eq!(
        parse_json("\"a\\\"b\\\\c\\/d\\n\\t\\r\\b\\f\""),
        Some(s("a\"b\\c/d\n\t\r\u{0008}\u{000C}"))
    );
    assert_eq!(parse_json("\"\\u0041\""), Some(s("A")));
    assert_eq!(parse_json("\"\\u00e9\""), Some(s("\u{e9}")));
    // a surrogate pair denotes one supplementary-plane character
    assert_eq!(parse_json("\"\\uD83D\\uDE00\""), Some(s("\u{1F600}")));
    // raw non-ASCII characters pass through
    assert_eq!(parse_json("\"caf\u{e9}\""), Some(s("caf\u{e9}")));
}

#[test]
fn parses_arrays_and_objects() {
    assert_eq!(parse_json("[]"), Some(JsonValue::Arr(vec![])));
    assert_eq!(parse_json("{ }"), Some(JsonValue::Obj(vec![])));
    assert_eq!(
        parse_json("[1, \"x\", null]"),
        Some(JsonValue::Arr(vec![
            JsonValue::Int(1),
            s("x"),
            JsonValue::Null
        ]))
    );
    assert_eq!(
        parse_json("{\"a\": 1, \"b\": [true]}"),
        Some(JsonValue::Obj(vec![
            ("a".to_string(), JsonValue::Int(1)),
            ("b".to_string(), JsonValue::Arr(vec![JsonValue::Bool(true)])),
        ]))
    );
    assert_eq!(
        parse_json("{\"o\": {\"k\": \"v\"}}"),
        Some(JsonValue::Obj(vec![(
            "o".to_string(),
            JsonValue::Obj(vec![("k".to_string(), s("v"))])
        )]))
    );
}

#[test]
fn rejects_malformed_documents() {
    assert_eq!(parse_json(""), None);
    assert_eq!(parse_json("   "), None);
    assert_eq!(parse_json("{"), None);
    assert_eq!(parse_json("{\"a\": }"), None);
    assert_eq!(parse_json("{\"a\": 1,}"), None);
    assert_eq!(parse_json("[1, ]"), None);
    assert_eq!(parse_json("[1 2]"), None);
    assert_eq!(parse_json("tru"), None);
    assert_eq!(parse_json("nul"), None);
    assert_eq!(parse_json("01"), None);
    assert_eq!(parse_json("1."), None);
    assert_eq!(parse_json("1e"), None);
    assert_eq!(parse_json("-"), None);
    assert_eq!(parse_json("\"unterminated"), None);
    assert_eq!(parse_json("\"bad \\x escape\""), None);
    assert_eq!(parse_json("\"\\u12\""), None);
    // a lone surrogate is not a character
    assert_eq!(parse_json("\"\\uD83D\""), None);
    assert_eq!(parse_json("\"ctrl \u{0001}\""), None);
    assert_eq!(parse_json("1 2"), None);
    assert_eq!(parse_json("{\"a\": 1} extra"), None);
    assert_eq!(parse_json("{'a': 1}"), None);
}

#[test]
fn whitespace_is_tolerated_everywhere() {
    let text = " \t\r\n{ \"a\" : [ 1 , 2 ] , \"b\" : { } } \n";
    assert_eq!(
        parse_json(text),
        Some(JsonValue::Obj(vec![
            (
                "a".to_string(),
                JsonValue::Arr(vec![JsonValue::Int(1), JsonValue::Int(2)])
            ),
            ("b".to_string(), JsonValue::Obj(vec![])),
        ]))
    );
}
