use hyper::json::JsonValue;
use hyper::json::parse;

fn member<'a>(value: &'a JsonValue, key: &str) -> &'a JsonValue {
    match value {
        JsonValue::Object(entries) => {
            &entries.iter().find(|(k, _)| k == key).expect("key present").1
        }
        other => panic!("expected an object, got {:?}", other),
    }
}

#[test]
fn parses_scalars() {
    assert_eq!(parse("null").unwrap(), JsonValue::Null);
    assert_eq!(parse("true").unwrap(), JsonValue::Bool(true));
    assert_eq!(parse("-12").unwrap(), JsonValue::Int(-12));
    match parse("2.5").unwrap() {
        JsonValue::Float(t) => assert_eq!(t.parse::<f64>().unwrap(), 2.5),
        other => panic!("expected a float, got {:?}", other),
    }
    assert_eq!(parse("\"hi\"").unwrap(), JsonValue::Str("hi".to_string()));
}

#[test]
fn parses_nested_document() {
    let value = parse("{\"name\": \"Hyper\", \"tags\": [1, 2], \"ok\": true}").unwrap();
    assert_eq!(member(&value, "name"), &JsonValue::Str("Hyper".to_string()));
    assert_eq!(member(&value, "ok"), &JsonValue::Bool(true));
    assert_eq!(
        member(&value, "tags"),
        &JsonValue::List(vec![JsonValue::Int(1), JsonValue::Int(2)])
    );
}

#[test]
fn parses_escapes_and_unicode() {
    let value = parse("\"a\\nb\\u0041\\ud83d\\ude00\"").unwrap();
    assert_eq!(value, JsonValue::Str("a\nbA\u{1F600}".to_string()));
}

#[test]
fn rejects_malformed_input() {
    assert!(parse("{\"a\": }").is_err());
    assert!(parse("[1, 2").is_err());
    assert!(parse("nul").is_err());
    assert!(parse("1 2").is_err());
}

#[test]
fn stringify_is_deterministic() {
    let value = parse("{\"b\": 1, \"a\": [true, null]}").unwrap();
    assert_eq!(hyper::json::stringify(&value, 0).unwrap(), "{\"a\":[true,null],\"b\":1}");
}

#[test]
fn stringify_indents_when_asked() {
    let value = parse("{\"a\": [1]}").unwrap();
    assert_eq!(hyper::json::stringify(&value, 2).unwrap(), "{\n  \"a\": [\n    1\n  ]\n}");
}

#[test]
fn round_trip_preserves_document() {
    let source = "{\"a\":[1,2.5,\"x\"],\"b\":{\"c\":null}}";
    let parsed = parse(source).unwrap();
    assert_eq!(hyper::json::stringify(&parsed, 0).unwrap(), source);
}

#[test]
fn functions_cannot_be_serialized() {
    let value = hyper::json::unserializable(hyper::json::Unserializable::Function);
    assert!(hyper::json::stringify(&value, 0).is_err());
}

#[test]
fn unserializable_values_name_their_kind() {
    let value = hyper::json::unserializable(hyper::json::Unserializable::Module);
    assert_eq!(hyper::json::stringify(&value, 0).unwrap_err(), "cannot serialize a module to JSON");
}

#[test]
fn error_messages_give_byte_positions() {
    assert_eq!(parse("").unwrap_err(), "unexpected end of input");
    assert_eq!(parse("nul").unwrap_err(), "invalid literal at byte 0");
    assert_eq!(parse("1 2").unwrap_err(), "unexpected trailing content at byte 2");
    assert_eq!(parse("[1, 2").unwrap_err(), "expected ',' or ']' at byte 5");
    assert_eq!(parse("{\"a\" 1}").unwrap_err(), "expected ':' at byte 5");
    assert_eq!(parse("{\"a\": 1 \"b\"}").unwrap_err(), "expected ',' or '}' at byte 8");
    assert_eq!(parse("{1: 2}").unwrap_err(), "expected '\"' at byte 1");
    assert_eq!(parse("[\"é\", x]").unwrap_err(), "expected a value at byte 7");
    assert_eq!(parse("\"é\" 1").unwrap_err(), "unexpected trailing content at byte 5");
}

#[test]
fn string_errors_are_reported() {
    assert_eq!(parse("\"abc").unwrap_err(), "unterminated string");
    assert_eq!(parse("\"ab\\").unwrap_err(), "unterminated escape");
    assert_eq!(parse("\"\\q\"").unwrap_err(), "invalid escape '\\q'");
    assert_eq!(parse("\"\\u12x4\"").unwrap_err(), "invalid unicode escape");
    assert_eq!(parse("\"\\u12\"").unwrap_err(), "truncated unicode escape");
    assert_eq!(parse("\"\\u1").unwrap_err(), "truncated unicode escape");
    assert_eq!(parse("\"\\ud83d\"").unwrap_err(), "lone high surrogate");
    assert_eq!(parse("\"\\ud83d\\u0041\"").unwrap_err(), "invalid low surrogate");
    assert_eq!(parse("\"\\udc00\"").unwrap_err(), "invalid unicode escape");
    assert_eq!(parse("\"\\u+041\"").unwrap(), JsonValue::Str("A".to_string()));
}

#[test]
fn numbers_read_as_integers_or_float_text() {
    assert_eq!(parse("+7").unwrap(), JsonValue::Int(7));
    assert_eq!(parse("9223372036854775807").unwrap(), JsonValue::Int(i64::MAX));
    assert_eq!(
        parse("9223372036854775808").unwrap(),
        JsonValue::Float("9223372036854775808".to_string())
    );
    assert_eq!(parse("1e3").unwrap(), JsonValue::Float("1e3".to_string()));
    assert_eq!(parse("1-2").unwrap_err(), "invalid number '1-2'");
    assert_eq!(parse("-").unwrap_err(), "invalid number '-'");
}

#[test]
fn objects_keep_read_order_and_print_sorted() {
    let value = parse("{\"z\": 1, \"a\": 2, \"z\": 3}").unwrap();
    assert_eq!(
        value,
        JsonValue::Object(vec![
            ("z".to_string(), JsonValue::Int(3)),
            ("a".to_string(), JsonValue::Int(2)),
        ])
    );
    assert_eq!(hyper::json::stringify(&value, 0).unwrap(), "{\"a\":2,\"z\":3}");
    let reordered = JsonValue::Object(vec![
        ("a".to_string(), JsonValue::Int(2)),
        ("z".to_string(), JsonValue::Int(3)),
    ]);
    assert_eq!(
        hyper::json::stringify(&reordered, 1).unwrap(),
        hyper::json::stringify(&value, 1).unwrap()
    );
}

#[test]
fn strings_are_escaped_when_written() {
    let value = JsonValue::Str("q\"b\\n\n\u{1}é".to_string());
    assert_eq!(hyper::json::stringify(&value, 0).unwrap(), "\"q\\\"b\\\\n\\n\\u0001é\"");
    assert_eq!(parse(&hyper::json::stringify(&value, 0).unwrap()).unwrap(), value);
}

#[test]
fn empty_containers_are_written_compactly() {
    assert_eq!(hyper::json::stringify(&JsonValue::List(vec![]), 4).unwrap(), "[]");
    assert_eq!(hyper::json::stringify(&JsonValue::Object(vec![]), 4).unwrap(), "{}");
    assert_eq!(hyper::json::stringify(&JsonValue::Int(-5), 4).unwrap(), "-5");
}

#[test]
fn first_unserializable_value_is_reported() {
    let value = JsonValue::List(vec![
        JsonValue::Int(1),
        JsonValue::Invalid("cannot serialize a module to JSON".to_string()),
        JsonValue::Invalid("cannot serialize a file to JSON".to_string()),
    ]);
    assert_eq!(hyper::json::stringify(&value, 0).unwrap_err(), "cannot serialize a module to JSON");
}

#[test]
fn numbers_kept_as_text_read_back_alike() {
    let source = "[2.5,1e3,-0.25,12345678901234567890]";
    let parsed = parse(source).unwrap();
    let written = hyper::json::stringify(&parsed, 2).unwrap();
    assert_eq!(parse(&written).unwrap(), parsed);
    assert_eq!(hyper::json::stringify(&parse(&written).unwrap(), 0).unwrap(), source);
}
