use json_embed::document::{check_path, document_source, parse_document, value_source, EmbedError};
use json_embed::recipe::{compile, Recipe};
use json_embed::value::JsonValue;

const DOCUMENT: &str = r#"{"null":null,"true":true,"false":false,"posint":10,"negint":-10,"float":10.0,"string":"...","emptyarray":[],"array":[1,2,3],"emptyobject":{}}"#;

fn to_serde(v: &JsonValue) -> serde_json::Value {
    match v {
        JsonValue::Null => serde_json::Value::Null,
        JsonValue::Bool(b) => serde_json::Value::Bool(*b),
        JsonValue::Number(t) => serde_json::Value::Number(t.parse().unwrap()),
        JsonValue::String(s) => serde_json::Value::String(s.clone()),
        JsonValue::Array(a) => serde_json::Value::Array(a.iter().map(to_serde).collect()),
        JsonValue::Object(e) => {
            let mut m = serde_json::Map::new();
            for (k, x) in e {
                m.insert(k.clone(), to_serde(x));
            }
            serde_json::Value::Object(m)
        }
    }
}

fn rebuilt(doc: &str) -> JsonValue {
    let v = parse_document(doc.as_bytes()).unwrap();
    compile(&v).build()
}

fn num(t: &str) -> JsonValue {
    JsonValue::Number(t.to_string())
}

#[test]
fn test() {
    let actual = rebuilt(DOCUMENT);
    let expected: serde_json::Value = serde_json::from_str(DOCUMENT).unwrap();
    assert_eq!(to_serde(&actual), expected);
    let by_hand = JsonValue::Object(vec![
        ("null".to_string(), JsonValue::Null),
        ("true".to_string(), JsonValue::Bool(true)),
        ("false".to_string(), JsonValue::Bool(false)),
        ("posint".to_string(), num("10")),
        ("negint".to_string(), num("-10")),
        ("float".to_string(), num("10.0")),
        ("string".to_string(), JsonValue::String("...".to_string())),
        ("emptyarray".to_string(), JsonValue::Array(vec![])),
        ("array".to_string(), JsonValue::Array(vec![num("1"), num("2"), num("3")])),
        ("emptyobject".to_string(), JsonValue::Object(vec![])),
    ]);
    assert_eq!(to_serde(&by_hand), expected);
    assert_eq!(actual, by_hand);
    assert_eq!(
        document_source(DOCUMENT.as_bytes()).unwrap(),
        value_source(&by_hand)
    );
}

#[test]
fn round_trip_nested_document() {
    let doc = r#"[{"a":[1,{"b":null}],"c":"x"},[],[[true]],-0.5]"#;
    let v = parse_document(doc.as_bytes()).unwrap();
    let r = compile(&v).build();
    assert_eq!(r, v);
    let expected: serde_json::Value = serde_json::from_str(doc).unwrap();
    assert_eq!(to_serde(&r), expected);
}

#[test]
fn object_keys_keep_their_order() {
    let v = JsonValue::Object(vec![
        ("k3".to_string(), num("3")),
        ("k1".to_string(), num("1")),
        ("k2".to_string(), num("2")),
    ]);
    let r = compile(&v).build();
    let keys: Vec<String> = match &r {
        JsonValue::Object(e) => e.iter().map(|(k, _)| k.clone()).collect(),
        _ => panic!("not an object"),
    };
    assert_eq!(keys, vec!["k3", "k1", "k2"]);
    assert_eq!(r, v);
}

#[test]
fn integers_and_floats_keep_their_kind() {
    let int = compile(&num("10")).build();
    let float = compile(&num("10.0")).build();
    assert_eq!(int, num("10"));
    assert_eq!(float, num("10.0"));
    assert!(to_serde(&int).is_i64());
    assert!(to_serde(&float).is_f64());
    assert!(!to_serde(&float).is_i64());
    assert_eq!(compile(&num("10")), Recipe::NumberFromText("10".to_string()));
}

#[test]
fn empty_aggregates_use_empty_constructors() {
    let a = JsonValue::Array(vec![]);
    let o = JsonValue::Object(vec![]);
    assert_eq!(compile(&a), Recipe::EmptyArray);
    assert_eq!(compile(&o), Recipe::EmptyMap);
    assert_eq!(compile(&a).build(), JsonValue::Array(vec![]));
    assert_eq!(compile(&o).build(), JsonValue::Object(vec![]));
    assert_eq!(
        value_source(&a),
        "::serde_json::Value::Array(::core::default::Default::default())"
    );
    assert_eq!(value_source(&o), "::serde_json::Value::Object(::serde_json::Map::new())");
}

#[test]
fn single_elements_use_the_general_form() {
    let a = JsonValue::Array(vec![JsonValue::Null]);
    assert_eq!(compile(&a), Recipe::ArrayOf(vec![Recipe::NullCtor]));
    let o = JsonValue::Object(vec![("k".to_string(), JsonValue::Bool(false))]);
    assert_eq!(
        compile(&o),
        Recipe::MapInserts(1, vec![("k".to_string(), Recipe::BoolCtor(false))])
    );
}

#[test]
fn relative_paths_are_refused() {
    assert_eq!(check_path("Cargo.toml"), Err(EmbedError::NotAbsolute));
    assert_eq!(check_path("tests/test.json"), Err(EmbedError::NotAbsolute));
    assert_eq!(check_path("./missing.json"), Err(EmbedError::NotAbsolute));
    assert_eq!(check_path(""), Err(EmbedError::NotAbsolute));
}

#[test]
fn parsed_objects_keep_document_order() {
    let v = parse_document(br#"{"b":1,"a":2,"c":3}"#).unwrap();
    let keys: Vec<String> = match &compile(&v).build() {
        JsonValue::Object(e) => e.iter().map(|(k, _)| k.clone()).collect(),
        _ => panic!("not an object"),
    };
    assert_eq!(keys, vec!["b", "a", "c"]);
    let expected: serde_json::Value = serde_json::from_str(r#"{"b":1,"a":2,"c":3}"#).unwrap();
    let serde_keys: Vec<&String> = expected.as_object().unwrap().keys().collect();
    assert_eq!(serde_keys, vec!["b", "a", "c"]);
}

#[test]
fn literals_escape_quotes_backslashes_and_non_ascii() {
    assert_eq!(
        value_source(&JsonValue::String("\\\u{e9}\0".to_string())),
        "::serde_json::Value::String(::core::convert::From::from(\"\\\\\\u{e9}\\u{0}\"))"
    );
}

#[test]
fn absolute_paths_pass_the_check() {
    assert_eq!(check_path("/definitely/not/here.json"), Ok(()));
}

#[test]
fn malformed_documents_are_parse_failures() {
    assert!(matches!(document_source(b"{"), Err(EmbedError::ParseFailure(_))));
    assert!(matches!(document_source(b"[1,]"), Err(EmbedError::ParseFailure(_))));
    assert!(matches!(parse_document(b""), Err(EmbedError::ParseFailure(_))));
}

#[test]
fn duplicate_keys_follow_the_parser() {
    let v = parse_document(br#"{"a":1,"b":2,"a":3}"#).unwrap();
    let entries = match v {
        JsonValue::Object(e) => e,
        _ => panic!("not an object"),
    };
    assert_eq!(
        entries,
        vec![("a".to_string(), num("3")), ("b".to_string(), num("2"))]
    );
}

#[test]
fn source_of_scalars() {
    assert_eq!(value_source(&JsonValue::Null), "::serde_json::Value::Null");
    assert_eq!(value_source(&JsonValue::Bool(true)), "::serde_json::Value::Bool(true)");
    assert_eq!(
        value_source(&num("-10")),
        "::serde_json::Value::Number(::core::str::FromStr::from_str(\"-10\").unwrap())"
    );
    assert_eq!(
        value_source(&JsonValue::String("a\"b\n".to_string())),
        "::serde_json::Value::String(::core::convert::From::from(\"a\\\"b\\u{a}\"))"
    );
}

#[test]
fn source_of_aggregates() {
    let a = JsonValue::Array(vec![num("1"), JsonValue::Null]);
    assert_eq!(
        value_source(&a),
        "::serde_json::Value::Array(::std::vec![::serde_json::Value::Number(::core::str::FromStr::from_str(\"1\").unwrap()), ::serde_json::Value::Null])"
    );
    let o = JsonValue::Object(vec![
        ("x".to_string(), JsonValue::Null),
        ("y".to_string(), JsonValue::Bool(false)),
    ]);
    assert_eq!(
        value_source(&o),
        "::serde_json::Value::Object({ let mut object = ::serde_json::Map::with_capacity(2); let _ = object.insert(::core::convert::From::from(\"x\"), ::serde_json::Value::Null); let _ = object.insert(::core::convert::From::from(\"y\"), ::serde_json::Value::Bool(false)); object })"
    );
}

#[test]
fn document_source_of_the_scenario() {
    let s = document_source(DOCUMENT.as_bytes()).unwrap();
    assert!(s.starts_with("::serde_json::Value::Object({ let mut object = ::serde_json::Map::with_capacity(10); "));
    assert!(s.contains("::serde_json::Value::Number(::core::str::FromStr::from_str(\"10.0\").unwrap())"));
}

#[test]
fn large_capacity_is_written_in_decimal() {
    let entries: Vec<(String, JsonValue)> =
        (0..123).map(|i| (format!("k{}", i), JsonValue::Null)).collect();
    let s = value_source(&JsonValue::Object(entries));
    assert!(s.contains("with_capacity(123);"));
}
