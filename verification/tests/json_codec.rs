//! The JSON wire codec, exercised on concrete documents, and held against
//! `serde_json` to show the wire format interoperates with the ecosystem's
//! JSON.

use radicle_proxy_client::json::{parse_json, render, JsonValue};

fn obj(pairs: Vec<(&str, JsonValue)>) -> JsonValue {
    JsonValue::Obj(pairs.into_iter().map(|(k, v)| (k.as_bytes().to_vec(), v)).collect())
}

fn s(text: &str) -> JsonValue {
    JsonValue::Str(text.as_bytes().to_vec())
}

fn num(digits: &str) -> JsonValue {
    JsonValue::Num(digits.as_bytes().to_vec())
}

#[test]
fn renders_scalars() {
    assert_eq!(render(&JsonValue::Null), b"null");
    assert_eq!(render(&JsonValue::Bool(true)), b"true");
    assert_eq!(render(&JsonValue::Bool(false)), b"false");
    assert_eq!(render(&num("42")), b"42");
    assert_eq!(render(&s("hi")), b"\"hi\"");
}

#[test]
fn renders_nested_documents() {
    let doc = obj(vec![
        ("name", s("radicle")),
        ("ok", JsonValue::Bool(true)),
        ("seeds", JsonValue::Arr(vec![s("a"), s("b")])),
    ]);
    assert_eq!(render(&doc), b"{\"name\":\"radicle\",\"ok\":true,\"seeds\":[\"a\",\"b\"]}");
}

#[test]
fn escapes_and_unescapes_strings() {
    let tricky = s("a\"b\\c\nd\te\u{1}");
    let text = render(&tricky);
    assert_eq!(text, b"\"a\\\"b\\\\c\\nd\\te\\u0001\"");
    assert_eq!(parse_json(&text), Some(tricky));
}

#[test]
fn keeps_utf8_content_raw() {
    let emoji = s("🌱");
    let text = render(&emoji);
    assert_eq!(parse_json(&text), Some(emoji));
}

#[test]
fn round_trips_nested_documents() {
    let doc = obj(vec![
        ("a", JsonValue::Arr(vec![num("0"), num("1844674407370955161"), JsonValue::Null])),
        ("b", obj(vec![("inner", JsonValue::Arr(vec![]))])),
        ("c", obj(vec![])),
    ]);
    let text = render(&doc);
    assert_eq!(parse_json(&text), Some(doc));
}

#[test]
fn parses_exactly_the_compact_form() {
    assert_eq!(parse_json(&b"{\"a\":1}".to_vec()), Some(obj(vec![("a", num("1"))])));
    // The parser speaks the renderer's compact language only.
    assert_eq!(parse_json(&b"{\"a\": 1}".to_vec()), None);
    assert_eq!(parse_json(&b"".to_vec()), None);
    assert_eq!(parse_json(&b"{\"a\":1}tail".to_vec()), None);
    assert_eq!(parse_json(&b"{\"a\":}".to_vec()), None);
    assert_eq!(parse_json(&b"[1,]".to_vec()), None);
}

#[test]
fn rejects_raw_control_bytes_in_strings() {
    assert_eq!(parse_json(&b"\"a\x01b\"".to_vec()), None);
    assert_eq!(parse_json(&b"\"a\\/b\"".to_vec()), None);
}

#[test]
fn the_first_of_duplicate_keys_wins() {
    let doc = parse_json(&b"{\"k\":1,\"k\":2}".to_vec()).unwrap();
    assert_eq!(doc.get(b"k").unwrap().as_u64(), Some(1));
}

#[test]
fn agrees_with_serde_json_on_rendered_output() {
    let doc = obj(vec![
        ("handle", s("cloudhead")),
        ("count", num("7")),
        ("flags", JsonValue::Arr(vec![JsonValue::Bool(false), JsonValue::Null])),
    ]);
    let text = render(&doc);
    let parsed: serde_json::Value = serde_json::from_slice(&text).unwrap();
    assert_eq!(parsed["handle"], serde_json::Value::String("cloudhead".to_string()));
    assert_eq!(parsed["count"], serde_json::Value::Number(7u64.into()));
    assert_eq!(parsed["flags"][0], serde_json::Value::Bool(false));
    assert_eq!(parsed["flags"][1], serde_json::Value::Null);
}

#[test]
fn parses_what_serde_json_writes_compactly() {
    let mut m = serde_json::Map::new();
    m.insert("urn".to_string(), serde_json::Value::String("rad:git:xyz".to_string()));
    m.insert("n".to_string(), serde_json::Value::Number(123u64.into()));
    let text = serde_json::to_string(&serde_json::Value::Object(m)).unwrap();
    let doc = parse_json(&text.into_bytes()).unwrap();
    assert_eq!(
        doc.get(b"urn").unwrap(),
        &s("rad:git:xyz")
    );
    assert_eq!(doc.get(b"n").unwrap().as_u64(), Some(123));
}

#[test]
fn reads_numbers_with_range_checks() {
    assert_eq!(num("18446744073709551615").as_u64(), Some(u64::MAX));
    assert_eq!(num("18446744073709551616").as_u64(), None);
    assert_eq!(num("0").as_u64(), Some(0));
    assert_eq!(s("7").as_u64(), None);
}
