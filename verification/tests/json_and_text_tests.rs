use google_ai::json::{Json, Number};
use google_ai::schema::{sanitize_schema, sanitized};
use google_ai::sse::SseDecoder;

fn s(text: &str) -> Json {
    Json::Str(text.to_string())
}

fn obj(members: Vec<(&str, Json)>) -> Json {
    Json::Obj(members.into_iter().map(|(k, v)| (k.to_string(), v)).collect())
}

fn arr(items: Vec<Json>) -> Json {
    Json::Arr(items)
}

#[test]
fn json_text_of_an_object_is_compact() {
    assert_eq!(obj(vec![("cmd", s("ls"))]).to_json_text(), "{\"cmd\":\"ls\"}");
    assert_eq!(obj(vec![]).to_json_text(), "{}");
    assert_eq!(arr(vec![]).to_json_text(), "[]");
    assert_eq!(
        arr(vec![Json::Num(Number::PosInt(1)), Json::Null, Json::Bool(true), Json::Bool(false)]).to_json_text(),
        "[1,null,true,false]"
    );
}

#[test]
fn json_text_of_numbers() {
    assert_eq!(Json::Num(Number::PosInt(0)).to_json_text(), "0");
    assert_eq!(Json::Num(Number::PosInt(u64::MAX)).to_json_text(), "18446744073709551615");
    assert_eq!(Json::Num(Number::NegInt(-42)).to_json_text(), "-42");
    assert_eq!(Json::Num(Number::NegInt(i64::MIN)).to_json_text(), "-9223372036854775808");
    assert_eq!(Json::Num(Number::Float("1.5".to_string())).to_json_text(), "1.5");
}

#[test]
fn json_text_escapes_strings_as_serde_json_does() {
    let raw = "a\"b\\c\n\t\r\u{8}\u{c}\u{1}\u{1f}\u{7f}é/";
    let ours = s(raw).to_json_text();
    assert_eq!(ours, "\"a\\\"b\\\\c\\n\\t\\r\\b\\f\\u0001\\u001f\u{7f}é/\"");
    assert_eq!(ours, serde_json::Value::String(raw.to_string()).to_string());
}

#[test]
fn json_text_matches_serde_json_on_a_nested_value() {
    let ours = obj(vec![
        ("a", arr(vec![Json::Num(Number::NegInt(-3)), s("x\ny")])),
        ("b", obj(vec![("c", Json::Null)])),
    ]);
    let mut inner = serde_json::Map::new();
    inner.insert("c".to_string(), serde_json::Value::Null);
    let mut outer = serde_json::Map::new();
    outer.insert(
        "a".to_string(),
        serde_json::Value::Array(vec![serde_json::Value::from(-3i64), serde_json::Value::from("x\ny")]),
    );
    outer.insert("b".to_string(), serde_json::Value::Object(inner));
    assert_eq!(ours.to_json_text(), serde_json::Value::Object(outer).to_string());
}

#[test]
fn json_accessors_follow_serde_json() {
    let v = obj(vec![
        ("n", Json::Num(Number::PosInt(7))),
        ("big", Json::Num(Number::PosInt(u64::MAX))),
        ("neg", Json::Num(Number::NegInt(-7))),
        ("f", Json::Num(Number::Float("2.0".to_string()))),
        ("t", s("text")),
        ("l", arr(vec![Json::Null])),
        ("n", s("second")),
    ]);
    assert_eq!(v.get_u64("n"), Some(7));
    assert_eq!(v.get_i64("n"), Some(7));
    assert_eq!(v.get_u64("big"), Some(u64::MAX));
    assert_eq!(v.get_i64("big"), None);
    assert_eq!(v.get_u64("neg"), None);
    assert_eq!(v.get_i64("neg"), Some(-7));
    assert_eq!(v.get_u64("f"), None);
    assert_eq!(v.get_i64("f"), None);
    assert_eq!(v.get_str("t").map(|t| t.as_str()), Some("text"));
    assert_eq!(v.get_str("n"), None);
    assert_eq!(v.get_array("l").map(|l| l.len()), Some(1));
    assert!(v.get("missing").is_none());
    assert!(s("x").get("t").is_none());
    assert_eq!(v.deep_copy(), v);
}

#[test]
fn sanitize_collapses_type_arrays_and_drops_keywords() {
    let schema = obj(vec![
        ("type", arr(vec![s("object"), s("null")])),
        ("additionalProperties", Json::Bool(false)),
        ("examples", arr(vec![])),
        ("default", Json::Null),
        ("description", s("kept")),
        (
            "properties",
            obj(vec![
                ("default", obj(vec![("type", arr(vec![s("string")])), ("default", s("d"))])),
                ("count", obj(vec![("type", arr(vec![])), ("examples", arr(vec![]))])),
            ]),
        ),
        ("items", obj(vec![("type", arr(vec![s("integer"), s("null")])), ("additionalProperties", Json::Bool(true))])),
    ]);
    let expected = obj(vec![
        ("type", s("object")),
        ("description", s("kept")),
        (
            "properties",
            obj(vec![("default", obj(vec![("type", s("string"))])), ("count", obj(vec![]))]),
        ),
        ("items", obj(vec![("type", s("integer"))])),
    ]);
    assert_eq!(sanitized(&schema), expected);
    let mut in_place = schema.deep_copy();
    sanitize_schema(&mut in_place);
    assert_eq!(in_place, expected);
}

#[test]
fn sanitize_keeps_values_that_are_not_objects() {
    assert_eq!(sanitized(&s("x")), s("x"));
    assert_eq!(sanitized(&arr(vec![obj(vec![("default", Json::Null)])])), arr(vec![obj(vec![("default", Json::Null)])]));
    let schema = obj(vec![("properties", s("not an object")), ("type", s("string"))]);
    assert_eq!(sanitized(&schema), schema);
}

#[test]
fn sanitize_twice_is_sanitize_once() {
    let schema = obj(vec![
        ("type", arr(vec![s("array")])),
        ("items", obj(vec![("type", arr(vec![s("object")])), ("properties", obj(vec![("a", obj(vec![("default", Json::Null)]))]))])),
    ]);
    let once = sanitized(&schema);
    assert_eq!(sanitized(&once), once);
}

#[test]
fn sanitize_a_nested_type_array_is_collapsed_one_level() {
    let schema = obj(vec![("type", arr(vec![arr(vec![s("string")])]))]);
    let once = sanitized(&schema);
    assert_eq!(once, obj(vec![("type", arr(vec![s("string")]))]));
    assert_eq!(sanitized(&once), obj(vec![("type", s("string"))]));
}

#[test]
fn sse_decoder_gives_data_payloads() {
    let mut d = SseDecoder::new();
    assert_eq!(d.push_text("data: {\"a\":1}\n"), vec!["{\"a\":1}".to_string()]);
    assert_eq!(d.push_text("data: [DONE]\n"), Vec::<String>::new());
    assert_eq!(d.push_text(": keep-alive\nevent: x\n\n"), Vec::<String>::new());
    assert_eq!(d.push_text("  data: y \r\n"), vec!["y".to_string()]);
    assert_eq!(d.push_text("data:nospace\n"), Vec::<String>::new());
    assert_eq!(d.finish(), None);
}

#[test]
fn sse_decoder_joins_lines_cut_across_chunks() {
    let mut d = SseDecoder::new();
    assert_eq!(d.push_text("da"), Vec::<String>::new());
    assert_eq!(d.push_text("ta: {\"x\""), Vec::<String>::new());
    assert_eq!(d.push_text(":2}\r\ndata: last"), vec!["{\"x\":2}".to_string()]);
    assert_eq!(d.finish(), Some("last".to_string()));
    assert_eq!(d.finish(), None);
}

#[test]
fn sse_decoder_gives_the_same_payloads_however_the_text_is_cut() {
    let text = "data: one\n\ndata: [DONE]\nevent: e\r\ndata:  two  \ndata: three";
    let mut whole = SseDecoder::new();
    let mut expected = whole.push_text(text);
    expected.extend(whole.finish());
    assert_eq!(expected, vec!["one".to_string(), " two".to_string(), "three".to_string()]);
    for cut in 0..=text.len() {
        let mut d = SseDecoder::new();
        let mut got = d.push_text(&text[..cut]);
        got.extend(d.push_text(&text[cut..]));
        got.extend(d.finish());
        assert_eq!(got, expected, "cut at {}", cut);
    }
}

#[test]
fn sse_decoder_replaces_invalid_utf8() {
    let mut d = SseDecoder::new();
    assert_eq!(d.push_bytes(b"data: \xff\n"), vec!["\u{FFFD}".to_string()]);
    assert_eq!(d.push_bytes("data: é\n".as_bytes()), vec!["é".to_string()]);
}

#[test]
fn sse_decoder_keeps_a_done_line_that_is_not_alone() {
    let mut d = SseDecoder::new();
    assert_eq!(d.push_text("data: [DONE] \n"), Vec::<String>::new());
    assert_eq!(d.push_text("data: [DONE]x\n"), vec!["[DONE]x".to_string()]);
}
