use mozdef_proxy::json::Json;
use mozdef_proxy::json::json_to_string;
use mozdef_proxy::json::parse_json;

fn s(text: &str) -> String {
    text.to_string()
}

#[test]
fn parses_scalars() {
    assert_eq!(parse_json("null"), Some(Json::Null));
    assert_eq!(parse_json("true"), Some(Json::Bool(true)));
    assert_eq!(parse_json("false"), Some(Json::Bool(false)));
    assert_eq!(parse_json("42"), Some(Json::Num(s("42"))));
    assert_eq!(parse_json("-1.5e3"), Some(Json::Num(s("-1.5e3"))));
    assert_eq!(parse_json("\"hi\""), Some(Json::Str(s("hi"))));
}

#[test]
fn parses_with_whitespace() {
    assert_eq!(
        parse_json(" {\n\t\"a\" : [ 1 , 2 ] }\r\n"),
        Some(Json::Obj(vec![(
            s("a"),
            Json::Arr(vec![Json::Num(s("1")), Json::Num(s("2"))])
        )]))
    );
}

#[test]
fn parses_escapes() {
    assert_eq!(
        parse_json("\"a\\n\\t\\\\\\\"\\u0041\\/\""),
        Some(Json::Str(s("a\n\t\\\"A/")))
    );
}

#[test]
fn rejects_malformed_documents() {
    assert_eq!(parse_json(""), None);
    assert_eq!(parse_json("nul"), None);
    assert_eq!(parse_json("{"), None);
    assert_eq!(parse_json("[1,]"), None);
    assert_eq!(parse_json("{\"a\":}"), None);
    assert_eq!(parse_json("\"unterminated"), None);
    assert_eq!(parse_json("1 2"), None);
    assert_eq!(parse_json("\"\\q\""), None);
    assert_eq!(parse_json("\"\\ud800\""), None);
}

#[test]
fn rejects_nonstandard_numbers() {
    assert_eq!(parse_json("01"), None);
    assert_eq!(parse_json("1."), None);
    assert_eq!(parse_json("+1"), None);
    assert_eq!(parse_json("1e"), None);
    assert_eq!(parse_json("--2"), None);
    assert_eq!(parse_json("1.2.3"), None);
}

#[test]
fn encodes_canonically() {
    let v = Json::Obj(vec![
        (s("n"), Json::Num(s("-2.5"))),
        (s("t"), Json::Bool(true)),
        (s("z"), Json::Null),
        (s("arr"), Json::Arr(vec![Json::Num(s("1")), Json::Str(s("x"))])),
        (s("o"), Json::Obj(vec![])),
    ]);
    assert_eq!(
        json_to_string(&v),
        "{\"n\":-2.5,\"t\":true,\"z\":null,\"arr\":[1,\"x\"],\"o\":{}}"
    );
}

#[test]
fn escapes_strings_when_encoding() {
    let v = Json::Str(s("a\"b\\c\nd"));
    assert_eq!(json_to_string(&v), "\"a\\\"b\\\\c\\u000ad\"");
}

#[test]
fn round_trips_documents() {
    let v = Json::Obj(vec![
        (s("k"), Json::Arr(vec![Json::Num(s("0")), Json::Num(s("1e9"))])),
        (s("quote\""), Json::Str(s("tab\there"))),
        (s("nested"), Json::Obj(vec![(s("deep"), Json::Arr(vec![Json::Null]))])),
    ]);
    let text = json_to_string(&v);
    assert_eq!(parse_json(&text), Some(v));
}

#[test]
fn encoded_text_is_standard_json() {
    let v = Json::Obj(vec![
        (s("msg"), Json::Str(s("line1\nline2 \"quoted\""))),
        (s("count"), Json::Num(s("17"))),
    ]);
    let text = json_to_string(&v);
    let parsed: serde_json::Value = serde_json::from_str(&text).unwrap();
    assert_eq!(parsed["msg"], serde_json::Value::String(s("line1\nline2 \"quoted\"")));
    assert_eq!(parsed["count"], serde_json::Value::Number(17.into()));
}
