use toolset::json::Json;
use toolset::parser::parse;

fn sample() -> Json {
    Json::Obj(vec![
        (
            "a".to_string(),
            Json::Arr(vec![
                Json::Int(1),
                Json::Bool(true),
                Json::Null,
                Json::Str("x\"y\\z".to_string()),
            ]),
        ),
        ("b".to_string(), Json::Int(-42)),
        ("".to_string(), Json::Obj(vec![])),
    ])
}

#[test]
fn compact_text_is_exact() {
    assert_eq!(
        sample().to_text(),
        "{\"a\":[1,true,null,\"x\\\"y\\\\z\"],\"b\":-42,\"\":{}}".to_string()
    );
}

#[test]
fn scalar_texts_are_exact() {
    assert_eq!(Json::Null.to_text(), "null".to_string());
    assert_eq!(Json::Bool(false).to_text(), "false".to_string());
    assert_eq!(Json::Int(0).to_text(), "0".to_string());
    assert_eq!(Json::Int(i64::MIN).to_text(), "-9223372036854775808".to_string());
    assert_eq!(Json::Int(i64::MAX).to_text(), "9223372036854775807".to_string());
    assert_eq!(Json::Str(String::new()).to_text(), "\"\"".to_string());
    assert_eq!(Json::Arr(vec![]).to_text(), "[]".to_string());
}

#[test]
fn parse_inverts_to_text() {
    let v = sample();
    let text = v.to_text();
    assert_eq!(parse(&text).unwrap(), v);
    let extremes = Json::Arr(vec![Json::Int(i64::MIN), Json::Int(i64::MAX)]);
    assert_eq!(parse(&extremes.to_text()).unwrap(), extremes);
}

#[test]
fn parse_accepts_whitespace_and_escapes() {
    let v = parse(" [ 1 ,\t{ \"k\" : \"a\\n\\t\\/\\r\" } ,\r\n null ] ").unwrap();
    assert_eq!(
        v,
        Json::Arr(vec![
            Json::Int(1),
            Json::Obj(vec![("k".to_string(), Json::Str("a\n\t/\r".to_string()))]),
            Json::Null,
        ])
    );
}

#[test]
fn parse_rejects_malformed_text() {
    for bad in [
        "",
        "   ",
        "{",
        "[1,]",
        "[,1]",
        "{\"a\":}",
        "{\"a\" 1}",
        "tru",
        "nulll",
        "\"unterminated",
        "\"\\u12\"",
        "\"\\uZZZZ\"",
        "\"\\uD800\"",
        "\"\\uDC00\"",
        "\"\\uD800\\u0041\"",
        "1.5",
        "1e3",
        "-",
        "9223372036854775808",
        "-9223372036854775809",
        "[1] trailing",
        "{\"a\":1,}",
    ] {
        assert!(parse(bad).is_err(), "{bad:?} should be rejected");
    }
}

#[test]
fn parse_decodes_unicode_escapes() {
    assert_eq!(
        parse("\"caf\\u00e9 \\u0041\"").unwrap(),
        Json::Str("caf\u{e9} A".to_string())
    );
    assert_eq!(
        parse("\"\\uD834\\uDD1E\"").unwrap(),
        Json::Str("\u{1D11E}".to_string())
    );
}

#[test]
fn parse_accepts_extreme_integers() {
    assert_eq!(parse("9223372036854775807").unwrap(), Json::Int(i64::MAX));
    assert_eq!(parse("-9223372036854775808").unwrap(), Json::Int(i64::MIN));
}

#[test]
fn pretty_text_is_exact() {
    let v = Json::Obj(vec![
        ("a".to_string(), Json::Arr(vec![Json::Int(1), Json::Int(2)])),
        ("b".to_string(), Json::Obj(vec![])),
    ]);
    assert_eq!(
        v.to_text_pretty(),
        "{\n  \"a\": [\n    1,\n    2\n  ],\n  \"b\": {}\n}".to_string()
    );
}
