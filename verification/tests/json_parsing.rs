use gdax_client::json::{parse_json, JsonValue};
use gdax_client::num::Decimal;

fn parse(body: &[u8]) -> Option<JsonValue> {
    parse_json(&body.to_vec())
}

#[test]
fn literals_and_whitespace() {
    assert_eq!(parse(b" null "), Some(JsonValue::Null));
    assert_eq!(parse(b"true"), Some(JsonValue::Bool(true)));
    assert_eq!(parse(b"\tfalse\n"), Some(JsonValue::Bool(false)));
    assert_eq!(parse(b"nul"), None);
    assert_eq!(parse(b""), None);
}

#[test]
fn numbers_parse_exactly() {
    assert_eq!(parse(b"0"), Some(JsonValue::Num(Decimal { neg: false, mant: 0, exp: 0 })));
    assert_eq!(parse(b"-12"), Some(JsonValue::Num(Decimal { neg: true, mant: 12, exp: 0 })));
    assert_eq!(parse(b"100.5"), Some(JsonValue::Num(Decimal { neg: false, mant: 1005, exp: -1 })));
    assert_eq!(parse(b"1e3"), Some(JsonValue::Num(Decimal { neg: false, mant: 1, exp: 3 })));
    assert_eq!(
        parse(b"2.5E-2"),
        Some(JsonValue::Num(Decimal { neg: false, mant: 25, exp: -3 }))
    );
    // strict JSON grammar: no leading zeros, plus signs or bare dots
    assert_eq!(parse(b"01"), None);
    assert_eq!(parse(b"+1"), None);
    assert_eq!(parse(b".5"), None);
    assert_eq!(parse(b"1."), None);
    assert_eq!(parse(b"1e"), None);
    // out-of-range tokens are rejected rather than rounded
    assert_eq!(parse(b"1e999999999999"), None);
}

#[test]
fn strings_unescape() {
    assert_eq!(parse(br#""hello""#), Some(JsonValue::Str(b"hello".to_vec())));
    assert_eq!(parse(br#""a\n\t\"\\\/b""#), Some(JsonValue::Str(b"a\n\t\"\\/b".to_vec())));
    assert_eq!(parse(br#""A""#), Some(JsonValue::Str(b"A".to_vec())));
    assert_eq!(parse(br#""\u00e9""#), Some(JsonValue::Str("\u{e9}".as_bytes().to_vec())));
    assert_eq!(parse(br#""\u20ac""#), Some(JsonValue::Str("\u{20ac}".as_bytes().to_vec())));
    // raw multi-byte UTF-8 passes through untouched
    assert_eq!(
        parse("\"\u{e9}\"".as_bytes()),
        Some(JsonValue::Str("\u{e9}".as_bytes().to_vec()))
    );
    // a surrogate pair encodes one astral code point
    assert_eq!(
        parse(br#""\ud83d\ude00""#),
        Some(JsonValue::Str("\u{1f600}".as_bytes().to_vec()))
    );
    // a lone surrogate, a bad escape and an unterminated string all fail
    assert_eq!(parse(br#""\ud83d""#), None);
    assert_eq!(parse(br#""\q""#), None);
    assert_eq!(parse(b"\"abc"), None);
    // raw control characters are rejected
    assert_eq!(parse(b"\"a\x01b\""), None);
}

#[test]
fn arrays_and_objects_nest() {
    let v = parse(b" [1, [true, null], {\"k\": \"v\"}] ").unwrap();
    match v {
        JsonValue::Arr(es) => {
            assert_eq!(es.len(), 3);
            assert_eq!(es[0], JsonValue::Num(Decimal { neg: false, mant: 1, exp: 0 }));
            match &es[1] {
                JsonValue::Arr(inner) => {
                    assert_eq!(inner[0], JsonValue::Bool(true));
                    assert_eq!(inner[1], JsonValue::Null);
                },
                other => panic!("expected an array, got {:?}", other),
            }
            match &es[2] {
                JsonValue::Obj(m) => {
                    assert_eq!(m.len(), 1);
                    assert_eq!(m[0].0, b"k".to_vec());
                    assert_eq!(m[0].1, JsonValue::Str(b"v".to_vec()));
                },
                other => panic!("expected an object, got {:?}", other),
            }
        },
        other => panic!("expected an array, got {:?}", other),
    }
    assert_eq!(parse(b"[]"), Some(JsonValue::Arr(vec![])));
    assert_eq!(parse(b"{ }"), Some(JsonValue::Obj(vec![])));
}

#[test]
fn malformed_documents_fail() {
    for bad in [
        &b"[1,"[..],
        b"[1 2]",
        b"{\"a\":}",
        b"{\"a\" 1}",
        b"{a:1}",
        b"[1] extra",
        b"[1]]",
        b"{",
        b"]",
    ] {
        assert_eq!(parse(bad), None, "input {:?}", bad);
    }
}
