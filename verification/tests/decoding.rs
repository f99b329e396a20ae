use gdax_client::num::{parse_decimal, Decimal};
use gdax_client::json::{parse_json, JsonValue};
use gdax_client::decode::{decode_book_entry, decode_candle, decode_full_book, decode_order_book,
    decode_products, decode_tick, decode_trade};
use gdax_client::side::Side;
use gdax_client::ids::parse_uuid;
use gdax_client::num::dec_le_exec;
use gdax_client::client::products_from_response;
use gdax_client::model::Error;

fn dec_to_f64(d: &Decimal) -> f64 {
    let v = (d.mant as f64) * 10f64.powi(d.exp as i32);
    if d.neg { -v } else { v }
}

fn parse(body: &[u8]) -> JsonValue {
    parse_json(&body.to_vec()).expect("body should parse")
}

#[test]
fn decimal_strings_match_float_parse() {
    for s in [
        "0", "1.5", "-2.75", "1e3", "0.001", "+4.25", ".5", "6.", "100.5", "2.0", "-0.25e2",
        "31.4E-1", "0000.5",
    ] {
        let d = parse_decimal(&s.as_bytes().to_vec()).expect(s);
        let f: f64 = s.parse().unwrap();
        assert_eq!(dec_to_f64(&d), f, "input {}", s);
    }
}

#[test]
fn decimal_rejects_non_numeric_strings() {
    for s in ["", "abc", "1.2.3", "--1", "+", ".", "1e", "4x", " 1", "1 "] {
        assert!(parse_decimal(&s.as_bytes().to_vec()).is_none(), "input {}", s);
    }
}

#[test]
fn price_field_decodes_as_float_parse_of_string() {
    for s in ["100.5", "0.003", "42", "-1.25"] {
        let body = format!("{{\"price\":\"{}\",\"size\":\"1\",\"num_orders\":1}}", s);
        let e = decode_book_entry(&parse(body.as_bytes())).expect(s);
        assert_eq!(dec_to_f64(&e.price), s.parse::<f64>().unwrap());
    }
    // a non-numeric string in the same shape is a decode error
    let bad = parse(b"{\"price\":\"soon\",\"size\":\"1\",\"num_orders\":1}");
    assert!(decode_book_entry(&bad).is_err());
    // a native number where a string-coerced field is expected is an error
    let native = parse(b"{\"price\":100.5,\"size\":\"1\",\"num_orders\":1}");
    assert!(decode_book_entry(&native).is_err());
}

#[test]
fn side_round_trips_and_folds_case() {
    for side in [Side::Buy, Side::Sell] {
        let wire = side.to_bytes();
        assert_eq!(Side::from_bytes(&wire).unwrap(), side);
    }
    assert_eq!(Side::Buy.to_bytes(), b"buy".to_vec());
    assert_eq!(Side::Sell.to_bytes(), b"sell".to_vec());
    for s in ["BUY", "Buy", "bUy", "buy"] {
        assert_eq!(Side::from_bytes(&s.as_bytes().to_vec()).unwrap(), Side::Buy, "input {}", s);
    }
    for s in ["SELL", "Sell", "sElL", "sell"] {
        assert_eq!(Side::from_bytes(&s.as_bytes().to_vec()).unwrap(), Side::Sell, "input {}", s);
    }
}

#[test]
fn side_rejects_other_strings_and_names_them() {
    for s in ["long", "", "buys", "sel", "buy "] {
        let err = Side::from_bytes(&s.as_bytes().to_vec()).unwrap_err();
        let msg = err.msg;
        assert!(
            msg.windows(s.len().max(1)).any(|w| w == s.as_bytes()) || s.is_empty(),
            "message should contain the offending input {:?}",
            s
        );
        assert_eq!(msg, [b"side must be either `buy` or `sell`: ".to_vec(), s.as_bytes().to_vec()].concat());
    }
}

#[test]
fn candle_decodes_native_numbers() {
    let v = parse(b"{\"time\":123,\"low\":1.5,\"high\":2.5,\"open\":1.6,\"close\":2.0,\"volume\":100}");
    let c = decode_candle(&v).unwrap();
    assert_eq!(c.time, 123);
    assert_eq!(dec_to_f64(&c.low), 1.5);
    assert_eq!(dec_to_f64(&c.high), 2.5);
    assert_eq!(dec_to_f64(&c.open), 1.6);
    assert_eq!(dec_to_f64(&c.close), 2.0);
    assert_eq!(dec_to_f64(&c.volume), 100.0);
}

#[test]
fn candle_decodes_array_form() {
    let v = parse(b"[123,1.5,2.5,1.6,2.0,100]");
    let c = decode_candle(&v).unwrap();
    assert_eq!(c.time, 123);
    assert_eq!(dec_to_f64(&c.volume), 100.0);
}

#[test]
fn candle_rejects_string_coerced_fields() {
    // the asymmetry with the other records is deliberate: candle fields
    // arrive as native numbers, never as strings
    let v = parse(b"{\"time\":123,\"low\":\"1.5\",\"high\":2.5,\"open\":1.6,\"close\":2.0,\"volume\":100}");
    assert!(decode_candle(&v).is_err());
    let t = parse(b"{\"time\":\"123\",\"low\":1.5,\"high\":2.5,\"open\":1.6,\"close\":2.0,\"volume\":100}");
    assert!(decode_candle(&t).is_err());
}

#[test]
fn order_book_decodes_sequence_bids_asks() {
    let v = parse(b"{\"sequence\":10,\"bids\":[[\"100.5\",\"2.0\",5]],\"asks\":[]}");
    let ob = decode_order_book(&v).unwrap();
    assert_eq!(ob.sequence, 10);
    assert_eq!(ob.bids.len(), 1);
    assert_eq!(dec_to_f64(&ob.bids[0].price), 100.5);
    assert_eq!(dec_to_f64(&ob.bids[0].size), 2.0);
    assert_eq!(ob.bids[0].num_orders, 5);
    assert!(ob.asks.is_empty());
}

#[test]
fn full_book_rejects_malformed_order_ids() {
    for bad in [
        "not-a-uuid",
        "0123456789abcdef0123456789abcdef",
        "01234567-89ab-cdef-0123-456789abcdeg",
        "01234567_89ab_cdef_0123_456789abcdef",
        "01234567-89ab-cdef-0123-456789abcde",
    ] {
        let body = format!(
            "{{\"sequence\":1,\"bids\":[[\"1\",\"1\",\"{}\"]],\"asks\":[]}}",
            bad
        );
        assert!(decode_full_book(&parse(body.as_bytes())).is_err(), "input {}", bad);
    }
}

#[test]
fn full_book_round_trips_valid_order_ids() {
    let v = parse(
        b"{\"sequence\":3,\"bids\":[[\"1.5\",\"2\",\"01234567-89ab-cdef-0123-456789abcdef\"]],\
           \"asks\":[[\"1.6\",\"1\",\"00000000-0000-0000-0000-000000000001\"]]}",
    );
    let ob = decode_full_book(&v).unwrap();
    assert_eq!(ob.sequence, 3);
    assert_eq!(ob.bids[0].order_id, 0x0123456789abcdef0123456789abcdefu128);
    assert_eq!(ob.asks[0].order_id, 1u128);
    // the same canonical value comes back from the id parser itself
    assert_eq!(
        parse_uuid(&b"01234567-89ab-cdef-0123-456789abcdef".to_vec()),
        Some(0x0123456789abcdef0123456789abcdefu128)
    );
    assert_eq!(
        parse_uuid(&b"01234567-89AB-CDEF-0123-456789ABCDEF".to_vec()),
        Some(0x0123456789abcdef0123456789abcdefu128)
    );
}

#[test]
fn products_decode() {
    let v = parse(
        b"[{\"id\":\"ETH-USD\",\"base_currency\":\"ETH\",\"quote_currency\":\"USD\",\
           \"base_min_size\":\"0.01\",\"base_max_size\":\"1000000\",\"quote_increment\":\"0.01\",\
           \"display_name\":\"ETH/USD\"}]",
    );
    let ps = decode_products(&v).unwrap();
    assert_eq!(ps.len(), 1);
    assert_eq!(ps[0].id, b"ETH-USD".to_vec());
    assert_eq!(ps[0].base_currency, b"ETH".to_vec());
    assert_eq!(ps[0].quote_currency, b"USD".to_vec());
    assert_eq!(dec_to_f64(&ps[0].base_min_size), 0.01);
    assert_eq!(dec_to_f64(&ps[0].base_max_size), 1000000.0);
    assert_eq!(dec_to_f64(&ps[0].quote_increment), 0.01);
    assert_eq!(ps[0].display_name, b"ETH/USD".to_vec());
}

#[test]
fn tick_decodes_with_rfc3339_time() {
    let v = parse(
        b"{\"trade_id\":1,\"price\":\"1.1\",\"size\":\"2.2\",\"bid\":\"3.3\",\"ask\":\"4.4\",\
           \"volume\":\"5.5\",\"time\":\"2017-06-01T12:00:00Z\"}",
    );
    let t = decode_tick(&v).unwrap();
    assert_eq!(t.trade_id, 1);
    assert_eq!(dec_to_f64(&t.price), 1.1);
    assert_eq!(dec_to_f64(&t.ask), 4.4);
    assert_eq!(t.time.secs, 1496318400);
    assert_eq!(t.time.nanos, 0);
    // an offset is reduced to the same UTC instant
    let w = parse(
        b"{\"trade_id\":1,\"price\":\"1.1\",\"size\":\"2.2\",\"bid\":\"3.3\",\"ask\":\"4.4\",\
           \"volume\":\"5.5\",\"time\":\"2017-06-01T14:00:00+02:00\"}",
    );
    assert_eq!(decode_tick(&w).unwrap().time.secs, 1496318400);
    // a malformed time is a decode error
    let bad = parse(
        b"{\"trade_id\":1,\"price\":\"1.1\",\"size\":\"2.2\",\"bid\":\"3.3\",\"ask\":\"4.4\",\
           \"volume\":\"5.5\",\"time\":\"yesterday\"}",
    );
    assert!(decode_tick(&bad).is_err());
}

#[test]
fn trade_decodes_with_side() {
    let v = parse(
        b"{\"time\":\"2017-01-01T00:00:00Z\",\"trade_id\":7,\"price\":\"10\",\"size\":\"0.5\",\
           \"side\":\"SELL\"}",
    );
    let t = decode_trade(&v).unwrap();
    assert_eq!(t.trade_id, 7);
    assert_eq!(t.side, Side::Sell);
    assert_eq!(t.time.secs, 1483228800);
    let bad = parse(
        b"{\"time\":\"2017-01-01T00:00:00Z\",\"trade_id\":7,\"price\":\"10\",\"size\":\"0.5\",\
           \"side\":\"short\"}",
    );
    // the side codec's error comes through intact, offending value included
    let err = decode_trade(&bad).unwrap_err();
    assert_eq!(err.msg, b"side must be either `buy` or `sell`: short".to_vec());
}

#[test]
fn missing_fields_are_decode_errors() {
    let v = parse(b"{\"price\":\"1\",\"size\":\"1\"}");
    assert!(decode_book_entry(&v).is_err());
    let w = parse(b"{\"sequence\":1,\"bids\":[]}");
    assert!(decode_order_book(&w).is_err());
}

#[test]
fn integer_fields_reject_fractions_and_signs() {
    assert!(decode_book_entry(&parse(b"[\"1\",\"1\",5.5]")).is_err());
    assert!(decode_book_entry(&parse(b"[\"1\",\"1\",-5]")).is_err());
    assert!(decode_book_entry(&parse(b"[\"1\",\"1\",5]")).is_ok());
}
#[test]
fn side_label() {
    assert_eq!(gdax_client::side::Side::Buy.label(), "Buy");
    assert_eq!(gdax_client::side::Side::Sell.label(), "Sell");
}

#[test]
fn product_with_min_above_max_is_rejected() {
    // the entity invariant: base_min_size <= base_max_size
    let template = |mn: &str, mx: &str| {
        format!(
            "{{\"id\":\"ETH-USD\",\"base_currency\":\"ETH\",\"quote_currency\":\"USD\",\
              \"base_min_size\":\"{}\",\"base_max_size\":\"{}\",\"quote_increment\":\"0.01\",\
              \"display_name\":\"ETH/USD\"}}",
            mn, mx
        )
    };
    assert!(decode_products(&parse(format!("[{}]", template("2", "1")).as_bytes())).is_err());
    assert!(decode_products(&parse(format!("[{}]", template("1", "1")).as_bytes())).is_ok());
    // the comparison is numeric, not textual: 0.5 > 1e-1
    assert!(decode_products(&parse(format!("[{}]", template("0.5", "1e-1")).as_bytes())).is_err());
    assert!(decode_products(&parse(format!("[{}]", template("1e-1", "0.5")).as_bytes())).is_ok());
}

#[test]
fn decimal_order_is_numeric() {
    let d = |s: &str| parse_decimal(&s.as_bytes().to_vec()).unwrap();
    let cases = [
        ("1", "2", true),
        ("2", "1", false),
        ("-1", "1", true),
        ("1", "-1", false),
        ("-2", "-3", false),
        ("-3", "-2", true),
        ("1.5", "15e-1", true),
        ("15e-1", "1.5", true),
        ("-0", "0", true),
        ("0", "-0", true),
        ("1e30", "5", false),
        ("5", "1e30", true),
        ("1e10", "2", false),
        ("0.009999", "0.01", true),
    ];
    for (a, b, want) in cases {
        assert_eq!(dec_le_exec(&d(a), &d(b)), want, "{} <= {}", a, b);
    }
}

#[test]
fn json_error_for_unparseable_body_names_the_body() {
    match products_from_response(200, &b"not json".to_vec()) {
        Err(Error::Json(d)) => assert_eq!(d.msg, b"body is not a JSON document".to_vec()),
        other => panic!("expected a decode error, got {:?}", other),
    }
}
