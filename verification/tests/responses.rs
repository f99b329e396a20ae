use gdax_client::client::{candles_from_response, full_book_from_response,
    order_book_from_response, products_from_response, tick_from_response, trades_from_response};
use gdax_client::model::{Error, Level};
use gdax_client::times::Timestamp;
use gdax_client::urls::{book_url, candles_url, default_base, products_url, ticker_url, trades_url};

#[test]
fn non_success_status_is_api_error_and_body_is_not_decoded() {
    // an empty body would never decode, yet the error is Api, not Json
    assert_eq!(products_from_response(500, &vec![]).unwrap_err(), Error::Api);
    assert_eq!(order_book_from_response(500, &vec![]).unwrap_err(), Error::Api);
    assert_eq!(full_book_from_response(404, &vec![]).unwrap_err(), Error::Api);
    assert_eq!(candles_from_response(503, &vec![]).unwrap_err(), Error::Api);
    assert_eq!(tick_from_response(199, &vec![]).unwrap_err(), Error::Api);
    assert_eq!(trades_from_response(300, &vec![]).unwrap_err(), Error::Api);
}

#[test]
fn success_status_with_bad_body_is_json_error() {
    match products_from_response(200, &b"not json".to_vec()) {
        Err(Error::Json(_)) => {},
        other => panic!("expected a decode error, got {:?}", other),
    }
    match tick_from_response(299, &b"[]".to_vec()) {
        Err(Error::Json(_)) => {},
        other => panic!("expected a decode error, got {:?}", other),
    }
}

#[test]
fn success_status_decodes_body() {
    let body = b"{\"sequence\":10,\"bids\":[[\"100.5\",\"2.0\",5]],\"asks\":[]}".to_vec();
    let ob = order_book_from_response(200, &body).unwrap();
    assert_eq!(ob.sequence, 10);
    assert_eq!(ob.bids.len(), 1);
    let ts = trades_from_response(200, &b"[]".to_vec()).unwrap();
    assert!(ts.is_empty());
}

#[test]
fn best_price_book_url_uses_level_one() {
    let base = default_base();
    let u = book_url(&base, &b"ETH-USD".to_vec(), Level::Best);
    assert_eq!(u, b"https://api.gdax.com/products/ETH-USD/book?level=1".to_vec());
}

#[test]
fn full_book_url_uses_level_three() {
    let base = default_base();
    let u = book_url(&base, &b"ETH-USD".to_vec(), Level::Full);
    assert_eq!(u, b"https://api.gdax.com/products/ETH-USD/book?level=3".to_vec());
    let t = book_url(&base, &b"ETH-USD".to_vec(), Level::Top50);
    assert_eq!(t, b"https://api.gdax.com/products/ETH-USD/book?level=2".to_vec());
}

#[test]
fn plain_urls() {
    let base = default_base();
    assert_eq!(products_url(&base), b"https://api.gdax.com/products".to_vec());
    assert_eq!(
        ticker_url(&base, &b"ETH-USD".to_vec()),
        b"https://api.gdax.com/products/ETH-USD/ticker".to_vec()
    );
    assert_eq!(
        trades_url(&base, &b"BTC-USD".to_vec()),
        b"https://api.gdax.com/products/BTC-USD/trades".to_vec()
    );
}

#[test]
fn candles_url_serializes_times_and_granularity() {
    let base = default_base();
    let start = Timestamp { secs: 0, nanos: 0 };
    let end = Timestamp { secs: 1483228800, nanos: 0 };
    let u = candles_url(&base, &b"ETH-USD".to_vec(), start, end, 200).unwrap();
    assert_eq!(
        u,
        b"https://api.gdax.com/products/ETH-USD/candles?start=1970-01-01T00:00:00+00:00\
          &end=2017-01-01T00:00:00+00:00&granularity=200"
            .to_vec()
    );
    let n = candles_url(&base, &b"ETH-USD".to_vec(), start, end, -5).unwrap();
    assert!(n.ends_with(b"&granularity=-5"));
}
