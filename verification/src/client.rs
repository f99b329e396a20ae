//! Deciding an operation's outcome from its HTTP response.
//!
//! Each operation hands the status and body here once the transport has
//! done its round trip. A non-success status is an API error and the body
//! is never read; a success status has its body parsed as JSON and decoded
//! into the operation's record, with any failure reported as a decode
//! error.

use vstd::prelude::*;

use crate::json::{parse_json, spec_json_doc, JsonSpec};
use crate::decode::{spec_products, spec_order_book, spec_full_book, spec_candles, spec_tick,
    spec_trades, decode_products, decode_order_book, decode_full_book, decode_candles, decode_tick,
    decode_trades, candle_has_string_field, lemma_candles_reject_string_fields};
use crate::model::{Product, ProductV, products_v, BookEntry, FullBookEntry, OrderBook, OrderBookV,
    Candle, Tick, Trade, Error};
use crate::num::dec_le;
use crate::side::DecodeError;
use crate::text::{ab, lit_bytes};

verus! {

/// The transport-level success statuses.
pub open spec fn status_ok(status: u16) -> bool {
    200 <= status && status < 300
}

/// The message carried when the body is not a JSON document at all.
pub open spec fn body_err_msg() -> Seq<u8> {
    ab("body is not a JSON document"@)
}

fn body_err() -> (r: DecodeError)
    ensures
        r.msg@ == body_err_msg(),
{
    proof {
        reveal_strlit("body is not a JSON document");
    }
    DecodeError { msg: lit_bytes("body is not a JSON document") }
}

/// What a products body decodes to.
pub open spec fn spec_body_products(s: Seq<u8>) -> Option<Seq<ProductV>> {
    match spec_json_doc(s) {
        Some(j) => spec_products(j),
        None => None,
    }
}

/// Decides the products operation: a non-success status is an API error
/// and the body is not read; otherwise the body must decode as a product
/// list.
pub fn products_from_response(status: u16, body: &Vec<u8>) -> (r: Result<Vec<Product>, Error>)
    ensures
        !status_ok(status) ==> r matches Err(Error::Api),
        status_ok(status) ==> match r {
            Ok(ps) => spec_body_products(body@) == Some(products_v(ps@)) && forall|i: int|
                0 <= i < ps@.len() ==> dec_le(
                    (#[trigger] ps@[i]).base_min_size,
                    ps@[i].base_max_size,
                ),
            Err(e) => e is Json && spec_body_products(body@) is None && (spec_json_doc(body@) is None
                ==> (e matches Error::Json(d) && d.msg@ == body_err_msg())),
        },
{
    if !(200 <= status && status < 300) {
        return Err(Error::Api);
    }
    let doc = match parse_json(body) {
        Some(v) => v,
        None => {
            return Err(Error::Json(body_err()));
        },
    };
    match decode_products(&doc) {
        Ok(ps) => Ok(ps),
        Err(e) => Err(Error::Json(e)),
    }
}

/// What a depth-limited book body decodes to.
pub open spec fn spec_body_order_book(s: Seq<u8>) -> Option<OrderBookV<BookEntry>> {
    match spec_json_doc(s) {
        Some(j) => spec_order_book(j),
        None => None,
    }
}

/// Decides the best-price and top-fifty book operations.
pub fn order_book_from_response(status: u16, body: &Vec<u8>) -> (r: Result<
    OrderBook<BookEntry>,
    Error,
>)
    ensures
        !status_ok(status) ==> r matches Err(Error::Api),
        status_ok(status) ==> match r {
            Ok(ob) => spec_body_order_book(body@) == Some(ob.v()),
            Err(e) => e is Json && spec_body_order_book(body@) is None && (spec_json_doc(body@) is None
                ==> (e matches Error::Json(d) && d.msg@ == body_err_msg())),
        },
{
    if !(200 <= status && status < 300) {
        return Err(Error::Api);
    }
    let doc = match parse_json(body) {
        Some(v) => v,
        None => {
            return Err(Error::Json(body_err()));
        },
    };
    match decode_order_book(&doc) {
        Ok(ob) => Ok(ob),
        Err(e) => Err(Error::Json(e)),
    }
}

/// What a full book body decodes to.
pub open spec fn spec_body_full_book(s: Seq<u8>) -> Option<OrderBookV<FullBookEntry>> {
    match spec_json_doc(s) {
        Some(j) => spec_full_book(j),
        None => None,
    }
}

/// Decides the full-book operation.
pub fn full_book_from_response(status: u16, body: &Vec<u8>) -> (r: Result<
    OrderBook<FullBookEntry>,
    Error,
>)
    ensures
        !status_ok(status) ==> r matches Err(Error::Api),
        status_ok(status) ==> match r {
            Ok(ob) => spec_body_full_book(body@) == Some(ob.v()),
            Err(e) => e is Json && spec_body_full_book(body@) is None && (spec_json_doc(body@) is None
                ==> (e matches Error::Json(d) && d.msg@ == body_err_msg())),
        },
{
    if !(200 <= status && status < 300) {
        return Err(Error::Api);
    }
    let doc = match parse_json(body) {
        Some(v) => v,
        None => {
            return Err(Error::Json(body_err()));
        },
    };
    match decode_full_book(&doc) {
        Ok(ob) => Ok(ob),
        Err(e) => Err(Error::Json(e)),
    }
}

/// What a candles body decodes to.
pub open spec fn spec_body_candles(s: Seq<u8>) -> Option<Seq<Candle>> {
    match spec_json_doc(s) {
        Some(j) => spec_candles(j),
        None => None,
    }
}

/// Law: a body whose candle list holds a JSON string in any field of any
/// candle decodes to nothing, so a success response carrying such a body
/// is a decode error, never a candle list. String coercion never applies
/// to candle fields.
pub proof fn lemma_candles_body_rejects_string_fields(s: Seq<u8>, j: int)
    requires
        spec_json_doc(s) matches Some(v) && (v matches JsonSpec::Arr(es) && (0 <= j < es.len()
            && candle_has_string_field(es[j]))),
    ensures
        spec_body_candles(s) is None,
{
    if let Some(v) = spec_json_doc(s) {
        lemma_candles_reject_string_fields(v, j);
    }
}

/// Decides the historic-rates operation.
pub fn candles_from_response(status: u16, body: &Vec<u8>) -> (r: Result<Vec<Candle>, Error>)
    ensures
        !status_ok(status) ==> r matches Err(Error::Api),
        status_ok(status) ==> match r {
            Ok(cs) => spec_body_candles(body@) == Some(cs@),
            Err(e) => e is Json && spec_body_candles(body@) is None && (spec_json_doc(body@) is None
                ==> (e matches Error::Json(d) && d.msg@ == body_err_msg())),
        },
{
    if !(200 <= status && status < 300) {
        return Err(Error::Api);
    }
    let doc = match parse_json(body) {
        Some(v) => v,
        None => {
            return Err(Error::Json(body_err()));
        },
    };
    match decode_candles(&doc) {
        Ok(cs) => Ok(cs),
        Err(e) => Err(Error::Json(e)),
    }
}

/// What a ticker body decodes to.
pub open spec fn spec_body_tick(s: Seq<u8>) -> Option<Tick> {
    match spec_json_doc(s) {
        Some(j) => spec_tick(j),
        None => None,
    }
}

/// Decides the ticker operation.
pub fn tick_from_response(status: u16, body: &Vec<u8>) -> (r: Result<Tick, Error>)
    ensures
        !status_ok(status) ==> r matches Err(Error::Api),
        status_ok(status) ==> match r {
            Ok(t) => spec_body_tick(body@) == Some(t),
            Err(e) => e is Json && spec_body_tick(body@) is None && (spec_json_doc(body@) is None
                ==> (e matches Error::Json(d) && d.msg@ == body_err_msg())),
        },
{
    if !(200 <= status && status < 300) {
        return Err(Error::Api);
    }
    let doc = match parse_json(body) {
        Some(v) => v,
        None => {
            return Err(Error::Json(body_err()));
        },
    };
    match decode_tick(&doc) {
        Ok(t) => Ok(t),
        Err(e) => Err(Error::Json(e)),
    }
}

/// What a trades body decodes to.
pub open spec fn spec_body_trades(s: Seq<u8>) -> Option<Seq<Trade>> {
    match spec_json_doc(s) {
        Some(j) => spec_trades(j),
        None => None,
    }
}

/// Decides the trades operation.
pub fn trades_from_response(status: u16, body: &Vec<u8>) -> (r: Result<Vec<Trade>, Error>)
    ensures
        !status_ok(status) ==> r matches Err(Error::Api),
        status_ok(status) ==> match r {
            Ok(ts) => spec_body_trades(body@) == Some(ts@),
            Err(e) => e is Json && spec_body_trades(body@) is None && (spec_json_doc(body@) is None
                ==> (e matches Error::Json(d) && d.msg@ == body_err_msg())),
        },
{
    if !(200 <= status && status < 300) {
        return Err(Error::Api);
    }
    let doc = match parse_json(body) {
        Some(v) => v,
        None => {
            return Err(Error::Json(body_err()));
        },
    };
    match decode_trades(&doc) {
        Ok(ts) => Ok(ts),
        Err(e) => Err(Error::Json(e)),
    }
}

} // verus!
