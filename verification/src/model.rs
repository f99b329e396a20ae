//! The domain records an API response decodes into.
//!
//! Prices, sizes and other decimal-as-string fields are held as exact
//! `Decimal` values; text fields as bytes; order identifiers as 128-bit
//! numbers; instants as epoch seconds and nanoseconds.

use vstd::prelude::*;

use crate::num::Decimal;
use crate::side::{Side, DecodeError};
use crate::times::Timestamp;

verus! {

/// A tradable currency pair and its limits.
#[derive(Debug, PartialEq)]
pub struct Product {
    pub id: Vec<u8>,
    pub base_currency: Vec<u8>,
    pub quote_currency: Vec<u8>,
    pub base_min_size: Decimal,
    pub base_max_size: Decimal,
    pub quote_increment: Decimal,
    pub display_name: Vec<u8>,
}

/// The mathematical shape of a `Product`.
pub struct ProductV {
    pub id: Seq<u8>,
    pub base_currency: Seq<u8>,
    pub quote_currency: Seq<u8>,
    pub base_min_size: Decimal,
    pub base_max_size: Decimal,
    pub quote_increment: Decimal,
    pub display_name: Seq<u8>,
}

impl Product {
    pub open spec fn v(self) -> ProductV {
        ProductV {
            id: self.id@,
            base_currency: self.base_currency@,
            quote_currency: self.quote_currency@,
            base_min_size: self.base_min_size,
            base_max_size: self.base_max_size,
            quote_increment: self.quote_increment,
            display_name: self.display_name@,
        }
    }
}

/// The views of a list of products.
pub open spec fn products_v(ps: Seq<Product>) -> Seq<ProductV> {
    Seq::new(ps.len(), |i: int| ps[i].v())
}

/// One aggregated price level of a depth-limited book.
#[derive(Clone, Copy, Debug, PartialEq, Eq, Structural)]
pub struct BookEntry {
    pub price: Decimal,
    pub size: Decimal,
    pub num_orders: u64,
}

/// One order of a full book.
#[derive(Clone, Copy, Debug, PartialEq, Eq, Structural)]
pub struct FullBookEntry {
    pub price: Decimal,
    pub size: Decimal,
    pub order_id: u128,
}

/// An order-book snapshot, generic over the entry shape.
#[derive(Debug, PartialEq)]
pub struct OrderBook<T> {
    pub sequence: usize,
    pub bids: Vec<T>,
    pub asks: Vec<T>,
}

/// The mathematical shape of an `OrderBook`.
pub struct OrderBookV<T> {
    pub sequence: usize,
    pub bids: Seq<T>,
    pub asks: Seq<T>,
}

impl<T> OrderBook<T> {
    pub open spec fn v(self) -> OrderBookV<T> {
        OrderBookV { sequence: self.sequence, bids: self.bids@, asks: self.asks@ }
    }
}

/// One open-high-low-close-volume bar.
#[derive(Clone, Copy, Debug, PartialEq, Eq, Structural)]
pub struct Candle {
    pub time: u64,
    pub low: Decimal,
    pub high: Decimal,
    pub open: Decimal,
    pub close: Decimal,
    pub volume: Decimal,
}

/// The latest trade snapshot for a product.
#[derive(Clone, Copy, Debug, PartialEq, Eq, Structural)]
pub struct Tick {
    pub trade_id: u64,
    pub price: Decimal,
    pub size: Decimal,
    pub bid: Decimal,
    pub ask: Decimal,
    pub volume: Decimal,
    pub time: Timestamp,
}

/// One historical trade.
#[derive(Clone, Copy, Debug, PartialEq, Eq, Structural)]
pub struct Trade {
    pub time: Timestamp,
    pub trade_id: u64,
    pub price: Decimal,
    pub size: Decimal,
    pub side: Side,
}

/// Requested granularity of an order-book snapshot.
#[derive(Clone, Copy, Debug, PartialEq, Eq, Structural)]
pub enum Level {
    Best,
    Top50,
    Full,
}

impl Level {
    /// The numeric form the query string carries.
    pub open spec fn spec_number(self) -> u8 {
        match self {
            Level::Best => 1,
            Level::Top50 => 2,
            Level::Full => 3,
        }
    }

    /// The numeric form the query string carries.
    pub fn number(&self) -> (r: u8)
        ensures
            r == self.spec_number(),
    {
        match self {
            Level::Best => 1,
            Level::Top50 => 2,
            Level::Full => 3,
        }
    }
}

/// What a client operation can fail with: a non-success HTTP status, a
/// transport failure (its message wrapped opaquely), or a body that does
/// not decode.
#[derive(Debug, PartialEq)]
pub enum Error {
    Api,
    Http(Vec<u8>),
    Json(DecodeError),
}

} // verus!
