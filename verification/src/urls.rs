//! Endpoint URLs for the seven read operations.
//!
//! Every operation's URL is the API base followed by a fixed path, with the
//! product symbol substituted verbatim; the book takes a `level` query, and
//! candles take `start`, `end` (RFC 3339) and `granularity` (whole seconds).

use vstd::prelude::*;

use crate::text::{ab, lit_bytes};
use crate::model::Level;
use crate::times::{Timestamp, rfc3339_bytes, format_rfc3339};

verus! {

broadcast use vstd::std_specs::vec::group_vec_axioms, vstd::seq::group_seq_axioms;

/// Decimal digits of a non-negative integer.
pub open spec fn dec_str(n: int) -> Seq<u8>
    decreases n when n >= 0
{
    if n < 10 {
        seq![(48 + n) as u8]
    } else {
        dec_str(n / 10).push((48 + n % 10) as u8)
    }
}

/// Decimal form of an integer, with a leading minus when negative.
pub open spec fn int_str(n: int) -> Seq<u8> {
    if n < 0 {
        seq![45u8] + dec_str(-n)
    } else {
        dec_str(n)
    }
}

fn push_u64_dec(out: &mut Vec<u8>, n: u64)
    ensures
        final(out)@ == old(out)@ + dec_str(n as int),
    decreases n,
{
    if n < 10 {
        out.push(48 + n as u8);
        proof {
            assert(out@ =~= old(out)@ + dec_str(n as int));
        }
    } else {
        push_u64_dec(out, n / 10);
        out.push(48 + (n % 10) as u8);
        proof {
            assert(out@ =~= old(out)@ + dec_str(n as int));
        }
    }
}

fn push_i64_dec(out: &mut Vec<u8>, n: i64)
    ensures
        final(out)@ == old(out)@ + int_str(n as int),
{
    if n < 0 {
        out.push(45);
        let m: u64 = (-(n as i128)) as u64;
        proof {
            assert(m as int == -(n as int));
        }
        push_u64_dec(out, m);
        proof {
            assert(out@ =~= old(out)@ + int_str(n as int));
        }
    } else {
        push_u64_dec(out, n as u64);
    }
}

/// The known public API base.
pub fn default_base() -> (r: Vec<u8>)
    ensures
        r@ == ab("https://api.gdax.com"@),
{
    proof {
        reveal_strlit("https://api.gdax.com");
    }
    lit_bytes("https://api.gdax.com")
}

pub open spec fn url_products(base: Seq<u8>) -> Seq<u8> {
    base + ab("/products"@)
}

pub fn products_url(base: &Vec<u8>) -> (r: Vec<u8>)
    ensures
        r@ == url_products(base@),
{
    proof {
        reveal_strlit("/products");
    }
    let mut u: Vec<u8> = Vec::new();
    u.extend_from_slice(base.as_slice());
    let seg = lit_bytes("/products");
    u.extend_from_slice(seg.as_slice());
    u
}

/// The book URL: `/products/{product}/book?level={level}`.
pub open spec fn url_book(base: Seq<u8>, product: Seq<u8>, level: Level) -> Seq<u8> {
    base + ab("/products/"@) + product + ab("/book?level="@) + seq![
        (48 + level.spec_number()) as u8,
    ]
}

pub fn book_url(base: &Vec<u8>, product: &Vec<u8>, level: Level) -> (r: Vec<u8>)
    ensures
        r@ == url_book(base@, product@, level),
{
    proof {
        reveal_strlit("/products/");
        reveal_strlit("/book?level=");
    }
    let mut u: Vec<u8> = Vec::new();
    u.extend_from_slice(base.as_slice());
    let seg = lit_bytes("/products/");
    u.extend_from_slice(seg.as_slice());
    u.extend_from_slice(product.as_slice());
    let seg2 = lit_bytes("/book?level=");
    u.extend_from_slice(seg2.as_slice());
    u.push(48 + level.number());
    proof {
        assert(u@ =~= url_book(base@, product@, level));
    }
    u
}

pub open spec fn url_ticker(base: Seq<u8>, product: Seq<u8>) -> Seq<u8> {
    base + ab("/products/"@) + product + ab("/ticker"@)
}

pub fn ticker_url(base: &Vec<u8>, product: &Vec<u8>) -> (r: Vec<u8>)
    ensures
        r@ == url_ticker(base@, product@),
{
    proof {
        reveal_strlit("/products/");
        reveal_strlit("/ticker");
    }
    let mut u: Vec<u8> = Vec::new();
    u.extend_from_slice(base.as_slice());
    let seg = lit_bytes("/products/");
    u.extend_from_slice(seg.as_slice());
    u.extend_from_slice(product.as_slice());
    let seg2 = lit_bytes("/ticker");
    u.extend_from_slice(seg2.as_slice());
    u
}

pub open spec fn url_trades(base: Seq<u8>, product: Seq<u8>) -> Seq<u8> {
    base + ab("/products/"@) + product + ab("/trades"@)
}

pub fn trades_url(base: &Vec<u8>, product: &Vec<u8>) -> (r: Vec<u8>)
    ensures
        r@ == url_trades(base@, product@),
{
    proof {
        reveal_strlit("/products/");
        reveal_strlit("/trades");
    }
    let mut u: Vec<u8> = Vec::new();
    u.extend_from_slice(base.as_slice());
    let seg = lit_bytes("/products/");
    u.extend_from_slice(seg.as_slice());
    u.extend_from_slice(product.as_slice());
    let seg2 = lit_bytes("/trades");
    u.extend_from_slice(seg2.as_slice());
    u
}

/// The candles URL: time range in RFC 3339 form, granularity in whole
/// seconds.
pub open spec fn url_candles(
    base: Seq<u8>,
    product: Seq<u8>,
    start: Seq<u8>,
    end: Seq<u8>,
    granularity: int,
) -> Seq<u8> {
    base + ab("/products/"@) + product + ab("/candles?start="@) + start + ab("&end="@) + end + ab(
        "&granularity="@,
    ) + int_str(granularity)
}

/// Builds the candles URL; fails only when an instant lies outside the
/// calendar's range, so no RFC 3339 text exists for it.
pub fn candles_url(
    base: &Vec<u8>,
    product: &Vec<u8>,
    start: Timestamp,
    end: Timestamp,
    granularity_secs: i64,
) -> (r: Option<Vec<u8>>)
    ensures
        match r {
            Some(u) => rfc3339_bytes(start.secs as int, start.nanos as int) matches Some(ss)
                && rfc3339_bytes(end.secs as int, end.nanos as int) matches Some(es) && u@
                == url_candles(base@, product@, ss, es, granularity_secs as int),
            None => rfc3339_bytes(start.secs as int, start.nanos as int) is None || rfc3339_bytes(
                end.secs as int,
                end.nanos as int,
            ) is None,
        },
{
    let ss = match format_rfc3339(start.secs, start.nanos) {
        Some(b) => b,
        None => {
            return None;
        },
    };
    let es = match format_rfc3339(end.secs, end.nanos) {
        Some(b) => b,
        None => {
            return None;
        },
    };
    proof {
        reveal_strlit("/products/");
        reveal_strlit("/candles?start=");
        reveal_strlit("&end=");
        reveal_strlit("&granularity=");
    }
    let mut u: Vec<u8> = Vec::new();
    u.extend_from_slice(base.as_slice());
    let seg = lit_bytes("/products/");
    u.extend_from_slice(seg.as_slice());
    u.extend_from_slice(product.as_slice());
    let seg2 = lit_bytes("/candles?start=");
    u.extend_from_slice(seg2.as_slice());
    u.extend_from_slice(ss.as_slice());
    let seg3 = lit_bytes("&end=");
    u.extend_from_slice(seg3.as_slice());
    u.extend_from_slice(es.as_slice());
    let seg4 = lit_bytes("&granularity=");
    u.extend_from_slice(seg4.as_slice());
    push_i64_dec(&mut u, granularity_secs);
    proof {
        assert(u@ =~= url_candles(
            base@,
            product@,
            ss@,
            es@,
            granularity_secs as int,
        ));
    }
    Some(u)
}

} // verus!
