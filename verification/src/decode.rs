//! Decoding JSON values into domain records.
//!
//! Each record has a specification function saying exactly which JSON
//! values decode to it and to what; the executable decoders return `Ok`
//! precisely on those values. String-encoded numeric fields go through one
//! shared rule (`spec_dec_field`): only a JSON string parseable as a
//! decimal is accepted. Candle fields are the one exception: they arrive
//! as native JSON numbers, and a string there is an error.

use vstd::prelude::*;

use crate::json::{JsonValue, JsonSpec, dv_members, lemma_dv_members_props, lemma_dv_seq_props,
    dv_seq};
use crate::num::{Decimal, spec_parse_dec, parse_decimal, dec_le, dec_le_exec};
use crate::side::{Side, DecodeError, spec_side, side_err_prefix};
use crate::ids::spec_uuid;
use crate::times::{Timestamp, rfc3339_instant, parse_rfc3339};
use crate::model::{Product, ProductV, products_v, BookEntry, FullBookEntry, OrderBook, OrderBookV,
    Candle, Tick, Trade};
use crate::text::{ab, lit_bytes, bytes_eq};

verus! {

broadcast use vstd::std_specs::vec::group_vec_axioms, vstd::seq::group_seq_axioms;

/// First member with the given key, at or after `i`.
pub open spec fn jget_from(m: Seq<(Seq<u8>, JsonSpec)>, key: Seq<u8>, i: int) -> Option<JsonSpec>
    decreases m.len() - i when 0 <= i <= m.len()
{
    if i >= m.len() {
        None
    } else if m[i].0 == key {
        Some(m[i].1)
    } else {
        jget_from(m, key, i + 1)
    }
}

/// First member with the given key: when a key is bound more than once,
/// the first binding is taken and the rest are ignored, as unknown keys
/// are.
pub open spec fn jget(m: Seq<(Seq<u8>, JsonSpec)>, key: Seq<u8>) -> Option<JsonSpec> {
    jget_from(m, key, 0)
}

/// Looks a key up in an object's members, exactly as `jget` states.
fn obj_get<'a>(m: &'a Vec<(Vec<u8>, JsonValue)>, key: &Vec<u8>) -> (r: Option<&'a JsonValue>)
    ensures
        match r {
            Some(v) => jget(dv_members(m@), key@) == Some(v.dv()),
            None => jget(dv_members(m@), key@) is None,
        },
{
    proof {
        lemma_dv_members_props(m@);
    }
    let ghost mv = dv_members(m@);
    let mut i: usize = 0;
    while i < m.len()
        invariant
            i <= m@.len(),
            mv == dv_members(m@),
            mv.len() == m@.len(),
            forall|j: int| 0 <= j < m@.len() ==> mv[j] == (m@[j].0@, m@[j].1.dv()),
            jget_from(mv, key@, 0) == jget_from(mv, key@, i as int),
        decreases m@.len() - i,
    {
        if bytes_eq(&m[i].0, key) {
            return Some(&m[i].1);
        }
        i = i + 1;
    }
    None
}

/// The shared rule for string-encoded numeric fields: only a JSON string
/// holding a decimal token is accepted.
pub open spec fn spec_dec_field(v: JsonSpec) -> Option<Decimal> {
    match v {
        JsonSpec::Str(s) => spec_parse_dec(s),
        _ => None,
    }
}

fn dec_field(v: &JsonValue) -> (r: Option<Decimal>)
    ensures
        r == spec_dec_field(v.dv()),
{
    match v {
        JsonValue::Str(s) => parse_decimal(s),
        _ => None,
    }
}

/// A native JSON number, exactly as parsed.
pub open spec fn spec_num_field(v: JsonSpec) -> Option<Decimal> {
    match v {
        JsonSpec::Num(d) => Some(d),
        _ => None,
    }
}

fn num_field(v: &JsonValue) -> (r: Option<Decimal>)
    ensures
        r == spec_num_field(v.dv()),
{
    match v {
        JsonValue::Num(d) => Some(*d),
        _ => None,
    }
}

/// A non-negative integer field: a native JSON number written without
/// fraction or exponent.
pub open spec fn spec_u64_field(v: JsonSpec) -> Option<u64> {
    match v {
        JsonSpec::Num(d) => if !d.neg && d.exp == 0 {
            Some(d.mant)
        } else {
            None
        },
        _ => None,
    }
}

fn u64_field(v: &JsonValue) -> (r: Option<u64>)
    ensures
        r == spec_u64_field(v.dv()),
{
    match v {
        JsonValue::Num(d) => if !d.neg && d.exp == 0 {
            Some(d.mant)
        } else {
            None
        },
        _ => None,
    }
}

pub open spec fn spec_usize_field(v: JsonSpec) -> Option<usize> {
    match spec_u64_field(v) {
        Some(m) => if m <= usize::MAX {
            Some(m as usize)
        } else {
            None
        },
        None => None,
    }
}

fn usize_field(v: &JsonValue) -> (r: Option<usize>)
    ensures
        r == spec_usize_field(v.dv()),
{
    match u64_field(v) {
        Some(m) => if m <= usize::MAX as u64 {
            Some(m as usize)
        } else {
            None
        },
        None => None,
    }
}

/// An RFC 3339 instant field.
pub open spec fn spec_time_field(v: JsonSpec) -> Option<Timestamp> {
    match v {
        JsonSpec::Str(s) => match rfc3339_instant(s) {
            Some((sec, ns)) => Some(Timestamp { secs: sec, nanos: ns }),
            None => None,
        },
        _ => None,
    }
}

fn time_field(v: &JsonValue) -> (r: Option<Timestamp>)
    ensures
        r == spec_time_field(v.dv()),
{
    match v {
        JsonValue::Str(s) => parse_rfc3339(s),
        _ => None,
    }
}

/// A side field: a string holding a casing of `buy` or `sell`.
pub open spec fn spec_side_field(v: JsonSpec) -> Option<Side> {
    match v {
        JsonSpec::Str(s) => spec_side(s),
        _ => None,
    }
}

fn shape_err() -> (r: DecodeError) {
    proof {
        reveal_strlit("unexpected JSON shape");
    }
    DecodeError { msg: lit_bytes("unexpected JSON shape") }
}

/// Decodes every element of a list with `f`, in order; the first failure
/// fails the whole list.
pub open spec fn spec_list<T>(es: Seq<JsonSpec>, f: spec_fn(JsonSpec) -> Option<T>) -> Option<
    Seq<T>,
>
    decreases es.len(),
{
    if es.len() == 0 {
        Some(seq![])
    } else {
        match (spec_list(es.subrange(0, es.len() - 1), f), f(es[es.len() - 1])) {
            (Some(t), Some(e)) => Some(t.push(e)),
            _ => None,
        }
    }
}

pub proof fn lemma_list_prefix<T>(es: Seq<JsonSpec>, f: spec_fn(JsonSpec) -> Option<T>, k: int)
    requires
        0 <= k <= es.len(),
    ensures
        spec_list(es, f) is Some ==> spec_list(es.subrange(0, k), f) is Some,
    decreases es.len(),
{
    if k < es.len() {
        if spec_list(es, f) is Some {
            let pre = es.subrange(0, es.len() - 1);
            assert(pre.subrange(0, k) =~= es.subrange(0, k));
            lemma_list_prefix(pre, f, k);
        }
    } else {
        assert(es.subrange(0, k) =~= es);
    }
}

/// One book level: the array form `[price, size, num_orders]` or an object
/// with those fields.
pub open spec fn spec_book_entry(v: JsonSpec) -> Option<BookEntry> {
    match v {
        JsonSpec::Arr(es) => if es.len() == 3 {
            match (spec_dec_field(es[0]), spec_dec_field(es[1]), spec_u64_field(es[2])) {
                (Some(p), Some(sz), Some(n)) => Some(
                    BookEntry { price: p, size: sz, num_orders: n },
                ),
                _ => None,
            }
        } else {
            None
        },
        JsonSpec::Obj(m) => match (jget(m, ab("price"@)), jget(m, ab("size"@)), jget(
            m,
            ab("num_orders"@),
        )) {
            (Some(pv), Some(sv), Some(nv)) => match (spec_dec_field(pv), spec_dec_field(sv),
            spec_u64_field(nv)) {
                (Some(p), Some(sz), Some(n)) => Some(
                    BookEntry { price: p, size: sz, num_orders: n },
                ),
                _ => None,
            },
            _ => None,
        },
        _ => None,
    }
}

pub fn decode_book_entry(v: &JsonValue) -> (r: Result<BookEntry, DecodeError>)
    ensures
        match r {
            Ok(e) => spec_book_entry(v.dv()) == Some(e),
            Err(_) => spec_book_entry(v.dv()) is None,
        },
{
    match v {
        JsonValue::Arr(es) => {
            proof {
                lemma_dv_seq_props(es@);
            }
            if es.len() != 3 {
                return Err(shape_err());
            }
            let p = match dec_field(&es[0]) {
                Some(d) => d,
                None => {
                    return Err(shape_err());
                },
            };
            let sz = match dec_field(&es[1]) {
                Some(d) => d,
                None => {
                    return Err(shape_err());
                },
            };
            let n = match u64_field(&es[2]) {
                Some(d) => d,
                None => {
                    return Err(shape_err());
                },
            };
            Ok(BookEntry { price: p, size: sz, num_orders: n })
        },
        JsonValue::Obj(m) => {
            proof {
                reveal_strlit("price");
                reveal_strlit("size");
                reveal_strlit("num_orders");
            }
            let kp = lit_bytes("price");
            let ks = lit_bytes("size");
            let kn = lit_bytes("num_orders");
            let p = match obj_get(m, &kp) {
                Some(x) => match dec_field(x) {
                    Some(d) => d,
                    None => {
                        return Err(DecodeError { msg: kp });
                    },
                },
                None => {
                    return Err(DecodeError { msg: kp });
                },
            };
            let sz = match obj_get(m, &ks) {
                Some(x) => match dec_field(x) {
                    Some(d) => d,
                    None => {
                        return Err(DecodeError { msg: ks });
                    },
                },
                None => {
                    return Err(DecodeError { msg: ks });
                },
            };
            let n = match obj_get(m, &kn) {
                Some(x) => match u64_field(x) {
                    Some(d) => d,
                    None => {
                        return Err(DecodeError { msg: kn });
                    },
                },
                None => {
                    return Err(DecodeError { msg: kn });
                },
            };
            Ok(BookEntry { price: p, size: sz, num_orders: n })
        },
        _ => Err(shape_err()),
    }
}

/// An order identifier field: a string in the canonical hyphenated form.
pub open spec fn spec_uuid_field(v: JsonSpec) -> Option<u128> {
    match v {
        JsonSpec::Str(s) => spec_uuid(s),
        _ => None,
    }
}

fn uuid_field(v: &JsonValue) -> (r: Option<u128>)
    ensures
        r == spec_uuid_field(v.dv()),
{
    match v {
        JsonValue::Str(s) => crate::ids::parse_uuid(s),
        _ => None,
    }
}

/// One order of a full book: `[price, size, order_id]` or an object with
/// those fields.
pub open spec fn spec_full_entry(v: JsonSpec) -> Option<FullBookEntry> {
    match v {
        JsonSpec::Arr(es) => if es.len() == 3 {
            match (spec_dec_field(es[0]), spec_dec_field(es[1]), spec_uuid_field(es[2])) {
                (Some(p), Some(sz), Some(oid)) => Some(
                    FullBookEntry { price: p, size: sz, order_id: oid },
                ),
                _ => None,
            }
        } else {
            None
        },
        JsonSpec::Obj(m) => match (jget(m, ab("price"@)), jget(m, ab("size"@)), jget(
            m,
            ab("order_id"@),
        )) {
            (Some(pv), Some(sv), Some(ov)) => match (spec_dec_field(pv), spec_dec_field(sv),
            spec_uuid_field(ov)) {
                (Some(p), Some(sz), Some(oid)) => Some(
                    FullBookEntry { price: p, size: sz, order_id: oid },
                ),
                _ => None,
            },
            _ => None,
        },
        _ => None,
    }
}

pub fn decode_full_entry(v: &JsonValue) -> (r: Result<FullBookEntry, DecodeError>)
    ensures
        match r {
            Ok(e) => spec_full_entry(v.dv()) == Some(e),
            Err(_) => spec_full_entry(v.dv()) is None,
        },
{
    match v {
        JsonValue::Arr(es) => {
            proof {
                lemma_dv_seq_props(es@);
            }
            if es.len() != 3 {
                return Err(shape_err());
            }
            let p = match dec_field(&es[0]) {
                Some(d) => d,
                None => {
                    return Err(shape_err());
                },
            };
            let sz = match dec_field(&es[1]) {
                Some(d) => d,
                None => {
                    return Err(shape_err());
                },
            };
            let oid = match uuid_field(&es[2]) {
                Some(d) => d,
                None => {
                    return Err(shape_err());
                },
            };
            Ok(FullBookEntry { price: p, size: sz, order_id: oid })
        },
        JsonValue::Obj(m) => {
            proof {
                reveal_strlit("price");
                reveal_strlit("size");
                reveal_strlit("order_id");
            }
            let kp = lit_bytes("price");
            let ks = lit_bytes("size");
            let ko = lit_bytes("order_id");
            let p = match obj_get(m, &kp) {
                Some(x) => match dec_field(x) {
                    Some(d) => d,
                    None => {
                        return Err(DecodeError { msg: kp });
                    },
                },
                None => {
                    return Err(DecodeError { msg: kp });
                },
            };
            let sz = match obj_get(m, &ks) {
                Some(x) => match dec_field(x) {
                    Some(d) => d,
                    None => {
                        return Err(DecodeError { msg: ks });
                    },
                },
                None => {
                    return Err(DecodeError { msg: ks });
                },
            };
            let oid = match obj_get(m, &ko) {
                Some(x) => match uuid_field(x) {
                    Some(d) => d,
                    None => {
                        return Err(DecodeError { msg: ko });
                    },
                },
                None => {
                    return Err(DecodeError { msg: ko });
                },
            };
            Ok(FullBookEntry { price: p, size: sz, order_id: oid })
        },
        _ => Err(shape_err()),
    }
}

/// One bar: `[time, low, high, open, close, volume]` or an object with
/// those fields, all native JSON numbers. A string in any of them is an
/// error: these fields are not string-coerced.
pub open spec fn spec_candle(v: JsonSpec) -> Option<Candle> {
    match v {
        JsonSpec::Arr(es) => if es.len() == 6 {
            match (spec_u64_field(es[0]), spec_num_field(es[1]), spec_num_field(es[2]),
            spec_num_field(es[3]), spec_num_field(es[4]), spec_num_field(es[5])) {
                (Some(t), Some(l), Some(h), Some(o), Some(c), Some(vo)) => Some(
                    Candle { time: t, low: l, high: h, open: o, close: c, volume: vo },
                ),
                _ => None,
            }
        } else {
            None
        },
        JsonSpec::Obj(m) => match (jget(m, ab("time"@)), jget(m, ab("low"@)), jget(m, ab("high"@)),
        jget(m, ab("open"@)), jget(m, ab("close"@)), jget(m, ab("volume"@))) {
            (Some(tv), Some(lv), Some(hv), Some(ov), Some(cv), Some(vv)) => match (spec_u64_field(
                tv,
            ), spec_num_field(lv), spec_num_field(hv), spec_num_field(ov), spec_num_field(cv),
            spec_num_field(vv)) {
                (Some(t), Some(l), Some(h), Some(o), Some(c), Some(vo)) => Some(
                    Candle { time: t, low: l, high: h, open: o, close: c, volume: vo },
                ),
                _ => None,
            },
            _ => None,
        },
        _ => None,
    }
}

pub fn decode_candle(v: &JsonValue) -> (r: Result<Candle, DecodeError>)
    ensures
        match r {
            Ok(e) => spec_candle(v.dv()) == Some(e),
            Err(_) => spec_candle(v.dv()) is None,
        },
{
    match v {
        JsonValue::Arr(es) => {
            proof {
                lemma_dv_seq_props(es@);
            }
            if es.len() != 6 {
                return Err(shape_err());
            }
            let t = match u64_field(&es[0]) {
                Some(d) => d,
                None => {
                    return Err(shape_err());
                },
            };
            let l = match num_field(&es[1]) {
                Some(d) => d,
                None => {
                    return Err(shape_err());
                },
            };
            let h = match num_field(&es[2]) {
                Some(d) => d,
                None => {
                    return Err(shape_err());
                },
            };
            let o = match num_field(&es[3]) {
                Some(d) => d,
                None => {
                    return Err(shape_err());
                },
            };
            let c = match num_field(&es[4]) {
                Some(d) => d,
                None => {
                    return Err(shape_err());
                },
            };
            let vo = match num_field(&es[5]) {
                Some(d) => d,
                None => {
                    return Err(shape_err());
                },
            };
            Ok(Candle { time: t, low: l, high: h, open: o, close: c, volume: vo })
        },
        JsonValue::Obj(m) => {
            proof {
                reveal_strlit("time");
                reveal_strlit("low");
                reveal_strlit("high");
                reveal_strlit("open");
                reveal_strlit("close");
                reveal_strlit("volume");
            }
            let kt = lit_bytes("time");
            let kl = lit_bytes("low");
            let kh = lit_bytes("high");
            let ko = lit_bytes("open");
            let kc = lit_bytes("close");
            let kv = lit_bytes("volume");
            let t = match obj_get(m, &kt) {
                Some(x) => match u64_field(x) {
                    Some(d) => d,
                    None => {
                        return Err(DecodeError { msg: kt });
                    },
                },
                None => {
                    return Err(DecodeError { msg: kt });
                },
            };
            let l = match obj_get(m, &kl) {
                Some(x) => match num_field(x) {
                    Some(d) => d,
                    None => {
                        return Err(DecodeError { msg: kl });
                    },
                },
                None => {
                    return Err(DecodeError { msg: kl });
                },
            };
            let h = match obj_get(m, &kh) {
                Some(x) => match num_field(x) {
                    Some(d) => d,
                    None => {
                        return Err(DecodeError { msg: kh });
                    },
                },
                None => {
                    return Err(DecodeError { msg: kh });
                },
            };
            let o = match obj_get(m, &ko) {
                Some(x) => match num_field(x) {
                    Some(d) => d,
                    None => {
                        return Err(DecodeError { msg: ko });
                    },
                },
                None => {
                    return Err(DecodeError { msg: ko });
                },
            };
            let c = match obj_get(m, &kc) {
                Some(x) => match num_field(x) {
                    Some(d) => d,
                    None => {
                        return Err(DecodeError { msg: kc });
                    },
                },
                None => {
                    return Err(DecodeError { msg: kc });
                },
            };
            let vo = match obj_get(m, &kv) {
                Some(x) => match num_field(x) {
                    Some(d) => d,
                    None => {
                        return Err(DecodeError { msg: kv });
                    },
                },
                None => {
                    return Err(DecodeError { msg: kv });
                },
            };
            Ok(Candle { time: t, low: l, high: h, open: o, close: c, volume: vo })
        },
        _ => Err(shape_err()),
    }
}

/// The latest-trade snapshot: an object of string-coerced decimals, an
/// integer trade identifier and an RFC 3339 time.
pub open spec fn spec_tick(v: JsonSpec) -> Option<Tick> {
    match v {
        JsonSpec::Obj(m) => match (jget(m, ab("trade_id"@)), jget(m, ab("price"@)), jget(
            m,
            ab("size"@),
        ), jget(m, ab("bid"@)), jget(m, ab("ask"@)), jget(m, ab("volume"@)), jget(
            m,
            ab("time"@),
        )) {
            (Some(iv), Some(pv), Some(sv), Some(bv), Some(av), Some(vv), Some(tv)) => match ((
            spec_u64_field(iv), spec_dec_field(pv), spec_dec_field(sv)), (spec_dec_field(bv),
            spec_dec_field(av), spec_dec_field(vv), spec_time_field(tv))) {
                ((Some(ti), Some(p), Some(sz)), (Some(b), Some(a), Some(vo), Some(tm))) => Some(
                    Tick { trade_id: ti, price: p, size: sz, bid: b, ask: a, volume: vo, time: tm },
                ),
                _ => None,
            },
            _ => None,
        },
        _ => None,
    }
}

pub fn decode_tick(v: &JsonValue) -> (r: Result<Tick, DecodeError>)
    ensures
        match r {
            Ok(e) => spec_tick(v.dv()) == Some(e),
            Err(_) => spec_tick(v.dv()) is None,
        },
{
    match v {
        JsonValue::Obj(m) => {
            proof {
                reveal_strlit("trade_id");
                reveal_strlit("price");
                reveal_strlit("size");
                reveal_strlit("bid");
                reveal_strlit("ask");
                reveal_strlit("volume");
                reveal_strlit("time");
            }
            let ki = lit_bytes("trade_id");
            let kp = lit_bytes("price");
            let ks = lit_bytes("size");
            let kb = lit_bytes("bid");
            let ka = lit_bytes("ask");
            let kv = lit_bytes("volume");
            let kt = lit_bytes("time");
            let ti = match obj_get(m, &ki) {
                Some(x) => match u64_field(x) {
                    Some(d) => d,
                    None => {
                        return Err(DecodeError { msg: ki });
                    },
                },
                None => {
                    return Err(DecodeError { msg: ki });
                },
            };
            let p = match obj_get(m, &kp) {
                Some(x) => match dec_field(x) {
                    Some(d) => d,
                    None => {
                        return Err(DecodeError { msg: kp });
                    },
                },
                None => {
                    return Err(DecodeError { msg: kp });
                },
            };
            let sz = match obj_get(m, &ks) {
                Some(x) => match dec_field(x) {
                    Some(d) => d,
                    None => {
                        return Err(DecodeError { msg: ks });
                    },
                },
                None => {
                    return Err(DecodeError { msg: ks });
                },
            };
            let b = match obj_get(m, &kb) {
                Some(x) => match dec_field(x) {
                    Some(d) => d,
                    None => {
                        return Err(DecodeError { msg: kb });
                    },
                },
                None => {
                    return Err(DecodeError { msg: kb });
                },
            };
            let a = match obj_get(m, &ka) {
                Some(x) => match dec_field(x) {
                    Some(d) => d,
                    None => {
                        return Err(DecodeError { msg: ka });
                    },
                },
                None => {
                    return Err(DecodeError { msg: ka });
                },
            };
            let vo = match obj_get(m, &kv) {
                Some(x) => match dec_field(x) {
                    Some(d) => d,
                    None => {
                        return Err(DecodeError { msg: kv });
                    },
                },
                None => {
                    return Err(DecodeError { msg: kv });
                },
            };
            let tm = match obj_get(m, &kt) {
                Some(x) => match time_field(x) {
                    Some(d) => d,
                    None => {
                        return Err(DecodeError { msg: kt });
                    },
                },
                None => {
                    return Err(DecodeError { msg: kt });
                },
            };
            Ok(Tick { trade_id: ti, price: p, size: sz, bid: b, ask: a, volume: vo, time: tm })
        },
        _ => Err(shape_err()),
    }
}

/// One historical trade: time, integer trade identifier, string-coerced
/// price and size, and a side.
pub open spec fn spec_trade(v: JsonSpec) -> Option<Trade> {
    match v {
        JsonSpec::Obj(m) => match (jget(m, ab("time"@)), jget(m, ab("trade_id"@)), jget(
            m,
            ab("price"@),
        ), jget(m, ab("size"@)), jget(m, ab("side"@))) {
            (Some(tv), Some(iv), Some(pv), Some(sv), Some(dv)) => match (spec_time_field(tv),
            spec_u64_field(iv), spec_dec_field(pv), spec_dec_field(sv), spec_side_field(dv)) {
                (Some(tm), Some(ti), Some(p), Some(sz), Some(sd)) => Some(
                    Trade { time: tm, trade_id: ti, price: p, size: sz, side: sd },
                ),
                _ => None,
            },
            _ => None,
        },
        _ => None,
    }
}

/// The offending side string of a trade whose other fields all decode:
/// the one case in which the error message is pinned by the wire rules.
pub open spec fn spec_trade_bad_side(v: JsonSpec) -> Option<Seq<u8>> {
    match v {
        JsonSpec::Obj(m) => match (jget(m, ab("time"@)), jget(m, ab("trade_id"@)), jget(
            m,
            ab("price"@),
        ), jget(m, ab("size"@)), jget(m, ab("side"@))) {
            (Some(tv), Some(iv), Some(pv), Some(sv), Some(dv)) => if spec_time_field(tv) is Some
                && spec_u64_field(iv) is Some && spec_dec_field(pv) is Some && spec_dec_field(
                sv,
            ) is Some {
                match dv {
                    JsonSpec::Str(s) => if spec_side(s) is None {
                        Some(s)
                    } else {
                        None
                    },
                    _ => None,
                }
            } else {
                None
            },
            _ => None,
        },
        _ => None,
    }
}

pub fn decode_trade(v: &JsonValue) -> (r: Result<Trade, DecodeError>)
    ensures
        match r {
            Ok(e) => spec_trade(v.dv()) == Some(e),
            Err(_) => spec_trade(v.dv()) is None,
        },
        spec_trade_bad_side(v.dv()) matches Some(s) ==> (r matches Err(e) && e.msg@
            == side_err_prefix() + s),
{
    match v {
        JsonValue::Obj(m) => {
            proof {
                reveal_strlit("time");
                reveal_strlit("trade_id");
                reveal_strlit("price");
                reveal_strlit("size");
                reveal_strlit("side");
            }
            let kt = lit_bytes("time");
            let ki = lit_bytes("trade_id");
            let kp = lit_bytes("price");
            let ks = lit_bytes("size");
            let kd = lit_bytes("side");
            let tm = match obj_get(m, &kt) {
                Some(x) => match time_field(x) {
                    Some(d) => d,
                    None => {
                        return Err(DecodeError { msg: kt });
                    },
                },
                None => {
                    return Err(DecodeError { msg: kt });
                },
            };
            let ti = match obj_get(m, &ki) {
                Some(x) => match u64_field(x) {
                    Some(d) => d,
                    None => {
                        return Err(DecodeError { msg: ki });
                    },
                },
                None => {
                    return Err(DecodeError { msg: ki });
                },
            };
            let p = match obj_get(m, &kp) {
                Some(x) => match dec_field(x) {
                    Some(d) => d,
                    None => {
                        return Err(DecodeError { msg: kp });
                    },
                },
                None => {
                    return Err(DecodeError { msg: kp });
                },
            };
            let sz = match obj_get(m, &ks) {
                Some(x) => match dec_field(x) {
                    Some(d) => d,
                    None => {
                        return Err(DecodeError { msg: ks });
                    },
                },
                None => {
                    return Err(DecodeError { msg: ks });
                },
            };
            let sd = match obj_get(m, &kd) {
                Some(x) => match x {
                    JsonValue::Str(s) => match Side::from_bytes(s) {
                        Ok(sd) => sd,
                        Err(e) => {
                            return Err(e);
                        },
                    },
                    _ => {
                        return Err(DecodeError { msg: kd });
                    },
                },
                None => {
                    return Err(DecodeError { msg: kd });
                },
            };
            Ok(Trade { time: tm, trade_id: ti, price: p, size: sz, side: sd })
        },
        _ => Err(shape_err()),
    }
}

/// A product: text identifiers and string-coerced decimal limits.
pub open spec fn spec_product(v: JsonSpec) -> Option<ProductV> {
    match v {
        JsonSpec::Obj(m) => match ((jget(m, ab("id"@)), jget(m, ab("base_currency"@)), jget(
            m,
            ab("quote_currency"@),
        )), (jget(m, ab("base_min_size"@)), jget(m, ab("base_max_size"@)), jget(
            m,
            ab("quote_increment"@),
        ), jget(m, ab("display_name"@)))) {
            ((Some(idv), Some(bcv), Some(qcv)), (Some(mnv), Some(mxv), Some(qiv), Some(dnv))) => {
                match ((idv, bcv, qcv, dnv), (spec_dec_field(mnv), spec_dec_field(mxv),
                spec_dec_field(qiv))) {
                    (
                        (JsonSpec::Str(id), JsonSpec::Str(bc), JsonSpec::Str(qc), JsonSpec::Str(dn)),
                        (Some(mn), Some(mx), Some(qi)),
                    ) => if dec_le(mn, mx) {
                        Some(
                            ProductV {
                                id: id,
                                base_currency: bc,
                                quote_currency: qc,
                                base_min_size: mn,
                                base_max_size: mx,
                                quote_increment: qi,
                                display_name: dn,
                            },
                        )
                    } else {
                        None
                    },
                    _ => None,
                }
            },
            _ => None,
        },
        _ => None,
    }
}

fn str_field(v: &JsonValue) -> (r: Option<Vec<u8>>)
    ensures
        match r {
            Some(b) => v.dv() matches JsonSpec::Str(s) && s == b@,
            None => !(v.dv() matches JsonSpec::Str(_)),
        },
{
    match v {
        JsonValue::Str(s) => {
            let mut out: Vec<u8> = Vec::new();
            out.extend_from_slice(s.as_slice());
            proof {
                assert(out@ =~= s@);
            }
            Some(out)
        },
        _ => None,
    }
}

pub fn decode_product(v: &JsonValue) -> (r: Result<Product, DecodeError>)
    ensures
        match r {
            Ok(p) => spec_product(v.dv()) == Some(p.v()) && dec_le(
                p.base_min_size,
                p.base_max_size,
            ),
            Err(_) => spec_product(v.dv()) is None,
        },
{
    match v {
        JsonValue::Obj(m) => {
            proof {
                reveal_strlit("id");
                reveal_strlit("base_currency");
                reveal_strlit("quote_currency");
                reveal_strlit("base_min_size");
                reveal_strlit("base_max_size");
                reveal_strlit("quote_increment");
                reveal_strlit("display_name");
            }
            let kid = lit_bytes("id");
            let kbc = lit_bytes("base_currency");
            let kqc = lit_bytes("quote_currency");
            let kmn = lit_bytes("base_min_size");
            let kmx = lit_bytes("base_max_size");
            let kqi = lit_bytes("quote_increment");
            let kdn = lit_bytes("display_name");
            let id = match obj_get(m, &kid) {
                Some(x) => match str_field(x) {
                    Some(b) => b,
                    None => {
                        return Err(DecodeError { msg: kid });
                    },
                },
                None => {
                    return Err(DecodeError { msg: kid });
                },
            };
            let bc = match obj_get(m, &kbc) {
                Some(x) => match str_field(x) {
                    Some(b) => b,
                    None => {
                        return Err(DecodeError { msg: kbc });
                    },
                },
                None => {
                    return Err(DecodeError { msg: kbc });
                },
            };
            let qc = match obj_get(m, &kqc) {
                Some(x) => match str_field(x) {
                    Some(b) => b,
                    None => {
                        return Err(DecodeError { msg: kqc });
                    },
                },
                None => {
                    return Err(DecodeError { msg: kqc });
                },
            };
            let mn = match obj_get(m, &kmn) {
                Some(x) => match dec_field(x) {
                    Some(d) => d,
                    None => {
                        return Err(DecodeError { msg: kmn });
                    },
                },
                None => {
                    return Err(DecodeError { msg: kmn });
                },
            };
            let mx = match obj_get(m, &kmx) {
                Some(x) => match dec_field(x) {
                    Some(d) => d,
                    None => {
                        return Err(DecodeError { msg: kmx });
                    },
                },
                None => {
                    return Err(DecodeError { msg: kmx });
                },
            };
            let qi = match obj_get(m, &kqi) {
                Some(x) => match dec_field(x) {
                    Some(d) => d,
                    None => {
                        return Err(DecodeError { msg: kqi });
                    },
                },
                None => {
                    return Err(DecodeError { msg: kqi });
                },
            };
            let dn = match obj_get(m, &kdn) {
                Some(x) => match str_field(x) {
                    Some(b) => b,
                    None => {
                        return Err(DecodeError { msg: kdn });
                    },
                },
                None => {
                    return Err(DecodeError { msg: kdn });
                },
            };
            if !dec_le_exec(&mn, &mx) {
                proof {
                    reveal_strlit("base_min_size exceeds base_max_size");
                }
                return Err(DecodeError { msg: lit_bytes("base_min_size exceeds base_max_size") });
            }
            Ok(
                Product {
                    id,
                    base_currency: bc,
                    quote_currency: qc,
                    base_min_size: mn,
                    base_max_size: mx,
                    quote_increment: qi,
                    display_name: dn,
                },
            )
        },
        _ => Err(shape_err()),
    }
}

pub open spec fn f_book() -> spec_fn(JsonSpec) -> Option<BookEntry> {
    |x: JsonSpec| spec_book_entry(x)
}

pub open spec fn f_full() -> spec_fn(JsonSpec) -> Option<FullBookEntry> {
    |x: JsonSpec| spec_full_entry(x)
}

pub open spec fn f_candle() -> spec_fn(JsonSpec) -> Option<Candle> {
    |x: JsonSpec| spec_candle(x)
}

pub open spec fn f_trade() -> spec_fn(JsonSpec) -> Option<Trade> {
    |x: JsonSpec| spec_trade(x)
}

pub open spec fn f_product() -> spec_fn(JsonSpec) -> Option<ProductV> {
    |x: JsonSpec| spec_product(x)
}

fn decode_entries(es: &Vec<JsonValue>) -> (r: Result<Vec<BookEntry>, DecodeError>)
    ensures
        match r {
            Ok(out) => spec_list(dv_seq(es@), f_book()) == Some(out@),
            Err(_) => spec_list(dv_seq(es@), f_book()) is None,
        },
{
    proof {
        lemma_dv_seq_props(es@);
    }
    let ghost dvs = dv_seq(es@);
    let mut out: Vec<BookEntry> = Vec::new();
    let mut i: usize = 0;
    proof {
        assert(dvs.subrange(0, 0) =~= Seq::<JsonSpec>::empty());
    }
    while i < es.len()
        invariant
            i <= es@.len(),
            dvs == dv_seq(es@),
            dvs.len() == es@.len(),
            forall|j: int| 0 <= j < es@.len() ==> dvs[j] == es@[j].dv(),
            spec_list(dvs.subrange(0, i as int), f_book()) == Some(out@),
        decreases es@.len() - i,
    {
        let ghost pre = dvs.subrange(0, i + 1 as int);
        proof {
            assert(pre.subrange(0, pre.len() - 1) =~= dvs.subrange(0, i as int));
        }
        match decode_book_entry(&es[i]) {
            Ok(e) => {
                out.push(e);
            },
            Err(e) => {
                proof {
                    lemma_list_prefix(dvs, f_book(), i + 1);
                    assert(dvs.subrange(0, dvs.len() as int) =~= dvs);
                }
                return Err(e);
            },
        }
        i = i + 1;
    }
    proof {
        assert(dvs.subrange(0, dvs.len() as int) =~= dvs);
    }
    Ok(out)
}

fn decode_full_entries(es: &Vec<JsonValue>) -> (r: Result<Vec<FullBookEntry>, DecodeError>)
    ensures
        match r {
            Ok(out) => spec_list(dv_seq(es@), f_full()) == Some(out@),
            Err(_) => spec_list(dv_seq(es@), f_full()) is None,
        },
{
    proof {
        lemma_dv_seq_props(es@);
    }
    let ghost dvs = dv_seq(es@);
    let mut out: Vec<FullBookEntry> = Vec::new();
    let mut i: usize = 0;
    proof {
        assert(dvs.subrange(0, 0) =~= Seq::<JsonSpec>::empty());
    }
    while i < es.len()
        invariant
            i <= es@.len(),
            dvs == dv_seq(es@),
            dvs.len() == es@.len(),
            forall|j: int| 0 <= j < es@.len() ==> dvs[j] == es@[j].dv(),
            spec_list(dvs.subrange(0, i as int), f_full()) == Some(out@),
        decreases es@.len() - i,
    {
        let ghost pre = dvs.subrange(0, i + 1 as int);
        proof {
            assert(pre.subrange(0, pre.len() - 1) =~= dvs.subrange(0, i as int));
        }
        match decode_full_entry(&es[i]) {
            Ok(e) => {
                out.push(e);
            },
            Err(e) => {
                proof {
                    lemma_list_prefix(dvs, f_full(), i + 1);
                    assert(dvs.subrange(0, dvs.len() as int) =~= dvs);
                }
                return Err(e);
            },
        }
        i = i + 1;
    }
    proof {
        assert(dvs.subrange(0, dvs.len() as int) =~= dvs);
    }
    Ok(out)
}

/// A bid or ask list: a JSON array of book levels.
pub open spec fn spec_entries_field(v: JsonSpec) -> Option<Seq<BookEntry>> {
    match v {
        JsonSpec::Arr(es) => spec_list(es, f_book()),
        _ => None,
    }
}

pub open spec fn spec_full_entries_field(v: JsonSpec) -> Option<Seq<FullBookEntry>> {
    match v {
        JsonSpec::Arr(es) => spec_list(es, f_full()),
        _ => None,
    }
}

/// A depth-limited book snapshot: sequence number, bids and asks.
pub open spec fn spec_order_book(v: JsonSpec) -> Option<OrderBookV<BookEntry>> {
    match v {
        JsonSpec::Obj(m) => match (jget(m, ab("sequence"@)), jget(m, ab("bids"@)), jget(
            m,
            ab("asks"@),
        )) {
            (Some(sq), Some(bv), Some(av)) => match (spec_usize_field(sq), spec_entries_field(bv),
            spec_entries_field(av)) {
                (Some(sqn), Some(bs), Some(ask)) => Some(
                    OrderBookV { sequence: sqn, bids: bs, asks: ask },
                ),
                _ => None,
            },
            _ => None,
        },
        _ => None,
    }
}

/// A full book snapshot: sequence number, per-order bids and asks.
pub open spec fn spec_full_book(v: JsonSpec) -> Option<OrderBookV<FullBookEntry>> {
    match v {
        JsonSpec::Obj(m) => match (jget(m, ab("sequence"@)), jget(m, ab("bids"@)), jget(
            m,
            ab("asks"@),
        )) {
            (Some(sq), Some(bv), Some(av)) => match (spec_usize_field(sq), spec_full_entries_field(
                bv,
            ), spec_full_entries_field(av)) {
                (Some(sqn), Some(bs), Some(ask)) => Some(
                    OrderBookV { sequence: sqn, bids: bs, asks: ask },
                ),
                _ => None,
            },
            _ => None,
        },
        _ => None,
    }
}

pub fn decode_order_book(v: &JsonValue) -> (r: Result<OrderBook<BookEntry>, DecodeError>)
    ensures
        match r {
            Ok(ob) => spec_order_book(v.dv()) == Some(ob.v()),
            Err(_) => spec_order_book(v.dv()) is None,
        },
{
    match v {
        JsonValue::Obj(m) => {
            proof {
                reveal_strlit("sequence");
                reveal_strlit("bids");
                reveal_strlit("asks");
            }
            let kq = lit_bytes("sequence");
            let kb = lit_bytes("bids");
            let ka = lit_bytes("asks");
            let sq = match obj_get(m, &kq) {
                Some(x) => match usize_field(x) {
                    Some(d) => d,
                    None => {
                        return Err(DecodeError { msg: kq });
                    },
                },
                None => {
                    return Err(DecodeError { msg: kq });
                },
            };
            let bs = match obj_get(m, &kb) {
                Some(x) => match x {
                    JsonValue::Arr(es) => match decode_entries(es) {
                        Ok(out) => out,
                        Err(e) => {
                            return Err(e);
                        },
                    },
                    _ => {
                        return Err(DecodeError { msg: kb });
                    },
                },
                None => {
                    return Err(DecodeError { msg: kb });
                },
            };
            let ask = match obj_get(m, &ka) {
                Some(x) => match x {
                    JsonValue::Arr(es) => match decode_entries(es) {
                        Ok(out) => out,
                        Err(e) => {
                            return Err(e);
                        },
                    },
                    _ => {
                        return Err(DecodeError { msg: ka });
                    },
                },
                None => {
                    return Err(DecodeError { msg: ka });
                },
            };
            Ok(OrderBook { sequence: sq, bids: bs, asks: ask })
        },
        _ => Err(shape_err()),
    }
}

pub fn decode_full_book(v: &JsonValue) -> (r: Result<OrderBook<FullBookEntry>, DecodeError>)
    ensures
        match r {
            Ok(ob) => spec_full_book(v.dv()) == Some(ob.v()),
            Err(_) => spec_full_book(v.dv()) is None,
        },
{
    match v {
        JsonValue::Obj(m) => {
            proof {
                reveal_strlit("sequence");
                reveal_strlit("bids");
                reveal_strlit("asks");
            }
            let kq = lit_bytes("sequence");
            let kb = lit_bytes("bids");
            let ka = lit_bytes("asks");
            let sq = match obj_get(m, &kq) {
                Some(x) => match usize_field(x) {
                    Some(d) => d,
                    None => {
                        return Err(DecodeError { msg: kq });
                    },
                },
                None => {
                    return Err(DecodeError { msg: kq });
                },
            };
            let bs = match obj_get(m, &kb) {
                Some(x) => match x {
                    JsonValue::Arr(es) => match decode_full_entries(es) {
                        Ok(out) => out,
                        Err(e) => {
                            return Err(e);
                        },
                    },
                    _ => {
                        return Err(DecodeError { msg: kb });
                    },
                },
                None => {
                    return Err(DecodeError { msg: kb });
                },
            };
            let ask = match obj_get(m, &ka) {
                Some(x) => match x {
                    JsonValue::Arr(es) => match decode_full_entries(es) {
                        Ok(out) => out,
                        Err(e) => {
                            return Err(e);
                        },
                    },
                    _ => {
                        return Err(DecodeError { msg: ka });
                    },
                },
                None => {
                    return Err(DecodeError { msg: ka });
                },
            };
            Ok(OrderBook { sequence: sq, bids: bs, asks: ask })
        },
        _ => Err(shape_err()),
    }
}

/// A product list: a JSON array of products.
pub open spec fn spec_products(v: JsonSpec) -> Option<Seq<ProductV>> {
    match v {
        JsonSpec::Arr(es) => spec_list(es, f_product()),
        _ => None,
    }
}

pub fn decode_products(v: &JsonValue) -> (r: Result<Vec<Product>, DecodeError>)
    ensures
        match r {
            Ok(ps) => spec_products(v.dv()) == Some(products_v(ps@)) && forall|i: int|
                0 <= i < ps@.len() ==> dec_le(
                    (#[trigger] ps@[i]).base_min_size,
                    ps@[i].base_max_size,
                ),
            Err(_) => spec_products(v.dv()) is None,
        },
{
    match v {
        JsonValue::Arr(es) => {
            proof {
                lemma_dv_seq_props(es@);
            }
            let ghost dvs = dv_seq(es@);
            let mut out: Vec<Product> = Vec::new();
            let mut i: usize = 0;
            proof {
                assert(dvs.subrange(0, 0) =~= Seq::<JsonSpec>::empty());
                assert(products_v(out@) =~= Seq::<ProductV>::empty());
            }
            while i < es.len()
                invariant
                    i <= es@.len(),
                    dvs == dv_seq(es@),
                    dvs.len() == es@.len(),
                    forall|j: int| 0 <= j < es@.len() ==> dvs[j] == es@[j].dv(),
                    v.dv() == JsonSpec::Arr(dvs),
                    spec_list(dvs.subrange(0, i as int), f_product()) == Some(products_v(out@)),
                    forall|j: int|
                        0 <= j < out@.len() ==> dec_le(
                            (#[trigger] out@[j]).base_min_size,
                            out@[j].base_max_size,
                        ),
                decreases es@.len() - i,
            {
                let ghost pre = dvs.subrange(0, i + 1 as int);
                proof {
                    assert(pre.subrange(0, pre.len() - 1) =~= dvs.subrange(0, i as int));
                }
                match decode_product(&es[i]) {
                    Ok(p) => {
                        let ghost out0 = out@;
                        out.push(p);
                        proof {
                            assert(products_v(out@) =~= products_v(out0).push(p.v()));
                        }
                    },
                    Err(e) => {
                        proof {
                            lemma_list_prefix(dvs, f_product(), i + 1);
                            assert(dvs.subrange(0, dvs.len() as int) =~= dvs);
                        }
                        return Err(e);
                    },
                }
                i = i + 1;
            }
            proof {
                assert(dvs.subrange(0, dvs.len() as int) =~= dvs);
            }
            Ok(out)
        },
        _ => Err(shape_err()),
    }
}

/// A candle list: a JSON array of bars.
pub open spec fn spec_candles(v: JsonSpec) -> Option<Seq<Candle>> {
    match v {
        JsonSpec::Arr(es) => spec_list(es, f_candle()),
        _ => None,
    }
}

pub fn decode_candles(v: &JsonValue) -> (r: Result<Vec<Candle>, DecodeError>)
    ensures
        match r {
            Ok(cs) => spec_candles(v.dv()) == Some(cs@),
            Err(_) => spec_candles(v.dv()) is None,
        },
{
    match v {
        JsonValue::Arr(es) => {
            proof {
                lemma_dv_seq_props(es@);
            }
            let ghost dvs = dv_seq(es@);
            let mut out: Vec<Candle> = Vec::new();
            let mut i: usize = 0;
            proof {
                assert(dvs.subrange(0, 0) =~= Seq::<JsonSpec>::empty());
            }
            while i < es.len()
                invariant
                    i <= es@.len(),
                    dvs == dv_seq(es@),
                    dvs.len() == es@.len(),
                    forall|j: int| 0 <= j < es@.len() ==> dvs[j] == es@[j].dv(),
                    v.dv() == JsonSpec::Arr(dvs),
                    spec_list(dvs.subrange(0, i as int), f_candle()) == Some(out@),
                decreases es@.len() - i,
            {
                let ghost pre = dvs.subrange(0, i + 1 as int);
                proof {
                    assert(pre.subrange(0, pre.len() - 1) =~= dvs.subrange(0, i as int));
                }
                match decode_candle(&es[i]) {
                    Ok(c) => {
                        out.push(c);
                    },
                    Err(e) => {
                        proof {
                            lemma_list_prefix(dvs, f_candle(), i + 1);
                            assert(dvs.subrange(0, dvs.len() as int) =~= dvs);
                        }
                        return Err(e);
                    },
                }
                i = i + 1;
            }
            proof {
                assert(dvs.subrange(0, dvs.len() as int) =~= dvs);
            }
            Ok(out)
        },
        _ => Err(shape_err()),
    }
}

/// A trade list: a JSON array of trades.
pub open spec fn spec_trades(v: JsonSpec) -> Option<Seq<Trade>> {
    match v {
        JsonSpec::Arr(es) => spec_list(es, f_trade()),
        _ => None,
    }
}

pub fn decode_trades(v: &JsonValue) -> (r: Result<Vec<Trade>, DecodeError>)
    ensures
        match r {
            Ok(ts) => spec_trades(v.dv()) == Some(ts@),
            Err(_) => spec_trades(v.dv()) is None,
        },
{
    match v {
        JsonValue::Arr(es) => {
            proof {
                lemma_dv_seq_props(es@);
            }
            let ghost dvs = dv_seq(es@);
            let mut out: Vec<Trade> = Vec::new();
            let mut i: usize = 0;
            proof {
                assert(dvs.subrange(0, 0) =~= Seq::<JsonSpec>::empty());
            }
            while i < es.len()
                invariant
                    i <= es@.len(),
                    dvs == dv_seq(es@),
                    dvs.len() == es@.len(),
                    forall|j: int| 0 <= j < es@.len() ==> dvs[j] == es@[j].dv(),
                    v.dv() == JsonSpec::Arr(dvs),
                    spec_list(dvs.subrange(0, i as int), f_trade()) == Some(out@),
                decreases es@.len() - i,
            {
                let ghost pre = dvs.subrange(0, i + 1 as int);
                proof {
                    assert(pre.subrange(0, pre.len() - 1) =~= dvs.subrange(0, i as int));
                }
                match decode_trade(&es[i]) {
                    Ok(t) => {
                        out.push(t);
                    },
                    Err(e) => {
                        proof {
                            lemma_list_prefix(dvs, f_trade(), i + 1);
                            assert(dvs.subrange(0, dvs.len() as int) =~= dvs);
                        }
                        return Err(e);
                    },
                }
                i = i + 1;
            }
            proof {
                assert(dvs.subrange(0, dvs.len() as int) =~= dvs);
            }
            Ok(out)
        },
        _ => Err(shape_err()),
    }
}

/// Every element of a decoded list decodes on its own.
pub proof fn lemma_list_all_some<T>(es: Seq<JsonSpec>, f: spec_fn(JsonSpec) -> Option<T>)
    ensures
        spec_list(es, f) is Some ==> forall|j: int|
            0 <= j < es.len() ==> (#[trigger] f(es[j])) is Some,
    decreases es.len(),
{
    if es.len() > 0 && spec_list(es, f) is Some {
        let pre = es.subrange(0, es.len() - 1);
        lemma_list_all_some(pre, f);
        assert forall|j: int| 0 <= j < es.len() implies (#[trigger] f(es[j])) is Some by {
            if j < es.len() - 1 {
                assert(pre[j] == es[j]);
            }
        }
    }
}

/// A candle value holding a JSON string in any of its six fields, in
/// either form.
pub open spec fn candle_has_string_field(c: JsonSpec) -> bool {
    match c {
        JsonSpec::Arr(es) => es.len() == 6 && exists|j: int|
            0 <= j < 6 && (#[trigger] es[j]) is Str,
        JsonSpec::Obj(m) => (jget(m, ab("time"@)) matches Some(x) && x is Str) || (jget(
            m,
            ab("low"@),
        ) matches Some(x) && x is Str) || (jget(m, ab("high"@)) matches Some(x) && x is Str) || (
        jget(m, ab("open"@)) matches Some(x) && x is Str) || (jget(m, ab("close"@)) matches Some(x)
            && x is Str) || (jget(m, ab("volume"@)) matches Some(x) && x is Str),
        _ => false,
    }
}

/// Law: candle fields are native numbers only. A JSON string in any of the
/// six fields fails the candle, in object or array form: the string
/// coercion of the other records never applies here.
pub proof fn lemma_candle_rejects_string_fields(c: JsonSpec)
    requires
        candle_has_string_field(c),
    ensures
        spec_candle(c) is None,
{
    if let JsonSpec::Arr(es) = c {
        let j = choose|j: int| 0 <= j < 6 && (#[trigger] es[j]) is Str;
        assert(j == 0 || j == 1 || j == 2 || j == 3 || j == 4 || j == 5);
    }
}

/// Law: one candle with a string field fails the whole candle list.
pub proof fn lemma_candles_reject_string_fields(v: JsonSpec, j: int)
    requires
        v matches JsonSpec::Arr(es) && 0 <= j < es.len() && candle_has_string_field(es[j]),
    ensures
        spec_candles(v) is None,
{
    if let JsonSpec::Arr(es) = v {
        lemma_candle_rejects_string_fields(es[j]);
        lemma_list_all_some(es, f_candle());
        assert(f_candle()(es[j]) is None);
    }
}

} // verus!
