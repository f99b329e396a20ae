//! JSON documents and their parser.
//!
//! Response bodies arrive as bytes and are parsed into `JsonValue` trees.
//! The grammar (objects, arrays, strings with escapes, numbers, literals,
//! interleaved whitespace) is stated by the `sp_*` specification functions;
//! the executable parser is proved to return exactly what they state.
//! Numbers are held as exact `Decimal` values; strings as their decoded
//! UTF-8 bytes.

use vstd::prelude::*;

use crate::num::{Decimal, spec_digit, digits_end, spec_dec_finish, lemma_digits_end,
    digits_end_exec, dec_finish};

verus! {

broadcast use vstd::std_specs::vec::group_vec_axioms, vstd::seq::group_seq_axioms;

/// A decoded JSON value.
#[derive(Debug, PartialEq)]
pub enum JsonValue {
    Null,
    Bool(bool),
    Num(Decimal),
    Str(Vec<u8>),
    Arr(Vec<JsonValue>),
    Obj(Vec<(Vec<u8>, JsonValue)>),
}

/// The mathematical shape of a JSON value, used by contracts.
pub enum JsonSpec {
    Null,
    Bool(bool),
    Num(Decimal),
    Str(Seq<u8>),
    Arr(Seq<JsonSpec>),
    Obj(Seq<(Seq<u8>, JsonSpec)>),
}

pub open spec fn dv_seq(a: Seq<JsonValue>) -> Seq<JsonSpec>
    decreases a,
{
    if a.len() == 0 {
        seq![]
    } else {
        dv_seq(a.subrange(0, a.len() - 1)).push(a[a.len() - 1].dv())
    }
}

pub open spec fn dv_members(m: Seq<(Vec<u8>, JsonValue)>) -> Seq<(Seq<u8>, JsonSpec)>
    decreases m,
{
    if m.len() == 0 {
        seq![]
    } else {
        dv_members(m.subrange(0, m.len() - 1)).push(
            (m[m.len() - 1].0@, m[m.len() - 1].1.dv()),
        )
    }
}

impl JsonValue {
    /// The mathematical value this tree holds.
    pub open spec fn dv(self) -> JsonSpec
        decreases self,
    {
        match self {
            JsonValue::Null => JsonSpec::Null,
            JsonValue::Bool(b) => JsonSpec::Bool(b),
            JsonValue::Num(d) => JsonSpec::Num(d),
            JsonValue::Str(s) => JsonSpec::Str(s@),
            JsonValue::Arr(a) => JsonSpec::Arr(dv_seq(a@)),
            JsonValue::Obj(m) => JsonSpec::Obj(dv_members(m@)),
        }
    }
}

pub open spec fn is_ws(c: u8) -> bool {
    c == 32 || c == 9 || c == 10 || c == 13
}

/// First index at or after `i` holding no whitespace.
pub open spec fn skip_ws(s: Seq<u8>, i: int) -> int
    decreases s.len() - i when 0 <= i <= s.len()
{
    if i < s.len() && is_ws(s[i]) {
        skip_ws(s, i + 1)
    } else {
        i
    }
}

pub open spec fn is_hex(c: u8) -> bool {
    spec_digit(c) || (97 <= c && c <= 102) || (65 <= c && c <= 70)
}

pub open spec fn hexv(c: u8) -> nat {
    if spec_digit(c) {
        (c - 48) as nat
    } else if 97 <= c && c <= 102 {
        (c - 87) as nat
    } else if 65 <= c && c <= 70 {
        (c - 55) as nat
    } else {
        0
    }
}

/// UTF-8 encoding of a code point.
pub open spec fn utf8_enc(cp: nat) -> Seq<u8> {
    if cp < 0x80 {
        seq![cp as u8]
    } else if cp < 0x800 {
        seq![(192 + cp / 64) as u8, (128 + cp % 64) as u8]
    } else if cp < 0x10000 {
        seq![(224 + cp / 4096) as u8, (128 + (cp / 64) % 64) as u8, (128 + cp % 64) as u8]
    } else {
        seq![
            (240 + cp / 262144) as u8,
            (128 + (cp / 4096) % 64) as u8,
            (128 + (cp / 64) % 64) as u8,
            (128 + cp % 64) as u8,
        ]
    }
}

/// Scans a string body starting just after the opening quote: yields the
/// decoded content bytes and the index just past the closing quote.
/// Escapes are decoded; an unpaired surrogate escape, a raw control
/// character or an unterminated string fails. Bytes at or above 0x20 other
/// than the quote and the backslash pass through unchanged: the content is
/// valid UTF-8 exactly when those input bytes are, and no separate
/// encoding check is made.
pub open spec fn scan_string(s: Seq<u8>, i: int) -> Option<(Seq<u8>, int)>
    decreases s.len() - i when 0 <= i <= s.len()
{
    if i >= s.len() {
        None
    } else {
        let c = s[i];
        if c == 34 {
            Some((seq![], i + 1))
        } else if c == 92 {
            if i + 1 >= s.len() {
                None
            } else {
                let e = s[i + 1];
                if e == 117 {
                    if i + 6 > s.len() {
                        None
                    } else if !(is_hex(s[i + 2]) && is_hex(s[i + 3]) && is_hex(s[i + 4])
                        && is_hex(s[i + 5])) {
                        None
                    } else {
                        let cp = hexv(s[i + 2]) * 4096 + hexv(s[i + 3]) * 256 + hexv(s[i + 4]) * 16
                            + hexv(s[i + 5]);
                        if 0xD800 <= cp && cp < 0xDC00 {
                            if i + 12 > s.len() {
                                None
                            } else if !(s[i + 6] == 92 && s[i + 7] == 117 && is_hex(s[i + 8])
                                && is_hex(s[i + 9]) && is_hex(s[i + 10]) && is_hex(s[i + 11])) {
                                None
                            } else {
                                let lo = hexv(s[i + 8]) * 4096 + hexv(s[i + 9]) * 256 + hexv(
                                    s[i + 10],
                                ) * 16 + hexv(s[i + 11]);
                                if !(0xDC00 <= lo && lo < 0xE000) {
                                    None
                                } else {
                                    let full = 0x10000 + (cp - 0xD800) * 1024 + (lo - 0xDC00);
                                    match scan_string(s, i + 12) {
                                        Some((t, e2)) => Some((utf8_enc(full as nat) + t, e2)),
                                        None => None,
                                    }
                                }
                            }
                        } else if 0xDC00 <= cp && cp < 0xE000 {
                            None
                        } else {
                            match scan_string(s, i + 6) {
                                Some((t, e2)) => Some((utf8_enc(cp) + t, e2)),
                                None => None,
                            }
                        }
                    }
                } else {
                    let b: Option<u8> = if e == 34 {
                        Some(34u8)
                    } else if e == 92 {
                        Some(92u8)
                    } else if e == 47 {
                        Some(47u8)
                    } else if e == 98 {
                        Some(8u8)
                    } else if e == 102 {
                        Some(12u8)
                    } else if e == 110 {
                        Some(10u8)
                    } else if e == 114 {
                        Some(13u8)
                    } else if e == 116 {
                        Some(9u8)
                    } else {
                        None
                    };
                    match b {
                        Some(bb) => match scan_string(s, i + 2) {
                            Some((t, e2)) => Some((seq![bb] + t, e2)),
                            None => None,
                        },
                        None => None,
                    }
                }
            }
        } else if c < 32 {
            None
        } else {
            match scan_string(s, i + 1) {
                Some((t, e2)) => Some((seq![c] + t, e2)),
                None => None,
            }
        }
    }
}

/// Scans a JSON number token at `i`: strict JSON grammar (optional minus,
/// integer part without leading zeros, optional fraction with at least one
/// digit, optional exponent), ending at the first byte past the token.
pub open spec fn spec_scan_number(s: Seq<u8>, i: int) -> Option<(Decimal, int)>
    recommends
        0 <= i <= s.len(),
{
    let neg = i < s.len() && s[i] == 45;
    let i1: int = if neg {
        i + 1
    } else {
        i
    };
    if i1 >= s.len() || !spec_digit(s[i1]) {
        None
    } else {
        let i2: int = if s[i1] == 48 {
            i1 + 1
        } else {
            digits_end(s, i1)
        };
        let has_dot = i2 < s.len() && s[i2] == 46;
        let f1: int = if has_dot {
            i2 + 1
        } else {
            i2
        };
        let f2: int = if has_dot {
            digits_end(s, i2 + 1)
        } else {
            i2
        };
        if has_dot && f2 == f1 {
            None
        } else if f2 < s.len() && (s[f2] == 101 || s[f2] == 69) {
            let eneg = f2 + 1 < s.len() && s[f2 + 1] == 45;
            let e1: int = if f2 + 1 < s.len() && (s[f2 + 1] == 45 || s[f2 + 1] == 43) {
                f2 + 2
            } else {
                f2 + 1
            };
            let e2 = digits_end(s, e1);
            if e2 == e1 {
                None
            } else {
                match spec_dec_finish(s, neg, i1, i2, f1, f2, eneg, e1, e2) {
                    Some(d) => Some((d, e2)),
                    None => None,
                }
            }
        } else {
            match spec_dec_finish(s, neg, i1, i2, f1, f2, false, i1, i1) {
                Some(d) => Some((d, f2)),
                None => None,
            }
        }
    }
}

/// Outcome of the fuelled parsing functions.
pub enum JParse {
    /// The input does not parse here.
    Fail,
    /// Parsed value and the index just past it.
    Done(JsonSpec, int),
    /// The fuel ran out before an answer was reached.
    Short,
}

/// Parses one JSON value whose first byte stands at `i` (no leading
/// whitespace).
pub open spec fn sp_value(s: Seq<u8>, i: int, fuel: nat) -> JParse
    decreases fuel,
{
    if fuel == 0 {
        JParse::Short
    } else if i < 0 || i >= s.len() {
        JParse::Fail
    } else {
        let c = s[i];
        if c == 110 {
            if i + 4 <= s.len() && s[i + 1] == 117 && s[i + 2] == 108 && s[i + 3] == 108 {
                JParse::Done(JsonSpec::Null, i + 4)
            } else {
                JParse::Fail
            }
        } else if c == 116 {
            if i + 4 <= s.len() && s[i + 1] == 114 && s[i + 2] == 117 && s[i + 3] == 101 {
                JParse::Done(JsonSpec::Bool(true), i + 4)
            } else {
                JParse::Fail
            }
        } else if c == 102 {
            if i + 5 <= s.len() && s[i + 1] == 97 && s[i + 2] == 108 && s[i + 3] == 115 && s[i + 4]
                == 101 {
                JParse::Done(JsonSpec::Bool(false), i + 5)
            } else {
                JParse::Fail
            }
        } else if c == 34 {
            match scan_string(s, i + 1) {
                Some((t, e)) => JParse::Done(JsonSpec::Str(t), e),
                None => JParse::Fail,
            }
        } else if c == 45 || spec_digit(c) {
            match spec_scan_number(s, i) {
                Some((d, e)) => JParse::Done(JsonSpec::Num(d), e),
                None => JParse::Fail,
            }
        } else if c == 91 {
            let j = skip_ws(s, i + 1);
            if j < s.len() && s[j] == 93 {
                JParse::Done(JsonSpec::Arr(seq![]), j + 1)
            } else {
                sp_elems(s, j, seq![], (fuel - 1) as nat)
            }
        } else if c == 123 {
            let j = skip_ws(s, i + 1);
            if j < s.len() && s[j] == 125 {
                JParse::Done(JsonSpec::Obj(seq![]), j + 1)
            } else {
                sp_members(s, j, seq![], (fuel - 1) as nat)
            }
        } else {
            JParse::Fail
        }
    }
}

/// Parses the elements of an array from the first byte of an element,
/// with the elements already read in `acc`.
pub open spec fn sp_elems(s: Seq<u8>, i: int, acc: Seq<JsonSpec>, fuel: nat) -> JParse
    decreases fuel,
{
    if fuel == 0 {
        JParse::Short
    } else {
        match sp_value(s, i, (fuel - 1) as nat) {
            JParse::Done(v, j) => {
                let k = skip_ws(s, j);
                if k < s.len() && s[k] == 44 {
                    sp_elems(s, skip_ws(s, k + 1), acc.push(v), (fuel - 1) as nat)
                } else if k < s.len() && s[k] == 93 {
                    JParse::Done(JsonSpec::Arr(acc.push(v)), k + 1)
                } else {
                    JParse::Fail
                }
            },
            r => r,
        }
    }
}

/// Parses the members of an object from the first byte of a key, with the
/// members already read in `acc`.
pub open spec fn sp_members(s: Seq<u8>, i: int, acc: Seq<(Seq<u8>, JsonSpec)>, fuel: nat) -> JParse
    decreases fuel,
{
    if fuel == 0 {
        JParse::Short
    } else if i < 0 || i >= s.len() || s[i] != 34 {
        JParse::Fail
    } else {
        match scan_string(s, i + 1) {
            None => JParse::Fail,
            Some((key, j)) => {
                let k = skip_ws(s, j);
                if !(k < s.len() && s[k] == 58) {
                    JParse::Fail
                } else {
                    match sp_value(s, skip_ws(s, k + 1), (fuel - 1) as nat) {
                        JParse::Done(v, j2) => {
                            let k2 = skip_ws(s, j2);
                            if k2 < s.len() && s[k2] == 44 {
                                sp_members(s, skip_ws(s, k2 + 1), acc.push((key, v)), (fuel - 1) as nat)
                            } else if k2 < s.len() && s[k2] == 125 {
                                JParse::Done(JsonSpec::Obj(acc.push((key, v))), k2 + 1)
                            } else {
                                JParse::Fail
                            }
                        },
                        r => r,
                    }
                }
            },
        }
    }
}

/// A whole document: one value, surrounded by whitespace, nothing trailing.
pub open spec fn spec_json_doc(s: Seq<u8>) -> Option<JsonSpec> {
    match sp_value(s, skip_ws(s, 0), (2 * s.len() + 2) as nat) {
        JParse::Done(v, j) => if skip_ws(s, j) == s.len() {
            Some(v)
        } else {
            None
        },
        _ => None,
    }
}

pub proof fn lemma_dv_seq_push(a: Seq<JsonValue>, x: JsonValue)
    ensures
        dv_seq(a.push(x)) == dv_seq(a).push(x.dv()),
{
    assert(a.push(x).subrange(0, a.push(x).len() - 1) =~= a);
}

pub proof fn lemma_dv_members_push(m: Seq<(Vec<u8>, JsonValue)>, k: Vec<u8>, x: JsonValue)
    ensures
        dv_members(m.push((k, x))) == dv_members(m).push((k@, x.dv())),
{
    assert(m.push((k, x)).subrange(0, m.push((k, x)).len() - 1) =~= m);
}

/// The deep view of a sequence of values, element by element.
pub proof fn lemma_dv_seq_props(a: Seq<JsonValue>)
    ensures
        dv_seq(a).len() == a.len(),
        forall|i: int| 0 <= i < a.len() ==> dv_seq(a)[i] == a[i].dv(),
    decreases a.len(),
{
    if a.len() > 0 {
        lemma_dv_seq_props(a.subrange(0, a.len() - 1));
        assert forall|i: int| 0 <= i < a.len() implies dv_seq(a)[i] == a[i].dv() by {
            if i < a.len() - 1 {
                assert(a.subrange(0, a.len() - 1)[i] == a[i]);
            }
        }
    }
}

/// The deep view of a member list, member by member.
pub proof fn lemma_dv_members_props(m: Seq<(Vec<u8>, JsonValue)>)
    ensures
        dv_members(m).len() == m.len(),
        forall|i: int| 0 <= i < m.len() ==> dv_members(m)[i] == (m[i].0@, m[i].1.dv()),
    decreases m.len(),
{
    if m.len() > 0 {
        lemma_dv_members_props(m.subrange(0, m.len() - 1));
        assert forall|i: int| 0 <= i < m.len() implies dv_members(m)[i] == (m[i].0@, m[i].1.dv()) by {
            if i < m.len() - 1 {
                assert(m.subrange(0, m.len() - 1)[i] == m[i]);
            }
        }
    }
}

/// What the executable parser hands back, as the grammar states it.
pub open spec fn jres(r: Option<(JsonValue, usize)>) -> JParse {
    match r {
        Option::None => JParse::Fail,
        Option::Some((v, j)) => JParse::Done(v.dv(), j as int),
    }
}

/// First index at or after `i` holding no whitespace.
pub fn skip_ws_exec(s: &Vec<u8>, i: usize) -> (r: usize)
    requires
        i <= s@.len(),
    ensures
        r == skip_ws(s@, i as int),
        i <= r <= s@.len(),
{
    let mut k = i;
    while k < s.len() && (s[k] == 32 || s[k] == 9 || s[k] == 10 || s[k] == 13)
        invariant
            i <= k <= s@.len(),
            skip_ws(s@, i as int) == skip_ws(s@, k as int),
        decreases s@.len() - k,
    {
        k = k + 1;
    }
    k
}

pub fn hex_digit(c: u8) -> (r: Option<u8>)
    ensures
        r matches Some(h) ==> is_hex(c) && h as nat == hexv(c) && h < 16,
        r is None ==> !is_hex(c),
{
    if 48 <= c && c <= 57 {
        Some(c - 48)
    } else if 97 <= c && c <= 102 {
        Some(c - 87)
    } else if 65 <= c && c <= 70 {
        Some(c - 55)
    } else {
        None
    }
}

/// Appends the UTF-8 encoding of a code point.
fn push_utf8(out: &mut Vec<u8>, cp: u32)
    requires
        cp < 0x110000,
    ensures
        final(out)@ == old(out)@ + utf8_enc(cp as nat),
{
    if cp < 0x80 {
        out.push(cp as u8);
        assert(out@ =~= old(out)@ + utf8_enc(cp as nat));
    } else if cp < 0x800 {
        out.push((192 + cp / 64) as u8);
        out.push((128 + cp % 64) as u8);
        assert(out@ =~= old(out)@ + utf8_enc(cp as nat));
    } else if cp < 0x10000 {
        out.push((224 + cp / 4096) as u8);
        out.push((128 + (cp / 64) % 64) as u8);
        out.push((128 + cp % 64) as u8);
        assert(out@ =~= old(out)@ + utf8_enc(cp as nat));
    } else {
        out.push((240 + cp / 262144) as u8);
        out.push((128 + (cp / 4096) % 64) as u8);
        out.push((128 + (cp / 64) % 64) as u8);
        out.push((128 + cp % 64) as u8);
        assert(out@ =~= old(out)@ + utf8_enc(cp as nat));
    }
}

/// Reads a string body starting just after the opening quote, exactly as
/// `scan_string` states.
#[verifier::rlimit(100)]
fn parse_string(s: &Vec<u8>, i: usize) -> (r: Option<(Vec<u8>, usize)>)
    requires
        i <= s@.len(),
    ensures
        match r {
            Some((v, j)) => scan_string(s@, i as int) == Some((v@, j as int)) && i < j <= s@.len(),
            None => scan_string(s@, i as int) is None,
        },
{
    let mut out: Vec<u8> = Vec::new();
    let mut k = i;
    proof {
        assert(out@ + Seq::<u8>::empty() =~= out@);
    }
    loop
        invariant
            i <= k <= s@.len(),
            match scan_string(s@, k as int) {
                Some((t, e)) => scan_string(s@, i as int) == Some((out@ + t, e)),
                None => scan_string(s@, i as int) is None,
            },
        decreases s@.len() - k,
    {
        if k >= s.len() {
            return None;
        }
        let c = s[k];
        if c == 34 {
            proof {
                assert(scan_string(s@, k as int) == Some((Seq::<u8>::empty(), k + 1 as int)));
                assert(out@ + Seq::<u8>::empty() =~= out@);
            }
            return Some((out, k + 1));
        } else if c == 92 {
            if k + 1 >= s.len() {
                return None;
            }
            let e = s[k + 1];
            if e == 117 {
                if s.len() - k < 6 {
                    return None;
                }
                let h2 = hex_digit(s[k + 2]);
                let h3 = hex_digit(s[k + 3]);
                let h4 = hex_digit(s[k + 4]);
                let h5 = hex_digit(s[k + 5]);
                if h2.is_none() || h3.is_none() || h4.is_none() || h5.is_none() {
                    return None;
                }
                let cp: u32 = (h2.unwrap() as u32) * 4096 + (h3.unwrap() as u32) * 256
                    + (h4.unwrap() as u32) * 16 + (h5.unwrap() as u32);
                if 0xD800 <= cp && cp < 0xDC00 {
                    if s.len() - k < 12 {
                        return None;
                    }
                    if !(s[k + 6] == 92 && s[k + 7] == 117) {
                        return None;
                    }
                    let l2 = hex_digit(s[k + 8]);
                    let l3 = hex_digit(s[k + 9]);
                    let l4 = hex_digit(s[k + 10]);
                    let l5 = hex_digit(s[k + 11]);
                    if l2.is_none() || l3.is_none() || l4.is_none() || l5.is_none() {
                        return None;
                    }
                    let lo: u32 = (l2.unwrap() as u32) * 4096 + (l3.unwrap() as u32) * 256
                        + (l4.unwrap() as u32) * 16 + (l5.unwrap() as u32);
                    if !(0xDC00 <= lo && lo < 0xE000) {
                        return None;
                    }
                    let full: u32 = 0x10000 + (cp - 0xD800) * 1024 + (lo - 0xDC00);
                    let ghost out0 = out@;
                    push_utf8(&mut out, full);
                    proof {
                        if let Some((t2, e2)) = scan_string(s@, k + 12 as int) {
                            assert(out0 + (utf8_enc(full as nat) + t2) =~= (out0 + utf8_enc(
                                full as nat,
                            )) + t2);
                        }
                    }
                    k = k + 12;
                } else if 0xDC00 <= cp && cp < 0xE000 {
                    return None;
                } else {
                    let ghost out0 = out@;
                    push_utf8(&mut out, cp);
                    proof {
                        if let Some((t2, e2)) = scan_string(s@, k + 6 as int) {
                            assert(out0 + (utf8_enc(cp as nat) + t2) =~= (out0 + utf8_enc(
                                cp as nat,
                            )) + t2);
                        }
                    }
                    k = k + 6;
                }
            } else {
                let bb: u8 = if e == 34 {
                    34
                } else if e == 92 {
                    92
                } else if e == 47 {
                    47
                } else if e == 98 {
                    8
                } else if e == 102 {
                    12
                } else if e == 110 {
                    10
                } else if e == 114 {
                    13
                } else if e == 116 {
                    9
                } else {
                    return None;
                };
                let ghost out0 = out@;
                out.push(bb);
                proof {
                    if let Some((t2, e2)) = scan_string(s@, k + 2 as int) {
                        assert(out0 + (seq![bb] + t2) =~= (out0 + seq![bb]) + t2);
                        assert(out@ =~= out0 + seq![bb]);
                    }
                }
                k = k + 2;
            }
        } else if c < 32 {
            return None;
        } else {
            let ghost out0 = out@;
            out.push(c);
            proof {
                if let Some((t2, e2)) = scan_string(s@, k + 1 as int) {
                    assert(out0 + (seq![c] + t2) =~= (out0 + seq![c]) + t2);
                    assert(out@ =~= out0 + seq![c]);
                }
            }
            k = k + 1;
        }
    }
}

/// Reads a number token, exactly as `spec_scan_number` states.
#[verifier::rlimit(100)]
fn parse_number(s: &Vec<u8>, i: usize) -> (r: Option<(Decimal, usize)>)
    requires
        i <= s@.len(),
    ensures
        match r {
            Some((d, j)) => spec_scan_number(s@, i as int) == Some((d, j as int)) && i < j
                <= s@.len(),
            None => spec_scan_number(s@, i as int) is None,
        },
{
    let n = s.len();
    let neg = i < n && s[i] == 45;
    let i1 = if neg {
        i + 1
    } else {
        i
    };
    if i1 >= n || !(48 <= s[i1] && s[i1] <= 57) {
        return None;
    }
    let i2 = if s[i1] == 48 {
        i1 + 1
    } else {
        digits_end_exec(s, i1)
    };
    proof {
        lemma_digits_end(s@, i1 as int);
    }
    let has_dot = i2 < n && s[i2] == 46;
    let f1: usize = if has_dot {
        i2 + 1
    } else {
        i2
    };
    let f2: usize = if has_dot {
        digits_end_exec(s, i2 + 1)
    } else {
        i2
    };
    proof {
        if has_dot {
            lemma_digits_end(s@, i2 + 1 as int);
        }
    }
    if has_dot && f2 == f1 {
        return None;
    }
    if f2 < n && (s[f2] == 101 || s[f2] == 69) {
        let eneg = f2 + 1 < n && s[f2 + 1] == 45;
        let e1: usize = if f2 + 1 < n && (s[f2 + 1] == 45 || s[f2 + 1] == 43) {
            f2 + 2
        } else {
            f2 + 1
        };
        let e2 = digits_end_exec(s, e1);
        if e2 == e1 {
            return None;
        }
        proof {
            lemma_digits_end(s@, e1 as int);
        }
        match dec_finish(s, neg, i1, i2, f1, f2, eneg, e1, e2) {
            Some(d) => Some((d, e2)),
            None => None,
        }
    } else {
        match dec_finish(s, neg, i1, i2, f1, f2, false, i1, i1) {
            Some(d) => Some((d, f2)),
            None => None,
        }
    }
}

/// Parses one JSON value whose first byte stands at `i`, exactly as
/// `sp_value` states for every sufficient fuel.
#[verifier::rlimit(100)]
fn parse_value(s: &Vec<u8>, i: usize) -> (r: Option<(JsonValue, usize)>)
    requires
        i <= s@.len(),
    ensures
        forall|fuel: nat|
            fuel >= 2 * (s@.len() - i) + 1 ==> sp_value(s@, i as int, fuel) == jres(r),
        r matches Some((v, j)) ==> i < j <= s@.len(),
    decreases s@.len() - i, 0int,
{
    let n = s.len();
    if i >= n {
        return None;
    }
    let c = s[i];
    if c == 110 {
        if n - i >= 4 && s[i + 1] == 117 && s[i + 2] == 108 && s[i + 3] == 108 {
            Some((JsonValue::Null, i + 4))
        } else {
            None
        }
    } else if c == 116 {
        if n - i >= 4 && s[i + 1] == 114 && s[i + 2] == 117 && s[i + 3] == 101 {
            Some((JsonValue::Bool(true), i + 4))
        } else {
            None
        }
    } else if c == 102 {
        if n - i >= 5 && s[i + 1] == 97 && s[i + 2] == 108 && s[i + 3] == 115 && s[i + 4] == 101 {
            Some((JsonValue::Bool(false), i + 5))
        } else {
            None
        }
    } else if c == 34 {
        match parse_string(s, i + 1) {
            Some((v, j)) => Some((JsonValue::Str(v), j)),
            None => None,
        }
    } else if c == 45 || (48 <= c && c <= 57) {
        match parse_number(s, i) {
            Some((d, j)) => Some((JsonValue::Num(d), j)),
            None => None,
        }
    } else if c == 91 {
        let j = skip_ws_exec(s, i + 1);
        if j < n && s[j] == 93 {
            let out = Some((JsonValue::Arr(Vec::new()), j + 1));
            proof {
                assert(dv_seq(Seq::<JsonValue>::empty()) =~= Seq::<JsonSpec>::empty());
            }
            out
        } else {
            let acc: Vec<JsonValue> = Vec::new();
            let ghost acc0 = acc@;
            let r = parse_elems(s, j, acc);
            proof {
                assert(dv_seq(acc0) =~= Seq::<JsonSpec>::empty());
                assert forall|fuel: nat|
                    fuel >= 2 * (s@.len() - i) + 1 implies sp_value(s@, i as int, fuel) == jres(r) by {
                    let f1 = (fuel - 1) as nat;
                    assert(f1 >= 2 * (s@.len() - j) + 2);
                    assert(sp_elems(s@, j as int, dv_seq(acc0), f1) == jres(r));
                };
            }
            r
        }
    } else if c == 123 {
        let j = skip_ws_exec(s, i + 1);
        if j < n && s[j] == 125 {
            let out = Some((JsonValue::Obj(Vec::new()), j + 1));
            proof {
                assert(dv_members(Seq::<(Vec<u8>, JsonValue)>::empty()) =~= Seq::<(
                    Seq<u8>,
                    JsonSpec,
                )>::empty());
            }
            out
        } else {
            let acc: Vec<(Vec<u8>, JsonValue)> = Vec::new();
            let ghost acc0 = acc@;
            let r = parse_members(s, j, acc);
            proof {
                assert(dv_members(acc0) =~= Seq::<(Seq<u8>, JsonSpec)>::empty());
                assert forall|fuel: nat|
                    fuel >= 2 * (s@.len() - i) + 1 implies sp_value(s@, i as int, fuel) == jres(r) by {
                    let f1 = (fuel - 1) as nat;
                    assert(f1 >= 2 * (s@.len() - j) + 2);
                    assert(sp_members(s@, j as int, dv_members(acc0), f1) == jres(r));
                };
            }
            r
        }
    } else {
        None
    }
}

/// Parses the elements of an array from the first byte of an element,
/// exactly as `sp_elems` states.
#[verifier::rlimit(100)]
fn parse_elems(s: &Vec<u8>, i: usize, acc: Vec<JsonValue>) -> (r: Option<(JsonValue, usize)>)
    requires
        i <= s@.len(),
    ensures
        forall|fuel: nat|
            fuel >= 2 * (s@.len() - i) + 2 ==> sp_elems(s@, i as int, dv_seq(acc@), fuel) == jres(
                r,
            ),
        r matches Some((v, j)) ==> i < j <= s@.len(),
    decreases s@.len() - i, 1int,
{
    let ghost acc0 = acc@;
    match parse_value(s, i) {
        None => {
            proof {
                assert forall|fuel: nat|
                    fuel >= 2 * (s@.len() - i) + 2 implies sp_elems(
                    s@,
                    i as int,
                    dv_seq(acc0),
                    fuel,
                ) == jres(Option::<(JsonValue, usize)>::None) by {
                    assert(sp_value(s@, i as int, (fuel - 1) as nat) == JParse::Fail);
                };
            }
            None
        },
        Some((v, j)) => {
            let ghost v0: JsonValue = v;
            let k = skip_ws_exec(s, j);
            if k < s.len() && s[k] == 44 {
                let k2 = skip_ws_exec(s, k + 1);
                let mut acc2 = acc;
                acc2.push(v);
                let ghost acc2v = acc2@;
                let r = parse_elems(s, k2, acc2);
                proof {
                    lemma_dv_seq_push(acc0, v0);
                    assert forall|fuel: nat|
                        fuel >= 2 * (s@.len() - i) + 2 implies sp_elems(
                        s@,
                        i as int,
                        dv_seq(acc0),
                        fuel,
                    ) == jres(r) by {
                        let f1 = (fuel - 1) as nat;
                        assert(sp_value(s@, i as int, f1) == JParse::Done(v0.dv(), j as int));
                        assert(f1 >= 2 * (s@.len() - k2) + 2);
                        assert(sp_elems(s@, k2 as int, dv_seq(acc2v), f1) == jres(r));
                    };
                }
                r
            } else if k < s.len() && s[k] == 93 {
                let mut acc2 = acc;
                acc2.push(v);
                let ghost acc2v = acc2@;
                let out = Some((JsonValue::Arr(acc2), k + 1));
                proof {
                    lemma_dv_seq_push(acc0, v0);
                    assert forall|fuel: nat|
                        fuel >= 2 * (s@.len() - i) + 2 implies sp_elems(
                        s@,
                        i as int,
                        dv_seq(acc0),
                        fuel,
                    ) == jres(out) by {
                        assert(sp_value(s@, i as int, (fuel - 1) as nat) == JParse::Done(
                            v0.dv(),
                            j as int,
                        ));
                    };
                }
                out
            } else {
                proof {
                    assert forall|fuel: nat|
                        fuel >= 2 * (s@.len() - i) + 2 implies sp_elems(
                        s@,
                        i as int,
                        dv_seq(acc0),
                        fuel,
                    ) == jres(Option::<(JsonValue, usize)>::None) by {
                        assert(sp_value(s@, i as int, (fuel - 1) as nat) == JParse::Done(
                            v0.dv(),
                            j as int,
                        ));
                    };
                }
                None
            }
        },
    }
}

/// Parses the members of an object from the first byte of a key, exactly
/// as `sp_members` states.
#[verifier::rlimit(100)]
fn parse_members(s: &Vec<u8>, i: usize, acc: Vec<(Vec<u8>, JsonValue)>) -> (r: Option<
    (JsonValue, usize),
>)
    requires
        i <= s@.len(),
    ensures
        forall|fuel: nat|
            fuel >= 2 * (s@.len() - i) + 2 ==> sp_members(
                s@,
                i as int,
                dv_members(acc@),
                fuel,
            ) == jres(r),
        r matches Some((v, j)) ==> i < j <= s@.len(),
    decreases s@.len() - i, 1int,
{
    let ghost acc0 = acc@;
    let n = s.len();
    if i >= n || s[i] != 34 {
        return None;
    }
    match parse_string(s, i + 1) {
        None => None,
        Some((key, j)) => {
            let ghost key0: Vec<u8> = key;
            let k = skip_ws_exec(s, j);
            if !(k < n && s[k] == 58) {
                return None;
            }
            let j1 = skip_ws_exec(s, k + 1);
            match parse_value(s, j1) {
                None => {
                    proof {
                        assert forall|fuel: nat|
                            fuel >= 2 * (s@.len() - i) + 2 implies sp_members(
                            s@,
                            i as int,
                            dv_members(acc0),
                            fuel,
                        ) == jres(Option::<(JsonValue, usize)>::None) by {
                            assert(sp_value(s@, j1 as int, (fuel - 1) as nat) == JParse::Fail);
                        };
                    }
                    None
                },
                Some((v, j2)) => {
                    let ghost v0: JsonValue = v;
                    let k2 = skip_ws_exec(s, j2);
                    if k2 < n && s[k2] == 44 {
                        let k3 = skip_ws_exec(s, k2 + 1);
                        let mut acc2 = acc;
                        acc2.push((key, v));
                        let ghost acc2v = acc2@;
                        let r = parse_members(s, k3, acc2);
                        proof {
                            lemma_dv_members_push(acc0, key0, v0);
                            assert forall|fuel: nat|
                                fuel >= 2 * (s@.len() - i) + 2 implies sp_members(
                                s@,
                                i as int,
                                dv_members(acc0),
                                fuel,
                            ) == jres(r) by {
                                let f1 = (fuel - 1) as nat;
                                assert(sp_value(s@, j1 as int, f1) == JParse::Done(
                                    v0.dv(),
                                    j2 as int,
                                ));
                                assert(f1 >= 2 * (s@.len() - k3) + 2);
                                assert(sp_members(s@, k3 as int, dv_members(acc2v), f1) == jres(r));
                            };
                        }
                        r
                    } else if k2 < n && s[k2] == 125 {
                        let mut acc2 = acc;
                        acc2.push((key, v));
                        let ghost acc2v = acc2@;
                        let out = Some((JsonValue::Obj(acc2), k2 + 1));
                        proof {
                            lemma_dv_members_push(acc0, key0, v0);
                            assert forall|fuel: nat|
                                fuel >= 2 * (s@.len() - i) + 2 implies sp_members(
                                s@,
                                i as int,
                                dv_members(acc0),
                                fuel,
                            ) == jres(out) by {
                                assert(sp_value(s@, j1 as int, (fuel - 1) as nat) == JParse::Done(
                                    v0.dv(),
                                    j2 as int,
                                ));
                            };
                        }
                        out
                    } else {
                        proof {
                            assert forall|fuel: nat|
                                fuel >= 2 * (s@.len() - i) + 2 implies sp_members(
                                s@,
                                i as int,
                                dv_members(acc0),
                                fuel,
                            ) == jres(Option::<(JsonValue, usize)>::None) by {
                                assert(sp_value(s@, j1 as int, (fuel - 1) as nat) == JParse::Done(
                                    v0.dv(),
                                    j2 as int,
                                ));
                            };
                        }
                        None
                    }
                },
            }
        },
    }
}

/// Parses a whole document, exactly as `spec_json_doc` states.
pub fn parse_json(s: &Vec<u8>) -> (r: Option<JsonValue>)
    ensures
        match r {
            Some(v) => spec_json_doc(s@) == Some(v.dv()),
            None => spec_json_doc(s@) is None,
        },
{
    let i = skip_ws_exec(s, 0);
    let res = parse_value(s, i);
    proof {
        assert(sp_value(s@, i as int, (2 * s@.len() + 2) as nat) == jres(res));
    }
    match res {
        None => None,
        Some((v, j)) => {
            let k = skip_ws_exec(s, j);
            if k == s.len() {
                Some(v)
            } else {
                None
            }
        },
    }
}

} // verus!
