//! Decimal numbers as parsed from their textual form.
//!
//! Exchange payloads carry prices and sizes as decimal strings; this module
//! holds the exact decimal value they denote as a sign, an integer mantissa
//! and a power-of-ten exponent, and parses the permissive textual grammar
//! (optional sign, digits, optional fraction, optional exponent) that such
//! fields use.

use vstd::prelude::*;

verus! {

/// A decimal number: `(-1 if neg else 1) * mant * 10^exp`.
#[derive(Clone, Copy, Debug, PartialEq, Eq, Structural)]
pub struct Decimal {
    pub neg: bool,
    pub mant: u64,
    pub exp: i64,
}

pub open spec fn spec_digit(c: u8) -> bool {
    48 <= c && c <= 57
}

/// First index at or after `i` that does not hold an ASCII digit.
pub open spec fn digits_end(s: Seq<u8>, i: int) -> int
    decreases s.len() - i when 0 <= i <= s.len()
{
    if i < s.len() && spec_digit(s[i]) {
        digits_end(s, i + 1)
    } else {
        i
    }
}

pub proof fn lemma_digits_end(s: Seq<u8>, i: int)
    requires
        0 <= i <= s.len(),
    ensures
        i <= digits_end(s, i) <= s.len(),
        forall|k: int| i <= k < digits_end(s, i) ==> spec_digit(s[k]),
        digits_end(s, i) < s.len() ==> !spec_digit(s[digits_end(s, i)]),
    decreases s.len() - i,
{
    if i < s.len() && spec_digit(s[i]) {
        lemma_digits_end(s, i + 1);
    }
}

/// Value of the digit run `s[i..j)` appended to an accumulator already
/// holding the more significant digits.
pub open spec fn acc_val(acc: nat, s: Seq<u8>, i: int, j: int) -> nat
    decreases j - i when i <= j
{
    if i >= j {
        acc
    } else {
        acc_val(acc * 10 + (s[i] - 48) as nat, s, i + 1, j)
    }
}

/// What remains of the permissive decimal token once its spans are known:
/// mantissa from the integer and fraction digits, exponent from the
/// exponent digits minus the fraction length. Out-of-range tokens are
/// rejected.
pub open spec fn spec_dec_finish(
    s: Seq<u8>,
    neg: bool,
    i1: int,
    i2: int,
    f1: int,
    f2: int,
    eneg: bool,
    e1: int,
    e2: int,
) -> Option<Decimal> {
    let m = acc_val(acc_val(0, s, i1, i2), s, f1, f2);
    let ev = acc_val(0, s, e1, e2);
    if m > u64::MAX || ev > 999_999_999 || f2 - f1 > 999_999_999 {
        None
    } else {
        let ex = (if eneg {
            -(ev as int)
        } else {
            ev as int
        }) - (f2 - f1);
        Some(Decimal { neg, mant: m as u64, exp: ex as i64 })
    }
}

/// The permissive decimal grammar used for string-encoded numeric fields:
/// `[+-]? digits* ('.' digits*)? ([eE] [+-]? digits+)?`, with at least one
/// digit in the integer or fraction part, and nothing trailing.
pub open spec fn spec_parse_dec(s: Seq<u8>) -> Option<Decimal> {
    if s.len() == 0 {
        None
    } else {
        let neg = s[0] == 45;
        let i1: int = if s[0] == 45 || s[0] == 43 {
            1
        } else {
            0
        };
        let i2 = digits_end(s, i1);
        let has_dot = i2 < s.len() && s[i2] == 46;
        let f1: int = if has_dot {
            i2 + 1
        } else {
            i2
        };
        let f2: int = if has_dot {
            digits_end(s, i2 + 1)
        } else {
            i2
        };
        if i2 - i1 == 0 && f2 - f1 == 0 {
            None
        } else if f2 < s.len() && (s[f2] == 101 || s[f2] == 69) {
            let eneg = f2 + 1 < s.len() && s[f2 + 1] == 45;
            let e1: int = if f2 + 1 < s.len() && (s[f2 + 1] == 45 || s[f2 + 1] == 43) {
                f2 + 2
            } else {
                f2 + 1
            };
            let e2 = digits_end(s, e1);
            if e2 == e1 || e2 != s.len() {
                None
            } else {
                spec_dec_finish(s, neg, i1, i2, f1, f2, eneg, e1, e2)
            }
        } else if f2 != s.len() {
            None
        } else {
            spec_dec_finish(s, neg, i1, i2, f1, f2, false, 0, 0)
        }
    }
}

/// First index at or after `i` in `s` that holds no ASCII digit.
pub fn digits_end_exec(s: &Vec<u8>, i: usize) -> (r: usize)
    requires
        i <= s@.len(),
    ensures
        r == digits_end(s@, i as int),
        i <= r <= s@.len(),
{
    let mut k = i;
    while k < s.len() && 48 <= s[k] && s[k] <= 57
        invariant
            i <= k <= s@.len(),
            digits_end(s@, i as int) == digits_end(s@, k as int),
        decreases s@.len() - k,
    {
        k = k + 1;
    }
    proof {
        lemma_digits_end(s@, k as int);
    }
    k
}

/// Any digit run only grows the accumulated value.
pub proof fn lemma_acc_val_ge(acc: nat, s: Seq<u8>, i: int, j: int)
    requires
        i <= j,
    ensures
        acc_val(acc, s, i, j) >= acc,
    decreases j - i,
{
    if i < j {
        lemma_acc_val_ge(acc * 10 + (s[i] - 48) as nat, s, i + 1, j);
    }
}

/// Accumulates the digit run `s[a..b)` on top of `acc0`, reporting whether
/// the exact value exceeds `u64::MAX`.
fn span_acc(s: &Vec<u8>, a: usize, b: usize, acc0: u64, over0: bool) -> (r: (u64, bool))
    requires
        a <= b <= s@.len(),
        forall|k: int| a <= k < b ==> spec_digit(s@[k]),
    ensures
        over0 ==> r.1,
        !over0 && !r.1 ==> r.0 as nat == acc_val(acc0 as nat, s@, a as int, b as int),
        !over0 && r.1 ==> acc_val(acc0 as nat, s@, a as int, b as int) > u64::MAX,
{
    let mut acc = acc0;
    let mut over = over0;
    let mut k = a;
    let ghost mut g: nat = acc0 as nat;
    while k < b
        invariant
            a <= k <= b <= s@.len(),
            forall|j: int| a <= j < b ==> spec_digit(s@[j]),
            acc_val(g, s@, k as int, b as int) == acc_val(acc0 as nat, s@, a as int, b as int),
            !over ==> acc as nat == g,
            !over0 && over ==> g > u64::MAX,
            over0 ==> over,
        decreases b - k,
    {
        let d = s[k] - 48;
        proof {
            assert(spec_digit(s@[k as int]));
            g = g * 10 + (s@[k as int] - 48) as nat;
        }
        if !over {
            if acc > 1844674407370955161u64 || (acc == 1844674407370955161u64 && d > 5) {
                over = true;
            } else {
                acc = acc * 10 + d as u64;
            }
        }
        k = k + 1;
    }
    (acc, over)
}

/// Parses a permissive decimal token, exactly as `spec_parse_dec` states.
pub fn parse_decimal(s: &Vec<u8>) -> (r: Option<Decimal>)
    ensures
        r == spec_parse_dec(s@),
{
    let n = s.len();
    if n == 0 {
        return None;
    }
    let neg = s[0] == 45;
    let i1: usize = if s[0] == 45 || s[0] == 43 {
        1
    } else {
        0
    };
    let i2 = digits_end_exec(s, i1);
    let has_dot = i2 < n && s[i2] == 46;
    let f1: usize = if has_dot {
        i2 + 1
    } else {
        i2
    };
    let f2: usize = if has_dot {
        digits_end_exec(s, i2 + 1)
    } else {
        i2
    };
    if i2 - i1 == 0 && f2 - f1 == 0 {
        return None;
    }
    proof {
        lemma_digits_end(s@, i1 as int);
        if has_dot {
            lemma_digits_end(s@, i2 + 1 as int);
        }
    }
    if f2 < n && (s[f2] == 101 || s[f2] == 69) {
        let eneg = f2 + 1 < n && s[f2 + 1] == 45;
        let e1: usize = if f2 + 1 < n && (s[f2 + 1] == 45 || s[f2 + 1] == 43) {
            f2 + 2
        } else {
            f2 + 1
        };
        let e2 = digits_end_exec(s, e1);
        if e2 == e1 || e2 != n {
            return None;
        }
        proof {
            lemma_digits_end(s@, e1 as int);
        }
        dec_finish(s, neg, i1, i2, f1, f2, eneg, e1, e2)
    } else if f2 != n {
        None
    } else {
        dec_finish(s, neg, i1, i2, f1, f2, false, 0, 0)
    }
}

pub(crate) fn dec_finish(
    s: &Vec<u8>,
    neg: bool,
    i1: usize,
    i2: usize,
    f1: usize,
    f2: usize,
    eneg: bool,
    e1: usize,
    e2: usize,
) -> (r: Option<Decimal>)
    requires
        i1 <= i2 <= s@.len(),
        f1 <= f2 <= s@.len(),
        e1 <= e2 <= s@.len(),
        forall|k: int| i1 <= k < i2 ==> spec_digit(s@[k]),
        forall|k: int| f1 <= k < f2 ==> spec_digit(s@[k]),
        forall|k: int| e1 <= k < e2 ==> spec_digit(s@[k]),
    ensures
        r == spec_dec_finish(s@, neg, i1 as int, i2 as int, f1 as int, f2 as int, eneg, e1 as int, e2 as int),
{
    let (m1, o1) = span_acc(s, i1, i2, 0, false);
    let (m, o) = span_acc(s, f1, f2, m1, o1);
    let (ev, eo) = span_acc(s, e1, e2, 0, false);
    proof {
        if o1 {
            lemma_acc_val_ge(acc_val(0, s@, i1 as int, i2 as int), s@, f1 as int, f2 as int);
        }
    }
    if o || eo || ev > 999_999_999 || f2 - f1 > 999_999_999 {
        None
    } else {
        let fl = (f2 - f1) as u64;
        let evi: i64 = ev as i64;
        let ex: i64 = (if eneg {
            -evi
        } else {
            evi
        }) - (fl as i64);
        Some(Decimal { neg, mant: m, exp: ex })
    }
}

/// Powers of ten.
pub open spec fn pow10(n: nat) -> nat
    decreases n,
{
    if n == 0 {
        1
    } else {
        10 * pow10((n - 1) as nat)
    }
}

pub proof fn lemma_pow10_mono(a: nat, b: nat)
    requires
        a <= b,
    ensures
        pow10(a) <= pow10(b),
    decreases b,
{
    if a < b {
        lemma_pow10_mono(a, (b - 1) as nat);
    }
}

/// The magnitude of a decimal scaled onto the grid of exponent `m`.
pub open spec fn dec_mag(d: Decimal, m: int) -> nat
    recommends
        m <= d.exp,
{
    (d.mant as nat) * pow10((d.exp - m) as nat)
}

/// The integer a decimal denotes once scaled onto the grid of `m`.
pub open spec fn dec_scaled(d: Decimal, m: int) -> int
    recommends
        m <= d.exp,
{
    if d.neg {
        -(dec_mag(d, m) as int)
    } else {
        dec_mag(d, m) as int
    }
}

/// Numeric order of two decimals: both are scaled onto the finer of the
/// two exponents, where their order is the order of two integers.
pub open spec fn dec_le(a: Decimal, b: Decimal) -> bool {
    let m: int = if a.exp <= b.exp {
        a.exp as int
    } else {
        b.exp as int
    };
    dec_scaled(a, m) <= dec_scaled(b, m)
}

/// A decimal sits unscaled on its own grid.
proof fn lemma_mag_at_own_exp(d: Decimal)
    ensures
        dec_mag(d, d.exp as int) == d.mant,
{
    let p = pow10(((d.exp - d.exp) as nat));
    assert(p == 1);
    assert((d.mant as nat) * p == d.mant as nat) by (nonlinear_arith)
        requires
            p == 1,
    ;
}

/// A zero mantissa has magnitude zero on every grid.
proof fn lemma_mag_zero(d: Decimal, m: int)
    requires
        d.mant == 0,
    ensures
        dec_mag(d, m) == 0,
{
    let p = pow10(((d.exp - m) as nat));
    assert((d.mant as nat) * p == 0) by (nonlinear_arith)
        requires
            d.mant == 0,
    ;
}

fn pow10_exec(n: u64) -> (r: u64)
    requires
        n <= 19,
    ensures
        r as nat == pow10(n as nat),
    decreases n,
{
    if n == 0 {
        1
    } else {
        let p = pow10_exec(n - 1);
        proof {
            lemma_pow10_mono((n - 1) as nat, 18);
            reveal_with_fuel(pow10, 20);
            assert(pow10(18) == 1_000_000_000_000_000_000);
        }
        10 * p
    }
}

/// Compares the magnitudes of two decimals on their common grid. A gap of
/// twenty or more decimal places decides the order outright, since a
/// mantissa never reaches `10^20`; a smaller gap is closed by scaling the
/// coarser mantissa, which fits 128 bits.
fn mag_le(a: &Decimal, b: &Decimal) -> (r: bool)
    ensures
        r == ({
            let m: int = if a.exp <= b.exp {
                a.exp as int
            } else {
                b.exp as int
            };
            dec_mag(*a, m) <= dec_mag(*b, m)
        }),
{
    let ghost m: int = if a.exp <= b.exp {
        a.exp as int
    } else {
        b.exp as int
    };
    if a.exp == b.exp {
        proof {
            lemma_mag_at_own_exp(*a);
            lemma_mag_at_own_exp(*b);
        }
        a.mant <= b.mant
    } else if a.exp > b.exp {
        if a.mant == 0 {
            proof {
                lemma_mag_zero(*a, m);
                lemma_mag_at_own_exp(*b);
            }
            return true;
        }
        let gap128: i128 = (a.exp as i128) - (b.exp as i128);
        if gap128 >= 20 {
            proof {
                let g = (a.exp - m) as nat;
                let ghost p10 = pow10(g);
                lemma_pow10_mono(20, g);
                reveal_with_fuel(pow10, 21);
                assert(pow10(20) == 100_000_000_000_000_000_000nat);
                assert((a.mant as nat) * p10 >= p10) by (nonlinear_arith)
                    requires
                        a.mant >= 1,
                        p10 >= 0,
                ;
                lemma_mag_at_own_exp(*b);
            }
            false
        } else {
            let gap: u64 = gap128 as u64;
            let p = pow10_exec(gap);
            proof {
                assert((a.mant as nat) * (p as nat) < 0x100000000000000000000000000000000nat)
                    by (nonlinear_arith)
                    requires
                        a.mant <= 0xffffffffffffffffu64,
                        p <= 0xffffffffffffffffu64,
                ;
            }
            let scaled: u128 = (a.mant as u128) * (p as u128);
            proof {
                lemma_mag_at_own_exp(*b);
                assert(dec_mag(*a, m) == scaled as nat);
            }
            scaled <= b.mant as u128
        }
    } else {
        if b.mant == 0 {
            proof {
                lemma_mag_zero(*b, m);
                lemma_mag_at_own_exp(*a);
            }
            return a.mant == 0;
        }
        let gap128: i128 = (b.exp as i128) - (a.exp as i128);
        if gap128 >= 20 {
            proof {
                let g = (b.exp - m) as nat;
                let ghost p10 = pow10(g);
                lemma_pow10_mono(20, g);
                reveal_with_fuel(pow10, 21);
                assert(pow10(20) == 100_000_000_000_000_000_000nat);
                assert((b.mant as nat) * p10 >= p10) by (nonlinear_arith)
                    requires
                        b.mant >= 1,
                        p10 >= 0,
                ;
                lemma_mag_at_own_exp(*a);
            }
            true
        } else {
            let gap: u64 = gap128 as u64;
            let p = pow10_exec(gap);
            proof {
                assert((b.mant as nat) * (p as nat) < 0x100000000000000000000000000000000nat)
                    by (nonlinear_arith)
                    requires
                        b.mant <= 0xffffffffffffffffu64,
                        p <= 0xffffffffffffffffu64,
                ;
            }
            let scaled: u128 = (b.mant as u128) * (p as u128);
            proof {
                lemma_mag_at_own_exp(*a);
                assert(dec_mag(*b, m) == scaled as nat);
            }
            a.mant as u128 <= scaled
        }
    }
}

/// Numeric order of two decimals, exactly as `dec_le` states.
pub fn dec_le_exec(a: &Decimal, b: &Decimal) -> (r: bool)
    ensures
        r == dec_le(*a, *b),
{
    let ghost m: int = if a.exp <= b.exp {
        a.exp as int
    } else {
        b.exp as int
    };
    let a_neg = a.neg && a.mant > 0;
    let b_neg = b.neg && b.mant > 0;
    proof {
        let ga = (a.exp - m) as nat;
        let gb = (b.exp - m) as nat;
        lemma_pow10_mono(0, ga);
        lemma_pow10_mono(0, gb);
        let ghost pa = pow10(ga);
        let ghost pb = pow10(gb);
        if a.mant > 0 {
            assert((a.mant as nat) * pa >= 1) by (nonlinear_arith)
                requires
                    a.mant >= 1,
                    pa >= 1,
            ;
        } else {
            lemma_mag_zero(*a, m);
        }
        if b.mant > 0 {
            assert((b.mant as nat) * pb >= 1) by (nonlinear_arith)
                requires
                    b.mant >= 1,
                    pb >= 1,
            ;
        } else {
            lemma_mag_zero(*b, m);
        }
    }
    if a_neg != b_neg {
        a_neg
    } else if !a_neg {
        mag_le(a, b)
    } else {
        mag_le(b, a)
    }
}

} // verus!
