//! Order identifiers: 128-bit UUID values read from their canonical
//! hyphenated text form.
//!
//! A valid identifier is 36 bytes long, with hyphens at positions 8, 13, 18
//! and 23 and hexadecimal digits everywhere else; its value is the 128-bit
//! number the 32 digits spell.

use vstd::prelude::*;

use crate::json::{is_hex, hexv};

verus! {

pub open spec fn is_hyphen_pos(i: int) -> bool {
    i == 8 || i == 13 || i == 18 || i == 23
}

/// The canonical hyphenated UUID shape.
pub open spec fn spec_is_uuid(s: Seq<u8>) -> bool {
    s.len() == 36 && forall|i: int|
        0 <= i < 36 ==> (if is_hyphen_pos(i) {
            s[i] == 45
        } else {
            is_hex(#[trigger] s[i])
        })
}

/// The number the hex digits of `s[i..36)` spell, on top of `acc`.
pub open spec fn uuid_acc(s: Seq<u8>, i: int, acc: nat) -> nat
    decreases 36 - i when i <= 36
{
    if i >= 36 {
        acc
    } else if is_hyphen_pos(i) {
        uuid_acc(s, i + 1, acc)
    } else {
        uuid_acc(s, i + 1, acc * 16 + hexv(s[i]))
    }
}

/// The identifier a byte string denotes, if it has the canonical shape.
pub open spec fn spec_uuid(s: Seq<u8>) -> Option<u128> {
    if spec_is_uuid(s) {
        Some(uuid_acc(s, 0, 0) as u128)
    } else {
        None
    }
}

pub open spec fn pow16(n: nat) -> nat
    decreases n,
{
    if n == 0 {
        1
    } else {
        16 * pow16((n - 1) as nat)
    }
}

proof fn lemma_pow16_mono(a: nat, b: nat)
    requires
        a <= b,
    ensures
        pow16(a) <= pow16(b),
    decreases b,
{
    if a < b {
        lemma_pow16_mono(a, (b - 1) as nat);
    }
}

/// One more hex digit keeps the accumulator under the next power and
/// within the 128-bit range.
#[verifier::rlimit(100)]
proof fn lemma_uuid_step(acc: nat, d: nat, h: nat)
    requires
        acc < pow16(d),
        d <= 31,
        h < 16,
    ensures
        acc * 16 + h < pow16((d + 1) as nat),
        acc * 16 + h <= u128::MAX,
{
    lemma_pow16_mono((d + 1) as nat, 32);
    reveal_with_fuel(pow16, 33);
    assert(pow16(32) == 0x100000000000000000000000000000000);
}

/// How many hyphens stand before position `i`.
pub open spec fn hyphens_before(i: int) -> int {
    (if i > 8 {
        1int
    } else {
        0int
    }) + (if i > 13 {
        1int
    } else {
        0int
    }) + (if i > 18 {
        1int
    } else {
        0int
    }) + (if i > 23 {
        1int
    } else {
        0int
    })
}

/// Parses a canonical hyphenated UUID, exactly as `spec_uuid` states.
pub fn parse_uuid(s: &Vec<u8>) -> (r: Option<u128>)
    ensures
        r == spec_uuid(s@),
{
    if s.len() != 36 {
        return None;
    }
    let mut acc: u128 = 0;
    let mut i: usize = 0;
    while i < 36
        invariant
            i <= 36,
            s@.len() == 36,
            forall|j: int|
                0 <= j < i ==> (if is_hyphen_pos(j) {
                    s@[j] == 45
                } else {
                    is_hex(#[trigger] s@[j])
                }),
            uuid_acc(s@, i as int, acc as nat) == uuid_acc(s@, 0, 0),
            acc < pow16((i - hyphens_before(i as int)) as nat),
        decreases 36 - i,
    {
        let c = s[i];
        if i == 8 || i == 13 || i == 18 || i == 23 {
            if c != 45 {
                return None;
            }
        } else {
            let h = match crate::json::hex_digit(c) {
                Some(h) => h,
                None => {
                    return None;
                },
            };
            proof {
                let d = (i - hyphens_before(i as int)) as nat;
                lemma_uuid_step(acc as nat, d, hexv(s@[i as int]));
            }
            acc = acc * 16 + (h as u128);
        }
        i = i + 1;
    }
    proof {
        assert(spec_is_uuid(s@));
        assert(uuid_acc(s@, 36, acc as nat) == acc as nat);
    }
    Some(acc)
}

} // verus!
