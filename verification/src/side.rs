//! The buy/sell indicator and its wire codec.
//!
//! On the wire a side is the lowercase string `"buy"` or `"sell"`; decoding
//! folds ASCII letters to lowercase first, so any casing is accepted, and
//! anything else fails with a message naming the offending value.

use vstd::prelude::*;

use crate::text::{ab, lit_bytes, bytes_eq};

verus! {

/// Direction of a trade or order.
#[derive(Clone, Copy, Debug, PartialEq, Eq, Structural)]
pub enum Side {
    Buy,
    Sell,
}

/// A decoding failure, with its message.
#[derive(Debug, PartialEq)]
pub struct DecodeError {
    pub msg: Vec<u8>,
}

/// ASCII lowercase folding of one byte.
pub open spec fn fold_lower(c: u8) -> u8 {
    if 65 <= c && c <= 90 {
        (c + 32) as u8
    } else {
        c
    }
}

pub open spec fn lower_seq(s: Seq<u8>) -> Seq<u8> {
    Seq::new(s.len(), |i: int| fold_lower(s[i]))
}

/// The wire form of a side: its canonical lowercase tag.
pub open spec fn side_wire(side: Side) -> Seq<u8> {
    match side {
        Side::Buy => ab("buy"@),
        Side::Sell => ab("sell"@),
    }
}

/// Which side a wire string denotes, after case folding.
pub open spec fn spec_side(s: Seq<u8>) -> Option<Side> {
    if lower_seq(s) == ab("buy"@) {
        Some(Side::Buy)
    } else if lower_seq(s) == ab("sell"@) {
        Some(Side::Sell)
    } else {
        None
    }
}

/// The message a rejected side value carries, ahead of the value itself.
pub open spec fn side_err_prefix() -> Seq<u8> {
    ab("side must be either `buy` or `sell`: "@)
}

impl Side {
    /// Encodes the side as its wire tag.
    pub fn to_bytes(&self) -> (r: Vec<u8>)
        ensures
            r@ == side_wire(*self),
    {
        proof {
            reveal_strlit("buy");
            reveal_strlit("sell");
        }
        match self {
            Side::Buy => lit_bytes("buy"),
            Side::Sell => lit_bytes("sell"),
        }
    }

    /// The side's name, as shown to a reader.
    pub fn label(&self) -> (r: String)
        ensures
            r@ == match *self {
                Side::Buy => "Buy"@,
                Side::Sell => "Sell"@,
            },
    {
        match self {
            Side::Buy => "Buy".to_owned(),
            Side::Sell => "Sell".to_owned(),
        }
    }

    /// Decodes a wire string, folding ASCII case first; any string that is
    /// not a casing of `buy` or `sell` fails with a message that carries
    /// the offending value.
    pub fn from_bytes(s: &Vec<u8>) -> (r: Result<Side, DecodeError>)
        ensures
            match r {
                Ok(sd) => spec_side(s@) == Some(sd),
                Err(e) => spec_side(s@) is None && e.msg@ == side_err_prefix() + s@,
            },
    {
        let mut lowered: Vec<u8> = Vec::new();
        let mut i: usize = 0;
        while i < s.len()
            invariant
                i <= s@.len(),
                lowered@ =~= lower_seq(s@).subrange(0, i as int),
            decreases s@.len() - i,
        {
            let c = s[i];
            if 65 <= c && c <= 90 {
                lowered.push(c + 32);
            } else {
                lowered.push(c);
            }
            proof {
                assert(lowered@ =~= lower_seq(s@).subrange(0, i + 1 as int));
            }
            i = i + 1;
        }
        proof {
            assert(lowered@ =~= lower_seq(s@));
            reveal_strlit("buy");
            reveal_strlit("sell");
        }
        let buy = lit_bytes("buy");
        let sell = lit_bytes("sell");
        if bytes_eq(&lowered, &buy) {
            Ok(Side::Buy)
        } else if bytes_eq(&lowered, &sell) {
            Ok(Side::Sell)
        } else {
            proof {
                reveal_strlit("side must be either `buy` or `sell`: ");
            }
            let mut msg = lit_bytes("side must be either `buy` or `sell`: ");
            msg.extend_from_slice(s.as_slice());
            Err(DecodeError { msg })
        }
    }
}

/// Law: encoding a side and decoding the result yields the side again.
pub proof fn lemma_side_round_trip(side: Side)
    ensures
        spec_side(side_wire(side)) == Some(side),
{
    reveal_strlit("buy");
    reveal_strlit("sell");
    match side {
        Side::Buy => {
            assert(lower_seq(ab("buy"@)) =~= ab("buy"@));
        },
        Side::Sell => {
            assert(lower_seq(ab("sell"@)) =~= ab("sell"@));
            assert(lower_seq(ab("sell"@)) != ab("buy"@));
        },
    }
}

} // verus!
