//! The FATE data encodings: integers, types and values.

pub mod consts;
pub mod error;
pub mod laws;
pub mod order;
pub mod ordering;
pub mod types;
pub mod value;

use crate::bytes::{be_bytes, lemma_be_bytes_value};
use crate::data::consts::{NEG_BIG_INT, NEG_SIGN, POS_BIG_INT, POS_SIGN, SMALL_INT};
use crate::integer::{big_sub, magnitude_of, Int};
use crate::rlp::{encode_bytes, RlpItem};
use vstd::prelude::*;

verus! {

/// The encoding of an integer. A magnitude below 64 is packed into one
/// byte: twice the magnitude, plus 128 for a negative number. Any other
/// integer is the byte `0x6F` (`0xEF` when negative) and then the magnitude
/// less 64, in minimal big-endian bytes, as an RLP byte array.
pub open spec fn encode_int(n: int) -> Seq<u8> {
    let m = magnitude_of(n);
    if m < 64 {
        seq![((if n < 0 {
            128int
        } else {
            0int
        }) + 2 * m) as u8]
    } else {
        seq![if n < 0 {
            NEG_BIG_INT
        } else {
            POS_BIG_INT
        }] + encode_bytes(be_bytes((m - 64) as nat))
    }
}

/// The minimal bytes of a number are a single byte exactly when the number
/// is below 256, and that byte is the number.
pub proof fn lemma_single_byte(m: nat)
    ensures
        be_bytes(m).len() == 1 <==> m < 256,
        m < 256 ==> be_bytes(m)[0] == m,
{
    if m >= 256 {
        lemma_be_bytes_value(m / 256);
    }
}

/// Serializes an integer.
pub fn serialize_int(n: &Int) -> (out: Vec<u8>)
    ensures
        out@ == encode_int(n@),
{
    let magnitude = n.magnitude();
    let sign: u8 = if n.is_negative() {
        NEG_SIGN
    } else {
        POS_SIGN
    };
    proof {
        lemma_single_byte(magnitude_of(n@));
        lemma_be_bytes_value(magnitude_of(n@));
    }
    if magnitude.len() == 1 && magnitude[0] < 64 {
        let small_abs: u8 = magnitude[0];
        assert(((sign << 7) | (small_abs << 1) | 0u8) == sign * 128 + 2 * small_abs) by (bit_vector)
            requires
                small_abs < 64,
                sign <= 1,
        ;
        let mut out: Vec<u8> = Vec::new();
        out.push((sign << 7) | (small_abs << 1) | SMALL_INT);
        assert(out@ =~= encode_int(n@));
        out
    } else {
        let big_int_byte: u8 = if sign == NEG_SIGN {
            NEG_BIG_INT
        } else {
            POS_BIG_INT
        };
        let diff = big_sub(magnitude.as_slice(), 64);
        let mut encoded = RlpItem::ByteArray(diff).serialize();
        let mut out: Vec<u8> = Vec::new();
        out.push(big_int_byte);
        out.append(&mut encoded);
        out
    }
}

} // verus!
