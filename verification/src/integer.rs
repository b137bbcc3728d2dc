//! Signed integers of arbitrary size, held as a sign and big-endian
//! magnitude bytes. The arithmetic on magnitudes is done by `num-bigint`.

use crate::bytes::{
    be_bytes, be_nat, is_minimal, lemma_be_bytes_of_minimal, lemma_be_bytes_value,
    u64_to_min_be_bytes,
};
use vstd::prelude::*;

verus! {

/// The magnitude of an integer.
pub open spec fn magnitude_of(n: int) -> nat {
    if n < 0 {
        (-n) as nat
    } else {
        n as nat
    }
}

/// The integer with the given sign and magnitude; a negative zero is zero.
pub open spec fn signed(negative: bool, magnitude: nat) -> int {
    if negative {
        -(magnitude as int)
    } else {
        magnitude as int
    }
}

/// Adds `k` to the number that `bytes` denotes in big-endian.
///
/// Calls `BigUint::from_bytes_be`, the crate's `+` for `BigUint` and `u64`,
/// and `BigUint::to_bytes_be`. Trusted: the result is the minimal big-endian
/// form of the sum (a single zero byte for zero).
#[verifier::external_body]
pub(crate) fn big_add(bytes: &[u8], k: u64) -> (out: Vec<u8>)
    ensures
        out@ == be_bytes(be_nat(bytes@) + k as nat),
{
    (num_bigint::BigUint::from_bytes_be(bytes) + k).to_bytes_be()
}

/// Subtracts `k` from the number that `bytes` denotes in big-endian.
///
/// Calls `BigUint::from_bytes_be`, the crate's `-` for `BigUint` and `u64`,
/// which panics when the result would be negative, and
/// `BigUint::to_bytes_be`. Trusted: the result is the minimal big-endian
/// form of the difference (a single zero byte for zero).
#[verifier::external_body]
pub(crate) fn big_sub(bytes: &[u8], k: u64) -> (out: Vec<u8>)
    requires
        be_nat(bytes@) >= k,
    ensures
        out@ == be_bytes((be_nat(bytes@) - k) as nat),
{
    (num_bigint::BigUint::from_bytes_be(bytes) - k).to_bytes_be()
}

/// The number that `bytes` denotes in big-endian, if it fits 64 bits.
///
/// Calls `BigUint::from_bytes_be` and `ToPrimitive::to_u64` of `num-traits`.
/// Trusted: the result is the number where it is at most `u64::MAX`, and
/// `None` otherwise.
#[verifier::external_body]
pub(crate) fn big_to_u64(bytes: &[u8]) -> (out: Option<u64>)
    ensures
        out == (if be_nat(bytes@) <= u64::MAX {
            Some(be_nat(bytes@) as u64)
        } else {
            None
        }),
{
    num_traits::ToPrimitive::to_u64(&num_bigint::BigUint::from_bytes_be(bytes))
}

/// Whether the number that `a` denotes in big-endian is below that of `b`.
///
/// Calls `BigUint::from_bytes_be` and the crate's `<` for `BigUint`.
/// Trusted: the result is the order of the two numbers.
#[verifier::external_body]
pub(crate) fn big_less(a: &[u8], b: &[u8]) -> (out: bool)
    ensures
        out == (be_nat(a@) < be_nat(b@)),
{
    num_bigint::BigUint::from_bytes_be(a) < num_bigint::BigUint::from_bytes_be(b)
}

/// A signed integer of arbitrary size.
///
/// The magnitude is kept in minimal big-endian form and zero is never
/// negative, so two integers are equal exactly when they denote the same
/// number.
#[derive(Debug, PartialEq, Eq)]
pub struct Int {
    negative: bool,
    magnitude: Vec<u8>,
}

impl View for Int {
    type V = int;

    closed spec fn view(&self) -> int {
        signed(self.negative, be_nat(self.magnitude@))
    }
}

impl Clone for Int {
    fn clone(&self) -> (out: Int)
        ensures
            out@ == self@,
    {
        proof {
            use_type_invariant(self);
        }
        Int { negative: self.negative, magnitude: crate::rlp::copy_bytes(&self.magnitude) }
    }
}

impl Int {
    #[verifier::type_invariant]
    spec fn well_formed(self) -> bool {
        is_minimal(self.magnitude@) && (self.negative ==> be_nat(self.magnitude@) > 0)
    }

    /// The integer with the given sign whose magnitude `bytes` denote in
    /// big-endian. Leading zero bytes are accepted, and so is no byte at all.
    pub fn from_be_bytes(negative: bool, bytes: &[u8]) -> (out: Int)
        ensures
            out@ == signed(negative, be_nat(bytes@)),
    {
        let magnitude = big_add(bytes, 0);
        proof {
            lemma_be_bytes_value(be_nat(bytes@));
        }
        let zero: bool = magnitude.len() == 1 && magnitude[0] == 0;
        proof {
            lemma_zero_bytes(magnitude@);
        }
        Int { negative: negative && !zero, magnitude }
    }

    /// The integer `n`.
    pub fn from_u64(n: u64) -> (out: Int)
        ensures
            out@ == n,
    {
        let magnitude = u64_to_min_be_bytes(n);
        proof {
            lemma_be_bytes_value(n as nat);
        }
        Int { negative: false, magnitude }
    }

    /// The integer `n`.
    pub fn from_usize(n: usize) -> (out: Int)
        ensures
            out@ == n,
    {
        Int::from_u64(n as u64)
    }

    /// The integer `n`.
    pub fn from_i64(n: i64) -> (out: Int)
        ensures
            out@ == n,
    {
        if n >= 0 {
            Int::from_u64(n as u64)
        } else {
            let m: u64 = (-(n + 1)) as u64 + 1;
            let magnitude = u64_to_min_be_bytes(m);
            proof {
                lemma_be_bytes_value(m as nat);
            }
            Int { negative: true, magnitude }
        }
    }

    /// Whether the integer is below zero.
    pub fn is_negative(&self) -> (out: bool)
        ensures
            out == (self@ < 0),
    {
        proof {
            use_type_invariant(self);
        }
        self.negative
    }

    /// The magnitude in minimal big-endian bytes (a single zero byte for
    /// zero).
    pub fn magnitude(&self) -> (out: &Vec<u8>)
        ensures
            out@ == be_bytes(magnitude_of(self@)),
    {
        proof {
            use_type_invariant(self);
            lemma_be_bytes_of_minimal(self.magnitude@);
        }
        &self.magnitude
    }

    /// Whether the integer is below `other`.
    pub fn less_than(&self, other: &Int) -> (out: bool)
        ensures
            out == (self@ < other@),
    {
        proof {
            use_type_invariant(self);
            use_type_invariant(other);
        }
        if self.negative {
            if other.negative {
                big_less(other.magnitude.as_slice(), self.magnitude.as_slice())
            } else {
                true
            }
        } else {
            if other.negative {
                false
            } else {
                big_less(self.magnitude.as_slice(), other.magnitude.as_slice())
            }
        }
    }

    /// The integer as a `u64`, where it is one.
    pub fn to_u64(&self) -> (out: Option<u64>)
        ensures
            out == (if 0 <= self@ <= u64::MAX {
                Some(self@ as u64)
            } else {
                None
            }),
    {
        proof {
            use_type_invariant(self);
        }
        if self.negative {
            None
        } else {
            big_to_u64(self.magnitude.as_slice())
        }
    }

    /// The integer as a `usize`, where it is one.
    pub fn to_usize(&self) -> (out: Option<usize>)
        ensures
            out == (if 0 <= self@ <= usize::MAX {
                Some(self@ as usize)
            } else {
                None
            }),
    {
        match self.to_u64() {
            Some(n) => {
                if n <= usize::MAX as u64 {
                    Some(n as usize)
                } else {
                    None
                }
            },
            None => None,
        }
    }
}

/// A minimal byte string denotes zero exactly when it is the single zero
/// byte.
pub proof fn lemma_zero_bytes(s: Seq<u8>)
    requires
        is_minimal(s),
    ensures
        (s.len() == 1 && s[0] == 0) <==> be_nat(s) == 0,
{
    if s.len() == 1 {
        assert(s.drop_last() =~= Seq::<u8>::empty());
        assert(be_nat(s.drop_last()) == 0);
    } else {
        crate::bytes::lemma_be_nat_lower(s);
        crate::bytes::lemma_pow256_positive((s.len() - 1) as nat);
    }
}

} // verus!
