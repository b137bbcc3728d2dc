//! Blake2b digests of 32 bytes, and the identifiers derived from them.

use crate::bytes::be_nat;
use blake2::Digest;
use vstd::prelude::*;

verus! {

/// The Blake2b digest of `data` with an output of 32 bytes: no key, no salt,
/// no personalization.
pub uninterp spec fn blake2b_256(data: Seq<u8>) -> Seq<u8>;

/// Hashes `data` with Blake2b to 32 bytes.
///
/// Calls `Digest::digest` of the `blake2` crate for `Blake2b<U32>`. Trusted:
/// the result is the digest named `blake2b_256`, a function of the data
/// alone, and it has 32 bytes.
#[verifier::external_body]
pub(crate) fn blake2b(data: &[u8]) -> (out: Vec<u8>)
    ensures
        out@ == blake2b_256(data@),
        out@.len() == 32,
{
    blake2::Blake2b::<blake2::digest::consts::U32>::digest(data).to_vec()
}

/// The number that the first four bytes of a digest denote in big-endian.
pub open spec fn prefix_number(digest: Seq<u8>) -> nat {
    be_nat(digest.subrange(0, 4))
}

/// The first four bytes of a digest.
pub fn digest_prefix(digest: &Vec<u8>) -> (out: Vec<u8>)
    requires
        digest@.len() >= 4,
    ensures
        out@ == digest@.subrange(0, 4),
{
    vstd::slice::slice_to_vec(vstd::slice::slice_subrange(digest.as_slice(), 0, 4))
}

/// The first four bytes of a digest as a big-endian number.
pub fn digest_number(digest: &Vec<u8>) -> (out: u32)
    requires
        digest@.len() >= 4,
    ensures
        out == prefix_number(digest@),
{
    let ghost four = digest@.subrange(0, 4);
    proof {
        let three = four.drop_last();
        let two = three.drop_last();
        let one = two.drop_last();
        assert(one.drop_last() =~= Seq::<u8>::empty());
        assert(be_nat(one.drop_last()) == 0);
        assert(be_nat(one) == digest@[0]);
        assert(be_nat(two) == be_nat(one) * 256 + digest@[1]);
        assert(be_nat(three) == be_nat(two) * 256 + digest@[2]);
        assert(be_nat(four) == be_nat(three) * 256 + digest@[3]);
    }
    let a: u32 = digest[0] as u32;
    let b: u32 = digest[1] as u32;
    let c: u32 = digest[2] as u32;
    let d: u32 = digest[3] as u32;
    ((a * 256 + b) * 256 + c) * 256 + d
}

/// The four-byte identifier of a name: the first four bytes of the Blake2b
/// digest of the name in UTF-8.
pub open spec fn id4_of(name: Seq<char>) -> Seq<u8> {
    blake2b_256(vstd::utf8::encode_utf8(name)).subrange(0, 4)
}

/// The four-byte identifier of a function or symbol: the first four bytes of
/// the Blake2b digest of its name in UTF-8.
pub fn id4(name: &str) -> (out: Vec<u8>)
    ensures
        out@ == id4_of(name@),
        out@.len() == 4,
{
    let digest = blake2b(name.as_bytes());
    digest_prefix(&digest)
}

/// The identifier of a symbol as a number: the first four bytes of the
/// Blake2b digest of its name, read as big-endian.
pub fn symbol_identifier(name: &str) -> (out: u32)
    ensures
        out == be_nat(id4_of(name@)),
{
    let digest = blake2b(name.as_bytes());
    digest_number(&digest)
}

} // verus!
