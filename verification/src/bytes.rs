//! Big-endian numbers as byte strings.

use vstd::prelude::*;

verus! {

/// The number that a byte string denotes when read as big-endian base 256.
/// The empty string denotes zero; leading zero bytes do not change the value.
pub open spec fn be_nat(s: Seq<u8>) -> nat
    decreases s.len(),
{
    if s.len() == 0 {
        0
    } else {
        be_nat(s.drop_last()) * 256 + s.last() as nat
    }
}

/// The shortest big-endian byte string that denotes `n`; zero is the single
/// byte `0x00`.
pub open spec fn be_bytes(n: nat) -> Seq<u8>
    decreases n,
{
    if n < 256 {
        seq![n as u8]
    } else {
        be_bytes(n / 256).push((n % 256) as u8)
    }
}

/// A byte string is minimal when it is what `be_bytes` produces: not empty,
/// and without a leading zero byte unless it is the single byte `0x00`.
pub open spec fn is_minimal(s: Seq<u8>) -> bool {
    s.len() >= 1 && (s[0] != 0 || s.len() == 1)
}

/// `256` to the power `k`.
pub open spec fn pow256(k: nat) -> nat
    decreases k,
{
    if k == 0 {
        1
    } else {
        256 * pow256((k - 1) as nat)
    }
}

/// `be_bytes` is a right inverse of `be_nat` and yields minimal strings.
pub proof fn lemma_be_bytes_value(n: nat)
    ensures
        be_nat(be_bytes(n)) == n,
        is_minimal(be_bytes(n)),
        n > 0 ==> be_bytes(n)[0] != 0,
    decreases n,
{
    if n < 256 {
        let s = seq![n as u8];
        assert(s.drop_last() =~= Seq::<u8>::empty());
        assert(be_nat(s.drop_last()) == 0);
    } else {
        lemma_be_bytes_value(n / 256);
        let p = be_bytes(n / 256);
        let s = p.push((n % 256) as u8);
        assert(s.drop_last() =~= p);
        assert(s[0] == p[0]);
    }
}

/// A string of `k` bytes denotes a number below `256^k`.
pub proof fn lemma_be_nat_bound(s: Seq<u8>)
    ensures
        be_nat(s) < pow256(s.len()),
    decreases s.len(),
{
    if s.len() > 0 {
        lemma_be_nat_bound(s.drop_last());
    }
}

/// A string that starts with a non-zero byte denotes at least `256^(len-1)`.
pub proof fn lemma_be_nat_lower(s: Seq<u8>)
    requires
        s.len() >= 1,
        s[0] != 0,
    ensures
        be_nat(s) >= pow256((s.len() - 1) as nat),
    decreases s.len(),
{
    if s.len() == 1 {
        assert(s.drop_last() =~= Seq::<u8>::empty());
        assert(be_nat(s.drop_last()) == 0);
    } else {
        let p = s.drop_last();
        assert(p[0] == s[0]);
        lemma_be_nat_lower(p);
    }
}

/// `be_bytes` is a left inverse of `be_nat` on minimal strings.
pub proof fn lemma_be_bytes_of_minimal(s: Seq<u8>)
    requires
        is_minimal(s),
    ensures
        be_bytes(be_nat(s)) == s,
    decreases s.len(),
{
    let p = s.drop_last();
    if s.len() == 1 {
        assert(p =~= Seq::<u8>::empty());
        assert(be_nat(p) == 0);
        assert(be_nat(s) == s[0] as nat);
        assert(be_bytes(be_nat(s)) =~= s);
    } else {
        assert(p[0] == s[0]);
        lemma_be_nat_lower(p);
        assert(pow256((p.len() - 1) as nat) >= 1) by {
            lemma_pow256_positive((p.len() - 1) as nat);
        }
        lemma_be_bytes_of_minimal(p);
        let n = be_nat(s);
        assert(n == be_nat(p) * 256 + s.last() as nat);
        assert(n / 256 == be_nat(p) && n % 256 == s.last() as nat) by {
            vstd::arithmetic::div_mod::lemma_fundamental_div_mod_converse(
                n as int,
                256,
                be_nat(p) as int,
                s.last() as int,
            );
        }
        assert(be_bytes(n) =~= s);
    }
}

/// Powers of 256 are positive.
pub proof fn lemma_pow256_positive(k: nat)
    ensures
        pow256(k) >= 1,
    decreases k,
{
    if k > 0 {
        lemma_pow256_positive((k - 1) as nat);
    }
}

/// Powers of 256 grow with the exponent.
pub proof fn lemma_pow256_le(j: nat, k: nat)
    requires
        j <= k,
    ensures
        pow256(j) <= pow256(k),
    decreases k,
{
    if j < k {
        lemma_pow256_le(j, (k - 1) as nat);
    }
}

/// The minimal string of a number below `256^k` has at most `k` bytes (one
/// byte for zero).
pub proof fn lemma_be_bytes_len(n: nat, k: nat)
    requires
        k >= 1,
        n < pow256(k),
    ensures
        1 <= be_bytes(n).len() <= k,
    decreases n,
{
    if n >= 256 {
        assert(k >= 2) by {
            reveal_with_fuel(pow256, 2);
        }
        assert(n / 256 < pow256((k - 1) as nat));
        lemma_be_bytes_len(n / 256, (k - 1) as nat);
    }
}

/// A 64-bit number needs at most eight bytes.
pub proof fn lemma_be_bytes_len_u64(n: nat)
    requires
        n <= u64::MAX,
    ensures
        1 <= be_bytes(n).len() <= 8,
{
    assert(pow256(8) == 0x1_0000_0000_0000_0000) by {
        reveal_with_fuel(pow256, 9);
    }
    lemma_be_bytes_len(n, 8);
}

/// The minimal big-endian bytes of `n`.
pub fn usize_to_min_be_bytes(n: usize) -> (out: Vec<u8>)
    ensures
        out@ == be_bytes(n as nat),
{
    u64_to_min_be_bytes(n as u64)
}

/// The minimal big-endian bytes of `n`.
pub fn u64_to_min_be_bytes(n: u64) -> (out: Vec<u8>)
    ensures
        out@ == be_bytes(n as nat),
{
    let mut out: Vec<u8> = Vec::new();
    let mut m: u64 = n;
    while m >= 256
        invariant
            be_bytes(n as nat) == be_bytes(m as nat) + out@,
        decreases m,
    {
        let low: u8 = (m % 256) as u8;
        proof {
            assert(be_bytes(m as nat) == be_bytes((m / 256) as nat).push(low));
            assert(be_bytes((m / 256) as nat).push(low) + out@ =~= be_bytes((m / 256) as nat) + (
            seq![low] + out@));
        }
        let ghost before = out@;
        out.insert(0, low);
        assert(out@ =~= seq![low] + before);
        m = m / 256;
    }
    out.insert(0, m as u8);
    proof {
        assert(be_bytes(m as nat) =~= seq![m as u8]);
        assert(out@ =~= be_bytes(n as nat));
    }
    out
}

/// An owned string of bytes.
#[derive(Debug, PartialEq, Eq)]
pub struct Bytes {
    data: Vec<u8>,
}

impl View for Bytes {
    type V = Seq<u8>;

    closed spec fn view(&self) -> Seq<u8> {
        self.data@
    }
}

impl Clone for Bytes {
    fn clone(&self) -> (out: Bytes)
        ensures
            out@ == self@,
    {
        Bytes::from(self.data.as_slice())
    }
}

impl Bytes {
    /// The bytes of a slice.
    pub fn from(data: &[u8]) -> (out: Bytes)
        ensures
            out@ == data@,
    {
        Bytes { data: vstd::slice::slice_to_vec(data) }
    }

    /// No bytes.
    pub fn new() -> (out: Bytes)
        ensures
            out@ == Seq::<u8>::empty(),
    {
        Bytes { data: Vec::new() }
    }

    /// The bytes as a vector.
    pub fn to_vec(self) -> (out: Vec<u8>)
        ensures
            out@ == self@,
    {
        self.data
    }

    /// The number of bytes.
    pub fn len(&self) -> (out: usize)
        ensures
            out == self@.len(),
    {
        self.data.len()
    }

    /// Whether there are no bytes.
    pub fn is_empty(&self) -> (out: bool)
        ensures
            out == (self@.len() == 0),
    {
        self.data.len() == 0
    }

    /// The byte at an index.
    pub fn get(&self, idx: usize) -> (out: u8)
        requires
            idx < self@.len(),
        ensures
            out == self@[idx as int],
    {
        self.data[idx]
    }

    /// Puts the bytes in the opposite order.
    pub fn reverse(&mut self)
        ensures
            final(self)@ == old(self)@.reverse(),
    {
        let mut out: Vec<u8> = Vec::new();
        let n: usize = self.data.len();
        let mut i: usize = 0;
        while i < n
            invariant
                i <= n,
                n == self.data@.len(),
                self.data@ == old(self).data@,
                out@.len() == i,
                forall|j: int| 0 <= j < i ==> out@[j] == self.data@[n - 1 - j],
            decreases n - i,
        {
            out.push(self.data[n - 1 - i]);
            i += 1;
        }
        assert(out@ =~= self.data@.reverse());
        self.data = out;
    }

    /// Adds the bytes of a slice at the end.
    pub fn extend(&mut self, data: &[u8])
        ensures
            final(self)@ == old(self)@ + data@,
    {
        self.data.extend_from_slice(data);
    }

    /// Makes the length `size`: bytes behind it are dropped, missing bytes
    /// are filled in with `fill`.
    pub fn resize(&mut self, size: usize, fill: u8)
        ensures
            final(self)@.len() == size,
            forall|i: int|
                0 <= i < size ==> final(self)@[i] == (if i < old(self)@.len() {
                    old(self)@[i]
                } else {
                    fill
                }),
    {
        if size <= self.data.len() {
            self.data.truncate(size);
        } else {
            let ghost before = self.data@;
            while self.data.len() < size
                invariant
                    before.len() <= self.data@.len() <= size,
                    before == old(self).data@,
                    forall|i: int|
                        0 <= i < self.data@.len() ==> self.data@[i] == (if i < before.len() {
                            before[i]
                        } else {
                            fill
                        }),
                decreases size - self.data.len(),
            {
                self.data.push(fill);
            }
        }
    }
}

} // verus!
