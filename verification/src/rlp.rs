//! Recursive-length-prefix (RLP) encoding of byte-array trees.

use crate::bytes::{be_bytes, be_nat, is_minimal, usize_to_min_be_bytes};
use crate::error::DecodingErr as ItemErr;
use vstd::prelude::*;

verus! {

/// Longest payload whose length is written into the tag byte itself.
pub const UNTAGGED_SIZE_LIMIT: u8 = 55;

/// Largest byte that stands for itself.
pub const UNTAGGED_LIMIT: u8 = 127;

/// Tag of the empty byte array; a short byte array has tag `128 + length`.
pub const BYTE_ARRAY_OFFSET: u8 = 128;

/// Tag of the empty list; a short list has tag `192 + payload length`.
pub const LIST_OFFSET: u8 = 192;

/// Largest tag of a byte array whose length is in the tag.
pub const BYTE_ARRAY_UNTAGGED_LIMIT: u8 = 183;

/// Smallest tag of a byte array with a separate size field.
pub const BYTE_ARRAY_TAGGED_OFFSET: u8 = 184;

/// Largest tag of a byte array.
pub const BYTE_ARRAY_LIMIT: u8 = 191;

/// Largest tag of a list whose payload length is in the tag.
pub const LIST_UNTAGGED_LIMIT: u8 = 247;

/// Smallest tag of a list with a separate size field.
pub const LIST_TAGGED_OFFSET: u8 = 248;

/// The mathematical value of an RLP item: a tree whose leaves are byte
/// strings.
pub ghost enum RlpTree {
    Bytes(Seq<u8>),
    List(Seq<RlpTree>),
}

/// An RLP item: a byte array or a list of RLP items.
#[derive(Debug, PartialEq, Eq)]
pub enum RlpItem {
    ByteArray(Vec<u8>),
    List(Vec<RlpItem>),
}

/// The trees of a sequence of items, in order.
pub open spec fn trees_of(items: Seq<RlpItem>) -> Seq<RlpTree>
    decreases items,
{
    Seq::new(
        items.len(),
        |i: int|
            if 0 <= i < items.len() {
                tree_of(items[i])
            } else {
                RlpTree::Bytes(Seq::empty())
            },
    )
}

/// The tree that an item stands for.
pub open spec fn tree_of(item: RlpItem) -> RlpTree
    decreases item,
{
    match item {
        RlpItem::ByteArray(bytes) => RlpTree::Bytes(bytes@),
        RlpItem::List(items) => RlpTree::List(trees_of(items@)),
    }
}

impl View for RlpItem {
    type V = RlpTree;

    open spec fn view(&self) -> RlpTree {
        tree_of(*self)
    }
}

/// A payload behind its size: for up to 55 bytes the tag `offset + length`,
/// for more the tag `offset + 55 + k` and the length in `k` minimal
/// big-endian bytes.
pub open spec fn frame(offset: u8, payload: Seq<u8>) -> Seq<u8> {
    if payload.len() <= 55 {
        seq![(offset + payload.len()) as u8] + payload
    } else {
        let size = be_bytes(payload.len());
        seq![(offset + 55 + size.len()) as u8] + size + payload
    }
}

/// The encoding of a byte array: a single byte up to 127 stands for itself,
/// anything else is framed from tag 128.
pub open spec fn encode_bytes(bytes: Seq<u8>) -> Seq<u8> {
    if bytes.len() == 1 && bytes[0] <= 127 {
        bytes
    } else {
        frame(128, bytes)
    }
}

/// The encoding of a tree: a list is the concatenation of its children's
/// encodings, framed from tag 192.
pub open spec fn encode(tree: RlpTree) -> Seq<u8>
    decreases tree,
{
    match tree {
        RlpTree::Bytes(bytes) => encode_bytes(bytes),
        RlpTree::List(items) => frame(192, encode_all(items)),
    }
}

/// The encodings of a sequence of trees, back to back.
pub open spec fn encode_all(items: Seq<RlpTree>) -> Seq<u8>
    decreases items,
{
    if items.len() == 0 {
        Seq::empty()
    } else {
        encode(items[0]) + encode_all(items.drop_first())
    }
}

/// An RLP decoding error.
#[derive(Debug, PartialEq, Eq)]
pub enum DecodingErr {
    /// The whole input was to be consumed, but bytes are left after the item.
    Trailing { input: Vec<u8>, undecoded: Vec<u8>, decoded: RlpItem },
    /// The size field that starts at `position` begins with a zero byte.
    LeadingZerosInSize { position: usize },
    /// The item that starts at `position` declares `expected` bytes, but only
    /// `actual` bytes are there from its tag on.
    SizeOverflow { position: usize, expected: usize, actual: usize },
    /// Empty input.
    Empty,
}

/// A length as the `expected` field of an error reports it: capped at the
/// largest `usize`.
pub open spec fn capped(n: nat) -> usize {
    if n > usize::MAX {
        usize::MAX
    } else {
        n as usize
    }
}

/// The error for an item at offset `at` that declares `expected` bytes where
/// `actual` bytes remain from its tag on.
pub open spec fn overflow_at(at: int, expected: nat, actual: nat) -> DecodingErr {
    DecodingErr::SizeOverflow {
        position: at as usize,
        expected: capped(expected),
        actual: actual as usize,
    }
}

/// What decoding the first item of `s` gives: the tree and the number of
/// bytes it occupies, or the error. `at` is the offset of `s` in the whole
/// input, which errors report.
///
/// The tag byte selects one of five forms: `0..=127` a single byte,
/// `128..=183` a short byte array, `184..=191` a long byte array,
/// `192..=247` a short list, `248..=255` a long list. A long form carries
/// its payload length in `tag - 183` (or `tag - 247`) big-endian bytes, the
/// first of which must not be zero. A list's payload must decode to items
/// exactly.
pub open spec fn parse(s: Seq<u8>, at: int) -> Result<(RlpTree, int), DecodingErr>
    decreases s.len(), 0int,
{
    if s.len() == 0 {
        Err(DecodingErr::Empty)
    } else if s[0] <= 127 {
        Ok((RlpTree::Bytes(seq![s[0]]), 1))
    } else if s[0] <= 183 {
        let len = s[0] - 128;
        if s.len() < len + 1 {
            Err(overflow_at(at, len as nat, s.len()))
        } else {
            Ok((RlpTree::Bytes(s.subrange(1, len + 1)), len + 1))
        }
    } else {
        let long = s[0] <= 191 || s[0] >= 248;
        let width: int = if !long {
            0
        } else if s[0] <= 191 {
            s[0] - 183
        } else {
            s[0] - 247
        };
        if s.len() < width + 1 {
            Err(overflow_at(at, width as nat, s.len()))
        } else if long && s[1] == 0 {
            Err(DecodingErr::LeadingZerosInSize { position: (at + 1) as usize })
        } else {
            let len: nat = if long {
                be_nat(s.subrange(1, width + 1))
            } else {
                (s[0] - 192) as nat
            };
            let from = width + 1;
            if s.len() < from + len {
                Err(overflow_at(at, len, s.len()))
            } else if s[0] <= 191 {
                Ok((RlpTree::Bytes(s.subrange(from, from + len)), from + len))
            } else {
                match parse_list(s.subrange(from, from + len), at + from) {
                    Ok(items) => Ok((RlpTree::List(items), from + len)),
                    Err(e) => Err(e),
                }
            }
        }
    }
}

/// What decoding all of `s` as items back to back gives. `at` is the offset
/// of `s` in the whole input.
pub open spec fn parse_list(s: Seq<u8>, at: int) -> Result<Seq<RlpTree>, DecodingErr>
    decreases s.len(), 1int,
{
    if s.len() == 0 {
        Ok(Seq::empty())
    } else {
        match parse(s, at) {
            Err(e) => Err(e),
            Ok((first, n)) => {
                if 0 < n <= s.len() {
                    match parse_list(s.skip(n), at + n) {
                        Err(e) => Err(e),
                        Ok(rest) => Ok(seq![first] + rest),
                    }
                } else {
                    // never so: what is decoded is at least one byte and no more than there are
                    Err(DecodingErr::Empty)
                }
            },
        }
    }
}

/// A decoded item occupies at least one byte and no more than there are.
pub proof fn lemma_parse_consumed(s: Seq<u8>, at: int)
    ensures
        parse(s, at) matches Ok((_, n)) ==> 0 < n <= s.len(),
{
}

/// A tree fits the format when every payload in it is shorter than `2^64`
/// bytes, so that its length can be written in at most eight bytes.
pub open spec fn fits(tree: RlpTree) -> bool
    decreases tree,
{
    match tree {
        RlpTree::Bytes(bytes) => bytes.len() <= u64::MAX,
        RlpTree::List(items) => encode_all(items).len() <= u64::MAX && all_fit(items),
    }
}

/// Every tree of the sequence fits the format.
pub open spec fn all_fit(items: Seq<RlpTree>) -> bool
    decreases items,
{
    items.len() > 0 ==> fits(items[0]) && all_fit(items.drop_first())
}

/// Decoding a framed payload finds the frame: the declared length is that
/// of the payload, and a size field never starts with a zero byte.
proof fn lemma_frame_shape(offset: u8, payload: Seq<u8>, tail: Seq<u8>)
    requires
        offset == 128 || offset == 192,
        payload.len() <= u64::MAX,
    ensures
        ({
            let s = frame(offset, payload) + tail;
            let width: int = if payload.len() <= 55 {
                0
            } else {
                be_bytes(payload.len()).len() as int
            };
            &&& frame(offset, payload).len() == 1 + width + payload.len()
            &&& s[0] == (if payload.len() <= 55 {
                offset + payload.len()
            } else {
                offset + 55 + width
            })
            &&& 0 <= width <= 8
            &&& width > 0 ==> s[1] != 0 && be_nat(s.subrange(1, width + 1)) == payload.len()
            &&& s.subrange(1 + width, 1 + width + payload.len()) == payload
        }),
{
    let s = frame(offset, payload) + tail;
    if payload.len() <= 55 {
        assert(s.subrange(1, 1 + payload.len() as int) =~= payload);
    } else {
        let size = be_bytes(payload.len());
        crate::bytes::lemma_be_bytes_len_u64(payload.len());
        crate::bytes::lemma_be_bytes_value(payload.len());
        let width = size.len() as int;
        assert(s.subrange(1, width + 1) =~= size);
        assert(s[1] == size[0]);
        assert(s.subrange(1 + width, 1 + width + payload.len()) =~= payload);
    }
}

/// Decoding inverts encoding: an encoded tree, whatever follows it, decodes
/// to that tree and to the length of its encoding.
pub proof fn lemma_parse_encode(tree: RlpTree, tail: Seq<u8>, at: int)
    requires
        fits(tree),
    ensures
        parse(encode(tree) + tail, at) == Ok::<(RlpTree, int), DecodingErr>(
            (tree, encode(tree).len() as int),
        ),
    decreases tree, 1int,
{
    let s = encode(tree) + tail;
    match tree {
        RlpTree::Bytes(bytes) => {
            if bytes.len() == 1 && bytes[0] <= 127 {
                assert(seq![s[0]] =~= bytes);
            } else {
                lemma_frame_shape(128, bytes, tail);
            }
        },
        RlpTree::List(items) => {
            let payload = encode_all(items);
            lemma_frame_shape(192, payload, tail);
            let width: int = if payload.len() <= 55 {
                0
            } else {
                be_bytes(payload.len()).len() as int
            };
            lemma_parse_list_encode_all(items, at + 1 + width);
        },
    }
}

/// Decoding a list payload inverts encoding its items back to back.
pub proof fn lemma_parse_list_encode_all(items: Seq<RlpTree>, at: int)
    requires
        all_fit(items),
    ensures
        parse_list(encode_all(items), at) == Ok::<Seq<RlpTree>, DecodingErr>(items),
    decreases items, 0int,
{
    if items.len() == 0 {
        assert(items =~= Seq::<RlpTree>::empty());
    } else {
        let first = encode(items[0]);
        let rest = encode_all(items.drop_first());
        lemma_parse_encode(items[0], rest, at);
        lemma_encode_nonempty(items[0]);
        assert((first + rest).skip(first.len() as int) =~= rest);
        lemma_parse_list_encode_all(items.drop_first(), at + first.len());
        assert(seq![items[0]] + items.drop_first() =~= items);
    }
}

/// No encoding is empty.
pub proof fn lemma_encode_nonempty(tree: RlpTree)
    ensures
        encode(tree).len() >= 1,
{
}

/// The law of the wire format in one statement: a tree that fits, once
/// encoded, decodes as a whole input to itself with nothing left over.
pub proof fn lemma_round_trip(tree: RlpTree)
    requires
        fits(tree),
    ensures
        parse(encode(tree), 0) == Ok::<(RlpTree, int), DecodingErr>(
            (tree, encode(tree).len() as int),
        ),
{
    lemma_parse_encode(tree, Seq::empty(), 0);
    assert(encode(tree) + Seq::<u8>::empty() =~= encode(tree));
}

/// Encoding is unique: two trees with the same encoding are the same tree.
pub proof fn lemma_encode_injective(a: RlpTree, b: RlpTree)
    requires
        fits(a),
        fits(b),
        encode(a) == encode(b),
    ensures
        a == b,
{
    lemma_round_trip(a);
    lemma_round_trip(b);
}

/// A size field never starts with a zero byte.
pub proof fn lemma_no_leading_zero_in_size(offset: u8, payload: Seq<u8>)
    requires
        payload.len() > 55,
    ensures
        frame(offset, payload)[1] != 0,
{
    crate::bytes::lemma_be_bytes_value(payload.len());
}

/// Whether the first item of `s`, and every item inside it, is written in
/// the form that encoding chooses: no single byte up to 127 behind a tag
/// of its own, and no separate size field for a payload of up to 55 bytes.
/// Where `s` does not decode, nothing is asked.
pub open spec fn shortest(s: Seq<u8>) -> bool
    decreases s.len(), 0int,
{
    if s.len() == 0 || s[0] <= 127 {
        true
    } else if s[0] <= 183 {
        let len = s[0] - 128;
        s.len() < len + 1 || !(len == 1 && s[1] <= 127)
    } else {
        let long = s[0] <= 191 || s[0] >= 248;
        let width: int = if !long {
            0
        } else if s[0] <= 191 {
            s[0] - 183
        } else {
            s[0] - 247
        };
        if s.len() < width + 1 {
            true
        } else {
            let len: nat = if long {
                be_nat(s.subrange(1, width + 1))
            } else {
                (s[0] - 192) as nat
            };
            let from = width + 1;
            (long ==> len > 55) && (s[0] >= 192 && s.len() >= from + len ==> all_shortest(
                s.subrange(from, from + len),
            ))
        }
    }
}

/// Whether the items that `s` holds back to back are all written in their
/// shortest form.
pub open spec fn all_shortest(s: Seq<u8>) -> bool
    decreases s.len(), 1int,
{
    s.len() == 0 || (shortest(s) && match parse(s, 0) {
        Ok((_, n)) => 0 < n <= s.len() && all_shortest(s.skip(n)),
        Err(_) => true,
    })
}

/// Whether an input decodes, and to what, does not depend on where it
/// stands; only the positions in errors do.
pub proof fn lemma_parse_anywhere(s: Seq<u8>, at: int, other: int)
    ensures
        parse(s, at) matches Ok(found) ==> parse(s, other) == Ok::<(RlpTree, int), DecodingErr>(
            found,
        ),
    decreases s.len(), 0int,
{
    if s.len() > 0 && s[0] >= 192 {
        let long = s[0] >= 248;
        let width: int = if long {
            s[0] - 247
        } else {
            0
        };
        if s.len() >= width + 1 && !(long && s[1] == 0) {
            let len: nat = if long {
                be_nat(s.subrange(1, width + 1))
            } else {
                (s[0] - 192) as nat
            };
            let from = width + 1;
            if s.len() >= from + len {
                lemma_parse_list_anywhere(s.subrange(from, from + len), at + from, other + from);
            }
        }
    }
}

/// Whether a list payload decodes, and to what, does not depend on where
/// it stands.
pub proof fn lemma_parse_list_anywhere(s: Seq<u8>, at: int, other: int)
    ensures
        parse_list(s, at) matches Ok(found) ==> parse_list(s, other) == Ok::<
            Seq<RlpTree>,
            DecodingErr,
        >(found),
    decreases s.len(), 1int,
{
    if s.len() > 0 {
        lemma_parse_anywhere(s, at, other);
        match parse(s, at) {
            Ok((_, n)) => {
                if 0 < n <= s.len() {
                    lemma_parse_list_anywhere(s.skip(n), at + n, other + n);
                }
            },
            Err(_) => {},
        }
    }
}

/// Encoding inverts decoding on the shortest forms: where an input in
/// shortest form decodes, the tree it gives encodes to the bytes that were
/// read.
pub proof fn lemma_encode_parse(s: Seq<u8>, at: int)
    requires
        shortest(s),
    ensures
        parse(s, at) matches Ok((tree, n)) ==> encode(tree) == s.subrange(0, n),
    decreases s.len(), 0int,
{
    match parse(s, at) {
        Err(_) => {},
        Ok((tree, n)) => {
            if s[0] <= 127 {
                assert(seq![s[0]] =~= s.subrange(0, 1));
            } else if s[0] <= 183 {
                let len = s[0] - 128;
                let payload = s.subrange(1, len + 1);
                assert(seq![s[0]] + payload =~= s.subrange(0, n));
            } else {
                let long = s[0] <= 191 || s[0] >= 248;
                let width: int = if !long {
                    0
                } else if s[0] <= 191 {
                    s[0] - 183
                } else {
                    s[0] - 247
                };
                let size = s.subrange(1, width + 1);
                let len: nat = if long {
                    be_nat(size)
                } else {
                    (s[0] - 192) as nat
                };
                let from = width + 1;
                let payload = s.subrange(from, from + len);
                if long {
                    assert(size[0] == s[1]);
                    crate::bytes::lemma_be_bytes_of_minimal(size);
                }
                if s[0] >= 192 {
                    lemma_encode_parse_list(payload, at + from);
                }
                if long {
                    assert(seq![s[0]] + size + payload =~= s.subrange(0, n));
                } else {
                    assert(seq![s[0]] + payload =~= s.subrange(0, n));
                }
            }
        },
    }
}

/// Encoding inverts decoding on list payloads in shortest form.
pub proof fn lemma_encode_parse_list(s: Seq<u8>, at: int)
    requires
        all_shortest(s),
    ensures
        parse_list(s, at) matches Ok(items) ==> encode_all(items) == s,
    decreases s.len(), 1int,
{
    match parse_list(s, at) {
        Err(_) => {},
        Ok(items) => {
            if s.len() == 0 {
                assert(s =~= Seq::<u8>::empty());
            } else {
                lemma_parse_anywhere(s, at, 0);
                lemma_encode_parse(s, at);
                let n = parse(s, at)->Ok_0.1;
                lemma_encode_parse_list(s.skip(n), at + n);
                let rest = parse_list(s.skip(n), at + n)->Ok_0;
                assert(items.drop_first() =~= rest);
                assert(s.subrange(0, n) + s.skip(n) =~= s);
            }
        },
    }
}

/// The law of canonical form in one statement: an input in shortest form
/// that decodes as a whole is the encoding of what it decodes to.
pub proof fn lemma_canonical(s: Seq<u8>)
    requires
        shortest(s),
    ensures
        parse(s, 0) matches Ok((tree, n)) ==> n == s.len() ==> encode(tree) == s,
{
    lemma_encode_parse(s, 0);
    assert(s.subrange(0, s.len() as int) =~= s);
}

/// What encoding writes is in shortest form.
pub proof fn lemma_encode_shortest(tree: RlpTree, tail: Seq<u8>)
    requires
        fits(tree),
    ensures
        shortest(encode(tree) + tail),
    decreases tree, 1int,
{
    let s = encode(tree) + tail;
    match tree {
        RlpTree::Bytes(bytes) => {
            if !(bytes.len() == 1 && bytes[0] <= 127) {
                lemma_frame_shape(128, bytes, tail);
                if bytes.len() == 1 {
                    assert(s[1] == bytes[0]);
                }
            }
        },
        RlpTree::List(items) => {
            let payload = encode_all(items);
            lemma_frame_shape(192, payload, tail);
            lemma_encode_all_shortest(items);
        },
    }
}

/// What encoding writes for the items of a list is in shortest form.
pub proof fn lemma_encode_all_shortest(items: Seq<RlpTree>)
    requires
        all_fit(items),
    ensures
        all_shortest(encode_all(items)),
    decreases items, 0int,
{
    if items.len() > 0 {
        let first = encode(items[0]);
        let rest = encode_all(items.drop_first());
        lemma_encode_shortest(items[0], rest);
        lemma_parse_encode(items[0], rest, 0);
        lemma_encode_nonempty(items[0]);
        lemma_encode_all_shortest(items.drop_first());
        assert((first + rest).skip(first.len() as int) =~= rest);
    }
}

/// The smallest encodings: a single byte up to 127 is its own encoding, the
/// empty byte array is the byte 128, and the empty list is the byte 192.
pub proof fn lemma_smallest_encodings(b: u8)
    ensures
        b <= 127 ==> encode(RlpTree::Bytes(seq![b])) == seq![b],
        b > 127 ==> encode(RlpTree::Bytes(seq![b])) == seq![129u8, b],
        encode(RlpTree::Bytes(Seq::empty())) == seq![128u8],
        encode(RlpTree::List(Seq::empty())) == seq![192u8],
{
    assert(seq![129u8] + seq![b] =~= seq![129u8, b]);
    assert(seq![128u8] + Seq::<u8>::empty() =~= seq![128u8]);
    assert(encode_all(Seq::<RlpTree>::empty()) =~= Seq::<u8>::empty());
    assert(seq![192u8] + Seq::<u8>::empty() =~= seq![192u8]);
}

/// A decoded byte array is no longer than the bytes it was decoded from.
pub proof fn lemma_parsed_bytes_len(s: Seq<u8>, at: int)
    ensures
        parse(s, at) matches Ok((RlpTree::Bytes(bytes), n)) ==> bytes.len() <= n <= s.len(),
{
}

/// A framed payload is no longer than any frame that holds it: than the one
/// byte of a tag, `width` bytes of a size field that denotes its length,
/// and the payload.
proof fn lemma_frame_is_shortest(offset: u8, payload: Seq<u8>, size: Seq<u8>)
    requires
        size.len() == 0 ==> payload.len() <= 55,
        size.len() > 0 ==> be_nat(size) == payload.len(),
    ensures
        frame(offset, payload).len() <= 1 + size.len() + payload.len(),
{
    if payload.len() > 55 {
        crate::bytes::lemma_be_nat_bound(size);
        crate::bytes::lemma_be_bytes_len(payload.len(), size.len());
    }
}

/// What is decoded is no longer when encoded than it was, and fits the
/// format where the input is not too long.
pub proof fn lemma_parsed_fits(s: Seq<u8>, at: int)
    requires
        s.len() <= u64::MAX,
    ensures
        parse(s, at) matches Ok((tree, n)) ==> fits(tree) && encode(tree).len() <= n <= s.len(),
    decreases s.len(), 0int,
{
    match parse(s, at) {
        Err(_) => {},
        Ok((tree, n)) => {
            if s[0] <= 183 {
            } else {
                let long = s[0] <= 191 || s[0] >= 248;
                let width: int = if !long {
                    0
                } else if s[0] <= 191 {
                    s[0] - 183
                } else {
                    s[0] - 247
                };
                let size = if long {
                    s.subrange(1, width + 1)
                } else {
                    Seq::<u8>::empty()
                };
                let len: nat = if long {
                    be_nat(size)
                } else {
                    (s[0] - 192) as nat
                };
                let from = width + 1;
                let payload = s.subrange(from, from + len);
                if s[0] <= 191 {
                    lemma_frame_is_shortest(128, payload, size);
                } else {
                    lemma_parsed_list_fits(payload, at + from);
                    let items = parse_list(payload, at + from)->Ok_0;
                    let again = encode_all(items);
                    if long && again.len() > 55 {
                        crate::bytes::lemma_be_nat_bound(size);
                        crate::bytes::lemma_be_bytes_len(again.len(), size.len());
                    }
                }
            }
        },
    }
}

/// The items decoded from a list payload are no longer when encoded than
/// the payload, and fit the format.
pub proof fn lemma_parsed_list_fits(s: Seq<u8>, at: int)
    requires
        s.len() <= u64::MAX,
    ensures
        parse_list(s, at) matches Ok(items) ==> all_fit(items) && encode_all(items).len()
            <= s.len(),
    decreases s.len(), 1int,
{
    match parse_list(s, at) {
        Err(_) => {},
        Ok(items) => {
            if s.len() > 0 {
                lemma_parsed_fits(s, at);
                let n = parse(s, at)->Ok_0.1;
                lemma_parsed_list_fits(s.skip(n), at + n);
                let rest = parse_list(s.skip(n), at + n)->Ok_0;
                assert(items.drop_first() =~= rest);
            }
        },
    }
}

/// What is decoded can be decoded again from its encoding: where an input
/// decodes to a tree, the encoding of the tree decodes to the same tree.
pub proof fn lemma_decoded_round_trip(s: Seq<u8>)
    requires
        s.len() <= u64::MAX,
    ensures
        parse(s, 0) matches Ok((tree, _)) ==> parse(encode(tree), 0) == Ok::<
            (RlpTree, int),
            DecodingErr,
        >((tree, encode(tree).len() as int)),
{
    lemma_parsed_fits(s, 0);
    match parse(s, 0) {
        Ok((tree, _)) => {
            lemma_round_trip(tree);
        },
        Err(_) => {},
    }
}

/// A copy of a byte vector.
pub fn copy_bytes(bytes: &Vec<u8>) -> (out: Vec<u8>)
    ensures
        out@ == bytes@,
{
    let mut out: Vec<u8> = Vec::new();
    out.extend_from_slice(bytes.as_slice());
    out
}

impl RlpItem {
    /// A deep copy of the item.
    pub fn duplicate(&self) -> (out: RlpItem)
        ensures
            out@ == self@,
        decreases self,
    {
        match self {
            RlpItem::ByteArray(bytes) => RlpItem::ByteArray(copy_bytes(bytes)),
            RlpItem::List(items) => RlpItem::List(duplicate_all(items)),
        }
    }
}

/// Deep copies of the items of a list, in order.
pub fn duplicate_all(items: &Vec<RlpItem>) -> (out: Vec<RlpItem>)
    ensures
        trees_of(out@) == trees_of(items@),
    decreases items,
{
    let mut out: Vec<RlpItem> = Vec::new();
    let mut i: usize = 0;
    while i < items.len()
        invariant
            i <= items.len(),
            out@.len() == i,
            forall|j: int| 0 <= j < i ==> out@[j]@ == items@[j]@,
        decreases items.len() - i,
    {
        out.push(items[i].duplicate());
        i += 1;
    }
    assert(trees_of(out@) =~= trees_of(items@));
    out
}

/// Puts the size of `bytes` in front of it, counting tags from `offset`.
fn add_size(offset: u8, bytes: Vec<u8>) -> (out: Vec<u8>)
    requires
        offset == BYTE_ARRAY_OFFSET || offset == LIST_OFFSET,
    ensures
        out@ == frame(offset, bytes@),
{
    let mut bytes = bytes;
    let len: usize = bytes.len();
    let mut out: Vec<u8> = Vec::new();
    if len <= 55 {
        out.push(offset + len as u8);
        out.append(&mut bytes);
    } else {
        let mut size_bytes = usize_to_min_be_bytes(len);
        proof {
            crate::bytes::lemma_be_bytes_len_u64(len as nat);
        }
        out.push(offset + UNTAGGED_SIZE_LIMIT + size_bytes.len() as u8);
        out.append(&mut size_bytes);
        out.append(&mut bytes);
    }
    out
}

/// The encodings of the items of a list, back to back.
fn serialize_all(items: &Vec<RlpItem>) -> (out: Vec<u8>)
    ensures
        out@ == encode_all(trees_of(items@)),
    decreases items,
{
    let mut out: Vec<u8> = Vec::new();
    let mut i: usize = 0;
    let ghost trees = trees_of(items@);
    assert(trees.skip(0) =~= trees);
    while i < items.len()
        invariant
            i <= items.len(),
            trees == trees_of(items@),
            out@ + encode_all(trees.skip(i as int)) == encode_all(trees),
        decreases items.len() - i,
    {
        let mut one = items[i].serialize();
        proof {
            let tail = trees.skip(i as int);
            assert(tail[0] == items@[i as int]@);
            assert(tail.drop_first() =~= trees.skip(i + 1));
            assert((out@ + one@) + encode_all(trees.skip(i + 1)) =~= out@ + (one@ + encode_all(
                trees.skip(i + 1),
            )));
        }
        out.append(&mut one);
        i += 1;
    }
    assert(out@ =~= out@ + encode_all(trees.skip(i as int)));
    out
}

/// The number that the bytes `bytes[from..to]` denote in big-endian.
fn read_size(bytes: &[u8], from: usize, to: usize) -> (out: u64)
    requires
        from <= to <= bytes.len(),
        to - from <= 8,
    ensures
        out == be_nat(bytes@.subrange(from as int, to as int)),
{
    let mut out: u64 = 0;
    let mut i: usize = from;
    while i < to
        invariant
            from <= i <= to <= bytes.len(),
            to - from <= 8,
            out == be_nat(bytes@.subrange(from as int, i as int)),
            out < crate::bytes::pow256((i - from) as nat),
        decreases to - i,
    {
        proof {
            let next = bytes@.subrange(from as int, i + 1);
            assert(next.drop_last() =~= bytes@.subrange(from as int, i as int));
            assert(next.last() == bytes@[i as int]);
            crate::bytes::lemma_pow256_le((i - from + 1) as nat, 8);
            assert(crate::bytes::pow256(8) == 0x1_0000_0000_0000_0000) by {
                reveal_with_fuel(crate::bytes::pow256, 9);
            }
        }
        out = out * 256 + bytes[i] as u64;
        i += 1;
    }
    out
}

/// The bytes `bytes[from..to]` as a vector.
fn copy_range(bytes: &[u8], from: usize, to: usize) -> (out: Vec<u8>)
    requires
        from <= to <= bytes.len(),
    ensures
        out@ == bytes@.subrange(from as int, to as int),
{
    vstd::slice::slice_to_vec(vstd::slice::slice_subrange(bytes, from, to))
}

/// Decodes the item that starts at `start` and must end by `end`; gives the
/// item and the offset behind it.
fn try_decode_at(bytes: &[u8], start: usize, end: usize) -> (out: Result<
    (RlpItem, usize),
    DecodingErr,
>)
    requires
        start <= end <= bytes.len(),
    ensures
        match parse(bytes@.subrange(start as int, end as int), start as int) {
            Ok((tree, n)) => out matches Ok((item, next)) && item@ == tree && next == start + n,
            Err(e) => out == Err::<(RlpItem, usize), DecodingErr>(e),
        },
    decreases end - start, 0int,
{
    let ghost s = bytes@.subrange(start as int, end as int);
    if start == end {
        return Err(DecodingErr::Empty);
    }
    let tag: u8 = bytes[start];
    let avail: usize = end - start;
    assert(s[0] == tag);
    if tag <= UNTAGGED_LIMIT {
        let mut single: Vec<u8> = Vec::new();
        single.push(tag);
        assert(single@ =~= seq![tag]);
        return Ok((RlpItem::ByteArray(single), start + 1));
    }
    if tag <= BYTE_ARRAY_UNTAGGED_LIMIT {
        let len: usize = (tag - BYTE_ARRAY_OFFSET) as usize;
        if avail < len + 1 {
            return Err(DecodingErr::SizeOverflow { position: start, expected: len, actual: avail });
        }
        assert(s.subrange(1, len + 1) =~= bytes@.subrange(start + 1, start + 1 + len));
        return Ok((RlpItem::ByteArray(copy_range(bytes, start + 1, start + 1 + len)), start + 1 + len));
    }
    let long: bool = tag <= BYTE_ARRAY_LIMIT || tag >= LIST_TAGGED_OFFSET;
    let width: usize = if !long {
        0
    } else if tag <= BYTE_ARRAY_LIMIT {
        (tag - BYTE_ARRAY_UNTAGGED_LIMIT) as usize
    } else {
        (tag - LIST_UNTAGGED_LIMIT) as usize
    };
    if avail < width + 1 {
        return Err(DecodingErr::SizeOverflow { position: start, expected: width, actual: avail });
    }
    if long {
        assert(s[1] == bytes@[start + 1]);
        if bytes[start + 1] == 0 {
            return Err(DecodingErr::LeadingZerosInSize { position: start + 1 });
        }
    }
    let len: u64 = if long {
        assert(s.subrange(1, width + 1) =~= bytes@.subrange(start + 1, start + 1 + width));
        read_size(bytes, start + 1, start + 1 + width)
    } else {
        (tag - LIST_OFFSET) as u64
    };
    let from: usize = width + 1;
    if len > (avail - from) as u64 {
        let expected: usize = if len > usize::MAX as u64 {
            usize::MAX
        } else {
            len as usize
        };
        return Err(DecodingErr::SizeOverflow { position: start, expected, actual: avail });
    }
    let lo: usize = start + from;
    let hi: usize = lo + len as usize;
    assert(s.subrange(from as int, from + len) =~= bytes@.subrange(lo as int, hi as int));
    if tag <= BYTE_ARRAY_LIMIT {
        Ok((RlpItem::ByteArray(copy_range(bytes, lo, hi)), hi))
    } else {
        match decode_list_at(bytes, lo, hi) {
            Ok(items) => Ok((RlpItem::List(items), hi)),
            Err(e) => Err(e),
        }
    }
}

/// Decodes `bytes[start..end]` as items back to back.
fn decode_list_at(bytes: &[u8], start: usize, end: usize) -> (out: Result<
    Vec<RlpItem>,
    DecodingErr,
>)
    requires
        start <= end <= bytes.len(),
    ensures
        match parse_list(bytes@.subrange(start as int, end as int), start as int) {
            Ok(trees) => out matches Ok(items) && trees_of(items@) == trees,
            Err(e) => out == Err::<Vec<RlpItem>, DecodingErr>(e),
        },
    decreases end - start, 1int,
{
    let ghost whole = parse_list(bytes@.subrange(start as int, end as int), start as int);
    let mut items: Vec<RlpItem> = Vec::new();
    let mut pos: usize = start;
    assert(trees_of(items@) + Seq::<RlpTree>::empty() =~= trees_of(items@));
    assert(whole matches Ok(rest) ==> trees_of(items@) + rest =~= rest);
    while pos < end
        invariant
            start <= pos <= end <= bytes.len(),
            whole == parse_list(bytes@.subrange(start as int, end as int), start as int),
            match parse_list(bytes@.subrange(pos as int, end as int), pos as int) {
                Ok(rest) => whole == Ok::<Seq<RlpTree>, DecodingErr>(trees_of(items@) + rest),
                Err(e) => whole == Err::<Seq<RlpTree>, DecodingErr>(e),
            },
        decreases end - pos,
    {
        let ghost here = bytes@.subrange(pos as int, end as int);
        let ghost before = trees_of(items@);
        match try_decode_at(bytes, pos, end) {
            Err(e) => {
                return Err(e);
            },
            Ok((item, next)) => {
                proof {
                    let n = next - pos;
                    assert(here.skip(n) =~= bytes@.subrange(next as int, end as int));
                    match parse_list(here.skip(n), pos + n) {
                        Ok(rest) => {
                            assert(trees_of(items@.push(item)) + rest =~= before + (seq![item@]
                                + rest));
                        },
                        Err(_) => {},
                    }
                }
                items.push(item);
                pos = next;
            },
        }
    }
    proof {
        assert(trees_of(items@) + Seq::<RlpTree>::empty() =~= trees_of(items@));
    }
    Ok(items)
}

impl RlpItem {
    /// Unpacks a byte array; a list gives `InvalidBinary`.
    pub fn byte_array(&self) -> (out: Result<Vec<u8>, crate::error::DecodingErr>)
        ensures
            match self@ {
                RlpTree::Bytes(bytes) => out matches Ok(v) && v@ == bytes,
                RlpTree::List(_) => out == Err::<Vec<u8>, _>(
                    crate::error::DecodingErr::InvalidBinary,
                ),
            },
    {
        match self {
            RlpItem::ByteArray(bytes) => Ok(copy_bytes(bytes)),
            RlpItem::List(_) => Err(crate::error::DecodingErr::InvalidBinary),
        }
    }

    /// Unpacks a list of items; a byte array gives `InvalidList`.
    pub fn list(&self) -> (out: Result<Vec<RlpItem>, crate::error::DecodingErr>)
        ensures
            match self@ {
                RlpTree::Bytes(_) => out == Err::<Vec<RlpItem>, _>(
                    crate::error::DecodingErr::InvalidList,
                ),
                RlpTree::List(items) => out matches Ok(v) && trees_of(v@) == items,
            },
    {
        match self {
            RlpItem::ByteArray(_) => Err(crate::error::DecodingErr::InvalidList),
            RlpItem::List(items) => Ok(duplicate_all(items)),
        }
    }

    /// Decodes the first item of `bytes` and gives it with the bytes behind
    /// it, or the decoding error.
    pub fn try_deserialize(bytes: &[u8]) -> (out: Result<(RlpItem, &[u8]), DecodingErr>)
        ensures
            match parse(bytes@, 0) {
                Ok((tree, n)) => out matches Ok((item, rest)) && item@ == tree && rest@
                    == bytes@.skip(n),
                Err(e) => out == Err::<(RlpItem, &[u8]), DecodingErr>(e),
            },
    {
        assert(bytes@.subrange(0, bytes@.len() as int) =~= bytes@);
        match try_decode_at(bytes, 0, bytes.len()) {
            Ok((item, next)) => {
                let rest = vstd::slice::slice_subrange(bytes, next, bytes.len());
                assert(rest@ =~= bytes@.skip(next as int));
                Ok((item, rest))
            },
            Err(e) => Err(e),
        }
    }

    /// Decodes `bytes` as exactly one item. Bytes behind the item give
    /// `Trailing`, with the input, the bytes left over and the item.
    pub fn deserialize(bytes: &[u8]) -> (out: Result<RlpItem, DecodingErr>)
        ensures
            match parse(bytes@, 0) {
                Ok((tree, n)) => if n == bytes@.len() {
                    out matches Ok(item) && item@ == tree
                } else {
                    out matches Err(DecodingErr::Trailing { input, undecoded, decoded })
                        && input@ == bytes@ && undecoded@ == bytes@.skip(n) && decoded@ == tree
                },
                Err(e) => out == Err::<RlpItem, DecodingErr>(e),
            },
    {
        assert(bytes@.subrange(0, bytes@.len() as int) =~= bytes@);
        match try_decode_at(bytes, 0, bytes.len()) {
            Ok((item, next)) => {
                if next == bytes.len() {
                    Ok(item)
                } else {
                    let undecoded = copy_range(bytes, next, bytes.len());
                    assert(undecoded@ =~= bytes@.skip(next as int));
                    Err(
                        DecodingErr::Trailing {
                            input: vstd::slice::slice_to_vec(bytes),
                            undecoded,
                            decoded: item,
                        },
                    )
                }
            },
            Err(e) => Err(e),
        }
    }

    /// Serializes the item into bytes.
    pub fn serialize(&self) -> (out: Vec<u8>)
        ensures
            out@ == encode(self@),
        decreases self,
    {
        match self {
            RlpItem::ByteArray(bytes) => {
                if bytes.len() == 1 && bytes[0] <= UNTAGGED_LIMIT {
                    copy_bytes(bytes)
                } else {
                    add_size(BYTE_ARRAY_OFFSET, copy_bytes(bytes))
                }
            },
            RlpItem::List(items) => add_size(LIST_OFFSET, serialize_all(items)),
        }
    }
}

impl Clone for RlpItem {
    fn clone(&self) -> (out: RlpItem)
        ensures
            out@ == self@,
    {
        self.duplicate()
    }
}

/// Conversion to an RLP item.
pub trait ToRlpItem {
    /// The tree that the value is converted to.
    spec fn rlp_tree(&self) -> RlpTree;

    /// The value as an RLP item.
    fn to_rlp_item(&self) -> (out: RlpItem)
        ensures
            out@ == self.rlp_tree(),
    ;

    /// The value as the bytes of its RLP item.
    fn serialize_rlp(&self) -> (out: Vec<u8>)
        ensures
            out@ == encode(self.rlp_tree()),
    {
        self.to_rlp_item().serialize()
    }
}

/// Conversion from an RLP item.
pub trait FromRlpItem: Sized {
    /// Whether `out` is what converting `tree` gives: the value, or the
    /// error.
    spec fn converts(tree: RlpTree, out: Result<Self, ItemErr>) -> bool;

    /// Converts an RLP item.
    fn from_rlp_item(item: &RlpItem) -> (out: Result<Self, ItemErr>)
        ensures
            Self::converts(item@, out),
    ;

    /// Decodes `data` as exactly one RLP item and converts it. Bytes that
    /// are not exactly one item give `InvalidRlp`.
    fn deserialize_rlp(data: &[u8]) -> (out: Result<Self, ItemErr>)
        ensures
            match parse(data@, 0) {
                Ok((tree, n)) => if n == data@.len() {
                    Self::converts(tree, out)
                } else {
                    out == Err::<Self, ItemErr>(ItemErr::InvalidRlp)
                },
                Err(_) => out == Err::<Self, ItemErr>(ItemErr::InvalidRlp),
            },
    {
        match RlpItem::deserialize(data) {
            Ok(item) => Self::from_rlp_item(&item),
            Err(_) => Err(ItemErr::InvalidRlp),
        }
    }
}

impl ToRlpItem for RlpItem {
    open spec fn rlp_tree(&self) -> RlpTree {
        self@
    }

    fn to_rlp_item(&self) -> (out: RlpItem) {
        let out = self.duplicate();
        assert(self.rlp_tree() == self@);
        out
    }
}

impl ToRlpItem for u8 {
    open spec fn rlp_tree(&self) -> RlpTree {
        RlpTree::Bytes(be_bytes(*self as nat))
    }

    fn to_rlp_item(&self) -> (out: RlpItem) {
        let out = RlpItem::ByteArray(crate::bytes::u64_to_min_be_bytes(*self as u64));
        assert(out@ == RlpTree::Bytes(be_bytes(*self as nat)));
        assert(self.rlp_tree() == RlpTree::Bytes(be_bytes(*self as nat)));
        out
    }
}

impl ToRlpItem for u32 {
    open spec fn rlp_tree(&self) -> RlpTree {
        RlpTree::Bytes(be_bytes(*self as nat))
    }

    fn to_rlp_item(&self) -> (out: RlpItem) {
        let out = RlpItem::ByteArray(crate::bytes::u64_to_min_be_bytes(*self as u64));
        assert(out@ == RlpTree::Bytes(be_bytes(*self as nat)));
        assert(self.rlp_tree() == RlpTree::Bytes(be_bytes(*self as nat)));
        out
    }
}

impl ToRlpItem for bool {
    open spec fn rlp_tree(&self) -> RlpTree {
        RlpTree::Bytes(
            seq![if *self {
                1u8
            } else {
                0u8
            }],
        )
    }

    fn to_rlp_item(&self) -> (out: RlpItem) {
        let byte: u8 = if *self {
            1
        } else {
            0
        };
        let bytes: Vec<u8> = vec![byte];
        assert(bytes@ =~= seq![byte]);
        let out = RlpItem::ByteArray(bytes);
        assert(out@ == RlpTree::Bytes(seq![byte]));
        assert(self.rlp_tree() == RlpTree::Bytes(seq![byte]));
        out
    }
}

impl FromRlpItem for RlpItem {
    open spec fn converts(tree: RlpTree, out: Result<RlpItem, ItemErr>) -> bool {
        out matches Ok(item) && item@ == tree
    }

    fn from_rlp_item(item: &RlpItem) -> (out: Result<RlpItem, ItemErr>) {
        let out = Ok(item.duplicate());
        assert(Self::converts(item@, out));
        out
    }
}

impl FromRlpItem for u8 {
    /// A byte is a byte array of exactly one byte.
    open spec fn converts(tree: RlpTree, out: Result<u8, ItemErr>) -> bool {
        match tree {
            RlpTree::List(_) => out == Err::<u8, ItemErr>(ItemErr::InvalidBinary),
            RlpTree::Bytes(bytes) => if bytes.len() == 1 {
                out == Ok::<u8, ItemErr>(bytes[0])
            } else {
                out == Err::<u8, ItemErr>(ItemErr::InvalidInt)
            },
        }
    }

    fn from_rlp_item(item: &RlpItem) -> (out: Result<u8, ItemErr>) {
        let out = match item {
            RlpItem::List(_) => Err(ItemErr::InvalidBinary),
            RlpItem::ByteArray(bytes) => {
                if bytes.len() != 1 {
                    Err(ItemErr::InvalidInt)
                } else {
                    Ok(bytes[0])
                }
            },
        };
        assert(Self::converts(item@, out));
        out
    }
}

impl FromRlpItem for u32 {
    /// A 32-bit number is a byte array of one to four bytes in minimal
    /// big-endian form.
    open spec fn converts(tree: RlpTree, out: Result<u32, ItemErr>) -> bool {
        match tree {
            RlpTree::List(_) => out == Err::<u32, ItemErr>(ItemErr::InvalidBinary),
            RlpTree::Bytes(bytes) => if is_minimal(bytes) && bytes.len() <= 4 {
                out matches Ok(n) && n == be_nat(bytes)
            } else {
                out == Err::<u32, ItemErr>(ItemErr::InvalidInt)
            },
        }
    }

    fn from_rlp_item(item: &RlpItem) -> (out: Result<u32, ItemErr>) {
        let out = match item {
            RlpItem::List(_) => Err(ItemErr::InvalidBinary),
            RlpItem::ByteArray(bytes) => {
                if bytes.len() == 0 || bytes.len() > 4 || (bytes.len() > 1 && bytes[0] == 0) {
                    Err(ItemErr::InvalidInt)
                } else {
                    assert(bytes@.subrange(0, bytes@.len() as int) =~= bytes@);
                    let n = read_size(bytes.as_slice(), 0, bytes.len());
                    proof {
                        crate::bytes::lemma_be_nat_bound(bytes@);
                        crate::bytes::lemma_pow256_le(bytes@.len(), 4);
                        assert(crate::bytes::pow256(4) == 0x1_0000_0000) by {
                            reveal_with_fuel(crate::bytes::pow256, 5);
                        }
                    }
                    Ok(n as u32)
                }
            },
        };
        assert(Self::converts(item@, out));
        out
    }
}

impl FromRlpItem for bool {
    /// A boolean is the byte array of the one byte 0 or 1.
    open spec fn converts(tree: RlpTree, out: Result<bool, ItemErr>) -> bool {
        match tree {
            RlpTree::List(_) => out == Err::<bool, ItemErr>(ItemErr::InvalidBinary),
            RlpTree::Bytes(bytes) => if bytes == seq![0u8] {
                out == Ok::<bool, ItemErr>(false)
            } else if bytes == seq![1u8] {
                out == Ok::<bool, ItemErr>(true)
            } else {
                out == Err::<bool, ItemErr>(ItemErr::InvalidBool)
            },
        }
    }

    fn from_rlp_item(item: &RlpItem) -> (out: Result<bool, ItemErr>) {
        let out = match item {
            RlpItem::List(_) => Err(ItemErr::InvalidBinary),
            RlpItem::ByteArray(bytes) => {
                if bytes.len() == 1 && bytes[0] == 0 {
                    assert(bytes@ =~= seq![0u8]);
                    Ok(false)
                } else if bytes.len() == 1 && bytes[0] == 1 {
                    assert(bytes@ =~= seq![1u8]);
                    Ok(true)
                } else {
                    assert(bytes@ != seq![0u8] && bytes@ != seq![1u8]) by {
                        if bytes@.len() == 1 {
                            assert(seq![0u8][0] == 0u8 && seq![1u8][0] == 1u8);
                        } else {
                            assert(seq![0u8].len() == 1 && seq![1u8].len() == 1);
                        }
                    }
                    Err(ItemErr::InvalidBool)
                }
            },
        };
        assert(Self::converts(item@, out));
        out
    }
}

impl ToRlpItem for crate::bytes::Bytes {
    /// Bytes are a byte array.
    open spec fn rlp_tree(&self) -> RlpTree {
        RlpTree::Bytes(self@)
    }

    fn to_rlp_item(&self) -> (out: RlpItem) {
        let out = RlpItem::ByteArray(self.clone().to_vec());
        assert(self.rlp_tree() == RlpTree::Bytes(self@));
        out
    }
}

impl FromRlpItem for crate::bytes::Bytes {
    /// Bytes are a byte array; a list gives `InvalidBinary`.
    open spec fn converts(tree: RlpTree, out: Result<crate::bytes::Bytes, ItemErr>) -> bool {
        match tree {
            RlpTree::Bytes(bytes) => out matches Ok(v) && v@ == bytes,
            RlpTree::List(_) => out == Err::<crate::bytes::Bytes, ItemErr>(ItemErr::InvalidBinary),
        }
    }

    fn from_rlp_item(item: &RlpItem) -> (out: Result<crate::bytes::Bytes, ItemErr>) {
        let out = match item {
            RlpItem::ByteArray(bytes) => Ok(crate::bytes::Bytes::from(bytes.as_slice())),
            RlpItem::List(_) => Err(ItemErr::InvalidBinary),
        };
        assert(Self::converts(item@, out));
        out
    }
}

} // verus!
