//! Identifiers of chain objects: a tag byte and a payload of 32 bytes.

use crate::error::DecodingErr;
use crate::rlp::{FromRlpItem, RlpItem, RlpTree, ToRlpItem};
use vstd::prelude::*;

verus! {

/// Size of the id payload (eg, a public key).
pub const PUB_SIZE: usize = 32;

/// Size of the id type tag.
pub const TAG_SIZE: usize = 1;

/// Total byte size of a serialized id.
pub const SERIALIZED_SIZE: usize = 33;

/// Denotes the type of an id.
#[derive(Debug, Clone, Copy, PartialEq, Eq, Structural)]
pub enum Tag {
    Account,
    Name,
    Commitment,
    Oracle,
    Contract,
    Channel,
}

/// Wrapper for an id payload.
#[derive(Debug, Clone, Copy, PartialEq, Eq)]
pub struct EncodedId {
    pub bytes: [u8; 32],
}

/// Identifier of a chain object.
#[derive(Debug, Clone, Copy, PartialEq, Eq)]
pub struct Id {
    pub tag: Tag,
    pub val: EncodedId,
}

/// The byte that stands for a tag: 1 for an account, 2 for a name, 3 for a
/// commitment, 4 for an oracle, 5 for a contract, 6 for a channel.
pub open spec fn tag_byte(tag: Tag) -> u8 {
    match tag {
        Tag::Account => 1,
        Tag::Name => 2,
        Tag::Commitment => 3,
        Tag::Oracle => 4,
        Tag::Contract => 5,
        Tag::Channel => 6,
    }
}

/// The tag that a byte stands for, if any.
pub open spec fn byte_tag(byte: u8) -> Option<Tag> {
    if byte == 1 {
        Some(Tag::Account)
    } else if byte == 2 {
        Some(Tag::Name)
    } else if byte == 3 {
        Some(Tag::Commitment)
    } else if byte == 4 {
        Some(Tag::Oracle)
    } else if byte == 5 {
        Some(Tag::Contract)
    } else if byte == 6 {
        Some(Tag::Channel)
    } else {
        None
    }
}

/// The 33 bytes of an id: the byte of its tag, then its payload.
pub open spec fn encode_id(id: Id) -> Seq<u8> {
    seq![tag_byte(id.tag)] + id.val.bytes@
}

/// What decoding `s` as an id gives: the tag and the payload, or the error.
/// Anything but 33 bytes has an invalid size; the first byte must stand for
/// a tag.
pub open spec fn parse_id(s: Seq<u8>) -> Result<(Tag, Seq<u8>), DecodingErr> {
    if s.len() != 33 {
        Err(DecodingErr::InvalidIdSize)
    } else {
        match byte_tag(s[0]) {
            None => Err(DecodingErr::InvalidIdTag),
            Some(tag) => Ok((tag, s.skip(1))),
        }
    }
}

/// Whether `out` is what `parsed` says: the id with that tag and payload, or
/// that error.
pub open spec fn id_matches(parsed: Result<(Tag, Seq<u8>), DecodingErr>, out: Result<
    Id,
    DecodingErr,
>) -> bool {
    match parsed {
        Ok((tag, payload)) => out matches Ok(id) && id.tag == tag && id.val.bytes@ == payload,
        Err(e) => out == Err::<Id, DecodingErr>(e),
    }
}

/// Decoding inverts encoding: the bytes of an id decode to its tag and its
/// payload.
pub proof fn lemma_id_round_trip(id: Id)
    ensures
        parse_id(encode_id(id)) == Ok::<(Tag, Seq<u8>), DecodingErr>((id.tag, id.val.bytes@)),
{
    let s = encode_id(id);
    assert(s.skip(1) =~= id.val.bytes@);
}

/// Encoding inverts decoding: bytes that decode to a tag and a payload are
/// the byte of that tag and then that payload.
pub proof fn lemma_id_canonical(s: Seq<u8>)
    ensures
        parse_id(s) matches Ok((tag, payload)) ==> s == seq![tag_byte(tag)] + payload,
{
    match parse_id(s) {
        Ok((tag, payload)) => {
            assert(s =~= seq![tag_byte(tag)] + payload);
        },
        Err(_) => {},
    }
}

impl Tag {
    /// The byte that stands for the tag.
    pub fn to_u8(self) -> (out: u8)
        ensures
            out == tag_byte(self),
    {
        match self {
            Tag::Account => 1,
            Tag::Name => 2,
            Tag::Commitment => 3,
            Tag::Oracle => 4,
            Tag::Contract => 5,
            Tag::Channel => 6,
        }
    }

    /// The tag that a byte stands for, if any.
    pub fn from_u8(byte: u8) -> (out: Option<Tag>)
        ensures
            out == byte_tag(byte),
    {
        if byte == 1 {
            Some(Tag::Account)
        } else if byte == 2 {
            Some(Tag::Name)
        } else if byte == 3 {
            Some(Tag::Commitment)
        } else if byte == 4 {
            Some(Tag::Oracle)
        } else if byte == 5 {
            Some(Tag::Contract)
        } else if byte == 6 {
            Some(Tag::Channel)
        } else {
            None
        }
    }
}

/// The 32 bytes `bytes[from..from + 32]` as an array.
pub fn payload_of(bytes: &[u8], from: usize) -> (out: [u8; 32])
    requires
        from + 32 <= bytes@.len(),
    ensures
        out@ == bytes@.subrange(from as int, from + 32),
{
    let mut out: [u8; 32] = [0u8; 32];
    let mut i: usize = 0;
    let len: usize = bytes.len();
    while i < 32
        invariant
            i <= 32,
            from + 32 <= len,
            len == bytes@.len(),
            forall|j: int| 0 <= j < i ==> out@[j] == bytes@[from + j],
        decreases 32 - i,
    {
        out[i] = bytes[from + i];
        i += 1;
    }
    assert(out@ =~= bytes@.subrange(from as int, from + 32));
    out
}

impl Id {
    /// Serializes an id into a byte array.
    pub fn serialize(&self) -> (out: Vec<u8>)
        ensures
            out@ == encode_id(*self),
    {
        let mut encoded: Vec<u8> = Vec::new();
        encoded.push(self.tag.to_u8());
        encoded.extend_from_slice(self.val.bytes.as_slice());
        encoded
    }

    /// Deserializes an id from a byte array.
    pub fn deserialize(bytes: &[u8]) -> (out: Result<Id, DecodingErr>)
        ensures
            id_matches(parse_id(bytes@), out),
    {
        if bytes.len() != SERIALIZED_SIZE {
            return Err(DecodingErr::InvalidIdSize);
        }
        let tag = match Tag::from_u8(bytes[0]) {
            Some(tag) => tag,
            None => {
                return Err(DecodingErr::InvalidIdTag);
            },
        };
        let val = payload_of(bytes, TAG_SIZE);
        assert(bytes@.subrange(1, 33) =~= bytes@.skip(1));
        Ok(Id { tag, val: EncodedId { bytes: val } })
    }
}

impl ToRlpItem for Id {
    /// An id is the byte array of its 33 bytes.
    open spec fn rlp_tree(&self) -> RlpTree {
        RlpTree::Bytes(encode_id(*self))
    }

    fn to_rlp_item(&self) -> (out: RlpItem) {
        RlpItem::ByteArray(self.serialize())
    }
}

impl FromRlpItem for Id {
    /// An id is never a list; a byte array is decoded as an id.
    open spec fn converts(tree: RlpTree, out: Result<Id, DecodingErr>) -> bool {
        match tree {
            RlpTree::List(_) => out == Err::<Id, DecodingErr>(DecodingErr::InvalidRlp),
            RlpTree::Bytes(bytes) => id_matches(parse_id(bytes), out),
        }
    }

    fn from_rlp_item(item: &RlpItem) -> (out: Result<Id, DecodingErr>) {
        match item {
            RlpItem::List(_) => Err(DecodingErr::InvalidRlp),
            RlpItem::ByteArray(bytes) => Id::deserialize(bytes.as_slice()),
        }
    }
}

} // verus!
