use aeser::error::DecodingErr;
use aeser::id::{EncodedId, Id, Tag, PUB_SIZE, SERIALIZED_SIZE, TAG_SIZE};
use aeser::rlp::{FromRlpItem, RlpItem, ToRlpItem};

fn all_tags() -> Vec<(Tag, u8)> {
    vec![
        (Tag::Account, 1),
        (Tag::Name, 2),
        (Tag::Commitment, 3),
        (Tag::Oracle, 4),
        (Tag::Contract, 5),
        (Tag::Channel, 6),
    ]
}

fn payload() -> [u8; 32] {
    let mut bytes = [0u8; 32];
    for (i, b) in bytes.iter_mut().enumerate() {
        *b = (i * 7 + 3) as u8;
    }
    bytes
}

#[test]
fn id_sizes() {
    assert_eq!(PUB_SIZE, 32);
    assert_eq!(TAG_SIZE, 1);
    assert_eq!(SERIALIZED_SIZE, 33);
}

#[test]
fn id_serializes_to_tag_and_payload() {
    for (tag, byte) in all_tags() {
        let id = Id { tag, val: EncodedId { bytes: payload() } };
        let bytes = id.serialize();
        assert_eq!(bytes.len(), 33);
        assert_eq!(bytes[0], byte);
        assert_eq!(&bytes[1..], &payload()[..]);
        assert_eq!(Id::deserialize(&bytes), Ok(id));
        assert_eq!(tag.to_u8(), byte);
        assert_eq!(Tag::from_u8(byte), Some(tag));
    }
}

#[test]
fn id_rlp_roundtrip() {
    for (tag, _) in all_tags() {
        let id = Id { tag, val: EncodedId { bytes: payload() } };
        let rlp = id.to_rlp_item();
        assert_eq!(rlp, RlpItem::ByteArray(id.serialize()));
        let id1: Id = FromRlpItem::from_rlp_item(&rlp).expect("Decoding id from rlp");
        assert_eq!(id1, id);
        let bytes = id.serialize_rlp();
        assert_eq!(bytes[0], 128 + 33);
        assert_eq!(Id::deserialize_rlp(&bytes), Ok(id));
    }
}

#[test]
fn id_rejects_bad_input() {
    assert_eq!(Id::deserialize(&[]), Err(DecodingErr::InvalidIdSize));
    assert_eq!(Id::deserialize(&[1; 32]), Err(DecodingErr::InvalidIdSize));
    assert_eq!(Id::deserialize(&[1; 34]), Err(DecodingErr::InvalidIdSize));
    assert_eq!(Id::deserialize(&[0; 33]), Err(DecodingErr::InvalidIdTag));
    assert_eq!(Id::deserialize(&[7; 33]), Err(DecodingErr::InvalidIdTag));
    assert_eq!(Tag::from_u8(0), None);
    assert_eq!(Tag::from_u8(7), None);
    assert_eq!(
        Id::from_rlp_item(&RlpItem::List(vec![])),
        Err(DecodingErr::InvalidRlp)
    );
    assert_eq!(
        Id::from_rlp_item(&RlpItem::ByteArray(vec![1; 5])),
        Err(DecodingErr::InvalidIdSize)
    );
    assert_eq!(Id::deserialize_rlp(&[1, 2]), Err(DecodingErr::InvalidRlp));
}
