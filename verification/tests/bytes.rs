use aeser::bytes::{u64_to_min_be_bytes, usize_to_min_be_bytes, Bytes};
use aeser::error::DecodingErr;
use aeser::rlp::{FromRlpItem, RlpItem, ToRlpItem};

#[test]
fn bytes_basics() {
    let empty = Bytes::new();
    assert!(empty.is_empty());
    assert_eq!(empty.len(), 0);
    assert_eq!(empty.to_vec(), Vec::<u8>::new());
    let bytes = Bytes::from(&[1, 2, 3]);
    assert!(!bytes.is_empty());
    assert_eq!(bytes.len(), 3);
    assert_eq!(bytes.get(0), 1);
    assert_eq!(bytes.get(2), 3);
    assert_eq!(bytes.clone(), bytes);
    assert_eq!(bytes.to_vec(), vec![1, 2, 3]);
}

#[test]
fn bytes_reverse_extend_resize() {
    let mut bytes = Bytes::from(&[1, 2, 3]);
    bytes.reverse();
    assert_eq!(bytes, Bytes::from(&[3, 2, 1]));
    bytes.extend(&[9, 8]);
    assert_eq!(bytes, Bytes::from(&[3, 2, 1, 9, 8]));
    bytes.resize(2, 0);
    assert_eq!(bytes, Bytes::from(&[3, 2]));
    bytes.resize(4, 7);
    assert_eq!(bytes, Bytes::from(&[3, 2, 7, 7]));
    bytes.resize(4, 1);
    assert_eq!(bytes, Bytes::from(&[3, 2, 7, 7]));
    bytes.resize(0, 1);
    assert!(bytes.is_empty());
    bytes.reverse();
    assert!(bytes.is_empty());
    let mut one = Bytes::from(&[5]);
    one.reverse();
    assert_eq!(one, Bytes::from(&[5]));
}

#[test]
fn bytes_through_rlp() {
    let bytes = Bytes::from(&[200, 1]);
    assert_eq!(bytes.to_rlp_item(), RlpItem::ByteArray(vec![200, 1]));
    assert_eq!(bytes.serialize_rlp(), vec![0x82, 200, 1]);
    assert_eq!(Bytes::from_rlp_item(&RlpItem::ByteArray(vec![200, 1])), Ok(bytes));
    assert_eq!(Bytes::from_rlp_item(&RlpItem::List(vec![])), Err(DecodingErr::InvalidBinary));
    assert_eq!(Bytes::deserialize_rlp(&[0x80]), Ok(Bytes::new()));
}

#[test]
fn minimal_big_endian_bytes() {
    assert_eq!(u64_to_min_be_bytes(0), vec![0]);
    assert_eq!(u64_to_min_be_bytes(1), vec![1]);
    assert_eq!(u64_to_min_be_bytes(255), vec![255]);
    assert_eq!(u64_to_min_be_bytes(256), vec![1, 0]);
    assert_eq!(u64_to_min_be_bytes(0x0102_0304_0506_0708), vec![1, 2, 3, 4, 5, 6, 7, 8]);
    assert_eq!(u64_to_min_be_bytes(u64::MAX), vec![255; 8]);
    assert_eq!(usize_to_min_be_bytes(56), vec![56]);
    assert_eq!(usize_to_min_be_bytes(1024), vec![4, 0]);
}
