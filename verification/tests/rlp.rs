use aeser::bytes::usize_to_min_be_bytes;
use aeser::error::DecodingErr as ItemErr;
use aeser::rlp::{DecodingErr, FromRlpItem, RlpItem, ToRlpItem};

fn encode_then_decode(input: RlpItem, expect: Vec<u8>) {
    let encoded = input.serialize();
    let decoded = RlpItem::deserialize(&encoded);

    assert_eq!(encoded, expect);
    assert_eq!(decoded, Ok(input));
}

#[test]
fn zero_bytes() {
    let input = RlpItem::ByteArray(vec![]);
    let expect = vec![128];
    encode_then_decode(input, expect);
}

#[test]
fn zero_bytes_list() {
    let input = RlpItem::List(vec![]);
    let expect = vec![192];
    encode_then_decode(input, expect);
}

#[test]
fn gal_size_encoding_list() {
    let len = 56;
    let len_bytes = 1;
    let tag = 247 + len_bytes;
    let input_nums = vec![42; len];
    let input_bytes: Vec<u8> = input_nums.iter().map(|x| *x as u8).collect();

    let input: Vec<u8> = vec![tag + 1]
        .into_iter()
        .chain(vec![0])
        .chain(usize_to_min_be_bytes(len))
        .chain(input_bytes)
        .collect();
    assert_eq!(
        RlpItem::deserialize(&input),
        Err(DecodingErr::LeadingZerosInSize { position: 1 })
    );
}

#[test]
fn gal_size_encoding_byte_array() {
    let len = 256;
    let len_bytes = 2;
    let tag = 183 + len_bytes;
    let input_bytes = vec![42; len];
    let input: Vec<u8> = vec![tag + 1]
        .into_iter()
        .chain(vec![0])
        .chain(usize_to_min_be_bytes(len))
        .chain(input_bytes)
        .collect();
    assert_eq!(
        RlpItem::deserialize(&input),
        Err(DecodingErr::LeadingZerosInSize { position: 1 })
    );
}

fn bytes(n: usize) -> Vec<u8> {
    (0..n).map(|i| (i % 251) as u8 | 0x80).collect()
}

#[test]
fn one_byte() {
    for b in 0..=127u8 {
        encode_then_decode(RlpItem::ByteArray(vec![b]), vec![b]);
    }
    for b in 128..=255u8 {
        encode_then_decode(RlpItem::ByteArray(vec![b]), vec![0x81, b]);
    }
}

#[test]
fn one_byte_size_bytes() {
    for n in [2usize, 3, 54, 55] {
        let input = bytes(n);
        let expect = [vec![128 + n as u8], input.clone()].concat();
        encode_then_decode(RlpItem::ByteArray(input), expect);
    }
}

#[test]
fn tagged_size_bytes() {
    for n in [56usize, 57, 255, 256, 65535, 65536] {
        let input = bytes(n);
        let size = usize_to_min_be_bytes(n);
        let expect = [vec![183 + size.len() as u8], size, input.clone()].concat();
        encode_then_decode(RlpItem::ByteArray(input), expect);
    }
}

#[test]
fn one_byte_array_list() {
    for n in [1usize, 2, 54, 55] {
        let items: Vec<RlpItem> = (0..n).map(|i| RlpItem::ByteArray(vec![i as u8])).collect();
        let payload: Vec<u8> = (0..n).map(|i| i as u8).collect();
        let expect = [vec![192 + n as u8], payload].concat();
        encode_then_decode(RlpItem::List(items), expect);
    }
}

#[test]
fn byte_array_tagged_size_list() {
    for n in [56usize, 193, 220, 256, 70000] {
        let items: Vec<RlpItem> = (0..n).map(|i| RlpItem::ByteArray(vec![(i % 56) as u8])).collect();
        let payload: Vec<u8> = (0..n).map(|i| (i % 56) as u8).collect();
        let size = usize_to_min_be_bytes(n);
        let expect = [vec![247 + size.len() as u8], size, payload].concat();
        encode_then_decode(RlpItem::List(items), expect);
    }
}

#[test]
fn nested_lists() {
    let item = RlpItem::List(vec![
        RlpItem::List(vec![]),
        RlpItem::List(vec![RlpItem::List(vec![])]),
        RlpItem::List(vec![RlpItem::List(vec![]), RlpItem::List(vec![RlpItem::List(vec![])])]),
    ]);
    encode_then_decode(item.clone(), vec![0xC7, 0xC0, 0xC1, 0xC0, 0xC3, 0xC0, 0xC1, 0xC0]);
    let cat_dog = RlpItem::List(vec![
        RlpItem::ByteArray(b"cat".to_vec()),
        RlpItem::ByteArray(b"dog".to_vec()),
    ]);
    encode_then_decode(cat_dog, vec![0xC8, 0x83, b'c', b'a', b't', 0x83, b'd', b'o', b'g']);
    assert_eq!(item.clone(), item);
}

#[test]
fn usize_to_min_be_bytes_plain() {
    let samples = [0usize, 1, 55, 56, 255, 256, 65535, 65536, 1 << 24, u32::MAX as usize, usize::MAX];
    for n in samples {
        let expected: Vec<u8> = n.to_be_bytes().iter().skip_while(|b| **b == 0).copied().collect();
        let expected = if expected.is_empty() { vec![0] } else { expected };
        assert_eq!(usize_to_min_be_bytes(n), expected);
    }
}

#[test]
fn accessors() {
    let array = RlpItem::ByteArray(vec![1, 2]);
    let list = RlpItem::List(vec![RlpItem::ByteArray(vec![3])]);
    assert_eq!(array.byte_array(), Ok(vec![1, 2]));
    assert_eq!(array.list(), Err(ItemErr::InvalidList));
    assert_eq!(list.list(), Ok(vec![RlpItem::ByteArray(vec![3])]));
    assert_eq!(list.byte_array(), Err(ItemErr::InvalidBinary));
}

#[test]
fn try_deserialize_leaves_the_rest() {
    let (item, rest) = RlpItem::try_deserialize(&[0x82, 1, 2, 3, 4]).unwrap();
    assert_eq!(item, RlpItem::ByteArray(vec![1, 2]));
    assert_eq!(rest, &[3, 4]);
    let (item, rest) = RlpItem::try_deserialize(&[0xC0]).unwrap();
    assert_eq!(item, RlpItem::List(vec![]));
    assert!(rest.is_empty());
    assert_eq!(RlpItem::try_deserialize(&[]).map(|p| p.0), Err(DecodingErr::Empty));
}

#[test]
fn rlp_decoding_errors() {
    assert_eq!(RlpItem::deserialize(&[]), Err(DecodingErr::Empty));
    assert_eq!(
        RlpItem::deserialize(&[1, 2]),
        Err(DecodingErr::Trailing {
            input: vec![1, 2],
            undecoded: vec![2],
            decoded: RlpItem::ByteArray(vec![1]),
        })
    );
    // a short byte array that is cut off
    assert_eq!(
        RlpItem::deserialize(&[0x83, 1]),
        Err(DecodingErr::SizeOverflow { position: 0, expected: 3, actual: 2 })
    );
    // a size field that is cut off
    assert_eq!(
        RlpItem::deserialize(&[0xB9, 1]),
        Err(DecodingErr::SizeOverflow { position: 0, expected: 2, actual: 2 })
    );
    assert_eq!(
        RlpItem::deserialize(&[0xF8]),
        Err(DecodingErr::SizeOverflow { position: 0, expected: 1, actual: 1 })
    );
    // a long byte array that is cut off
    assert_eq!(
        RlpItem::deserialize(&[0xB8, 56, 1, 2]),
        Err(DecodingErr::SizeOverflow { position: 0, expected: 56, actual: 4 })
    );
    // a length that no input can have
    assert_eq!(
        RlpItem::deserialize(&[0xBF, 255, 255, 255, 255, 255, 255, 255, 255]),
        Err(DecodingErr::SizeOverflow { position: 0, expected: usize::MAX, actual: 9 })
    );
    // lists that are cut off
    assert_eq!(
        RlpItem::deserialize(&[0xC2, 1]),
        Err(DecodingErr::SizeOverflow { position: 0, expected: 2, actual: 2 })
    );
    assert_eq!(
        RlpItem::deserialize(&[0xF8, 56, 1]),
        Err(DecodingErr::SizeOverflow { position: 0, expected: 56, actual: 3 })
    );
    // errors inside a list are found where they are
    assert_eq!(
        RlpItem::deserialize(&[0xC3, 1, 0x83, 1]),
        Err(DecodingErr::SizeOverflow { position: 2, expected: 3, actual: 2 })
    );
    assert_eq!(
        RlpItem::deserialize(&[0xC4, 1, 2, 0xB8, 0]),
        Err(DecodingErr::LeadingZerosInSize { position: 4 })
    );
    assert_eq!(
        RlpItem::deserialize(&[0xC4, 0xC3, 1, 0xB8, 0]),
        Err(DecodingErr::LeadingZerosInSize { position: 4 })
    );
    let mut long = vec![0xF8, 57];
    long.extend(vec![1u8; 55]);
    long.extend([0xB9, 0]);
    assert_eq!(
        RlpItem::deserialize(&long),
        Err(DecodingErr::SizeOverflow { position: 57, expected: 2, actual: 2 })
    );
}

#[test]
fn redundant_forms_are_read() {
    assert_eq!(RlpItem::deserialize(&[0x81, 5]), Ok(RlpItem::ByteArray(vec![5])));
    assert_eq!(RlpItem::deserialize(&[0xB8, 1, 200]), Ok(RlpItem::ByteArray(vec![200])));
    assert_eq!(RlpItem::deserialize(&[0xF8, 0]), Err(DecodingErr::LeadingZerosInSize { position: 1 }));
    assert_eq!(
        RlpItem::deserialize(&[0xF8, 1, 0x80]),
        Ok(RlpItem::List(vec![RlpItem::ByteArray(vec![])]))
    );
}

#[test]
fn conversions() {
    assert_eq!(0u8.to_rlp_item(), RlpItem::ByteArray(vec![0]));
    assert_eq!(70u8.to_rlp_item(), RlpItem::ByteArray(vec![70]));
    assert_eq!(0u32.to_rlp_item(), RlpItem::ByteArray(vec![0]));
    assert_eq!(256u32.to_rlp_item(), RlpItem::ByteArray(vec![1, 0]));
    assert_eq!(u32::MAX.to_rlp_item(), RlpItem::ByteArray(vec![255; 4]));
    assert_eq!(true.to_rlp_item(), RlpItem::ByteArray(vec![1]));
    assert_eq!(false.to_rlp_item(), RlpItem::ByteArray(vec![0]));
    assert_eq!(3u8.serialize_rlp(), vec![3]);
    assert_eq!(200u8.serialize_rlp(), vec![0x81, 200]);
    assert_eq!(true.serialize_rlp(), vec![1]);
    let item = RlpItem::List(vec![RlpItem::ByteArray(vec![1])]);
    assert_eq!(item.to_rlp_item(), item);
    assert_eq!(RlpItem::from_rlp_item(&item), Ok(item.clone()));
    assert_eq!(RlpItem::deserialize_rlp(&[0xC1, 1]), Ok(item.clone()));

    for n in [0u32, 1, 255, 256, 65536, u32::MAX] {
        assert_eq!(u32::from_rlp_item(&n.to_rlp_item()), Ok(n));
        assert_eq!(u32::deserialize_rlp(&n.serialize_rlp()), Ok(n));
    }
    for n in [0u8, 1, 127, 128, 255] {
        assert_eq!(u8::from_rlp_item(&n.to_rlp_item()), Ok(n));
    }
    for b in [true, false] {
        assert_eq!(bool::from_rlp_item(&b.to_rlp_item()), Ok(b));
    }
    let array = |b: &[u8]| RlpItem::ByteArray(b.to_vec());
    assert_eq!(u8::from_rlp_item(&array(&[])), Err(ItemErr::InvalidInt));
    assert_eq!(u8::from_rlp_item(&array(&[1, 2])), Err(ItemErr::InvalidInt));
    assert_eq!(u8::from_rlp_item(&item), Err(ItemErr::InvalidBinary));
    assert_eq!(u32::from_rlp_item(&array(&[])), Err(ItemErr::InvalidInt));
    assert_eq!(u32::from_rlp_item(&array(&[0, 1])), Err(ItemErr::InvalidInt));
    assert_eq!(u32::from_rlp_item(&array(&[1, 2, 3, 4, 5])), Err(ItemErr::InvalidInt));
    assert_eq!(u32::from_rlp_item(&array(&[1, 2, 3, 4])), Ok(0x01020304));
    assert_eq!(u32::from_rlp_item(&item), Err(ItemErr::InvalidBinary));
    assert_eq!(bool::from_rlp_item(&array(&[2])), Err(ItemErr::InvalidBool));
    assert_eq!(bool::from_rlp_item(&array(&[])), Err(ItemErr::InvalidBool));
    assert_eq!(bool::from_rlp_item(&array(&[0, 0])), Err(ItemErr::InvalidBool));
    assert_eq!(bool::from_rlp_item(&item), Err(ItemErr::InvalidBinary));
    assert_eq!(u8::deserialize_rlp(&[]), Err(ItemErr::InvalidRlp));
    assert_eq!(u8::deserialize_rlp(&[1, 2]), Err(ItemErr::InvalidRlp));
}

#[test]
fn tagged_sizes_have_no_leading_zero() {
    for n in [56usize, 100, 255, 256, 257, 1000, 65535, 65536, 100_000] {
        let array = RlpItem::ByteArray(vec![0; n]).serialize();
        assert!((184..=191).contains(&array[0]));
        assert_ne!(array[1], 0);
        let items: Vec<RlpItem> = (0..n).map(|_| RlpItem::ByteArray(vec![0])).collect();
        let list = RlpItem::List(items).serialize();
        assert!(list[0] >= 248);
        assert_ne!(list[1], 0);
    }
}
