use aeser::data::error::{DeserErr, SerErr};
use aeser::data::order::{compare_bytes, compare_ints, is_comparable, Order};
use aeser::data::types::{BytesSize, Type};
use aeser::data::value::Value;
use aeser::error::DecodingErr as ItemErr;
use aeser::integer::Int;
use aeser::rlp::DecodingErr as RlpErr;

fn num(n: i64) -> Value {
    Value::Integer(Int::from_i64(n))
}

fn string(s: &str) -> Value {
    Value::String(s.as_bytes().to_vec())
}

fn map(entries: Vec<(Value, Value)>) -> Value {
    Value::map_of(entries).unwrap()
}

fn value_round_trip(v: Value, expect: Vec<u8>) {
    let bytes = v.serialize().unwrap();
    assert_eq!(bytes, expect);
    assert_eq!(Value::deserialize(&bytes), Ok(v));
}

#[test]
fn booleans() {
    value_round_trip(Value::Boolean(true), vec![0xFF]);
    value_round_trip(Value::Boolean(false), vec![0x7F]);
}

#[test]
fn bits() {
    value_round_trip(Value::Bits(Int::from_i64(0)), vec![0x4F, 0x00]);
    value_round_trip(Value::Bits(Int::from_i64(1)), vec![0x4F, 0x01]);
    value_round_trip(Value::Bits(Int::from_i64(-1)), vec![0xCF, 0x01]);
    value_round_trip(Value::Bits(Int::from_i64(255)), vec![0x4F, 0x81, 255]);
    value_round_trip(Value::Bits(Int::from_i64(-256)), vec![0xCF, 0x82, 1, 0]);
    // an empty magnitude and leading zeros are read as well
    assert_eq!(Value::deserialize(&[0x4F, 0x80]), Ok(Value::Bits(Int::from_i64(0))));
    assert_eq!(Value::deserialize(&[0xCF, 0x82, 0, 3]), Ok(Value::Bits(Int::from_i64(-3))));
}

#[test]
fn string_boundaries() {
    value_round_trip(string(""), vec![0x5F]);
    value_round_trip(string("a"), vec![0x05, 97]);
    for n in [62usize, 63] {
        let body = vec![7u8; n];
        let expect = [vec![((n as u8) << 2) | 1], body.clone()].concat();
        value_round_trip(Value::String(body), expect);
    }
    let body = vec![7u8; 64];
    value_round_trip(Value::String(body.clone()), [vec![0x01, 0x00], body].concat());
    let body = vec![7u8; 65];
    value_round_trip(Value::String(body.clone()), [vec![0x01, 0x02], body].concat());
    let body = vec![9u8; 64 + 64];
    value_round_trip(Value::String(body.clone()), [vec![0x01, 0x6F, 0x00], body].concat());
}

#[test]
fn tuple_boundaries() {
    value_round_trip(Value::Tuple(vec![]), vec![0x3F]);
    value_round_trip(Value::Tuple(vec![num(1)]), vec![0x1B, 2]);
    for n in [14usize, 15] {
        let elems: Vec<Value> = (0..n).map(|i| num(i as i64)).collect();
        let body: Vec<u8> = (0..n).map(|i| (i as u8) << 1).collect();
        value_round_trip(Value::Tuple(elems), [vec![((n as u8) << 4) | 0x0B], body].concat());
    }
    for n in [16usize, 17] {
        let elems: Vec<Value> = (0..n).map(|i| num(i as i64)).collect();
        let body: Vec<u8> = (0..n).map(|i| (i as u8) << 1).collect();
        value_round_trip(Value::Tuple(elems), [vec![0x0B, (n - 16) as u8], body].concat());
    }
    let n = 16 + 200;
    let elems: Vec<Value> = (0..n).map(|_| Value::Boolean(true)).collect();
    value_round_trip(Value::Tuple(elems), [vec![0x0B, 0x81, 200], vec![0xFF; n]].concat());
}

#[test]
fn list_boundaries() {
    value_round_trip(Value::List(vec![]), vec![0x03]);
    value_round_trip(Value::List(vec![num(1)]), vec![0x13, 2]);
    for n in [14usize, 15] {
        let elems: Vec<Value> = (0..n).map(|i| num(i as i64)).collect();
        let body: Vec<u8> = (0..n).map(|i| (i as u8) << 1).collect();
        value_round_trip(Value::List(elems), [vec![((n as u8) << 4) | 0x03], body].concat());
    }
    for n in [16usize, 17] {
        let elems: Vec<Value> = (0..n).map(|i| num(i as i64)).collect();
        let body: Vec<u8> = (0..n).map(|i| (i as u8) << 1).collect();
        value_round_trip(Value::List(elems), [vec![0x1F, (n - 16) as u8], body].concat());
    }
}

#[test]
fn objects() {
    value_round_trip(Value::Bytes(vec![]), vec![0x9F, 0x01, 0x5F]);
    value_round_trip(Value::Bytes(vec![1, 2]), vec![0x9F, 0x01, 0x09, 1, 2]);
    value_round_trip(Value::Address(vec![]), vec![0x9F, 0x00, 0x80]);
    value_round_trip(Value::Address(vec![5]), vec![0x9F, 0x00, 5]);
    value_round_trip(Value::Address(vec![200]), vec![0x9F, 0x00, 0x81, 200]);
    value_round_trip(Value::Contract(vec![1; 32]), [vec![0x9F, 0x02, 0xA0], vec![1; 32]].concat());
    value_round_trip(Value::Oracle(vec![2; 32]), [vec![0x9F, 0x03, 0xA0], vec![2; 32]].concat());
    value_round_trip(Value::OracleQuery(vec![3; 32]), [vec![0x9F, 0x04, 0xA0], vec![3; 32]].concat());
    value_round_trip(Value::Channel(vec![4; 32]), [vec![0x9F, 0x05, 0xA0], vec![4; 32]].concat());
}

#[test]
fn contract_bytearrays() {
    value_round_trip(Value::ContractBytearray(vec![]), vec![0x8F, 0x00]);
    value_round_trip(Value::ContractBytearray(vec![9, 8]), vec![0x8F, 0x04, 9, 8]);
    let body = vec![1u8; 64];
    value_round_trip(Value::ContractBytearray(body.clone()), [vec![0x8F, 0x6F, 0x00], body].concat());
}

#[test]
fn typereps() {
    value_round_trip(Value::Typerep(Type::Integer), vec![0x07]);
    value_round_trip(
        Value::Typerep(Type::List(Box::new(Type::Bytes(BytesSize::Unsized)))),
        vec![0x27, 0x97, 0x82],
    );
    value_round_trip(
        Value::List(vec![Value::Typerep(Type::Any), Value::Typerep(Type::TVar(3))]),
        vec![0x23, 0xF7, 0xE7, 3],
    );
}

#[test]
fn maps() {
    value_round_trip(map(vec![]), vec![0x2F, 0x00]);
    value_round_trip(map(vec![(num(1), Value::Boolean(true))]), vec![0x2F, 0x01, 2, 0xFF]);
    // a map of maps
    let map1 = map(vec![
        (string("foo"), Value::Boolean(true)),
        (string("bar"), Value::Boolean(false)),
    ]);
    let map2 = map(vec![]);
    let map3 = map(vec![(string("foo"), Value::Boolean(false))]);
    let outer = map(vec![(num(3), map3), (num(1), map1), (num(2), map2)]);
    value_round_trip(
        outer,
        vec![
            47, 3, 2, 47, 2, 13, 98, 97, 114, 127, 13, 102, 111, 111, 255, 4, 47, 0, 6, 47, 1, 13,
            102, 111, 111, 127,
        ],
    );
}

#[test]
fn maps_are_ordered_and_unique() {
    let m = map(vec![
        (num(5), string("five")),
        (num(-2), string("minus two")),
        (num(5), string("five again")),
        (num(0), string("zero")),
    ]);
    assert_eq!(
        m,
        Value::Mapping(vec![
            (num(-2), string("minus two")),
            (num(0), string("zero")),
            (num(5), string("five again")),
        ])
    );
    // the decoder orders what it reads
    let bytes = vec![0x2F, 0x03, 10, 0xFF, 4, 0x7F, 10, 0x7F];
    assert_eq!(
        Value::deserialize(&bytes),
        Ok(Value::Mapping(vec![(num(2), Value::Boolean(false)), (num(5), Value::Boolean(false))]))
    );
    // keys of different kinds go by the rank of their kind
    let mixed = map(vec![
        (Value::ContractBytearray(vec![]), num(14)),
        (Value::OracleQuery(vec![]), num(13)),
        (Value::Variant { arities: vec![0], tag: 0, values: vec![] }, num(12)),
        (Value::List(vec![]), num(11)),
        (map(vec![]), num(10)),
        (Value::Tuple(vec![]), num(9)),
        (string(""), num(8)),
        (Value::Bits(Int::from_i64(0)), num(7)),
        (Value::Bytes(vec![]), num(6)),
        (Value::Oracle(vec![]), num(5)),
        (Value::Contract(vec![]), num(4)),
        (Value::Channel(vec![]), num(3)),
        (Value::Address(vec![]), num(2)),
        (Value::Boolean(false), num(1)),
        (num(0), num(0)),
    ]);
    match mixed {
        Value::Mapping(entries) => {
            assert_eq!(entries.len(), 15);
            for (i, (_, rank)) in entries.iter().enumerate() {
                assert_eq!(*rank, num(i as i64));
            }
        }
        _ => panic!("not a map"),
    }
}

#[test]
fn map_order_within_a_kind() {
    let m = map(vec![
        (string("b"), num(3)),
        (string("ab"), num(2)),
        (string("a"), num(1)),
        (string(""), num(0)),
        (string("ba"), num(4)),
    ]);
    match m {
        Value::Mapping(entries) => {
            let values: Vec<Value> = entries.into_iter().map(|e| e.1).collect();
            assert_eq!(values, vec![num(0), num(1), num(2), num(3), num(4)]);
        }
        _ => panic!("not a map"),
    }
    let m = map(vec![
        (Value::Tuple(vec![num(1), num(2)]), num(2)),
        (Value::Tuple(vec![num(1)]), num(1)),
        (Value::Tuple(vec![num(0), num(9)]), num(0)),
        (Value::Tuple(vec![num(2)]), num(3)),
    ]);
    match m {
        Value::Mapping(entries) => {
            let values: Vec<Value> = entries.into_iter().map(|e| e.1).collect();
            assert_eq!(values, vec![num(0), num(1), num(2), num(3)]);
        }
        _ => panic!("not a map"),
    }
    let m = map(vec![(Value::Boolean(true), num(1)), (Value::Boolean(false), num(0))]);
    assert_eq!(
        m,
        Value::Mapping(vec![(Value::Boolean(false), num(0)), (Value::Boolean(true), num(1))])
    );
}

#[test]
fn incomparable_keys() {
    assert_eq!(Value::map_of(vec![(Value::Typerep(Type::Any), num(1))]), None);
    assert_eq!(
        Value::map_of(vec![(Value::StoreMap { cache: vec![], id: 1 }, num(1))]),
        None
    );
    assert_eq!(
        Value::map_of(vec![(num(1), num(1)), (Value::Tuple(vec![Value::Typerep(Type::Any)]), num(1))]),
        None
    );
    // a type as a value is fine
    assert!(Value::map_of(vec![(num(1), Value::Typerep(Type::Any))]).is_some());
    assert_eq!(
        Value::deserialize(&[0x2F, 0x01, 0x07, 0xFF]),
        Err(DeserErr::IncomparableMapKey)
    );
    assert_eq!(
        Value::deserialize(&[0x2F, 0x01, 0xBF, 0x01, 0xFF]),
        Err(DeserErr::IncomparableMapKey)
    );
    // an error behind the key comes first
    assert_eq!(Value::deserialize(&[0x2F, 0x01, 0x07]), Err(DeserErr::Empty));
}

#[test]
fn map_validity_refusals() {
    let map_key = Value::Mapping(vec![(Value::Mapping(vec![]), num(1))]);
    assert_eq!(map_key.serialize(), Err(SerErr::MapAsKeyType));
    let map_key_later = Value::Mapping(vec![(num(1), num(1)), (Value::Mapping(vec![]), num(1))]);
    assert_eq!(map_key_later.serialize(), Err(SerErr::MapAsKeyType));
    let keys = Value::Mapping(vec![(num(1), num(1)), (string("a"), num(1))]);
    assert_eq!(keys.serialize(), Err(SerErr::HeteroMapKeys));
    let values = Value::Mapping(vec![(num(1), num(1)), (num(2), string("a"))]);
    assert_eq!(values.serialize(), Err(SerErr::HeteroMapValues));
    let both = Value::Mapping(vec![(num(1), num(1)), (string("a"), string("a"))]);
    assert_eq!(both.serialize(), Err(SerErr::HeteroMapKeys));
    assert_eq!(Value::Mapping(vec![]).serialize(), Ok(vec![0x2F, 0x00]));
    // an element that cannot be serialized
    let inner = Value::Mapping(vec![(num(1), Value::StoreMap { cache: vec![(num(1), num(1))], id: 0 })]);
    assert_eq!(inner.serialize(), Err(SerErr::NonEmptyStoreMapCache));
}

#[test]
fn store_maps() {
    value_round_trip(Value::StoreMap { cache: vec![], id: 0 }, vec![0xBF, 0x00]);
    value_round_trip(Value::StoreMap { cache: vec![], id: 127 }, vec![0xBF, 127]);
    value_round_trip(Value::StoreMap { cache: vec![], id: 128 }, vec![0xBF, 0x81, 128]);
    value_round_trip(
        Value::StoreMap { cache: vec![], id: u32::MAX },
        vec![0xBF, 0x84, 255, 255, 255, 255],
    );
    assert_eq!(
        Value::StoreMap { cache: vec![(num(1), num(2))], id: 3 }.serialize(),
        Err(SerErr::NonEmptyStoreMapCache)
    );
    assert_eq!(
        Value::deserialize(&[0xBF, 0x85, 1, 0, 0, 0, 0]),
        Err(DeserErr::InvalidMapId)
    );
}

#[test]
fn variants() {
    value_round_trip(
        Value::Variant { arities: vec![0, 1], tag: 0, values: vec![] },
        vec![0xAF, 0x82, 0, 1, 0, 0x3F],
    );
    value_round_trip(
        Value::Variant { arities: vec![0, 1], tag: 1, values: vec![num(7)] },
        vec![0xAF, 0x82, 0, 1, 1, 0x1B, 14],
    );
    value_round_trip(
        Value::Variant { arities: vec![2], tag: 0, values: vec![num(7), Value::Boolean(true)] },
        vec![0xAF, 2, 0, 0x2B, 14, 0xFF],
    );
}

#[test]
fn variant_arity() {
    let mismatch = Value::Variant { arities: vec![0, 1], tag: 1, values: vec![] };
    assert_eq!(mismatch.serialize(), Err(SerErr::ArityValuesMismatch));
    let mismatch = Value::Variant { arities: vec![0, 1], tag: 0, values: vec![num(1)] };
    assert_eq!(mismatch.serialize(), Err(SerErr::ArityValuesMismatch));
    let tag = Value::Variant { arities: vec![0, 1], tag: 2, values: vec![] };
    assert_eq!(tag.serialize(), Err(SerErr::InvalidVariantTag));
    let empty = Value::Variant { arities: vec![], tag: 0, values: vec![] };
    assert_eq!(empty.serialize(), Err(SerErr::InvalidVariantTag));
    for arity in 0..20u8 {
        for tag in 0..3u8 {
            let mut arities = vec![1, 1, 1];
            arities[tag as usize] = arity;
            let values: Vec<Value> = (0..arity).map(|i| num(i as i64)).collect();
            let v = Value::Variant { arities, tag, values };
            let bytes = v.serialize().unwrap();
            assert_eq!(Value::deserialize(&bytes), Ok(v));
        }
    }
    // the decoder holds the same
    assert_eq!(
        Value::deserialize(&[0xAF, 0x82, 0, 1, 2, 0x3F]),
        Err(DeserErr::TooLargeTagInVariant)
    );
    assert_eq!(
        Value::deserialize(&[0xAF, 0x82, 0, 1, 1, 0x3F]),
        Err(DeserErr::TagDoesNotMatchTypeInVariant)
    );
    assert_eq!(Value::deserialize(&[0xAF, 0x82, 0, 1, 0, 0x03]), Err(DeserErr::BadVariant));
    assert_eq!(Value::deserialize(&[0xAF, 0x82, 0, 1]), Err(DeserErr::BadVariant));
    assert_eq!(Value::deserialize(&[0xAF, 0x82, 0, 1, 0]), Err(DeserErr::Empty));
}

#[test]
fn nested_values() {
    let v = Value::Tuple(vec![
        Value::List(vec![num(1), num(-1), num(1000)]),
        map(vec![(string("k"), Value::Tuple(vec![]))]),
        Value::Variant {
            arities: vec![1, 2],
            tag: 1,
            values: vec![Value::Bytes(vec![1]), Value::List(vec![])],
        },
        Value::Typerep(Type::Tuple(vec![Type::Integer, Type::Boolean])),
    ]);
    let bytes = v.serialize().unwrap();
    assert_eq!(Value::deserialize(&bytes), Ok(v.clone()));
    assert_eq!(v.clone(), v);
    let (decoded, rest) = Value::try_deserialize(&[bytes.clone(), vec![1, 2, 3]].concat()[..])
        .map(|(v, rest)| (v, rest.to_vec()))
        .unwrap();
    assert_eq!(decoded, v);
    assert_eq!(rest, vec![1, 2, 3]);
}

#[test]
fn trailing_bytes() {
    assert_eq!(
        Value::deserialize(&[0xFF, 0x7F]),
        Err(DeserErr::Trailing {
            input: vec![0xFF, 0x7F],
            undecoded: vec![0x7F],
            decoded: Value::Boolean(true),
        })
    );
}

#[test]
fn value_decoding_errors() {
    assert_eq!(Value::deserialize(&[]), Err(DeserErr::Empty));
    assert_eq!(Value::try_deserialize(&[]).map(|p| p.0), Err(DeserErr::Empty));
    // bytes that start nothing: odd bytes that are no tag, no short string,
    // tuple or list and no type
    for byte in [0x0Fu8, 0xDF, 0xB7, 0xC7, 0xD7, 0xEF - 0x20] {
        if byte == 0xCF {
            continue;
        }
        assert_eq!(Value::deserialize(&[byte]), Err(DeserErr::InvalidIdByte(byte)), "{}", byte);
    }
    // objects
    assert_eq!(Value::deserialize(&[0x9F]), Err(DeserErr::InvalidObject));
    assert_eq!(Value::deserialize(&[0x9F, 0x00]), Err(DeserErr::InvalidObject));
    assert_eq!(Value::deserialize(&[0x9F, 0x06, 0x80]), Err(DeserErr::InvalidObjectByte(6)));
    assert_eq!(Value::deserialize(&[0x9F, 0x01, 0xFF]), Err(DeserErr::InvalidBytesObject));
    assert_eq!(
        Value::deserialize(&[0x9F, 0x00, 0xC0]),
        Err(DeserErr::ExternalErr(ItemErr::InvalidBinary))
    );
    assert_eq!(
        Value::deserialize(&[0x9F, 0x00, 0x82, 1]),
        Err(DeserErr::RlpErr(RlpErr::SizeOverflow { position: 0, expected: 2, actual: 2 }))
    );
    assert_eq!(
        Value::deserialize(&[0x6F, 0xB8, 0, 1]),
        Err(DeserErr::RlpErr(RlpErr::LeadingZerosInSize { position: 1 }))
    );
    assert_eq!(Value::deserialize(&[0x6F]), Err(DeserErr::RlpErr(RlpErr::Empty)));
    // strings
    assert_eq!(Value::deserialize(&[0x09, 1]), Err(DeserErr::InvalidString));
    assert_eq!(Value::deserialize(&[0x01, 0x00, 1]), Err(DeserErr::InvalidString));
    assert_eq!(Value::deserialize(&[0x01, 0x82]), Err(DeserErr::InvalidString));
    assert_eq!(Value::deserialize(&[0x01, 0xFF]), Err(DeserErr::InvalidString));
    assert_eq!(Value::deserialize(&[0x01]), Err(DeserErr::Empty));
    assert_eq!(
        Value::deserialize(&[0x01, 0x6F, 0x89, 1, 0, 0, 0, 0, 0, 0, 0, 0]),
        Err(DeserErr::InvalidString)
    );
    // contract byte arrays
    assert_eq!(Value::deserialize(&[0x8F, 0x04, 1]), Err(DeserErr::InvalidContractBytearray));
    assert_eq!(Value::deserialize(&[0x8F, 0x82]), Err(DeserErr::InvalidContractBytearray));
    assert_eq!(Value::deserialize(&[0x8F, 0x5F]), Err(DeserErr::InvalidContractBytearray));
    // counts
    let huge = [vec![0x89], vec![255; 9]].concat();
    assert_eq!(
        Value::deserialize(&[vec![0x0B], huge.clone()].concat()),
        Err(DeserErr::InvalidTupleSize)
    );
    assert_eq!(
        Value::deserialize(&[vec![0x1F], huge.clone()].concat()),
        Err(DeserErr::InvalidListSize)
    );
    assert_eq!(
        Value::deserialize(&[vec![0x2F], huge.clone()].concat()),
        Err(DeserErr::InvalidMapSize)
    );
    assert_eq!(Value::deserialize(&[vec![0xBF], huge].concat()), Err(DeserErr::InvalidMapId));
    // elements that are not there
    assert_eq!(Value::deserialize(&[0x2B, 0xFF]), Err(DeserErr::Empty));
    assert_eq!(Value::deserialize(&[0x13]), Err(DeserErr::Empty));
    assert_eq!(Value::deserialize(&[0x0B, 0x00]), Err(DeserErr::Empty));
    assert_eq!(Value::deserialize(&[0x2F, 0x01, 0x02]), Err(DeserErr::Empty));
}

#[test]
fn comparing_values() {
    assert_eq!(num(1).compare(&num(2)), Some(Order::Less));
    assert_eq!(num(2).compare(&num(2)), Some(Order::Equal));
    assert_eq!(num(3).compare(&num(2)), Some(Order::Greater));
    assert_eq!(num(1000).compare(&Value::Boolean(false)), Some(Order::Less));
    assert_eq!(Value::Boolean(true).compare(&Value::Address(vec![])), Some(Order::Less));
    assert_eq!(string("b").compare(&string("ab")), Some(Order::Greater));
    assert_eq!(string("a").compare(&string("ab")), Some(Order::Less));
    assert_eq!(
        Value::Tuple(vec![num(1), num(2)]).compare(&Value::Tuple(vec![num(1), num(3)])),
        Some(Order::Less)
    );
    assert_eq!(
        Value::List(vec![num(1), num(2)]).compare(&Value::List(vec![num(1)])),
        Some(Order::Greater)
    );
    let a = Value::Variant { arities: vec![1, 2], tag: 0, values: vec![num(5)] };
    let b = Value::Variant { arities: vec![1, 2], tag: 1, values: vec![num(1), num(1)] };
    let c = Value::Variant { arities: vec![1, 3], tag: 0, values: vec![num(0)] };
    assert_eq!(a.compare(&b), Some(Order::Less));
    assert_eq!(b.compare(&c), Some(Order::Less));
    assert_eq!(c.compare(&a), Some(Order::Greater));
    assert_eq!(a.compare(&a), Some(Order::Equal));
    let m1 = map(vec![(num(1), num(1))]);
    let m2 = map(vec![(num(1), num(2))]);
    let m3 = map(vec![(num(0), num(9)), (num(1), num(0))]);
    assert_eq!(m1.compare(&m2), Some(Order::Less));
    assert_eq!(m3.compare(&m1), Some(Order::Less));
    assert_eq!(map(vec![]).compare(&m3), Some(Order::Less));
}

#[test]
fn types_and_store_maps_do_not_compare() {
    let t = Value::Typerep(Type::Any);
    let s = Value::StoreMap { cache: vec![], id: 0 };
    assert_eq!(t.compare(&t), None);
    assert_eq!(t.compare(&num(1)), None);
    assert_eq!(num(1).compare(&s), None);
    assert_eq!(Value::Tuple(vec![num(1), t.clone()]).compare(&num(1)), None);
    assert_eq!(num(1).compare(&Value::List(vec![s.clone()])), None);
    assert!(!is_comparable(&t));
    assert!(!is_comparable(&s));
    assert!(!is_comparable(&Value::Mapping(vec![(num(1), t.clone())])));
    assert!(!is_comparable(&Value::Variant { arities: vec![1], tag: 0, values: vec![t] }));
    assert!(is_comparable(&num(1)));
    assert!(is_comparable(&Value::Tuple(vec![num(1), string("a")])));
}

#[test]
fn comparing_bytes_and_integers() {
    assert_eq!(compare_bytes(&vec![], &vec![]), Order::Equal);
    assert_eq!(compare_bytes(&vec![], &vec![0]), Order::Less);
    assert_eq!(compare_bytes(&vec![1], &vec![0, 5]), Order::Greater);
    assert_eq!(compare_bytes(&vec![1, 2], &vec![1, 2]), Order::Equal);
    assert_eq!(compare_bytes(&vec![1, 2], &vec![1, 3]), Order::Less);
    assert_eq!(compare_ints(&Int::from_i64(-5), &Int::from_i64(3)), Order::Less);
    assert_eq!(compare_ints(&Int::from_i64(3), &Int::from_i64(3)), Order::Equal);
    assert_eq!(compare_ints(&Int::from_i64(300), &Int::from_i64(3)), Order::Greater);
}
