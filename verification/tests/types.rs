use aeser::data::consts::{
    is_short_list, is_short_string, is_short_tuple, is_small_neg_int, is_small_pos_int,
    is_type_tag,
};
use aeser::data::error::{DeserErr, SerErr};
use aeser::data::types::{BytesSize, Type};

fn type_round_trip(t: Type, expect: Vec<u8>) {
    let bytes = t.serialize().unwrap();
    assert_eq!(bytes, expect);
    let (decoded, rest) = Type::deserialize(&bytes).unwrap();
    assert_eq!(decoded, t);
    assert!(rest.is_empty());
}

#[test]
fn plain_types() {
    type_round_trip(Type::Integer, vec![0x07]);
    type_round_trip(Type::Boolean, vec![0x17]);
    type_round_trip(Type::Bits, vec![0x57]);
    type_round_trip(Type::String, vec![0x77]);
    type_round_trip(Type::ContractBytearray, vec![0xA7]);
    type_round_trip(Type::Any, vec![0xF7]);
    type_round_trip(Type::TVar(0), vec![0xE7, 0]);
    type_round_trip(Type::TVar(255), vec![0xE7, 255]);
}

#[test]
fn object_types() {
    type_round_trip(Type::Address, vec![0x47, 0]);
    type_round_trip(Type::Contract, vec![0x47, 2]);
    type_round_trip(Type::Oracle, vec![0x47, 3]);
    type_round_trip(Type::OracleQuery, vec![0x47, 4]);
    type_round_trip(Type::Channel, vec![0x47, 5]);
    assert_eq!(Type::deserialize(&[0x47, 1]), Err(DeserErr::InvalidTypeObjectByte(1)));
    assert_eq!(Type::deserialize(&[0x47, 6]), Err(DeserErr::InvalidTypeObjectByte(6)));
    assert_eq!(Type::deserialize(&[0x47]), Err(DeserErr::Empty));
}

#[test]
fn bytes_types() {
    type_round_trip(Type::Bytes(BytesSize::Unsized), vec![0x97, 0x82]);
    type_round_trip(Type::Bytes(BytesSize::Sized(0)), vec![0x97, 0x00]);
    type_round_trip(Type::Bytes(BytesSize::Sized(32)), vec![0x97, 64]);
    type_round_trip(Type::Bytes(BytesSize::Sized(64)), vec![0x97, 0x6F, 0x00]);
    type_round_trip(Type::Bytes(BytesSize::Sized(1000)), vec![0x97, 0x6F, 0x82, 3, 168]);
    assert_eq!(Type::deserialize(&[0x97, 0x84]), Err(DeserErr::InvalidIntValue));
    assert_eq!(Type::deserialize(&[0x97, 0xEF, 0x00]), Err(DeserErr::InvalidIntValue));
    assert_eq!(Type::deserialize(&[0x97, 0xFF]), Err(DeserErr::InvalidBytesType));
    assert_eq!(Type::deserialize(&[0x97]), Err(DeserErr::Empty));
    assert_eq!(
        Type::deserialize(&[0x97, 0x6F, 0x89, 1, 0, 0, 0, 0, 0, 0, 0, 0]),
        Err(DeserErr::BytesSizeTooBig)
    );
}

#[test]
fn composite_types() {
    type_round_trip(Type::List(Box::new(Type::Integer)), vec![0x27, 0x07]);
    type_round_trip(
        Type::Mapping { key: Box::new(Type::String), val: Box::new(Type::Boolean) },
        vec![0x67, 0x77, 0x17],
    );
    type_round_trip(Type::Tuple(vec![]), vec![0x37, 0]);
    type_round_trip(Type::Tuple(vec![Type::Integer, Type::Address]), vec![0x37, 2, 0x07, 0x47, 0]);
    type_round_trip(Type::Variant(vec![]), vec![0x87, 0]);
    type_round_trip(
        Type::Variant(vec![Type::Tuple(vec![]), Type::Tuple(vec![Type::TVar(1)])]),
        vec![0x87, 2, 0x37, 0, 0x37, 1, 0xE7, 1],
    );
    type_round_trip(
        Type::Mapping {
            key: Box::new(Type::Integer),
            val: Box::new(Type::Mapping {
                key: Box::new(Type::String),
                val: Box::new(Type::Boolean),
            }),
        },
        vec![103, 7, 103, 119, 23],
    );
    let nested = Type::List(Box::new(Type::List(Box::new(Type::Tuple(vec![Type::Any])))));
    assert_eq!(nested.clone(), nested);
}

#[test]
fn size_limits() {
    let many = |n: usize| -> Vec<Type> { (0..n).map(|_| Type::Boolean).collect() };
    type_round_trip(Type::Tuple(many(255)), [vec![0x37, 255], vec![0x17; 255]].concat());
    type_round_trip(Type::Variant(many(255)), [vec![0x87, 255], vec![0x17; 255]].concat());
    assert_eq!(Type::Tuple(many(256)).serialize(), Err(SerErr::TupleSizeLimitExceeded));
    assert_eq!(Type::Variant(many(256)).serialize(), Err(SerErr::VariantSizeLimitExceeded));
    assert_eq!(
        Type::List(Box::new(Type::Tuple(many(300)))).serialize(),
        Err(SerErr::TupleSizeLimitExceeded)
    );
    assert_eq!(
        Type::Tuple(vec![Type::Variant(many(256)), Type::Tuple(many(256))]).serialize(),
        Err(SerErr::VariantSizeLimitExceeded)
    );
}

#[test]
fn type_decoding_errors() {
    assert_eq!(Type::deserialize(&[]), Err(DeserErr::Empty));
    assert_eq!(Type::deserialize(&[0x00]), Err(DeserErr::InvalidTypeId(0)));
    assert_eq!(Type::deserialize(&[0xB7]), Err(DeserErr::InvalidTypeId(0xB7)));
    assert_eq!(Type::deserialize(&[0xE7]), Err(DeserErr::InvalidTypeVar));
    assert_eq!(Type::deserialize(&[0x37]), Err(DeserErr::InvalidTupleOrVariant));
    assert_eq!(Type::deserialize(&[0x87]), Err(DeserErr::InvalidTupleOrVariant));
    assert_eq!(Type::deserialize(&[0x37, 1]), Err(DeserErr::Empty));
    assert_eq!(Type::deserialize(&[0x27]), Err(DeserErr::Empty));
    assert_eq!(Type::deserialize(&[0x67, 0x07]), Err(DeserErr::Empty));
    assert_eq!(Type::deserialize(&[0x37, 2, 0x07, 0x01]), Err(DeserErr::InvalidTypeId(1)));
    assert_eq!(Type::deserialize_many(&[]), Err(DeserErr::InvalidTupleOrVariant));
}

#[test]
fn type_decoding_leaves_the_rest() {
    let (t, rest) = Type::deserialize(&[0x27, 0x07, 9, 9]).unwrap();
    assert_eq!(t, Type::List(Box::new(Type::Integer)));
    assert_eq!(rest, &[9, 9]);
    let (types, rest) = Type::deserialize_many(&[2, 0x07, 0x17, 1]).unwrap();
    assert_eq!(types, vec![Type::Integer, Type::Boolean]);
    assert_eq!(rest, &[1]);
}

#[test]
fn tag_predicates() {
    let type_tags = [0x07u8, 0x17, 0x27, 0x37, 0x47, 0x57, 0x67, 0x77, 0x87, 0x97, 0xA7, 0xE7, 0xF7];
    for tag in 0..=255u8 {
        assert_eq!(is_small_pos_int(tag), tag < 128 && tag % 2 == 0);
        assert_eq!(is_small_neg_int(tag), tag >= 128 && tag % 2 == 0);
        assert_eq!(is_short_string(tag), tag & 3 == 1);
        assert_eq!(is_short_tuple(tag), tag & 15 == 11);
        assert_eq!(is_short_list(tag), tag & 15 == 3);
        assert_eq!(is_type_tag(tag), type_tags.contains(&tag));
    }
}

#[test]
fn types_by_name() {
    let cases: Vec<(&str, Type)> = vec![
        ("any", Type::Any),
        ("bool", Type::Boolean),
        ("boolean", Type::Boolean),
        ("int", Type::Integer),
        ("integer", Type::Integer),
        ("bits", Type::Bits),
        ("string", Type::String),
        ("address", Type::Address),
        ("contract", Type::Contract),
        ("contract_bytearray", Type::ContractBytearray),
        ("oracle", Type::Oracle),
        ("oracle_query", Type::OracleQuery),
        ("bytes", Type::Bytes(BytesSize::Unsized)),
        ("none", Type::Tuple(vec![])),
        ("typerep", Type::Any),
        ("variant", Type::Any),
        ("hash", Type::Any),
        ("signature", Type::Any),
        ("tuple", Type::Any),
        ("list", Type::Any),
        ("map", Type::Any),
        ("char", Type::Any),
    ];
    for (name, t) in cases {
        assert_eq!(Type::from_name(name), Some(t), "{}", name);
    }
    for name in ["", "Any", "channel", "ints", "in"] {
        assert_eq!(Type::from_name(name), None, "{}", name);
    }
}

#[test]
fn redundant_type_forms_are_read() {
    let (t, rest) = Type::deserialize(&[0x97, 0x80]).unwrap();
    assert_eq!(t, Type::Bytes(BytesSize::Sized(0)));
    assert!(rest.is_empty());
    assert_eq!(t.serialize(), Ok(vec![0x97, 0x00]));
}
