use aeser::data::serialize_int;
use aeser::data::value::Value;
use aeser::integer::Int;
use num_bigint::{BigInt, Sign};

fn num(n: i64) -> Int {
    Int::from_i64(n)
}

fn from_big(n: &BigInt) -> Int {
    let (sign, bytes) = n.to_bytes_be();
    Int::from_be_bytes(sign == Sign::Minus, &bytes)
}

#[test]
fn int_constructors_agree() {
    assert_eq!(Int::from_i64(0), Int::from_u64(0));
    assert_eq!(Int::from_i64(0), Int::from_be_bytes(false, &[]));
    assert_eq!(Int::from_i64(0), Int::from_be_bytes(true, &[0, 0]));
    assert_eq!(Int::from_i64(5), Int::from_be_bytes(false, &[0, 5]));
    assert_eq!(Int::from_i64(-5), Int::from_be_bytes(true, &[5]));
    assert_eq!(Int::from_i64(256), Int::from_be_bytes(false, &[1, 0]));
    assert_eq!(Int::from_usize(65536), Int::from_be_bytes(false, &[1, 0, 0]));
    assert_eq!(Int::from_i64(i64::MIN), Int::from_be_bytes(true, &[128, 0, 0, 0, 0, 0, 0, 0]));
    assert_eq!(Int::from_i64(i64::MAX), Int::from_u64(i64::MAX as u64));
    assert_eq!(from_big(&BigInt::from(-300)), Int::from_i64(-300));
    assert!(Int::from_i64(1) != Int::from_i64(-1));
}

#[test]
fn int_accessors() {
    assert!(!num(0).is_negative());
    assert!(!num(7).is_negative());
    assert!(num(-7).is_negative());
    assert_eq!(num(0).magnitude(), &vec![0]);
    assert_eq!(num(-7).magnitude(), &vec![7]);
    assert_eq!(num(258).magnitude(), &vec![1, 2]);
    assert_eq!(num(258).to_u64(), Some(258));
    assert_eq!(num(-1).to_u64(), None);
    assert_eq!(num(0).to_usize(), Some(0));
    assert_eq!(Int::from_u64(u64::MAX).to_u64(), Some(u64::MAX));
    assert_eq!(Int::from_be_bytes(false, &[1, 0, 0, 0, 0, 0, 0, 0, 0]).to_u64(), None);
    assert_eq!(Int::from_be_bytes(false, &[1, 0, 0, 0, 0, 0, 0, 0, 0]).to_usize(), None);
    assert_eq!(num(-9).clone(), num(-9));
}

#[test]
fn int_order() {
    let sorted = [
        Int::from_be_bytes(true, &[1, 0, 0, 0, 0, 0, 0, 0, 0]),
        num(i64::MIN),
        num(-256),
        num(-255),
        num(-1),
        num(0),
        num(1),
        num(255),
        num(256),
        num(i64::MAX),
        Int::from_be_bytes(false, &[1, 0, 0, 0, 0, 0, 0, 0, 0]),
    ];
    for i in 0..sorted.len() {
        for j in 0..sorted.len() {
            assert_eq!(sorted[i].less_than(&sorted[j]), i < j, "{} {}", i, j);
        }
    }
}

#[test]
fn integer_framer_boundary() {
    let cases: Vec<(i64, Vec<u8>)> = vec![
        (-65, vec![0xEF, 0x01]),
        (-64, vec![0xEF, 0x00]),
        (-63, vec![0b1111_1110]),
        (-1, vec![0b1000_0010]),
        (0, vec![0x00]),
        (1, vec![0b0000_0010]),
        (63, vec![0b0111_1110]),
        (64, vec![0x6F, 0x00]),
        (65, vec![0x6F, 0x01]),
    ];
    for (n, expect) in cases {
        let bytes = serialize_int(&num(n));
        assert_eq!(bytes, expect, "{}", n);
        assert_eq!(bytes[0] & 1 == 0, n.abs() < 64, "{}", n);
        assert_eq!(Value::Integer(num(n)).serialize().unwrap(), expect);
        assert_eq!(Value::deserialize(&expect), Ok(Value::Integer(num(n))));
    }
}

#[test]
fn big_integers() {
    // 64 + 127 is the last whose rest is a single RLP byte
    assert_eq!(serialize_int(&num(191)), vec![0x6F, 127]);
    assert_eq!(serialize_int(&num(192)), vec![0x6F, 0x81, 128]);
    assert_eq!(serialize_int(&num(-192)), vec![0xEF, 0x81, 128]);
    assert_eq!(serialize_int(&num(64 + 256)), vec![0x6F, 0x82, 1, 0]);
    assert_eq!(
        serialize_int(&Int::from_be_bytes(false, &[1, 0, 0, 0, 0, 0, 0, 0, 0])),
        vec![0x6F, 0x88, 255, 255, 255, 255, 255, 255, 255, 192]
    );
    let sixty = vec![0xAB; 60];
    let big = Int::from_be_bytes(true, &sixty);
    let bytes = serialize_int(&big);
    assert_eq!(bytes[0], 0xEF);
    assert_eq!(bytes[1], 0xB8);
    assert_eq!(bytes[2], 60);
    assert_eq!(bytes.len(), 63);
    assert_eq!(bytes[62], 0xAB - 64);
    assert_eq!(Value::deserialize(&bytes), Ok(Value::Integer(big)));
}

#[test]
fn integers_agree_with_bigint() {
    let samples: Vec<BigInt> = vec![
        BigInt::from(0),
        BigInt::from(63),
        BigInt::from(64),
        BigInt::from(-64),
        BigInt::from(1_000_000),
        BigInt::from(-1_000_000_007i64),
        BigInt::from(u64::MAX) * BigInt::from(u64::MAX),
        -(BigInt::from(u64::MAX) * BigInt::from(3)),
    ];
    for n in samples {
        let bytes = serialize_int(&from_big(&n));
        let magnitude = n.magnitude().clone();
        if magnitude < num_bigint::BigUint::from(64u32) {
            assert_eq!(bytes.len(), 1);
        } else {
            let rest = (magnitude - 64u32).to_bytes_be();
            let rlp = aeser::rlp::RlpItem::ByteArray(rest).serialize();
            let tag = if n.sign() == Sign::Minus { 0xEF } else { 0x6F };
            assert_eq!(bytes, [vec![tag], rlp].concat());
        }
        assert_eq!(Value::deserialize(&bytes), Ok(Value::Integer(from_big(&n))));
    }
}

#[test]
fn integers_decode_from_redundant_forms() {
    // a negative zero
    assert_eq!(Value::deserialize(&[0x80]), Ok(Value::Integer(num(0))));
    // leading zeros in the magnitude
    assert_eq!(Value::deserialize(&[0x6F, 0x82, 0, 5]), Ok(Value::Integer(num(69))));
    // an empty magnitude
    assert_eq!(Value::deserialize(&[0xEF, 0x80]), Ok(Value::Integer(num(-64))));
}
