use aeser::abi::{abi_version, args_of, calldata_for, create_calldata, decode_calldata};
use aeser::data::error::DeserErr;
use aeser::data::value::Value;
use aeser::integer::Int;

#[test]
fn abi_version_is_three() {
    assert_eq!(abi_version(), 3);
}

#[test]
fn calldata_without_arguments() {
    let name = String::from("f");
    let expect = Value::Tuple(vec![
        Value::Bytes(vec![0xE0, 0xBE, 0xFC, 0x61]),
        Value::Tuple(vec![]),
    ])
    .serialize()
    .unwrap();
    let calldata = create_calldata(&name, vec![]).unwrap();
    assert_eq!(calldata, expect);
    assert_eq!(calldata, vec![0x2B, 0x9F, 0x01, 0x11, 0xE0, 0xBE, 0xFC, 0x61, 0x3F]);
    assert_eq!(decode_calldata(&name, calldata.clone()), Ok(vec![]));
    assert_eq!(
        decode_calldata(&String::from("g"), calldata),
        Err(DeserErr::CalldataDecodeErr)
    );
}

#[test]
fn calldata_round_trip() {
    let args = vec![
        Value::Integer(Int::from_i64(42)),
        Value::String(b"hello".to_vec()),
        Value::List(vec![Value::Boolean(true)]),
    ];
    for name in ["init", "", "some_function_name", "\u{e9}t\u{e9}"] {
        let name = String::from(name);
        let ser = create_calldata(&name, args.clone());
        let deser = decode_calldata(&name, ser.unwrap());
        assert_eq!(deser.unwrap(), args);
    }
}

#[test]
fn calldata_of_init() {
    let calldata = create_calldata(&String::from("init"), vec![Value::Integer(Int::from_i64(1))]);
    assert_eq!(
        calldata.unwrap(),
        vec![0x2B, 0x9F, 0x01, 0x11, 0x44, 0xD6, 0x44, 0x1F, 0x1B, 0x02]
    );
    assert_eq!(
        calldata_for(vec![1, 2, 3, 4], vec![]),
        Ok(vec![0x2B, 0x9F, 0x01, 0x11, 1, 2, 3, 4, 0x3F])
    );
}

#[test]
fn calldata_structure() {
    let id = vec![1, 2, 3, 4];
    let bytes = |b: &[u8]| Value::Bytes(b.to_vec());
    let ok = Value::Tuple(vec![bytes(&id), Value::Tuple(vec![Value::Boolean(true)])]);
    assert_eq!(args_of(&id, ok), Ok(vec![Value::Boolean(true)]));
    let cases = vec![
        Value::Boolean(true),
        Value::Tuple(vec![]),
        Value::Tuple(vec![bytes(&id)]),
        Value::Tuple(vec![bytes(&id), Value::Tuple(vec![]), Value::Tuple(vec![])]),
        Value::Tuple(vec![bytes(&[1, 2, 3]), Value::Tuple(vec![])]),
        Value::Tuple(vec![bytes(&[1, 2, 3, 5]), Value::Tuple(vec![])]),
        Value::Tuple(vec![Value::String(id.clone()), Value::Tuple(vec![])]),
        Value::Tuple(vec![bytes(&id), Value::List(vec![])]),
        Value::List(vec![bytes(&id), Value::Tuple(vec![])]),
    ];
    for v in cases {
        assert_eq!(args_of(&id, v), Err(DeserErr::CalldataDecodeErr));
    }
}

#[test]
fn calldata_decoding_errors_pass_through() {
    let name = String::from("f");
    assert_eq!(decode_calldata(&name, vec![]), Err(DeserErr::Empty));
    assert_eq!(decode_calldata(&name, vec![0x0F]), Err(DeserErr::InvalidIdByte(0x0F)));
    let mut calldata = create_calldata(&name, vec![]).unwrap();
    calldata.push(0);
    match decode_calldata(&name, calldata) {
        Err(DeserErr::Trailing { undecoded, .. }) => assert_eq!(undecoded, vec![0]),
        other => panic!("{:?}", other),
    }
}
