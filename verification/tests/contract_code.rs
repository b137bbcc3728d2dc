use aeser::contract_code::{hash_source_code, Code, TypeInfo};
use aeser::error::DecodingErr;
use aeser::rlp::{FromRlpItem, RlpItem, ToRlpItem};

#[test]
fn contract_code_source_hash() {
    let source = "contract Foo = ...";
    let expect = vec![
        48, 58, 125, 237, 188, 44, 120, 213, 52, 155, 92, 4, 213, 8, 157, 236, 198, 161, 240, 9,
        117, 91, 60, 167, 64, 44, 67, 82, 145, 174, 238, 243,
    ];

    assert_eq!(hash_source_code(source), expect);
}

#[test]
fn contract_code_sophia_contract_version3_serialize() {
    let input = Code {
        byte_code: "DUMMY_CODE".as_bytes().to_vec(),
        source_hash: hash_source_code("contract Foo = ..."),
        compiler_version: "3.1.4".as_bytes().to_vec(),
        payable: true,
        type_info: vec![],
    };
    let expect = vec![
        246, 70, 3, 160, 48, 58, 125, 237, 188, 44, 120, 213, 52, 155, 92, 4, 213, 8, 157, 236,
        198, 161, 240, 9, 117, 91, 60, 167, 64, 44, 67, 82, 145, 174, 238, 243, 192, 138, 68, 85,
        77, 77, 89, 95, 67, 79, 68, 69, 133, 51, 46, 49, 46, 52, 1,
    ];

    let serialized = input.serialize();
    let deserialized = Code::deserialize(&serialized);

    assert_eq!(serialized, expect);
    assert_eq!(deserialized, Ok(input));
}

#[test]
fn sophia_contract_w_type_info_version3_serialize() {
    let type_info = TypeInfo {
        type_hash: vec![21, 37],
        name: vec![],
        payable: true,
        arg_type: vec![42, 0],
        out_type: vec![255, 7],
    };

    let input = Code {
        byte_code: "DUMMY CODE".as_bytes().to_vec(),
        source_hash: hash_source_code("contract Foo = ..."),
        compiler_version: "3.1.4".as_bytes().to_vec(),
        payable: true,
        type_info: vec![type_info],
    };
    let expect = vec![
        248, 66, 70, 3, 160, 48, 58, 125, 237, 188, 44, 120, 213, 52, 155, 92, 4, 213, 8, 157, 236,
        198, 161, 240, 9, 117, 91, 60, 167, 64, 44, 67, 82, 145, 174, 238, 243, 204, 203, 130, 21,
        37, 128, 1, 130, 42, 0, 130, 255, 7, 138, 68, 85, 77, 77, 89, 32, 67, 79, 68, 69, 133, 51,
        46, 49, 46, 52, 1,
    ];

    let serialized = input.serialize();
    let deserialized = Code::deserialize(&serialized);

    assert_eq!(serialized, expect);
    // A FATE contract must not carry type info: it is written out, and
    // refused when read back.
    assert_eq!(deserialized, Err(DecodingErr::InvalidCode));
}

#[test]
fn contract_record_bytes() {
    let input = Code {
        byte_code: "DUMMY_CODE".as_bytes().to_vec(),
        source_hash: hash_source_code("contract Foo = ..."),
        compiler_version: "3.1.4".as_bytes().to_vec(),
        payable: true,
        type_info: vec![],
    };
    let bytes = input.serialize();
    assert_eq!(bytes.len(), 55);
    assert_eq!(&bytes[..8], &[246, 70, 3, 160, 48, 58, 125, 237]);
    assert_eq!(&bytes[bytes.len() - 7..], &[133, 51, 46, 49, 46, 52, 1]);
}

#[test]
fn contract_not_payable_round_trip() {
    let input = Code {
        byte_code: vec![1, 2, 3],
        source_hash: vec![9; 32],
        compiler_version: vec![],
        payable: false,
        type_info: vec![],
    };
    let bytes = input.serialize();
    assert_eq!(*bytes.last().unwrap(), 0);
    assert_eq!(Code::deserialize(&bytes), Ok(input));
}

fn fields(tag: RlpItem, version: RlpItem, type_info: RlpItem, payable: RlpItem) -> Vec<RlpItem> {
    vec![
        tag,
        version,
        RlpItem::ByteArray(vec![1; 32]),
        type_info,
        RlpItem::ByteArray(vec![7]),
        RlpItem::ByteArray(vec![8]),
        payable,
    ]
}

fn byte(b: u8) -> RlpItem {
    RlpItem::ByteArray(vec![b])
}

#[test]
fn contract_rejects_malformed_records() {
    // no RLP at all, or bytes behind the item
    assert_eq!(Code::deserialize(&[]), Err(DecodingErr::InvalidRlp));
    assert_eq!(Code::deserialize(&[192, 0]), Err(DecodingErr::InvalidRlp));
    // not a list
    assert_eq!(Code::deserialize(&[128]), Err(DecodingErr::InvalidRlp));
    // a list of six fields
    let six = RlpItem::List(vec![byte(70), byte(3), byte(1), RlpItem::List(vec![]), byte(1), byte(1)]);
    assert_eq!(Code::deserialize(&six.serialize()), Err(DecodingErr::InvalidRlp));
    // a wrong tag
    let wrong_tag = RlpItem::List(fields(byte(71), byte(3), RlpItem::List(vec![]), byte(1)));
    assert_eq!(Code::deserialize(&wrong_tag.serialize()), Err(DecodingErr::InvalidRlp));
    // a tag of two bytes
    let long_tag = RlpItem::List(fields(
        RlpItem::ByteArray(vec![70, 0]),
        byte(3),
        RlpItem::List(vec![]),
        byte(1),
    ));
    assert_eq!(Code::deserialize(&long_tag.serialize()), Err(DecodingErr::InvalidInt));
    // a list where the version has to be
    let bad_version = RlpItem::List(fields(
        byte(70),
        RlpItem::List(vec![]),
        RlpItem::List(vec![]),
        byte(1),
    ));
    assert_eq!(Code::deserialize(&bad_version.serialize()), Err(DecodingErr::InvalidBinary));
    // type info that is no list
    let bad_info = RlpItem::List(fields(byte(70), byte(3), byte(1), byte(1)));
    assert_eq!(Code::deserialize(&bad_info.serialize()), Err(DecodingErr::InvalidList));
    // a payable flag that is neither 0 nor 1
    let bad_flag = RlpItem::List(fields(byte(70), byte(3), RlpItem::List(vec![]), byte(2)));
    assert_eq!(Code::deserialize(&bad_flag.serialize()), Err(DecodingErr::InvalidBool));
    // a list where the byte code has to be
    let mut items = fields(byte(70), byte(3), RlpItem::List(vec![]), byte(1));
    items[4] = RlpItem::List(vec![]);
    assert_eq!(
        Code::deserialize(&RlpItem::List(items).serialize()),
        Err(DecodingErr::InvalidBinary)
    );
}

#[test]
fn type_info_round_trip_through_rlp() {
    let info = TypeInfo {
        type_hash: vec![21, 37],
        name: vec![110],
        payable: false,
        arg_type: vec![],
        out_type: vec![255, 7],
    };
    let item = info.to_rlp_item();
    assert_eq!(
        item,
        RlpItem::List(vec![
            RlpItem::ByteArray(vec![21, 37]),
            RlpItem::ByteArray(vec![110]),
            RlpItem::ByteArray(vec![0]),
            RlpItem::ByteArray(vec![]),
            RlpItem::ByteArray(vec![255, 7]),
        ])
    );
    assert_eq!(TypeInfo::from_rlp_item(&item), Ok(info));
    assert_eq!(
        TypeInfo::from_rlp_item(&RlpItem::List(vec![])),
        Err(DecodingErr::InvalidRlp)
    );
    assert_eq!(
        TypeInfo::from_rlp_item(&RlpItem::ByteArray(vec![])),
        Err(DecodingErr::InvalidRlp)
    );
}
