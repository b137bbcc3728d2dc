use aeser::code::{
    serialize_annotations, Annotation, Arg, Arguments, Attributes, Deserializable, Id,
    Serializable, Symbols, TypeSig,
};
use aeser::data::error::{DeserErr, SerErr};
use aeser::data::types::Type;
use aeser::data::value::Value;

#[test]
fn function_ids() {
    assert_eq!(Id::new(String::from("map")).serialize(), Ok(vec![89, 123, 141, 76]));
    assert_eq!(Id::new(String::from("init")), Id::new(String::from("init")));
    for name in ["", "a", "some_function_name"] {
        assert_eq!(Id::new(String::from(name)).serialize().unwrap().len(), 4);
    }
}

#[test]
fn attributes() {
    let all = [
        (Attributes::Neither, 0u8),
        (Attributes::Private, 1),
        (Attributes::Payable, 2),
        (Attributes::PrivatePayable, 3),
    ];
    for (attrs, byte) in all {
        assert_eq!(attrs.serialize(), Ok(vec![byte]));
        assert_eq!(Attributes::from_byte(byte), Some(attrs));
    }
    assert_eq!(Attributes::from_byte(4), None);
    assert_eq!(Attributes::from_byte(255), None);
}

#[test]
fn type_signatures() {
    let sig = TypeSig {
        args: vec![],
        ret: Type::Mapping {
            key: Box::new(Type::Integer),
            val: Box::new(Type::Mapping {
                key: Box::new(Type::String),
                val: Box::new(Type::Boolean),
            }),
        },
    };
    let bytes = sig.serialize().unwrap();
    assert_eq!(bytes, vec![55, 0, 103, 7, 103, 119, 23]);
    let (decoded, rest) = TypeSig::try_deserialize(&bytes).unwrap();
    assert_eq!(decoded, sig);
    assert!(rest.is_empty());

    let sig = TypeSig { args: vec![Type::Integer, Type::Address], ret: Type::Tuple(vec![]) };
    let bytes = sig.serialize().unwrap();
    assert_eq!(bytes, vec![0x37, 2, 0x07, 0x47, 0, 0x37, 0]);
    let with_rest = [bytes, vec![9]].concat();
    let (decoded, rest) = TypeSig::try_deserialize(&with_rest).unwrap();
    assert_eq!(decoded, sig);
    assert_eq!(rest, &[9]);
}

#[test]
fn type_signature_errors() {
    let many: Vec<Type> = (0..256).map(|_| Type::Any).collect();
    let sig = TypeSig { args: many, ret: Type::Any };
    assert_eq!(sig.serialize(), Err(SerErr::TupleSizeLimitExceeded));
    let sig = TypeSig { args: vec![], ret: Type::Variant((0..256).map(|_| Type::Any).collect()) };
    assert_eq!(sig.serialize(), Err(SerErr::VariantSizeLimitExceeded));
    assert_eq!(TypeSig::try_deserialize(&[]).map(|p| p.0), Err(DeserErr::Empty));
    assert_eq!(TypeSig::try_deserialize(&[0x37, 0]).map(|p| p.0), Err(DeserErr::Empty));
    assert_eq!(TypeSig::try_deserialize(&[0x07, 0x07]).map(|p| p.0), Err(DeserErr::InvalidTuple));
    assert_eq!(
        TypeSig::try_deserialize(&[0x07, 0x00]).map(|p| p.0),
        Err(DeserErr::InvalidTypeId(0))
    );
}

#[test]
fn instruction_arguments() {
    assert_eq!(Arg::Stack(0).serialize(), Ok(vec![0]));
    assert_eq!(Arg::Arg(1).serialize(), Ok(vec![2]));
    assert_eq!(Arg::Var(63).serialize(), Ok(vec![126]));
    assert_eq!(Arg::Var(64).serialize(), Ok(vec![0x6F, 0]));
    assert_eq!(Arg::Stack(u32::MAX).serialize(), Ok(vec![0x6F, 0x84, 255, 255, 255, 191]));
    assert_eq!(Arg::Immediate(Value::Boolean(true)).serialize(), Ok(vec![0xFF]));
    assert_eq!(
        Arg::Immediate(Value::StoreMap { cache: vec![(Value::Boolean(true), Value::Boolean(true))], id: 1 })
            .serialize(),
        Err(SerErr::NonEmptyStoreMapCache)
    );
}

#[test]
fn annotations() {
    let a = Annotation::Comment { line: 1, comment: String::from(" CONTRACT mapofmap") };
    let b = Annotation::Comment { line: 1, comment: String::from(" CONTRACT mapofmap") };
    assert_eq!(a, b);
}

#[test]
fn annotations_serialize_as_a_map() {
    let anns = vec![Annotation::Comment { line: 1, comment: String::from(" CONTRACT mapofmap") }];
    assert_eq!(
        serialize_annotations(&anns),
        Ok(vec![
            47, 1, 43, 29, 99, 111, 109, 109, 101, 110, 116, 2, 73, 32, 67, 79, 78, 84, 82, 65,
            67, 84, 32, 109, 97, 112, 111, 102, 109, 97, 112,
        ])
    );
    assert_eq!(serialize_annotations(&vec![]), Ok(vec![47, 0]));
    // comments go by their lines, and the later of two on one line stays
    let anns = vec![
        Annotation::Comment { line: 2, comment: String::from("b") },
        Annotation::Comment { line: 1, comment: String::from("a") },
        Annotation::Comment { line: 2, comment: String::from("c") },
    ];
    let comment = [29u8, 99, 111, 109, 109, 101, 110, 116];
    let expect = [
        vec![47, 2, 43],
        comment.to_vec(),
        vec![2, 5, b'a', 43],
        comment.to_vec(),
        vec![4, 5, b'c'],
    ]
    .concat();
    assert_eq!(serialize_annotations(&anns), Ok(expect));
}

#[test]
fn symbols_table() {
    let mut symbols = Symbols::new();
    assert_eq!(symbols.len(), 0);
    assert_eq!(symbols.serialize(), Ok(vec![47, 0]));
    assert!(symbols.insert(String::from("map")));
    assert_eq!(symbols.len(), 1);
    assert_eq!(
        symbols.serialize(),
        Ok(vec![47, 1, 17, 89, 123, 141, 76, 13, 109, 97, 112])
    );
    // the same name again changes nothing
    assert!(symbols.insert(String::from("map")));
    assert_eq!(symbols.len(), 1);
    // "init" is 44d6441f and goes before "map", 597b8d4c
    assert!(symbols.insert(String::from("init")));
    assert_eq!(symbols.len(), 2);
    assert_eq!(
        symbols.serialize(),
        Ok(vec![
            47, 2, 17, 0x44, 0xD6, 0x44, 0x1F, 17, b'i', b'n', b'i', b't', 17, 89, 123, 141, 76,
            13, 109, 97, 112,
        ])
    );
}

#[test]
fn symbols_refuse_collisions() {
    let mut symbols = Symbols::new();
    assert!(symbols.insert_as(vec![1, 2, 3, 4], String::from("first")));
    assert!(symbols.insert_as(vec![1, 2, 3, 3], String::from("before")));
    assert!(symbols.insert_as(vec![1, 2, 3, 5], String::from("after")));
    let before = symbols.serialize();
    assert!(!symbols.insert_as(vec![1, 2, 3, 4], String::from("second")));
    assert!(!symbols.insert_as(vec![1, 2, 3, 5], String::from("second")));
    assert!(!symbols.insert_as(vec![1, 2, 3, 3], String::from("second")));
    assert_eq!(symbols.len(), 3);
    assert_eq!(symbols.serialize(), before);
    assert!(symbols.insert_as(vec![1, 2, 3, 4], String::from("first")));
    assert_eq!(symbols.len(), 3);
    let mut expect = Symbols::new();
    expect.insert_as(vec![1, 2, 3, 5], String::from("after"));
    expect.insert_as(vec![1, 2, 3, 3], String::from("before"));
    expect.insert_as(vec![1, 2, 3, 4], String::from("first"));
    assert_eq!(symbols, expect);
}

#[test]
fn arguments_serialize_back_to_back() {
    let none = Arguments { args: vec![] };
    assert_eq!(none.serialize(), Ok(vec![]));
    let some = Arguments {
        args: vec![Arg::Stack(0), Arg::Var(64), Arg::Immediate(Value::Boolean(false)), Arg::Arg(5)],
    };
    assert_eq!(some.serialize(), Ok(vec![0, 0x6F, 0, 0x7F, 10]));
    let bad = Arguments {
        args: vec![
            Arg::Stack(0),
            Arg::Immediate(Value::Variant { arities: vec![], tag: 0, values: vec![] }),
            Arg::Immediate(Value::StoreMap {
                cache: vec![(Value::Boolean(true), Value::Boolean(true))],
                id: 1,
            }),
        ],
    };
    assert_eq!(bad.serialize(), Err(SerErr::InvalidVariantTag));
}
