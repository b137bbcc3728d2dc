use aeser::code::{Id, Serializable};
use aeser::hash::{digest_number, digest_prefix, id4, symbol_identifier};

#[test]
fn test_init_id_serialization() {
    let id = Id::new(String::from("init"));
    assert_eq!(id.serialize().unwrap(), vec![0x44, 0xd6, 0x44, 0x1f]);
}

#[test]
fn symbol_identifiers_of_known_names() {
    assert_eq!(symbol_identifier(""), 0x0E5751C0);
    assert_eq!(symbol_identifier("init"), 0x44D6441F);
    assert_eq!(symbol_identifier("init"), 1154892831);
    assert_eq!(symbol_identifier("some_function_name"), 0xB27C4E02);
}

#[test]
fn id4_is_the_prefix_of_the_digest() {
    assert_eq!(id4("init"), vec![0x44, 0xD6, 0x44, 0x1F]);
    assert_eq!(id4("main"), vec![0xB8, 0x17, 0x7E, 0xEC]);
    assert_eq!(id4("f"), vec![0xE0, 0xBE, 0xFC, 0x61]);
    assert_eq!(id4(""), vec![0x0E, 0x57, 0x51, 0xC0]);
}

#[test]
fn digest_prefix_and_number() {
    let digest = vec![1, 2, 3, 4, 5, 6];
    assert_eq!(digest_prefix(&digest), vec![1, 2, 3, 4]);
    assert_eq!(digest_number(&digest), 0x01020304);
    assert_eq!(digest_number(&vec![255, 255, 255, 255]), u32::MAX);
    assert_eq!(digest_number(&vec![0, 0, 0, 0, 9]), 0);
}
