use aeser::api_encoder::{
    decode, decode_blockhash, decode_check, decode_id, encode_data, encode_id, open_body,
    split_prefix, unhex,
    Encoding, KnownType,
};
use aeser::error::DecodingErr;
use aeser::id::{EncodedId, Id, Tag};

fn table() -> Vec<(KnownType, Option<usize>, &'static str, Encoding)> {
    vec![
        (KnownType::KeyBlockHash, Some(32), "kh", Encoding::Base58),
        (KnownType::MicroBlockHash, Some(32), "mh", Encoding::Base58),
        (KnownType::BlockPofHash, Some(32), "bf", Encoding::Base58),
        (KnownType::BlockTxHash, Some(32), "bx", Encoding::Base58),
        (KnownType::BlockStateHash, Some(32), "bs", Encoding::Base58),
        (KnownType::Channel, Some(32), "ch", Encoding::Base58),
        (KnownType::ContractBytearray, None, "cb", Encoding::Base58),
        (KnownType::ContractPubkey, Some(32), "ck", Encoding::Base64),
        (KnownType::ContractStoreKey, None, "cv", Encoding::Base64),
        (KnownType::ContractStoreValue, None, "ct", Encoding::Base64),
        (KnownType::Transaction, None, "tx", Encoding::Base64),
        (KnownType::TxHash, Some(32), "th", Encoding::Base58),
        (KnownType::OraclePubkey, Some(32), "ok", Encoding::Base58),
        (KnownType::OracleQuery, None, "ov", Encoding::Base64),
        (KnownType::OracleQueryId, Some(32), "oq", Encoding::Base58),
        (KnownType::OracleResponse, None, "or", Encoding::Base64),
        (KnownType::AccountPubkey, Some(32), "ak", Encoding::Base58),
        (KnownType::Signature, Some(64), "sg", Encoding::Base58),
        (KnownType::Name, None, "cm", Encoding::Base58),
        (KnownType::Commitment, Some(32), "pp", Encoding::Base58),
        (KnownType::PeerPubkey, Some(32), "nm", Encoding::Base58),
        (KnownType::State, Some(32), "st", Encoding::Base64),
        (KnownType::Poi, None, "pi", Encoding::Base64),
        (KnownType::StateTrees, None, "ss", Encoding::Base64),
        (KnownType::CallStateTree, None, "cs", Encoding::Base64),
        (KnownType::Bytearray, None, "ba", Encoding::Base64),
    ]
}

fn counting(n: usize) -> Vec<u8> {
    (0..n).map(|i| i as u8).collect()
}

#[test]
fn known_type_table() {
    let table = table();
    assert_eq!(table.len(), 26);
    for (tp, size, prefix, encoding) in table {
        assert_eq!(tp.byte_size(), size);
        assert_eq!(tp.prefix(), prefix);
        assert_eq!(KnownType::from_prefix(prefix), Some(tp));
        assert_eq!(tp.encoding(), encoding);
    }
}

#[test]
fn prefix_roundtrip() {
    for (tp, _, _, _) in table() {
        assert_eq!(KnownType::from_prefix(&tp.prefix()), Some(tp));
    }
}

#[test]
fn unknown_prefixes() {
    for prefix in ["", "a", "aa", "akk", "AK", "k h", "xx", "__", "\u{e9}"] {
        assert_eq!(KnownType::from_prefix(prefix), None);
    }
}

#[test]
fn check_size_follows_byte_size() {
    assert!(KnownType::AccountPubkey.check_size(32));
    assert!(!KnownType::AccountPubkey.check_size(31));
    assert!(!KnownType::AccountPubkey.check_size(0));
    assert!(KnownType::Signature.check_size(64));
    assert!(!KnownType::Signature.check_size(32));
    assert!(KnownType::Bytearray.check_size(0));
    assert!(KnownType::Bytearray.check_size(1_000_000));
}

#[test]
fn id_tags_and_types() {
    let pairs = [
        (Tag::Account, KnownType::AccountPubkey),
        (Tag::Name, KnownType::Name),
        (Tag::Commitment, KnownType::Commitment),
        (Tag::Oracle, KnownType::OraclePubkey),
        (Tag::Contract, KnownType::ContractPubkey),
        (Tag::Channel, KnownType::Channel),
    ];
    for (tag, tp) in pairs {
        assert_eq!(KnownType::from_id_tag(tag), tp);
        assert_eq!(tp.to_id_tag(), Some(tag));
    }
    assert_eq!(KnownType::KeyBlockHash.to_id_tag(), None);
    assert_eq!(KnownType::Bytearray.to_id_tag(), None);
    assert_eq!(KnownType::Signature.to_id_tag(), None);
}

#[test]
fn check_is_double_sha256() {
    let enc = Encoding::Base58;
    assert_eq!(enc.make_check(&counting(32)), vec![47, 40, 123, 77]);
    assert_eq!(enc.make_check(b"hello"), vec![149, 149, 201, 223]);
    assert_eq!(Encoding::Base64.make_check(b""), vec![93, 246, 224, 226]);
    assert_eq!(enc.add_check(b"hello"), vec![104, 101, 108, 108, 111, 149, 149, 201, 223]);
}

#[test]
fn unhex_reads_pairs_of_digits() {
    assert_eq!(unhex(&b"00ff10aB".to_vec()), vec![0, 255, 16, 171]);
    assert_eq!(unhex(&b"".to_vec()), Vec::<u8>::new());
    assert_eq!(unhex(&b"7".to_vec()), Vec::<u8>::new());
    assert_eq!(unhex(&b"123".to_vec()), vec![0x12]);
    assert_eq!(unhex(&b"zz".to_vec()), vec![0]);
}

#[test]
fn encodes_known_strings() {
    assert_eq!(
        encode_data(KnownType::AccountPubkey, &counting(32)),
        "ak_16qJFWMMHFy3xDdLmvUeyc2S6FrWRhJP51HsvDYdz9d1FsYG"
    );
    assert_eq!(
        encode_data(KnownType::ContractPubkey, &counting(32)),
        "ck_AAECAwQFBgcICQoLDA0ODxAREhMUFRYXGBkaGxwdHh8vKHtN"
    );
    assert_eq!(
        encode_data(KnownType::AccountPubkey, &[0; 32]),
        "ak_11111111111111111111111111111111273Yts"
    );
    assert_eq!(encode_data(KnownType::Bytearray, b"hello"), "ba_aGVsbG+Vlcnf");
    assert_eq!(encode_data(KnownType::ContractBytearray, b"hello"), "cb_2L5B5yqsVG8Vt");
    assert_eq!(encode_data(KnownType::Transaction, b""), "tx_Xfbg4g==");
    assert_eq!(
        encode_data(KnownType::Signature, &counting(64)),
        "sg_12jVjGbD3wrDT6L19fyB486MyMfMdNjc148QTEgR2qypJqKtTHnBDUjubAxFytva52tzNzog1PChUSJ1vFMgt11fwd15"
    );
    assert_eq!(Encoding::Base58.encode(&[0x04, 0x30, 0x5e, 0x2b, 0x24, 0x73, 0xf0, 0x58]), "he11owor1d");
    assert_eq!(Encoding::Base64.encode(b"hi"), "aGk=");
    assert_eq!(Encoding::Base58.encode_with_check(b"hello"), "2L5B5yqsVG8Vt");
}

#[test]
fn decodes_known_strings() {
    assert_eq!(
        decode("ak_16qJFWMMHFy3xDdLmvUeyc2S6FrWRhJP51HsvDYdz9d1FsYG"),
        Ok((KnownType::AccountPubkey, counting(32)))
    );
    assert_eq!(
        decode("ck_AAECAwQFBgcICQoLDA0ODxAREhMUFRYXGBkaGxwdHh8vKHtN"),
        Ok((KnownType::ContractPubkey, counting(32)))
    );
    assert_eq!(decode("ba_aGVsbG+Vlcnf"), Ok((KnownType::Bytearray, b"hello".to_vec())));
    assert_eq!(decode("tx_Xfbg4g=="), Ok((KnownType::Transaction, vec![])));
    assert_eq!(Encoding::Base58.decode("he11owor1d"), Some(vec![0x04, 0x30, 0x5e, 0x2b, 0x24, 0x73, 0xf0, 0x58]));
    assert_eq!(Encoding::Base58.decode("he11owor1d0"), None);
    assert_eq!(Encoding::Base64.decode("aGk="), Some(b"hi".to_vec()));
    assert_eq!(Encoding::Base64.decode("aGk"), None);
}

#[test]
fn encoding_and_prefix() {
    for (tp, size, prefix, _) in table() {
        let data = counting(size.unwrap_or(17));
        let enc = encode_data(tp, &data);
        assert_eq!(enc.as_bytes()[2], b'_');
        let (pfx1, enc_data) = split_prefix(&enc).expect("Prefix split");
        assert_eq!(pfx1, prefix);
        assert_eq!(enc_data, &enc[3..]);
    }
}

#[test]
fn encoding_roundtrip() {
    for (tp, size, _, _) in table() {
        let sizes = match size {
            Some(s) => vec![s],
            None => vec![0, 1, 5, 32, 255],
        };
        for n in sizes {
            let data = counting(n);
            let enc = encode_data(tp, &data);
            let (tp1, data1) = decode(&enc).expect("Decoding failed");
            assert_eq!(tp, tp1);
            assert_eq!(data, data1);
        }
    }
}

#[test]
fn encoding_id_roundtrip() {
    let mut bytes = [0u8; 32];
    bytes.copy_from_slice(&counting(32));
    for tag in [Tag::Account, Tag::Name, Tag::Commitment, Tag::Oracle, Tag::Contract, Tag::Channel] {
        let id = Id { tag, val: EncodedId { bytes } };
        let enc = encode_id(&id);
        let allowed = [KnownType::KeyBlockHash, KnownType::from_id_tag(tag), KnownType::Poi];
        assert_eq!(decode_id(&allowed, &enc), Ok(id));
    }
    let id = Id { tag: Tag::Account, val: EncodedId { bytes } };
    assert_eq!(encode_id(&id), "ak_16qJFWMMHFy3xDdLmvUeyc2S6FrWRhJP51HsvDYdz9d1FsYG");
}

#[test]
fn encoding_id_roundtrip_fail() {
    let bytes = [9u8; 32];
    for tag in [Tag::Account, Tag::Name, Tag::Commitment, Tag::Oracle, Tag::Contract, Tag::Channel] {
        let id = Id { tag, val: EncodedId { bytes } };
        let enc = encode_id(&id);
        let allowed: Vec<KnownType> = table()
            .into_iter()
            .map(|row| row.0)
            .filter(|tp| *tp != KnownType::from_id_tag(tag))
            .collect();
        assert_eq!(decode_id(&allowed, &enc), Err(DecodingErr::InvalidPrefix));
        assert_eq!(decode_id(&[], &enc), Err(DecodingErr::InvalidPrefix));
    }
}

#[test]
fn decode_errors() {
    assert_eq!(decode(""), Err(DecodingErr::MissingPrefix));
    assert_eq!(decode("ak16qJFWMM"), Err(DecodingErr::MissingPrefix));
    assert_eq!(decode("_16qJFWMM"), Err(DecodingErr::InvalidPrefix));
    assert_eq!(decode("a_16qJFWMM"), Err(DecodingErr::InvalidPrefix));
    assert_eq!(decode("akk_16qJFWMM"), Err(DecodingErr::InvalidPrefix));
    assert_eq!(decode("zz_16qJFWMM"), Err(DecodingErr::InvalidPrefix));
    // 0, O, I and l are no base58 digits
    assert_eq!(decode("ak_0OIl"), Err(DecodingErr::InvalidEncoding));
    assert_eq!(decode("ba_aGk"), Err(DecodingErr::InvalidEncoding));
    assert_eq!(decode("ba_a_b"), Err(DecodingErr::InvalidEncoding));
    // fewer than four bytes cannot hold a check
    assert_eq!(decode("ba_aGk="), Err(DecodingErr::InvalidCheck));
    assert_eq!(decode("ba_"), Err(DecodingErr::InvalidCheck));
    // a wrong check
    assert_eq!(decode("ba_aGVsbG8AAAAA"), Err(DecodingErr::InvalidCheck));
    assert_eq!(
        decode("ak_16qJFWMMHFy3xDdLmvUeyc2S6FrWRhJP51HsvDYdz9d1FsYH"),
        Err(DecodingErr::InvalidCheck)
    );
    // a good check on a payload of the wrong size
    let five = encode_data(KnownType::Name, b"hello").replacen("cm_", "ak_", 1);
    assert_eq!(decode(&five), Err(DecodingErr::IncorrectSize));
    let sixty_four = encode_data(KnownType::Signature, &counting(64)).replacen("sg_", "kh_", 1);
    assert_eq!(decode(&sixty_four), Err(DecodingErr::IncorrectSize));
}

#[test]
fn open_body_checks_the_check() {
    let good = Encoding::Base58.add_check(&counting(32));
    assert_eq!(open_body(good.clone()), Ok(counting(32)));
    let mut bad = good;
    bad[35] ^= 1;
    assert_eq!(open_body(bad), Err(DecodingErr::InvalidCheck));
    assert_eq!(open_body(vec![1, 2, 3]), Err(DecodingErr::InvalidCheck));
    assert_eq!(open_body(vec![]), Err(DecodingErr::InvalidCheck));
    assert_eq!(open_body(vec![93, 246, 224, 226]), Ok(vec![]));
    assert_eq!(open_body(vec![93, 246, 224, 227]), Err(DecodingErr::InvalidCheck));
}

#[test]
fn decode_check_reads_and_checks() {
    assert_eq!(decode_check(KnownType::Bytearray, "aGVsbG+Vlcnf"), Ok(b"hello".to_vec()));
    assert_eq!(decode_check(KnownType::ContractBytearray, "2L5B5yqsVG8Vt"), Ok(b"hello".to_vec()));
    // the size of the payload is not looked at
    assert_eq!(decode_check(KnownType::State, "aGVsbG+Vlcnf"), Ok(b"hello".to_vec()));
    assert_eq!(decode_check(KnownType::Bytearray, "aGVsbG8AAAAA"), Err(DecodingErr::InvalidCheck));
    assert_eq!(decode_check(KnownType::Bytearray, "2L5B5yqsVG8Vt"), Err(DecodingErr::InvalidEncoding));
    assert_eq!(decode_check(KnownType::AccountPubkey, "aGVsbG+Vlcnf"), Err(DecodingErr::InvalidEncoding));
}

#[test]
fn split_prefix_cases() {
    assert_eq!(split_prefix("ak_abc"), Ok(("ak".to_string(), "abc".to_string())));
    assert_eq!(split_prefix("ak_"), Ok(("ak".to_string(), "".to_string())));
    assert_eq!(split_prefix("ak_a_b"), Ok(("ak".to_string(), "a_b".to_string())));
    assert_eq!(split_prefix("zz_1"), Ok(("zz".to_string(), "1".to_string())));
    assert_eq!(split_prefix("ak"), Err(DecodingErr::MissingPrefix));
    assert_eq!(split_prefix(""), Err(DecodingErr::MissingPrefix));
    assert_eq!(split_prefix("_ak"), Err(DecodingErr::InvalidPrefix));
    assert_eq!(split_prefix("abc_d"), Err(DecodingErr::InvalidPrefix));
}

#[test]
fn decode_id_cases() {
    let name = encode_data(KnownType::Name, b"hello");
    assert_eq!(decode_id(&[KnownType::Name], &name), Err(DecodingErr::InvalidEncoding));
    let hash = encode_data(KnownType::KeyBlockHash, &counting(32));
    assert_eq!(decode_id(&[KnownType::KeyBlockHash], &hash), Err(DecodingErr::InvalidPrefix));
    assert_eq!(decode_id(&[KnownType::AccountPubkey], "ak"), Err(DecodingErr::MissingPrefix));
    let name32 = encode_data(KnownType::Name, &counting(32));
    let mut bytes = [0u8; 32];
    bytes.copy_from_slice(&counting(32));
    assert_eq!(
        decode_id(&[KnownType::AccountPubkey, KnownType::Name], &name32),
        Ok(Id { tag: Tag::Name, val: EncodedId { bytes } })
    );
}

#[test]
fn decode_blockhash_cases() {
    let key = encode_data(KnownType::KeyBlockHash, &counting(32));
    assert_eq!(key, "kh_16qJFWMMHFy3xDdLmvUeyc2S6FrWRhJP51HsvDYdz9d1FsYG");
    assert_eq!(decode_blockhash(&key), Ok(counting(32)));
    let micro = encode_data(KnownType::MicroBlockHash, &[5; 32]);
    assert_eq!(decode_blockhash(&micro), Ok(vec![5; 32]));
    let tx = encode_data(KnownType::BlockTxHash, &[5; 32]);
    assert_eq!(decode_blockhash(&tx), Err(DecodingErr::InvalidPrefix));
    assert_eq!(decode_blockhash("kh"), Err(DecodingErr::MissingPrefix));
}

#[test]
fn decodes_an_account_of_the_chain() {
    let text = "ak_2swhLkgBPeeADxVTAVCJnZLY5NZtCFiM93JxsEaMuC59euuFRQ";
    let payload = [
        247, 94, 83, 245, 120, 34, 34, 122, 88, 180, 99, 9, 93, 109, 171, 101, 124, 171, 128, 69,
        116, 190, 98, 222, 11, 225, 249, 82, 121, 208, 144, 55,
    ];
    let id = decode_id(&[KnownType::AccountPubkey], text).unwrap();
    assert_eq!(id.tag, Tag::Account);
    assert_eq!(id.val.bytes, payload);
    assert_eq!(encode_id(&id), text);
}
