//! Checksummed API strings: a two-letter prefix that tells the type of the
//! object, an underscore, and the payload with its check in base58 or
//! base64.

use crate::error::DecodingErr;
use crate::id::{payload_of, EncodedId, Id, Tag};
use base64::Engine;
use vstd::prelude::*;

verus! {

/// Possible chain-object types.
#[derive(Debug, Copy, Clone, PartialEq, Eq, Structural)]
pub enum KnownType {
    KeyBlockHash,
    MicroBlockHash,
    BlockPofHash,
    BlockTxHash,
    BlockStateHash,
    Channel,
    ContractBytearray,
    ContractPubkey,
    ContractStoreKey,
    ContractStoreValue,
    Transaction,
    TxHash,
    OraclePubkey,
    OracleQuery,
    OracleQueryId,
    OracleResponse,
    AccountPubkey,
    Signature,
    Name,
    Commitment,
    PeerPubkey,
    State,
    Poi,
    StateTrees,
    CallStateTree,
    Bytearray,
}

/// Supported types of encoding.
#[derive(Debug, Copy, Clone, PartialEq, Eq, Structural)]
pub enum Encoding {
    Base58,
    Base64,
}

/// The size in bytes that the payload of a type must have, where it is
/// fixed.
pub open spec fn size_of_type(t: KnownType) -> Option<usize> {
    match t {
        KnownType::KeyBlockHash => Some(32),
        KnownType::MicroBlockHash => Some(32),
        KnownType::BlockPofHash => Some(32),
        KnownType::BlockTxHash => Some(32),
        KnownType::BlockStateHash => Some(32),
        KnownType::Channel => Some(32),
        KnownType::ContractBytearray => None,
        KnownType::ContractPubkey => Some(32),
        KnownType::ContractStoreKey => None,
        KnownType::ContractStoreValue => None,
        KnownType::Transaction => None,
        KnownType::TxHash => Some(32),
        KnownType::OraclePubkey => Some(32),
        KnownType::OracleQuery => None,
        KnownType::OracleQueryId => Some(32),
        KnownType::OracleResponse => None,
        KnownType::AccountPubkey => Some(32),
        KnownType::Signature => Some(64),
        KnownType::Name => None,
        KnownType::Commitment => Some(32),
        KnownType::PeerPubkey => Some(32),
        KnownType::State => Some(32),
        KnownType::Poi => None,
        KnownType::StateTrees => None,
        KnownType::CallStateTree => None,
        KnownType::Bytearray => None,
    }
}

/// The two letters that announce a type.
pub open spec fn prefix_of(t: KnownType) -> Seq<char> {
    match t {
        KnownType::KeyBlockHash => seq!['k', 'h'],
        KnownType::MicroBlockHash => seq!['m', 'h'],
        KnownType::BlockPofHash => seq!['b', 'f'],
        KnownType::BlockTxHash => seq!['b', 'x'],
        KnownType::BlockStateHash => seq!['b', 's'],
        KnownType::Channel => seq!['c', 'h'],
        KnownType::ContractBytearray => seq!['c', 'b'],
        KnownType::ContractPubkey => seq!['c', 'k'],
        KnownType::ContractStoreKey => seq!['c', 'v'],
        KnownType::ContractStoreValue => seq!['c', 't'],
        KnownType::Transaction => seq!['t', 'x'],
        KnownType::TxHash => seq!['t', 'h'],
        KnownType::OraclePubkey => seq!['o', 'k'],
        KnownType::OracleQuery => seq!['o', 'v'],
        KnownType::OracleQueryId => seq!['o', 'q'],
        KnownType::OracleResponse => seq!['o', 'r'],
        KnownType::AccountPubkey => seq!['a', 'k'],
        KnownType::Signature => seq!['s', 'g'],
        KnownType::Name => seq!['c', 'm'],
        KnownType::Commitment => seq!['p', 'p'],
        KnownType::PeerPubkey => seq!['n', 'm'],
        KnownType::State => seq!['s', 't'],
        KnownType::Poi => seq!['p', 'i'],
        KnownType::StateTrees => seq!['s', 's'],
        KnownType::CallStateTree => seq!['c', 's'],
        KnownType::Bytearray => seq!['b', 'a'],
    }
}

/// The type that a prefix announces, if any.
pub open spec fn type_of_prefix(prefix: Seq<char>) -> Option<KnownType> {
    if prefix.len() != 2 {
        None
    } else {
        type_of_letters(prefix[0], prefix[1])
    }
}

/// The type that two letters announce, if any.
pub open spec fn type_of_letters(a: char, b: char) -> Option<KnownType> {
    if a == 'k' && b == 'h' {
        Some(KnownType::KeyBlockHash)
    } else if a == 'm' && b == 'h' {
        Some(KnownType::MicroBlockHash)
    } else if a == 'b' && b == 'f' {
        Some(KnownType::BlockPofHash)
    } else if a == 'b' && b == 'x' {
        Some(KnownType::BlockTxHash)
    } else if a == 'b' && b == 's' {
        Some(KnownType::BlockStateHash)
    } else if a == 'c' && b == 'h' {
        Some(KnownType::Channel)
    } else if a == 'c' && b == 'b' {
        Some(KnownType::ContractBytearray)
    } else if a == 'c' && b == 'k' {
        Some(KnownType::ContractPubkey)
    } else if a == 'c' && b == 'v' {
        Some(KnownType::ContractStoreKey)
    } else if a == 'c' && b == 't' {
        Some(KnownType::ContractStoreValue)
    } else if a == 't' && b == 'x' {
        Some(KnownType::Transaction)
    } else if a == 't' && b == 'h' {
        Some(KnownType::TxHash)
    } else if a == 'o' && b == 'k' {
        Some(KnownType::OraclePubkey)
    } else if a == 'o' && b == 'v' {
        Some(KnownType::OracleQuery)
    } else if a == 'o' && b == 'q' {
        Some(KnownType::OracleQueryId)
    } else if a == 'o' && b == 'r' {
        Some(KnownType::OracleResponse)
    } else if a == 'a' && b == 'k' {
        Some(KnownType::AccountPubkey)
    } else if a == 's' && b == 'g' {
        Some(KnownType::Signature)
    } else if a == 'c' && b == 'm' {
        Some(KnownType::Name)
    } else if a == 'p' && b == 'p' {
        Some(KnownType::Commitment)
    } else if a == 'n' && b == 'm' {
        Some(KnownType::PeerPubkey)
    } else if a == 's' && b == 't' {
        Some(KnownType::State)
    } else if a == 'p' && b == 'i' {
        Some(KnownType::Poi)
    } else if a == 's' && b == 's' {
        Some(KnownType::StateTrees)
    } else if a == 'c' && b == 's' {
        Some(KnownType::CallStateTree)
    } else if a == 'b' && b == 'a' {
        Some(KnownType::Bytearray)
    } else {
        None
    }
}

/// How the payload of a type is written.
pub open spec fn encoding_of(t: KnownType) -> Encoding {
    match t {
        KnownType::KeyBlockHash => Encoding::Base58,
        KnownType::MicroBlockHash => Encoding::Base58,
        KnownType::BlockPofHash => Encoding::Base58,
        KnownType::BlockTxHash => Encoding::Base58,
        KnownType::BlockStateHash => Encoding::Base58,
        KnownType::Channel => Encoding::Base58,
        KnownType::ContractBytearray => Encoding::Base58,
        KnownType::ContractPubkey => Encoding::Base64,
        KnownType::ContractStoreKey => Encoding::Base64,
        KnownType::ContractStoreValue => Encoding::Base64,
        KnownType::Transaction => Encoding::Base64,
        KnownType::TxHash => Encoding::Base58,
        KnownType::OraclePubkey => Encoding::Base58,
        KnownType::OracleQuery => Encoding::Base64,
        KnownType::OracleQueryId => Encoding::Base58,
        KnownType::OracleResponse => Encoding::Base64,
        KnownType::AccountPubkey => Encoding::Base58,
        KnownType::Signature => Encoding::Base58,
        KnownType::Name => Encoding::Base58,
        KnownType::Commitment => Encoding::Base58,
        KnownType::PeerPubkey => Encoding::Base58,
        KnownType::State => Encoding::Base64,
        KnownType::Poi => Encoding::Base64,
        KnownType::StateTrees => Encoding::Base64,
        KnownType::CallStateTree => Encoding::Base64,
        KnownType::Bytearray => Encoding::Base64,
    }
}

/// The id tag that goes with a type, for the six types of ids.
pub open spec fn id_tag_of(t: KnownType) -> Option<Tag> {
    match t {
        KnownType::AccountPubkey => Some(Tag::Account),
        KnownType::Channel => Some(Tag::Channel),
        KnownType::Commitment => Some(Tag::Commitment),
        KnownType::ContractPubkey => Some(Tag::Contract),
        KnownType::Name => Some(Tag::Name),
        KnownType::OraclePubkey => Some(Tag::Oracle),
        _ => None,
    }
}

/// The type that goes with an id tag.
pub open spec fn type_of_id_tag(tag: Tag) -> KnownType {
    match tag {
        Tag::Account => KnownType::AccountPubkey,
        Tag::Channel => KnownType::Channel,
        Tag::Commitment => KnownType::Commitment,
        Tag::Contract => KnownType::ContractPubkey,
        Tag::Name => KnownType::Name,
        Tag::Oracle => KnownType::OraclePubkey,
    }
}

/// Every type is found again by its prefix.
pub proof fn lemma_prefix_round_trip(t: KnownType)
    ensures
        type_of_prefix(prefix_of(t)) == Some(t),
{
}

/// Every id tag is found again by its type.
pub proof fn lemma_id_tag_round_trip(tag: Tag)
    ensures
        id_tag_of(type_of_id_tag(tag)) == Some(tag),
{
}

impl KnownType {
    /// Payload size for a given type. Returns `None` if the size is not
    /// fixed.
    pub fn byte_size(self) -> (out: Option<usize>)
        ensures
            out == size_of_type(self),
    {
        match self {
            KnownType::KeyBlockHash => Some(32),
            KnownType::MicroBlockHash => Some(32),
            KnownType::BlockPofHash => Some(32),
            KnownType::BlockTxHash => Some(32),
            KnownType::BlockStateHash => Some(32),
            KnownType::Channel => Some(32),
            KnownType::ContractBytearray => None,
            KnownType::ContractPubkey => Some(32),
            KnownType::ContractStoreKey => None,
            KnownType::ContractStoreValue => None,
            KnownType::Transaction => None,
            KnownType::TxHash => Some(32),
            KnownType::OraclePubkey => Some(32),
            KnownType::OracleQuery => None,
            KnownType::OracleQueryId => Some(32),
            KnownType::OracleResponse => None,
            KnownType::AccountPubkey => Some(32),
            KnownType::Signature => Some(64),
            KnownType::Name => None,
            KnownType::Commitment => Some(32),
            KnownType::PeerPubkey => Some(32),
            KnownType::State => Some(32),
            KnownType::Poi => None,
            KnownType::StateTrees => None,
            KnownType::CallStateTree => None,
            KnownType::Bytearray => None,
        }
    }

    /// Validates payload size. Returns `true` when the size for the type
    /// matches or the type does not constrain the size.
    pub fn check_size(self, s: usize) -> (out: bool)
        ensures
            out == (size_of_type(self) matches Some(n) ==> n == s),
    {
        match self.byte_size() {
            Some(n) => n == s,
            None => true,
        }
    }

    /// Returns a prefix describing the type. This prefix is prepended to the
    /// encoded payload and separated with a single '_' character.
    pub fn prefix(self) -> (out: String)
        ensures
            out@ == prefix_of(self),
    {
        let s: &str = match self {
            KnownType::KeyBlockHash => "kh",
            KnownType::MicroBlockHash => "mh",
            KnownType::BlockPofHash => "bf",
            KnownType::BlockTxHash => "bx",
            KnownType::BlockStateHash => "bs",
            KnownType::Channel => "ch",
            KnownType::ContractBytearray => "cb",
            KnownType::ContractPubkey => "ck",
            KnownType::ContractStoreKey => "cv",
            KnownType::ContractStoreValue => "ct",
            KnownType::Transaction => "tx",
            KnownType::TxHash => "th",
            KnownType::OraclePubkey => "ok",
            KnownType::OracleQuery => "ov",
            KnownType::OracleQueryId => "oq",
            KnownType::OracleResponse => "or",
            KnownType::AccountPubkey => "ak",
            KnownType::Signature => "sg",
            KnownType::Name => "cm",
            KnownType::Commitment => "pp",
            KnownType::PeerPubkey => "nm",
            KnownType::State => "st",
            KnownType::Poi => "pi",
            KnownType::StateTrees => "ss",
            KnownType::CallStateTree => "cs",
            KnownType::Bytearray => "ba",
        };
        proof {
            reveal_strlit("kh");
            reveal_strlit("mh");
            reveal_strlit("bf");
            reveal_strlit("bx");
            reveal_strlit("bs");
            reveal_strlit("ch");
            reveal_strlit("cb");
            reveal_strlit("ck");
            reveal_strlit("cv");
            reveal_strlit("ct");
            reveal_strlit("tx");
            reveal_strlit("th");
            reveal_strlit("ok");
            reveal_strlit("ov");
            reveal_strlit("oq");
            reveal_strlit("or");
            reveal_strlit("ak");
            reveal_strlit("sg");
            reveal_strlit("cm");
            reveal_strlit("pp");
            reveal_strlit("nm");
            reveal_strlit("st");
            reveal_strlit("pi");
            reveal_strlit("ss");
            reveal_strlit("cs");
            reveal_strlit("ba");
            assert(s@ =~= prefix_of(self));
        }
        s.to_owned()
    }

    /// Parses the type from a prefix.
    pub fn from_prefix(prefix: &str) -> (out: Option<KnownType>)
        ensures
            out == type_of_prefix(prefix@),
    {
        if prefix.unicode_len() != 2 {
            return None;
        }
        let a: char = prefix.get_char(0);
        let b: char = prefix.get_char(1);
        if a == 'k' && b == 'h' {
            Some(KnownType::KeyBlockHash)
        } else if a == 'm' && b == 'h' {
            Some(KnownType::MicroBlockHash)
        } else if a == 'b' && b == 'f' {
            Some(KnownType::BlockPofHash)
        } else if a == 'b' && b == 'x' {
            Some(KnownType::BlockTxHash)
        } else if a == 'b' && b == 's' {
            Some(KnownType::BlockStateHash)
        } else if a == 'c' && b == 'h' {
            Some(KnownType::Channel)
        } else if a == 'c' && b == 'b' {
            Some(KnownType::ContractBytearray)
        } else if a == 'c' && b == 'k' {
            Some(KnownType::ContractPubkey)
        } else if a == 'c' && b == 'v' {
            Some(KnownType::ContractStoreKey)
        } else if a == 'c' && b == 't' {
            Some(KnownType::ContractStoreValue)
        } else if a == 't' && b == 'x' {
            Some(KnownType::Transaction)
        } else if a == 't' && b == 'h' {
            Some(KnownType::TxHash)
        } else if a == 'o' && b == 'k' {
            Some(KnownType::OraclePubkey)
        } else if a == 'o' && b == 'v' {
            Some(KnownType::OracleQuery)
        } else if a == 'o' && b == 'q' {
            Some(KnownType::OracleQueryId)
        } else if a == 'o' && b == 'r' {
            Some(KnownType::OracleResponse)
        } else if a == 'a' && b == 'k' {
            Some(KnownType::AccountPubkey)
        } else if a == 's' && b == 'g' {
            Some(KnownType::Signature)
        } else if a == 'c' && b == 'm' {
            Some(KnownType::Name)
        } else if a == 'p' && b == 'p' {
            Some(KnownType::Commitment)
        } else if a == 'n' && b == 'm' {
            Some(KnownType::PeerPubkey)
        } else if a == 's' && b == 't' {
            Some(KnownType::State)
        } else if a == 'p' && b == 'i' {
            Some(KnownType::Poi)
        } else if a == 's' && b == 's' {
            Some(KnownType::StateTrees)
        } else if a == 'c' && b == 's' {
            Some(KnownType::CallStateTree)
        } else if a == 'b' && b == 'a' {
            Some(KnownType::Bytearray)
        } else {
            None
        }
    }

    /// The id tag that goes with the type, for the six types of ids.
    pub fn to_id_tag(self) -> (out: Option<Tag>)
        ensures
            out == id_tag_of(self),
    {
        match self {
            KnownType::AccountPubkey => Some(Tag::Account),
            KnownType::Channel => Some(Tag::Channel),
            KnownType::Commitment => Some(Tag::Commitment),
            KnownType::ContractPubkey => Some(Tag::Contract),
            KnownType::Name => Some(Tag::Name),
            KnownType::OraclePubkey => Some(Tag::Oracle),
            _ => None,
        }
    }

    /// The type that goes with an id tag.
    pub fn from_id_tag(tag: Tag) -> (out: KnownType)
        ensures
            out == type_of_id_tag(tag),
    {
        match tag {
            Tag::Account => KnownType::AccountPubkey,
            Tag::Channel => KnownType::Channel,
            Tag::Commitment => KnownType::Commitment,
            Tag::Contract => KnownType::ContractPubkey,
            Tag::Name => KnownType::Name,
            Tag::Oracle => KnownType::OraclePubkey,
        }
    }

    /// Describes how payload is encoded.
    pub fn encoding(self) -> (out: Encoding)
        ensures
            out == encoding_of(self),
    {
        match self {
            KnownType::KeyBlockHash => Encoding::Base58,
            KnownType::MicroBlockHash => Encoding::Base58,
            KnownType::BlockPofHash => Encoding::Base58,
            KnownType::BlockTxHash => Encoding::Base58,
            KnownType::BlockStateHash => Encoding::Base58,
            KnownType::Channel => Encoding::Base58,
            KnownType::ContractBytearray => Encoding::Base58,
            KnownType::ContractPubkey => Encoding::Base64,
            KnownType::ContractStoreKey => Encoding::Base64,
            KnownType::ContractStoreValue => Encoding::Base64,
            KnownType::Transaction => Encoding::Base64,
            KnownType::TxHash => Encoding::Base58,
            KnownType::OraclePubkey => Encoding::Base58,
            KnownType::OracleQuery => Encoding::Base64,
            KnownType::OracleQueryId => Encoding::Base58,
            KnownType::OracleResponse => Encoding::Base64,
            KnownType::AccountPubkey => Encoding::Base58,
            KnownType::Signature => Encoding::Base58,
            KnownType::Name => Encoding::Base58,
            KnownType::Commitment => Encoding::Base58,
            KnownType::PeerPubkey => Encoding::Base58,
            KnownType::State => Encoding::Base64,
            KnownType::Poi => Encoding::Base64,
            KnownType::StateTrees => Encoding::Base64,
            KnownType::CallStateTree => Encoding::Base64,
            KnownType::Bytearray => Encoding::Base64,
        }
    }
}

/// What decoding base58 can fail with.
#[verifier::external_type_specification]
#[verifier::external_body]
pub struct ExBase58Error(bs58::decode::Error);

/// What decoding base64 can fail with.
#[verifier::external_type_specification]
#[verifier::external_body]
pub struct ExBase64Error(base64::DecodeError);

/// The base58 text of `data` in the Bitcoin alphabet.
pub uninterp spec fn base58_text(data: Seq<u8>) -> Seq<char>;

/// The bytes that a base58 text in the Bitcoin alphabet stands for, if it is
/// one.
pub uninterp spec fn base58_bytes(text: Seq<char>) -> Option<Seq<u8>>;

/// The base64 text of `data` in the standard alphabet, with padding.
pub uninterp spec fn base64_text(data: Seq<u8>) -> Seq<char>;

/// The bytes that a base64 text in the standard alphabet stands for, if it
/// is one.
pub uninterp spec fn base64_bytes(text: Seq<char>) -> Option<Seq<u8>>;

/// The SHA-256 digest of `data` as 64 hexadecimal digits in ASCII.
pub uninterp spec fn sha256_hex(data: Seq<u8>) -> Seq<u8>;

/// Writes `data` in base58.
///
/// Calls `bs58::encode(..).into_string()`. Trusted: the result is the text
/// named `base58_text`, a function of the data alone.
#[verifier::external_body]
pub(crate) fn base58_encode(data: &[u8]) -> (out: String)
    requires
        data@.len() <= isize::MAX,
    ensures
        out@ == base58_text(data@),
{
    bs58::encode(data).into_string()
}

/// Reads base58.
///
/// Calls `bs58::decode(..).into_vec()`. Trusted: whether the text is
/// accepted, and the bytes it gives, are what `base58_bytes` names, a
/// function of the text alone.
#[verifier::external_body]
pub(crate) fn base58_decode(text: &str) -> (out: Result<Vec<u8>, bs58::decode::Error>)
    ensures
        match base58_bytes(text@) {
            Some(bytes) => out matches Ok(v) && v@ == bytes,
            None => out is Err,
        },
{
    bs58::decode(text).into_vec()
}

/// Writes `data` in base64.
///
/// Calls `Engine::encode` of the `base64` crate on its `STANDARD` engine,
/// which panics when the length of the text would not fit the machine.
/// Trusted: the result is the text named `base64_text`, a function of the
/// data alone.
#[verifier::external_body]
pub(crate) fn base64_encode(data: &[u8]) -> (out: String)
    requires
        data@.len() <= isize::MAX,
    ensures
        out@ == base64_text(data@),
{
    base64::engine::general_purpose::STANDARD.encode(data)
}

/// Reads base64.
///
/// Calls `Engine::decode` of the `base64` crate on its `STANDARD` engine.
/// Trusted: whether the text is accepted, and the bytes it gives, are what
/// `base64_bytes` names, a function of the text alone.
#[verifier::external_body]
pub(crate) fn base64_decode(text: &str) -> (out: Result<Vec<u8>, base64::DecodeError>)
    ensures
        match base64_bytes(text@) {
            Some(bytes) => out matches Ok(v) && v@ == bytes,
            None => out is Err,
        },
{
    base64::engine::general_purpose::STANDARD.decode(text)
}

/// Hashes `data` with SHA-256 and gives the digest in hexadecimal.
///
/// Calls `sha256::digest`, which returns the digest as a string of
/// lower-case hexadecimal digits. Trusted: the bytes of that string are what
/// `sha256_hex` names, a function of the data alone, and there are 64 of
/// them.
#[verifier::external_body]
pub(crate) fn sha256_digest(data: &[u8]) -> (out: Vec<u8>)
    ensures
        out@ == sha256_hex(data@),
        out@.len() == 64,
{
    sha256::digest(data).into_bytes()
}

/// Splits a text at its first underscore.
///
/// Calls `str::split_once` with the delimiter `'_'`. Trusted: the result is
/// what stands before the first underscore and what stands behind it, or
/// `None` when there is no underscore.
#[verifier::external_body]
pub(crate) fn split_at_underscore(text: &str) -> (out: Option<(&str, &str)>)
    ensures
        match out {
            Some((before, after)) => first_underscore(text@) < text@.len() && before@
                == text@.subrange(0, first_underscore(text@)) && after@ == text@.skip(
                first_underscore(text@) + 1,
            ),
            None => first_underscore(text@) == text@.len(),
        },
{
    text.split_once('_')
}

/// The index of the first underscore of a text, or the length of the text
/// if it has none.
pub open spec fn first_underscore(text: Seq<char>) -> int
    decreases text.len(),
{
    if text.len() == 0 {
        0
    } else if text[0] == '_' {
        0
    } else {
        1 + first_underscore(text.drop_first())
    }
}

/// The first underscore lies within the text or at its end.
pub proof fn lemma_first_underscore(text: Seq<char>)
    ensures
        0 <= first_underscore(text) <= text.len(),
    decreases text.len(),
{
    if text.len() > 0 && text[0] != '_' {
        lemma_first_underscore(text.drop_first());
    }
}

/// The value of a hexadecimal digit in ASCII; any other byte counts as zero.
pub open spec fn hex_value(c: u8) -> int {
    if 48 <= c <= 57 {
        c - 48
    } else if 97 <= c <= 102 {
        c - 87
    } else if 65 <= c <= 70 {
        c - 55
    } else {
        0
    }
}

/// The bytes that pairs of hexadecimal digits stand for.
pub open spec fn hex_bytes(hex: Seq<u8>) -> Seq<u8> {
    Seq::new(
        (hex.len() / 2) as nat,
        |i: int| (16 * hex_value(hex[2 * i]) + hex_value(hex[2 * i + 1])) as u8,
    )
}

/// The SHA-256 digest of `data`: 32 bytes.
pub open spec fn sha256(data: Seq<u8>) -> Seq<u8> {
    hex_bytes(sha256_hex(data))
}

/// The check of a payload: the first four bytes of SHA-256 applied twice.
pub open spec fn check_of(payload: Seq<u8>) -> Seq<u8> {
    sha256(sha256(payload)).subrange(0, 4)
}

/// The text of `data` in an encoding.
pub open spec fn text_of(encoding: Encoding, data: Seq<u8>) -> Seq<char> {
    match encoding {
        Encoding::Base58 => base58_text(data),
        Encoding::Base64 => base64_text(data),
    }
}

/// The bytes that a text stands for in an encoding, if it is valid.
pub open spec fn bytes_of(encoding: Encoding, text: Seq<char>) -> Option<Seq<u8>> {
    match encoding {
        Encoding::Base58 => base58_bytes(text),
        Encoding::Base64 => base64_bytes(text),
    }
}

/// The API string of a payload of type `t`: the prefix of the type, an
/// underscore, and the payload followed by its check, in the encoding of the
/// type.
pub open spec fn api_text(t: KnownType, payload: Seq<u8>) -> Seq<char> {
    prefix_of(t) + seq!['_'] + text_of(encoding_of(t), payload + check_of(payload))
}

/// What taking a decoded body apart gives: the payload without the four
/// bytes of its check, if the check is there and right.
pub open spec fn parse_body(body: Seq<u8>) -> Result<Seq<u8>, DecodingErr> {
    if body.len() < 4 {
        Err(DecodingErr::InvalidCheck)
    } else {
        let payload = body.subrange(0, body.len() - 4);
        if body.skip(body.len() - 4) != check_of(payload) {
            Err(DecodingErr::InvalidCheck)
        } else {
            Ok(payload)
        }
    }
}

/// What decoding a text as the checked payload of a type gives: the text
/// must be valid in the encoding of the type, and what it stands for is
/// taken apart by `parse_body`.
pub open spec fn parse_checked(t: KnownType, text: Seq<char>) -> Result<Seq<u8>, DecodingErr> {
    match bytes_of(encoding_of(t), text) {
        None => Err(DecodingErr::InvalidEncoding),
        Some(body) => parse_body(body),
    }
}

/// What decoding an API string gives: the type and the payload, or the
/// error. A text without an underscore misses its prefix; what stands
/// before the first underscore must be the prefix of a type; what stands
/// behind it must be the checked payload of that type, and have the size
/// that the type calls for.
pub open spec fn parse_api(text: Seq<char>) -> Result<(KnownType, Seq<u8>), DecodingErr> {
    let at = first_underscore(text);
    if at >= text.len() {
        Err(DecodingErr::MissingPrefix)
    } else {
        match type_of_prefix(text.subrange(0, at)) {
            None => Err(DecodingErr::InvalidPrefix),
            Some(t) => match parse_checked(t, text.skip(at + 1)) {
                Err(e) => Err(e),
                Ok(payload) => if size_of_type(t) matches Some(n) && n != payload.len() {
                    Err(DecodingErr::IncorrectSize)
                } else {
                    Ok((t, payload))
                },
            },
        }
    }
}

/// What decoding an API string as an id gives: the tag and the payload of
/// 32 bytes, or the error. The string must decode; its payload must have 32
/// bytes, else the encoding is invalid; its type must be among the allowed
/// ones and be the type of an id, else the prefix is invalid.
pub open spec fn parse_api_id(allowed: Seq<KnownType>, text: Seq<char>) -> Result<
    (Tag, Seq<u8>),
    DecodingErr,
> {
    match parse_api(text) {
        Err(e) => Err(e),
        Ok((t, payload)) => if payload.len() != 32 {
            Err(DecodingErr::InvalidEncoding)
        } else if !allowed.contains(t) {
            Err(DecodingErr::InvalidPrefix)
        } else {
            match id_tag_of(t) {
                None => Err(DecodingErr::InvalidPrefix),
                Some(tag) => Ok((tag, payload)),
            }
        },
    }
}

/// The value of a hexadecimal digit.
fn hex_digit(c: u8) -> (out: u8)
    ensures
        out == hex_value(c),
        out < 16,
{
    if 48 <= c && c <= 57 {
        c - 48
    } else if 97 <= c && c <= 102 {
        c - 87
    } else if 65 <= c && c <= 70 {
        c - 55
    } else {
        0
    }
}

/// The bytes that a text of hexadecimal digits stands for.
pub fn unhex(hex: &Vec<u8>) -> (out: Vec<u8>)
    ensures
        out@ == hex_bytes(hex@),
{
    let mut out: Vec<u8> = Vec::new();
    let mut i: usize = 0;
    let len: usize = hex.len();
    let n: usize = len / 2;
    while i < n
        invariant
            i <= n,
            len == hex@.len(),
            n == len / 2,
            out@.len() == i,
            forall|j: int| 0 <= j < i ==> out@[j] == hex_bytes(hex@)[j],
        decreases n - i,
    {
        let high: u8 = hex_digit(hex[2 * i]);
        let low: u8 = hex_digit(hex[2 * i + 1]);
        out.push(16 * high + low);
        i += 1;
    }
    assert(out@ =~= hex_bytes(hex@));
    out
}

/// Whether `wanted` is among `types`.
fn contains_type(types: &[KnownType], wanted: KnownType) -> (out: bool)
    ensures
        out == types@.contains(wanted),
{
    let mut i: usize = 0;
    while i < types.len()
        invariant
            i <= types.len(),
            forall|j: int| 0 <= j < i ==> types@[j] != wanted,
        decreases types.len() - i,
    {
        if types[i] == wanted {
            return true;
        }
        i += 1;
    }
    false
}

impl Encoding {
    /// The check of `data`: the first four bytes of SHA-256 applied twice.
    pub fn make_check(self, data: &[u8]) -> (out: Vec<u8>)
        ensures
            out@ == check_of(data@),
            out@.len() == 4,
    {
        let once = unhex(&sha256_digest(data));
        let twice = unhex(&sha256_digest(once.as_slice()));
        crate::hash::digest_prefix(&twice)
    }

    /// `data` followed by its check.
    pub fn add_check(self, data: &[u8]) -> (out: Vec<u8>)
        ensures
            out@ == data@ + check_of(data@),
            out@.len() == data@.len() + 4,
    {
        let mut out = vstd::slice::slice_to_vec(data);
        let mut check = self.make_check(data);
        out.append(&mut check);
        out
    }

    /// The text of `data` in this encoding.
    pub fn encode(self, data: &[u8]) -> (out: String)
        requires
            data@.len() <= isize::MAX,
        ensures
            out@ == text_of(self, data@),
    {
        match self {
            Encoding::Base58 => base58_encode(data),
            Encoding::Base64 => base64_encode(data),
        }
    }

    /// The text of `data` and its check in this encoding.
    pub fn encode_with_check(self, data: &[u8]) -> (out: String)
        requires
            data@.len() + 4 <= isize::MAX,
        ensures
            out@ == text_of(self, data@ + check_of(data@)),
    {
        let data_c = self.add_check(data);
        self.encode(data_c.as_slice())
    }

    /// The bytes that `data` stands for in this encoding, if it is valid.
    pub fn decode(self, data: &str) -> (out: Option<Vec<u8>>)
        ensures
            match bytes_of(self, data@) {
                Some(bytes) => out matches Some(v) && v@ == bytes,
                None => out is None,
            },
    {
        match self {
            Encoding::Base58 => match base58_decode(data) {
                Ok(bytes) => Some(bytes),
                Err(_) => None,
            },
            Encoding::Base64 => match base64_decode(data) {
                Ok(bytes) => Some(bytes),
                Err(_) => None,
            },
        }
    }
}

/// Encodes raw data accordingly to the type. Includes a checksum.
pub fn encode_data(t: KnownType, payload: &[u8]) -> (out: String)
    requires
        payload@.len() + 4 <= isize::MAX,
    ensures
        out@ == api_text(t, payload@),
{
    let mut out = t.prefix();
    let enc = t.encoding().encode_with_check(payload);
    proof {
        reveal_strlit("_");
        assert("_"@ =~= seq!['_']);
    }
    out.append("_");
    out.append(enc.as_str());
    out
}

/// Encodes an id. Includes a checksum.
pub fn encode_id(id: &Id) -> (out: String)
    ensures
        out@ == api_text(type_of_id_tag(id.tag), id.val.bytes@),
{
    encode_data(KnownType::from_id_tag(id.tag), id.val.bytes.as_slice())
}

/// Splits an API string into its prefix and what stands behind the first
/// underscore. The prefix must have two letters.
pub fn split_prefix(data: &str) -> (out: Result<(String, String), DecodingErr>)
    ensures
        match out {
            Ok((prefix, payload)) => {
                let at = first_underscore(data@);
                at == 2 && at < data@.len() && prefix@ == data@.subrange(0, 2) && payload@
                    == data@.skip(3)
            },
            Err(e) => if first_underscore(data@) >= data@.len() {
                e == DecodingErr::MissingPrefix
            } else {
                e == DecodingErr::InvalidPrefix && first_underscore(data@) != 2
            },
        },
{
    match split_at_underscore(data) {
        None => Err(DecodingErr::MissingPrefix),
        Some((prefix, payload)) => {
            assert(prefix@.len() == first_underscore(data@)) by {
                lemma_first_underscore(data@);
            }
            if prefix.unicode_len() != 2 {
                Err(DecodingErr::InvalidPrefix)
            } else {
                Ok((prefix.to_owned(), payload.to_owned()))
            }
        },
    }
}

/// Takes a decoded body apart: checks and removes the check.
pub fn open_body(body: Vec<u8>) -> (out: Result<Vec<u8>, DecodingErr>)
    ensures
        match parse_body(body@) {
            Ok(payload) => out matches Ok(v) && v@ == payload,
            Err(e) => out == Err::<Vec<u8>, DecodingErr>(e),
        },
{
    if body.len() < 4 {
        return Err(DecodingErr::InvalidCheck);
    }
    let body_size: usize = body.len() - 4;
    let payload = vstd::slice::slice_to_vec(
        vstd::slice::slice_subrange(body.as_slice(), 0, body_size),
    );
    let check = Encoding::Base58.make_check(payload.as_slice());
    let ghost given = body@.skip(body_size as int);
    let mut i: usize = 0;
    let len: usize = body.len();
    while i < 4
        invariant
            i <= 4,
            len == body@.len(),
            len == body_size + 4,
            payload@ == body@.subrange(0, body_size as int),
            check@ == check_of(payload@),
            check@.len() == 4,
            given == body@.skip(body_size as int),
            forall|j: int| 0 <= j < i ==> given[j] == check@[j],
        decreases 4 - i,
    {
        if body[body_size + i] != check[i] {
            assert(given[i as int] != check@[i as int]);
            return Err(DecodingErr::InvalidCheck);
        }
        i += 1;
    }
    assert(given =~= check@);
    Ok(payload)
}

/// Decodes a text as the checked payload of a type: reads the text in the
/// encoding of the type, and checks and removes the check.
pub fn decode_check(tp: KnownType, data: &str) -> (out: Result<Vec<u8>, DecodingErr>)
    ensures
        match parse_checked(tp, data@) {
            Ok(payload) => out matches Ok(v) && v@ == payload,
            Err(e) => out == Err::<Vec<u8>, DecodingErr>(e),
        },
{
    match tp.encoding().decode(data) {
        None => Err(DecodingErr::InvalidEncoding),
        Some(body) => open_body(body),
    }
}

/// Decodes raw data according to the prefixed type.
pub fn decode(data: &str) -> (out: Result<(KnownType, Vec<u8>), DecodingErr>)
    ensures
        match parse_api(data@) {
            Ok((t, payload)) => out matches Ok((tp, v)) && tp == t && v@ == payload,
            Err(e) => out == Err::<(KnownType, Vec<u8>), DecodingErr>(e),
        },
{
    let (prefix, payload) = match split_at_underscore(data) {
        None => {
            return Err(DecodingErr::MissingPrefix);
        },
        Some(parts) => parts,
    };
    let tp = match KnownType::from_prefix(prefix) {
        None => {
            return Err(DecodingErr::InvalidPrefix);
        },
        Some(tp) => tp,
    };
    let decoded = match decode_check(tp, payload) {
        Err(e) => {
            return Err(e);
        },
        Ok(decoded) => decoded,
    };
    if !tp.check_size(decoded.len()) {
        return Err(DecodingErr::IncorrectSize);
    }
    Ok((tp, decoded))
}

/// Decodes data as an id.
pub fn decode_id(allowed_types: &[KnownType], data: &str) -> (out: Result<Id, DecodingErr>)
    ensures
        crate::id::id_matches(parse_api_id(allowed_types@, data@), out),
{
    let (tp, decoded) = match decode(data) {
        Err(e) => {
            return Err(e);
        },
        Ok(pair) => pair,
    };
    if decoded.len() != 32 {
        return Err(DecodingErr::InvalidEncoding);
    }
    let val = payload_of(decoded.as_slice(), 0);
    assert(decoded@.subrange(0, 32) =~= decoded@);
    if !contains_type(allowed_types, tp) {
        return Err(DecodingErr::InvalidPrefix);
    }
    match tp.to_id_tag() {
        None => Err(DecodingErr::InvalidPrefix),
        Some(tag) => Ok(Id { tag, val: EncodedId { bytes: val } }),
    }
}

/// Decodes a block hash. Requires an adequate prefix.
pub fn decode_blockhash(data: &str) -> (out: Result<Vec<u8>, DecodingErr>)
    ensures
        match parse_api(data@) {
            Ok((t, payload)) => if t == KnownType::KeyBlockHash || t
                == KnownType::MicroBlockHash {
                out matches Ok(v) && v@ == payload
            } else {
                out == Err::<Vec<u8>, DecodingErr>(DecodingErr::InvalidPrefix)
            },
            Err(e) => out == Err::<Vec<u8>, DecodingErr>(e),
        },
{
    match decode(data) {
        Err(e) => Err(e),
        Ok((tp, decoded)) => match tp {
            KnownType::KeyBlockHash => Ok(decoded),
            KnownType::MicroBlockHash => Ok(decoded),
            _ => Err(DecodingErr::InvalidPrefix),
        },
    }
}

} // verus!
