//! The container of FATE contract code: an RLP list of seven fields.

use crate::bytes::be_bytes;
use crate::error::DecodingErr;
use crate::hash::{blake2b, blake2b_256};
use crate::rlp::{copy_bytes, trees_of, FromRlpItem, RlpItem, RlpTree, ToRlpItem};
use vstd::prelude::*;

verus! {

/// Identifier tag of serialized contract code
pub const CODE_TAG: u8 = 70;

/// Contract format version.
pub const VSN: u8 = 3;

/// A function signature as contracts of the earlier virtual machine carried
/// it.
#[derive(Debug, PartialEq, Eq)]
pub struct TypeInfo {
    pub type_hash: Vec<u8>,
    pub name: Vec<u8>,
    pub payable: bool,
    pub arg_type: Vec<u8>,
    pub out_type: Vec<u8>,
}

/// FATE contract code with metadata
#[derive(Debug, PartialEq, Eq)]
pub struct Code {
    /// Byte code of the contract.
    pub byte_code: Vec<u8>,
    /// Whether the contract can receive tokens through a `spend` transaction.
    pub payable: bool,
    /// Hash of the source code in the smart contract language. The protocol
    /// does not verify it.
    pub source_hash: Vec<u8>,
    /// Version of the compiler of the smart contract language. The protocol
    /// does not verify it.
    pub compiler_version: Vec<u8>,
    /// Residue of the earlier virtual machine; FATE contracts keep it empty.
    pub type_info: Vec<TypeInfo>,
}

/// The mathematical value of a type-info entry.
pub ghost struct TypeInfoRecord {
    pub type_hash: Seq<u8>,
    pub name: Seq<u8>,
    pub payable: bool,
    pub arg_type: Seq<u8>,
    pub out_type: Seq<u8>,
}

/// The mathematical value of a contract-code record.
pub ghost struct CodeRecord {
    pub byte_code: Seq<u8>,
    pub payable: bool,
    pub source_hash: Seq<u8>,
    pub compiler_version: Seq<u8>,
    pub type_info: Seq<TypeInfoRecord>,
}

impl View for TypeInfo {
    type V = TypeInfoRecord;

    open spec fn view(&self) -> TypeInfoRecord {
        TypeInfoRecord {
            type_hash: self.type_hash@,
            name: self.name@,
            payable: self.payable,
            arg_type: self.arg_type@,
            out_type: self.out_type@,
        }
    }
}

/// The records of a sequence of type-info entries, in order.
pub open spec fn records_of(infos: Seq<TypeInfo>) -> Seq<TypeInfoRecord> {
    Seq::new(infos.len(), |i: int| infos[i]@)
}

impl View for Code {
    type V = CodeRecord;

    open spec fn view(&self) -> CodeRecord {
        CodeRecord {
            byte_code: self.byte_code@,
            payable: self.payable,
            source_hash: self.source_hash@,
            compiler_version: self.compiler_version@,
            type_info: records_of(self.type_info@),
        }
    }
}

/// A boolean as an RLP tree: the one byte 1 or 0.
pub open spec fn bool_tree(b: bool) -> RlpTree {
    RlpTree::Bytes(seq![if b {
        1u8
    } else {
        0u8
    }])
}

/// A type-info entry as an RLP tree: the list of its five fields.
pub open spec fn type_info_tree(r: TypeInfoRecord) -> RlpTree {
    RlpTree::List(
        seq![
            RlpTree::Bytes(r.type_hash),
            RlpTree::Bytes(r.name),
            bool_tree(r.payable),
            RlpTree::Bytes(r.arg_type),
            RlpTree::Bytes(r.out_type),
        ],
    )
}

/// Type-info entries as RLP trees, in order.
pub open spec fn type_info_trees(rs: Seq<TypeInfoRecord>) -> Seq<RlpTree> {
    Seq::new(rs.len(), |i: int| type_info_tree(rs[i]))
}

/// A contract-code record as an RLP tree: the list of the tag 70, the
/// version 3, the source hash, the type info, the byte code, the compiler
/// version and the payable flag.
pub open spec fn code_tree(r: CodeRecord) -> RlpTree {
    RlpTree::List(
        seq![
            RlpTree::Bytes(be_bytes(CODE_TAG as nat)),
            RlpTree::Bytes(be_bytes(VSN as nat)),
            RlpTree::Bytes(r.source_hash),
            RlpTree::List(type_info_trees(r.type_info)),
            RlpTree::Bytes(r.byte_code),
            RlpTree::Bytes(r.compiler_version),
            bool_tree(r.payable),
        ],
    )
}

/// A field that has to be a byte array.
pub open spec fn parse_binary(tree: RlpTree) -> Result<Seq<u8>, DecodingErr> {
    match tree {
        RlpTree::Bytes(bytes) => Ok(bytes),
        RlpTree::List(_) => Err(DecodingErr::InvalidBinary),
    }
}

/// A field that has to be a boolean: the one byte 0 or 1.
pub open spec fn parse_bool(tree: RlpTree) -> Result<bool, DecodingErr> {
    match tree {
        RlpTree::List(_) => Err(DecodingErr::InvalidBinary),
        RlpTree::Bytes(bytes) => if bytes == seq![0u8] {
            Ok(false)
        } else if bytes == seq![1u8] {
            Ok(true)
        } else {
            Err(DecodingErr::InvalidBool)
        },
    }
}

/// A field that has to be a single byte.
pub open spec fn parse_byte(tree: RlpTree) -> Result<u8, DecodingErr> {
    match tree {
        RlpTree::List(_) => Err(DecodingErr::InvalidBinary),
        RlpTree::Bytes(bytes) => if bytes.len() == 1 {
            Ok(bytes[0])
        } else {
            Err(DecodingErr::InvalidInt)
        },
    }
}

/// What converting a tree to a type-info entry gives. The tree must be a
/// list of five fields; they are read in order and the first that fails
/// gives the error.
pub open spec fn parse_type_info(tree: RlpTree) -> Result<TypeInfoRecord, DecodingErr> {
    match tree {
        RlpTree::Bytes(_) => Err(DecodingErr::InvalidRlp),
        RlpTree::List(items) => if items.len() != 5 {
            Err(DecodingErr::InvalidRlp)
        } else {
            match parse_binary(items[0]) {
                Err(e) => Err(e),
                Ok(type_hash) => match parse_binary(items[1]) {
                    Err(e) => Err(e),
                    Ok(name) => match parse_bool(items[2]) {
                        Err(e) => Err(e),
                        Ok(payable) => match parse_binary(items[3]) {
                            Err(e) => Err(e),
                            Ok(arg_type) => match parse_binary(items[4]) {
                                Err(e) => Err(e),
                                Ok(out_type) => Ok(
                                    TypeInfoRecord { type_hash, name, payable, arg_type, out_type },
                                ),
                            },
                        },
                    },
                },
            }
        },
    }
}

/// What converting trees to type-info entries gives: the entries, or the
/// error of the first tree that is none.
pub open spec fn parse_type_infos(trees: Seq<RlpTree>) -> Result<Seq<TypeInfoRecord>, DecodingErr>
    decreases trees.len(),
{
    if trees.len() == 0 {
        Ok(Seq::empty())
    } else {
        match parse_type_info(trees[0]) {
            Err(e) => Err(e),
            Ok(first) => match parse_type_infos(trees.drop_first()) {
                Err(e) => Err(e),
                Ok(rest) => Ok(seq![first] + rest),
            },
        }
    }
}

/// What converting a tree to a list of type-info entries gives.
pub open spec fn parse_type_info_list(tree: RlpTree) -> Result<Seq<TypeInfoRecord>, DecodingErr> {
    match tree {
        RlpTree::Bytes(_) => Err(DecodingErr::InvalidList),
        RlpTree::List(items) => parse_type_infos(items),
    }
}

/// What converting a tree to a contract-code record gives.
///
/// The tree must be a list of seven fields, and the first a single byte
/// that is the tag 70: anything else is `InvalidRlp`, unless the first field
/// is no single byte at all, which gives its own error. Then the version
/// (a single byte, whose value is not looked at), the source hash, the type
/// info, the byte code, the compiler version and the payable flag are read
/// in this order, and the first that fails gives the error. Last, a type
/// info that is not empty is refused with `InvalidCode`.
pub open spec fn parse_code(tree: RlpTree) -> Result<CodeRecord, DecodingErr> {
    match tree {
        RlpTree::Bytes(_) => Err(DecodingErr::InvalidRlp),
        RlpTree::List(items) => if items.len() != 7 {
            Err(DecodingErr::InvalidRlp)
        } else {
            match parse_byte(items[0]) {
                Err(e) => Err(e),
                Ok(tag) => if tag != CODE_TAG {
                    Err(DecodingErr::InvalidRlp)
                } else {
                    match parse_byte(items[1]) {
                        Err(e) => Err(e),
                        Ok(_) => match parse_binary(items[2]) {
                            Err(e) => Err(e),
                            Ok(source_hash) => match parse_type_info_list(items[3]) {
                                Err(e) => Err(e),
                                Ok(type_info) => match parse_binary(items[4]) {
                                    Err(e) => Err(e),
                                    Ok(byte_code) => match parse_binary(items[5]) {
                                        Err(e) => Err(e),
                                        Ok(compiler_version) => match parse_bool(items[6]) {
                                            Err(e) => Err(e),
                                            Ok(payable) => if type_info.len() != 0 {
                                                Err(DecodingErr::InvalidCode)
                                            } else {
                                                Ok(
                                                    CodeRecord {
                                                        byte_code,
                                                        payable,
                                                        source_hash,
                                                        compiler_version,
                                                        type_info,
                                                    },
                                                )
                                            },
                                        },
                                    },
                                },
                            },
                        },
                    }
                },
            }
        },
    }
}

/// Whether `out` is what `parsed` says: a value with that record, or that
/// error.
pub open spec fn code_matches(parsed: Result<CodeRecord, DecodingErr>, out: Result<
    Code,
    DecodingErr,
>) -> bool {
    match parsed {
        Ok(record) => out matches Ok(code) && code@ == record,
        Err(e) => out == Err::<Code, DecodingErr>(e),
    }
}

/// Decoding inverts encoding for the records that FATE allows: a record
/// without type info, as an RLP tree, converts back to itself.
pub proof fn lemma_code_round_trip(r: CodeRecord)
    requires
        r.type_info.len() == 0,
    ensures
        parse_code(code_tree(r)) == Ok::<CodeRecord, DecodingErr>(r),
{
    assert(be_bytes(CODE_TAG as nat) =~= seq![CODE_TAG]);
    assert(be_bytes(VSN as nat) =~= seq![VSN]);
    assert(type_info_trees(r.type_info) =~= Seq::<RlpTree>::empty());
    assert(seq![1u8] != seq![0u8]) by {
        assert(seq![1u8][0] != seq![0u8][0]);
    }
    assert(r.type_info =~= Seq::<TypeInfoRecord>::empty());
}

/// Decoding inverts encoding for the records that FATE allows, bytes to
/// bytes: the encoding of a record without type info, whose fields fit the
/// format, decodes as a whole to the tree of the record, which converts
/// back to the record.
pub proof fn lemma_code_bytes_round_trip(r: CodeRecord)
    requires
        r.type_info.len() == 0,
        crate::rlp::fits(code_tree(r)),
    ensures
        crate::rlp::parse(crate::rlp::encode(code_tree(r)), 0) == Ok::<
            (RlpTree, int),
            crate::rlp::DecodingErr,
        >((code_tree(r), crate::rlp::encode(code_tree(r)).len() as int)),
        parse_code(code_tree(r)) == Ok::<CodeRecord, DecodingErr>(r),
{
    crate::rlp::lemma_round_trip(code_tree(r));
    lemma_code_round_trip(r);
}

impl ToRlpItem for TypeInfo {
    open spec fn rlp_tree(&self) -> RlpTree {
        type_info_tree(self@)
    }

    fn to_rlp_item(&self) -> (out: RlpItem) {
        let items: Vec<RlpItem> = vec![
            RlpItem::ByteArray(copy_bytes(&self.type_hash)),
            RlpItem::ByteArray(copy_bytes(&self.name)),
            self.payable.to_rlp_item(),
            RlpItem::ByteArray(copy_bytes(&self.arg_type)),
            RlpItem::ByteArray(copy_bytes(&self.out_type)),
        ];
        assert(trees_of(items@) =~= type_info_tree(self@)->List_0);
        RlpItem::List(items)
    }
}

impl ToRlpItem for Vec<TypeInfo> {
    open spec fn rlp_tree(&self) -> RlpTree {
        RlpTree::List(type_info_trees(records_of(self@)))
    }

    fn to_rlp_item(&self) -> (out: RlpItem) {
        let mut items: Vec<RlpItem> = Vec::new();
        let mut i: usize = 0;
        while i < self.len()
            invariant
                i <= self.len(),
                items@.len() == i,
                forall|j: int| 0 <= j < i ==> items@[j]@ == type_info_tree(self@[j]@),
            decreases self.len() - i,
        {
            items.push(self[i].to_rlp_item());
            i += 1;
        }
        assert(trees_of(items@) =~= type_info_trees(records_of(self@)));
        RlpItem::List(items)
    }
}

/// Unpacks a field that has to be a byte array.
fn binary_field(item: &RlpItem) -> (out: Result<Vec<u8>, DecodingErr>)
    ensures
        match parse_binary(item@) {
            Ok(bytes) => out matches Ok(v) && v@ == bytes,
            Err(e) => out == Err::<Vec<u8>, DecodingErr>(e),
        },
{
    item.byte_array()
}

impl FromRlpItem for TypeInfo {
    open spec fn converts(tree: RlpTree, out: Result<TypeInfo, DecodingErr>) -> bool {
        match parse_type_info(tree) {
            Ok(record) => out matches Ok(info) && info@ == record,
            Err(e) => out == Err::<TypeInfo, DecodingErr>(e),
        }
    }

    fn from_rlp_item(item: &RlpItem) -> (out: Result<TypeInfo, DecodingErr>) {
        let items = match item {
            RlpItem::ByteArray(_) => {
                return Err(DecodingErr::InvalidRlp);
            },
            RlpItem::List(items) => items,
        };
        if items.len() != 5 {
            return Err(DecodingErr::InvalidRlp);
        }
        let ghost trees = trees_of(items@);
        assert(forall|j: int| 0 <= j < 5 ==> trees[j] == items@[j]@);
        let type_hash = match binary_field(&items[0]) {
            Err(e) => {
                return Err(e);
            },
            Ok(v) => v,
        };
        let name = match binary_field(&items[1]) {
            Err(e) => {
                return Err(e);
            },
            Ok(v) => v,
        };
        let payable = match bool::from_rlp_item(&items[2]) {
            Err(e) => {
                return Err(e);
            },
            Ok(v) => v,
        };
        let arg_type = match binary_field(&items[3]) {
            Err(e) => {
                return Err(e);
            },
            Ok(v) => v,
        };
        let out_type = match binary_field(&items[4]) {
            Err(e) => {
                return Err(e);
            },
            Ok(v) => v,
        };
        Ok(TypeInfo { type_hash, name, payable, arg_type, out_type })
    }
}

impl FromRlpItem for Vec<TypeInfo> {
    open spec fn converts(tree: RlpTree, out: Result<Vec<TypeInfo>, DecodingErr>) -> bool {
        match parse_type_info_list(tree) {
            Ok(records) => out matches Ok(infos) && records_of(infos@) == records,
            Err(e) => out == Err::<Vec<TypeInfo>, DecodingErr>(e),
        }
    }

    fn from_rlp_item(item: &RlpItem) -> (out: Result<Vec<TypeInfo>, DecodingErr>) {
        let items = match item {
            RlpItem::ByteArray(_) => {
                return Err(DecodingErr::InvalidList);
            },
            RlpItem::List(items) => items,
        };
        let ghost trees = trees_of(items@);
        let mut infos: Vec<TypeInfo> = Vec::new();
        let mut i: usize = 0;
        proof {
            assert(trees.skip(0) =~= trees);
            match parse_type_infos(trees) {
                Ok(all) => {
                    assert(records_of(infos@) + all =~= all);
                },
                Err(_) => {},
            }
        }
        while i < items.len()
            invariant
                i <= items.len(),
                trees == trees_of(items@),
                item@ == RlpTree::List(trees),
                match parse_type_infos(trees.skip(i as int)) {
                    Ok(more) => parse_type_infos(trees) == Ok::<Seq<TypeInfoRecord>, DecodingErr>(
                        records_of(infos@) + more,
                    ),
                    Err(e) => parse_type_infos(trees) == Err::<Seq<TypeInfoRecord>, DecodingErr>(
                        e,
                    ),
                },
            decreases items.len() - i,
        {
            let ghost before = records_of(infos@);
            proof {
                assert(trees.skip(i as int)[0] == items@[i as int]@);
                assert(trees.skip(i as int).drop_first() =~= trees.skip(i + 1));
            }
            match TypeInfo::from_rlp_item(&items[i]) {
                Err(e) => {
                    return Err(e);
                },
                Ok(info) => {
                    proof {
                        match parse_type_infos(trees.skip(i + 1)) {
                            Ok(more) => {
                                assert(records_of(infos@.push(info)) + more =~= before + (seq![
                                    info@,
                                ] + more));
                            },
                            Err(_) => {},
                        }
                    }
                    infos.push(info);
                },
            }
            i += 1;
        }
        proof {
            assert(trees.skip(i as int) =~= Seq::<RlpTree>::empty());
            assert(records_of(infos@) + Seq::<TypeInfoRecord>::empty() =~= records_of(infos@));
        }
        Ok(infos)
    }
}

impl ToRlpItem for Code {
    open spec fn rlp_tree(&self) -> RlpTree {
        code_tree(self@)
    }

    fn to_rlp_item(&self) -> (out: RlpItem) {
        let fields: Vec<RlpItem> = vec![
            CODE_TAG.to_rlp_item(),
            VSN.to_rlp_item(),
            RlpItem::ByteArray(copy_bytes(&self.source_hash)),
            self.type_info.to_rlp_item(),
            RlpItem::ByteArray(copy_bytes(&self.byte_code)),
            RlpItem::ByteArray(copy_bytes(&self.compiler_version)),
            self.payable.to_rlp_item(),
        ];
        assert(trees_of(fields@) =~= code_tree(self@)->List_0);
        RlpItem::List(fields)
    }
}

impl FromRlpItem for Code {
    open spec fn converts(tree: RlpTree, out: Result<Code, DecodingErr>) -> bool {
        code_matches(parse_code(tree), out)
    }

    fn from_rlp_item(item: &RlpItem) -> (out: Result<Code, DecodingErr>) {
        let items = match item {
            RlpItem::ByteArray(_) => {
                return Err(DecodingErr::InvalidRlp);
            },
            RlpItem::List(items) => items,
        };
        if items.len() != 7 {
            return Err(DecodingErr::InvalidRlp);
        }
        let ghost trees = trees_of(items@);
        assert(forall|j: int| 0 <= j < 7 ==> trees[j] == items@[j]@);
        match u8::from_rlp_item(&items[0]) {
            Err(e) => {
                return Err(e);
            },
            Ok(tag) => {
                if tag != CODE_TAG {
                    return Err(DecodingErr::InvalidRlp);
                }
            },
        }
        match u8::from_rlp_item(&items[1]) {
            Err(e) => {
                return Err(e);
            },
            Ok(_) => {},
        }
        let source_hash = match binary_field(&items[2]) {
            Err(e) => {
                return Err(e);
            },
            Ok(v) => v,
        };
        let type_info = match Vec::<TypeInfo>::from_rlp_item(&items[3]) {
            Err(e) => {
                return Err(e);
            },
            Ok(v) => v,
        };
        let byte_code = match binary_field(&items[4]) {
            Err(e) => {
                return Err(e);
            },
            Ok(v) => v,
        };
        let compiler_version = match binary_field(&items[5]) {
            Err(e) => {
                return Err(e);
            },
            Ok(v) => v,
        };
        let payable = match bool::from_rlp_item(&items[6]) {
            Err(e) => {
                return Err(e);
            },
            Ok(v) => v,
        };
        if type_info.len() != 0 {
            return Err(DecodingErr::InvalidCode);
        }
        Ok(Code { byte_code, payable, source_hash, compiler_version, type_info })
    }
}

impl Code {
    /// Serialize FATE code as a byte-encoded RLP object.
    pub fn serialize(&self) -> (out: Vec<u8>)
        ensures
            out@ == crate::rlp::encode(code_tree(self@)),
    {
        self.serialize_rlp()
    }

    /// Deserializes a byte-encoded RLP object into FATE code. Bytes that are
    /// not exactly one RLP item give `InvalidRlp`.
    pub fn deserialize(bytes: &[u8]) -> (out: Result<Code, DecodingErr>)
        ensures
            match crate::rlp::parse(bytes@, 0) {
                Ok((tree, n)) => if n == bytes@.len() {
                    code_matches(parse_code(tree), out)
                } else {
                    out == Err::<Code, DecodingErr>(DecodingErr::InvalidRlp)
                },
                Err(_) => out == Err::<Code, DecodingErr>(DecodingErr::InvalidRlp),
            },
    {
        Code::deserialize_rlp(bytes)
    }
}

/// Hashes contract source code: the Blake2b digest of 32 bytes of the text
/// in UTF-8. The protocol does not verify the hash of a contract.
pub fn hash_source_code(source: &str) -> (out: Vec<u8>)
    ensures
        out@ == blake2b_256(vstd::utf8::encode_utf8(source@)),
        out@.len() == 32,
{
    blake2b(source.as_bytes())
}

} // verus!
