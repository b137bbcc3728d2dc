//! The FATE type algebra and its encoding.

use crate::data::consts::{
    OTYPE_ADDRESS, OTYPE_CHANNEL, OTYPE_CONTRACT, OTYPE_ORACLE, OTYPE_ORACLE_QUERY, TYPE_ANY,
    TYPE_BITS, TYPE_BOOLEAN, TYPE_BYTES, TYPE_CONTRACT_BYTEARRAY, TYPE_INTEGER, TYPE_LIST, TYPE_MAP,
    TYPE_OBJECT, TYPE_STRING, TYPE_TUPLE, TYPE_VAR, TYPE_VARIANT,
};
use crate::data::encode_int;
use crate::data::error::{DeserErr, SerErr};
use crate::data::serialize_int;
use crate::data::value::{parse_value, FateValue, Value};
use crate::integer::Int;
use vstd::prelude::*;

verus! {

/// The size of a bytes type: a fixed number of bytes, or any.
#[derive(Debug, Clone, Copy, PartialEq, Eq, Structural)]
pub enum BytesSize {
    Sized(usize),
    Unsized,
}

/// A FATE type.
#[derive(Debug, PartialEq, Eq)]
pub enum Type {
    Any,
    Boolean,
    Integer,
    Bits,
    String,
    Address,
    Contract,
    Oracle,
    OracleQuery,
    Channel,
    ContractBytearray,
    TVar(u8),
    Bytes(BytesSize),
    List(Box<Type>),
    Tuple(Vec<Type>),
    Variant(Vec<Type>),
    Mapping { key: Box<Type>, val: Box<Type> },
}

/// The mathematical value of a FATE type.
pub ghost enum FateType {
    Any,
    Boolean,
    Integer,
    Bits,
    String,
    Address,
    Contract,
    Oracle,
    OracleQuery,
    Channel,
    ContractBytearray,
    TVar(u8),
    Bytes(BytesSize),
    List(Box<FateType>),
    Tuple(Seq<FateType>),
    Variant(Seq<FateType>),
    Mapping { key: Box<FateType>, val: Box<FateType> },
}

/// The mathematical types of a sequence of types, in order.
pub open spec fn fate_types_of(types: Seq<Type>) -> Seq<FateType>
    decreases types,
{
    Seq::new(
        types.len(),
        |i: int|
            if 0 <= i < types.len() {
                fate_type_of(types[i])
            } else {
                FateType::Any
            },
    )
}

/// The mathematical type that a type stands for.
pub open spec fn fate_type_of(t: Type) -> FateType
    decreases t,
{
    match t {
        Type::Any => FateType::Any,
        Type::Boolean => FateType::Boolean,
        Type::Integer => FateType::Integer,
        Type::Bits => FateType::Bits,
        Type::String => FateType::String,
        Type::Address => FateType::Address,
        Type::Contract => FateType::Contract,
        Type::Oracle => FateType::Oracle,
        Type::OracleQuery => FateType::OracleQuery,
        Type::Channel => FateType::Channel,
        Type::ContractBytearray => FateType::ContractBytearray,
        Type::TVar(n) => FateType::TVar(n),
        Type::Bytes(size) => FateType::Bytes(size),
        Type::List(elem) => FateType::List(Box::new(fate_type_of(*elem))),
        Type::Tuple(types) => FateType::Tuple(fate_types_of(types@)),
        Type::Variant(types) => FateType::Variant(fate_types_of(types@)),
        Type::Mapping { key, val } => FateType::Mapping {
            key: Box::new(fate_type_of(*key)),
            val: Box::new(fate_type_of(*val)),
        },
    }
}

impl View for Type {
    type V = FateType;

    open spec fn view(&self) -> FateType {
        fate_type_of(*self)
    }
}

/// The encoding of a type, or why it has none. A type is its tag byte and
/// then what the tag calls for: a list its element type, a map its key and
/// value types, a type variable its index, an object type its id byte, a
/// bytes type its size as an integer (-1 for any size), a tuple or a variant
/// the number of its elements in one byte and then the elements.
pub open spec fn encode_type(t: FateType) -> Result<Seq<u8>, SerErr>
    decreases t,
{
    match t {
        FateType::Integer => Ok(seq![TYPE_INTEGER]),
        FateType::Boolean => Ok(seq![TYPE_BOOLEAN]),
        FateType::Any => Ok(seq![TYPE_ANY]),
        FateType::Bits => Ok(seq![TYPE_BITS]),
        FateType::String => Ok(seq![TYPE_STRING]),
        FateType::ContractBytearray => Ok(seq![TYPE_CONTRACT_BYTEARRAY]),
        FateType::Address => Ok(seq![TYPE_OBJECT, OTYPE_ADDRESS]),
        FateType::Contract => Ok(seq![TYPE_OBJECT, OTYPE_CONTRACT]),
        FateType::Oracle => Ok(seq![TYPE_OBJECT, OTYPE_ORACLE]),
        FateType::OracleQuery => Ok(seq![TYPE_OBJECT, OTYPE_ORACLE_QUERY]),
        FateType::Channel => Ok(seq![TYPE_OBJECT, OTYPE_CHANNEL]),
        FateType::TVar(n) => Ok(seq![TYPE_VAR, n]),
        FateType::Bytes(size) => Ok(
            seq![TYPE_BYTES] + encode_int(
                match size {
                    BytesSize::Unsized => -1int,
                    BytesSize::Sized(n) => n as int,
                },
            ),
        ),
        FateType::List(elem) => match encode_type(*elem) {
            Ok(bytes) => Ok(seq![TYPE_LIST] + bytes),
            Err(e) => Err(e),
        },
        FateType::Mapping { key, val } => match encode_type(*key) {
            Ok(key_bytes) => match encode_type(*val) {
                Ok(val_bytes) => Ok(seq![TYPE_MAP] + key_bytes + val_bytes),
                Err(e) => Err(e),
            },
            Err(e) => Err(e),
        },
        FateType::Tuple(types) => if types.len() < 256 {
            match encode_types(types) {
                Ok(bytes) => Ok(seq![TYPE_TUPLE, types.len() as u8] + bytes),
                Err(e) => Err(e),
            }
        } else {
            Err(SerErr::TupleSizeLimitExceeded)
        },
        FateType::Variant(types) => if types.len() < 256 {
            match encode_types(types) {
                Ok(bytes) => Ok(seq![TYPE_VARIANT, types.len() as u8] + bytes),
                Err(e) => Err(e),
            }
        } else {
            Err(SerErr::VariantSizeLimitExceeded)
        },
    }
}

/// The encodings of a sequence of types back to back, or the error of the
/// first that has none.
pub open spec fn encode_types(types: Seq<FateType>) -> Result<Seq<u8>, SerErr>
    decreases types,
{
    if types.len() == 0 {
        Ok(Seq::empty())
    } else {
        match encode_type(types[0]) {
            Err(e) => Err(e),
            Ok(first) => match encode_types(types.drop_first()) {
                Err(e) => Err(e),
                Ok(rest) => Ok(first + rest),
            },
        }
    }
}

/// Serializes the types of a vector back to back.
fn serialize_types(types: &Vec<Type>) -> (out: Result<Vec<u8>, SerErr>)
    ensures
        match encode_types(fate_types_of(types@)) {
            Ok(bytes) => out matches Ok(v) && v@ == bytes,
            Err(e) => out == Err::<Vec<u8>, SerErr>(e),
        },
    decreases types,
{
    let ghost all = fate_types_of(types@);
    let mut out: Vec<u8> = Vec::new();
    let mut i: usize = 0;
    assert(all.skip(0) =~= all);
    while i < types.len()
        invariant
            i <= types.len(),
            all == fate_types_of(types@),
            match encode_types(all.skip(i as int)) {
                Ok(rest) => encode_types(all) == Ok::<Seq<u8>, SerErr>(out@ + rest),
                Err(e) => encode_types(all) == Err::<Seq<u8>, SerErr>(e),
            },
        decreases types.len() - i,
    {
        proof {
            let tail = all.skip(i as int);
            assert(tail[0] == types@[i as int]@);
            assert(tail.drop_first() =~= all.skip(i + 1));
        }
        match types[i].serialize() {
            Err(e) => {
                return Err(e);
            },
            Ok(one) => {
                let mut one = one;
                proof {
                    match encode_types(all.skip(i + 1)) {
                        Ok(rest) => {
                            assert((out@ + one@) + rest =~= out@ + (one@ + rest));
                        },
                        Err(_) => {},
                    }
                }
                out.append(&mut one);
            },
        }
        i += 1;
    }
    assert(out@ + Seq::<u8>::empty() =~= out@);
    Ok(out)
}

impl Type {
    /// Serializes the type. A tuple or a variant with more than 255 elements
    /// cannot be serialized.
    pub fn serialize(&self) -> (out: Result<Vec<u8>, SerErr>)
        ensures
            match encode_type(self@) {
                Ok(bytes) => out matches Ok(v) && v@ == bytes,
                Err(e) => out == Err::<Vec<u8>, SerErr>(e),
            },
        decreases self,
    {
        match self {
            Type::Integer => Ok(vec![TYPE_INTEGER]),
            Type::Boolean => Ok(vec![TYPE_BOOLEAN]),
            Type::Any => Ok(vec![TYPE_ANY]),
            Type::Bits => Ok(vec![TYPE_BITS]),
            Type::String => Ok(vec![TYPE_STRING]),
            Type::ContractBytearray => Ok(vec![TYPE_CONTRACT_BYTEARRAY]),
            Type::Address => Ok(vec![TYPE_OBJECT, OTYPE_ADDRESS]),
            Type::Contract => Ok(vec![TYPE_OBJECT, OTYPE_CONTRACT]),
            Type::Oracle => Ok(vec![TYPE_OBJECT, OTYPE_ORACLE]),
            Type::OracleQuery => Ok(vec![TYPE_OBJECT, OTYPE_ORACLE_QUERY]),
            Type::Channel => Ok(vec![TYPE_OBJECT, OTYPE_CHANNEL]),
            Type::TVar(n) => Ok(vec![TYPE_VAR, *n]),
            Type::Bytes(size) => {
                let n = match size {
                    BytesSize::Unsized => Int::from_i64(-1),
                    BytesSize::Sized(n) => Int::from_usize(*n),
                };
                let mut out: Vec<u8> = vec![TYPE_BYTES];
                let mut ser_size = serialize_int(&n);
                out.append(&mut ser_size);
                Ok(out)
            },
            Type::List(elem) => {
                let mut out: Vec<u8> = vec![TYPE_LIST];
                match elem.serialize() {
                    Ok(bytes) => {
                        let mut bytes = bytes;
                        out.append(&mut bytes);
                        Ok(out)
                    },
                    Err(e) => Err(e),
                }
            },
            Type::Mapping { key, val } => {
                let mut out: Vec<u8> = vec![TYPE_MAP];
                match key.serialize() {
                    Ok(key_bytes) => match val.serialize() {
                        Ok(val_bytes) => {
                            let mut key_bytes = key_bytes;
                            let mut val_bytes = val_bytes;
                            out.append(&mut key_bytes);
                            out.append(&mut val_bytes);
                            Ok(out)
                        },
                        Err(e) => Err(e),
                    },
                    Err(e) => Err(e),
                }
            },
            Type::Tuple(types) => {
                if types.len() < 256 {
                    let mut out: Vec<u8> = vec![TYPE_TUPLE, types.len() as u8];
                    match serialize_types(types) {
                        Ok(bytes) => {
                            let mut bytes = bytes;
                            out.append(&mut bytes);
                            Ok(out)
                        },
                        Err(e) => Err(e),
                    }
                } else {
                    Err(SerErr::TupleSizeLimitExceeded)
                }
            },
            Type::Variant(types) => {
                if types.len() < 256 {
                    let mut out: Vec<u8> = vec![TYPE_VARIANT, types.len() as u8];
                    match serialize_types(types) {
                        Ok(bytes) => {
                            let mut bytes = bytes;
                            out.append(&mut bytes);
                            Ok(out)
                        },
                        Err(e) => Err(e),
                    }
                } else {
                    Err(SerErr::VariantSizeLimitExceeded)
                }
            },
        }
    }
}

/// What decoding the type at the start of `s` gives: the type and the
/// number of bytes it occupies, or the error.
///
/// The first byte must be one of the thirteen type tags. A type variable
/// needs its index byte, an object type one of the id bytes 0, 2, 3, 4, 5;
/// a tuple or a variant needs its count byte and then that many types; a
/// bytes type is followed by a value that must be an integer: -1 for any
/// size, or a size that fits the machine.
pub open spec fn parse_type(s: Seq<u8>) -> Result<(FateType, int), DeserErr>
    decreases s.len(), 0int, 0int,
{
    if s.len() == 0 {
        Err(DeserErr::Empty)
    } else if s[0] == TYPE_INTEGER {
        Ok((FateType::Integer, 1))
    } else if s[0] == TYPE_BOOLEAN {
        Ok((FateType::Boolean, 1))
    } else if s[0] == TYPE_ANY {
        Ok((FateType::Any, 1))
    } else if s[0] == TYPE_BITS {
        Ok((FateType::Bits, 1))
    } else if s[0] == TYPE_STRING {
        Ok((FateType::String, 1))
    } else if s[0] == TYPE_CONTRACT_BYTEARRAY {
        Ok((FateType::ContractBytearray, 1))
    } else if s[0] == TYPE_VAR {
        if s.len() < 2 {
            Err(DeserErr::InvalidTypeVar)
        } else {
            Ok((FateType::TVar(s[1]), 2))
        }
    } else if s[0] == TYPE_TUPLE || s[0] == TYPE_VARIANT {
        if s.len() < 2 {
            Err(DeserErr::InvalidTupleOrVariant)
        } else {
            match parse_types(s[1] as nat, s.skip(2)) {
                Err(e) => Err(e),
                Ok((types, n)) => Ok(
                    (
                        if s[0] == TYPE_TUPLE {
                            FateType::Tuple(types)
                        } else {
                            FateType::Variant(types)
                        },
                        2 + n,
                    ),
                ),
            }
        }
    } else if s[0] == TYPE_BYTES {
        match parse_value(s.skip(1)) {
            Err(e) => Err(e),
            Ok((FateValue::Integer(n), k)) => if n == -1 {
                Ok((FateType::Bytes(BytesSize::Unsized), 1 + k))
            } else if n < 0 {
                Err(DeserErr::InvalidIntValue)
            } else if n > usize::MAX {
                Err(DeserErr::BytesSizeTooBig)
            } else {
                Ok((FateType::Bytes(BytesSize::Sized(n as usize)), 1 + k))
            },
            Ok(_) => Err(DeserErr::InvalidBytesType),
        }
    } else if s[0] == TYPE_LIST {
        match parse_type(s.skip(1)) {
            Err(e) => Err(e),
            Ok((elem, n)) => Ok((FateType::List(Box::new(elem)), 1 + n)),
        }
    } else if s[0] == TYPE_MAP {
        match parse_type(s.skip(1)) {
            Err(e) => Err(e),
            Ok((key, n)) => if 0 <= n < s.len() {
                match parse_type(s.skip(1 + n)) {
                    Err(e) => Err(e),
                    Ok((val, m)) => Ok(
                        (FateType::Mapping { key: Box::new(key), val: Box::new(val) }, 1 + n + m),
                    ),
                }
            } else {
                // never so: what is decoded is at least one byte and no more than there are
                Err(DeserErr::Empty)
            },
        }
    } else if s[0] == TYPE_OBJECT {
        if s.len() < 2 {
            Err(DeserErr::Empty)
        } else if s[1] == OTYPE_ADDRESS {
            Ok((FateType::Address, 2))
        } else if s[1] == OTYPE_CONTRACT {
            Ok((FateType::Contract, 2))
        } else if s[1] == OTYPE_ORACLE {
            Ok((FateType::Oracle, 2))
        } else if s[1] == OTYPE_ORACLE_QUERY {
            Ok((FateType::OracleQuery, 2))
        } else if s[1] == OTYPE_CHANNEL {
            Ok((FateType::Channel, 2))
        } else {
            Err(DeserErr::InvalidTypeObjectByte(s[1]))
        }
    } else {
        Err(DeserErr::InvalidTypeId(s[0]))
    }
}

/// What decoding `count` types back to back at the start of `s` gives: the
/// types and the number of bytes they occupy, or the first error.
pub open spec fn parse_types(count: nat, s: Seq<u8>) -> Result<(Seq<FateType>, int), DeserErr>
    decreases s.len(), 2int, count,
{
    if count == 0 {
        Ok((Seq::empty(), 0))
    } else {
        match parse_type(s) {
            Err(e) => Err(e),
            Ok((first, n)) => if 0 <= n <= s.len() {
                match parse_types((count - 1) as nat, s.skip(n)) {
                    Err(e) => Err(e),
                    Ok((rest, m)) => Ok((seq![first] + rest, n + m)),
                }
            } else {
                // never so: what is decoded is at least one byte and no more than there are
                Err(DeserErr::Empty)
            },
        }
    }
}

/// The bytes of `bytes` from `from` on.
pub fn tail_of(bytes: &[u8], from: usize) -> (out: &[u8])
    requires
        from <= bytes.len(),
    ensures
        out@ == bytes@.skip(from as int),
{
    let out = vstd::slice::slice_subrange(bytes, from, bytes.len());
    assert(out@ =~= bytes@.skip(from as int));
    out
}

impl Type {
    /// Decodes the type at the start of `bytes` and gives it with the bytes
    /// behind it, or the decoding error.
    pub fn deserialize(bytes: &[u8]) -> (out: Result<(Type, &[u8]), DeserErr>)
        ensures
            match parse_type(bytes@) {
                Ok((t, n)) => out matches Ok((decoded, rest)) && decoded@ == t && rest@
                    == bytes@.skip(n) && 0 < n <= bytes@.len(),
                Err(e) => out == Err::<(Type, &[u8]), DeserErr>(e),
            },
        decreases bytes@.len(), 0int, 0int,
    {
        if bytes.len() == 0 {
            return Err(DeserErr::Empty);
        }
        let tag: u8 = bytes[0];
        if tag == TYPE_INTEGER {
            Ok((Type::Integer, tail_of(bytes, 1)))
        } else if tag == TYPE_BOOLEAN {
            Ok((Type::Boolean, tail_of(bytes, 1)))
        } else if tag == TYPE_ANY {
            Ok((Type::Any, tail_of(bytes, 1)))
        } else if tag == TYPE_BITS {
            Ok((Type::Bits, tail_of(bytes, 1)))
        } else if tag == TYPE_STRING {
            Ok((Type::String, tail_of(bytes, 1)))
        } else if tag == TYPE_CONTRACT_BYTEARRAY {
            Ok((Type::ContractBytearray, tail_of(bytes, 1)))
        } else if tag == TYPE_VAR {
            if bytes.len() < 2 {
                Err(DeserErr::InvalidTypeVar)
            } else {
                Ok((Type::TVar(bytes[1]), tail_of(bytes, 2)))
            }
        } else if tag == TYPE_TUPLE || tag == TYPE_VARIANT {
            proof {
                if bytes@.len() >= 2 {
                    assert(bytes@.skip(1).skip(1) =~= bytes@.skip(2));
                }
            }
            match Type::deserialize_many(tail_of(bytes, 1)) {
                Err(e) => Err(e),
                Ok((types, rest)) => {
                    proof {
                        let n = bytes@.len() - 2 - rest@.len();
                        assert(bytes@.skip(1).skip(1 + n) =~= bytes@.skip(2 + n));
                    }
                    if tag == TYPE_TUPLE {
                        Ok((Type::Tuple(types), rest))
                    } else {
                        Ok((Type::Variant(types), rest))
                    }
                },
            }
        } else if tag == TYPE_BYTES {
            match Value::try_deserialize(tail_of(bytes, 1)) {
                Err(e) => Err(e),
                Ok((Value::Integer(n), rest)) => {
                    proof {
                        assert(bytes@.skip(1).skip(bytes@.len() - 1 - rest@.len()) =~= bytes@.skip(
                            bytes@.len() - rest@.len(),
                        ));
                    }
                    if n.is_negative() {
                        if n.less_than(&Int::from_i64(-1)) {
                            Err(DeserErr::InvalidIntValue)
                        } else {
                            Ok((Type::Bytes(BytesSize::Unsized), rest))
                        }
                    } else {
                        match n.to_usize() {
                            Some(size) => Ok((Type::Bytes(BytesSize::Sized(size)), rest)),
                            None => Err(DeserErr::BytesSizeTooBig),
                        }
                    }
                },
                Ok(_) => Err(DeserErr::InvalidBytesType),
            }
        } else if tag == TYPE_LIST {
            match Type::deserialize(tail_of(bytes, 1)) {
                Err(e) => Err(e),
                Ok((elem, rest)) => {
                    proof {
                        assert(bytes@.skip(1).skip(bytes@.len() - 1 - rest@.len()) =~= bytes@.skip(
                            bytes@.len() - rest@.len(),
                        ));
                    }
                    Ok((Type::List(Box::new(elem)), rest))
                },
            }
        } else if tag == TYPE_MAP {
            match Type::deserialize(tail_of(bytes, 1)) {
                Err(e) => Err(e),
                Ok((key, rest1)) => {
                    let ghost n = bytes@.len() - 1 - rest1@.len();
                    proof {
                        assert(bytes@.skip(1).skip(n) =~= bytes@.skip(1 + n));
                    }
                    match Type::deserialize(rest1) {
                        Err(e) => Err(e),
                        Ok((val, rest2)) => {
                            proof {
                                let m = rest1@.len() - rest2@.len();
                                assert(bytes@.skip(1 + n).skip(m) =~= bytes@.skip(1 + n + m));
                            }
                            Ok((Type::Mapping { key: Box::new(key), val: Box::new(val) }, rest2))
                        },
                    }
                },
            }
        } else if tag == TYPE_OBJECT {
            if bytes.len() < 2 {
                return Err(DeserErr::Empty);
            }
            let kind: u8 = bytes[1];
            if kind == OTYPE_ADDRESS {
                Ok((Type::Address, tail_of(bytes, 2)))
            } else if kind == OTYPE_CONTRACT {
                Ok((Type::Contract, tail_of(bytes, 2)))
            } else if kind == OTYPE_ORACLE {
                Ok((Type::Oracle, tail_of(bytes, 2)))
            } else if kind == OTYPE_ORACLE_QUERY {
                Ok((Type::OracleQuery, tail_of(bytes, 2)))
            } else if kind == OTYPE_CHANNEL {
                Ok((Type::Channel, tail_of(bytes, 2)))
            } else {
                Err(DeserErr::InvalidTypeObjectByte(kind))
            }
        } else {
            Err(DeserErr::InvalidTypeId(tag))
        }
    }

    /// Decodes a count byte and then that many types; `bytes` is what
    /// follows the tag of a tuple or variant type.
    pub fn deserialize_many(bytes: &[u8]) -> (out: Result<(Vec<Type>, &[u8]), DeserErr>)
        ensures
            bytes@.len() == 0 ==> out == Err::<(Vec<Type>, &[u8]), DeserErr>(
                DeserErr::InvalidTupleOrVariant,
            ),
            bytes@.len() > 0 ==> match parse_types(bytes@[0] as nat, bytes@.skip(1)) {
                Ok((types, n)) => out matches Ok((decoded, rest)) && fate_types_of(decoded@)
                    == types && rest@ == bytes@.skip(1 + n) && 0 <= n < bytes@.len(),
                Err(e) => out == Err::<(Vec<Type>, &[u8]), DeserErr>(e),
            },
        decreases bytes@.len(), 3int, 0int,
    {
        if bytes.len() == 0 {
            return Err(DeserErr::InvalidTupleOrVariant);
        }
        let size: u8 = bytes[0];
        let start = tail_of(bytes, 1);
        let mut rest = start;
        let mut types: Vec<Type> = Vec::new();
        let mut i: u8 = 0;
        let ghost consumed: int = 0;
        proof {
            assert(start@.skip(0) =~= start@);
            assert(fate_types_of(types@) =~= Seq::<FateType>::empty());
            match parse_types(size as nat, start@) {
                Ok((all, m)) => {
                    assert(fate_types_of(types@) + all =~= all);
                },
                Err(_) => {},
            }
        }
        while i < size
            invariant
                i <= size,
                0 <= consumed <= start@.len(),
                start@.len() < bytes@.len(),
                start@ == bytes@.skip(1),
                size == bytes@[0],
                rest@ == start@.skip(consumed),
                match parse_types((size - i) as nat, rest@) {
                    Ok((more, m)) => parse_types(size as nat, start@) == Ok::<
                        (Seq<FateType>, int),
                        DeserErr,
                    >((fate_types_of(types@) + more, consumed + m)),
                    Err(e) => parse_types(size as nat, start@) == Err::<
                        (Seq<FateType>, int),
                        DeserErr,
                    >(e),
                },
            decreases size - i,
        {
            let ghost before = fate_types_of(types@);
            match Type::deserialize(rest) {
                Err(e) => {
                    return Err(e);
                },
                Ok((t, next)) => {
                    proof {
                        let n = rest@.len() - next@.len();
                        assert(start@.skip(consumed).skip(n) =~= start@.skip(consumed + n));
                        match parse_types((size - i - 1) as nat, next@) {
                            Ok((more, m)) => {
                                assert(fate_types_of(types@.push(t)) + more =~= before + (seq![
                                    t@,
                                ] + more));
                            },
                            Err(_) => {},
                        }
                        consumed = consumed + n;
                    }
                    types.push(t);
                    rest = next;
                },
            }
            i += 1;
        }
        proof {
            assert(fate_types_of(types@) + Seq::<FateType>::empty() =~= fate_types_of(types@));
            assert(bytes@.skip(1).skip(consumed) =~= bytes@.skip(1 + consumed));
        }
        Ok((types, rest))
    }
}

/// Deep copies of the types of a vector, in order.
pub fn duplicate_types(types: &Vec<Type>) -> (out: Vec<Type>)
    ensures
        fate_types_of(out@) == fate_types_of(types@),
    decreases types,
{
    let mut out: Vec<Type> = Vec::new();
    let mut i: usize = 0;
    while i < types.len()
        invariant
            i <= types.len(),
            out@.len() == i,
            forall|j: int| 0 <= j < i ==> out@[j]@ == types@[j]@,
        decreases types.len() - i,
    {
        out.push(types[i].duplicate());
        i += 1;
    }
    assert(fate_types_of(out@) =~= fate_types_of(types@));
    out
}

impl Type {
    /// A deep copy of the type.
    pub fn duplicate(&self) -> (out: Type)
        ensures
            out@ == self@,
        decreases self,
    {
        match self {
            Type::Any => Type::Any,
            Type::Boolean => Type::Boolean,
            Type::Integer => Type::Integer,
            Type::Bits => Type::Bits,
            Type::String => Type::String,
            Type::Address => Type::Address,
            Type::Contract => Type::Contract,
            Type::Oracle => Type::Oracle,
            Type::OracleQuery => Type::OracleQuery,
            Type::Channel => Type::Channel,
            Type::ContractBytearray => Type::ContractBytearray,
            Type::TVar(n) => Type::TVar(*n),
            Type::Bytes(size) => Type::Bytes(*size),
            Type::List(elem) => Type::List(Box::new(elem.duplicate())),
            Type::Tuple(types) => Type::Tuple(duplicate_types(types)),
            Type::Variant(types) => Type::Variant(duplicate_types(types)),
            Type::Mapping { key, val } => Type::Mapping {
                key: Box::new(key.duplicate()),
                val: Box::new(val.duplicate()),
            },
        }
    }
}

impl Clone for Type {
    fn clone(&self) -> (out: Type)
        ensures
            out@ == self@,
    {
        self.duplicate()
    }
}

/// The type that a name stands for in the description of an instruction, if
/// any. The names of the composite kinds, `typerep`, `hash`, `signature` and
/// `char` stand for any type; `none` is the empty tuple.
pub open spec fn type_named(name: Seq<char>) -> Option<FateType> {
    if name == "any"@ {
        Some(FateType::Any)
    } else if name == "bool"@ {
        Some(FateType::Boolean)
    } else if name == "boolean"@ {
        Some(FateType::Boolean)
    } else if name == "int"@ {
        Some(FateType::Integer)
    } else if name == "integer"@ {
        Some(FateType::Integer)
    } else if name == "bits"@ {
        Some(FateType::Bits)
    } else if name == "string"@ {
        Some(FateType::String)
    } else if name == "address"@ {
        Some(FateType::Address)
    } else if name == "contract"@ {
        Some(FateType::Contract)
    } else if name == "contract_bytearray"@ {
        Some(FateType::ContractBytearray)
    } else if name == "oracle"@ {
        Some(FateType::Oracle)
    } else if name == "oracle_query"@ {
        Some(FateType::OracleQuery)
    } else if name == "bytes"@ {
        Some(FateType::Bytes(BytesSize::Unsized))
    } else if name == "none"@ {
        Some(FateType::Tuple(Seq::empty()))
    } else if name == "typerep"@ {
        Some(FateType::Any)
    } else if name == "variant"@ {
        Some(FateType::Any)
    } else if name == "hash"@ {
        Some(FateType::Any)
    } else if name == "signature"@ {
        Some(FateType::Any)
    } else if name == "tuple"@ {
        Some(FateType::Any)
    } else if name == "list"@ {
        Some(FateType::Any)
    } else if name == "map"@ {
        Some(FateType::Any)
    } else if name == "char"@ {
        Some(FateType::Any)
    } else {
        None
    }
}

impl Type {
    /// The type that a name stands for in the description of an instruction.
    pub fn from_name(name: &str) -> (out: Option<Type>)
        ensures
            match type_named(name@) {
                Some(t) => out matches Some(found) && found@ == t,
                None => out is None,
            },
    {
        let name = name.to_owned();
        if name == "any".to_owned() {
            Some(Type::Any)
        } else if name == "bool".to_owned() {
            Some(Type::Boolean)
        } else if name == "boolean".to_owned() {
            Some(Type::Boolean)
        } else if name == "int".to_owned() {
            Some(Type::Integer)
        } else if name == "integer".to_owned() {
            Some(Type::Integer)
        } else if name == "bits".to_owned() {
            Some(Type::Bits)
        } else if name == "string".to_owned() {
            Some(Type::String)
        } else if name == "address".to_owned() {
            Some(Type::Address)
        } else if name == "contract".to_owned() {
            Some(Type::Contract)
        } else if name == "contract_bytearray".to_owned() {
            Some(Type::ContractBytearray)
        } else if name == "oracle".to_owned() {
            Some(Type::Oracle)
        } else if name == "oracle_query".to_owned() {
            Some(Type::OracleQuery)
        } else if name == "bytes".to_owned() {
            Some(Type::Bytes(BytesSize::Unsized))
        } else if name == "none".to_owned() {
            let none: Vec<Type> = Vec::new();
            assert(fate_types_of(none@) =~= Seq::<FateType>::empty());
            Some(Type::Tuple(none))
        } else if name == "typerep".to_owned() {
            Some(Type::Any)
        } else if name == "variant".to_owned() {
            Some(Type::Any)
        } else if name == "hash".to_owned() {
            Some(Type::Any)
        } else if name == "signature".to_owned() {
            Some(Type::Any)
        } else if name == "tuple".to_owned() {
            Some(Type::Any)
        } else if name == "list".to_owned() {
            Some(Type::Any)
        } else if name == "map".to_owned() {
            Some(Type::Any)
        } else if name == "char".to_owned() {
            Some(Type::Any)
        } else {
            None
        }
    }
}

} // verus!
