//! The FATE value algebra and its encoding.

use crate::bytes::{be_bytes, be_nat, lemma_be_bytes_value, usize_to_min_be_bytes};
use crate::data::consts::{
    is_short_list, is_short_string, is_short_tuple, is_small_neg_int, is_small_pos_int,
    is_type_tag, short_list_tag, short_string_tag, short_tuple_tag, small_neg_int_tag,
    small_pos_int_tag, type_tag, SMALL_INT_SIZE, CONTRACT_BYTEARRAY, EMPTY_STRING, EMPTY_TUPLE, FALSE, LONG_LIST, LONG_STRING,
    LONG_TUPLE, MAP, MAP_ID, NEG_BIG_INT, NEG_BITS, OBJECT, OTYPE_ADDRESS, OTYPE_BYTES,
    OTYPE_CHANNEL, OTYPE_CONTRACT, OTYPE_ORACLE, OTYPE_ORACLE_QUERY, POS_BIG_INT, POS_BITS,
    SHORT_LIST, SHORT_LIST_SIZE, SHORT_STRING, SHORT_STRING_SIZE, SHORT_TUPLE, SHORT_TUPLE_SIZE,
    TRUE, VARIANT,
};
use crate::data::encode_int;
use crate::data::error::{DeserErr, SerErr};
use crate::data::order::{collect_entries, comparable, insert, is_comparable, keys_comparable};
use crate::data::serialize_int;
use crate::data::types::{encode_type, parse_type, tail_of, FateType, Type};
use crate::integer::{big_add, big_to_u64, magnitude_of, signed, Int};
use crate::rlp::{copy_bytes, encode_bytes, RlpItem, RlpTree};
use vstd::prelude::*;

verus! {

/// A FATE value.
#[derive(Debug, PartialEq, Eq)]
pub enum Value {
    Boolean(bool),
    Integer(Int),
    Bits(Int),
    List(Vec<Value>),
    Tuple(Vec<Value>),
    String(Vec<u8>),
    Bytes(Vec<u8>),
    Address(Vec<u8>),
    Contract(Vec<u8>),
    Oracle(Vec<u8>),
    OracleQuery(Vec<u8>),
    Channel(Vec<u8>),
    ContractBytearray(Vec<u8>),
    Typerep(Type),
    /// The entries of a map, ordered by their keys.
    Mapping(Vec<(Value, Value)>),
    StoreMap { cache: Vec<(Value, Value)>, id: u32 },
    Variant { arities: Vec<u8>, tag: u8, values: Vec<Value> },
}

/// The mathematical value of a FATE value.
pub ghost enum FateValue {
    Boolean(bool),
    Integer(int),
    Bits(int),
    List(Seq<FateValue>),
    Tuple(Seq<FateValue>),
    String(Seq<u8>),
    Bytes(Seq<u8>),
    Address(Seq<u8>),
    Contract(Seq<u8>),
    Oracle(Seq<u8>),
    OracleQuery(Seq<u8>),
    Channel(Seq<u8>),
    ContractBytearray(Seq<u8>),
    Typerep(FateType),
    Mapping(Seq<(FateValue, FateValue)>),
    StoreMap { cache: Seq<(FateValue, FateValue)>, id: u32 },
    Variant { arities: Seq<u8>, tag: u8, values: Seq<FateValue> },
}

/// The mathematical values of a sequence of values, in order.
pub open spec fn fate_values_of(values: Seq<Value>) -> Seq<FateValue>
    decreases values,
{
    Seq::new(
        values.len(),
        |i: int|
            if 0 <= i < values.len() {
                fate_value_of(values[i])
            } else {
                FateValue::Boolean(false)
            },
    )
}

/// The mathematical entries of a sequence of map entries, in order.
pub open spec fn fate_entries_of(entries: Seq<(Value, Value)>) -> Seq<(FateValue, FateValue)>
    decreases entries,
{
    Seq::new(
        entries.len(),
        |i: int|
            if 0 <= i < entries.len() {
                (fate_value_of(entries[i].0), fate_value_of(entries[i].1))
            } else {
                (FateValue::Boolean(false), FateValue::Boolean(false))
            },
    )
}

/// The mathematical value that a value stands for.
pub open spec fn fate_value_of(v: Value) -> FateValue
    decreases v,
{
    match v {
        Value::Boolean(b) => FateValue::Boolean(b),
        Value::Integer(n) => FateValue::Integer(n@),
        Value::Bits(n) => FateValue::Bits(n@),
        Value::List(elems) => FateValue::List(fate_values_of(elems@)),
        Value::Tuple(elems) => FateValue::Tuple(fate_values_of(elems@)),
        Value::String(bytes) => FateValue::String(bytes@),
        Value::Bytes(bytes) => FateValue::Bytes(bytes@),
        Value::Address(bytes) => FateValue::Address(bytes@),
        Value::Contract(bytes) => FateValue::Contract(bytes@),
        Value::Oracle(bytes) => FateValue::Oracle(bytes@),
        Value::OracleQuery(bytes) => FateValue::OracleQuery(bytes@),
        Value::Channel(bytes) => FateValue::Channel(bytes@),
        Value::ContractBytearray(bytes) => FateValue::ContractBytearray(bytes@),
        Value::Typerep(t) => FateValue::Typerep(t@),
        Value::Mapping(entries) => FateValue::Mapping(fate_entries_of(entries@)),
        Value::StoreMap { cache, id } => FateValue::StoreMap {
            cache: fate_entries_of(cache@),
            id,
        },
        Value::Variant { arities, tag, values } => FateValue::Variant {
            arities: arities@,
            tag,
            values: fate_values_of(values@),
        },
    }
}

impl View for Value {
    type V = FateValue;

    open spec fn view(&self) -> FateValue {
        fate_value_of(*self)
    }
}

/// Which of the seventeen kinds a value is of.
pub open spec fn kind(v: FateValue) -> int {
    match v {
        FateValue::Boolean(_) => 0,
        FateValue::Integer(_) => 1,
        FateValue::Bits(_) => 2,
        FateValue::List(_) => 3,
        FateValue::Tuple(_) => 4,
        FateValue::String(_) => 5,
        FateValue::Bytes(_) => 6,
        FateValue::Address(_) => 7,
        FateValue::Contract(_) => 8,
        FateValue::Oracle(_) => 9,
        FateValue::OracleQuery(_) => 10,
        FateValue::Channel(_) => 11,
        FateValue::ContractBytearray(_) => 12,
        FateValue::Typerep(_) => 13,
        FateValue::Mapping(_) => 14,
        FateValue::StoreMap { .. } => 15,
        FateValue::Variant { .. } => 16,
    }
}

/// The encoding of a string: the byte `0x5F` when empty; up to 63 bytes the
/// tag `4 * length + 1` and the bytes; from 64 bytes on the tag `0x01`, the
/// length less 64 as an integer, and the bytes.
pub open spec fn encode_string(bytes: Seq<u8>) -> Seq<u8> {
    if bytes.len() == 0 {
        seq![EMPTY_STRING]
    } else if bytes.len() < 64 {
        seq![(4 * bytes.len() + 1) as u8] + bytes
    } else {
        seq![LONG_STRING] + encode_int(bytes.len() - 64) + bytes
    }
}

/// An object: the byte `0x9F`, the id byte, and the payload as an RLP byte
/// array.
pub open spec fn encode_object(object_id: u8, address: Seq<u8>) -> Seq<u8> {
    seq![OBJECT, object_id] + encode_bytes(address)
}

/// Why a non-empty map is refused: a map among its keys, keys of more than
/// one kind, or values of more than one kind, looked for in that order.
pub open spec fn map_fault(entries: Seq<(FateValue, FateValue)>) -> Option<SerErr> {
    if entries.len() == 0 {
        None
    } else if exists|i: int| 0 <= i < entries.len() && #[trigger] entries[i].0 is Mapping {
        Some(SerErr::MapAsKeyType)
    } else if exists|i: int|
        0 <= i < entries.len() && kind(#[trigger] entries[i].0) != kind(entries[0].0) {
        Some(SerErr::HeteroMapKeys)
    } else if exists|i: int|
        0 <= i < entries.len() && kind(#[trigger] entries[i].1) != kind(entries[0].1) {
        Some(SerErr::HeteroMapValues)
    } else {
        None
    }
}

/// The encoding of a value, or why it has none.
///
/// - A boolean is `0xFF` or `0x7F`; an integer is framed by `encode_int`.
/// - Bits are `0x4F` (`0xCF` when negative) and the magnitude as an RLP
///   byte array.
/// - A tuple is `0x3F` when empty and otherwise counted from tag `0x0B`; a
///   list is counted from tag `0x03`, with `0x1F` for the long form.
/// - Bytes are the object with the id byte 1 around a string; an address,
///   contract, oracle, oracle query or channel is the object with its id
///   byte around an RLP byte array.
/// - A contract byte array is `0x8F`, its length as an integer, its bytes.
/// - A map is `0x2F`, the number of its entries as an RLP byte array, and
///   its keys and values in turn; see `map_fault` for the maps refused.
/// - A store map is `0xBF` and its id as an RLP byte array; its cache must
///   be empty.
/// - A variant is `0xAF`, its arities as an RLP byte array, its tag, and its
///   values as a tuple; the tag must select an arity, and that arity must be
///   the number of values.
pub open spec fn encode_value(v: FateValue) -> Result<Seq<u8>, SerErr>
    decreases v,
{
    match v {
        FateValue::Boolean(b) => Ok(
            seq![if b {
                TRUE
            } else {
                FALSE
            }],
        ),
        FateValue::Integer(n) => Ok(encode_int(n)),
        FateValue::Bits(n) => Ok(
            seq![if n < 0 {
                NEG_BITS
            } else {
                POS_BITS
            }] + encode_bytes(be_bytes(magnitude_of(n))),
        ),
        FateValue::String(bytes) => Ok(encode_string(bytes)),
        FateValue::Tuple(elems) => encode_tuple(elems),
        FateValue::List(elems) => encode_many(elems, SHORT_LIST, LONG_LIST),
        FateValue::Bytes(bytes) => Ok(seq![OBJECT, OTYPE_BYTES] + encode_string(bytes)),
        FateValue::Address(a) => Ok(encode_object(OTYPE_ADDRESS, a)),
        FateValue::Contract(a) => Ok(encode_object(OTYPE_CONTRACT, a)),
        FateValue::Oracle(a) => Ok(encode_object(OTYPE_ORACLE, a)),
        FateValue::OracleQuery(a) => Ok(encode_object(OTYPE_ORACLE_QUERY, a)),
        FateValue::Channel(a) => Ok(encode_object(OTYPE_CHANNEL, a)),
        FateValue::ContractBytearray(bytes) => Ok(
            seq![CONTRACT_BYTEARRAY] + encode_int(bytes.len() as int) + bytes,
        ),
        FateValue::Typerep(t) => encode_type(t),
        FateValue::Mapping(entries) => match map_fault(entries) {
            Some(e) => Err(e),
            None => match encode_entries(entries) {
                Ok(bytes) => Ok(seq![MAP] + encode_bytes(be_bytes(entries.len())) + bytes),
                Err(e) => Err(e),
            },
        },
        FateValue::StoreMap { cache, id } => if cache.len() == 0 {
            Ok(seq![MAP_ID] + encode_bytes(be_bytes(id as nat)))
        } else {
            Err(SerErr::NonEmptyStoreMapCache)
        },
        FateValue::Variant { arities, tag, values } => if tag < arities.len() {
            if values.len() == arities[tag as int] {
                match encode_tuple(values) {
                    Ok(bytes) => Ok(seq![VARIANT] + encode_bytes(arities) + seq![tag] + bytes),
                    Err(e) => Err(e),
                }
            } else {
                Err(SerErr::ArityValuesMismatch)
            }
        } else {
            Err(SerErr::InvalidVariantTag)
        },
    }
}

/// The encoding of a tuple with the given elements.
pub open spec fn encode_tuple(elems: Seq<FateValue>) -> Result<Seq<u8>, SerErr>
    decreases elems, 2int,
{
    if elems.len() == 0 {
        Ok(seq![EMPTY_TUPLE])
    } else {
        encode_many(elems, SHORT_TUPLE, LONG_TUPLE)
    }
}

/// Counted elements: up to 15 the tag `16 * count + short_id`; from 16 on
/// the tag `long_id` and the count less 16 as an RLP byte array; then the
/// elements.
pub open spec fn encode_many(elems: Seq<FateValue>, short_id: u8, long_id: u8) -> Result<
    Seq<u8>,
    SerErr,
>
    decreases elems, 1int,
{
    match encode_values(elems) {
        Err(e) => Err(e),
        Ok(bytes) => if elems.len() < 16 {
            Ok(seq![(16 * elems.len() + short_id) as u8] + bytes)
        } else {
            Ok(seq![long_id] + encode_bytes(be_bytes((elems.len() - 16) as nat)) + bytes)
        },
    }
}

/// The encodings of a sequence of values back to back, or the error of the
/// first that has none.
pub open spec fn encode_values(elems: Seq<FateValue>) -> Result<Seq<u8>, SerErr>
    decreases elems, 0int,
{
    if elems.len() == 0 {
        Ok(Seq::empty())
    } else {
        match encode_value(elems[0]) {
            Err(e) => Err(e),
            Ok(first) => match encode_values(elems.drop_first()) {
                Err(e) => Err(e),
                Ok(rest) => Ok(first + rest),
            },
        }
    }
}

/// The encodings of the keys and values of a sequence of entries back to
/// back, or the first error.
pub open spec fn encode_entries(entries: Seq<(FateValue, FateValue)>) -> Result<Seq<u8>, SerErr>
    decreases entries,
{
    if entries.len() == 0 {
        Ok(Seq::empty())
    } else {
        match encode_value(entries[0].0) {
            Err(e) => Err(e),
            Ok(key) => match encode_value(entries[0].1) {
                Err(e) => Err(e),
                Ok(val) => match encode_entries(entries.drop_first()) {
                    Err(e) => Err(e),
                    Ok(rest) => Ok(key + val + rest),
                },
            },
        }
    }
}

/// The two byte vectors one after the other.
pub fn concat(first: Vec<u8>, second: Vec<u8>) -> (out: Vec<u8>)
    ensures
        out@ == first@ + second@,
{
    let mut out = first;
    let mut second = second;
    out.append(&mut second);
    out
}

/// The number of the kind that a value is of.
fn kind_of(v: &Value) -> (out: u8)
    ensures
        out == kind(v@),
{
    match v {
        Value::Boolean(_) => 0,
        Value::Integer(_) => 1,
        Value::Bits(_) => 2,
        Value::List(_) => 3,
        Value::Tuple(_) => 4,
        Value::String(_) => 5,
        Value::Bytes(_) => 6,
        Value::Address(_) => 7,
        Value::Contract(_) => 8,
        Value::Oracle(_) => 9,
        Value::OracleQuery(_) => 10,
        Value::Channel(_) => 11,
        Value::ContractBytearray(_) => 12,
        Value::Typerep(_) => 13,
        Value::Mapping(_) => 14,
        Value::StoreMap { .. } => 15,
        Value::Variant { .. } => 16,
    }
}

/// Looks for what makes a map unfit for serialization.
fn check_map(entries: &Vec<(Value, Value)>) -> (out: Option<SerErr>)
    ensures
        out == map_fault(fate_entries_of(entries@)),
{
    let ghost model = fate_entries_of(entries@);
    if entries.len() == 0 {
        return None;
    }
    let mut i: usize = 0;
    while i < entries.len()
        invariant
            i <= entries.len(),
            model == fate_entries_of(entries@),
            forall|j: int| 0 <= j < i ==> !(#[trigger] model[j].0 is Mapping),
        decreases entries.len() - i,
    {
        assert(model[i as int].0 == entries@[i as int].0@);
        if kind_of(&entries[i].0) == 14 {
            return Some(SerErr::MapAsKeyType);
        }
        i += 1;
    }
    let key_kind: u8 = kind_of(&entries[0].0);
    let val_kind: u8 = kind_of(&entries[0].1);
    assert(model[0].0 == entries@[0].0@ && model[0].1 == entries@[0].1@);
    i = 0;
    while i < entries.len()
        invariant
            i <= entries.len(),
            model == fate_entries_of(entries@),
            key_kind == kind(model[0].0),
            forall|j: int| 0 <= j < model.len() ==> !(#[trigger] model[j].0 is Mapping),
            forall|j: int| 0 <= j < i ==> kind(#[trigger] model[j].0) == key_kind,
        decreases entries.len() - i,
    {
        assert(model[i as int].0 == entries@[i as int].0@);
        if kind_of(&entries[i].0) != key_kind {
            return Some(SerErr::HeteroMapKeys);
        }
        i += 1;
    }
    i = 0;
    while i < entries.len()
        invariant
            i <= entries.len(),
            model == fate_entries_of(entries@),
            val_kind == kind(model[0].1),
            forall|j: int| 0 <= j < model.len() ==> !(#[trigger] model[j].0 is Mapping),
            forall|j: int| 0 <= j < model.len() ==> kind(#[trigger] model[j].0) == kind(model[0].0),
            forall|j: int| 0 <= j < i ==> kind(#[trigger] model[j].1) == val_kind,
        decreases entries.len() - i,
    {
        assert(model[i as int].1 == entries@[i as int].1@);
        if kind_of(&entries[i].1) != val_kind {
            return Some(SerErr::HeteroMapValues);
        }
        i += 1;
    }
    None
}

/// Serializes a string.
fn serialize_string(bytes: &Vec<u8>) -> (out: Vec<u8>)
    ensures
        out@ == encode_string(bytes@),
{
    if bytes.len() == 0 {
        vec![EMPTY_STRING]
    } else if bytes.len() < SHORT_STRING_SIZE {
        let size: u8 = bytes.len() as u8;
        assert(((size << 2) | 1u8) == 4 * size + 1) by (bit_vector)
            requires
                size < 64,
        ;
        concat(vec![(size << 2) | SHORT_STRING], copy_bytes(bytes))
    } else {
        let length = serialize_int(&Int::from_usize(bytes.len() - SHORT_STRING_SIZE));
        concat(concat(vec![LONG_STRING], length), copy_bytes(bytes))
    }
}

/// Serializes an object of the given kind around an address.
fn serialize_address_object(address: &Vec<u8>, object_id: u8) -> (out: Vec<u8>)
    ensures
        out@ == encode_object(object_id, address@),
{
    concat(vec![OBJECT, object_id], RlpItem::ByteArray(copy_bytes(address)).serialize())
}

/// Serializes a number as an RLP byte array of its minimal bytes.
fn serialize_count(n: usize) -> (out: Vec<u8>)
    ensures
        out@ == encode_bytes(be_bytes(n as nat)),
{
    RlpItem::ByteArray(usize_to_min_be_bytes(n)).serialize()
}

/// Serializes the values of a vector back to back.
fn serialize_values(elems: &Vec<Value>) -> (out: Result<Vec<u8>, SerErr>)
    ensures
        match encode_values(fate_values_of(elems@)) {
            Ok(bytes) => out matches Ok(v) && v@ == bytes,
            Err(e) => out == Err::<Vec<u8>, SerErr>(e),
        },
    decreases elems, 0int,
{
    let ghost all = fate_values_of(elems@);
    let mut out: Vec<u8> = Vec::new();
    let mut i: usize = 0;
    assert(all.skip(0) =~= all);
    while i < elems.len()
        invariant
            i <= elems.len(),
            all == fate_values_of(elems@),
            match encode_values(all.skip(i as int)) {
                Ok(rest) => encode_values(all) == Ok::<Seq<u8>, SerErr>(out@ + rest),
                Err(e) => encode_values(all) == Err::<Seq<u8>, SerErr>(e),
            },
        decreases elems.len() - i,
    {
        proof {
            let tail = all.skip(i as int);
            assert(tail[0] == elems@[i as int]@);
            assert(tail.drop_first() =~= all.skip(i + 1));
        }
        match elems[i].serialize() {
            Err(e) => {
                return Err(e);
            },
            Ok(one) => {
                proof {
                    match encode_values(all.skip(i + 1)) {
                        Ok(rest) => {
                            assert((out@ + one@) + rest =~= out@ + (one@ + rest));
                        },
                        Err(_) => {},
                    }
                }
                out = concat(out, one);
            },
        }
        i += 1;
    }
    assert(out@ + Seq::<u8>::empty() =~= out@);
    Ok(out)
}

/// Serializes the keys and values of a vector of entries back to back.
fn serialize_entries(entries: &Vec<(Value, Value)>) -> (out: Result<Vec<u8>, SerErr>)
    ensures
        match encode_entries(fate_entries_of(entries@)) {
            Ok(bytes) => out matches Ok(v) && v@ == bytes,
            Err(e) => out == Err::<Vec<u8>, SerErr>(e),
        },
    decreases entries,
{
    let ghost all = fate_entries_of(entries@);
    let mut out: Vec<u8> = Vec::new();
    let mut i: usize = 0;
    assert(all.skip(0) =~= all);
    while i < entries.len()
        invariant
            i <= entries.len(),
            all == fate_entries_of(entries@),
            match encode_entries(all.skip(i as int)) {
                Ok(rest) => encode_entries(all) == Ok::<Seq<u8>, SerErr>(out@ + rest),
                Err(e) => encode_entries(all) == Err::<Seq<u8>, SerErr>(e),
            },
        decreases entries.len() - i,
    {
        proof {
            let tail = all.skip(i as int);
            assert(tail[0].0 == entries@[i as int].0@);
            assert(tail[0].1 == entries@[i as int].1@);
            assert(tail.drop_first() =~= all.skip(i + 1));
        }
        let key = match entries[i].0.serialize() {
            Err(e) => {
                return Err(e);
            },
            Ok(key) => key,
        };
        let val = match entries[i].1.serialize() {
            Err(e) => {
                return Err(e);
            },
            Ok(val) => val,
        };
        proof {
            match encode_entries(all.skip(i + 1)) {
                Ok(rest) => {
                    assert((out@ + (key@ + val@)) + rest =~= out@ + (key@ + val@ + rest));
                },
                Err(_) => {},
            }
        }
        out = concat(out, concat(key, val));
        i += 1;
    }
    assert(out@ + Seq::<u8>::empty() =~= out@);
    Ok(out)
}

/// Serializes counted elements, with the count in the tag while it is
/// below `short_size`.
fn serialize_many(elems: &Vec<Value>, short_size: usize, short_id: u8, long_id: u8) -> (out:
    Result<Vec<u8>, SerErr>)
    requires
        short_size == 16,
        short_id < 16,
    ensures
        match encode_many(fate_values_of(elems@), short_id, long_id) {
            Ok(bytes) => out matches Ok(v) && v@ == bytes,
            Err(e) => out == Err::<Vec<u8>, SerErr>(e),
        },
    decreases elems, 1int,
{
    let body = match serialize_values(elems) {
        Err(e) => {
            return Err(e);
        },
        Ok(body) => body,
    };
    if elems.len() < short_size {
        let size: u8 = elems.len() as u8;
        assert(((size << 4) | short_id) == 16 * size + short_id) by (bit_vector)
            requires
                size < 16,
                short_id < 16,
        ;
        Ok(concat(vec![(size << 4) | short_id], body))
    } else {
        let size = serialize_count(elems.len() - short_size);
        Ok(concat(concat(vec![long_id], size), body))
    }
}

/// Serializes a tuple with the given elements.
fn serialize_tuple(elems: &Vec<Value>) -> (out: Result<Vec<u8>, SerErr>)
    ensures
        match encode_tuple(fate_values_of(elems@)) {
            Ok(bytes) => out matches Ok(v) && v@ == bytes,
            Err(e) => out == Err::<Vec<u8>, SerErr>(e),
        },
    decreases elems, 2int,
{
    if elems.len() == 0 {
        Ok(vec![EMPTY_TUPLE])
    } else {
        serialize_many(elems, SHORT_TUPLE_SIZE, SHORT_TUPLE, LONG_TUPLE)
    }
}

impl Value {
    /// Serializes the value, or says why it cannot be serialized.
    pub fn serialize(&self) -> (out: Result<Vec<u8>, SerErr>)
        ensures
            match encode_value(self@) {
                Ok(bytes) => out matches Ok(v) && v@ == bytes,
                Err(e) => out == Err::<Vec<u8>, SerErr>(e),
            },
        decreases self,
    {
        match self {
            Value::Boolean(b) => Ok(
                vec![if *b {
                    TRUE
                } else {
                    FALSE
                }],
            ),
            Value::Integer(x) => Ok(serialize_int(x)),
            Value::Bits(x) => {
                let bits_byte: u8 = if x.is_negative() {
                    NEG_BITS
                } else {
                    POS_BITS
                };
                Ok(
                    concat(
                        vec![bits_byte],
                        RlpItem::ByteArray(copy_bytes(x.magnitude())).serialize(),
                    ),
                )
            },
            Value::String(bytes) => Ok(serialize_string(bytes)),
            Value::Tuple(elems) => serialize_tuple(elems),
            Value::List(elems) => serialize_many(elems, SHORT_LIST_SIZE, SHORT_LIST, LONG_LIST),
            Value::Bytes(bytes) => Ok(concat(vec![OBJECT, OTYPE_BYTES], serialize_string(bytes))),
            Value::Address(address) => Ok(serialize_address_object(address, OTYPE_ADDRESS)),
            Value::Contract(address) => Ok(serialize_address_object(address, OTYPE_CONTRACT)),
            Value::Oracle(address) => Ok(serialize_address_object(address, OTYPE_ORACLE)),
            Value::OracleQuery(address) => Ok(
                serialize_address_object(address, OTYPE_ORACLE_QUERY),
            ),
            Value::Channel(address) => Ok(serialize_address_object(address, OTYPE_CHANNEL)),
            Value::ContractBytearray(bytes) => {
                let length = serialize_int(&Int::from_usize(bytes.len()));
                Ok(concat(concat(vec![CONTRACT_BYTEARRAY], length), copy_bytes(bytes)))
            },
            Value::Typerep(t) => t.serialize(),
            Value::Mapping(entries) => {
                match check_map(entries) {
                    Some(e) => Err(e),
                    None => match serialize_entries(entries) {
                        Ok(body) => Ok(
                            concat(concat(vec![MAP], serialize_count(entries.len())), body),
                        ),
                        Err(e) => Err(e),
                    },
                }
            },
            Value::StoreMap { cache, id } => {
                if cache.len() == 0 {
                    let id_bytes = RlpItem::ByteArray(
                        crate::bytes::u64_to_min_be_bytes(*id as u64),
                    ).serialize();
                    Ok(concat(vec![MAP_ID], id_bytes))
                } else {
                    Err(SerErr::NonEmptyStoreMapCache)
                }
            },
            Value::Variant { arities, tag, values } => {
                if (*tag as usize) < arities.len() {
                    let arity: usize = arities[*tag as usize] as usize;
                    if values.len() == arity {
                        let encoded_arities = RlpItem::ByteArray(copy_bytes(arities)).serialize();
                        match serialize_tuple(values) {
                            Ok(body) => Ok(
                                concat(
                                    concat(concat(vec![VARIANT], encoded_arities), vec![*tag]),
                                    body,
                                ),
                            ),
                            Err(e) => Err(e),
                        }
                    } else {
                        Err(SerErr::ArityValuesMismatch)
                    }
                } else {
                    Err(SerErr::InvalidVariantTag)
                }
            },
        }
    }
}

/// What decoding the RLP byte array at the start of `s` gives: its bytes
/// and the number of bytes it occupies, or the error. An RLP list is not
/// accepted.
pub open spec fn parse_rlp_bytes(s: Seq<u8>) -> Result<(Seq<u8>, int), DeserErr> {
    match crate::rlp::parse(s, 0) {
        Err(e) => Err(DeserErr::RlpErr(e)),
        Ok((RlpTree::Bytes(bytes), n)) => Ok((bytes, n)),
        Ok((RlpTree::List(_), _)) => Err(
            DeserErr::ExternalErr(crate::error::DecodingErr::InvalidBinary),
        ),
    }
}

/// What decoding counted elements gives, where `head` bytes of tag and
/// count come first and `count` elements follow.
pub open spec fn parse_counted(count: nat, s: Seq<u8>, head: int) -> Result<
    (Seq<FateValue>, int),
    DeserErr,
>
    decreases s.len(), 0int, 0int,
{
    if 0 < head <= s.len() {
        match parse_values(count, s.skip(head)) {
            Err(e) => Err(e),
            Ok((elems, n)) => Ok((elems, head + n)),
        }
    } else {
        // never so: what is decoded is at least one byte and no more than there are
        Err(DeserErr::Empty)
    }
}

/// What decoding the value at the start of `s` gives: the value and the
/// number of bytes it occupies, or the error.
///
/// The first byte decides. The sixteen fixed tags are looked for first;
/// then the byte is taken as a small integer (even bytes), a short string
/// (bits `01`), a short tuple (bits `1011`), a short list (bits `0011`) or
/// the start of a type, in that order.
///
/// - A big integer is 64 more in magnitude than the number in its RLP byte
///   array, which may have leading zeros.
/// - The count of a long tuple or list is 16 more than the number in its RLP
///   byte array and has to fit the machine, as has the number of entries of
///   a map; the id of a store map has to fit 32 bits.
/// - The length of a long string is 64 more than the integer that follows
///   the tag, that of a contract byte array is the integer itself; the
///   integer must not be negative and the bytes must be there.
/// - An object needs at least three bytes. The id byte 1 announces a
///   string; the id bytes 0, 2, 3, 4 and 5 announce an RLP byte array, which
///   is decoded before the id byte is looked at.
/// - The entries of a map are entered into an ordered map one after the
///   other; every key must be comparable.
/// - The tag of a variant must select one of its arities, and the tuple that
///   follows must have that many elements.
pub open spec fn parse_value(s: Seq<u8>) -> Result<(FateValue, int), DeserErr>
    decreases s.len(), 1int, 0int,
{
    if s.len() == 0 {
        Err(DeserErr::Empty)
    } else if s[0] == TRUE {
        Ok((FateValue::Boolean(true), 1))
    } else if s[0] == FALSE {
        Ok((FateValue::Boolean(false), 1))
    } else if s[0] == EMPTY_TUPLE {
        Ok((FateValue::Tuple(Seq::empty()), 1))
    } else if s[0] == EMPTY_STRING {
        Ok((FateValue::String(Seq::empty()), 1))
    } else if s[0] == NEG_BIG_INT || s[0] == POS_BIG_INT {
        match parse_rlp_bytes(s.skip(1)) {
            Err(e) => Err(e),
            Ok((decoded, n)) => Ok(
                (FateValue::Integer(signed(s[0] == NEG_BIG_INT, be_nat(decoded) + 64)), 1 + n),
            ),
        }
    } else if s[0] == NEG_BITS || s[0] == POS_BITS {
        match parse_rlp_bytes(s.skip(1)) {
            Err(e) => Err(e),
            Ok((decoded, n)) => Ok(
                (FateValue::Bits(signed(s[0] == NEG_BITS, be_nat(decoded))), 1 + n),
            ),
        }
    } else if s[0] == LONG_TUPLE || s[0] == LONG_LIST {
        match parse_rlp_bytes(s.skip(1)) {
            Err(e) => Err(e),
            Ok((decoded, n)) => if be_nat(decoded) + 16 > usize::MAX {
                Err(
                    if s[0] == LONG_TUPLE {
                        DeserErr::InvalidTupleSize
                    } else {
                        DeserErr::InvalidListSize
                    },
                )
            } else {
                match parse_counted(be_nat(decoded) + 16, s, 1 + n) {
                    Err(e) => Err(e),
                    Ok((elems, m)) => Ok(
                        (
                            if s[0] == LONG_TUPLE {
                                FateValue::Tuple(elems)
                            } else {
                                FateValue::List(elems)
                            },
                            m,
                        ),
                    ),
                }
            },
        }
    } else if s[0] == LONG_STRING || s[0] == CONTRACT_BYTEARRAY {
        let long_string = s[0] == LONG_STRING;
        let fault = if long_string {
            DeserErr::InvalidString
        } else {
            DeserErr::InvalidContractBytearray
        };
        let extra: int = if long_string {
            64
        } else {
            0
        };
        match parse_value(s.skip(1)) {
            Err(e) => Err(e),
            Ok((FateValue::Integer(n), k)) => {
                let from = 1 + k;
                let size = n + extra;
                if 0 <= n && 0 < from && from + size <= s.len() {
                    let bytes = s.subrange(from, from + size);
                    Ok(
                        (
                            if long_string {
                                FateValue::String(bytes)
                            } else {
                                FateValue::ContractBytearray(bytes)
                            },
                            from + size,
                        ),
                    )
                } else {
                    Err(fault)
                }
            },
            Ok(_) => Err(fault),
        }
    } else if s[0] == OBJECT {
        if s.len() < 3 {
            Err(DeserErr::InvalidObject)
        } else if s[1] == OTYPE_BYTES {
            match parse_value(s.skip(2)) {
                Err(e) => Err(e),
                Ok((FateValue::String(bytes), k)) => Ok((FateValue::Bytes(bytes), 2 + k)),
                Ok(_) => Err(DeserErr::InvalidBytesObject),
            }
        } else {
            match parse_rlp_bytes(s.skip(2)) {
                Err(e) => Err(e),
                Ok((decoded, n)) => if s[1] == OTYPE_ADDRESS {
                    Ok((FateValue::Address(decoded), 2 + n))
                } else if s[1] == OTYPE_CONTRACT {
                    Ok((FateValue::Contract(decoded), 2 + n))
                } else if s[1] == OTYPE_ORACLE {
                    Ok((FateValue::Oracle(decoded), 2 + n))
                } else if s[1] == OTYPE_ORACLE_QUERY {
                    Ok((FateValue::OracleQuery(decoded), 2 + n))
                } else if s[1] == OTYPE_CHANNEL {
                    Ok((FateValue::Channel(decoded), 2 + n))
                } else {
                    Err(DeserErr::InvalidObjectByte(s[1]))
                },
            }
        }
    } else if s[0] == MAP {
        match parse_rlp_bytes(s.skip(1)) {
            Err(e) => Err(e),
            Ok((decoded, n)) => if be_nat(decoded) > usize::MAX {
                Err(DeserErr::InvalidMapSize)
            } else if 0 < 1 + n <= s.len() {
                match parse_entries(be_nat(decoded), s.skip(1 + n)) {
                    Err(e) => Err(e),
                    Ok((raw, m)) => if keys_comparable(raw) {
                        Ok((FateValue::Mapping(collect_entries(raw)), 1 + n + m))
                    } else {
                        Err(DeserErr::IncomparableMapKey)
                    },
                }
            } else {
                // never so: what is decoded is at least one byte and no more than there are
                Err(DeserErr::Empty)
            },
        }
    } else if s[0] == MAP_ID {
        match parse_rlp_bytes(s.skip(1)) {
            Err(e) => Err(e),
            Ok((decoded, n)) => if be_nat(decoded) > u32::MAX {
                Err(DeserErr::InvalidMapId)
            } else {
                Ok(
                    (
                        FateValue::StoreMap { cache: Seq::empty(), id: be_nat(decoded) as u32 },
                        1 + n,
                    ),
                )
            },
        }
    } else if s[0] == VARIANT {
        match parse_rlp_bytes(s.skip(1)) {
            Err(e) => Err(e),
            Ok((arities, n)) => {
                let at = 1 + n;
                if !(0 < at < s.len()) {
                    Err(DeserErr::BadVariant)
                } else if s[at] >= arities.len() {
                    Err(DeserErr::TooLargeTagInVariant)
                } else {
                    match parse_value(s.skip(at + 1)) {
                        Err(e) => Err(e),
                        Ok((FateValue::Tuple(elems), k)) => if arities[s[at] as int]
                            == elems.len() {
                            Ok(
                                (
                                    FateValue::Variant { arities, tag: s[at], values: elems },
                                    at + 1 + k,
                                ),
                            )
                        } else {
                            Err(DeserErr::TagDoesNotMatchTypeInVariant)
                        },
                        Ok(_) => Err(DeserErr::BadVariant),
                    }
                }
            },
        }
    } else if small_pos_int_tag(s[0]) || small_neg_int_tag(s[0]) {
        Ok((FateValue::Integer(signed(s[0] >= 128, ((s[0] % 128) / 2) as nat)), 1))
    } else if short_string_tag(s[0]) {
        let size = s[0] / 4;
        if s.len() < size + 1 {
            Err(DeserErr::InvalidString)
        } else {
            Ok((FateValue::String(s.subrange(1, size + 1)), size + 1))
        }
    } else if short_tuple_tag(s[0]) || short_list_tag(s[0]) {
        match parse_counted((s[0] / 16) as nat, s, 1) {
            Err(e) => Err(e),
            Ok((elems, m)) => Ok(
                (
                    if short_tuple_tag(s[0]) {
                        FateValue::Tuple(elems)
                    } else {
                        FateValue::List(elems)
                    },
                    m,
                ),
            ),
        }
    } else if type_tag(s[0]) {
        match parse_type(s) {
            Err(e) => Err(e),
            Ok((t, n)) => Ok((FateValue::Typerep(t), n)),
        }
    } else {
        Err(DeserErr::InvalidIdByte(s[0]))
    }
}

/// What decoding `count` values back to back at the start of `s` gives: the
/// values and the number of bytes they occupy, or the first error.
pub open spec fn parse_values(count: nat, s: Seq<u8>) -> Result<(Seq<FateValue>, int), DeserErr>
    decreases s.len(), 2int, count,
{
    if count == 0 {
        Ok((Seq::empty(), 0))
    } else {
        match parse_value(s) {
            Err(e) => Err(e),
            Ok((first, n)) => if 0 <= n <= s.len() {
                match parse_values((count - 1) as nat, s.skip(n)) {
                    Err(e) => Err(e),
                    Ok((rest, m)) => Ok((seq![first] + rest, n + m)),
                }
            } else {
                // never so: what is decoded is at least one byte and no more than there are
                Err(DeserErr::Empty)
            },
        }
    }
}

/// What decoding `count` keys, each with its value, back to back at the
/// start of `s` gives: the entries in the order of the input and the number
/// of bytes they occupy, or the first error.
pub open spec fn parse_entries(count: nat, s: Seq<u8>) -> Result<
    (Seq<(FateValue, FateValue)>, int),
    DeserErr,
>
    decreases s.len(), 2int, count,
{
    if count == 0 {
        Ok((Seq::empty(), 0))
    } else {
        match parse_value(s) {
            Err(e) => Err(e),
            Ok((key, n)) => if 0 <= n <= s.len() {
                match parse_value(s.skip(n)) {
                    Err(e) => Err(e),
                    Ok((val, m)) => if 0 <= m <= s.len() - n {
                        match parse_entries((count - 1) as nat, s.skip(n + m)) {
                            Err(e) => Err(e),
                            Ok((rest, k)) => Ok((seq![(key, val)] + rest, n + m + k)),
                        }
                    } else {
                        // never so: what is decoded is at least one byte and no more than there are
                        Err(DeserErr::Empty)
                    },
                }
            } else {
                // never so: what is decoded is at least one byte and no more than there are
                Err(DeserErr::Empty)
            },
        }
    }
}

/// Decodes an RLP byte array at the start of `bytes` and gives its bytes
/// with what is behind it.
fn rlp_decode_bytes(bytes: &[u8]) -> (out: Result<(Vec<u8>, &[u8]), DeserErr>)
    ensures
        match parse_rlp_bytes(bytes@) {
            Ok((decoded, n)) => out matches Ok((v, rest)) && v@ == decoded && rest@
                == bytes@.skip(n) && 0 < n <= bytes@.len(),
            Err(e) => out == Err::<(Vec<u8>, &[u8]), DeserErr>(e),
        },
{
    proof {
        crate::rlp::lemma_parse_consumed(bytes@, 0);
    }
    match RlpItem::try_deserialize(bytes) {
        Err(e) => Err(DeserErr::RlpErr(e)),
        Ok((item, rest)) => match item {
            RlpItem::ByteArray(decoded) => Ok((decoded, rest)),
            RlpItem::List(_) => Err(
                DeserErr::ExternalErr(crate::error::DecodingErr::InvalidBinary),
            ),
        },
    }
}

/// The number that `bytes` denote plus `extra`, where that fits the machine.
fn size_of(bytes: &Vec<u8>, extra: usize) -> (out: Option<usize>)
    requires
        extra <= 64,
    ensures
        out == (if be_nat(bytes@) + extra <= usize::MAX {
            Some((be_nat(bytes@) + extra) as usize)
        } else {
            None
        }),
{
    match big_to_u64(bytes.as_slice()) {
        None => None,
        Some(n) => {
            if n <= (usize::MAX - extra) as u64 {
                Some(n as usize + extra)
            } else {
                None
            }
        },
    }
}

/// Decodes `n` values back to back.
fn deserialize_many(n: usize, bytes: &[u8]) -> (out: Result<(Vec<Value>, &[u8]), DeserErr>)
    ensures
        match parse_values(n as nat, bytes@) {
            Ok((values, m)) => out matches Ok((decoded, rest)) && fate_values_of(decoded@)
                == values && rest@ == bytes@.skip(m) && 0 <= m <= bytes@.len(),
            Err(e) => out == Err::<(Vec<Value>, &[u8]), DeserErr>(e),
        },
    decreases bytes@.len(), 2int, n,
{
    let mut rest = bytes;
    let mut elems: Vec<Value> = Vec::new();
    let mut i: usize = 0;
    let ghost consumed: int = 0;
    proof {
        assert(bytes@.skip(0) =~= bytes@);
        assert(fate_values_of(elems@) =~= Seq::<FateValue>::empty());
        match parse_values(n as nat, bytes@) {
            Ok((all, m)) => {
                assert(fate_values_of(elems@) + all =~= all);
            },
            Err(_) => {},
        }
    }
    while i < n
        invariant
            i <= n,
            0 <= consumed <= bytes@.len(),
            rest@ == bytes@.skip(consumed),
            match parse_values((n - i) as nat, rest@) {
                Ok((more, m)) => parse_values(n as nat, bytes@) == Ok::<
                    (Seq<FateValue>, int),
                    DeserErr,
                >((fate_values_of(elems@) + more, consumed + m)),
                Err(e) => parse_values(n as nat, bytes@) == Err::<(Seq<FateValue>, int), DeserErr>(
                    e,
                ),
            },
        decreases n - i,
    {
        let ghost before = fate_values_of(elems@);
        match Value::try_deserialize(rest) {
            Err(e) => {
                return Err(e);
            },
            Ok((v, next)) => {
                proof {
                    let k = rest@.len() - next@.len();
                    assert(bytes@.skip(consumed).skip(k) =~= bytes@.skip(consumed + k));
                    match parse_values((n - i - 1) as nat, next@) {
                        Ok((more, m)) => {
                            assert(fate_values_of(elems@.push(v)) + more =~= before + (seq![v@]
                                + more));
                        },
                        Err(_) => {},
                    }
                    consumed = consumed + k;
                }
                elems.push(v);
                rest = next;
            },
        }
        i += 1;
    }
    proof {
        assert(fate_values_of(elems@) + Seq::<FateValue>::empty() =~= fate_values_of(elems@));
    }
    Ok((elems, rest))
}

/// Decodes `n` keys, each with its value, and enters them into an ordered
/// map one after the other.
#[verifier::rlimit(50)]
fn deserialize_entries(n: usize, bytes: &[u8]) -> (out: Result<
    (Vec<(Value, Value)>, &[u8]),
    DeserErr,
>)
    ensures
        match parse_entries(n as nat, bytes@) {
            Ok((raw, m)) => if keys_comparable(raw) {
                out matches Ok((entries, rest)) && fate_entries_of(entries@) == collect_entries(
                    raw,
                ) && rest@ == bytes@.skip(m) && 0 <= m <= bytes@.len()
            } else {
                out == Err::<(Vec<(Value, Value)>, &[u8]), DeserErr>(DeserErr::IncomparableMapKey)
            },
            Err(e) => out == Err::<(Vec<(Value, Value)>, &[u8]), DeserErr>(e),
        },
    decreases bytes@.len(), 2int, n,
{
    let mut rest = bytes;
    let mut entries: Vec<(Value, Value)> = Vec::new();
    let mut ordered: bool = true;
    let mut i: usize = 0;
    let ghost consumed: int = 0;
    let ghost raw: Seq<(FateValue, FateValue)> = Seq::empty();
    proof {
        assert(bytes@.skip(0) =~= bytes@);
        assert(fate_entries_of(entries@) =~= collect_entries(raw));
        match parse_entries(n as nat, bytes@) {
            Ok((all, m)) => {
                assert(raw + all =~= all);
            },
            Err(_) => {},
        }
    }
    while i < n
        invariant
            i <= n,
            0 <= consumed <= bytes@.len(),
            rest@ == bytes@.skip(consumed),
            match parse_entries((n - i) as nat, rest@) {
                Ok((more, m)) => parse_entries(n as nat, bytes@) == Ok::<
                    (Seq<(FateValue, FateValue)>, int),
                    DeserErr,
                >((raw + more, consumed + m)),
                Err(e) => parse_entries(n as nat, bytes@) == Err::<
                    (Seq<(FateValue, FateValue)>, int),
                    DeserErr,
                >(e),
            },
            ordered == keys_comparable(raw),
            ordered ==> fate_entries_of(entries@) == collect_entries(raw),
            ordered ==> keys_comparable(collect_entries(raw)),
        decreases n - i,
    {
        let (key, after_key) = match Value::try_deserialize(rest) {
            Err(e) => {
                return Err(e);
            },
            Ok(pair) => pair,
        };
        let (val, next) = match Value::try_deserialize(after_key) {
            Err(e) => {
                return Err(e);
            },
            Ok(pair) => pair,
        };
        proof {
            let k = rest@.len() - after_key@.len();
            let l = after_key@.len() - next@.len();
            assert(rest@.skip(k).skip(l) =~= rest@.skip(k + l));
            assert(bytes@.skip(consumed).skip(k + l) =~= bytes@.skip(consumed + k + l));
            let grown = raw.push((key@, val@));
            assert(grown.drop_last() =~= raw);
            match parse_entries((n - i - 1) as nat, next@) {
                Ok((more, m)) => {
                    assert(grown + more =~= raw + (seq![(key@, val@)] + more));
                },
                Err(_) => {},
            }
            crate::data::order::lemma_keys_comparable_push(raw, key@, val@);
            if keys_comparable(grown) {
                crate::data::ordering::lemma_collect_is_sorted(grown);
            }
            consumed = consumed + k + l;
            raw = grown;
        }
        if ordered {
            if is_comparable(&key) {
                insert(&mut entries, key, val);
            } else {
                ordered = false;
            }
        }
        rest = next;
        i += 1;
    }
    proof {
        assert(raw + Seq::<(FateValue, FateValue)>::empty() =~= raw);
    }
    if ordered {
        Ok((entries, rest))
    } else {
        Err(DeserErr::IncomparableMapKey)
    }
}

impl Value {
    /// Decodes `bytes` as exactly one value. Bytes behind the value give
    /// `Trailing`, with the input, the bytes left over and the value.
    pub fn deserialize(bytes: &[u8]) -> (out: Result<Value, DeserErr>)
        ensures
            match parse_value(bytes@) {
                Ok((v, n)) => if n == bytes@.len() {
                    out matches Ok(decoded) && decoded@ == v
                } else {
                    out matches Err(DeserErr::Trailing { input, undecoded, decoded }) && input@
                        == bytes@ && undecoded@ == bytes@.skip(n) && decoded@ == v
                },
                Err(e) => out == Err::<Value, DeserErr>(e),
            },
    {
        match Value::try_deserialize(bytes) {
            Err(e) => Err(e),
            Ok((value, rest)) => {
                if rest.len() == 0 {
                    Ok(value)
                } else {
                    Err(
                        DeserErr::Trailing {
                            input: vstd::slice::slice_to_vec(bytes),
                            undecoded: vstd::slice::slice_to_vec(rest),
                            decoded: value,
                        },
                    )
                }
            },
        }
    }

    /// Decodes the value at the start of `bytes` and gives it with the bytes
    /// behind it, or the decoding error.
    pub fn try_deserialize(bytes: &[u8]) -> (out: Result<(Value, &[u8]), DeserErr>)
        ensures
            match parse_value(bytes@) {
                Ok((v, n)) => out matches Ok((decoded, rest)) && decoded@ == v && rest@
                    == bytes@.skip(n) && 0 < n <= bytes@.len(),
                Err(e) => out == Err::<(Value, &[u8]), DeserErr>(e),
            },
        decreases bytes@.len(), 1int, 0int,
    {
        if bytes.len() == 0 {
            return Err(DeserErr::Empty);
        }
        let tag: u8 = bytes[0];
        if tag == TRUE {
            Ok((Value::Boolean(true), tail_of(bytes, 1)))
        } else if tag == FALSE {
            Ok((Value::Boolean(false), tail_of(bytes, 1)))
        } else if tag == EMPTY_TUPLE {
            let elems: Vec<Value> = Vec::new();
            assert(fate_values_of(elems@) =~= Seq::<FateValue>::empty());
            Ok((Value::Tuple(elems), tail_of(bytes, 1)))
        } else if tag == EMPTY_STRING {
            Ok((Value::String(Vec::new()), tail_of(bytes, 1)))
        } else if tag == NEG_BIG_INT || tag == POS_BIG_INT || tag == NEG_BITS || tag == POS_BITS {
            Value::deserialize_number(bytes)
        } else if tag == LONG_TUPLE || tag == LONG_LIST {
            Value::deserialize_long(bytes)
        } else if tag == LONG_STRING || tag == CONTRACT_BYTEARRAY {
            Value::deserialize_sized(bytes)
        } else if tag == OBJECT {
            Value::deserialize_object(bytes)
        } else if tag == MAP || tag == MAP_ID {
            Value::deserialize_map(bytes)
        } else if tag == VARIANT {
            Value::deserialize_variant(bytes)
        } else {
            Value::deserialize_short(bytes)
        }
    }

    /// Decodes a big integer or bits; `bytes` starts with one of their tags.
    fn deserialize_number(bytes: &[u8]) -> (out: Result<(Value, &[u8]), DeserErr>)
        requires
            bytes@.len() > 0,
            bytes@[0] == NEG_BIG_INT || bytes@[0] == POS_BIG_INT || bytes@[0] == NEG_BITS || bytes@[0]
                == POS_BITS,
        ensures
            match parse_value(bytes@) {
                Ok((v, n)) => out matches Ok((decoded, rest)) && decoded@ == v && rest@
                    == bytes@.skip(n) && 0 < n <= bytes@.len(),
                Err(e) => out == Err::<(Value, &[u8]), DeserErr>(e),
            },
        decreases bytes@.len(), 0int, 1int,
    {
        let tag: u8 = bytes[0];
        let ghost s = bytes@;
        if tag == NEG_BIG_INT || tag == POS_BIG_INT {
            match rlp_decode_bytes(tail_of(bytes, 1)) {
                Err(e) => Err(e),
                Ok((decoded, rest)) => {
                    proof {
                        let n = s.len() - 1 - rest@.len();
                        assert(s.skip(1).skip(n) =~= s.skip(1 + n));
                        lemma_be_bytes_value(be_nat(decoded@) + 64);
                    }
                    let magnitude = big_add(decoded.as_slice(), SMALL_INT_SIZE as u64);
                    Ok(
                        (
                            Value::Integer(
                                Int::from_be_bytes(tag == NEG_BIG_INT, magnitude.as_slice()),
                            ),
                            rest,
                        ),
                    )
                },
            }
        } else if tag == NEG_BITS || tag == POS_BITS {
            match rlp_decode_bytes(tail_of(bytes, 1)) {
                Err(e) => Err(e),
                Ok((decoded, rest)) => {
                    proof {
                        let n = s.len() - 1 - rest@.len();
                        assert(s.skip(1).skip(n) =~= s.skip(1 + n));
                    }
                    Ok((Value::Bits(Int::from_be_bytes(tag == NEG_BITS, decoded.as_slice())), rest))
                },
            }
        } else {
            // not reached: `bytes` starts with one of these tags
            Err(DeserErr::Empty)
        }
    }

    /// Decodes a long tuple or list; `bytes` starts with one of their tags.
    fn deserialize_long(bytes: &[u8]) -> (out: Result<(Value, &[u8]), DeserErr>)
        requires
            bytes@.len() > 0,
            bytes@[0] == LONG_TUPLE || bytes@[0] == LONG_LIST,
        ensures
            match parse_value(bytes@) {
                Ok((v, n)) => out matches Ok((decoded, rest)) && decoded@ == v && rest@
                    == bytes@.skip(n) && 0 < n <= bytes@.len(),
                Err(e) => out == Err::<(Value, &[u8]), DeserErr>(e),
            },
        decreases bytes@.len(), 0int, 1int,
    {
        let tag: u8 = bytes[0];
        let ghost s = bytes@;
        if tag == LONG_TUPLE || tag == LONG_LIST {
            match rlp_decode_bytes(tail_of(bytes, 1)) {
                Err(e) => Err(e),
                Ok((decoded, rest)) => {
                    let ghost n = s.len() - 1 - rest@.len();
                    proof {
                        assert(s.skip(1).skip(n) =~= s.skip(1 + n));
                    }
                    match size_of(&decoded, SHORT_TUPLE_SIZE) {
                        None => {
                            if tag == LONG_TUPLE {
                                Err(DeserErr::InvalidTupleSize)
                            } else {
                                Err(DeserErr::InvalidListSize)
                            }
                        },
                        Some(count) => match deserialize_many(count, rest) {
                            Err(e) => {
                                assert(parse_counted(count as nat, s, 1 + n) is Err);
                                Err(e)
                            },
                            Ok((elems, after)) => {
                                proof {
                                    let m = rest@.len() - after@.len();
                                    assert(s.skip(1 + n).skip(m) =~= s.skip(1 + n + m));
                                    assert(parse_counted(count as nat, s, 1 + n) is Ok);
                                }
                                if tag == LONG_TUPLE {
                                    Ok((Value::Tuple(elems), after))
                                } else {
                                    Ok((Value::List(elems), after))
                                }
                            },
                        },
                    }
                },
            }
        } else {
            // not reached: `bytes` starts with one of these tags
            Err(DeserErr::Empty)
        }
    }

    /// Decodes a long string or a contract byte array; `bytes` starts with one
    /// of their tags.
    #[verifier::rlimit(50)]
    fn deserialize_sized(bytes: &[u8]) -> (out: Result<(Value, &[u8]), DeserErr>)
        requires
            bytes@.len() > 0,
            bytes@[0] == LONG_STRING || bytes@[0] == CONTRACT_BYTEARRAY,
        ensures
            match parse_value(bytes@) {
                Ok((v, n)) => out matches Ok((decoded, rest)) && decoded@ == v && rest@
                    == bytes@.skip(n) && 0 < n <= bytes@.len(),
                Err(e) => out == Err::<(Value, &[u8]), DeserErr>(e),
            },
        decreases bytes@.len(), 0int, 1int,
    {
        let tag: u8 = bytes[0];
        let ghost s = bytes@;
        if tag == LONG_STRING || tag == CONTRACT_BYTEARRAY {
            let long_string: bool = tag == LONG_STRING;
            let extra: usize = if long_string {
                SHORT_STRING_SIZE
            } else {
                0
            };
            match Value::try_deserialize(tail_of(bytes, 1)) {
                Err(e) => Err(e),
                Ok((Value::Integer(n), rest)) => {
                    let ghost k = s.len() - 1 - rest@.len();
                    proof {
                        assert(s.skip(1).skip(k) =~= s.skip(1 + k));
                    }
                    let size: Option<usize> = if n.is_negative() {
                        None
                    } else {
                        match n.to_usize() {
                            None => None,
                            Some(x) => {
                                if rest.len() >= extra && x <= rest.len() - extra {
                                    Some(x + extra)
                                } else {
                                    None
                                }
                            },
                        }
                    };
                    match size {
                        None => {
                            if long_string {
                                Err(DeserErr::InvalidString)
                            } else {
                                Err(DeserErr::InvalidContractBytearray)
                            }
                        },
                        Some(size) => {
                            let payload = vstd::slice::slice_to_vec(
                                vstd::slice::slice_subrange(rest, 0, size),
                            );
                            let after = tail_of(rest, size);
                            proof {
                                assert(payload@ =~= s.subrange(1 + k, 1 + k + size));
                                assert(s.skip(1 + k).skip(size as int) =~= s.skip(1 + k + size));
                            }
                            if long_string {
                                Ok((Value::String(payload), after))
                            } else {
                                Ok((Value::ContractBytearray(payload), after))
                            }
                        },
                    }
                },
                Ok(_) => {
                    if long_string {
                        Err(DeserErr::InvalidString)
                    } else {
                        Err(DeserErr::InvalidContractBytearray)
                    }
                },
            }
        } else {
            // not reached: `bytes` starts with one of these tags
            Err(DeserErr::Empty)
        }
    }

    /// Decodes a map or a store map; `bytes` starts with one of their tags.
    fn deserialize_map(bytes: &[u8]) -> (out: Result<(Value, &[u8]), DeserErr>)
        requires
            bytes@.len() > 0,
            bytes@[0] == MAP || bytes@[0] == MAP_ID,
        ensures
            match parse_value(bytes@) {
                Ok((v, n)) => out matches Ok((decoded, rest)) && decoded@ == v && rest@
                    == bytes@.skip(n) && 0 < n <= bytes@.len(),
                Err(e) => out == Err::<(Value, &[u8]), DeserErr>(e),
            },
        decreases bytes@.len(), 0int, 1int,
    {
        let tag: u8 = bytes[0];
        let ghost s = bytes@;
        if tag == MAP {
            match rlp_decode_bytes(tail_of(bytes, 1)) {
                Err(e) => Err(e),
                Ok((decoded, rest)) => {
                    let ghost n = s.len() - 1 - rest@.len();
                    proof {
                        assert(s.skip(1).skip(n) =~= s.skip(1 + n));
                    }
                    match size_of(&decoded, 0) {
                        None => Err(DeserErr::InvalidMapSize),
                        Some(count) => match deserialize_entries(count, rest) {
                            Err(e) => Err(e),
                            Ok((entries, after)) => {
                                proof {
                                    let m = rest@.len() - after@.len();
                                    assert(s.skip(1 + n).skip(m) =~= s.skip(1 + n + m));
                                }
                                Ok((Value::Mapping(entries), after))
                            },
                        },
                    }
                },
            }
        } else if tag == MAP_ID {
            match rlp_decode_bytes(tail_of(bytes, 1)) {
                Err(e) => Err(e),
                Ok((decoded, rest)) => {
                    proof {
                        let n = s.len() - 1 - rest@.len();
                        assert(s.skip(1).skip(n) =~= s.skip(1 + n));
                    }
                    match big_to_u64(decoded.as_slice()) {
                        None => Err(DeserErr::InvalidMapId),
                        Some(id) => {
                            if id > u32::MAX as u64 {
                                Err(DeserErr::InvalidMapId)
                            } else {
                                let cache: Vec<(Value, Value)> = Vec::new();
                                assert(fate_entries_of(cache@) =~= Seq::<
                                    (FateValue, FateValue),
                                >::empty());
                                Ok((Value::StoreMap { cache, id: id as u32 }, rest))
                            }
                        },
                    }
                },
            }
        } else {
            // not reached: `bytes` starts with one of these tags
            Err(DeserErr::Empty)
        }
    }

    /// Decodes what has no tag of its own: a small integer, a short string,
    /// tuple or list, or a type.
    fn deserialize_short(bytes: &[u8]) -> (out: Result<(Value, &[u8]), DeserErr>)
        requires
            bytes@.len() > 0,
            bytes@[0] != TRUE && bytes@[0] != FALSE && bytes@[0] != EMPTY_TUPLE && bytes@[0]
                != EMPTY_STRING && bytes@[0] != NEG_BIG_INT && bytes@[0] != POS_BIG_INT && bytes@[0]
                != NEG_BITS && bytes@[0] != POS_BITS && bytes@[0] != LONG_TUPLE && bytes@[0]
                != LONG_LIST && bytes@[0] != LONG_STRING && bytes@[0] != CONTRACT_BYTEARRAY
                && bytes@[0] != OBJECT && bytes@[0] != MAP && bytes@[0] != MAP_ID && bytes@[0]
                != VARIANT,
        ensures
            match parse_value(bytes@) {
                Ok((v, n)) => out matches Ok((decoded, rest)) && decoded@ == v && rest@
                    == bytes@.skip(n) && 0 < n <= bytes@.len(),
                Err(e) => out == Err::<(Value, &[u8]), DeserErr>(e),
            },
        decreases bytes@.len(), 0int, 1int,
    {
        let tag: u8 = bytes[0];
        let ghost s = bytes@;
        if is_small_pos_int(tag) || is_small_neg_int(tag) {
            let magnitude: u8 = (tag & 0b0111_1110) >> 1;
            assert(((tag & 0b0111_1110) >> 1) == (tag % 128) / 2) by (bit_vector);
            let single: Vec<u8> = vec![magnitude];
            proof {
                let one = seq![magnitude];
                assert(single@ =~= one);
                assert(one.drop_last() =~= Seq::<u8>::empty());
                assert(be_nat(one.drop_last()) == 0);
                assert(be_nat(one) == magnitude);
            }
            let n = Int::from_be_bytes(tag >= 128, single.as_slice());
            assert(n@ == signed(tag >= 128, ((tag % 128) / 2) as nat));
            Ok((Value::Integer(n), tail_of(bytes, 1)))
        } else if is_short_string(tag) {
            let size: usize = (tag >> 2) as usize;
            assert((tag >> 2) == tag / 4) by (bit_vector);
            if bytes.len() < size + 1 {
                Err(DeserErr::InvalidString)
            } else {
                let payload = vstd::slice::slice_to_vec(
                    vstd::slice::slice_subrange(bytes, 1, size + 1),
                );
                assert(payload@ == s.subrange(1, size + 1));
                Ok((Value::String(payload), tail_of(bytes, size + 1)))
            }
        } else if is_short_tuple(tag) || is_short_list(tag) {
            let size: usize = (tag >> 4) as usize;
            assert((tag >> 4) == tag / 16) by (bit_vector);
            match deserialize_many(size, tail_of(bytes, 1)) {
                Err(e) => {
                    assert(parse_counted(size as nat, s, 1) is Err);
                    Err(e)
                },
                Ok((elems, after)) => {
                    proof {
                        let m = s.len() - 1 - after@.len();
                        assert(s.skip(1).skip(m) =~= s.skip(1 + m));
                        assert(parse_counted(size as nat, s, 1) is Ok);
                    }
                    if is_short_tuple(tag) {
                        Ok((Value::Tuple(elems), after))
                    } else {
                        Ok((Value::List(elems), after))
                    }
                },
            }
        } else if is_type_tag(tag) {
            match Type::deserialize(bytes) {
                Err(e) => Err(e),
                Ok((t, rest)) => Ok((Value::Typerep(t), rest)),
            }
        } else {
            Err(DeserErr::InvalidIdByte(tag))
        }
    }

    /// Decodes an object; `bytes` starts with the object tag.
    fn deserialize_object(bytes: &[u8]) -> (out: Result<(Value, &[u8]), DeserErr>)
        requires
            bytes@.len() > 0,
            bytes@[0] == OBJECT,
        ensures
            match parse_value(bytes@) {
                Ok((v, n)) => out matches Ok((decoded, rest)) && decoded@ == v && rest@
                    == bytes@.skip(n) && 0 < n <= bytes@.len(),
                Err(e) => out == Err::<(Value, &[u8]), DeserErr>(e),
            },
        decreases bytes@.len(), 0int, 1int,
    {
        let ghost s = bytes@;
        if bytes.len() < 3 {
            return Err(DeserErr::InvalidObject);
        }
        let kind: u8 = bytes[1];
        if kind == OTYPE_BYTES {
            match Value::try_deserialize(tail_of(bytes, 2)) {
                Err(e) => Err(e),
                Ok((Value::String(string), rest)) => {
                    proof {
                        let k = s.len() - 2 - rest@.len();
                        assert(s.skip(2).skip(k) =~= s.skip(2 + k));
                    }
                    Ok((Value::Bytes(string), rest))
                },
                Ok(_) => Err(DeserErr::InvalidBytesObject),
            }
        } else {
            match rlp_decode_bytes(tail_of(bytes, 2)) {
                Err(e) => Err(e),
                Ok((decoded, rest)) => {
                    proof {
                        let n = s.len() - 2 - rest@.len();
                        assert(s.skip(2).skip(n) =~= s.skip(2 + n));
                    }
                    if kind == OTYPE_ADDRESS {
                        Ok((Value::Address(decoded), rest))
                    } else if kind == OTYPE_CONTRACT {
                        Ok((Value::Contract(decoded), rest))
                    } else if kind == OTYPE_ORACLE {
                        Ok((Value::Oracle(decoded), rest))
                    } else if kind == OTYPE_ORACLE_QUERY {
                        Ok((Value::OracleQuery(decoded), rest))
                    } else if kind == OTYPE_CHANNEL {
                        Ok((Value::Channel(decoded), rest))
                    } else {
                        Err(DeserErr::InvalidObjectByte(kind))
                    }
                },
            }
        }
    }

    /// Decodes a variant; `bytes` starts with the variant tag.
    fn deserialize_variant(bytes: &[u8]) -> (out: Result<(Value, &[u8]), DeserErr>)
        requires
            bytes@.len() > 0,
            bytes@[0] == VARIANT,
        ensures
            match parse_value(bytes@) {
                Ok((v, n)) => out matches Ok((decoded, rest)) && decoded@ == v && rest@
                    == bytes@.skip(n) && 0 < n <= bytes@.len(),
                Err(e) => out == Err::<(Value, &[u8]), DeserErr>(e),
            },
        decreases bytes@.len(), 0int, 1int,
    {
        let ghost s = bytes@;
        match rlp_decode_bytes(tail_of(bytes, 1)) {
            Err(e) => Err(e),
            Ok((arities, rest)) => {
                let ghost at = s.len() - rest@.len();
                proof {
                    assert(s.skip(1).skip(at - 1) =~= s.skip(at));
                }
                if rest.len() == 0 {
                    return Err(DeserErr::BadVariant);
                }
                let tag: u8 = rest[0];
                assert(tag == s[at]);
                if tag as usize >= arities.len() {
                    return Err(DeserErr::TooLargeTagInVariant);
                }
                proof {
                    assert(s.skip(at).skip(1) =~= s.skip(at + 1));
                }
                match Value::try_deserialize(tail_of(rest, 1)) {
                    Err(e) => Err(e),
                    Ok((Value::Tuple(elems), after)) => {
                        proof {
                            let k = rest@.len() - 1 - after@.len();
                            assert(s.skip(at + 1).skip(k) =~= s.skip(at + 1 + k));
                        }
                        let arity: u8 = arities[tag as usize];
                        if arity as usize == elems.len() {
                            Ok((Value::Variant { arities, tag, values: elems }, after))
                        } else {
                            Err(DeserErr::TagDoesNotMatchTypeInVariant)
                        }
                    },
                    Ok(_) => Err(DeserErr::BadVariant),
                }
            },
        }
    }
}

/// Deep copies of the values of a vector, in order.
pub fn duplicate_values(values: &Vec<Value>) -> (out: Vec<Value>)
    ensures
        fate_values_of(out@) == fate_values_of(values@),
    decreases values,
{
    let mut out: Vec<Value> = Vec::new();
    let mut i: usize = 0;
    while i < values.len()
        invariant
            i <= values.len(),
            out@.len() == i,
            forall|j: int| 0 <= j < i ==> out@[j]@ == values@[j]@,
        decreases values.len() - i,
    {
        out.push(values[i].duplicate());
        i += 1;
    }
    assert(fate_values_of(out@) =~= fate_values_of(values@));
    out
}

/// Deep copies of the entries of a vector, in order.
pub fn duplicate_entries(entries: &Vec<(Value, Value)>) -> (out: Vec<(Value, Value)>)
    ensures
        fate_entries_of(out@) == fate_entries_of(entries@),
    decreases entries,
{
    let mut out: Vec<(Value, Value)> = Vec::new();
    let mut i: usize = 0;
    while i < entries.len()
        invariant
            i <= entries.len(),
            out@.len() == i,
            forall|j: int|
                0 <= j < i ==> out@[j].0@ == entries@[j].0@ && out@[j].1@ == entries@[j].1@,
        decreases entries.len() - i,
    {
        out.push((entries[i].0.duplicate(), entries[i].1.duplicate()));
        i += 1;
    }
    assert(fate_entries_of(out@) =~= fate_entries_of(entries@));
    out
}

impl Value {
    /// A deep copy of the value.
    pub fn duplicate(&self) -> (out: Value)
        ensures
            out@ == self@,
        decreases self,
    {
        match self {
            Value::Boolean(b) => Value::Boolean(*b),
            Value::Integer(n) => Value::Integer(n.clone()),
            Value::Bits(n) => Value::Bits(n.clone()),
            Value::List(elems) => Value::List(duplicate_values(elems)),
            Value::Tuple(elems) => Value::Tuple(duplicate_values(elems)),
            Value::String(bytes) => Value::String(copy_bytes(bytes)),
            Value::Bytes(bytes) => Value::Bytes(copy_bytes(bytes)),
            Value::Address(bytes) => Value::Address(copy_bytes(bytes)),
            Value::Contract(bytes) => Value::Contract(copy_bytes(bytes)),
            Value::Oracle(bytes) => Value::Oracle(copy_bytes(bytes)),
            Value::OracleQuery(bytes) => Value::OracleQuery(copy_bytes(bytes)),
            Value::Channel(bytes) => Value::Channel(copy_bytes(bytes)),
            Value::ContractBytearray(bytes) => Value::ContractBytearray(copy_bytes(bytes)),
            Value::Typerep(t) => Value::Typerep(t.duplicate()),
            Value::Mapping(entries) => Value::Mapping(duplicate_entries(entries)),
            Value::StoreMap { cache, id } => Value::StoreMap {
                cache: duplicate_entries(cache),
                id: *id,
            },
            Value::Variant { arities, tag, values } => Value::Variant {
                arities: copy_bytes(arities),
                tag: *tag,
                values: duplicate_values(values),
            },
        }
    }

    /// The map that holds the given entries, entered one after the other: of
    /// two entries with equal keys the later one stays. A key that holds a
    /// type or a store map cannot be ordered, and gives `None`.
    pub fn map_of(raw: Vec<(Value, Value)>) -> (out: Option<Value>)
        ensures
            match out {
                Some(map) => keys_comparable(fate_entries_of(raw@)) && map@ == FateValue::Mapping(
                    collect_entries(fate_entries_of(raw@)),
                ) && crate::data::ordering::sorted(collect_entries(fate_entries_of(raw@))),
                None => !keys_comparable(fate_entries_of(raw@)),
            },
    {
        proof {
            if keys_comparable(fate_entries_of(raw@)) {
                crate::data::ordering::lemma_collect_is_sorted(fate_entries_of(raw@));
            }
        }
        let ghost all = fate_entries_of(raw@);
        let mut pending = raw;
        let mut entries: Vec<(Value, Value)> = Vec::new();
        let ghost done: Seq<(FateValue, FateValue)> = Seq::empty();
        proof {
            assert(fate_entries_of(entries@) =~= collect_entries(done));
            assert(done + fate_entries_of(pending@) =~= all);
        }
        while pending.len() > 0
            invariant
                all == fate_entries_of(raw@),
                done + fate_entries_of(pending@) == all,
                keys_comparable(done),
                keys_comparable(collect_entries(done)),
                fate_entries_of(entries@) == collect_entries(done),
            decreases pending.len(),
        {
            let ghost rest = fate_entries_of(pending@);
            let (key, val) = pending.remove(0);
            proof {
                assert(rest[0] == (key@, val@));
                assert(fate_entries_of(pending@) =~= rest.skip(1));
                let grown = done.push((key@, val@));
                assert(grown.drop_last() =~= done);
                assert(grown + rest.skip(1) =~= done + rest);
                assert(all[done.len() as int] == (key@, val@));
            }
            if !is_comparable(&key) {
                assert(!comparable(all[done.len() as int].0));
                return None;
            }
            insert(&mut entries, key, val);
            proof {
                crate::data::order::lemma_keys_comparable_push(done, key@, val@);
                done = done.push((key@, val@));
                crate::data::ordering::lemma_collect_is_sorted(done);
            }
        }
        proof {
            assert(fate_entries_of(pending@) =~= Seq::empty());
            assert(done + Seq::<(FateValue, FateValue)>::empty() =~= done);
        }
        Some(Value::Mapping(entries))
    }
}

impl Clone for Value {
    fn clone(&self) -> (out: Value)
        ensures
            out@ == self@,
    {
        self.duplicate()
    }
}

} // verus!
