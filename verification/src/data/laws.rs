//! Laws of the FATE encodings: decoding inverts encoding.

use crate::bytes::{be_bytes, be_nat, lemma_be_bytes_len_u64, lemma_be_bytes_value};
use crate::data::consts::{
    CONTRACT_BYTEARRAY, EMPTY_STRING, EMPTY_TUPLE, FALSE, LONG_LIST, LONG_STRING, LONG_TUPLE, MAP,
    MAP_ID, NEG_BIG_INT, NEG_BITS, OBJECT, POS_BIG_INT, POS_BITS, SHORT_LIST, SHORT_TUPLE, TRUE,
    TYPE_BYTES, TYPE_LIST, TYPE_MAP, TYPE_TUPLE, TYPE_VARIANT, VARIANT,
};
use crate::data::encode_int;
use crate::data::error::{DeserErr, SerErr};
use crate::data::types::{encode_type, encode_types, parse_type, parse_types, BytesSize, FateType};
use crate::data::order::{collect_entries, insert_entry, keys_comparable, order, Order};
use crate::data::ordering::{lemma_collect_is_sorted, precedes, sorted};
use crate::data::value::{
    encode_entries, encode_many, encode_string, encode_tuple, encode_value, encode_values, kind,
    parse_counted, parse_entries,
    parse_rlp_bytes, parse_value, parse_values, FateValue,
};
use crate::integer::magnitude_of;
use crate::rlp::{encode_bytes, lemma_parse_encode, RlpTree};
use vstd::prelude::*;

verus! {

/// An RLP byte array, whatever follows it, is read back as its bytes.
pub proof fn lemma_parse_rlp_bytes(bytes: Seq<u8>, tail: Seq<u8>)
    requires
        bytes.len() <= u64::MAX,
    ensures
        parse_rlp_bytes(encode_bytes(bytes) + tail) == Ok::<(Seq<u8>, int), DeserErr>(
            (bytes, encode_bytes(bytes).len() as int),
        ),
        encode_bytes(bytes).len() >= 1,
{
    lemma_parse_encode(RlpTree::Bytes(bytes), tail, 0);
}

/// The minimal bytes of a number that fits the machine are few.
pub proof fn lemma_count_bytes(n: nat)
    requires
        n <= usize::MAX,
    ensures
        be_bytes(n).len() <= u64::MAX,
        be_nat(be_bytes(n)) == n,
{
    lemma_be_bytes_len_u64(n);
    lemma_be_bytes_value(n);
}

/// A number fits the format when its minimal bytes are fewer than `2^64`,
/// so that their length can be written in eight bytes.
pub open spec fn number_fits(m: nat) -> bool {
    be_bytes(m).len() <= u64::MAX
}

/// An integer fits the format when what is written of its magnitude does.
pub open spec fn int_fits(n: int) -> bool {
    magnitude_of(n) >= 64 ==> number_fits((magnitude_of(n) - 64) as nat)
}

/// An encoded integer, whatever follows it, decodes to that integer.
pub proof fn lemma_parse_int(n: int, tail: Seq<u8>)
    requires
        int_fits(n),
    ensures
        parse_value(encode_int(n) + tail) == Ok::<(FateValue, int), DeserErr>(
            (FateValue::Integer(n), encode_int(n).len() as int),
        ),
        encode_int(n).len() >= 1,
{
    let m = magnitude_of(n);
    let s = encode_int(n) + tail;
    if m < 64 {
        let tag = s[0];
        assert(tag == (if n < 0 {
            128int
        } else {
            0int
        }) + 2 * m);
        assert((tag % 128) / 2 == m);
    } else {
        let rest = be_bytes((m - 64) as nat);
        lemma_be_bytes_value((m - 64) as nat);
        lemma_parse_rlp_bytes(rest, tail);
        assert(s.skip(1) =~= encode_bytes(rest) + tail);
    }
}

/// The minimal bytes of a number are no more than the number is large: a
/// number that is the length of something in memory fits the format.
pub proof fn lemma_small_number_fits(n: nat)
    ensures
        be_bytes(n).len() <= n + 1,
        n < u64::MAX ==> number_fits(n),
    decreases n,
{
    if n >= 256 {
        lemma_small_number_fits(n / 256);
    }
}

/// What the law of types says of one type and one tail.
pub open spec fn type_law(t: FateType, tail: Seq<u8>) -> bool {
    encode_type(t) matches Ok(bytes) ==> bytes.len() >= 1 && parse_type(bytes + tail) == Ok::<
        (FateType, int),
        DeserErr,
    >((t, bytes.len() as int))
}

/// What the law of types says of a sequence of types and one tail.
pub open spec fn types_law(types: Seq<FateType>, tail: Seq<u8>) -> bool {
    encode_types(types) matches Ok(bytes) ==> parse_types(types.len(), bytes + tail) == Ok::<
        (Seq<FateType>, int),
        DeserErr,
    >((types, bytes.len() as int))
}

/// The law of types for the types that are a tag, or a tag and one byte.
proof fn lemma_type_plain(t: FateType, tail: Seq<u8>)
    requires
        !(t is Bytes),
        !(t is List),
        !(t is Mapping),
        !(t is Tuple),
        !(t is Variant),
    ensures
        type_law(t, tail),
{
}

/// The law of types for bytes types.
proof fn lemma_type_bytes(size: BytesSize, tail: Seq<u8>)
    ensures
        type_law(FateType::Bytes(size), tail),
{
    let t = FateType::Bytes(size);
    let bytes = encode_type(t)->Ok_0;
    let s = bytes + tail;
    let n: int = match size {
        BytesSize::Unsized => -1int,
        BytesSize::Sized(n) => n as int,
    };
    if n >= 64 {
        lemma_small_number_fits((n - 64) as nat);
    }
    lemma_parse_int(n, tail);
    assert(s.skip(1) =~= encode_int(n) + tail);
}

/// The law of types for a list type, from that for its element type.
proof fn lemma_type_list(elem: FateType, tail: Seq<u8>)
    requires
        type_law(elem, tail),
    ensures
        type_law(FateType::List(Box::new(elem)), tail),
{
    let t = FateType::List(Box::new(elem));
    match encode_type(t) {
        Err(_) => {},
        Ok(bytes) => {
            let inner = encode_type(elem)->Ok_0;
            assert((bytes + tail).skip(1) =~= inner + tail);
        },
    }
}

/// The law of types for a map type, from that for its key and value types.
proof fn lemma_type_mapping(key: FateType, val: FateType, tail: Seq<u8>)
    requires
        encode_type(val) matches Ok(val_bytes) ==> type_law(key, val_bytes + tail),
        type_law(val, tail),
    ensures
        type_law(FateType::Mapping { key: Box::new(key), val: Box::new(val) }, tail),
{
    let t = FateType::Mapping { key: Box::new(key), val: Box::new(val) };
    match encode_type(t) {
        Err(_) => {},
        Ok(bytes) => {
            let s = bytes + tail;
            let key_bytes = encode_type(key)->Ok_0;
            let val_bytes = encode_type(val)->Ok_0;
            assert(s.skip(1) =~= key_bytes + (val_bytes + tail));
            assert(s.skip(1 + key_bytes.len() as int) =~= val_bytes + tail);
        },
    }
}

/// The law of types for a tuple or variant type, from that for its elements.
proof fn lemma_type_counted(types: Seq<FateType>, tuple: bool, tail: Seq<u8>)
    requires
        types_law(types, tail),
    ensures
        tuple ==> type_law(FateType::Tuple(types), tail),
        !tuple ==> type_law(FateType::Variant(types), tail),
{
    let t = if tuple {
        FateType::Tuple(types)
    } else {
        FateType::Variant(types)
    };
    match encode_type(t) {
        Err(_) => {},
        Ok(bytes) => {
            let inner = encode_types(types)->Ok_0;
            assert((bytes + tail).skip(2) =~= inner + tail);
        },
    }
}

/// Decoding inverts encoding for types: an encoded type, whatever follows
/// it, decodes to that type and to the length of its encoding.
pub proof fn lemma_parse_encode_type(t: FateType, tail: Seq<u8>)
    ensures
        type_law(t, tail),
    decreases t, 1int,
{
    match t {
        FateType::Bytes(size) => {
            lemma_type_bytes(size, tail);
        },
        FateType::List(elem) => {
            lemma_parse_encode_type(*elem, tail);
            lemma_type_list(*elem, tail);
        },
        FateType::Mapping { key, val } => {
            match encode_type(*val) {
                Ok(val_bytes) => {
                    lemma_parse_encode_type(*key, val_bytes + tail);
                },
                Err(_) => {},
            }
            lemma_parse_encode_type(*val, tail);
            lemma_type_mapping(*key, *val, tail);
        },
        FateType::Tuple(types) => {
            lemma_parse_encode_types(types, tail);
            lemma_type_counted(types, true, tail);
        },
        FateType::Variant(types) => {
            lemma_parse_encode_types(types, tail);
            lemma_type_counted(types, false, tail);
        },
        _ => {
            lemma_type_plain(t, tail);
        },
    }
}

/// Decoding inverts encoding for sequences of types.
pub proof fn lemma_parse_encode_types(types: Seq<FateType>, tail: Seq<u8>)
    ensures
        types_law(types, tail),
    decreases types, 0int,
{
    match encode_types(types) {
        Err(_) => {},
        Ok(bytes) => {
            if types.len() == 0 {
                assert(types =~= Seq::<FateType>::empty());
            } else {
                let first = encode_type(types[0])->Ok_0;
                let rest = encode_types(types.drop_first())->Ok_0;
                lemma_parse_encode_type(types[0], rest + tail);
                lemma_parse_encode_types(types.drop_first(), tail);
                assert(bytes + tail =~= first + (rest + tail));
                assert((bytes + tail).skip(first.len() as int) =~= rest + tail);
                assert(seq![types[0]] + types.drop_first() =~= types);
            }
        },
    }
}

/// A value is well formed when it fits the format and the machine, and its
/// maps are what an ordered map holds: every length in it fits the machine,
/// every number in it fits the format, and the entries of every map are in
/// the strict order of their keys, which are all comparable.
pub open spec fn well_formed(v: FateValue) -> bool
    decreases v,
{
    match v {
        FateValue::Boolean(_) => true,
        FateValue::Integer(n) => int_fits(n),
        FateValue::Bits(n) => number_fits(magnitude_of(n)),
        FateValue::String(bytes) => bytes.len() <= usize::MAX,
        FateValue::Bytes(bytes) => bytes.len() <= usize::MAX,
        FateValue::Address(bytes) => bytes.len() <= usize::MAX,
        FateValue::Contract(bytes) => bytes.len() <= usize::MAX,
        FateValue::Oracle(bytes) => bytes.len() <= usize::MAX,
        FateValue::OracleQuery(bytes) => bytes.len() <= usize::MAX,
        FateValue::Channel(bytes) => bytes.len() <= usize::MAX,
        FateValue::ContractBytearray(bytes) => bytes.len() <= usize::MAX,
        FateValue::Typerep(_) => true,
        FateValue::List(elems) => elems.len() <= usize::MAX && all_well_formed(elems),
        FateValue::Tuple(elems) => elems.len() <= usize::MAX && all_well_formed(elems),
        FateValue::Mapping(entries) => entries.len() <= usize::MAX && sorted(entries)
            && keys_comparable(entries) && entries_well_formed(entries),
        FateValue::StoreMap { cache, id } => true,
        FateValue::Variant { arities, tag, values } => arities.len() <= usize::MAX
            && values.len() <= usize::MAX && all_well_formed(values),
    }
}

/// Every value of the sequence is well formed.
pub open spec fn all_well_formed(elems: Seq<FateValue>) -> bool
    decreases elems,
{
    elems.len() > 0 ==> well_formed(elems[0]) && all_well_formed(elems.drop_first())
}

/// Every key and every value of the entries is well formed.
pub open spec fn entries_well_formed(entries: Seq<(FateValue, FateValue)>) -> bool
    decreases entries,
{
    entries.len() > 0 ==> well_formed(entries[0].0) && well_formed(entries[0].1)
        && entries_well_formed(entries.drop_first())
}

/// What the law of values says of one value and one tail.
pub open spec fn value_law(v: FateValue, tail: Seq<u8>) -> bool {
    encode_value(v) matches Ok(bytes) ==> bytes.len() >= 1 && parse_value(bytes + tail) == Ok::<
        (FateValue, int),
        DeserErr,
    >((v, bytes.len() as int))
}

/// What the law of values says of a sequence of values and one tail.
pub open spec fn values_law(elems: Seq<FateValue>, tail: Seq<u8>) -> bool {
    encode_values(elems) matches Ok(bytes) ==> parse_values(elems.len(), bytes + tail) == Ok::<
        (Seq<FateValue>, int),
        DeserErr,
    >((elems, bytes.len() as int))
}

/// What the law of values says of a sequence of entries and one tail.
pub open spec fn entries_law(entries: Seq<(FateValue, FateValue)>, tail: Seq<u8>) -> bool {
    encode_entries(entries) matches Ok(bytes) ==> parse_entries(entries.len(), bytes + tail)
        == Ok::<(Seq<(FateValue, FateValue)>, int), DeserErr>((entries, bytes.len() as int))
}

/// The law of values for strings of up to 63 bytes.
proof fn lemma_string_short(bytes: Seq<u8>, tail: Seq<u8>)
    requires
        bytes.len() < 64,
    ensures
        value_law(FateValue::String(bytes), tail),
{
    let s = encode_string(bytes) + tail;
    if bytes.len() == 0 {
        assert(bytes =~= Seq::<u8>::empty());
    } else {
        assert(s[0] == 4 * bytes.len() + 1);
        assert(s.subrange(1, bytes.len() as int + 1) =~= bytes);
    }
}

/// The law of values for strings of 64 bytes or more.
proof fn lemma_string_long(bytes: Seq<u8>, tail: Seq<u8>)
    requires
        64 <= bytes.len() <= usize::MAX,
    ensures
        value_law(FateValue::String(bytes), tail),
{
    let s = encode_string(bytes) + tail;
    let n = bytes.len() - 64;
    if n >= 64 {
        lemma_small_number_fits((n - 64) as nat);
    }
    lemma_parse_int(n, bytes + tail);
    let k = encode_int(n).len() as int;
    assert(s.skip(1) =~= encode_int(n) + (bytes + tail));
    assert(s.subrange(1 + k, 1 + k + bytes.len()) =~= bytes);
    assert(s[0] == LONG_STRING);
    assert(parse_value(s.skip(1)) == Ok::<(FateValue, int), DeserErr>((FateValue::Integer(n), k)));
}

/// An encoded string, whatever follows it, decodes to that string.
pub proof fn lemma_parse_string(bytes: Seq<u8>, tail: Seq<u8>)
    requires
        bytes.len() <= usize::MAX,
    ensures
        value_law(FateValue::String(bytes), tail),
        parse_value(encode_string(bytes) + tail) == Ok::<(FateValue, int), DeserErr>(
            (FateValue::String(bytes), encode_string(bytes).len() as int),
        ),
{
    if bytes.len() < 64 {
        lemma_string_short(bytes, tail);
    } else {
        lemma_string_long(bytes, tail);
    }
}

/// The law of values for booleans, integers and bits.
proof fn lemma_value_number(v: FateValue, tail: Seq<u8>)
    requires
        v is Boolean || v is Integer || v is Bits,
        well_formed(v),
    ensures
        value_law(v, tail),
{
    match v {
        FateValue::Integer(n) => {
            lemma_parse_int(n, tail);
        },
        FateValue::Bits(n) => {
            let m = magnitude_of(n);
            let bytes = encode_value(v)->Ok_0;
            lemma_be_bytes_value(m);
            lemma_parse_rlp_bytes(be_bytes(m), tail);
            assert((bytes + tail).skip(1) =~= encode_bytes(be_bytes(m)) + tail);
        },
        _ => {},
    }
}

/// The law of values for bytes.
proof fn lemma_value_bytes(bytes: Seq<u8>, tail: Seq<u8>)
    requires
        bytes.len() <= usize::MAX,
    ensures
        value_law(FateValue::Bytes(bytes), tail),
{
    let encoded = encode_value(FateValue::Bytes(bytes))->Ok_0;
    lemma_parse_string(bytes, tail);
    assert((encoded + tail).skip(2) =~= encode_string(bytes) + tail);
}

/// The law of values for addresses, contracts, oracles, oracle queries and
/// channels.
proof fn lemma_value_object(v: FateValue, tail: Seq<u8>)
    requires
        v is Address || v is Contract || v is Oracle || v is OracleQuery || v is Channel,
        well_formed(v),
    ensures
        value_law(v, tail),
{
    let address = match v {
        FateValue::Address(a) => a,
        FateValue::Contract(a) => a,
        FateValue::Oracle(a) => a,
        FateValue::OracleQuery(a) => a,
        FateValue::Channel(a) => a,
        _ => Seq::empty(),
    };
    let encoded = encode_value(v)->Ok_0;
    lemma_parse_rlp_bytes(address, tail);
    assert((encoded + tail).skip(2) =~= encode_bytes(address) + tail);
}

/// The law of values for contract byte arrays.
proof fn lemma_value_contract_bytearray(bytes: Seq<u8>, tail: Seq<u8>)
    requires
        bytes.len() <= usize::MAX,
    ensures
        value_law(FateValue::ContractBytearray(bytes), tail),
{
    let encoded = encode_value(FateValue::ContractBytearray(bytes))->Ok_0;
    let s = encoded + tail;
    let n = bytes.len() as int;
    if n >= 64 {
        lemma_small_number_fits((n - 64) as nat);
    }
    lemma_parse_int(n, bytes + tail);
    let k = encode_int(n).len() as int;
    assert(s.skip(1) =~= encode_int(n) + (bytes + tail));
    assert(s.subrange(1 + k, 1 + k + bytes.len()) =~= bytes);
}

/// The law of values for types as values.
proof fn lemma_value_typerep(t: FateType, tail: Seq<u8>)
    ensures
        value_law(FateValue::Typerep(t), tail),
{
    lemma_parse_encode_type(t, tail);
}

/// The law of values for store maps.
proof fn lemma_value_store_map(cache: Seq<(FateValue, FateValue)>, id: u32, tail: Seq<u8>)
    ensures
        value_law(FateValue::StoreMap { cache, id }, tail),
{
    let v = FateValue::StoreMap { cache, id };
    match encode_value(v) {
        Err(_) => {},
        Ok(encoded) => {
            lemma_count_bytes(id as nat);
            lemma_parse_rlp_bytes(be_bytes(id as nat), tail);
            assert((encoded + tail).skip(1) =~= encode_bytes(be_bytes(id as nat)) + tail);
            assert(cache =~= Seq::empty());
        },
    }
}

/// The law of values for tuples and lists of up to 15 elements, from that for
/// their elements.
#[verifier::rlimit(40)]
proof fn lemma_counted_short(elems: Seq<FateValue>, tuple: bool, tail: Seq<u8>)
    requires
        elems.len() < 16,
        values_law(elems, tail),
    ensures
        tuple ==> value_law(FateValue::Tuple(elems), tail),
        !tuple ==> value_law(FateValue::List(elems), tail),
{
    let v = if tuple {
        FateValue::Tuple(elems)
    } else {
        FateValue::List(elems)
    };
    let many = if tuple {
        encode_many(elems, SHORT_TUPLE, LONG_TUPLE)
    } else {
        encode_many(elems, SHORT_LIST, LONG_LIST)
    };
    assert(tuple ==> encode_value(v) == encode_tuple(elems));
    assert(!tuple || elems.len() > 0 ==> encode_value(v) == many);
    match encode_value(v) {
        Err(_) => {},
        Ok(encoded) => {
            let s = encoded + tail;
            let body = encode_values(elems)->Ok_0;
            if elems.len() == 0 {
                assert(elems =~= Seq::<FateValue>::empty());
                if !tuple {
                    assert(s[0] == 3);
                    assert(s.skip(1) =~= body + tail);
                    assert(parse_counted(0, s, 1) is Ok);
                }
            } else {
                let short_id: int = if tuple {
                    11
                } else {
                    3
                };
                assert(s[0] == 16 * elems.len() + short_id);
                assert(s.skip(1) =~= body + tail);
                assert(parse_counted(elems.len(), s, 1) is Ok);
            }
        },
    }
}

/// What a long tuple or list decodes to, given what its count and its
/// elements decode to.
proof fn lemma_parse_long(
    s: Seq<u8>,
    tuple: bool,
    decoded: Seq<u8>,
    n: int,
    elems: Seq<FateValue>,
    m: int,
)
    requires
        s.len() > 0,
        s[0] == (if tuple {
            LONG_TUPLE
        } else {
            LONG_LIST
        }),
        parse_rlp_bytes(s.skip(1)) == Ok::<(Seq<u8>, int), DeserErr>((decoded, n)),
        0 < n < s.len(),
        be_nat(decoded) + 16 <= usize::MAX,
        parse_values(be_nat(decoded) + 16, s.skip(1 + n)) == Ok::<
            (Seq<FateValue>, int),
            DeserErr,
        >((elems, m)),
    ensures
        parse_value(s) == Ok::<(FateValue, int), DeserErr>(
            (
                if tuple {
                    FateValue::Tuple(elems)
                } else {
                    FateValue::List(elems)
                },
                1 + n + m,
            ),
        ),
{
    assert(parse_counted(be_nat(decoded) + 16, s, 1 + n) == Ok::<(Seq<FateValue>, int), DeserErr>(
        (elems, 1 + n + m),
    ));
}

/// The law of values for tuples and lists of 16 elements or more, from that
/// for their elements.
proof fn lemma_counted_long(elems: Seq<FateValue>, tuple: bool, tail: Seq<u8>)
    requires
        16 <= elems.len() <= usize::MAX,
        values_law(elems, tail),
    ensures
        tuple ==> value_law(FateValue::Tuple(elems), tail),
        !tuple ==> value_law(FateValue::List(elems), tail),
{
    let v = if tuple {
        FateValue::Tuple(elems)
    } else {
        FateValue::List(elems)
    };
    let long_id = if tuple {
        LONG_TUPLE
    } else {
        LONG_LIST
    };
    let many = if tuple {
        encode_many(elems, SHORT_TUPLE, LONG_TUPLE)
    } else {
        encode_many(elems, SHORT_LIST, LONG_LIST)
    };
    assert(tuple ==> encode_value(v) == encode_tuple(elems));
    assert(encode_value(v) == many);
    match encode_values(elems) {
        Err(_) => {},
        Ok(body) => {
            let count = (elems.len() - 16) as nat;
            let size = encode_bytes(be_bytes(count));
            let encoded = seq![long_id] + size + body;
            assert(many == Ok::<Seq<u8>, SerErr>(encoded));
            let s = encoded + tail;
            lemma_count_bytes(count);
            lemma_parse_rlp_bytes(be_bytes(count), body + tail);
            let k = size.len() as int;
            assert(s.skip(1) =~= size + (body + tail));
            assert(s.skip(1 + k) =~= body + tail);
            lemma_parse_long(s, tuple, be_bytes(count), k, elems, body.len() as int);
        },
    }
}

/// The law of values for tuples and lists, from that for their elements.
proof fn lemma_value_counted(elems: Seq<FateValue>, tuple: bool, tail: Seq<u8>)
    requires
        elems.len() <= usize::MAX,
        values_law(elems, tail),
    ensures
        tuple ==> value_law(FateValue::Tuple(elems), tail),
        !tuple ==> value_law(FateValue::List(elems), tail),
{
    if elems.len() < 16 {
        lemma_counted_short(elems, tuple, tail);
    } else {
        lemma_counted_long(elems, tuple, tail);
    }
}

/// The law of values for a variant, from that for the tuple of its values.
proof fn lemma_value_variant(arities: Seq<u8>, tag: u8, values: Seq<FateValue>, tail: Seq<u8>)
    requires
        arities.len() <= usize::MAX,
        value_law(FateValue::Tuple(values), tail),
    ensures
        value_law(FateValue::Variant { arities, tag, values }, tail),
{
    let v = FateValue::Variant { arities, tag, values };
    match encode_value(v) {
        Err(_) => {},
        Ok(encoded) => {
            let s = encoded + tail;
            let body = encode_value(FateValue::Tuple(values))->Ok_0;
            lemma_parse_rlp_bytes(arities, seq![tag] + body + tail);
            let k = encode_bytes(arities).len() as int;
            assert(s.skip(1) =~= encode_bytes(arities) + (seq![tag] + body + tail));
            assert(s[1 + k] == tag);
            assert(s.skip(1 + k + 1) =~= body + tail);
        },
    }
}

/// Entering a greater key into an ordered map puts it last.
pub proof fn lemma_insert_last(entries: Seq<(FateValue, FateValue)>, key: FateValue, val: FateValue)
    requires
        forall|i: int| 0 <= i < entries.len() ==> precedes(#[trigger] entries[i].0, key),
    ensures
        insert_entry(entries, key, val) == entries.push((key, val)),
    decreases entries.len(),
{
    if entries.len() == 0 {
        assert(seq![(key, val)] =~= entries.push((key, val)));
    } else {
        let rest = entries.drop_first();
        assert forall|i: int| 0 <= i < rest.len() implies precedes(#[trigger] rest[i].0, key) by {
            assert(rest[i] == entries[i + 1]);
        }
        lemma_insert_last(rest, key, val);
        assert(order(entries[0].0, key) == Order::Less) by {
            reveal(precedes);
            assert(precedes(entries[0].0, key));
        }
        assert(seq![entries[0]] + rest.push((key, val)) =~= entries.push((key, val)));
    }
}

/// Entries in the strict order of their keys are the ordered map that
/// holds them.
pub proof fn lemma_collect_sorted(entries: Seq<(FateValue, FateValue)>)
    requires
        sorted(entries),
    ensures
        collect_entries(entries) == entries,
    decreases entries.len(),
{
    if entries.len() == 0 {
        assert(entries =~= Seq::empty());
    } else {
        let front = entries.drop_last();
        assert forall|i: int, j: int| 0 <= i < j < front.len() implies precedes(
            #[trigger] front[i].0,
            #[trigger] front[j].0,
        ) by {
            assert(front[i] == entries[i] && front[j] == entries[j]);
        }
        lemma_collect_sorted(front);
        let last = entries.len() - 1;
        assert forall|i: int| 0 <= i < front.len() implies precedes(
            #[trigger] front[i].0,
            entries.last().0,
        ) by {
            assert(front[i] == entries[i]);
            assert(precedes(entries[i].0, entries[last].0));
        }
        lemma_insert_last(front, entries.last().0, entries.last().1);
        assert(front.push(entries.last()) =~= entries);
    }
}

/// The law of values for a map in order, from that for its entries.
proof fn lemma_value_mapping(entries: Seq<(FateValue, FateValue)>, tail: Seq<u8>)
    requires
        entries.len() <= usize::MAX,
        sorted(entries),
        keys_comparable(entries),
        entries_law(entries, tail),
    ensures
        value_law(FateValue::Mapping(entries), tail),
{
    let v = FateValue::Mapping(entries);
    match encode_value(v) {
        Err(_) => {},
        Ok(encoded) => {
            let s = encoded + tail;
            let body = encode_entries(entries)->Ok_0;
            let count = entries.len();
            lemma_count_bytes(count);
            lemma_parse_rlp_bytes(be_bytes(count), body + tail);
            let k = encode_bytes(be_bytes(count)).len() as int;
            assert(s.skip(1) =~= encode_bytes(be_bytes(count)) + (body + tail));
            assert(s.skip(1 + k) =~= body + tail);
            lemma_collect_sorted(entries);
        },
    }
}

/// Decoding inverts encoding for values: a well-formed value that has an
/// encoding decodes from it, whatever follows, to itself and to the length
/// of the encoding.
pub proof fn lemma_parse_encode_value(v: FateValue, tail: Seq<u8>)
    requires
        well_formed(v),
    ensures
        value_law(v, tail),
    decreases v, 2int,
{
    match v {
        FateValue::Boolean(_) => {
            lemma_value_number(v, tail);
        },
        FateValue::Integer(_) => {
            lemma_value_number(v, tail);
        },
        FateValue::Bits(_) => {
            lemma_value_number(v, tail);
        },
        FateValue::String(bytes) => {
            lemma_parse_string(bytes, tail);
        },
        FateValue::Bytes(bytes) => {
            lemma_value_bytes(bytes, tail);
        },
        FateValue::Address(_) => {
            lemma_value_object(v, tail);
        },
        FateValue::Contract(_) => {
            lemma_value_object(v, tail);
        },
        FateValue::Oracle(_) => {
            lemma_value_object(v, tail);
        },
        FateValue::OracleQuery(_) => {
            lemma_value_object(v, tail);
        },
        FateValue::Channel(_) => {
            lemma_value_object(v, tail);
        },
        FateValue::ContractBytearray(bytes) => {
            lemma_value_contract_bytearray(bytes, tail);
        },
        FateValue::Typerep(t) => {
            lemma_value_typerep(t, tail);
        },
        FateValue::List(elems) => {
            lemma_parse_encode_values(elems, tail);
            lemma_value_counted(elems, false, tail);
        },
        FateValue::Tuple(elems) => {
            lemma_parse_encode_values(elems, tail);
            lemma_value_counted(elems, true, tail);
        },
        FateValue::Mapping(entries) => {
            lemma_parse_encode_entries(entries, tail);
            lemma_value_mapping(entries, tail);
        },
        FateValue::StoreMap { cache, id } => {
            lemma_value_store_map(cache, id, tail);
        },
        FateValue::Variant { arities, tag, values } => {
            lemma_parse_encode_values(values, tail);
            lemma_value_counted(values, true, tail);
            lemma_value_variant(arities, tag, values, tail);
        },
    }
}

/// Decoding inverts encoding for sequences of values.
pub proof fn lemma_parse_encode_values(elems: Seq<FateValue>, tail: Seq<u8>)
    requires
        all_well_formed(elems),
    ensures
        values_law(elems, tail),
    decreases elems, 1int,
{
    match encode_values(elems) {
        Err(_) => {},
        Ok(bytes) => {
            if elems.len() == 0 {
                assert(elems =~= Seq::<FateValue>::empty());
            } else {
                let first = encode_value(elems[0])->Ok_0;
                let rest = encode_values(elems.drop_first())->Ok_0;
                lemma_parse_encode_value(elems[0], rest + tail);
                lemma_parse_encode_values(elems.drop_first(), tail);
                assert(bytes + tail =~= first + (rest + tail));
                assert((bytes + tail).skip(first.len() as int) =~= rest + tail);
                assert(seq![elems[0]] + elems.drop_first() =~= elems);
            }
        },
    }
}

/// How decoding entries goes on from one entry to the next.
proof fn lemma_entries_step(
    s: Seq<u8>,
    count: nat,
    key: FateValue,
    n: int,
    val: FateValue,
    m: int,
    rest: Seq<(FateValue, FateValue)>,
    k: int,
)
    requires
        count > 0,
        0 <= n <= s.len(),
        0 <= m <= s.len() - n,
        parse_value(s) == Ok::<(FateValue, int), DeserErr>((key, n)),
        parse_value(s.skip(n)) == Ok::<(FateValue, int), DeserErr>((val, m)),
        parse_entries((count - 1) as nat, s.skip(n + m)) == Ok::<
            (Seq<(FateValue, FateValue)>, int),
            DeserErr,
        >((rest, k)),
    ensures
        parse_entries(count, s) == Ok::<(Seq<(FateValue, FateValue)>, int), DeserErr>(
            (seq![(key, val)] + rest, n + m + k),
        ),
{
}

/// Where the parts of a key, a value, more entries and a tail begin.
proof fn lemma_entry_parts(key: Seq<u8>, val: Seq<u8>, rest: Seq<u8>, tail: Seq<u8>)
    ensures
        key + val + rest + tail == key + (val + rest + tail),
        (key + val + rest + tail).skip(key.len() as int) == val + (rest + tail),
        (key + val + rest + tail).skip(key.len() as int + val.len() as int) == rest + tail,
{
    let s = key + val + rest + tail;
    assert(s =~= key + (val + rest + tail));
    assert(s.skip(key.len() as int) =~= val + (rest + tail));
    assert(s.skip(key.len() as int + val.len() as int) =~= rest + tail);
}

/// Decoding inverts encoding for sequences of entries.
pub proof fn lemma_parse_encode_entries(entries: Seq<(FateValue, FateValue)>, tail: Seq<u8>)
    requires
        entries_well_formed(entries),
    ensures
        entries_law(entries, tail),
    decreases entries, 1int,
{
    if entries.len() == 0 {
        assert(entries =~= Seq::<(FateValue, FateValue)>::empty());
    } else {
        let others = entries.drop_first();
        match (encode_value(entries[0].0), encode_value(entries[0].1), encode_entries(others)) {
            (Ok(key), Ok(val), Ok(rest)) => {
                lemma_parse_encode_value(entries[0].0, val + rest + tail);
                lemma_parse_encode_value(entries[0].1, rest + tail);
                lemma_parse_encode_entries(others, tail);
                lemma_entry_parts(key, val, rest, tail);
                assert(seq![entries[0]] + others =~= entries);
                lemma_entries_step(
                    key + val + rest + tail,
                    entries.len(),
                    entries[0].0,
                    key.len() as int,
                    entries[0].1,
                    val.len() as int,
                    others,
                    rest.len() as int,
                );
            },
            _ => {},
        }
    }
}

/// The law of the value encoding in one statement: a well-formed value
/// that has an encoding decodes from it, as a whole input, to itself with
/// nothing left over.
pub proof fn lemma_value_round_trip(v: FateValue)
    requires
        well_formed(v),
    ensures
        encode_value(v) matches Ok(bytes) ==> parse_value(bytes) == Ok::<
            (FateValue, int),
            DeserErr,
        >((v, bytes.len() as int)),
{
    lemma_parse_encode_value(v, Seq::empty());
    match encode_value(v) {
        Ok(bytes) => {
            assert(bytes + Seq::<u8>::empty() =~= bytes);
        },
        Err(_) => {},
    }
}

/// The law of the type encoding in one statement: a type that has an
/// encoding decodes from it, as a whole input, to itself with nothing left
/// over.
pub proof fn lemma_type_round_trip(t: FateType)
    ensures
        encode_type(t) matches Ok(bytes) ==> parse_type(bytes) == Ok::<(FateType, int), DeserErr>(
            (t, bytes.len() as int),
        ),
{
    lemma_parse_encode_type(t, Seq::empty());
    match encode_type(t) {
        Ok(bytes) => {
            assert(bytes + Seq::<u8>::empty() =~= bytes);
        },
        Err(_) => {},
    }
}

/// The framing of integers at its boundary: the low bit of the first byte
/// of an encoded integer is 0 exactly when the magnitude is below 64. Then
/// the encoding is that one byte, with the sign in the high bit and the
/// magnitude in the six bits between; otherwise the first byte is `0x6F`
/// or `0xEF` by the sign.
pub proof fn lemma_int_framing(n: int)
    ensures
        encode_int(n)[0] % 2 == 0 <==> magnitude_of(n) < 64,
        magnitude_of(n) < 64 ==> encode_int(n).len() == 1 && (encode_int(n)[0] >= 128 <==> n < 0)
            && (encode_int(n)[0] % 128) / 2 == magnitude_of(n),
        magnitude_of(n) >= 64 ==> encode_int(n)[0] == (if n < 0 {
            NEG_BIG_INT
        } else {
            POS_BIG_INT
        }),
{
}

/// The short and the long form of strings: a string of 1 to 63 bytes starts
/// with `4 * length + 1`, and one of 64 bytes or more with `0x01`, followed
/// by the integer that is the length less 64.
pub proof fn lemma_string_forms(bytes: Seq<u8>)
    ensures
        bytes.len() == 0 ==> encode_string(bytes) == seq![EMPTY_STRING],
        0 < bytes.len() < 64 ==> encode_string(bytes) == seq![(4 * bytes.len() + 1) as u8] + bytes,
        bytes.len() >= 64 ==> encode_string(bytes) == seq![LONG_STRING] + encode_int(
            bytes.len() - 64,
        ) + bytes,
        bytes.len() == 63 ==> encode_string(bytes)[0] == 253,
        bytes.len() == 64 ==> encode_string(bytes)[0] == 1 && encode_string(bytes)[1] == 0,
{
}

/// The short and the long form of tuples and lists whose elements have
/// encodings: up to 15 elements the count is in the first byte, from 16
/// elements on the first byte is `0x0B` for a tuple and `0x1F` for a list.
pub proof fn lemma_counted_forms(elems: Seq<FateValue>)
    requires
        encode_values(elems) is Ok,
    ensures
        encode_value(FateValue::Tuple(elems)) is Ok,
        encode_value(FateValue::List(elems)) is Ok,
        elems.len() == 0 ==> encode_value(FateValue::Tuple(elems))->Ok_0 == seq![EMPTY_TUPLE],
        0 < elems.len() < 16 ==> encode_value(FateValue::Tuple(elems))->Ok_0[0] == 16 * elems.len()
            + 11,
        elems.len() < 16 ==> encode_value(FateValue::List(elems))->Ok_0[0] == 16 * elems.len() + 3,
        elems.len() >= 16 ==> encode_value(FateValue::Tuple(elems))->Ok_0[0] == LONG_TUPLE,
        elems.len() >= 16 ==> encode_value(FateValue::List(elems))->Ok_0[0] == LONG_LIST,
{
    let tuple = encode_many(elems, SHORT_TUPLE, LONG_TUPLE);
    let list = encode_many(elems, SHORT_LIST, LONG_LIST);
    assert(encode_value(FateValue::Tuple(elems)) == encode_tuple(elems));
    assert(elems.len() > 0 ==> encode_tuple(elems) == tuple);
    assert(encode_value(FateValue::List(elems)) == list);
}

/// A map with a map among its keys is refused.
pub proof fn lemma_map_key_refused(entries: Seq<(FateValue, FateValue)>, i: int)
    requires
        0 <= i < entries.len(),
        entries[i].0 is Mapping,
    ensures
        encode_value(FateValue::Mapping(entries)) == Err::<Seq<u8>, SerErr>(SerErr::MapAsKeyType),
{
}

/// A map without a map among its keys, but with two keys of different
/// kinds, is refused.
pub proof fn lemma_hetero_keys_refused(entries: Seq<(FateValue, FateValue)>, i: int, j: int)
    requires
        0 <= i < entries.len(),
        0 <= j < entries.len(),
        kind(entries[i].0) != kind(entries[j].0),
        forall|k: int| 0 <= k < entries.len() ==> !(#[trigger] entries[k].0 is Mapping),
    ensures
        encode_value(FateValue::Mapping(entries)) == Err::<Seq<u8>, SerErr>(SerErr::HeteroMapKeys),
{
    if kind(entries[i].0) != kind(entries[0].0) {
    } else {
        assert(kind(entries[j].0) != kind(entries[0].0));
    }
}

/// A map whose keys are of one kind that is not the kind of maps, but with
/// two values of different kinds, is refused.
pub proof fn lemma_hetero_values_refused(entries: Seq<(FateValue, FateValue)>, i: int, j: int)
    requires
        0 <= i < entries.len(),
        0 <= j < entries.len(),
        kind(entries[i].1) != kind(entries[j].1),
        forall|k: int| 0 <= k < entries.len() ==> !(#[trigger] entries[k].0 is Mapping),
        forall|k: int| 0 <= k < entries.len() ==> kind(#[trigger] entries[k].0) == kind(entries[0].0),
    ensures
        encode_value(FateValue::Mapping(entries)) == Err::<Seq<u8>, SerErr>(
            SerErr::HeteroMapValues,
        ),
{
    if kind(entries[i].1) != kind(entries[0].1) {
    } else {
        assert(kind(entries[j].1) != kind(entries[0].1));
    }
}

/// The empty map always has an encoding: the map tag and the count zero.
pub proof fn lemma_empty_map(entries: Seq<(FateValue, FateValue)>)
    requires
        entries.len() == 0,
    ensures
        encode_value(FateValue::Mapping(entries)) == Ok::<Seq<u8>, SerErr>(seq![MAP, 0u8]),
{
    assert(be_bytes(0) =~= seq![0u8]);
    assert(encode_bytes(seq![0u8]) =~= seq![0u8]);
    assert(seq![MAP] + seq![0u8] + Seq::<u8>::empty() =~= seq![MAP, 0u8]);
}

/// A variant is refused when its tag selects none of its arities, and when
/// the arity that the tag selects is not the number of its values.
pub proof fn lemma_variant_refused(arities: Seq<u8>, tag: u8, values: Seq<FateValue>)
    ensures
        tag >= arities.len() ==> encode_value(FateValue::Variant { arities, tag, values }) == Err::<
            Seq<u8>,
            SerErr,
        >(SerErr::InvalidVariantTag),
        tag < arities.len() && values.len() != arities[tag as int] ==> encode_value(
            FateValue::Variant { arities, tag, values },
        ) == Err::<Seq<u8>, SerErr>(SerErr::ArityValuesMismatch),
{
}

/// A variant whose tag selects the arity that is the number of its values
/// has an encoding when its values have, and decodes from it to itself.
pub proof fn lemma_variant_round_trip(arities: Seq<u8>, tag: u8, values: Seq<FateValue>)
    requires
        tag < arities.len(),
        values.len() == arities[tag as int],
        arities.len() <= usize::MAX,
        all_well_formed(values),
        encode_values(values) is Ok,
    ensures
        encode_value(FateValue::Variant { arities, tag, values }) matches Ok(bytes) && parse_value(
            bytes,
        ) == Ok::<(FateValue, int), DeserErr>(
            (FateValue::Variant { arities, tag, values }, bytes.len() as int),
        ),
{
    let v = FateValue::Variant { arities, tag, values };
    lemma_counted_forms(values);
    assert(encode_value(FateValue::Tuple(values)) == encode_tuple(values));
    lemma_value_round_trip(v);
}

/// A decoded map is an ordered map: its entries are in the strict order of
/// their keys, so that no key occurs twice, and its keys are comparable.
pub proof fn lemma_parsed_map_is_sorted(s: Seq<u8>)
    ensures
        parse_value(s) matches Ok((FateValue::Mapping(entries), _)) ==> sorted(entries)
            && keys_comparable(entries),
{
    match parse_value(s) {
        Ok((FateValue::Mapping(entries), _)) => {
            assert(s[0] == MAP);
            let decoded = parse_rlp_bytes(s.skip(1))->Ok_0.0;
            let n = parse_rlp_bytes(s.skip(1))->Ok_0.1;
            let raw = parse_entries(be_nat(decoded), s.skip(1 + n))->Ok_0.0;
            assert(entries == collect_entries(raw));
            lemma_collect_is_sorted(raw);
        },
        _ => {},
    }
}

/// Encoding inverts decoding on what encoding writes: the encoding of a
/// well-formed value decodes as a whole, and what it decodes to encodes to
/// the same bytes again. Bytes that no value encodes to may decode all the
/// same, to a value that is written otherwise: the byte `0x80` decodes to
/// the integer zero, which is written `0x00`.
pub proof fn lemma_value_canonical(v: FateValue)
    requires
        well_formed(v),
    ensures
        encode_value(v) matches Ok(bytes) ==> (parse_value(bytes) matches Ok((w, n)) && n
            == bytes.len() && encode_value(w) == Ok::<Seq<u8>, SerErr>(bytes)),
{
    lemma_value_round_trip(v);
}

/// Encoding inverts decoding on what encoding writes: the encoding of a
/// type decodes as a whole, and what it decodes to encodes to the same
/// bytes again. Bytes that no type encodes to may decode all the same: the
/// bytes `0x97 0x80` decode to the type of no bytes, written `0x97 0x00`.
pub proof fn lemma_type_canonical(t: FateType)
    ensures
        encode_type(t) matches Ok(bytes) ==> (parse_type(bytes) matches Ok((u, n)) && n
            == bytes.len() && encode_type(u) == Ok::<Seq<u8>, SerErr>(bytes)),
{
    lemma_type_round_trip(t);
}

/// A decoded type occupies at least one byte and no more than there are.
pub proof fn lemma_type_consumed(s: Seq<u8>)
    ensures
        parse_type(s) matches Ok((_, n)) ==> 0 < n <= s.len(),
    decreases s.len(), 0int, 0int,
{
    if s.len() > 0 {
        let tail = s.skip(1);
        if s[0] == TYPE_TUPLE || s[0] == TYPE_VARIANT {
            if s.len() >= 2 {
                lemma_types_consumed(s[1] as nat, s.skip(2));
            }
        } else if s[0] == TYPE_BYTES {
            lemma_value_consumed(tail);
        } else if s[0] == TYPE_LIST {
            lemma_type_consumed(tail);
        } else if s[0] == TYPE_MAP {
            lemma_type_consumed(tail);
            match parse_type(tail) {
                Ok((_, n)) => {
                    lemma_type_consumed(s.skip(1 + n));
                },
                Err(_) => {},
            }
        }
    }
}

/// Decoded types occupy no more bytes than there are.
pub proof fn lemma_types_consumed(count: nat, s: Seq<u8>)
    ensures
        parse_types(count, s) matches Ok((_, n)) ==> 0 <= n <= s.len(),
    decreases s.len(), 2int, count,
{
    if count > 0 {
        lemma_type_consumed(s);
        match parse_type(s) {
            Ok((_, n)) => {
                lemma_types_consumed((count - 1) as nat, s.skip(n));
            },
            Err(_) => {},
        }
    }
}

/// What the bound on decoded values says of one input.
pub open spec fn value_consumed(s: Seq<u8>) -> bool {
    parse_value(s) matches Ok((_, n)) ==> 0 < n <= s.len()
}

/// The bound on decoded values for counted elements.
proof fn lemma_counted_consumed(count: nat, s: Seq<u8>, head: int)
    requires
        0 < head <= s.len(),
    ensures
        parse_counted(count, s, head) matches Ok((_, n)) ==> 0 < n <= s.len(),
    decreases s.len(), 0int, 0int,
{
    lemma_values_consumed(count, s.skip(head));
}

/// The bound on decoded values for big integers, bits and store maps.
proof fn lemma_tagged_consumed(s: Seq<u8>)
    requires
        s.len() > 0,
        s[0] == NEG_BIG_INT || s[0] == POS_BIG_INT || s[0] == NEG_BITS || s[0] == POS_BITS || s[0]
            == MAP_ID,
    ensures
        value_consumed(s),
{
    crate::rlp::lemma_parse_consumed(s.skip(1), 0);
}

/// The bound on decoded values for long tuples and lists.
proof fn lemma_long_consumed(s: Seq<u8>)
    requires
        s.len() > 0,
        s[0] == LONG_TUPLE || s[0] == LONG_LIST,
    ensures
        value_consumed(s),
    decreases s.len(), 0int, 1int,
{
    crate::rlp::lemma_parse_consumed(s.skip(1), 0);
    match parse_rlp_bytes(s.skip(1)) {
        Ok((decoded, n)) => {
            lemma_counted_consumed(be_nat(decoded) + 16, s, 1 + n);
        },
        Err(_) => {},
    }
}

/// The bound on decoded values for long strings and contract byte arrays.
proof fn lemma_sized_consumed(s: Seq<u8>)
    requires
        s.len() > 0,
        s[0] == LONG_STRING || s[0] == CONTRACT_BYTEARRAY,
    ensures
        value_consumed(s),
    decreases s.len(), 0int, 1int,
{
    lemma_value_consumed(s.skip(1));
}

/// The bound on decoded values for objects.
proof fn lemma_object_consumed(s: Seq<u8>)
    requires
        s.len() > 0,
        s[0] == OBJECT,
    ensures
        value_consumed(s),
    decreases s.len(), 0int, 1int,
{
    if s.len() >= 3 {
        lemma_value_consumed(s.skip(2));
        crate::rlp::lemma_parse_consumed(s.skip(2), 0);
    }
}

/// The bound on decoded values for maps.
proof fn lemma_map_consumed(s: Seq<u8>)
    requires
        s.len() > 0,
        s[0] == MAP,
    ensures
        value_consumed(s),
    decreases s.len(), 0int, 1int,
{
    crate::rlp::lemma_parse_consumed(s.skip(1), 0);
    match parse_rlp_bytes(s.skip(1)) {
        Ok((decoded, n)) => {
            lemma_entries_consumed(be_nat(decoded), s.skip(1 + n));
        },
        Err(_) => {},
    }
}

/// The bound on decoded values for variants.
proof fn lemma_variant_consumed(s: Seq<u8>)
    requires
        s.len() > 0,
        s[0] == VARIANT,
    ensures
        value_consumed(s),
    decreases s.len(), 0int, 1int,
{
    crate::rlp::lemma_parse_consumed(s.skip(1), 0);
    match parse_rlp_bytes(s.skip(1)) {
        Ok((_, n)) => {
            if 1 + n < s.len() {
                lemma_value_consumed(s.skip(1 + n + 1));
            }
        },
        Err(_) => {},
    }
}

/// The bound on decoded values for what has no tag of its own.
proof fn lemma_short_consumed(s: Seq<u8>)
    requires
        s.len() > 0,
        s[0] != TRUE && s[0] != FALSE && s[0] != EMPTY_TUPLE && s[0] != EMPTY_STRING && s[0]
            != NEG_BIG_INT && s[0] != POS_BIG_INT && s[0] != NEG_BITS && s[0] != POS_BITS && s[0]
            != LONG_TUPLE && s[0] != LONG_LIST && s[0] != LONG_STRING && s[0] != CONTRACT_BYTEARRAY
            && s[0] != OBJECT && s[0] != MAP && s[0] != MAP_ID && s[0] != VARIANT,
    ensures
        value_consumed(s),
    decreases s.len(), 0int, 1int,
{
    lemma_counted_consumed((s[0] / 16) as nat, s, 1);
    lemma_type_consumed(s);
}

/// A decoded value occupies at least one byte and no more than there are.
pub proof fn lemma_value_consumed(s: Seq<u8>)
    ensures
        value_consumed(s),
    decreases s.len(), 1int, 0int,
{
    if s.len() > 0 {
        let tag = s[0];
        if tag == TRUE || tag == FALSE || tag == EMPTY_TUPLE || tag == EMPTY_STRING {
        } else if tag == NEG_BIG_INT || tag == POS_BIG_INT || tag == NEG_BITS || tag == POS_BITS
            || tag == MAP_ID {
            lemma_tagged_consumed(s);
        } else if tag == LONG_TUPLE || tag == LONG_LIST {
            lemma_long_consumed(s);
        } else if tag == LONG_STRING || tag == CONTRACT_BYTEARRAY {
            lemma_sized_consumed(s);
        } else if tag == OBJECT {
            lemma_object_consumed(s);
        } else if tag == MAP {
            lemma_map_consumed(s);
        } else if tag == VARIANT {
            lemma_variant_consumed(s);
        } else {
            lemma_short_consumed(s);
        }
    }
}

/// Decoded values occupy no more bytes than there are.
pub proof fn lemma_values_consumed(count: nat, s: Seq<u8>)
    ensures
        parse_values(count, s) matches Ok((_, n)) ==> 0 <= n <= s.len(),
    decreases s.len(), 2int, count,
{
    if count > 0 {
        lemma_value_consumed(s);
        match parse_value(s) {
            Ok((_, n)) => {
                lemma_values_consumed((count - 1) as nat, s.skip(n));
            },
            Err(_) => {},
        }
    }
}

/// Decoded entries occupy no more bytes than there are.
pub proof fn lemma_entries_consumed(count: nat, s: Seq<u8>)
    ensures
        parse_entries(count, s) matches Ok((_, n)) ==> 0 <= n <= s.len(),
    decreases s.len(), 2int, count,
{
    if count > 0 {
        lemma_value_consumed(s);
        match parse_value(s) {
            Ok((_, n)) => {
                lemma_value_consumed(s.skip(n));
                match parse_value(s.skip(n)) {
                    Ok((_, m)) => {
                        lemma_entries_consumed((count - 1) as nat, s.skip(n + m));
                    },
                    Err(_) => {},
                }
            },
            Err(_) => {},
        }
    }
}

/// A number that some bytes denote fits the format, where the bytes are not
/// too many.
pub proof fn lemma_denoted_fits(bytes: Seq<u8>)
    requires
        bytes.len() <= usize::MAX,
    ensures
        number_fits(be_nat(bytes)),
{
    crate::bytes::lemma_be_nat_bound(bytes);
    if bytes.len() == 0 {
        assert(be_bytes(0).len() == 1);
    } else {
        crate::bytes::lemma_be_bytes_len(be_nat(bytes), bytes.len());
    }
}

/// Entering an entry into an ordered map leaves well-formed entries well
/// formed.
pub proof fn lemma_insert_well_formed(
    entries: Seq<(FateValue, FateValue)>,
    key: FateValue,
    val: FateValue,
)
    requires
        entries_well_formed(entries),
        well_formed(key),
        well_formed(val),
    ensures
        entries_well_formed(insert_entry(entries, key, val)),
        insert_entry(entries, key, val).len() <= entries.len() + 1,
    decreases entries.len(),
{
    if entries.len() == 0 {
        let one = seq![(key, val)];
        assert(one.drop_first() =~= Seq::empty());
        assert(entries_well_formed(one.drop_first()));
    } else {
        let rest = entries.drop_first();
        match order(entries[0].0, key) {
            Order::Less => {
                lemma_insert_well_formed(rest, key, val);
                let out = seq![entries[0]] + insert_entry(rest, key, val);
                assert(out.drop_first() =~= insert_entry(rest, key, val));
            },
            Order::Equal => {
                let out = seq![(key, val)] + rest;
                assert(out.drop_first() =~= rest);
            },
            Order::Greater => {
                let out = seq![(key, val)] + entries;
                assert(out.drop_first() =~= entries);
            },
        }
    }
}

/// What an ordered map holds of well-formed entries is well formed.
pub proof fn lemma_collect_well_formed(raw: Seq<(FateValue, FateValue)>)
    requires
        entries_well_formed(raw),
    ensures
        entries_well_formed(collect_entries(raw)),
        collect_entries(raw).len() <= raw.len(),
    decreases raw.len(),
{
    if raw.len() > 0 {
        lemma_entries_well_formed_at(raw);
        let front = raw.drop_last();
        assert forall|i: int| 0 <= i < front.len() implies well_formed(#[trigger] front[i].0)
            && well_formed(front[i].1) by {
            assert(front[i] == raw[i]);
        }
        lemma_entries_well_formed_from(front);
        lemma_collect_well_formed(front);
        lemma_insert_well_formed(collect_entries(front), raw.last().0, raw.last().1);
    }
}

/// Well-formed entries are well formed one by one.
pub proof fn lemma_entries_well_formed_at(entries: Seq<(FateValue, FateValue)>)
    requires
        entries_well_formed(entries),
    ensures
        forall|i: int|
            0 <= i < entries.len() ==> well_formed(#[trigger] entries[i].0) && well_formed(
                entries[i].1,
            ),
    decreases entries.len(),
{
    if entries.len() > 0 {
        let rest = entries.drop_first();
        lemma_entries_well_formed_at(rest);
        assert forall|i: int| 0 <= i < entries.len() implies well_formed(#[trigger] entries[i].0)
            && well_formed(entries[i].1) by {
            if i > 0 {
                assert(entries[i] == rest[i - 1]);
            }
        }
    }
}

/// Entries that are well formed one by one are well formed.
pub proof fn lemma_entries_well_formed_from(entries: Seq<(FateValue, FateValue)>)
    requires
        forall|i: int|
            0 <= i < entries.len() ==> well_formed(#[trigger] entries[i].0) && well_formed(
                entries[i].1,
            ),
    ensures
        entries_well_formed(entries),
    decreases entries.len(),
{
    if entries.len() > 0 {
        let rest = entries.drop_first();
        assert forall|i: int| 0 <= i < rest.len() implies well_formed(#[trigger] rest[i].0)
            && well_formed(rest[i].1) by {
            assert(rest[i] == entries[i + 1]);
        }
        lemma_entries_well_formed_from(rest);
        assert(well_formed(entries[0].0) && well_formed(entries[0].1));
    }
}

/// What the well-formedness of decoded values says of one input.
pub open spec fn value_formed(s: Seq<u8>) -> bool {
    parse_value(s) matches Ok((v, _)) ==> well_formed(v)
}

/// An RLP byte array decoded from an input is no longer than the input.
proof fn lemma_rlp_bytes_len(s: Seq<u8>)
    ensures
        parse_rlp_bytes(s) matches Ok((decoded, n)) ==> decoded.len() <= n && 0 < n <= s.len(),
{
    crate::rlp::lemma_parsed_bytes_len(s, 0);
    crate::rlp::lemma_parse_consumed(s, 0);
}

/// The well-formedness of decoded values for big integers, bits and store
/// maps.
proof fn lemma_tagged_formed(s: Seq<u8>)
    requires
        0 < s.len() <= usize::MAX,
        s[0] == NEG_BIG_INT || s[0] == POS_BIG_INT || s[0] == NEG_BITS || s[0] == POS_BITS || s[0]
            == MAP_ID,
    ensures
        value_formed(s),
{
    lemma_rlp_bytes_len(s.skip(1));
    match parse_rlp_bytes(s.skip(1)) {
        Ok((decoded, _)) => {
            lemma_denoted_fits(decoded);
        },
        Err(_) => {},
    }
}

/// The well-formedness of decoded values for long tuples and lists.
proof fn lemma_long_formed(s: Seq<u8>)
    requires
        0 < s.len() <= usize::MAX,
        s[0] == LONG_TUPLE || s[0] == LONG_LIST,
    ensures
        value_formed(s),
    decreases s.len(), 0int, 1int,
{
    lemma_rlp_bytes_len(s.skip(1));
    match parse_rlp_bytes(s.skip(1)) {
        Ok((decoded, n)) => {
            let count = be_nat(decoded) + 16;
            lemma_values_formed(count, s.skip(1 + n));
            assert(parse_counted(count, s, 1 + n) is Ok ==> parse_values(count, s.skip(1 + n))
                is Ok);
        },
        Err(_) => {},
    }
}

/// The well-formedness of decoded values for long strings and contract byte
/// arrays.
proof fn lemma_sized_formed(s: Seq<u8>)
    requires
        0 < s.len() <= usize::MAX,
        s[0] == LONG_STRING || s[0] == CONTRACT_BYTEARRAY,
    ensures
        value_formed(s),
{
}

/// The well-formedness of decoded values for objects.
proof fn lemma_object_formed(s: Seq<u8>)
    requires
        0 < s.len() <= usize::MAX,
        s[0] == OBJECT,
    ensures
        value_formed(s),
    decreases s.len(), 0int, 1int,
{
    if s.len() >= 3 {
        lemma_value_formed(s.skip(2));
        lemma_rlp_bytes_len(s.skip(2));
    }
}

/// The well-formedness of decoded values for maps.
proof fn lemma_map_formed(s: Seq<u8>)
    requires
        0 < s.len() <= usize::MAX,
        s[0] == MAP,
    ensures
        value_formed(s),
    decreases s.len(), 0int, 1int,
{
    lemma_rlp_bytes_len(s.skip(1));
    match parse_rlp_bytes(s.skip(1)) {
        Ok((decoded, n)) => {
            let count = be_nat(decoded);
            lemma_entries_formed(count, s.skip(1 + n));
            match parse_entries(count, s.skip(1 + n)) {
                Ok((raw, _)) => {
                    if keys_comparable(raw) {
                        lemma_collect_is_sorted(raw);
                        lemma_collect_well_formed(raw);
                    }
                },
                Err(_) => {},
            }
        },
        Err(_) => {},
    }
}

/// The well-formedness of decoded values for variants.
proof fn lemma_variant_formed(s: Seq<u8>)
    requires
        0 < s.len() <= usize::MAX,
        s[0] == VARIANT,
    ensures
        value_formed(s),
    decreases s.len(), 0int, 1int,
{
    lemma_rlp_bytes_len(s.skip(1));
    match parse_rlp_bytes(s.skip(1)) {
        Ok((_, n)) => {
            if 1 + n < s.len() {
                lemma_value_formed(s.skip(1 + n + 1));
            }
        },
        Err(_) => {},
    }
}

/// The well-formedness of decoded values for what has no tag of its own.
proof fn lemma_short_formed(s: Seq<u8>)
    requires
        0 < s.len() <= usize::MAX,
        s[0] != TRUE && s[0] != FALSE && s[0] != EMPTY_TUPLE && s[0] != EMPTY_STRING && s[0]
            != NEG_BIG_INT && s[0] != POS_BIG_INT && s[0] != NEG_BITS && s[0] != POS_BITS && s[0]
            != LONG_TUPLE && s[0] != LONG_LIST && s[0] != LONG_STRING && s[0] != CONTRACT_BYTEARRAY
            && s[0] != OBJECT && s[0] != MAP && s[0] != MAP_ID && s[0] != VARIANT,
    ensures
        value_formed(s),
    decreases s.len(), 0int, 1int,
{
    let count = (s[0] / 16) as nat;
    lemma_values_formed(count, s.skip(1));
    assert(parse_counted(count, s, 1) is Ok ==> parse_values(count, s.skip(1)) is Ok);
}

/// A decoded value is well formed: every length in it fits the machine,
/// every number in it fits the format, and every map in it is in order.
pub proof fn lemma_value_formed(s: Seq<u8>)
    requires
        s.len() <= usize::MAX,
    ensures
        value_formed(s),
    decreases s.len(), 1int, 0int,
{
    if s.len() > 0 {
        let tag = s[0];
        if tag == TRUE || tag == FALSE {
        } else if tag == EMPTY_TUPLE || tag == EMPTY_STRING {
            assert(all_well_formed(Seq::<FateValue>::empty()));
        } else if tag == NEG_BIG_INT || tag == POS_BIG_INT || tag == NEG_BITS || tag == POS_BITS
            || tag == MAP_ID {
            lemma_tagged_formed(s);
        } else if tag == LONG_TUPLE || tag == LONG_LIST {
            lemma_long_formed(s);
        } else if tag == LONG_STRING || tag == CONTRACT_BYTEARRAY {
            lemma_sized_formed(s);
        } else if tag == OBJECT {
            lemma_object_formed(s);
        } else if tag == MAP {
            lemma_map_formed(s);
        } else if tag == VARIANT {
            lemma_variant_formed(s);
        } else {
            lemma_short_formed(s);
        }
    }
}

/// Decoded values are well formed, and as many as were asked for.
pub proof fn lemma_values_formed(count: nat, s: Seq<u8>)
    requires
        s.len() <= usize::MAX,
    ensures
        parse_values(count, s) matches Ok((elems, _)) ==> all_well_formed(elems) && elems.len()
            == count,
    decreases s.len(), 2int, count,
{
    if count > 0 {
        lemma_value_formed(s);
        lemma_value_consumed(s);
        match parse_value(s) {
            Ok((first, n)) => {
                lemma_values_formed((count - 1) as nat, s.skip(n));
                match parse_values((count - 1) as nat, s.skip(n)) {
                    Ok((rest, _)) => {
                        assert((seq![first] + rest).drop_first() =~= rest);
                    },
                    Err(_) => {},
                }
            },
            Err(_) => {},
        }
    }
}

/// Decoded entries are well formed, and as many as were asked for.
pub proof fn lemma_entries_formed(count: nat, s: Seq<u8>)
    requires
        s.len() <= usize::MAX,
    ensures
        parse_entries(count, s) matches Ok((raw, _)) ==> entries_well_formed(raw) && raw.len()
            == count,
    decreases s.len(), 2int, count,
{
    if count > 0 {
        lemma_value_formed(s);
        lemma_value_consumed(s);
        match parse_value(s) {
            Ok((key, n)) => {
                lemma_value_formed(s.skip(n));
                lemma_value_consumed(s.skip(n));
                match parse_value(s.skip(n)) {
                    Ok((val, m)) => {
                        lemma_entries_formed((count - 1) as nat, s.skip(n + m));
                        match parse_entries((count - 1) as nat, s.skip(n + m)) {
                            Ok((rest, _)) => {
                                assert((seq![(key, val)] + rest).drop_first() =~= rest);
                            },
                            Err(_) => {},
                        }
                    },
                    Err(_) => {},
                }
            },
            Err(_) => {},
        }
    }
}

/// What is decoded can be decoded again from its encoding: where an input
/// decodes to a value and that value has an encoding, the encoding decodes
/// to the same value. (A decoded map of keys of several kinds has no
/// encoding.)
pub proof fn lemma_decoded_round_trip(s: Seq<u8>)
    requires
        s.len() <= usize::MAX,
    ensures
        parse_value(s) matches Ok((v, _)) ==> (encode_value(v) matches Ok(bytes) ==> parse_value(
            bytes,
        ) == Ok::<(FateValue, int), DeserErr>((v, bytes.len() as int))),
{
    lemma_value_formed(s);
    match parse_value(s) {
        Ok((v, _)) => {
            lemma_value_round_trip(v);
        },
        Err(_) => {},
    }
}

} // verus!
