//! The order of FATE values by which a map keeps its keys.

use crate::data::value::{fate_entries_of, fate_values_of, FateValue, Value};
use crate::integer::Int;
use vstd::prelude::*;

verus! {

/// How one value stands to another.
#[derive(Debug, Clone, Copy, PartialEq, Eq, Structural)]
pub enum Order {
    Less,
    Equal,
    Greater,
}

/// The rank of a value's kind. Values of different kinds are ordered by
/// their ranks. Types and store maps have no rank of their own; see
/// `comparable`.
pub open spec fn ordinal(v: FateValue) -> int {
    match v {
        FateValue::Integer(_) => 0,
        FateValue::Boolean(_) => 1,
        FateValue::Address(_) => 2,
        FateValue::Channel(_) => 3,
        FateValue::Contract(_) => 4,
        FateValue::Oracle(_) => 5,
        FateValue::Bytes(_) => 6,
        FateValue::Bits(_) => 7,
        FateValue::String(_) => 8,
        FateValue::Tuple(_) => 9,
        FateValue::Mapping(_) => 10,
        FateValue::List(_) => 11,
        FateValue::Variant { .. } => 12,
        FateValue::OracleQuery(_) => 13,
        FateValue::ContractBytearray(_) => 14,
        FateValue::Typerep(_) => 15,
        FateValue::StoreMap { .. } => 15,
    }
}

/// A value can be compared when neither it nor anything in it is a type or
/// a store map.
pub open spec fn comparable(v: FateValue) -> bool
    decreases v,
{
    match v {
        FateValue::Typerep(_) => false,
        FateValue::StoreMap { .. } => false,
        FateValue::List(elems) => all_comparable(elems),
        FateValue::Tuple(elems) => all_comparable(elems),
        FateValue::Variant { arities, tag, values } => all_comparable(values),
        FateValue::Mapping(entries) => entries_comparable(entries),
        _ => true,
    }
}

/// Every value of the sequence can be compared.
pub open spec fn all_comparable(elems: Seq<FateValue>) -> bool
    decreases elems,
{
    elems.len() > 0 ==> comparable(elems[0]) && all_comparable(elems.drop_first())
}

/// Every key and every value of the entries can be compared.
pub open spec fn entries_comparable(entries: Seq<(FateValue, FateValue)>) -> bool
    decreases entries,
{
    entries.len() > 0 ==> comparable(entries[0].0) && comparable(entries[0].1)
        && entries_comparable(entries.drop_first())
}

/// The order of two integers.
pub open spec fn order_ints(a: int, b: int) -> Order {
    if a < b {
        Order::Less
    } else if a == b {
        Order::Equal
    } else {
        Order::Greater
    }
}

/// The order of two byte strings: by the first byte in which they differ; a
/// proper prefix comes first.
pub open spec fn order_bytes(a: Seq<u8>, b: Seq<u8>) -> Order
    decreases a.len(),
{
    if a.len() == 0 {
        if b.len() == 0 {
            Order::Equal
        } else {
            Order::Less
        }
    } else if b.len() == 0 {
        Order::Greater
    } else if a[0] != b[0] {
        order_ints(a[0] as int, b[0] as int)
    } else {
        order_bytes(a.drop_first(), b.drop_first())
    }
}

/// One order, unless it is a tie, which the other breaks.
pub open spec fn and_then(first: Order, second: Order) -> Order {
    if first == Order::Equal {
        second
    } else {
        first
    }
}

/// The order of two values: by the rank of their kinds, and within a kind
/// by the natural order of numbers, booleans (false first) and byte
/// strings, and by the first difference for what is made of values: a
/// tuple or a list element by element, a map entry by entry (key, then
/// value), a variant by its arities, its tag and its values.
pub open spec fn order(a: FateValue, b: FateValue) -> Order
    decreases a,
{
    if ordinal(a) != ordinal(b) {
        order_ints(ordinal(a), ordinal(b))
    } else {
        match (a, b) {
            (FateValue::Integer(x), FateValue::Integer(y)) => order_ints(x, y),
            (FateValue::Bits(x), FateValue::Bits(y)) => order_ints(x, y),
            (FateValue::Boolean(x), FateValue::Boolean(y)) => order_ints(
                if x {
                    1
                } else {
                    0
                },
                if y {
                    1
                } else {
                    0
                },
            ),
            (FateValue::Address(x), FateValue::Address(y)) => order_bytes(x, y),
            (FateValue::Channel(x), FateValue::Channel(y)) => order_bytes(x, y),
            (FateValue::Contract(x), FateValue::Contract(y)) => order_bytes(x, y),
            (FateValue::Oracle(x), FateValue::Oracle(y)) => order_bytes(x, y),
            (FateValue::Bytes(x), FateValue::Bytes(y)) => order_bytes(x, y),
            (FateValue::String(x), FateValue::String(y)) => order_bytes(x, y),
            (FateValue::OracleQuery(x), FateValue::OracleQuery(y)) => order_bytes(x, y),
            (FateValue::ContractBytearray(x), FateValue::ContractBytearray(y)) => order_bytes(
                x,
                y,
            ),
            (FateValue::Tuple(x), FateValue::Tuple(y)) => order_values(x, y),
            (FateValue::List(x), FateValue::List(y)) => order_values(x, y),
            (FateValue::Mapping(x), FateValue::Mapping(y)) => order_entries(x, y),
            (
                FateValue::Variant { arities: xa, tag: xt, values: xv },
                FateValue::Variant { arities: ya, tag: yt, values: yv },
            ) => and_then(
                order_bytes(xa, ya),
                and_then(order_ints(xt as int, yt as int), order_values(xv, yv)),
            ),
            _ => Order::Equal,
        }
    }
}

/// The order of two sequences of values by their first difference; a proper
/// prefix comes first.
pub open spec fn order_values(a: Seq<FateValue>, b: Seq<FateValue>) -> Order
    decreases a,
{
    if a.len() == 0 {
        if b.len() == 0 {
            Order::Equal
        } else {
            Order::Less
        }
    } else if b.len() == 0 {
        Order::Greater
    } else {
        and_then(order(a[0], b[0]), order_values(a.drop_first(), b.drop_first()))
    }
}

/// The order of two sequences of entries by their first difference, each
/// entry by its key and then its value; a proper prefix comes first.
pub open spec fn order_entries(
    a: Seq<(FateValue, FateValue)>,
    b: Seq<(FateValue, FateValue)>,
) -> Order
    decreases a,
{
    if a.len() == 0 {
        if b.len() == 0 {
            Order::Equal
        } else {
            Order::Less
        }
    } else if b.len() == 0 {
        Order::Greater
    } else {
        and_then(
            order(a[0].0, b[0].0),
            and_then(order(a[0].1, b[0].1), order_entries(a.drop_first(), b.drop_first())),
        )
    }
}

/// The entries of an ordered map after `key` is given the value `val`: a
/// new entry goes before the first greater key; an entry with an equal key
/// is replaced.
pub open spec fn insert_entry(
    entries: Seq<(FateValue, FateValue)>,
    key: FateValue,
    val: FateValue,
) -> Seq<(FateValue, FateValue)>
    decreases entries.len(),
{
    if entries.len() == 0 {
        seq![(key, val)]
    } else {
        match order(entries[0].0, key) {
            Order::Less => seq![entries[0]] + insert_entry(entries.drop_first(), key, val),
            Order::Equal => seq![(key, val)] + entries.drop_first(),
            Order::Greater => seq![(key, val)] + entries,
        }
    }
}

/// The ordered map that holds the given entries, entered one after the
/// other: of two entries with equal keys the later one stays.
pub open spec fn collect_entries(raw: Seq<(FateValue, FateValue)>) -> Seq<(FateValue, FateValue)>
    decreases raw.len(),
{
    if raw.len() == 0 {
        Seq::empty()
    } else {
        insert_entry(collect_entries(raw.drop_last()), raw.last().0, raw.last().1)
    }
}

/// Every key of the entries can be compared.
pub open spec fn keys_comparable(entries: Seq<(FateValue, FateValue)>) -> bool {
    forall|i: int| 0 <= i < entries.len() ==> comparable(#[trigger] entries[i].0)
}

/// The keys stay comparable when an entry with a comparable key is added,
/// and only then.
pub proof fn lemma_keys_comparable_push(
    entries: Seq<(FateValue, FateValue)>,
    key: FateValue,
    val: FateValue,
)
    ensures
        keys_comparable(entries.push((key, val))) == (keys_comparable(entries) && comparable(key)),
{
    let grown = entries.push((key, val));
    if keys_comparable(entries) && comparable(key) {
        assert forall|j: int| 0 <= j < grown.len() implies comparable(#[trigger] grown[j].0) by {
            if j < entries.len() {
                assert(grown[j] == entries[j]);
            }
        }
    } else if keys_comparable(grown) {
        assert(grown[entries.len() as int].0 == key);
        assert forall|j: int| 0 <= j < entries.len() implies comparable(
            #[trigger] entries[j].0,
        ) by {
            assert(grown[j] == entries[j]);
        }
    }
}

/// Computes the order of two integers.
pub fn compare_ints(a: &Int, b: &Int) -> (out: Order)
    ensures
        out == order_ints(a@, b@),
{
    if a.less_than(b) {
        Order::Less
    } else if b.less_than(a) {
        Order::Greater
    } else {
        Order::Equal
    }
}

/// Computes the order of two small numbers.
fn compare_small(a: u8, b: u8) -> (out: Order)
    ensures
        out == order_ints(a as int, b as int),
{
    if a < b {
        Order::Less
    } else if a == b {
        Order::Equal
    } else {
        Order::Greater
    }
}

/// Computes the order of two byte strings.
pub fn compare_bytes(a: &Vec<u8>, b: &Vec<u8>) -> (out: Order)
    ensures
        out == order_bytes(a@, b@),
{
    let mut i: usize = 0;
    assert(a@.skip(0) =~= a@ && b@.skip(0) =~= b@);
    while i < a.len() && i < b.len()
        invariant
            i <= a.len(),
            i <= b.len(),
            order_bytes(a@, b@) == order_bytes(a@.skip(i as int), b@.skip(i as int)),
        decreases a.len() - i,
    {
        proof {
            assert(a@.skip(i as int).drop_first() =~= a@.skip(i + 1));
            assert(b@.skip(i as int).drop_first() =~= b@.skip(i + 1));
        }
        if a[i] != b[i] {
            return compare_small(a[i], b[i]);
        }
        i += 1;
    }
    if i < b.len() {
        Order::Less
    } else if i < a.len() {
        Order::Greater
    } else {
        Order::Equal
    }
}

/// Computes the order of two values that can be compared.
pub fn compare_values(a: &Value, b: &Value) -> (out: Order)
    requires
        comparable(a@),
        comparable(b@),
    ensures
        out == order(a@, b@),
{
    order_of(a, b)
}

impl Value {
    /// The order of this value and another, or `None` where one of them
    /// holds a type or a store map, which have no order.
    pub fn compare(&self, other: &Value) -> (out: Option<Order>)
        ensures
            out == (if comparable(self@) && comparable(other@) {
                Some(order(self@, other@))
            } else {
                None
            }),
    {
        if is_comparable(self) && is_comparable(other) {
            Some(compare_values(self, other))
        } else {
            None
        }
    }
}

/// Computes `order`, whatever the values.
fn order_of(a: &Value, b: &Value) -> (out: Order)
    ensures
        out == order(a@, b@),
    decreases a,
{
    let rank_a = rank_of(a);
    let rank_b = rank_of(b);
    if rank_a != rank_b {
        return compare_small(rank_a, rank_b);
    }
    match (a, b) {
        (Value::Integer(x), Value::Integer(y)) => compare_ints(x, y),
        (Value::Bits(x), Value::Bits(y)) => compare_ints(x, y),
        (Value::Boolean(x), Value::Boolean(y)) => compare_small(
            if *x {
                1
            } else {
                0
            },
            if *y {
                1
            } else {
                0
            },
        ),
        (Value::Address(x), Value::Address(y)) => compare_bytes(x, y),
        (Value::Channel(x), Value::Channel(y)) => compare_bytes(x, y),
        (Value::Contract(x), Value::Contract(y)) => compare_bytes(x, y),
        (Value::Oracle(x), Value::Oracle(y)) => compare_bytes(x, y),
        (Value::Bytes(x), Value::Bytes(y)) => compare_bytes(x, y),
        (Value::String(x), Value::String(y)) => compare_bytes(x, y),
        (Value::OracleQuery(x), Value::OracleQuery(y)) => compare_bytes(x, y),
        (Value::ContractBytearray(x), Value::ContractBytearray(y)) => compare_bytes(x, y),
        (Value::Tuple(x), Value::Tuple(y)) => compare_all(x, y),
        (Value::List(x), Value::List(y)) => compare_all(x, y),
        (Value::Mapping(x), Value::Mapping(y)) => compare_entries(x, y),
        (
            Value::Variant { arities: xa, tag: xt, values: xv },
            Value::Variant { arities: ya, tag: yt, values: yv },
        ) => {
            let by_arities = compare_bytes(xa, ya);
            if by_arities != Order::Equal {
                return by_arities;
            }
            let by_tag = compare_small(*xt, *yt);
            if by_tag != Order::Equal {
                return by_tag;
            }
            compare_all(xv, yv)
        },
        _ => Order::Equal,
    }
}

/// The rank of the kind of a value.
fn rank_of(v: &Value) -> (out: u8)
    ensures
        out == ordinal(v@),
{
    match v {
        Value::Integer(_) => 0,
        Value::Boolean(_) => 1,
        Value::Address(_) => 2,
        Value::Channel(_) => 3,
        Value::Contract(_) => 4,
        Value::Oracle(_) => 5,
        Value::Bytes(_) => 6,
        Value::Bits(_) => 7,
        Value::String(_) => 8,
        Value::Tuple(_) => 9,
        Value::Mapping(_) => 10,
        Value::List(_) => 11,
        Value::Variant { .. } => 12,
        Value::OracleQuery(_) => 13,
        Value::ContractBytearray(_) => 14,
        Value::Typerep(_) => 15,
        Value::StoreMap { .. } => 15,
    }
}

/// Computes the order of two sequences of values.
fn compare_all(a: &Vec<Value>, b: &Vec<Value>) -> (out: Order)
    ensures
        out == order_values(fate_values_of(a@), fate_values_of(b@)),
    decreases a,
{
    let ghost ma = fate_values_of(a@);
    let ghost mb = fate_values_of(b@);
    let mut i: usize = 0;
    assert(ma.skip(0) =~= ma && mb.skip(0) =~= mb);
    while i < a.len() && i < b.len()
        invariant
            i <= a.len(),
            i <= b.len(),
            ma == fate_values_of(a@),
            mb == fate_values_of(b@),
            order_values(ma, mb) == order_values(ma.skip(i as int), mb.skip(i as int)),
        decreases a.len() - i,
    {
        proof {
            assert(ma.skip(i as int).drop_first() =~= ma.skip(i + 1));
            assert(mb.skip(i as int).drop_first() =~= mb.skip(i + 1));
            assert(ma.skip(i as int)[0] == a@[i as int]@);
            assert(mb.skip(i as int)[0] == b@[i as int]@);
        }
        let one = order_of(&a[i], &b[i]);
        if one != Order::Equal {
            return one;
        }
        i += 1;
    }
    if i < b.len() {
        Order::Less
    } else if i < a.len() {
        Order::Greater
    } else {
        Order::Equal
    }
}

/// Computes the order of two sequences of entries.
fn compare_entries(a: &Vec<(Value, Value)>, b: &Vec<(Value, Value)>) -> (out: Order)
    ensures
        out == order_entries(fate_entries_of(a@), fate_entries_of(b@)),
    decreases a,
{
    let ghost ma = fate_entries_of(a@);
    let ghost mb = fate_entries_of(b@);
    let mut i: usize = 0;
    assert(ma.skip(0) =~= ma && mb.skip(0) =~= mb);
    while i < a.len() && i < b.len()
        invariant
            i <= a.len(),
            i <= b.len(),
            ma == fate_entries_of(a@),
            mb == fate_entries_of(b@),
            order_entries(ma, mb) == order_entries(ma.skip(i as int), mb.skip(i as int)),
        decreases a.len() - i,
    {
        proof {
            assert(ma.skip(i as int).drop_first() =~= ma.skip(i + 1));
            assert(mb.skip(i as int).drop_first() =~= mb.skip(i + 1));
            assert(ma.skip(i as int)[0].0 == a@[i as int].0@);
            assert(ma.skip(i as int)[0].1 == a@[i as int].1@);
            assert(mb.skip(i as int)[0].0 == b@[i as int].0@);
            assert(mb.skip(i as int)[0].1 == b@[i as int].1@);
        }
        let by_key = order_of(&a[i].0, &b[i].0);
        if by_key != Order::Equal {
            return by_key;
        }
        let by_val = order_of(&a[i].1, &b[i].1);
        if by_val != Order::Equal {
            return by_val;
        }
        i += 1;
    }
    if i < b.len() {
        Order::Less
    } else if i < a.len() {
        Order::Greater
    } else {
        Order::Equal
    }
}

/// Whether a value can be compared.
pub fn is_comparable(v: &Value) -> (out: bool)
    ensures
        out == comparable(v@),
    decreases v,
{
    match v {
        Value::Typerep(_) => false,
        Value::StoreMap { .. } => false,
        Value::List(elems) => are_comparable(elems),
        Value::Tuple(elems) => are_comparable(elems),
        Value::Variant { arities, tag, values } => are_comparable(values),
        Value::Mapping(entries) => are_entries_comparable(entries),
        _ => true,
    }
}

/// Whether every key and every value of the entries can be compared.
fn are_entries_comparable(entries: &Vec<(Value, Value)>) -> (out: bool)
    ensures
        out == entries_comparable(fate_entries_of(entries@)),
    decreases entries,
{
    let ghost model = fate_entries_of(entries@);
    let mut i: usize = 0;
    assert(model.skip(0) =~= model);
    while i < entries.len()
        invariant
            i <= entries.len(),
            model == fate_entries_of(entries@),
            entries_comparable(model) == entries_comparable(model.skip(i as int)),
        decreases entries.len() - i,
    {
        proof {
            assert(model.skip(i as int).drop_first() =~= model.skip(i + 1));
            assert(model.skip(i as int)[0].0 == entries@[i as int].0@);
            assert(model.skip(i as int)[0].1 == entries@[i as int].1@);
        }
        if !is_comparable(&entries[i].0) || !is_comparable(&entries[i].1) {
            return false;
        }
        i += 1;
    }
    true
}

/// Whether every value of a vector can be compared.
fn are_comparable(elems: &Vec<Value>) -> (out: bool)
    ensures
        out == all_comparable(fate_values_of(elems@)),
    decreases elems,
{
    let ghost model = fate_values_of(elems@);
    let mut i: usize = 0;
    assert(model.skip(0) =~= model);
    while i < elems.len()
        invariant
            i <= elems.len(),
            model == fate_values_of(elems@),
            all_comparable(model) == all_comparable(model.skip(i as int)),
        decreases elems.len() - i,
    {
        proof {
            assert(model.skip(i as int).drop_first() =~= model.skip(i + 1));
            assert(model.skip(i as int)[0] == elems@[i as int]@);
        }
        if !is_comparable(&elems[i]) {
            return false;
        }
        i += 1;
    }
    true
}

/// Gives `key` the value `val` in an ordered map with comparable keys.
pub fn insert(entries: &mut Vec<(Value, Value)>, key: Value, val: Value)
    requires
        keys_comparable(fate_entries_of(old(entries)@)),
        comparable(key@),
    ensures
        fate_entries_of(final(entries)@) == insert_entry(
            fate_entries_of(old(entries)@),
            key@,
            val@,
        ),
{
    let ghost before = fate_entries_of(entries@);
    let mut i: usize = 0;
    assert(before.skip(0) =~= before);
    assert(before.take(0) + insert_entry(before, key@, val@) =~= insert_entry(
        before,
        key@,
        val@,
    ));
    while i < entries.len()
        invariant
            i <= entries.len(),
            before == fate_entries_of(entries@),
            before == fate_entries_of(old(entries)@),
            keys_comparable(before),
            comparable(key@),
            insert_entry(before, key@, val@) == before.take(i as int) + insert_entry(
                before.skip(i as int),
                key@,
                val@,
            ),
        decreases entries.len() - i,
    {
        proof {
            assert(before.skip(i as int).drop_first() =~= before.skip(i + 1));
            assert(before.skip(i as int)[0] == before[i as int]);
            assert(before[i as int].0 == entries@[i as int].0@);
        }
        assert(comparable(before[i as int].0));
        match compare_values(&entries[i].0, &key) {
            Order::Less => {
                proof {
                    let tail = insert_entry(before.skip(i + 1), key@, val@);
                    assert(before.take(i as int) + (seq![before[i as int]] + tail)
                        =~= before.take(i + 1) + tail);
                }
            },
            Order::Equal => {
                entries.set(i, (key, val));
                proof {
                    assert(fate_entries_of(entries@) =~= before.take(i as int) + (seq![
                        (key@, val@),
                    ] + before.skip(i + 1)));
                }
                return ;
            },
            Order::Greater => {
                entries.insert(i, (key, val));
                proof {
                    assert(fate_entries_of(entries@) =~= before.take(i as int) + (seq![
                        (key@, val@),
                    ] + before.skip(i as int)));
                }
                return ;
            },
        }
        i += 1;
    }
    entries.push((key, val));
    proof {
        assert(before.skip(i as int) =~= Seq::empty());
        assert(before.take(i as int) =~= before);
        assert(fate_entries_of(entries@) =~= before + seq![(key@, val@)]);
    }
}

} // verus!
