//! Laws of the order of values: it is a strict total order on the values
//! that can be compared, and an ordered map stays in order.

use crate::data::order::{
    all_comparable, and_then, collect_entries, comparable, entries_comparable, insert_entry,
    keys_comparable, order, order_bytes, order_entries, order_ints, order_values, ordinal, Order,
};
use crate::data::value::FateValue;
use vstd::prelude::*;

verus! {

/// An order read from the other side.
pub open spec fn flipped(o: Order) -> Order {
    match o {
        Order::Less => Order::Greater,
        Order::Equal => Order::Equal,
        Order::Greater => Order::Less,
    }
}

/// Two byte strings are equal in the order exactly when they are the same.
pub proof fn lemma_bytes_equal(x: Seq<u8>, y: Seq<u8>)
    ensures
        order_bytes(x, y) == Order::Equal <==> x == y,
    decreases x.len(),
{
    if x.len() == 0 || y.len() == 0 {
        if x.len() == 0 && y.len() == 0 {
            assert(x =~= y);
        }
    } else if x[0] == y[0] {
        lemma_bytes_equal(x.drop_first(), y.drop_first());
        if x.drop_first() == y.drop_first() {
            assert(x =~= seq![x[0]] + x.drop_first());
            assert(y =~= seq![y[0]] + y.drop_first());
        }
    }
}

/// The order of byte strings read from the other side is the flipped order.
pub proof fn lemma_bytes_flip(x: Seq<u8>, y: Seq<u8>)
    ensures
        order_bytes(y, x) == flipped(order_bytes(x, y)),
    decreases x.len(),
{
    if x.len() > 0 && y.len() > 0 && x[0] == y[0] {
        lemma_bytes_flip(x.drop_first(), y.drop_first());
    }
}

/// The order of byte strings is transitive.
pub proof fn lemma_bytes_transitive(x: Seq<u8>, y: Seq<u8>, z: Seq<u8>)
    requires
        order_bytes(x, y) == Order::Less,
        order_bytes(y, z) == Order::Less,
    ensures
        order_bytes(x, z) == Order::Less,
    decreases x.len(),
{
    if x.len() > 0 && y.len() > 0 && z.len() > 0 {
        if x[0] == y[0] && y[0] == z[0] {
            lemma_bytes_transitive(x.drop_first(), y.drop_first(), z.drop_first());
        }
    }
}

/// How two lexicographic orders compose: from the orders of the heads and
/// of the tails of three sequences, where equal heads are the same head.
pub proof fn lemma_lexicographic(
    head_xy: Order,
    head_yz: Order,
    head_xz: Order,
    tail_xy: Order,
    tail_yz: Order,
    tail_xz: Order,
)
    requires
        and_then(head_xy, tail_xy) == Order::Less,
        and_then(head_yz, tail_yz) == Order::Less,
        head_xy == Order::Less && head_yz == Order::Less ==> head_xz == Order::Less,
        head_xy == Order::Equal ==> head_xz == head_yz,
        head_yz == Order::Equal ==> head_xz == head_xy,
        tail_xy == Order::Less && tail_yz == Order::Less ==> tail_xz == Order::Less,
    ensures
        and_then(head_xz, tail_xz) == Order::Less,
{
}

/// Two comparable values of one rank are of one kind.
pub proof fn lemma_same_kind(a: FateValue, b: FateValue)
    requires
        comparable(a),
        comparable(b),
        ordinal(a) == ordinal(b),
    ensures
        a is Integer <==> b is Integer,
        a is Boolean <==> b is Boolean,
        a is Address <==> b is Address,
        a is Channel <==> b is Channel,
        a is Contract <==> b is Contract,
        a is Oracle <==> b is Oracle,
        a is Bytes <==> b is Bytes,
        a is Bits <==> b is Bits,
        a is String <==> b is String,
        a is Tuple <==> b is Tuple,
        a is Mapping <==> b is Mapping,
        a is List <==> b is List,
        a is Variant <==> b is Variant,
        a is OracleQuery <==> b is OracleQuery,
        a is ContractBytearray <==> b is ContractBytearray,
{
}

/// Two comparable values are equal in the order exactly when they are the
/// same value.
pub proof fn lemma_equal(a: FateValue, b: FateValue)
    requires
        comparable(a),
        comparable(b),
    ensures
        order(a, b) == Order::Equal <==> a == b,
    decreases a, 1int,
{
    if ordinal(a) == ordinal(b) {
        lemma_same_kind(a, b);
        match (a, b) {
            (FateValue::Address(x), FateValue::Address(y)) => lemma_bytes_equal(x, y),
            (FateValue::Channel(x), FateValue::Channel(y)) => lemma_bytes_equal(x, y),
            (FateValue::Contract(x), FateValue::Contract(y)) => lemma_bytes_equal(x, y),
            (FateValue::Oracle(x), FateValue::Oracle(y)) => lemma_bytes_equal(x, y),
            (FateValue::Bytes(x), FateValue::Bytes(y)) => lemma_bytes_equal(x, y),
            (FateValue::String(x), FateValue::String(y)) => lemma_bytes_equal(x, y),
            (FateValue::OracleQuery(x), FateValue::OracleQuery(y)) => lemma_bytes_equal(x, y),
            (FateValue::ContractBytearray(x), FateValue::ContractBytearray(y)) => lemma_bytes_equal(
                x,
                y,
            ),
            (FateValue::Tuple(x), FateValue::Tuple(y)) => lemma_values_equal(x, y),
            (FateValue::List(x), FateValue::List(y)) => lemma_values_equal(x, y),
            (FateValue::Mapping(x), FateValue::Mapping(y)) => lemma_entries_equal(x, y),
            (
                FateValue::Variant { arities: xa, tag: xt, values: xv },
                FateValue::Variant { arities: ya, tag: yt, values: yv },
            ) => {
                lemma_bytes_equal(xa, ya);
                lemma_values_equal(xv, yv);
            },
            _ => {},
        }
    }
}

/// Two sequences of comparable values are equal in the order exactly when
/// they are the same sequence.
pub proof fn lemma_values_equal(x: Seq<FateValue>, y: Seq<FateValue>)
    requires
        all_comparable(x),
        all_comparable(y),
    ensures
        order_values(x, y) == Order::Equal <==> x == y,
    decreases x, 0int,
{
    if x.len() == 0 || y.len() == 0 {
        if x.len() == 0 && y.len() == 0 {
            assert(x =~= y);
        }
    } else {
        lemma_equal(x[0], y[0]);
        lemma_values_equal(x.drop_first(), y.drop_first());
        if x[0] == y[0] && x.drop_first() == y.drop_first() {
            assert(x =~= seq![x[0]] + x.drop_first());
            assert(y =~= seq![y[0]] + y.drop_first());
        }
    }
}

/// Two sequences of comparable entries are equal in the order exactly when
/// they are the same sequence.
pub proof fn lemma_entries_equal(x: Seq<(FateValue, FateValue)>, y: Seq<(FateValue, FateValue)>)
    requires
        entries_comparable(x),
        entries_comparable(y),
    ensures
        order_entries(x, y) == Order::Equal <==> x == y,
    decreases x, 0int,
{
    if x.len() == 0 || y.len() == 0 {
        if x.len() == 0 && y.len() == 0 {
            assert(x =~= y);
        }
    } else {
        lemma_equal(x[0].0, y[0].0);
        lemma_equal(x[0].1, y[0].1);
        lemma_entries_equal(x.drop_first(), y.drop_first());
        if x[0] == y[0] && x.drop_first() == y.drop_first() {
            assert(x =~= seq![x[0]] + x.drop_first());
            assert(y =~= seq![y[0]] + y.drop_first());
        }
    }
}

/// The order of values read from the other side is the flipped order.
pub proof fn lemma_flip(a: FateValue, b: FateValue)
    ensures
        order(b, a) == flipped(order(a, b)),
    decreases a, 1int,
{
    if ordinal(a) == ordinal(b) {
        match (a, b) {
            (FateValue::Address(x), FateValue::Address(y)) => lemma_bytes_flip(x, y),
            (FateValue::Channel(x), FateValue::Channel(y)) => lemma_bytes_flip(x, y),
            (FateValue::Contract(x), FateValue::Contract(y)) => lemma_bytes_flip(x, y),
            (FateValue::Oracle(x), FateValue::Oracle(y)) => lemma_bytes_flip(x, y),
            (FateValue::Bytes(x), FateValue::Bytes(y)) => lemma_bytes_flip(x, y),
            (FateValue::String(x), FateValue::String(y)) => lemma_bytes_flip(x, y),
            (FateValue::OracleQuery(x), FateValue::OracleQuery(y)) => lemma_bytes_flip(x, y),
            (FateValue::ContractBytearray(x), FateValue::ContractBytearray(y)) => lemma_bytes_flip(
                x,
                y,
            ),
            (FateValue::Tuple(x), FateValue::Tuple(y)) => lemma_values_flip(x, y),
            (FateValue::List(x), FateValue::List(y)) => lemma_values_flip(x, y),
            (FateValue::Mapping(x), FateValue::Mapping(y)) => lemma_entries_flip(x, y),
            (
                FateValue::Variant { arities: xa, tag: xt, values: xv },
                FateValue::Variant { arities: ya, tag: yt, values: yv },
            ) => {
                lemma_bytes_flip(xa, ya);
                lemma_values_flip(xv, yv);
            },
            _ => {},
        }
    }
}

/// The order of sequences of values read from the other side is the
/// flipped order.
pub proof fn lemma_values_flip(x: Seq<FateValue>, y: Seq<FateValue>)
    ensures
        order_values(y, x) == flipped(order_values(x, y)),
    decreases x, 0int,
{
    if x.len() > 0 && y.len() > 0 {
        lemma_flip(x[0], y[0]);
        lemma_values_flip(x.drop_first(), y.drop_first());
    }
}

/// The order of sequences of entries read from the other side is the
/// flipped order.
pub proof fn lemma_entries_flip(x: Seq<(FateValue, FateValue)>, y: Seq<(FateValue, FateValue)>)
    ensures
        order_entries(y, x) == flipped(order_entries(x, y)),
    decreases x, 0int,
{
    if x.len() > 0 && y.len() > 0 {
        lemma_flip(x[0].0, y[0].0);
        lemma_flip(x[0].1, y[0].1);
        lemma_entries_flip(x.drop_first(), y.drop_first());
    }
}

/// The order of comparable values is transitive.
pub proof fn lemma_transitive(a: FateValue, b: FateValue, c: FateValue)
    requires
        comparable(a),
        comparable(b),
        comparable(c),
        order(a, b) == Order::Less,
        order(b, c) == Order::Less,
    ensures
        order(a, c) == Order::Less,
    decreases a, 1int,
{
    if ordinal(a) == ordinal(b) && ordinal(b) == ordinal(c) {
        lemma_same_kind(a, b);
        lemma_same_kind(b, c);
        match (a, b, c) {
            (FateValue::Address(x), FateValue::Address(y), FateValue::Address(z)) => {
                lemma_bytes_transitive(x, y, z);
            },
            (FateValue::Channel(x), FateValue::Channel(y), FateValue::Channel(z)) => {
                lemma_bytes_transitive(x, y, z);
            },
            (FateValue::Contract(x), FateValue::Contract(y), FateValue::Contract(z)) => {
                lemma_bytes_transitive(x, y, z);
            },
            (FateValue::Oracle(x), FateValue::Oracle(y), FateValue::Oracle(z)) => {
                lemma_bytes_transitive(x, y, z);
            },
            (FateValue::Bytes(x), FateValue::Bytes(y), FateValue::Bytes(z)) => {
                lemma_bytes_transitive(x, y, z);
            },
            (FateValue::String(x), FateValue::String(y), FateValue::String(z)) => {
                lemma_bytes_transitive(x, y, z);
            },
            (FateValue::OracleQuery(x), FateValue::OracleQuery(y), FateValue::OracleQuery(z)) => {
                lemma_bytes_transitive(x, y, z);
            },
            (
                FateValue::ContractBytearray(x),
                FateValue::ContractBytearray(y),
                FateValue::ContractBytearray(z),
            ) => {
                lemma_bytes_transitive(x, y, z);
            },
            (FateValue::Tuple(x), FateValue::Tuple(y), FateValue::Tuple(z)) => {
                lemma_values_transitive(x, y, z);
            },
            (FateValue::List(x), FateValue::List(y), FateValue::List(z)) => {
                lemma_values_transitive(x, y, z);
            },
            (FateValue::Mapping(x), FateValue::Mapping(y), FateValue::Mapping(z)) => {
                lemma_entries_transitive(x, y, z);
            },
            (
                FateValue::Variant { arities: xa, tag: xt, values: xv },
                FateValue::Variant { arities: ya, tag: yt, values: yv },
                FateValue::Variant { arities: za, tag: zt, values: zv },
            ) => {
                if order_values(xv, yv) == Order::Less && order_values(yv, zv) == Order::Less {
                    lemma_values_transitive(xv, yv, zv);
                }
                lemma_variant_transitive(xa, xt, xv, ya, yt, yv, za, zt, zv);
            },
            _ => {},
        }
    }
}

/// The order of variants is transitive, where that of their values is.
proof fn lemma_variant_transitive(
    xa: Seq<u8>,
    xt: u8,
    xv: Seq<FateValue>,
    ya: Seq<u8>,
    yt: u8,
    yv: Seq<FateValue>,
    za: Seq<u8>,
    zt: u8,
    zv: Seq<FateValue>,
)
    requires
        and_then(
            order_bytes(xa, ya),
            and_then(order_ints(xt as int, yt as int), order_values(xv, yv)),
        ) == Order::Less,
        and_then(
            order_bytes(ya, za),
            and_then(order_ints(yt as int, zt as int), order_values(yv, zv)),
        ) == Order::Less,
        order_values(xv, yv) == Order::Less && order_values(yv, zv) == Order::Less
            ==> order_values(xv, zv) == Order::Less,
    ensures
        and_then(
            order_bytes(xa, za),
            and_then(order_ints(xt as int, zt as int), order_values(xv, zv)),
        ) == Order::Less,
{
    lemma_bytes_equal(xa, ya);
    lemma_bytes_equal(ya, za);
    if order_bytes(xa, ya) == Order::Less && order_bytes(ya, za) == Order::Less {
        lemma_bytes_transitive(xa, ya, za);
    }
}

/// The order of sequences of comparable values is transitive.
pub proof fn lemma_values_transitive(x: Seq<FateValue>, y: Seq<FateValue>, z: Seq<FateValue>)
    requires
        all_comparable(x),
        all_comparable(y),
        all_comparable(z),
        order_values(x, y) == Order::Less,
        order_values(y, z) == Order::Less,
    ensures
        order_values(x, z) == Order::Less,
    decreases x, 0int,
{
    if x.len() > 0 {
        let head_xy = order(x[0], y[0]);
        let head_yz = order(y[0], z[0]);
        lemma_equal(x[0], y[0]);
        lemma_equal(y[0], z[0]);
        if head_xy == Order::Less && head_yz == Order::Less {
            lemma_transitive(x[0], y[0], z[0]);
        }
        let tail_xy = order_values(x.drop_first(), y.drop_first());
        let tail_yz = order_values(y.drop_first(), z.drop_first());
        if tail_xy == Order::Less && tail_yz == Order::Less {
            lemma_values_transitive(x.drop_first(), y.drop_first(), z.drop_first());
        }
        lemma_lexicographic(
            head_xy,
            head_yz,
            order(x[0], z[0]),
            tail_xy,
            tail_yz,
            order_values(x.drop_first(), z.drop_first()),
        );
    }
}

/// The order of sequences of comparable entries is transitive.
pub proof fn lemma_entries_transitive(
    x: Seq<(FateValue, FateValue)>,
    y: Seq<(FateValue, FateValue)>,
    z: Seq<(FateValue, FateValue)>,
)
    requires
        entries_comparable(x),
        entries_comparable(y),
        entries_comparable(z),
        order_entries(x, y) == Order::Less,
        order_entries(y, z) == Order::Less,
    ensures
        order_entries(x, z) == Order::Less,
    decreases x, 0int,
{
    if x.len() > 0 {
        let key_xy = order(x[0].0, y[0].0);
        let key_yz = order(y[0].0, z[0].0);
        let val_xy = order(x[0].1, y[0].1);
        let val_yz = order(y[0].1, z[0].1);
        lemma_equal(x[0].0, y[0].0);
        lemma_equal(y[0].0, z[0].0);
        lemma_equal(x[0].1, y[0].1);
        lemma_equal(y[0].1, z[0].1);
        if key_xy == Order::Less && key_yz == Order::Less {
            lemma_transitive(x[0].0, y[0].0, z[0].0);
        }
        if val_xy == Order::Less && val_yz == Order::Less {
            lemma_transitive(x[0].1, y[0].1, z[0].1);
        }
        let tail_xy = order_entries(x.drop_first(), y.drop_first());
        let tail_yz = order_entries(y.drop_first(), z.drop_first());
        let tail_xz = order_entries(x.drop_first(), z.drop_first());
        if tail_xy == Order::Less && tail_yz == Order::Less {
            lemma_entries_transitive(x.drop_first(), y.drop_first(), z.drop_first());
        }
        let val_xz = order(x[0].1, z[0].1);
        if and_then(val_xy, tail_xy) == Order::Less && and_then(val_yz, tail_yz) == Order::Less {
            lemma_lexicographic(val_xy, val_yz, val_xz, tail_xy, tail_yz, tail_xz);
        }
        lemma_lexicographic(
            key_xy,
            key_yz,
            order(x[0].0, z[0].0),
            and_then(val_xy, tail_xy),
            and_then(val_yz, tail_yz),
            and_then(val_xz, tail_xz),
        );
    }
}

/// One value comes before another in the order of values.
#[verifier::opaque]
pub open spec fn precedes(a: FateValue, b: FateValue) -> bool {
    order(a, b) == Order::Less
}

/// The entries are in the strict order of their keys: every key comes
/// before every later key, so no key occurs twice.
pub open spec fn sorted(entries: Seq<(FateValue, FateValue)>) -> bool {
    forall|i: int, j: int|
        0 <= i < j < entries.len() ==> precedes(#[trigger] entries[i].0, #[trigger] entries[j].0)
}

/// The number of entries, from the first on, whose keys come before `key`.
pub open spec fn place_of(entries: Seq<(FateValue, FateValue)>, key: FateValue) -> int
    decreases entries.len(),
{
    if entries.len() == 0 || order(entries[0].0, key) != Order::Less {
        0
    } else {
        1 + place_of(entries.drop_first(), key)
    }
}

/// Entering a key into an ordered map, in one piece: the entries whose keys
/// come before it stay in front, the new entry follows, and then the rest,
/// without its first entry where that has an equal key.
pub proof fn lemma_insert_at_place(
    entries: Seq<(FateValue, FateValue)>,
    key: FateValue,
    val: FateValue,
)
    ensures
        ({
            let p = place_of(entries, key);
            let replaced = p < entries.len() && order(entries[p].0, key) == Order::Equal;
            &&& 0 <= p <= entries.len()
            &&& forall|i: int| 0 <= i < p ==> order(#[trigger] entries[i].0, key) == Order::Less
            &&& p < entries.len() ==> order(entries[p].0, key) != Order::Less
            &&& insert_entry(entries, key, val) == entries.take(p) + seq![(key, val)] + entries.skip(
                if replaced {
                    p + 1
                } else {
                    p
                },
            )
        }),
    decreases entries.len(),
{
    let p = place_of(entries, key);
    if entries.len() == 0 {
        assert(insert_entry(entries, key, val) =~= entries.take(0) + seq![(key, val)]
            + entries.skip(0));
    } else if order(entries[0].0, key) != Order::Less {
        if order(entries[0].0, key) == Order::Equal {
            assert(entries.drop_first() =~= entries.skip(1));
            assert(insert_entry(entries, key, val) =~= entries.take(0) + seq![(key, val)]
                + entries.skip(1));
        } else {
            assert(insert_entry(entries, key, val) =~= entries.take(0) + seq![(key, val)]
                + entries.skip(0));
        }
    } else {
        let rest = entries.drop_first();
        lemma_insert_at_place(rest, key, val);
        let q = place_of(rest, key);
        assert(p == q + 1);
        assert forall|i: int| 0 <= i < p implies order(#[trigger] entries[i].0, key)
            == Order::Less by {
            if i > 0 {
                assert(entries[i] == rest[i - 1]);
            }
        }
        if q < rest.len() {
            assert(rest[q] == entries[p]);
        }
        let replaced = q < rest.len() && order(rest[q].0, key) == Order::Equal;
        let from = if replaced {
            q + 1
        } else {
            q
        };
        assert(seq![entries[0]] + (rest.take(q) + seq![(key, val)] + rest.skip(from))
            =~= entries.take(p) + seq![(key, val)] + entries.skip(from + 1));
    }
}

/// An ordered map stays in order when a key is entered: the entries stay
/// in the strict order of their keys, and the keys stay comparable.
pub proof fn lemma_insert_sorted(
    entries: Seq<(FateValue, FateValue)>,
    key: FateValue,
    val: FateValue,
)
    requires
        sorted(entries),
        keys_comparable(entries),
        comparable(key),
    ensures
        sorted(insert_entry(entries, key, val)),
        keys_comparable(insert_entry(entries, key, val)),
{
    lemma_insert_at_place(entries, key, val);
    let p = place_of(entries, key);
    let replaced = p < entries.len() && order(entries[p].0, key) == Order::Equal;
    let from = if replaced {
        p + 1
    } else {
        p
    };
    let out = insert_entry(entries, key, val);
    assert(out.len() == p + 1 + entries.len() - from);
    assert forall|i: int| 0 <= i < out.len() implies comparable(#[trigger] out[i].0) && (i < p
        ==> out[i] == entries[i]) && (i == p ==> out[i].0 == key) && (i > p ==> out[i]
        == entries[from + i - p - 1]) by {
        if i < p {
            assert(out[i] == entries[i]);
        } else if i > p {
            assert(out[i] == entries[from + i - p - 1]);
        }
    }
    // the key comes before everything behind its place
    assert forall|j: int| from <= j < entries.len() implies precedes(key, #[trigger] entries[j].0) by {
        reveal(precedes);
        lemma_flip(entries[p].0, key);
        if replaced {
            lemma_equal(entries[p].0, key);
            assert(precedes(entries[p].0, entries[j].0));
        } else if j > p {
            assert(precedes(entries[p].0, entries[j].0));
            lemma_transitive(key, entries[p].0, entries[j].0);
        }
    }
    assert forall|i: int, j: int| 0 <= i < j < out.len() implies precedes(
        #[trigger] out[i].0,
        #[trigger] out[j].0,
    ) by {
        if j < p {
            assert(precedes(entries[i].0, entries[j].0));
        } else if j == p {
            assert(precedes(entries[i].0, key)) by {
                reveal(precedes);
            }
        } else {
            let jj = from + j - p - 1;
            assert(out[j] == entries[jj]);
            if i < p {
                assert(precedes(entries[i].0, entries[jj].0));
            } else if i == p {
                assert(precedes(key, entries[jj].0));
            } else {
                let ii = from + i - p - 1;
                assert(out[i] == entries[ii]);
                assert(precedes(entries[ii].0, entries[jj].0));
            }
        }
    }
}

/// What an ordered map holds is in order: the entries that result from
/// entering entries with comparable keys one after the other are in the
/// strict order of their keys, so that no key occurs twice.
pub proof fn lemma_collect_is_sorted(raw: Seq<(FateValue, FateValue)>)
    requires
        keys_comparable(raw),
    ensures
        sorted(collect_entries(raw)),
        keys_comparable(collect_entries(raw)),
    decreases raw.len(),
{
    if raw.len() > 0 {
        let front = raw.drop_last();
        assert forall|i: int| 0 <= i < front.len() implies comparable(#[trigger] front[i].0) by {
            assert(front[i] == raw[i]);
        }
        lemma_collect_is_sorted(front);
        assert(comparable(raw[raw.len() - 1].0));
        lemma_insert_sorted(collect_entries(front), raw.last().0, raw.last().1);
    }
}

} // verus!
