//! Parts of a contract's function table: function identifiers, attributes,
//! type signatures, instruction arguments and annotations.

use crate::data::encode_int;
use crate::data::error::{DeserErr, SerErr};
use crate::data::serialize_int;
use crate::data::types::{
    duplicate_types, encode_type, fate_types_of, parse_type, FateType, Type,
};
use crate::data::order::{
    all_comparable, collect_entries, comparable, compare_bytes, order_bytes, Order,
};
use crate::data::value::{
    concat, encode_value, fate_entries_of, fate_values_of, FateValue, Value,
};
use crate::hash::{id4, id4_of};
use crate::integer::Int;
use vstd::prelude::*;

verus! {

/// What has an encoding in bytes, unless it is refused.
pub trait Serializable {
    /// The encoding, or why there is none.
    spec fn encoding(&self) -> Result<Seq<u8>, SerErr>;

    /// Serializes the value.
    fn serialize(&self) -> (out: Result<Vec<u8>, SerErr>)
        ensures
            match self.encoding() {
                Ok(bytes) => out matches Ok(v) && v@ == bytes,
                Err(e) => out == Err::<Vec<u8>, SerErr>(e),
            },
    ;
}

/// What can be decoded from the start of bytes.
pub trait Deserializable: Sized {
    /// Whether `out` is what decoding `bytes` gives: the value with the bytes
    /// behind it, or the error.
    spec fn decodes(bytes: Seq<u8>, out: Result<(Self, Seq<u8>), DeserErr>) -> bool;

    /// Decodes a value at the start of `bytes` and gives it with the bytes
    /// behind it.
    fn try_deserialize(bytes: &[u8]) -> (out: Result<(Self, &[u8]), DeserErr>)
        ensures
            Self::decodes(
                bytes@,
                match out {
                    Ok((value, rest)) => Ok((value, rest@)),
                    Err(e) => Err(e),
                },
            ),
    ;
}

/// A note attached to a contract.
#[derive(Debug, PartialEq, Eq)]
pub enum Annotation {
    Comment { line: u32, comment: String },
}

/// The name of a function, from which its identifier is derived.
#[derive(Debug, PartialEq, Eq)]
pub struct Id {
    id_str: String,
}

impl Id {
    /// The name that the identifier is derived from.
    pub closed spec fn name(&self) -> Seq<char> {
        self.id_str@
    }

    /// The identifier of the function with the given name.
    pub fn new(id_str: String) -> (out: Id)
        ensures
            out.name() == id_str@,
    {
        Id { id_str }
    }
}

impl Serializable for Id {
    /// The first four bytes of the Blake2b digest of the name.
    open spec fn encoding(&self) -> Result<Seq<u8>, SerErr> {
        Ok(id4_of(self.name()))
    }

    fn serialize(&self) -> (out: Result<Vec<u8>, SerErr>) {
        let out = Ok(id4(self.id_str.as_str()));
        assert(self.encoding() == Ok::<Seq<u8>, SerErr>(id4_of(self.name())));
        out
    }
}

/// The attributes of a function.
#[derive(Debug, Clone, Copy, PartialEq, Eq, Structural)]
pub enum Attributes {
    Neither,
    Private,
    Payable,
    PrivatePayable,
}

/// The byte of a function's attributes: 1 for private, 2 for payable, their
/// sum for both.
pub open spec fn attributes_byte(a: Attributes) -> u8 {
    match a {
        Attributes::Neither => 0,
        Attributes::Private => 1,
        Attributes::Payable => 2,
        Attributes::PrivatePayable => 3,
    }
}

impl Attributes {
    /// The attributes that a byte stands for, if any.
    pub fn from_byte(byte: u8) -> (out: Option<Attributes>)
        ensures
            match out {
                Some(a) => attributes_byte(a) == byte,
                None => byte > 3,
            },
    {
        if byte == 0 {
            Some(Attributes::Neither)
        } else if byte == 1 {
            Some(Attributes::Private)
        } else if byte == 2 {
            Some(Attributes::Payable)
        } else if byte == 3 {
            Some(Attributes::PrivatePayable)
        } else {
            None
        }
    }
}

impl Serializable for Attributes {
    open spec fn encoding(&self) -> Result<Seq<u8>, SerErr> {
        Ok(seq![attributes_byte(*self)])
    }

    fn serialize(&self) -> (out: Result<Vec<u8>, SerErr>) {
        let byte: u8 = match self {
            Attributes::Neither => 0,
            Attributes::Private => 1,
            Attributes::Payable => 2,
            Attributes::PrivatePayable => 3,
        };
        let bytes: Vec<u8> = vec![byte];
        assert(bytes@ =~= seq![attributes_byte(*self)]);
        let out = Ok(bytes);
        assert(self.encoding() == Ok::<Seq<u8>, SerErr>(seq![attributes_byte(*self)]));
        out
    }
}

/// The type signature of a function: the types of its arguments and of its
/// result.
#[derive(Debug, PartialEq, Eq)]
pub struct TypeSig {
    pub args: Vec<Type>,
    pub ret: Type,
}

/// The encoding of a type signature: the tuple type of the arguments, then
/// the type of the result.
pub open spec fn encode_type_sig(args: Seq<FateType>, ret: FateType) -> Result<Seq<u8>, SerErr> {
    match encode_type(FateType::Tuple(args)) {
        Err(e) => Err(e),
        Ok(args_bytes) => match encode_type(ret) {
            Err(e) => Err(e),
            Ok(ret_bytes) => Ok(args_bytes + ret_bytes),
        },
    }
}

/// What decoding a type signature at the start of `s` gives: the types of
/// the arguments, the type of the result and the number of bytes they
/// occupy, or the error. Two types are decoded; the first must be a tuple
/// type.
pub open spec fn parse_type_sig(s: Seq<u8>) -> Result<(Seq<FateType>, FateType, int), DeserErr> {
    match parse_type(s) {
        Err(e) => Err(e),
        Ok((args, n)) => if 0 <= n <= s.len() {
            match parse_type(s.skip(n)) {
                Err(e) => Err(e),
                Ok((ret, m)) => match args {
                    FateType::Tuple(types) => Ok((types, ret, n + m)),
                    _ => Err(DeserErr::InvalidTuple),
                },
            }
        } else {
            // never so: what is decoded is at least one byte and no more than there are
            Err(DeserErr::Empty)
        },
    }
}

impl Serializable for TypeSig {
    open spec fn encoding(&self) -> Result<Seq<u8>, SerErr> {
        encode_type_sig(fate_types_of(self.args@), self.ret@)
    }

    fn serialize(&self) -> (out: Result<Vec<u8>, SerErr>) {
        let ghost wanted = encode_type_sig(fate_types_of(self.args@), self.ret@);
        assert(self.encoding() == wanted);
        let args_bytes = match Type::Tuple(duplicate_types(&self.args)).serialize() {
            Err(e) => {
                return Err(e);
            },
            Ok(v) => v,
        };
        match self.ret.serialize() {
            Err(e) => Err(e),
            Ok(ret_bytes) => Ok(concat(args_bytes, ret_bytes)),
        }
    }
}

impl Deserializable for TypeSig {
    open spec fn decodes(bytes: Seq<u8>, out: Result<(TypeSig, Seq<u8>), DeserErr>) -> bool {
        match parse_type_sig(bytes) {
            Ok((args, ret, n)) => out matches Ok((sig, rest)) && fate_types_of(sig.args@) == args
                && sig.ret@ == ret && rest == bytes.skip(n),
            Err(e) => out == Err::<(TypeSig, Seq<u8>), DeserErr>(e),
        }
    }

    fn try_deserialize(bytes: &[u8]) -> (out: Result<(TypeSig, &[u8]), DeserErr>) {
        let (args_tuple, ret_rest) = match Type::deserialize(bytes) {
            Err(e) => {
                return Err(e);
            },
            Ok(pair) => pair,
        };
        let (ret, rest) = match Type::deserialize(ret_rest) {
            Err(e) => {
                return Err(e);
            },
            Ok(pair) => pair,
        };
        proof {
            let n = bytes@.len() - ret_rest@.len();
            let m = ret_rest@.len() - rest@.len();
            assert(bytes@.skip(n).skip(m) =~= bytes@.skip(n + m));
        }
        match args_tuple {
            Type::Tuple(args) => Ok((TypeSig { args, ret }, rest)),
            _ => Err(DeserErr::InvalidTuple),
        }
    }
}

/// The argument of an instruction: a place on the stack, an argument or a
/// variable by its number, or a value.
#[derive(Debug, PartialEq, Eq)]
pub enum Arg {
    Stack(u32),
    Arg(u32),
    Var(u32),
    Immediate(Value),
}

impl Serializable for Arg {
    /// A number is encoded as an integer, a value as itself.
    open spec fn encoding(&self) -> Result<Seq<u8>, SerErr> {
        match self {
            Arg::Stack(n) => Ok(encode_int(*n as int)),
            Arg::Arg(n) => Ok(encode_int(*n as int)),
            Arg::Var(n) => Ok(encode_int(*n as int)),
            Arg::Immediate(v) => encode_value(v@),
        }
    }

    fn serialize(&self) -> (out: Result<Vec<u8>, SerErr>) {
        let out = match self {
            Arg::Stack(n) => Ok(serialize_int(&Int::from_u64(*n as u64))),
            Arg::Arg(n) => Ok(serialize_int(&Int::from_u64(*n as u64))),
            Arg::Var(n) => Ok(serialize_int(&Int::from_u64(*n as u64))),
            Arg::Immediate(v) => v.serialize(),
        };
        assert(match self.encoding() {
            Ok(bytes) => out matches Ok(v) && v@ == bytes,
            Err(e) => out == Err::<Vec<u8>, SerErr>(e),
        });
        out
    }
}

/// The arguments of an instruction.
#[derive(Debug, PartialEq, Eq)]
pub struct Arguments {
    pub args: Vec<Arg>,
}

/// The encodings of instruction arguments back to back, or the error of the
/// first that has none.
pub open spec fn encode_args(args: Seq<Arg>) -> Result<Seq<u8>, SerErr>
    decreases args.len(),
{
    if args.len() == 0 {
        Ok(Seq::empty())
    } else {
        match args[0].encoding() {
            Err(e) => Err(e),
            Ok(first) => match encode_args(args.drop_first()) {
                Err(e) => Err(e),
                Ok(rest) => Ok(first + rest),
            },
        }
    }
}

impl Serializable for Arguments {
    open spec fn encoding(&self) -> Result<Seq<u8>, SerErr> {
        encode_args(self.args@)
    }

    fn serialize(&self) -> (out: Result<Vec<u8>, SerErr>) {
        let ghost all = self.args@;
        let mut out: Vec<u8> = Vec::new();
        let mut i: usize = 0;
        assert(all.skip(0) =~= all);
        assert(self.encoding() == encode_args(all));
        while i < self.args.len()
            invariant
                i <= self.args.len(),
                all == self.args@,
                self.encoding() == encode_args(all),
                match encode_args(all.skip(i as int)) {
                    Ok(rest) => encode_args(all) == Ok::<Seq<u8>, SerErr>(out@ + rest),
                    Err(e) => encode_args(all) == Err::<Seq<u8>, SerErr>(e),
                },
            decreases self.args.len() - i,
        {
            proof {
                assert(all.skip(i as int)[0] == all[i as int]);
                assert(all.skip(i as int).drop_first() =~= all.skip(i + 1));
            }
            match self.args[i].serialize() {
                Err(e) => {
                    return Err(e);
                },
                Ok(one) => {
                    proof {
                        match encode_args(all.skip(i + 1)) {
                            Ok(rest) => {
                                assert((out@ + one@) + rest =~= out@ + (one@ + rest));
                            },
                            Err(_) => {},
                        }
                    }
                    out = concat(out, one);
                },
            }
            i += 1;
        }
        assert(out@ + Seq::<u8>::empty() =~= out@);
        Ok(out)
    }
}

/// The table of the symbols of a contract: the names of its functions by
/// their four-byte identifiers, in the order of the identifiers. No two
/// names share an identifier.
#[derive(Debug, PartialEq, Eq)]
pub struct Symbols {
    symbols: Vec<(Vec<u8>, String)>,
}

/// The entries of a table: identifiers and names, in order.
pub open spec fn symbols_of(symbols: Seq<(Vec<u8>, String)>) -> Seq<(Seq<u8>, Seq<char>)> {
    Seq::new(symbols.len(), |i: int| (symbols[i].0@, symbols[i].1@))
}

/// The table after `name` is entered under `id`, or `None` where another
/// name stands under this identifier already. A new entry goes before the
/// first greater identifier; a name that is there already changes nothing.
pub open spec fn enter_symbol(
    entries: Seq<(Seq<u8>, Seq<char>)>,
    id: Seq<u8>,
    name: Seq<char>,
) -> Option<Seq<(Seq<u8>, Seq<char>)>>
    decreases entries.len(),
{
    if entries.len() == 0 {
        Some(seq![(id, name)])
    } else {
        match order_bytes(entries[0].0, id) {
            Order::Less => match enter_symbol(entries.drop_first(), id, name) {
                Some(rest) => Some(seq![entries[0]] + rest),
                None => None,
            },
            Order::Equal => if entries[0].1 == name {
                Some(entries)
            } else {
                None
            },
            Order::Greater => Some(seq![(id, name)] + entries),
        }
    }
}

/// The entries of a table as the entries of a map of strings: each
/// identifier with the name in UTF-8.
pub open spec fn symbol_entries(entries: Seq<(Seq<u8>, Seq<char>)>) -> Seq<(FateValue, FateValue)> {
    Seq::new(
        entries.len(),
        |i: int|
            (
                FateValue::String(entries[i].0),
                FateValue::String(vstd::utf8::encode_utf8(entries[i].1)),
            ),
    )
}

impl View for Symbols {
    type V = Seq<(Seq<u8>, Seq<char>)>;

    closed spec fn view(&self) -> Seq<(Seq<u8>, Seq<char>)> {
        symbols_of(self.symbols@)
    }
}

impl Symbols {
    /// The empty table.
    pub fn new() -> (out: Symbols)
        ensures
            out@ == Seq::<(Seq<u8>, Seq<char>)>::empty(),
    {
        let symbols: Vec<(Vec<u8>, String)> = Vec::new();
        assert(symbols_of(symbols@) =~= Seq::<(Seq<u8>, Seq<char>)>::empty());
        Symbols { symbols }
    }

    /// The number of symbols.
    pub fn len(&self) -> (out: usize)
        ensures
            out == self@.len(),
    {
        self.symbols.len()
    }

    /// Enters a name under its identifier. A name whose identifier another
    /// name has already is refused: the table stays as it is and the result
    /// is `false`.
    pub fn insert(&mut self, name: String) -> (accepted: bool)
        ensures
            match enter_symbol(old(self)@, id4_of(name@), name@) {
                Some(entries) => accepted && final(self)@ == entries,
                None => !accepted && final(self)@ == old(self)@,
            },
    {
        let id = id4(name.as_str());
        self.insert_as(id, name)
    }

    /// Enters a name under a given identifier; see `insert`.
    pub fn insert_as(&mut self, id: Vec<u8>, name: String) -> (accepted: bool)
        ensures
            match enter_symbol(old(self)@, id@, name@) {
                Some(entries) => accepted && final(self)@ == entries,
                None => !accepted && final(self)@ == old(self)@,
            },
    {
        let ghost before = symbols_of(self.symbols@);
        let mut i: usize = 0;
        proof {
            assert(before.skip(0) =~= before);
            match enter_symbol(before, id@, name@) {
                Some(all) => {
                    assert(before.take(0) + all =~= all);
                },
                None => {},
            }
        }
        while i < self.symbols.len()
            invariant
                i <= self.symbols.len(),
                before == symbols_of(self.symbols@),
                self.symbols@ == old(self).symbols@,
                match enter_symbol(before.skip(i as int), id@, name@) {
                    Some(rest) => enter_symbol(before, id@, name@) == Some(
                        before.take(i as int) + rest,
                    ),
                    None => enter_symbol(before, id@, name@) is None,
                },
            decreases self.symbols.len() - i,
        {
            proof {
                assert(before.skip(i as int).drop_first() =~= before.skip(i + 1));
                assert(before.skip(i as int)[0] == before[i as int]);
                assert(before[i as int].0 == self.symbols@[i as int].0@);
                assert(before[i as int].1 == self.symbols@[i as int].1@);
            }
            match compare_bytes(&self.symbols[i].0, &id) {
                Order::Less => {
                    proof {
                        match enter_symbol(before.skip(i + 1), id@, name@) {
                            Some(rest) => {
                                assert(before.take(i as int) + (seq![before[i as int]] + rest)
                                    =~= before.take(i + 1) + rest);
                            },
                            None => {},
                        }
                    }
                },
                Order::Equal => {
                    let same: bool = self.symbols[i].1 == name;
                    proof {
                        assert(before.take(i as int) + before.skip(i as int) =~= before);
                    }
                    return same;
                },
                Order::Greater => {
                    self.symbols.insert(i, (id, name));
                    proof {
                        assert(symbols_of(self.symbols@) =~= before.take(i as int) + (seq![
                            (id@, name@),
                        ] + before.skip(i as int)));
                    }
                    return true;
                },
            }
            i += 1;
        }
        self.symbols.push((id, name));
        proof {
            assert(before.skip(i as int) =~= Seq::empty());
            assert(symbols_of(self.symbols@) =~= before.take(i as int) + seq![(id@, name@)]);
        }
        true
    }
}

impl Serializable for Symbols {
    /// A table of symbols is encoded as the map from its identifiers to its
    /// names, all as strings.
    open spec fn encoding(&self) -> Result<Seq<u8>, SerErr> {
        encode_value(FateValue::Mapping(symbol_entries(self@)))
    }

    fn serialize(&self) -> (out: Result<Vec<u8>, SerErr>) {
        let mut entries: Vec<(Value, Value)> = Vec::new();
        let mut i: usize = 0;
        let ghost wanted = symbol_entries(symbols_of(self.symbols@));
        while i < self.symbols.len()
            invariant
                i <= self.symbols.len(),
                wanted == symbol_entries(symbols_of(self.symbols@)),
                entries@.len() == i,
                forall|j: int|
                    0 <= j < i ==> (entries@[j].0@, entries@[j].1@) == #[trigger] wanted[j],
            decreases self.symbols.len() - i,
        {
            let key = Value::String(crate::rlp::copy_bytes(&self.symbols[i].0));
            let val = Value::String(
                vstd::slice::slice_to_vec(self.symbols[i].1.as_str().as_bytes()),
            );
            proof {
                assert(wanted[i as int] == (key@, val@));
            }
            entries.push((key, val));
            i += 1;
        }
        assert(fate_entries_of(entries@) =~= wanted);
        assert(self.encoding() == encode_value(FateValue::Mapping(wanted)));
        Value::Mapping(entries).serialize()
    }
}

/// The entry of a map that stands for an annotation: a comment is the pair
/// of the word `comment` and its line as the key, and its text as the
/// value, all strings in UTF-8.
pub open spec fn annotation_entry(a: Annotation) -> (FateValue, FateValue) {
    match a {
        Annotation::Comment { line, comment } => (
            FateValue::Tuple(
                seq![
                    FateValue::String(vstd::utf8::encode_utf8("comment"@)),
                    FateValue::Integer(line as int),
                ],
            ),
            FateValue::String(vstd::utf8::encode_utf8(comment@)),
        ),
    }
}

/// The entries of a map that stand for annotations, in order.
pub open spec fn annotation_entries(anns: Seq<Annotation>) -> Seq<(FateValue, FateValue)> {
    Seq::new(anns.len(), |i: int| annotation_entry(anns[i]))
}

/// Serializes annotations as the ordered map of their entries: of two
/// comments on one line the later one stays.
pub fn serialize_annotations(anns: &Vec<Annotation>) -> (out: Result<Vec<u8>, SerErr>)
    ensures
        match encode_value(FateValue::Mapping(collect_entries(annotation_entries(anns@)))) {
            Ok(bytes) => out matches Ok(v) && v@ == bytes,
            Err(e) => out == Err::<Vec<u8>, SerErr>(e),
        },
{
    let mut raw: Vec<(Value, Value)> = Vec::new();
    let mut i: usize = 0;
    let ghost wanted = annotation_entries(anns@);
    while i < anns.len()
        invariant
            i <= anns.len(),
            wanted == annotation_entries(anns@),
            raw@.len() == i,
            forall|j: int| 0 <= j < i ==> (raw@[j].0@, raw@[j].1@) == #[trigger] wanted[j],
        decreases anns.len() - i,
    {
        match &anns[i] {
            Annotation::Comment { line, comment } => {
                let pair: Vec<Value> = vec![
                    Value::String(vstd::slice::slice_to_vec("comment".as_bytes())),
                    Value::Integer(Int::from_u64(*line as u64)),
                ];
                assert(fate_values_of(pair@) =~= seq![
                    FateValue::String(vstd::utf8::encode_utf8("comment"@)),
                    FateValue::Integer(*line as int),
                ]);
                let key = Value::Tuple(pair);
                let val = Value::String(vstd::slice::slice_to_vec(comment.as_str().as_bytes()));
                proof {
                    assert(wanted[i as int] == (key@, val@));
                }
                raw.push((key, val));
            },
        }
        i += 1;
    }
    assert(fate_entries_of(raw@) =~= wanted);
    proof {
        assert forall|j: int| 0 <= j < wanted.len() implies comparable(#[trigger] wanted[j].0) by {
            let key = wanted[j].0;
            let pair = key->Tuple_0;
            assert(pair.drop_first().drop_first() =~= Seq::<FateValue>::empty());
            assert(all_comparable(pair.drop_first().drop_first()));
            assert(comparable(pair.drop_first()[0]));
            assert(all_comparable(pair.drop_first()));
            assert(comparable(pair[0]));
            assert(all_comparable(pair));
        }
    }
    match Value::map_of(raw) {
        Some(map) => map.serialize(),
        None => Err(SerErr::MapAsKeyType),
    }
}

} // verus!
