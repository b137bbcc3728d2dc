//! Call-data: the identifier of a function and its arguments as one FATE
//! value.

use crate::data::error::{DeserErr, SerErr};
use crate::data::value::{encode_value, fate_values_of, parse_value, FateValue, Value};
use crate::data::laws::{all_well_formed, lemma_value_round_trip, well_formed};
use crate::hash::{id4, id4_of};
use vstd::prelude::*;

verus! {

/// Return the current ABI version.
pub fn abi_version() -> (out: u32)
    ensures
        out == 3,
{
    3
}

/// The value that call-data encodes: the pair of the function identifier,
/// as bytes, and the tuple of the arguments.
pub open spec fn calldata_value(fun_id: Seq<u8>, args: Seq<FateValue>) -> FateValue {
    FateValue::Tuple(seq![FateValue::Bytes(fun_id), FateValue::Tuple(args)])
}

/// What reading a decoded value as call-data for the function `fun_id`
/// gives: the arguments, where the value is a pair of exactly these bytes
/// and a tuple.
pub open spec fn calldata_args(fun_id: Seq<u8>, v: FateValue) -> Option<Seq<FateValue>> {
    match v {
        FateValue::Tuple(elems) => if elems.len() == 2 && elems[0] == FateValue::Bytes(fun_id) {
            match elems[1] {
                FateValue::Tuple(args) => Some(args),
                _ => None,
            }
        } else {
            None
        },
        _ => None,
    }
}

/// Reading call-data as call-data for the same function gives the
/// arguments back.
pub proof fn lemma_calldata_args(fun_id: Seq<u8>, args: Seq<FateValue>)
    ensures
        calldata_args(fun_id, calldata_value(fun_id, args)) == Some(args),
{
}

/// Decoding inverts encoding for call-data: where the identifier and the
/// arguments fit the machine and the arguments are well formed, call-data
/// that can be encoded decodes to the value it was made from, and reading
/// that value for the same function gives the arguments back.
pub proof fn lemma_calldata_round_trip(fun_id: Seq<u8>, args: Seq<FateValue>)
    requires
        fun_id.len() <= usize::MAX,
        args.len() <= usize::MAX,
        all_well_formed(args),
    ensures
        encode_value(calldata_value(fun_id, args)) matches Ok(bytes) ==> parse_value(bytes) == Ok::<
            (FateValue, int),
            DeserErr,
        >((calldata_value(fun_id, args), bytes.len() as int)),
        calldata_args(fun_id, calldata_value(fun_id, args)) == Some(args),
{
    let pair = seq![FateValue::Bytes(fun_id), FateValue::Tuple(args)];
    assert(pair.drop_first() =~= seq![FateValue::Tuple(args)]);
    assert(pair.drop_first().drop_first() =~= Seq::<FateValue>::empty());
    assert(well_formed(FateValue::Bytes(fun_id)));
    assert(well_formed(FateValue::Tuple(args)));
    assert(all_well_formed(pair.drop_first().drop_first()));
    assert(pair.drop_first()[0] == FateValue::Tuple(args));
    assert(all_well_formed(pair.drop_first()));
    assert(all_well_formed(pair));
    assert(well_formed(calldata_value(fun_id, args)));
    lemma_value_round_trip(calldata_value(fun_id, args));
}

/// Whether two byte vectors hold the same bytes.
pub fn same_bytes(a: &Vec<u8>, b: &Vec<u8>) -> (out: bool)
    ensures
        out == (a@ == b@),
{
    if a.len() != b.len() {
        return false;
    }
    let mut i: usize = 0;
    while i < a.len()
        invariant
            i <= a.len(),
            a.len() == b.len(),
            forall|j: int| 0 <= j < i ==> a@[j] == b@[j],
        decreases a.len() - i,
    {
        if a[i] != b[i] {
            return false;
        }
        i += 1;
    }
    assert(a@ =~= b@);
    true
}

/// Encodes the call-data for the function with the identifier `fun_id`.
pub fn calldata_for(fun_id: Vec<u8>, args: Vec<Value>) -> (out: Result<Vec<u8>, SerErr>)
    ensures
        match encode_value(calldata_value(fun_id@, fate_values_of(args@))) {
            Ok(bytes) => out matches Ok(v) && v@ == bytes,
            Err(e) => out == Err::<Vec<u8>, SerErr>(e),
        },
{
    let pair: Vec<Value> = vec![Value::Bytes(fun_id), Value::Tuple(args)];
    assert(fate_values_of(pair@) =~= seq![
        FateValue::Bytes(fun_id@),
        FateValue::Tuple(fate_values_of(args@)),
    ]);
    Value::Tuple(pair).serialize()
}

/// Reads a decoded value as call-data for the function with the identifier
/// `fun_id`.
pub fn args_of(fun_id: &Vec<u8>, value: Value) -> (out: Result<Vec<Value>, DeserErr>)
    ensures
        match calldata_args(fun_id@, value@) {
            Some(args) => out matches Ok(v) && fate_values_of(v@) == args,
            None => out == Err::<Vec<Value>, DeserErr>(DeserErr::CalldataDecodeErr),
        },
{
    match value {
        Value::Tuple(elems) => {
            let mut elems = elems;
            let ghost model = fate_values_of(elems@);
            if elems.len() != 2 {
                return Err(DeserErr::CalldataDecodeErr);
            }
            assert(model[0] == elems@[0]@ && model[1] == elems@[1]@);
            let second = elems.pop();
            let first = elems.pop();
            match (first, second) {
                (Some(Value::Bytes(id)), Some(Value::Tuple(args))) => {
                    if same_bytes(&id, fun_id) {
                        Ok(args)
                    } else {
                        Err(DeserErr::CalldataDecodeErr)
                    }
                },
                _ => Err(DeserErr::CalldataDecodeErr),
            }
        },
        _ => Err(DeserErr::CalldataDecodeErr),
    }
}

/// Decodes call-data for the function with the identifier `fun_id`. Bytes
/// that are not exactly one value give the error of the value decoder; a
/// value that is not call-data for this function gives `CalldataDecodeErr`.
pub fn args_from(fun_id: &Vec<u8>, calldata: &Vec<u8>) -> (out: Result<Vec<Value>, DeserErr>)
    ensures
        match parse_value(calldata@) {
            Ok((v, n)) => if n == calldata@.len() {
                match calldata_args(fun_id@, v) {
                    Some(args) => out matches Ok(decoded) && fate_values_of(decoded@) == args,
                    None => out == Err::<Vec<Value>, DeserErr>(DeserErr::CalldataDecodeErr),
                }
            } else {
                out matches Err(DeserErr::Trailing { input, undecoded, decoded }) && input@
                    == calldata@ && undecoded@ == calldata@.skip(n) && decoded@ == v
            },
            Err(e) => out == Err::<Vec<Value>, DeserErr>(e),
        },
{
    match Value::deserialize(calldata.as_slice()) {
        Err(e) => Err(e),
        Ok(value) => args_of(fun_id, value),
    }
}

/// Encode the calldata given the function name and the list of arguments.
pub fn create_calldata(fun_name: &String, args: Vec<Value>) -> (out: Result<Vec<u8>, SerErr>)
    ensures
        match encode_value(
            calldata_value(id4_of(fun_name@), fate_values_of(args@)),
        ) {
            Ok(bytes) => out matches Ok(v) && v@ == bytes,
            Err(e) => out == Err::<Vec<u8>, SerErr>(e),
        },
{
    calldata_for(id4(fun_name.as_str()), args)
}

/// Decode the calldata into a list of args given the function name and
/// encoded calldata.
pub fn decode_calldata(fun_name: &String, calldata: Vec<u8>) -> (out: Result<Vec<Value>, DeserErr>)
    ensures
        match parse_value(calldata@) {
            Ok((v, n)) => if n == calldata@.len() {
                match calldata_args(id4_of(fun_name@), v) {
                    Some(args) => out matches Ok(decoded) && fate_values_of(decoded@) == args,
                    None => out == Err::<Vec<Value>, DeserErr>(DeserErr::CalldataDecodeErr),
                }
            } else {
                out matches Err(DeserErr::Trailing { input, undecoded, decoded }) && input@
                    == calldata@ && undecoded@ == calldata@.skip(n) && decoded@ == v
            },
            Err(e) => out == Err::<Vec<Value>, DeserErr>(e),
        },
{
    let fun_id = id4(fun_name.as_str());
    args_from(&fun_id, &calldata)
}

} // verus!
