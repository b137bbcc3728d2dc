//! Errors of the FATE encodings.

use crate::data::value::Value;
use vstd::prelude::*;

verus! {

/// Why a value or a type cannot be serialized.
#[derive(Debug, Clone, Copy, PartialEq, Eq, Structural)]
pub enum SerErr {
    /// A store map still has entries in its cache.
    NonEmptyStoreMapCache,
    /// The tag of a variant does not select one of its arities.
    InvalidVariantTag,
    /// A map has a map among its keys.
    MapAsKeyType,
    /// The keys of a map are not all of one kind.
    HeteroMapKeys,
    /// The values of a map are not all of one kind.
    HeteroMapValues,
    /// A variant does not hold as many values as the arity at its tag says.
    ArityValuesMismatch,
    /// A tuple type has more than 255 elements.
    TupleSizeLimitExceeded,
    /// A variant type has more than 255 constructors.
    VariantSizeLimitExceeded,
}

/// Why bytes do not decode to a value or a type.
#[derive(Debug, PartialEq, Eq)]
pub enum DeserErr {
    /// The input ends where a value or a type has to start.
    Empty,
    /// No value starts with this byte.
    InvalidIdByte(u8),
    /// No object has this id byte.
    InvalidObjectByte(u8),
    /// The payload of a bytes object is not a string.
    InvalidBytesObject,
    /// An object is cut off before its payload.
    InvalidObject,
    /// An embedded RLP item does not decode.
    RlpErr(crate::rlp::DecodingErr),
    /// An embedded RLP item is not of the expected shape.
    ExternalErr(crate::error::DecodingErr),
    /// A type variable is cut off before its index.
    InvalidTypeVar,
    /// No type starts with this byte.
    InvalidTypeId(u8),
    /// The whole input was to be consumed, but bytes are left after the
    /// value.
    Trailing { input: Vec<u8>, undecoded: Vec<u8>, decoded: Value },
    /// The size of a bytes type is below -1.
    InvalidIntValue,
    /// The size of a bytes type is not an integer.
    InvalidBytesType,
    /// The size of a bytes type does not fit the machine.
    BytesSizeTooBig,
    /// A tuple is malformed.
    InvalidTuple,
    /// A tuple or variant type is cut off before its element count.
    InvalidTupleOrVariant,
    /// No object type has this id byte.
    InvalidTypeObjectByte(u8),
    /// The length of a string is not a non-negative integer that fits the
    /// machine, or the input is shorter than it.
    InvalidString,
    /// The same, for a contract byte array.
    InvalidContractBytearray,
    /// The length of a long list does not fit the machine.
    InvalidListSize,
    /// The length of a long tuple does not fit the machine.
    InvalidTupleSize,
    /// The number of entries of a map does not fit the machine.
    InvalidMapSize,
    /// The id of a store map does not fit 32 bits.
    InvalidMapId,
    /// The tag of a variant does not select one of its arities.
    TooLargeTagInVariant,
    /// The payload of a variant is cut off or not a tuple.
    BadVariant,
    /// A variant does not hold as many values as the arity at its tag says.
    TagDoesNotMatchTypeInVariant,
    /// A key of a map holds a type or a store map, which have no order.
    IncomparableMapKey,
    /// The bytes are not call-data for the function asked for.
    CalldataDecodeErr,
}

} // verus!
