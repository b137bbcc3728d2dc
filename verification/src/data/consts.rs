//! Tag bytes and size thresholds of the FATE value and type encodings.

use vstd::prelude::*;

verus! {

// Value tags
pub const TRUE: u8 = 0b1111_1111;

pub const FALSE: u8 = 0b0111_1111;

pub const EMPTY_STRING: u8 = 0b0101_1111;

pub const EMPTY_TUPLE: u8 = 0b0011_1111;

pub const SHORT_STRING: u8 = 0b0000_0001;

pub const LONG_STRING: u8 = 0b0000_0001;

pub const SHORT_TUPLE: u8 = 0b0000_1011;

pub const LONG_TUPLE: u8 = 0b0000_1011;

pub const SHORT_LIST: u8 = 0b0000_0011;

pub const LONG_LIST: u8 = 0b0001_1111;

pub const SMALL_INT: u8 = 0b0000_0000;

pub const MAP: u8 = 0b0010_1111;

pub const MAP_ID: u8 = 0b1011_1111;

pub const VARIANT: u8 = 0b1010_1111;

pub const OBJECT: u8 = 0b1001_1111;

pub const CONTRACT_BYTEARRAY: u8 = 0b1000_1111;

// Object kinds
pub const OTYPE_ADDRESS: u8 = 0;

pub const OTYPE_BYTES: u8 = 1;

pub const OTYPE_CONTRACT: u8 = 2;

pub const OTYPE_ORACLE: u8 = 3;

pub const OTYPE_ORACLE_QUERY: u8 = 4;

pub const OTYPE_CHANNEL: u8 = 5;

// Thresholds between the short and the long forms
pub const SHORT_LIST_SIZE: usize = 16;

pub const SHORT_TUPLE_SIZE: usize = 16;

pub const SHORT_STRING_SIZE: usize = 64;

pub const SMALL_INT_SIZE: usize = 64;

// Signed integers
pub const POS_SIGN: u8 = 0;

pub const NEG_SIGN: u8 = 1;

pub const NEG_BIG_INT: u8 = 0b1110_1111;

pub const POS_BIG_INT: u8 = 0b0110_1111;

pub const NEG_BITS: u8 = 0b1100_1111;

pub const POS_BITS: u8 = 0b0100_1111;

// Type tags
pub const TYPE_INTEGER: u8 = 0b0000_0111;

pub const TYPE_BOOLEAN: u8 = 0b0001_0111;

pub const TYPE_LIST: u8 = 0b0010_0111;

pub const TYPE_TUPLE: u8 = 0b0011_0111;

pub const TYPE_OBJECT: u8 = 0b0100_0111;

pub const TYPE_BITS: u8 = 0b0101_0111;

pub const TYPE_MAP: u8 = 0b0110_0111;

pub const TYPE_STRING: u8 = 0b0111_0111;

pub const TYPE_VARIANT: u8 = 0b1000_0111;

pub const TYPE_BYTES: u8 = 0b1001_0111;

pub const TYPE_CONTRACT_BYTEARRAY: u8 = 0b1010_0111;

pub const TYPE_VAR: u8 = 0b1110_0111;

pub const TYPE_ANY: u8 = 0b1111_0111;

/// The tags of small non-negative integers are the even bytes below 128.
pub open spec fn small_pos_int_tag(tag: u8) -> bool {
    tag < 128 && tag % 2 == 0
}

/// The tags of small negative integers are the even bytes from 128 on.
pub open spec fn small_neg_int_tag(tag: u8) -> bool {
    tag >= 128 && tag % 2 == 0
}

/// The tags of short strings end in the bits `01`; the six bits above hold
/// the length.
pub open spec fn short_string_tag(tag: u8) -> bool {
    tag % 4 == 1
}

/// The tags of short tuples end in the bits `1011`; the four bits above
/// hold the length.
pub open spec fn short_tuple_tag(tag: u8) -> bool {
    tag % 16 == 11
}

/// The tags of short lists end in the bits `0011`; the four bits above hold
/// the length.
pub open spec fn short_list_tag(tag: u8) -> bool {
    tag % 16 == 3
}

/// The thirteen tags with which the encoding of a type starts.
pub open spec fn type_tag(tag: u8) -> bool {
    tag == TYPE_INTEGER || tag == TYPE_BOOLEAN || tag == TYPE_LIST || tag == TYPE_TUPLE || tag
        == TYPE_OBJECT || tag == TYPE_BITS || tag == TYPE_MAP || tag == TYPE_STRING || tag
        == TYPE_VARIANT || tag == TYPE_BYTES || tag == TYPE_CONTRACT_BYTEARRAY || tag == TYPE_VAR
        || tag == TYPE_ANY
}

/// Whether `tag` is the one byte of a small non-negative integer.
pub fn is_small_pos_int(tag: u8) -> (out: bool)
    ensures
        out == small_pos_int_tag(tag),
{
    assert((tag & 0b1000_0001 == 0) == (tag < 128 && tag % 2 == 0)) by (bit_vector);
    assert((0u8 << 7) | 0u8 == 0u8) by (bit_vector);
    tag & 0b1000_0001 == ((POS_SIGN << 7) | SMALL_INT)
}

/// Whether `tag` is the one byte of a small negative integer.
pub fn is_small_neg_int(tag: u8) -> (out: bool)
    ensures
        out == small_neg_int_tag(tag),
{
    assert((tag & 0b1000_0001 == 0b1000_0000) == (tag >= 128 && tag % 2 == 0)) by (bit_vector);
    assert((1u8 << 7) | 0u8 == 0b1000_0000u8) by (bit_vector);
    tag & 0b1000_0001 == ((NEG_SIGN << 7) | SMALL_INT)
}

/// Whether `tag` starts a string of 1 to 63 bytes.
pub fn is_short_string(tag: u8) -> (out: bool)
    ensures
        out == short_string_tag(tag),
{
    assert((tag & 0b0000_0011 == 1) == (tag % 4 == 1)) by (bit_vector);
    tag & 0b0000_0011 == SHORT_STRING
}

/// Whether `tag` starts a tuple of 1 to 15 elements.
pub fn is_short_tuple(tag: u8) -> (out: bool)
    ensures
        out == short_tuple_tag(tag),
{
    assert((tag & 0b0000_1111 == 0b0000_1011) == (tag % 16 == 11)) by (bit_vector);
    tag & 0b0000_1111 == SHORT_TUPLE
}

/// Whether `tag` starts a list of up to 15 elements.
pub fn is_short_list(tag: u8) -> (out: bool)
    ensures
        out == short_list_tag(tag),
{
    assert((tag & 0b0000_1111 == 0b0000_0011) == (tag % 16 == 3)) by (bit_vector);
    tag & 0b0000_1111 == SHORT_LIST
}

/// Whether `tag` starts the encoding of a type.
pub fn is_type_tag(tag: u8) -> (out: bool)
    ensures
        out == type_tag(tag),
{
    tag == TYPE_INTEGER || tag == TYPE_BOOLEAN || tag == TYPE_LIST || tag == TYPE_TUPLE || tag
        == TYPE_OBJECT || tag == TYPE_BITS || tag == TYPE_MAP || tag == TYPE_STRING || tag
        == TYPE_VARIANT || tag == TYPE_BYTES || tag == TYPE_CONTRACT_BYTEARRAY || tag == TYPE_VAR
        || tag == TYPE_ANY
}

} // verus!
