//! Serialization toolkit for on-chain data: the RLP byte-tree format, the FATE
//! value and type encodings built on it, chain identifiers, checksummed API
//! strings, the contract-code container and call-data.
//!
//! Every codec comes with a mathematical description of its wire format
//! (`spec` functions over `Seq<u8>`) and executable functions proved to agree
//! with that description. The laws that the formats obey, such as that
//! decoding inverts encoding, are proof functions beside them.
//!
//! - [`rlp`]: recursive-length-prefix encoding of byte-array trees.
//! - [`data`]: FATE integers, types and values; the order of values.
//! - [`id`]: identifiers of chain objects.
//! - [`api_encoder`]: API strings with a type prefix and a check.
//! - [`contract_code`]: the container of contract code.
//! - [`abi`]: call-data.
//! - [`code`]: parts of a contract's function table.
//! - [`hash`]: Blake2b digests and the identifiers derived from them.
//! - [`integer`]: integers of arbitrary size.
//! - [`bytes`]: big-endian numbers as byte strings.
//! - [`error`]: errors of the identifier, API-string and container codecs.

pub mod abi;
pub mod api_encoder;
pub mod bytes;
pub mod code;
pub mod contract_code;
pub mod data;
pub mod error;
pub mod hash;
pub mod id;
pub mod integer;
pub mod rlp;
