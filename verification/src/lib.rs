//! A verified recursive-descent decoder for the bencode serialization
//! format: length-prefixed strings, signed integers, lists, and
//! string-keyed dictionaries with insertion order preserved.

pub mod decode;
pub mod grammar;
pub mod input;
pub mod value;

pub use decode::decode_bencoded_value;
pub use value::Value;
