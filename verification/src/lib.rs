//! Serialization of values to byte vectors and back.
//!
//! A value that implements [`ByteEncodable`] turns into a `Vec<u8>`, and a
//! type that implements [`ByteDecodable`] is rebuilt from such a buffer.
//!
//! - An integer is its bytes, least significant first; a `char` is its scalar
//!   value as a `u32`.
//! - A string is its UTF-8 bytes and carries no length of its own.
//! - A tuple is the length of each field, then the fields. A record is
//!   written as the tuple of its fields, and may leave fields out of it.
//! - A collection is its element count, the length of each element, then the
//!   elements.
//!
//! Every count and length is written in the unsigned integer type that the
//! caller names with the `Size` parameter, a [`BVSize`]; the buffer does not
//! say which one it was, so a buffer is decoded with the type it was encoded
//! with.
//!
//! Each codec is specified by a function from the value to its bytes and a
//! relation from bytes to the outcome of decoding them, and [`RoundTrip`]
//! states that the second undoes the first.
use vstd::prelude::*;

pub mod endian;
pub mod errors;
pub mod impls;
pub mod layout;
pub mod traits;

pub use crate::impls::BVSize;
pub use crate::traits::{ByteDecodable, ByteEncodable, RoundTrip};

verus! {

pub type BVEncodeResult<T> = Result<T, errors::ByteVecError>;

pub type BVDecodeResult<T> = Result<T, errors::ByteVecError>;

} // verus!
