//! The two capabilities of the library: turning a value into bytes, and back.
use crate::endian::max_of_width;
use crate::errors::{not_within, BVExpectedSize, ByteVecError};
use crate::impls::BVSize;
use vstd::prelude::*;

verus! {

/// Whether a buffer of `len` bytes can be measured by a size of `width` bytes.
pub open spec fn fits(len: nat, width: nat) -> bool {
    len <= max_of_width(width)
}

/// Whether `size` is the size owed for an encoding of `len` bytes: that
/// length, or nothing where `Size` cannot hold it.
pub open spec fn size_is<Size: BVSize>(size: Option<Size>, len: nat) -> bool {
    match size {
        Some(n) => n.value() == len,
        None => !fits(len, Size::width()),
    }
}

/// Whether `bytes` is the result owed for a value whose encoding is
/// `encoding`: that encoding, or an overflow error where sizes of `width`
/// bytes cannot hold its length.
pub open spec fn encodes_as(
    bytes: Result<Vec<u8>, ByteVecError>,
    encoding: Seq<u8>,
    width: nat,
) -> bool {
    match bytes {
        Ok(b) => b@ == encoding && fits(encoding.len(), width),
        Err(e) => e is OverflowError && !fits(encoding.len(), width),
    }
}

/// The values that can be turned into bytes.
pub trait ByteEncodable {
    /// Whether this type's methods keep to `encoding`. The contracts below bind
    /// only the types that say so.
    open spec fn obeys_encoding_spec() -> bool {
        false
    }

    /// The bytes that stand for this value when sizes are `width` bytes wide.
    open spec fn encoding(&self, width: nat) -> Seq<u8> {
        arbitrary()
    }

    /// Returns the length of the buffer that `encode` gives, or `None` where
    /// `Size` cannot hold that length.
    fn get_size<Size>(&self) -> (size: Option<Size>) where Size: BVSize
        ensures
            Self::obeys_encoding_spec() ==> size_is(size, self.encoding(Size::width()).len()),
    ;

    /// Returns the bytes that stand for this value, or an overflow error
    /// where `Size` cannot hold their number.
    fn encode<Size>(&self) -> (bytes: Result<Vec<u8>, ByteVecError>) where Size: BVSize
        ensures
            Self::obeys_encoding_spec() ==> encodes_as(
                bytes,
                self.encoding(Size::width()),
                Size::width(),
            ),
    ;
}

/// The types whose values can be rebuilt from bytes.
pub trait ByteDecodable: Sized {
    /// Whether this type's `decode` keeps to `decodes_to`. The contracts below
    /// bind only the types that say so.
    open spec fn obeys_decoding_spec() -> bool {
        false
    }

    /// Whether `outcome` is what decoding `bytes` must give when sizes are
    /// `width` bytes wide.
    open spec fn decodes_to(
        bytes: Seq<u8>,
        width: nat,
        outcome: Result<Self, ByteVecError>,
    ) -> bool {
        arbitrary()
    }

    /// Returns the value that `bytes` stand for, or the reason why they stand
    /// for none.
    fn decode<Size>(bytes: &[u8]) -> (outcome: Result<Self, ByteVecError>) where Size: BVSize
        ensures
            Self::obeys_decoding_spec() ==> Self::decodes_to(bytes@, Size::width(), outcome),
    ;

    /// Returns the result of `decode` where `bytes` is no longer than `limit`,
    /// and refuses the buffer unread where it is.
    fn decode_max<Size>(bytes: &[u8], limit: Size) -> (outcome: Result<
        Self,
        ByteVecError,
    >) where Size: BVSize
        ensures
            bytes@.len() > limit.value() ==> outcome == Err::<Self, ByteVecError>(
                not_within(limit.value(), bytes@.len()),
            ),
            bytes@.len() <= limit.value() && Self::obeys_decoding_spec() ==> Self::decodes_to(
                bytes@,
                Size::width(),
                outcome,
            ),
    {
        if bytes.len() <= limit.as_usize() {
            Self::decode::<Size>(bytes)
        } else {
            Err(
                ByteVecError::BadSizeDecodeError {
                    expected: BVExpectedSize::LessOrEqualThan(limit.as_usize()),
                    actual: bytes.len(),
                },
            )
        }
    }
}

/// The types whose values come back from their own encoding.
pub trait RoundTrip: ByteEncodable + ByteDecodable {
    /// Whether `other` holds what `self` holds.
    spec fn same(&self, other: &Self) -> bool;

    /// Decoding the encoding of a value, at the width it was encoded with,
    /// succeeds and gives the same value, provided the encoding fits that width.
    proof fn lemma_round_trip(&self, width: nat, outcome: Result<Self, ByteVecError>)
        requires
            1 <= width <= 8,
            fits(self.encoding(width).len(), width),
            Self::decodes_to(self.encoding(width), width, outcome),
        ensures
            outcome matches Ok(v) && self.same(&v),
    ;
}

} // verus!
