//! The codec of text: a string is its UTF-8 bytes, with no length of its own.
use crate::errors::ByteVecError;
use crate::impls::BVSize;
use crate::layout::size_of_len;
use crate::traits::{ByteDecodable, ByteEncodable, RoundTrip};
use std::str::Utf8Error;
use vstd::prelude::*;
use vstd::slice::slice_to_vec;
use vstd::utf8::{decode_utf8, encode_utf8, valid_utf8};

verus! {

/// The error that `core::str::from_utf8` gives for `bytes` that are not UTF-8:
/// it tells how far the bytes are valid, and how long the sequence is that is not.
pub uninterp spec fn utf8_error(bytes: Seq<u8>) -> Utf8Error;

/// The text that `bytes` hold, if they are UTF-8.
///
/// Wraps `core::str::from_utf8`, which succeeds exactly on the buffers that
/// are valid UTF-8 and then returns a string slice over the very same bytes.
/// Its error depends on the bytes alone, and is named `utf8_error`.
#[verifier::external_body]
fn str_from_utf8(bytes: &[u8]) -> (text: Result<&str, Utf8Error>)
    ensures
        text is Ok <==> valid_utf8(bytes@),
        text matches Ok(s) ==> encode_utf8(s@) == bytes@,
        text matches Err(e) ==> e == utf8_error(bytes@),
{
    core::str::from_utf8(bytes)
}

impl ByteEncodable for str {
    open spec fn obeys_encoding_spec() -> bool {
        true
    }

    open spec fn encoding(&self, width: nat) -> Seq<u8> {
        encode_utf8(self@)
    }

    fn get_size<Size>(&self) -> (size: Option<Size>) where Size: BVSize {
        size_of_len::<Size>(self.as_bytes().len())
    }

    fn encode<Size>(&self) -> (bytes: Result<Vec<u8>, ByteVecError>) where Size: BVSize {
        match self.get_size::<Size>() {
            Some(size) => {
                proof {
                    size.lemma_value();
                }
                Ok(slice_to_vec(self.as_bytes()))
            },
            None => Err(ByteVecError::OverflowError),
        }
    }
}

impl ByteEncodable for String {
    open spec fn obeys_encoding_spec() -> bool {
        true
    }

    open spec fn encoding(&self, width: nat) -> Seq<u8> {
        encode_utf8(self@)
    }

    fn get_size<Size>(&self) -> (size: Option<Size>) where Size: BVSize {
        self.as_str().get_size::<Size>()
    }

    fn encode<Size>(&self) -> (bytes: Result<Vec<u8>, ByteVecError>) where Size: BVSize {
        self.as_str().encode::<Size>()
    }
}

impl ByteDecodable for String {
    open spec fn obeys_decoding_spec() -> bool {
        true
    }

    /// Bytes that are UTF-8 decode to the text they spell; any others give
    /// the error that tells where they stop being UTF-8.
    open spec fn decodes_to(
        bytes: Seq<u8>,
        width: nat,
        outcome: Result<Self, ByteVecError>,
    ) -> bool {
        match outcome {
            Ok(text) => valid_utf8(bytes) && text@ == decode_utf8(bytes),
            Err(e) => !valid_utf8(bytes) && e == ByteVecError::StringDecodeUtf8Error(
                utf8_error(bytes),
            ),
        }
    }

    fn decode<Size>(bytes: &[u8]) -> (outcome: Result<Self, ByteVecError>) where Size: BVSize {
        match str_from_utf8(bytes) {
            Ok(text) => {
                proof {
                    vstd::utf8::encode_utf8_decode_utf8(text@);
                }
                Ok(text.to_owned())
            },
            Err(e) => Err(ByteVecError::StringDecodeUtf8Error(e)),
        }
    }
}

impl RoundTrip for String {
    open spec fn same(&self, other: &Self) -> bool {
        self@ == other@
    }

    proof fn lemma_round_trip(&self, width: nat, outcome: Result<Self, ByteVecError>) {
        vstd::utf8::encode_utf8_valid_utf8(self@);
        vstd::utf8::encode_utf8_decode_utf8(self@);
    }
}

} // verus!
