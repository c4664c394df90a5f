//! The codecs of the fixed-width types: integers, `char` and `usize`.
use crate::endian::{
    get_le, le_bytes, le_value, lemma_le_bytes_len, lemma_le_value_bound,
    lemma_le_value_of_bytes, lemma_pow256_increases, lemma_pow256_values, pow256, put_le,
};
use crate::errors::{not_equal_to, BVExpectedSize, ByteVecError};
use crate::impls::BVSize;
use crate::traits::{fits, ByteDecodable, ByteEncodable, RoundTrip};
use vstd::prelude::*;

verus! {

/// What a buffer that should hold exactly `n` bytes of an integer decodes to.
pub open spec fn fixed_frame(bytes: Seq<u8>, n: nat) -> Result<nat, ByteVecError> {
    if bytes.len() == n {
        Ok(le_value(bytes))
    } else {
        Err(not_equal_to(n, bytes.len()))
    }
}

/// The unsigned number with the bit pattern of `x` in `n` bytes of two's complement.
pub open spec fn to_unsigned(x: int, n: nat) -> nat {
    if x >= 0 {
        x as nat
    } else {
        (x + pow256(n)) as nat
    }
}

/// The signed number with the bit pattern of `v` in `n` bytes of two's complement.
pub open spec fn to_signed(v: nat, n: nat) -> int {
    if 2 * v < pow256(n) {
        v as int
    } else {
        v - pow256(n)
    }
}

/// Whether `u` is a Unicode scalar value, and so the number of a `char`.
pub open spec fn is_char_value(u: u32) -> bool {
    u <= 0xD7FF || 0xE000 <= u <= 0x10FFFF
}

/// How many bytes a `usize` takes on this platform.
pub open spec fn usize_bytes() -> nat {
    (usize::BITS / 8) as nat
}

/// The size of a value that always takes `n` bytes. No size type is too
/// narrow for it.
pub(crate) fn fixed_size<Size>(n: usize) -> (size: Option<Size>) where Size: BVSize
    requires
        n <= 8,
    ensures
        size matches Some(s) && s.value() == n,
        fits(n as nat, Size::width()),
{
    proof {
        Size::lemma_width();
        lemma_pow256_values();
        lemma_pow256_increases(1, Size::width());
        vstd::arithmetic::div_mod::lemma_small_mod(n as nat, pow256(Size::width()));
    }
    Some(Size::from_usize(n))
}

/// The `n` low-order bytes of `value`, least significant first.
pub(crate) fn encode_fixed<Size>(value: u64, n: usize) -> (bytes: Result<
    Vec<u8>,
    ByteVecError,
>) where Size: BVSize
    requires
        n <= 8,
    ensures
        bytes matches Ok(b) && b@ == le_bytes(value as nat, n as nat) && b@.len() == n,
        fits(n as nat, Size::width()),
{
    proof {
        Size::lemma_width();
        lemma_pow256_values();
        lemma_pow256_increases(1, Size::width());
        lemma_le_bytes_len(value as nat, n as nat);
    }
    let mut out: Vec<u8> = Vec::new();
    put_le(&mut out, value, n);
    Ok(out)
}

/// The number that `bytes` spell, where they are exactly `n`; an error that
/// names `n` and their length, where they are not.
pub(crate) fn decode_fixed(bytes: &[u8], n: usize) -> (outcome: Result<u64, ByteVecError>)
    requires
        n <= 8,
    ensures
        match outcome {
            Ok(v) => fixed_frame(bytes@, n as nat) == Ok::<nat, ByteVecError>(v as nat) && v
                < pow256(n as nat),
            Err(e) => fixed_frame(bytes@, n as nat) == Err::<nat, ByteVecError>(e),
        },
{
    if bytes.len() == n {
        proof {
            lemma_le_value_bound(bytes@);
        }
        Ok(get_le(bytes))
    } else {
        Err(
            ByteVecError::BadSizeDecodeError {
                expected: BVExpectedSize::EqualTo(n),
                actual: bytes.len(),
            },
        )
    }
}

/// The `char` numbered `u`, if `u` is the number of one.
///
/// Wraps `char::from_u32`, which gives `None` exactly for the numbers that are
/// no Unicode scalar value.
#[verifier::external_body]
fn char_from_u32(u: u32) -> (c: Option<char>)
    ensures
        c is Some <==> is_char_value(u),
        c matches Some(ch) ==> ch as u32 == u,
{
    char::from_u32(u)
}

/// A `u8` is written as its 1 byte, least significant first.
impl ByteEncodable for u8 {
    open spec fn obeys_encoding_spec() -> bool {
        true
    }

    open spec fn encoding(&self, width: nat) -> Seq<u8> {
        le_bytes(*self as nat, 1)
    }

    fn get_size<Size>(&self) -> (size: Option<Size>) where Size: BVSize
        ensures
            size is Some,
    {
        proof {
            lemma_le_bytes_len(*self as nat, 1);
        }
        fixed_size::<Size>(1)
    }

    fn encode<Size>(&self) -> (bytes: Result<Vec<u8>, ByteVecError>) where Size: BVSize
        ensures
            bytes is Ok,
    {
        encode_fixed::<Size>(*self as u64, 1)
    }
}

impl ByteDecodable for u8 {
    open spec fn obeys_decoding_spec() -> bool {
        true
    }

    open spec fn decodes_to(
        bytes: Seq<u8>,
        width: nat,
        outcome: Result<Self, ByteVecError>,
    ) -> bool {
        outcome == match fixed_frame(bytes, 1) {
            Ok(v) => Ok::<u8, ByteVecError>(v as u8),
            Err(e) => Err(e),
        }
    }

    fn decode<Size>(bytes: &[u8]) -> (outcome: Result<Self, ByteVecError>) where Size: BVSize {
        match decode_fixed(bytes, 1) {
            Ok(v) => {
                proof {
                    lemma_pow256_values();
                }
                Ok(v as u8)
            },
            Err(e) => Err(e),
        }
    }
}

impl RoundTrip for u8 {
    open spec fn same(&self, other: &Self) -> bool {
        *self == *other
    }

    proof fn lemma_round_trip(&self, width: nat, outcome: Result<Self, ByteVecError>) {
        lemma_le_bytes_len(*self as nat, 1);
        lemma_pow256_values();
        lemma_le_value_of_bytes(*self as nat, 1);
    }
}

/// A `u16` is written as its 2 bytes, least significant first.
impl ByteEncodable for u16 {
    open spec fn obeys_encoding_spec() -> bool {
        true
    }

    open spec fn encoding(&self, width: nat) -> Seq<u8> {
        le_bytes(*self as nat, 2)
    }

    fn get_size<Size>(&self) -> (size: Option<Size>) where Size: BVSize
        ensures
            size is Some,
    {
        proof {
            lemma_le_bytes_len(*self as nat, 2);
        }
        fixed_size::<Size>(2)
    }

    fn encode<Size>(&self) -> (bytes: Result<Vec<u8>, ByteVecError>) where Size: BVSize
        ensures
            bytes is Ok,
    {
        encode_fixed::<Size>(*self as u64, 2)
    }
}

impl ByteDecodable for u16 {
    open spec fn obeys_decoding_spec() -> bool {
        true
    }

    open spec fn decodes_to(
        bytes: Seq<u8>,
        width: nat,
        outcome: Result<Self, ByteVecError>,
    ) -> bool {
        outcome == match fixed_frame(bytes, 2) {
            Ok(v) => Ok::<u16, ByteVecError>(v as u16),
            Err(e) => Err(e),
        }
    }

    fn decode<Size>(bytes: &[u8]) -> (outcome: Result<Self, ByteVecError>) where Size: BVSize {
        match decode_fixed(bytes, 2) {
            Ok(v) => {
                proof {
                    lemma_pow256_values();
                }
                Ok(v as u16)
            },
            Err(e) => Err(e),
        }
    }
}

impl RoundTrip for u16 {
    open spec fn same(&self, other: &Self) -> bool {
        *self == *other
    }

    proof fn lemma_round_trip(&self, width: nat, outcome: Result<Self, ByteVecError>) {
        lemma_le_bytes_len(*self as nat, 2);
        lemma_pow256_values();
        lemma_le_value_of_bytes(*self as nat, 2);
    }
}

/// A `u32` is written as its 4 bytes, least significant first.
impl ByteEncodable for u32 {
    open spec fn obeys_encoding_spec() -> bool {
        true
    }

    open spec fn encoding(&self, width: nat) -> Seq<u8> {
        le_bytes(*self as nat, 4)
    }

    fn get_size<Size>(&self) -> (size: Option<Size>) where Size: BVSize
        ensures
            size is Some,
    {
        proof {
            lemma_le_bytes_len(*self as nat, 4);
        }
        fixed_size::<Size>(4)
    }

    fn encode<Size>(&self) -> (bytes: Result<Vec<u8>, ByteVecError>) where Size: BVSize
        ensures
            bytes is Ok,
    {
        encode_fixed::<Size>(*self as u64, 4)
    }
}

impl ByteDecodable for u32 {
    open spec fn obeys_decoding_spec() -> bool {
        true
    }

    open spec fn decodes_to(
        bytes: Seq<u8>,
        width: nat,
        outcome: Result<Self, ByteVecError>,
    ) -> bool {
        outcome == match fixed_frame(bytes, 4) {
            Ok(v) => Ok::<u32, ByteVecError>(v as u32),
            Err(e) => Err(e),
        }
    }

    fn decode<Size>(bytes: &[u8]) -> (outcome: Result<Self, ByteVecError>) where Size: BVSize {
        match decode_fixed(bytes, 4) {
            Ok(v) => {
                proof {
                    lemma_pow256_values();
                }
                Ok(v as u32)
            },
            Err(e) => Err(e),
        }
    }
}

impl RoundTrip for u32 {
    open spec fn same(&self, other: &Self) -> bool {
        *self == *other
    }

    proof fn lemma_round_trip(&self, width: nat, outcome: Result<Self, ByteVecError>) {
        lemma_le_bytes_len(*self as nat, 4);
        lemma_pow256_values();
        lemma_le_value_of_bytes(*self as nat, 4);
    }
}

/// A `u64` is written as its 8 bytes, least significant first.
impl ByteEncodable for u64 {
    open spec fn obeys_encoding_spec() -> bool {
        true
    }

    open spec fn encoding(&self, width: nat) -> Seq<u8> {
        le_bytes(*self as nat, 8)
    }

    fn get_size<Size>(&self) -> (size: Option<Size>) where Size: BVSize
        ensures
            size is Some,
    {
        proof {
            lemma_le_bytes_len(*self as nat, 8);
        }
        fixed_size::<Size>(8)
    }

    fn encode<Size>(&self) -> (bytes: Result<Vec<u8>, ByteVecError>) where Size: BVSize
        ensures
            bytes is Ok,
    {
        encode_fixed::<Size>(*self as u64, 8)
    }
}

impl ByteDecodable for u64 {
    open spec fn obeys_decoding_spec() -> bool {
        true
    }

    open spec fn decodes_to(
        bytes: Seq<u8>,
        width: nat,
        outcome: Result<Self, ByteVecError>,
    ) -> bool {
        outcome == match fixed_frame(bytes, 8) {
            Ok(v) => Ok::<u64, ByteVecError>(v as u64),
            Err(e) => Err(e),
        }
    }

    fn decode<Size>(bytes: &[u8]) -> (outcome: Result<Self, ByteVecError>) where Size: BVSize {
        match decode_fixed(bytes, 8) {
            Ok(v) => {
                proof {
                    lemma_pow256_values();
                }
                Ok(v as u64)
            },
            Err(e) => Err(e),
        }
    }
}

impl RoundTrip for u64 {
    open spec fn same(&self, other: &Self) -> bool {
        *self == *other
    }

    proof fn lemma_round_trip(&self, width: nat, outcome: Result<Self, ByteVecError>) {
        lemma_le_bytes_len(*self as nat, 8);
        lemma_pow256_values();
        lemma_le_value_of_bytes(*self as nat, 8);
    }
}

/// An `i8` is written as the 1 byte of its two's complement, least significant first.
impl ByteEncodable for i8 {
    open spec fn obeys_encoding_spec() -> bool {
        true
    }

    open spec fn encoding(&self, width: nat) -> Seq<u8> {
        le_bytes(to_unsigned(*self as int, 1), 1)
    }

    fn get_size<Size>(&self) -> (size: Option<Size>) where Size: BVSize
        ensures
            size is Some,
    {
        proof {
            lemma_le_bytes_len(to_unsigned(*self as int, 1), 1);
        }
        fixed_size::<Size>(1)
    }

    fn encode<Size>(&self) -> (bytes: Result<Vec<u8>, ByteVecError>) where Size: BVSize
        ensures
            bytes is Ok,
    {
        proof {
            lemma_pow256_values();
        }
        let pattern: u64 = if *self >= 0 {
            *self as u64
        } else {
            (*self as i128 + 0x100) as u64
        };
        encode_fixed::<Size>(pattern, 1)
    }
}

impl ByteDecodable for i8 {
    open spec fn obeys_decoding_spec() -> bool {
        true
    }

    open spec fn decodes_to(
        bytes: Seq<u8>,
        width: nat,
        outcome: Result<Self, ByteVecError>,
    ) -> bool {
        outcome == match fixed_frame(bytes, 1) {
            Ok(v) => Ok::<i8, ByteVecError>(to_signed(v, 1) as i8),
            Err(e) => Err(e),
        }
    }

    fn decode<Size>(bytes: &[u8]) -> (outcome: Result<Self, ByteVecError>) where Size: BVSize {
        match decode_fixed(bytes, 1) {
            Ok(v) => {
                proof {
                    lemma_pow256_values();
                }
                if v < 0x80 {
                    Ok(v as i8)
                } else {
                    Ok((v as i128 - 0x100) as i8)
                }
            },
            Err(e) => Err(e),
        }
    }
}

impl RoundTrip for i8 {
    open spec fn same(&self, other: &Self) -> bool {
        *self == *other
    }

    proof fn lemma_round_trip(&self, width: nat, outcome: Result<Self, ByteVecError>) {
        lemma_le_bytes_len(to_unsigned(*self as int, 1), 1);
        lemma_pow256_values();
        lemma_le_value_of_bytes(to_unsigned(*self as int, 1), 1);
    }
}

/// An `i16` is written as the 2 bytes of its two's complement, least significant first.
impl ByteEncodable for i16 {
    open spec fn obeys_encoding_spec() -> bool {
        true
    }

    open spec fn encoding(&self, width: nat) -> Seq<u8> {
        le_bytes(to_unsigned(*self as int, 2), 2)
    }

    fn get_size<Size>(&self) -> (size: Option<Size>) where Size: BVSize
        ensures
            size is Some,
    {
        proof {
            lemma_le_bytes_len(to_unsigned(*self as int, 2), 2);
        }
        fixed_size::<Size>(2)
    }

    fn encode<Size>(&self) -> (bytes: Result<Vec<u8>, ByteVecError>) where Size: BVSize
        ensures
            bytes is Ok,
    {
        proof {
            lemma_pow256_values();
        }
        let pattern: u64 = if *self >= 0 {
            *self as u64
        } else {
            (*self as i128 + 0x1_0000) as u64
        };
        encode_fixed::<Size>(pattern, 2)
    }
}

impl ByteDecodable for i16 {
    open spec fn obeys_decoding_spec() -> bool {
        true
    }

    open spec fn decodes_to(
        bytes: Seq<u8>,
        width: nat,
        outcome: Result<Self, ByteVecError>,
    ) -> bool {
        outcome == match fixed_frame(bytes, 2) {
            Ok(v) => Ok::<i16, ByteVecError>(to_signed(v, 2) as i16),
            Err(e) => Err(e),
        }
    }

    fn decode<Size>(bytes: &[u8]) -> (outcome: Result<Self, ByteVecError>) where Size: BVSize {
        match decode_fixed(bytes, 2) {
            Ok(v) => {
                proof {
                    lemma_pow256_values();
                }
                if v < 0x8000 {
                    Ok(v as i16)
                } else {
                    Ok((v as i128 - 0x1_0000) as i16)
                }
            },
            Err(e) => Err(e),
        }
    }
}

impl RoundTrip for i16 {
    open spec fn same(&self, other: &Self) -> bool {
        *self == *other
    }

    proof fn lemma_round_trip(&self, width: nat, outcome: Result<Self, ByteVecError>) {
        lemma_le_bytes_len(to_unsigned(*self as int, 2), 2);
        lemma_pow256_values();
        lemma_le_value_of_bytes(to_unsigned(*self as int, 2), 2);
    }
}

/// An `i32` is written as the 4 bytes of its two's complement, least significant first.
impl ByteEncodable for i32 {
    open spec fn obeys_encoding_spec() -> bool {
        true
    }

    open spec fn encoding(&self, width: nat) -> Seq<u8> {
        le_bytes(to_unsigned(*self as int, 4), 4)
    }

    fn get_size<Size>(&self) -> (size: Option<Size>) where Size: BVSize
        ensures
            size is Some,
    {
        proof {
            lemma_le_bytes_len(to_unsigned(*self as int, 4), 4);
        }
        fixed_size::<Size>(4)
    }

    fn encode<Size>(&self) -> (bytes: Result<Vec<u8>, ByteVecError>) where Size: BVSize
        ensures
            bytes is Ok,
    {
        proof {
            lemma_pow256_values();
        }
        let pattern: u64 = if *self >= 0 {
            *self as u64
        } else {
            (*self as i128 + 0x1_0000_0000) as u64
        };
        encode_fixed::<Size>(pattern, 4)
    }
}

impl ByteDecodable for i32 {
    open spec fn obeys_decoding_spec() -> bool {
        true
    }

    open spec fn decodes_to(
        bytes: Seq<u8>,
        width: nat,
        outcome: Result<Self, ByteVecError>,
    ) -> bool {
        outcome == match fixed_frame(bytes, 4) {
            Ok(v) => Ok::<i32, ByteVecError>(to_signed(v, 4) as i32),
            Err(e) => Err(e),
        }
    }

    fn decode<Size>(bytes: &[u8]) -> (outcome: Result<Self, ByteVecError>) where Size: BVSize {
        match decode_fixed(bytes, 4) {
            Ok(v) => {
                proof {
                    lemma_pow256_values();
                }
                if v < 0x8000_0000 {
                    Ok(v as i32)
                } else {
                    Ok((v as i128 - 0x1_0000_0000) as i32)
                }
            },
            Err(e) => Err(e),
        }
    }
}

impl RoundTrip for i32 {
    open spec fn same(&self, other: &Self) -> bool {
        *self == *other
    }

    proof fn lemma_round_trip(&self, width: nat, outcome: Result<Self, ByteVecError>) {
        lemma_le_bytes_len(to_unsigned(*self as int, 4), 4);
        lemma_pow256_values();
        lemma_le_value_of_bytes(to_unsigned(*self as int, 4), 4);
    }
}

/// An `i64` is written as the 8 bytes of its two's complement, least significant first.
impl ByteEncodable for i64 {
    open spec fn obeys_encoding_spec() -> bool {
        true
    }

    open spec fn encoding(&self, width: nat) -> Seq<u8> {
        le_bytes(to_unsigned(*self as int, 8), 8)
    }

    fn get_size<Size>(&self) -> (size: Option<Size>) where Size: BVSize
        ensures
            size is Some,
    {
        proof {
            lemma_le_bytes_len(to_unsigned(*self as int, 8), 8);
        }
        fixed_size::<Size>(8)
    }

    fn encode<Size>(&self) -> (bytes: Result<Vec<u8>, ByteVecError>) where Size: BVSize
        ensures
            bytes is Ok,
    {
        proof {
            lemma_pow256_values();
        }
        let pattern: u64 = if *self >= 0 {
            *self as u64
        } else {
            (*self as i128 + 0x1_0000_0000_0000_0000) as u64
        };
        encode_fixed::<Size>(pattern, 8)
    }
}

impl ByteDecodable for i64 {
    open spec fn obeys_decoding_spec() -> bool {
        true
    }

    open spec fn decodes_to(
        bytes: Seq<u8>,
        width: nat,
        outcome: Result<Self, ByteVecError>,
    ) -> bool {
        outcome == match fixed_frame(bytes, 8) {
            Ok(v) => Ok::<i64, ByteVecError>(to_signed(v, 8) as i64),
            Err(e) => Err(e),
        }
    }

    fn decode<Size>(bytes: &[u8]) -> (outcome: Result<Self, ByteVecError>) where Size: BVSize {
        match decode_fixed(bytes, 8) {
            Ok(v) => {
                proof {
                    lemma_pow256_values();
                }
                if v < 0x8000_0000_0000_0000 {
                    Ok(v as i64)
                } else {
                    Ok((v as i128 - 0x1_0000_0000_0000_0000) as i64)
                }
            },
            Err(e) => Err(e),
        }
    }
}

impl RoundTrip for i64 {
    open spec fn same(&self, other: &Self) -> bool {
        *self == *other
    }

    proof fn lemma_round_trip(&self, width: nat, outcome: Result<Self, ByteVecError>) {
        lemma_le_bytes_len(to_unsigned(*self as int, 8), 8);
        lemma_pow256_values();
        lemma_le_value_of_bytes(to_unsigned(*self as int, 8), 8);
    }
}

/// A `char` is written as its scalar value, a `u32`.
impl ByteEncodable for char {
    open spec fn obeys_encoding_spec() -> bool {
        true
    }

    open spec fn encoding(&self, width: nat) -> Seq<u8> {
        le_bytes(*self as u32 as nat, 4)
    }

    fn get_size<Size>(&self) -> (size: Option<Size>) where Size: BVSize
        ensures
            size is Some,
    {
        proof {
            lemma_le_bytes_len(*self as u32 as nat, 4);
        }
        fixed_size::<Size>(4)
    }

    fn encode<Size>(&self) -> (bytes: Result<Vec<u8>, ByteVecError>) where Size: BVSize
        ensures
            bytes is Ok,
    {
        encode_fixed::<Size>(*self as u32 as u64, 4)
    }
}

/// The `char` that the number `v` decodes to: the one with that scalar value,
/// or U+FFFD where `v` is the value of none.
pub open spec fn char_of(v: nat) -> char {
    if v <= u32::MAX && is_char_value(v as u32) {
        (v as u32) as char
    } else {
        '\u{FFFD}'
    }
}

impl ByteDecodable for char {
    open spec fn obeys_decoding_spec() -> bool {
        true
    }

    open spec fn decodes_to(
        bytes: Seq<u8>,
        width: nat,
        outcome: Result<Self, ByteVecError>,
    ) -> bool {
        outcome == match fixed_frame(bytes, 4) {
            Ok(v) => Ok::<char, ByteVecError>(char_of(v)),
            Err(e) => Err(e),
        }
    }

    fn decode<Size>(bytes: &[u8]) -> (outcome: Result<Self, ByteVecError>) where Size: BVSize {
        match decode_fixed(bytes, 4) {
            Ok(v) => {
                proof {
                    lemma_pow256_values();
                }
                match char_from_u32(v as u32) {
                    Some(c) => {
                        proof {
                            vstd::utf8::char_u32_cast(c, v as u32);
                        }
                        Ok(c)
                    },
                    None => Ok('\u{FFFD}'),
                }
            },
            Err(e) => Err(e),
        }
    }
}

impl RoundTrip for char {
    open spec fn same(&self, other: &Self) -> bool {
        *self == *other
    }

    proof fn lemma_round_trip(&self, width: nat, outcome: Result<Self, ByteVecError>) {
        let u = *self as u32;
        vstd::utf8::char_is_scalar(*self);
        vstd::utf8::char_u32_cast(*self, u);
        lemma_le_bytes_len(u as nat, 4);
        lemma_pow256_values();
        lemma_le_value_of_bytes(u as nat, 4);
    }
}

/// A `usize` is written as the unsigned integer of the platform's width.
impl ByteEncodable for usize {
    open spec fn obeys_encoding_spec() -> bool {
        true
    }

    open spec fn encoding(&self, width: nat) -> Seq<u8> {
        le_bytes(*self as nat, usize_bytes())
    }

    fn get_size<Size>(&self) -> (size: Option<Size>) where Size: BVSize
        ensures
            size is Some,
    {
        proof {
            lemma_le_bytes_len(*self as nat, usize_bytes());
        }
        fixed_size::<Size>((usize::BITS / 8) as usize)
    }

    fn encode<Size>(&self) -> (bytes: Result<Vec<u8>, ByteVecError>) where Size: BVSize
        ensures
            bytes is Ok,
    {
        if usize::BITS == 32 {
            (*self as u32).encode::<Size>()
        } else {
            (*self as u64).encode::<Size>()
        }
    }
}

impl ByteDecodable for usize {
    open spec fn obeys_decoding_spec() -> bool {
        true
    }

    open spec fn decodes_to(
        bytes: Seq<u8>,
        width: nat,
        outcome: Result<Self, ByteVecError>,
    ) -> bool {
        outcome == match fixed_frame(bytes, usize_bytes()) {
            Ok(v) => Ok::<usize, ByteVecError>(v as usize),
            Err(e) => Err(e),
        }
    }

    fn decode<Size>(bytes: &[u8]) -> (outcome: Result<Self, ByteVecError>) where Size: BVSize {
        if usize::BITS == 32 {
            match u32::decode::<Size>(bytes) {
                Ok(v) => Ok(v as usize),
                Err(e) => Err(e),
            }
        } else {
            match u64::decode::<Size>(bytes) {
                Ok(v) => {
                    proof {
                        lemma_le_value_bound(bytes@);
                        lemma_pow256_values();
                    }
                    Ok(v as usize)
                },
                Err(e) => Err(e),
            }
        }
    }
}

impl RoundTrip for usize {
    open spec fn same(&self, other: &Self) -> bool {
        *self == *other
    }

    proof fn lemma_round_trip(&self, width: nat, outcome: Result<Self, ByteVecError>) {
        lemma_le_bytes_len(*self as nat, usize_bytes());
        lemma_pow256_values();
        lemma_le_value_of_bytes(*self as nat, usize_bytes());
    }
}

} // verus!
