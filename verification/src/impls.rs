//! The integer types that can stand for sizes, and the codecs of the built-in types.
use crate::endian::{lemma_pow256_values, max_of_width, pow256};
use crate::errors::ByteVecError;
use crate::traits::ByteEncodable;
use vstd::prelude::*;

pub mod collections;
pub mod hashed;
pub mod primitives;
pub mod text;
pub mod tuples;

verus! {

/// An unsigned integer type in which lengths are counted and written.
///
/// Every length prefix of one encoding is a value of one such type, written in
/// `width()` bytes, so no length beyond `max_of_width(width())` can be encoded.
pub trait BVSize: Sized {
    /// The number that this size stands for.
    spec fn value(&self) -> nat;

    /// How many bytes a size of this type takes in a buffer.
    spec fn width() -> nat;

    /// A size takes between one and eight bytes.
    proof fn lemma_width()
        ensures
            1 <= Self::width() <= 8,
    ;

    /// No size exceeds what its bytes can hold.
    proof fn lemma_value(&self)
        ensures
            self.value() <= max_of_width(Self::width()),
    ;

    /// The size that stands for `val`, reduced modulo 256 to the `width()`.
    fn from_usize(val: usize) -> (size: Self)
        ensures
            size.value() == val as nat % pow256(Self::width()),
    ;

    /// The number this size stands for, or `usize::MAX` where that is smaller.
    fn as_usize(&self) -> (val: usize)
        ensures
            val == crate::errors::clamp(self.value()),
    ;

    /// The largest size of this type.
    fn max_value() -> (size: Self)
        ensures
            size.value() == max_of_width(Self::width()),
    ;

    /// The sum of two sizes, or `None` where the type cannot hold it.
    fn checked_add(self, rhs: Self) -> (sum: Option<Self>)
        ensures
            match sum {
                Some(s) => s.value() == self.value() + rhs.value(),
                None => self.value() + rhs.value() > max_of_width(Self::width()),
            },
    ;

    /// The number of bytes that a size of this type takes in a buffer.
    fn get_size_of() -> (size: Self)
        ensures
            size.value() == Self::width(),
    ;
}

impl BVSize for u8 {
    open spec fn value(&self) -> nat {
        *self as nat
    }

    open spec fn width() -> nat {
        1
    }

    proof fn lemma_width() {
    }

    proof fn lemma_value(&self) {
        lemma_pow256_values();
    }

    fn from_usize(val: usize) -> (size: u8) {
        proof {
            lemma_pow256_values();
        }
        (val % 0x100) as u8
    }

    fn as_usize(&self) -> (val: usize) {
        *self as usize
    }

    fn max_value() -> (size: u8) {
        proof {
            lemma_pow256_values();
        }
        u8::MAX
    }

    fn checked_add(self, rhs: u8) -> (sum: Option<u8>) {
        proof {
            lemma_pow256_values();
        }
        self.checked_add(rhs)
    }

    fn get_size_of() -> (size: u8) {
        1
    }
}

impl BVSize for u16 {
    open spec fn value(&self) -> nat {
        *self as nat
    }

    open spec fn width() -> nat {
        2
    }

    proof fn lemma_width() {
    }

    proof fn lemma_value(&self) {
        lemma_pow256_values();
    }

    fn from_usize(val: usize) -> (size: u16) {
        proof {
            lemma_pow256_values();
        }
        (val % 0x1_0000) as u16
    }

    fn as_usize(&self) -> (val: usize) {
        *self as usize
    }

    fn max_value() -> (size: u16) {
        proof {
            lemma_pow256_values();
        }
        u16::MAX
    }

    fn checked_add(self, rhs: u16) -> (sum: Option<u16>) {
        proof {
            lemma_pow256_values();
        }
        self.checked_add(rhs)
    }

    fn get_size_of() -> (size: u16) {
        2
    }
}

impl BVSize for u32 {
    open spec fn value(&self) -> nat {
        *self as nat
    }

    open spec fn width() -> nat {
        4
    }

    proof fn lemma_width() {
    }

    proof fn lemma_value(&self) {
        lemma_pow256_values();
    }

    fn from_usize(val: usize) -> (size: u32) {
        proof {
            lemma_pow256_values();
        }
        (val as u64 % 0x1_0000_0000) as u32
    }

    fn as_usize(&self) -> (val: usize) {
        *self as usize
    }

    fn max_value() -> (size: u32) {
        proof {
            lemma_pow256_values();
        }
        u32::MAX
    }

    fn checked_add(self, rhs: u32) -> (sum: Option<u32>) {
        proof {
            lemma_pow256_values();
        }
        self.checked_add(rhs)
    }

    fn get_size_of() -> (size: u32) {
        4
    }
}

impl BVSize for u64 {
    open spec fn value(&self) -> nat {
        *self as nat
    }

    open spec fn width() -> nat {
        8
    }

    proof fn lemma_width() {
    }

    proof fn lemma_value(&self) {
        lemma_pow256_values();
    }

    fn from_usize(val: usize) -> (size: u64) {
        proof {
            lemma_pow256_values();
            vstd::arithmetic::div_mod::lemma_small_mod(val as nat, pow256(8));
        }
        val as u64
    }

    fn as_usize(&self) -> (val: usize) {
        if *self > usize::MAX as u64 {
            usize::MAX
        } else {
            *self as usize
        }
    }

    fn max_value() -> (size: u64) {
        proof {
            lemma_pow256_values();
        }
        u64::MAX
    }

    fn checked_add(self, rhs: u64) -> (sum: Option<u64>) {
        proof {
            lemma_pow256_values();
        }
        self.checked_add(rhs)
    }

    fn get_size_of() -> (size: u64) {
        8
    }
}

/// A reference is encoded as what it points to.
impl<T: ByteEncodable + ?Sized> ByteEncodable for &T {
    open spec fn obeys_encoding_spec() -> bool {
        T::obeys_encoding_spec()
    }

    open spec fn encoding(&self, width: nat) -> Seq<u8> {
        (**self).encoding(width)
    }

    fn get_size<Size>(&self) -> (size: Option<Size>) where Size: BVSize {
        (**self).get_size::<Size>()
    }

    fn encode<Size>(&self) -> (bytes: Result<Vec<u8>, ByteVecError>) where Size: BVSize {
        (**self).encode::<Size>()
    }
}

} // verus!
