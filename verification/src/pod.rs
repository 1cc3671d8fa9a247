//! Plain-old-data values with a fixed-width little-endian byte image,
//! used for typed access to guest memory.

use vstd::bytes::*;
use vstd::prelude::*;

verus! {

/// A fixed-width value that converts to and from little-endian bytes.
/// Every byte image of the right width stands for a value, and a value's
/// own image reads back as the value.
pub trait Pod: Sized + Copy {
    /// The byte width of the type.
    spec fn spec_size() -> nat;

    /// The value's byte image.
    spec fn as_bytes(self) -> Seq<u8>;

    /// The value a byte image stands for.
    spec fn of_bytes(bytes: Seq<u8>) -> Self;

    /// A byte image always has the type's width.
    proof fn lemma_size(self)
        ensures
            self.as_bytes().len() == Self::spec_size(),
    ;

    /// Reading back a value's own image yields the value.
    proof fn lemma_round_trip(self)
        ensures
            Self::of_bytes(self.as_bytes()) == self,
    ;

    /// The byte width as a runtime value.
    fn size() -> (r: usize)
        ensures
            r == Self::spec_size(),
    ;

    /// The value's bytes, least significant first.
    fn to_le_bytes(self) -> (r: Vec<u8>)
        ensures
            r@ == self.as_bytes(),
    ;

    /// The value a byte slice of the right width stands for.
    fn from_le_bytes(bytes: &[u8]) -> (r: Self)
        requires
            bytes@.len() == Self::spec_size(),
        ensures
            r == Self::of_bytes(bytes@),
    ;
}

impl Pod for u8 {
    open spec fn spec_size() -> nat {
        1
    }

    open spec fn as_bytes(self) -> Seq<u8> {
        seq![self]
    }

    open spec fn of_bytes(bytes: Seq<u8>) -> u8 {
        bytes[0]
    }

    proof fn lemma_size(self) {
    }

    proof fn lemma_round_trip(self) {
    }

    fn size() -> (r: usize) {
        1
    }

    fn to_le_bytes(self) -> (r: Vec<u8>) {
        let mut v: Vec<u8> = Vec::new();
        v.push(self);
        proof {
            assert(v@ =~= seq![self]);
        }
        v
    }

    fn from_le_bytes(bytes: &[u8]) -> (r: u8) {
        bytes[0]
    }
}

impl Pod for u16 {
    open spec fn spec_size() -> nat {
        2
    }

    open spec fn as_bytes(self) -> Seq<u8> {
        spec_u16_to_le_bytes(self)
    }

    open spec fn of_bytes(bytes: Seq<u8>) -> u16 {
        spec_u16_from_le_bytes(bytes)
    }

    proof fn lemma_size(self) {
        lemma_auto_spec_u16_to_from_le_bytes();
        assert(spec_u16_to_le_bytes(self).len() == 2);
    }

    proof fn lemma_round_trip(self) {
        lemma_auto_spec_u16_to_from_le_bytes();
        assert(spec_u16_to_le_bytes(self).len() == 2);
    }

    fn size() -> (r: usize) {
        2
    }

    fn to_le_bytes(self) -> (r: Vec<u8>) {
        u16_to_le_bytes(self)
    }

    fn from_le_bytes(bytes: &[u8]) -> (r: u16) {
        u16_from_le_bytes(bytes)
    }
}

impl Pod for u32 {
    open spec fn spec_size() -> nat {
        4
    }

    open spec fn as_bytes(self) -> Seq<u8> {
        spec_u32_to_le_bytes(self)
    }

    open spec fn of_bytes(bytes: Seq<u8>) -> u32 {
        spec_u32_from_le_bytes(bytes)
    }

    proof fn lemma_size(self) {
        lemma_auto_spec_u32_to_from_le_bytes();
        assert(spec_u32_to_le_bytes(self).len() == 4);
    }

    proof fn lemma_round_trip(self) {
        lemma_auto_spec_u32_to_from_le_bytes();
        assert(spec_u32_to_le_bytes(self).len() == 4);
    }

    fn size() -> (r: usize) {
        4
    }

    fn to_le_bytes(self) -> (r: Vec<u8>) {
        u32_to_le_bytes(self)
    }

    fn from_le_bytes(bytes: &[u8]) -> (r: u32) {
        u32_from_le_bytes(bytes)
    }
}

impl Pod for u64 {
    open spec fn spec_size() -> nat {
        8
    }

    open spec fn as_bytes(self) -> Seq<u8> {
        spec_u64_to_le_bytes(self)
    }

    open spec fn of_bytes(bytes: Seq<u8>) -> u64 {
        spec_u64_from_le_bytes(bytes)
    }

    proof fn lemma_size(self) {
        lemma_auto_spec_u64_to_from_le_bytes();
        assert(spec_u64_to_le_bytes(self).len() == 8);
    }

    proof fn lemma_round_trip(self) {
        lemma_auto_spec_u64_to_from_le_bytes();
        assert(spec_u64_to_le_bytes(self).len() == 8);
    }

    fn size() -> (r: usize) {
        8
    }

    fn to_le_bytes(self) -> (r: Vec<u8>) {
        u64_to_le_bytes(self)
    }

    fn from_le_bytes(bytes: &[u8]) -> (r: u64) {
        u64_from_le_bytes(bytes)
    }
}

} // verus!
