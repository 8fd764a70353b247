//! The pieces that describe a packable type: the storage of a packed word,
//! the side of a word that a type's bits occupy, and the bit range of a
//! field as a type.

use vstd::prelude::*;
use vstd::arithmetic::power2::pow2;
use crate::range::FieldRange;
use crate::range::Side;
use crate::range::canonical;
use crate::range::payload_of;
use crate::range::bits_of;
use crate::sealed::Sealed;

verus! {

/// The storage of a packed word: either any word, or any word but zero.
pub trait PointerStorage: Copy + Sealed {
    /// Whether zero can be stored.
    spec fn nullable() -> bool;

    /// The stored word.
    spec fn view(self) -> usize;

    /// The stored word is one that the storage admits.
    spec fn wf(self) -> bool;

    /// Whether zero can be stored.
    fn is_nullable() -> (nullable: bool)
        ensures
            nullable == Self::nullable(),
    ;

    /// Stores `bits`.
    fn from_bits(bits: usize) -> (stored: Self)
        requires
            Self::nullable() || bits != 0,
        ensures
            stored@ == bits,
            stored.wf(),
    ;

    /// The stored word.
    fn to_bits(self) -> (bits: usize)
        ensures
            bits == self@,
    ;

    /// Every word that the storage admits is stored by some storage.
    proof fn lemma_stores(bits: usize)
        requires
            Self::nullable() || bits != 0,
        ensures
            exists|stored: Self| stored@ == bits,
    ;

    /// A storage that does not admit zero does not hold it, and two
    /// storages with the same word are the same.
    proof fn lemma_storage(a: Self, b: Self)
        ensures
            a.wf() && !Self::nullable() ==> a@ != 0,
            a@ == b@ ==> a == b,
    ;
}

/// Storage for a word that is not zero.
#[derive(Copy, Clone, Eq, PartialEq, Ord, PartialOrd, Hash, Debug)]
pub struct NonNullStorage(usize);

/// Storage for any word.
#[derive(Copy, Clone, Eq, PartialEq, Ord, PartialOrd, Hash, Debug)]
pub struct NullableStorage(usize);

impl Sealed for NonNullStorage {
}

impl Sealed for NullableStorage {
}

impl PointerStorage for NonNullStorage {
    open spec fn nullable() -> bool {
        false
    }

    closed spec fn view(self) -> usize {
        self.0
    }

    closed spec fn wf(self) -> bool {
        self.0 != 0
    }

    fn is_nullable() -> (nullable: bool) {
        false
    }

    fn from_bits(bits: usize) -> (stored: Self) {
        NonNullStorage(bits)
    }

    fn to_bits(self) -> (bits: usize) {
        self.0
    }

    proof fn lemma_stores(bits: usize) {
        assert(NonNullStorage(bits)@ == bits);
    }

    proof fn lemma_storage(a: Self, b: Self) {
    }
}

impl PointerStorage for NullableStorage {
    open spec fn nullable() -> bool {
        true
    }

    closed spec fn view(self) -> usize {
        self.0
    }

    closed spec fn wf(self) -> bool {
        true
    }

    fn is_nullable() -> (nullable: bool) {
        true
    }

    fn from_bits(bits: usize) -> (stored: Self) {
        NullableStorage(bits)
    }

    fn to_bits(self) -> (bits: usize) {
        self.0
    }

    proof fn lemma_stores(bits: usize) {
        assert(NullableStorage(bits)@ == bits);
    }

    proof fn lemma_storage(a: Self, b: Self) {
    }
}

/// A bit range as a type: the place of a field that is known from the types
/// alone.
pub trait BitRange: Sealed {
    /// Whether the types that make up the range leave room for it.
    spec fn fits() -> bool;

    /// The range.
    spec fn spec_range() -> FieldRange;

    /// Whether the types that make up the range leave room for it.
    fn has_layout() -> (has: bool)
        ensures
            has == Self::fits(),
    ;

    /// The range.
    fn range() -> (r: FieldRange)
        requires
            Self::fits(),
        ensures
            r == Self::spec_range(),
            r.wf(),
    ;

    /// The mask that selects the field.
    fn mask() -> (m: usize)
        requires
            Self::fits(),
        ensures
            m == Self::spec_range().spec_mask(),
    {
        Self::range().mask()
    }

    /// Number of bits below the field.
    fn low_shift() -> (s: u32)
        requires
            Self::fits(),
        ensures
            s == Self::spec_range().after,
    {
        Self::range().after
    }

    /// Number of bits above the field.
    fn high_shift() -> (s: u32)
        requires
            Self::fits(),
        ensures
            s == Self::spec_range().before,
    {
        Self::range().before
    }
}

/// The side of a word at which a type keeps its bits, as a type:
/// [`LowBits`] or [`HighBits`].
pub trait BitAlign: Sealed {
    /// The side.
    spec fn side() -> Side;

    /// The side.
    fn get_side() -> (side: Side)
        ensures
            side == Self::side(),
    ;

    /// The field `R` of `bits` as a canonical pattern of this side.
    fn from_bit_range<R: BitRange>(bits: usize) -> (out: usize)
        requires
            R::fits(),
        ensures
            out == bits_of(
                R::spec_range().get(bits),
                R::spec_range().spec_width(),
                Self::side(),
            ),
            canonical(out, R::spec_range().spec_width(), Self::side()),
            payload_of(out, R::spec_range().spec_width(), Self::side()) == R::spec_range().get(
                bits,
            ),
    ;

    /// The word that has the significant bits of `bits`, a canonical pattern
    /// of this side, in the field `R` and zeros elsewhere.
    fn to_bit_range<R: BitRange>(bits: usize) -> (out: usize)
        requires
            R::fits(),
            canonical(bits, R::spec_range().spec_width(), Self::side()),
        ensures
            out == payload_of(bits, R::spec_range().spec_width(), Self::side()) * pow2(
                R::spec_range().spec_low(),
            ),
            R::spec_range().inside(out),
            R::spec_range().get(out) == payload_of(
                bits,
                R::spec_range().spec_width(),
                Self::side(),
            ),
    ;
}

/// The side of integer-like types: the bits are the least significant ones,
/// all others are zero.
pub struct LowBits;

/// The side of pointer-like types: the bits are the most significant ones,
/// all others are zero.
pub struct HighBits;

impl Sealed for LowBits {
}

impl Sealed for HighBits {
}

impl BitAlign for LowBits {
    open spec fn side() -> Side {
        Side::Low
    }

    fn get_side() -> (side: Side) {
        Side::Low
    }

    fn from_bit_range<R: BitRange>(bits: usize) -> (out: usize) {
        R::range().read(bits, Side::Low)
    }

    fn to_bit_range<R: BitRange>(bits: usize) -> (out: usize) {
        R::range().low_bits_to_range(bits)
    }
}

impl BitAlign for HighBits {
    open spec fn side() -> Side {
        Side::High
    }

    fn get_side() -> (side: Side) {
        Side::High
    }

    fn from_bit_range<R: BitRange>(bits: usize) -> (out: usize) {
        R::range().read(bits, Side::High)
    }

    fn to_bit_range<R: BitRange>(bits: usize) -> (out: usize) {
        R::range().high_bits_to_range(bits)
    }
}

} // verus!
