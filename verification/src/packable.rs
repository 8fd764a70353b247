//! Values that leave spare bits when stored in a word.

use vstd::prelude::*;
use vstd::arithmetic::power2::lemma2_to64;
use crate::word::PTR_WIDTH;
use crate::range::Side;
use crate::layout::FieldDescriptor;
use crate::range::canonical;
use crate::range::payload_of;
use crate::range::lemma_payload_of_bits;
use vstd::arithmetic::power2::pow2;
use crate::detail::BitAlign;
use crate::detail::LowBits;
use crate::detail::HighBits;
use crate::detail::PointerStorage;
use crate::detail::NullableStorage;
use crate::detail::NonNullStorage;

verus! {

/// A value with a canonical bit pattern that leaves spare bits in a word: a
/// `bool` uses one bit and leaves the others zero, an aligned pointer uses
/// all but the few lowest. Values of several such types can share one word.
pub trait Packable: Sized {
    /// The end of a word at which the significant bits are: [`LowBits`] for
    /// integer-like types, [`HighBits`] for pointer-like types.
    type BitAlign: BitAlign;

    /// Whether the pattern of all zeros is a value: [`NullableStorage`] if
    /// it is, [`NonNullStorage`] if it is not.
    type Storage: PointerStorage;

    /// Whether the type has a layout in one word. This is a property of the
    /// type alone: where it fails, no value can be packed.
    spec fn fits() -> bool;

    /// Number of significant bits.
    spec fn spec_bits() -> nat;

    /// Whether `self` is a value of the type.
    spec fn wf(self) -> bool;

    /// The canonical pattern of `self`.
    spec fn spec_to_bits(self) -> usize;

    /// Whether the type has a layout in one word.
    fn has_layout() -> (has: bool)
        ensures
            has == Self::fits(),
    ;

    /// Number of significant bits.
    fn bits() -> (n: u32)
        requires
            Self::fits(),
        ensures
            n == Self::spec_bits(),
            n <= PTR_WIDTH,
    ;

    /// The value with the canonical pattern `bits`.
    fn from_bits(bits: usize) -> (value: Self)
        requires
            Self::fits(),
            exists|some: Self| some.wf() && #[trigger] some.spec_to_bits() == bits,
        ensures
            value.wf(),
            value.spec_to_bits() == bits,
    ;

    /// The canonical pattern of `self`.
    fn to_bits(self) -> (bits: usize)
        requires
            Self::fits(),
            self.wf(),
        ensures
            bits == self.spec_to_bits(),
    ;

    /// A type with a layout has no more significant bits than a word.
    proof fn lemma_bits()
        requires
            Self::fits(),
        ensures
            Self::spec_bits() <= PTR_WIDTH,
    ;

    /// The pattern of a value has zeros outside of the significant bits,
    /// and is not zero where the type excludes it.
    proof fn lemma_pattern(value: Self)
        requires
            Self::fits(),
            value.wf(),
        ensures
            canonical(
                value.spec_to_bits(),
                Self::spec_bits(),
                <Self::BitAlign as BitAlign>::side(),
            ),
            !<Self::Storage as PointerStorage>::nullable() ==> value.spec_to_bits() != 0,
    ;

    /// Two values with the same pattern are the same value.
    proof fn lemma_injective(a: Self, b: Self)
        requires
            Self::fits(),
            a.wf(),
            b.wf(),
            a.spec_to_bits() == b.spec_to_bits(),
        ensures
            a == b,
    ;
}

/// The side of a word at which the bits of `P` are.
pub open spec fn spec_side<P: Packable>() -> Side {
    <P::BitAlign as BitAlign>::side()
}

/// Whether zero is the pattern of a value of `P`.
pub open spec fn spec_nullable<P: Packable>() -> bool {
    <P::Storage as PointerStorage>::nullable()
}

/// Whether `bits` is the canonical pattern of a value of `P`.
pub open spec fn is_pattern<P: Packable>(bits: usize) -> bool {
    exists|value: P| value.wf() && #[trigger] value.spec_to_bits() == bits
}

/// The value of `P` with the canonical pattern `bits`.
pub open spec fn value_of<P: Packable>(bits: usize) -> P {
    choose|value: P| value.wf() && #[trigger] value.spec_to_bits() == bits
}

/// What the layout needs to know of the type `P`: its width, its side, and
/// whether zero is among its patterns.
pub open spec fn spec_descriptor<P: Packable>() -> FieldDescriptor {
    FieldDescriptor {
        width: P::spec_bits() as u32,
        side: spec_side::<P>(),
        nullable: spec_nullable::<P>(),
    }
}

/// What the layout needs to know of the type `P`: its width, its side, and
/// whether zero is among its patterns.
pub fn descriptor<P: Packable>() -> (described: FieldDescriptor)
    requires
        P::fits(),
    ensures
        described == spec_descriptor::<P>(),
        described.wf(),
        described.width == P::spec_bits(),
{
    FieldDescriptor {
        width: P::bits(),
        side: <P::BitAlign as BitAlign>::get_side(),
        nullable: <P::Storage as PointerStorage>::is_nullable(),
    }
}

/// The number that the significant bits of the pattern of `value` spell.
pub open spec fn spec_payload<P: Packable>(value: P) -> nat {
    payload_of(value.spec_to_bits(), P::spec_bits(), spec_side::<P>())
}

/// A pattern has one value only: the value of the pattern of `value` is
/// `value`.
pub proof fn lemma_value_of_pattern<P: Packable>(value: P)
    requires
        P::fits(),
        value.wf(),
    ensures
        is_pattern::<P>(value.spec_to_bits()),
        value_of::<P>(value.spec_to_bits()) == value,
{
    let found = value_of::<P>(value.spec_to_bits());
    P::lemma_injective(found, value);
}

/// Two values whose patterns spell the same number are the same value.
pub proof fn lemma_payload_injective<P: Packable>(a: P, b: P)
    requires
        P::fits(),
        a.wf(),
        b.wf(),
        spec_payload(a) == spec_payload(b),
    ensures
        a == b,
{
    P::lemma_bits();
    P::lemma_pattern(a);
    P::lemma_pattern(b);
    lemma_payload_of_bits(a.spec_to_bits(), P::spec_bits(), spec_side::<P>());
    lemma_payload_of_bits(b.spec_to_bits(), P::spec_bits(), spec_side::<P>());
    P::lemma_injective(a, b);
}

/// The number that the pattern of a value spells fits the width of the
/// type, and is not zero where the type excludes the zero pattern.
pub proof fn lemma_payload<P: Packable>(value: P)
    requires
        P::fits(),
        value.wf(),
    ensures
        P::spec_bits() <= PTR_WIDTH,
        spec_payload(value) < pow2(P::spec_bits()),
        !spec_nullable::<P>() ==> spec_payload(value) != 0,
{
    P::lemma_bits();
    P::lemma_pattern(value);
    lemma_payload_of_bits(value.spec_to_bits(), P::spec_bits(), spec_side::<P>());
    if spec_payload(value) == 0 {
        vstd::arithmetic::mul::lemma_mul_basics(
            pow2((PTR_WIDTH - P::spec_bits()) as nat) as int,
        );
    }
}

impl Packable for () {
    type BitAlign = HighBits;

    type Storage = NullableStorage;

    open spec fn fits() -> bool {
        true
    }

    open spec fn spec_bits() -> nat {
        0
    }

    open spec fn wf(self) -> bool {
        true
    }

    open spec fn spec_to_bits(self) -> usize {
        0
    }

    fn has_layout() -> (has: bool) {
        true
    }

    fn bits() -> (n: u32) {
        0
    }

    fn from_bits(bits: usize) -> (value: Self) {
        ()
    }

    fn to_bits(self) -> (bits: usize) {
        0
    }

    proof fn lemma_bits() {
    }

    proof fn lemma_pattern(value: Self) {
        vstd::arithmetic::power2::lemma_pow2_pos(PTR_WIDTH as nat);
    }

    proof fn lemma_injective(a: Self, b: Self) {
    }
}

impl Packable for bool {
    type BitAlign = LowBits;

    type Storage = NullableStorage;

    open spec fn fits() -> bool {
        true
    }

    open spec fn spec_bits() -> nat {
        1
    }

    open spec fn wf(self) -> bool {
        true
    }

    open spec fn spec_to_bits(self) -> usize {
        if self {
            1
        } else {
            0
        }
    }

    fn has_layout() -> (has: bool) {
        true
    }

    fn bits() -> (n: u32) {
        1
    }

    fn from_bits(bits: usize) -> (value: Self) {
        bits != 0
    }

    fn to_bits(self) -> (bits: usize) {
        if self {
            1
        } else {
            0
        }
    }

    proof fn lemma_bits() {
    }

    proof fn lemma_pattern(value: Self) {
        lemma2_to64();
    }

    proof fn lemma_injective(a: Self, b: Self) {
    }
}

/// An optional value of a type without the zero pattern: zero stands for
/// the absent value.
impl<T: Packable<Storage = NonNullStorage>> Packable for Option<T> {
    type BitAlign = T::BitAlign;

    type Storage = NullableStorage;

    open spec fn fits() -> bool {
        T::fits()
    }

    open spec fn spec_bits() -> nat {
        T::spec_bits()
    }

    open spec fn wf(self) -> bool {
        match self {
            Some(inner) => inner.wf(),
            None => true,
        }
    }

    open spec fn spec_to_bits(self) -> usize {
        match self {
            Some(inner) => inner.spec_to_bits(),
            None => 0,
        }
    }

    fn has_layout() -> (has: bool) {
        T::has_layout()
    }

    fn bits() -> (n: u32) {
        T::bits()
    }

    fn from_bits(bits: usize) -> (value: Self) {
        if bits == 0 {
            None
        } else {
            proof {
                let found = choose|some: Self| some.wf() && #[trigger] some.spec_to_bits() == bits;
                assert(found is Some);
                assert(found->0.wf() && found->0.spec_to_bits() == bits);
            }
            Some(T::from_bits(bits))
        }
    }

    fn to_bits(self) -> (bits: usize) {
        match self {
            Some(inner) => inner.to_bits(),
            None => 0,
        }
    }

    proof fn lemma_bits() {
        T::lemma_bits();
    }

    proof fn lemma_pattern(value: Self) {
        match value {
            Some(inner) => {
                T::lemma_pattern(inner);
            },
            None => {
                lemma_zero_canonical(T::spec_bits(), spec_side::<T>());
            },
        }
    }

    proof fn lemma_injective(a: Self, b: Self) {
        match (a, b) {
            (Some(x), Some(y)) => {
                T::lemma_injective(x, y);
            },
            (Some(x), None) => {
                T::lemma_pattern(x);
            },
            (None, Some(y)) => {
                T::lemma_pattern(y);
            },
            (None, None) => {},
        }
    }
}

/// Zero is a canonical pattern on either side, whatever the width.
pub proof fn lemma_zero_canonical(width: nat, side: Side)
    ensures
        canonical(0usize, width, side),
        payload_of(0usize, width, side) == 0,
{
    vstd::arithmetic::power2::lemma_pow2_pos(width);
    vstd::arithmetic::power2::lemma_pow2_pos((PTR_WIDTH - width) as nat);
}

} // verus!
