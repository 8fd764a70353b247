//! Packed places for plain values, and small unsigned integers of a chosen
//! width.

use vstd::prelude::*;
use vstd::arithmetic::power2::pow2;
use vstd::arithmetic::power2::lemma_pow2_pos;
use vstd::arithmetic::power2::lemma_pow2_strictly_increases;
use vstd::arithmetic::div_mod::lemma_basic_div;
use vstd::bits::lemma_usize_shr_is_div;
use crate::word::PTR_WIDTH;
use crate::word::lemma_max_word;
use crate::detail::LowBits;
use crate::detail::NullableStorage;
use crate::bitstart::BitStart;
use crate::packable::Packable;
use crate::packable::spec_payload;
use crate::packed::RawPackedBits;
use crate::packed::SubPack;
use crate::aligned::Aligned;

verus! {

/// The place of a value that can be copied out of the word.
pub struct PackedCopy<S, P> {
    inner: SubPack<S, P>,
}

impl<S: BitStart, P: Packable + Copy> PackedCopy<S, P> {
    /// The word.
    pub closed spec fn spec_word(self) -> usize {
        self.inner.spec_word()
    }

    /// The place has a value of the type.
    pub closed spec fn wf(self) -> bool {
        self.inner.wf()
    }

    /// The packed value.
    pub closed spec fn view(self) -> P {
        self.inner@
    }

    /// The place `inner`.
    pub fn new(inner: SubPack<S, P>) -> (place: Self)
        requires
            inner.wf(),
        ensures
            place.wf(),
            place@ == inner@,
            place.spec_word() == inner.spec_word(),
    {
        PackedCopy { inner }
    }

    /// A copy of the packed value.
    pub fn get(&self) -> (value: P)
        requires
            self.wf(),
        ensures
            value == self@,
    {
        self.inner.get()
    }

    /// Puts `new` in the place of the packed value.
    pub fn set(&mut self, new: P)
        requires
            old(self).wf(),
            new.wf(),
        ensures
            final(self).wf(),
            final(self)@ == new,
            final(self).spec_word() == RawPackedBits::<S, P>::spec_range().put(
                old(self).spec_word(),
                spec_payload(new),
            ),
    {
        let _ = self.inner.replace(new);
    }

    /// Puts `new` in the place of the packed value and returns the value
    /// that was there.
    pub fn replace(&mut self, new: P) -> (prev: P)
        requires
            old(self).wf(),
            new.wf(),
        ensures
            prev == old(self)@,
            final(self).wf(),
            final(self)@ == new,
            final(self).spec_word() == RawPackedBits::<S, P>::spec_range().put(
                old(self).spec_word(),
                spec_payload(new),
            ),
    {
        self.inner.replace(new)
    }

    /// The word.
    pub fn into_bits(self) -> (bits: usize)
        ensures
            bits == self.spec_word(),
    {
        self.inner.into_bits()
    }
}

/// The place of the address of a boxed value of type `T`.
pub struct PackedBox<S, T> {
    inner: SubPack<S, Aligned<T>>,
}

impl<S: BitStart, T> PackedBox<S, T> {
    /// The word.
    pub closed spec fn spec_word(self) -> usize {
        self.inner.spec_word()
    }

    /// The place has the address of a value of the type.
    pub closed spec fn wf(self) -> bool {
        self.inner.wf()
    }

    /// The packed address.
    pub closed spec fn view(self) -> Aligned<T> {
        self.inner@
    }

    /// The place `inner`.
    pub fn new(inner: SubPack<S, Aligned<T>>) -> (place: Self)
        requires
            inner.wf(),
        ensures
            place.wf(),
            place@ == inner@,
            place.spec_word() == inner.spec_word(),
    {
        PackedBox { inner }
    }

    /// The address of the boxed value.
    pub fn address(&self) -> (addr: Aligned<T>)
        requires
            self.wf(),
        ensures
            addr == self@,
    {
        self.inner.get()
    }

    /// Puts the address `new` in the place of the packed one and returns
    /// the address that was there.
    pub fn replace(&mut self, new: Aligned<T>) -> (prev: Aligned<T>)
        requires
            old(self).wf(),
            new.wf(),
        ensures
            prev == old(self)@,
            final(self).wf(),
            final(self)@ == new,
            final(self).spec_word() == RawPackedBits::<S, Aligned<T>>::spec_range().put(
                old(self).spec_word(),
                spec_payload(new),
            ),
    {
        self.inner.replace(new)
    }

    /// The word.
    pub fn into_bits(self) -> (bits: usize)
        ensures
            bits == self.spec_word(),
    {
        self.inner.into_bits()
    }
}

/// An unsigned integer of `WIDTH` bits.
#[derive(Copy, Clone, Eq, PartialEq, Ord, PartialOrd, Hash, Debug)]
pub struct TinyUint<const WIDTH: u32>(usize);

impl<const WIDTH: u32> TinyUint<WIDTH> {
    /// The number.
    pub closed spec fn view(self) -> usize {
        self.0
    }

    /// The number has no more than `WIDTH` bits.
    pub open spec fn wf(self) -> bool {
        self@ < pow2(WIDTH as nat)
    }

    /// The integer `value`, or nothing where `value` has more than `WIDTH`
    /// bits.
    pub fn new(value: usize) -> (made: Option<Self>)
        ensures
            value < pow2(WIDTH as nat) ==> (made matches Some(tiny) && tiny@ == value && tiny.wf()),
            value >= pow2(WIDTH as nat) ==> made.is_none(),
    {
        proof {
            lemma_max_word();
            lemma_pow2_pos(WIDTH as nat);
        }
        if WIDTH >= PTR_WIDTH {
            proof {
                if WIDTH > PTR_WIDTH {
                    lemma_pow2_strictly_increases(PTR_WIDTH as nat, WIDTH as nat);
                }
            }
            Some(TinyUint(value))
        } else {
            proof {
                lemma_usize_shr_is_div(value, WIDTH as usize);
                if value < pow2(WIDTH as nat) {
                    lemma_basic_div(value as int, pow2(WIDTH as nat) as int);
                } else {
                    vstd::arithmetic::div_mod::lemma_div_non_zero(
                        value as int,
                        pow2(WIDTH as nat) as int,
                    );
                }
            }
            if value >> WIDTH != 0 {
                None
            } else {
                Some(TinyUint(value))
            }
        }
    }

    /// The integer `value`, which is known to have no more than `WIDTH`
    /// bits.
    pub fn new_unchecked(value: usize) -> (tiny: Self)
        requires
            value < pow2(WIDTH as nat),
        ensures
            tiny@ == value,
            tiny.wf(),
    {
        TinyUint(value)
    }

    /// The number.
    pub fn get(&self) -> (value: usize)
        ensures
            value == self@,
    {
        self.0
    }
}

/// A small integer is a packable value: integer-like, with zero among its
/// values.
impl<const WIDTH: u32> Packable for TinyUint<WIDTH> {
    type BitAlign = LowBits;

    type Storage = NullableStorage;

    open spec fn fits() -> bool {
        WIDTH <= PTR_WIDTH
    }

    open spec fn spec_bits() -> nat {
        WIDTH as nat
    }

    open spec fn wf(self) -> bool {
        TinyUint::wf(self)
    }

    open spec fn spec_to_bits(self) -> usize {
        self@
    }

    fn has_layout() -> (has: bool) {
        WIDTH <= PTR_WIDTH
    }

    fn bits() -> (n: u32) {
        WIDTH
    }

    fn from_bits(bits: usize) -> (value: Self) {
        TinyUint::new_unchecked(bits)
    }

    fn to_bits(self) -> (bits: usize) {
        self.get()
    }

    proof fn lemma_bits() {
    }

    proof fn lemma_pattern(value: Self) {
    }

    proof fn lemma_injective(a: Self, b: Self) {
    }
}

/// An integer without bits: always zero.
pub type U0 = TinyUint<0>;

/// An integer of one bit.
pub type U1 = TinyUint<1>;

/// An integer of two bits.
pub type U2 = TinyUint<2>;

/// An integer of three bits.
pub type U3 = TinyUint<3>;

/// An integer of four bits.
pub type U4 = TinyUint<4>;

/// An integer of five bits.
pub type U5 = TinyUint<5>;

/// An integer of six bits.
pub type U6 = TinyUint<6>;

/// An integer of seven bits.
pub type U7 = TinyUint<7>;

/// An integer of eight bits.
pub type U8 = TinyUint<8>;

/// An integer of nine bits.
pub type U9 = TinyUint<9>;

/// An integer of ten bits.
pub type U10 = TinyUint<10>;

/// An integer of eleven bits.
pub type U11 = TinyUint<11>;

/// An integer of twelve bits.
pub type U12 = TinyUint<12>;

/// An integer of thirteen bits.
pub type U13 = TinyUint<13>;

/// An integer of fourteen bits.
pub type U14 = TinyUint<14>;

/// An integer of fifteen bits.
pub type U15 = TinyUint<15>;

/// An integer of sixteen bits.
pub type U16 = TinyUint<16>;

/// An integer of seventeen bits.
pub type U17 = TinyUint<17>;

/// An integer of eighteen bits.
pub type U18 = TinyUint<18>;

/// An integer of nineteen bits.
pub type U19 = TinyUint<19>;

/// An integer of twenty bits.
pub type U20 = TinyUint<20>;

/// An integer of twenty-one bits.
pub type U21 = TinyUint<21>;

/// An integer of twenty-two bits.
pub type U22 = TinyUint<22>;

/// An integer of twenty-three bits.
pub type U23 = TinyUint<23>;

/// An integer of twenty-four bits.
pub type U24 = TinyUint<24>;

/// An integer of twenty-five bits.
pub type U25 = TinyUint<25>;

/// An integer of twenty-six bits.
pub type U26 = TinyUint<26>;

/// An integer of twenty-seven bits.
pub type U27 = TinyUint<27>;

/// An integer of twenty-eight bits.
pub type U28 = TinyUint<28>;

/// An integer of twenty-nine bits.
pub type U29 = TinyUint<29>;

/// An integer of thirty bits.
pub type U30 = TinyUint<30>;

/// An integer of thirty-one bits.
pub type U31 = TinyUint<31>;

/// An integer of thirty-two bits.
pub type U32 = TinyUint<32>;

} // verus!
