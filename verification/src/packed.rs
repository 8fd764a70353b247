//! Typed windows on a packed word: the bits of one value, found by the
//! cursor at which the value starts and by the width of its type.

use vstd::prelude::*;
use vstd::arithmetic::power2::pow2;
use core::marker::PhantomData;
use crate::word::PTR_WIDTH;
use crate::range::FieldRange;
use crate::range::canonical;
use crate::range::payload_of;
use crate::range::bits_of;
use crate::range::Side;
use crate::word::lemma_field_of_with_field;
use crate::range::lemma_payload_of_bits;
use crate::sealed::Sealed;
use crate::detail::BitAlign;
use crate::detail::BitRange;
use crate::bitstart::BitStart;
use crate::bitstart::DefaultStart;
use crate::packable::Packable;
use crate::packable::spec_side;
use crate::packable::spec_payload;
use crate::packable::lemma_payload;
use crate::packable::lemma_payload_injective;

verus! {

/// A word seen as the place of one value of type `P` that starts at the
/// cursor `S`. The window reads and writes the bits of that value and
/// leaves all others alone.
pub struct RawPackedBits<S, P> {
    bits: usize,
    _marker: PhantomData<(S, P)>,
}

impl<S, P> Sealed for RawPackedBits<S, P> {
}

impl<S: BitStart, P: Packable> BitRange for RawPackedBits<S, P> {
    open spec fn fits() -> bool {
        &&& S::fits()
        &&& P::fits()
        &&& P::spec_bits() <= S::spec_start()
    }

    open spec fn spec_range() -> FieldRange {
        FieldRange {
            before: (PTR_WIDTH - S::spec_start()) as u32,
            after: (S::spec_start() - P::spec_bits()) as u32,
        }
    }

    fn has_layout() -> (has: bool) {
        S::has_layout() && P::has_layout() && P::bits() <= S::start()
    }

    fn range() -> (r: FieldRange) {
        let start = S::start();
        FieldRange { before: PTR_WIDTH - start, after: start - P::bits() }
    }
}

impl<S: BitStart, P: Packable> RawPackedBits<S, P> {
    /// The word.
    pub closed spec fn view(self) -> usize {
        self.bits
    }

    /// Whether the cursor and the type leave room for the value.
    pub open spec fn fits() -> bool {
        <Self as BitRange>::fits()
    }

    /// The bits of the value.
    pub open spec fn spec_range() -> FieldRange {
        <Self as BitRange>::spec_range()
    }

    /// Whether the window has the value `value`.
    pub open spec fn holds(self, value: P) -> bool {
        value.wf() && Self::spec_range().get(self@) == spec_payload(value)
    }

    /// The value that the window has.
    pub open spec fn spec_value(self) -> P {
        choose|value: P| #[trigger] self.holds(value)
    }

    /// The bits of the value are as many as the type is wide, and lie
    /// below the cursor.
    pub proof fn lemma_range()
        requires
            Self::fits(),
        ensures
            Self::spec_range().wf(),
            Self::spec_range().spec_width() == P::spec_bits(),
            Self::spec_range().spec_low() + P::spec_bits() == S::spec_start(),
            S::spec_start() <= PTR_WIDTH,
    {
        S::lemma_start();
    }

    /// Number of unused bits above the value.
    pub fn before() -> (count: u32)
        requires
            Self::fits(),
        ensures
            count == Self::spec_range().before,
    {
        <Self as BitRange>::high_shift()
    }

    /// Number of unused bits below the value.
    pub fn after() -> (count: u32)
        requires
            Self::fits(),
        ensures
            count == Self::spec_range().after,
    {
        <Self as BitRange>::low_shift()
    }

    /// The mask with a one for each bit of the value.
    pub fn mask() -> (m: usize)
        requires
            Self::fits(),
        ensures
            m == Self::spec_range().spec_mask(),
    {
        <Self as BitRange>::mask()
    }

    /// The mask with a one for each bit outside of the value.
    pub fn clear_mask() -> (m: usize)
        requires
            Self::fits(),
        ensures
            m == usize::MAX - Self::spec_range().spec_mask(),
    {
        <Self as BitRange>::range().clear_mask()
    }

    /// The window on the word `bits`.
    pub fn for_bits(bits: usize) -> (window: Self)
        ensures
            window@ == bits,
    {
        RawPackedBits { bits, _marker: PhantomData }
    }

    /// The word.
    pub fn into_bits(self) -> (bits: usize)
        ensures
            bits == self@,
    {
        self.bits
    }

    /// The bits of the value where they are in the word, all others
    /// cleared.
    pub fn read_unshifted_bits(&self) -> (bits: usize)
        requires
            Self::fits(),
        ensures
            bits == Self::spec_range().get(self@) * pow2(Self::spec_range().spec_low()),
            Self::spec_range().inside(bits),
    {
        <Self as BitRange>::range().read_unshifted_bits(self.bits)
    }

    /// The bits of the value moved to the most significant end of a word:
    /// the pattern of a pointer-like value.
    pub fn read_high_bits(&self) -> (bits: usize)
        requires
            Self::fits(),
        ensures
            bits == bits_of(Self::spec_range().get(self@), P::spec_bits(), Side::High),
    {
        proof {
            Self::lemma_range();
        }
        <Self as BitRange>::range().read_high_bits(self.bits)
    }

    /// The bits of the value moved to the least significant end of a word:
    /// the pattern of an integer-like value.
    pub fn read_low_bits(&self) -> (bits: usize)
        requires
            Self::fits(),
        ensures
            bits == bits_of(Self::spec_range().get(self@), P::spec_bits(), Side::Low),
    {
        <Self as BitRange>::range().read_low_bits(self.bits)
    }

    /// Replaces the bits of the value by `bits`, which are at the place of
    /// the value already and have no one outside of it.
    pub fn write_unshifted_bits(&mut self, bits: usize)
        requires
            Self::fits(),
            Self::spec_range().inside(bits),
        ensures
            final(self)@ == Self::spec_range().put(old(self)@, Self::spec_range().get(bits)),
            Self::spec_range().get(final(self)@) == Self::spec_range().get(bits),
    {
        self.bits = <Self as BitRange>::range().write_unshifted_bits(self.bits, bits);
    }

    /// Replaces the bits of the value by those at the most significant end
    /// of `bits`; below them `bits` has only zeros.
    pub fn write_high_bits(&mut self, bits: usize)
        requires
            Self::fits(),
            canonical(bits, P::spec_bits(), Side::High),
        ensures
            final(self)@ == Self::spec_range().put(
                old(self)@,
                payload_of(bits, P::spec_bits(), Side::High),
            ),
            Self::spec_range().get(final(self)@) == payload_of(bits, P::spec_bits(), Side::High),
    {
        proof {
            Self::lemma_range();
        }
        self.bits = <Self as BitRange>::range().write_high_bits(self.bits, bits);
    }

    /// Replaces the bits of the value by `bits`, a number that fits the
    /// width of the value.
    pub fn write_low_bits(&mut self, bits: usize)
        requires
            Self::fits(),
            canonical(bits, P::spec_bits(), Side::Low),
        ensures
            final(self)@ == Self::spec_range().put(
                old(self)@,
                payload_of(bits, P::spec_bits(), Side::Low),
            ),
            Self::spec_range().get(final(self)@) == payload_of(bits, P::spec_bits(), Side::Low),
    {
        proof {
            Self::lemma_range();
        }
        self.bits = <Self as BitRange>::range().write_low_bits(self.bits, bits);
    }

    /// The value that the window has.
    pub fn load(&self) -> (value: P)
        requires
            Self::fits(),
            exists|some: P| #[trigger] self.holds(some),
        ensures
            self.holds(value),
            value == self.spec_value(),
    {
        proof {
            Self::lemma_range();
        }
        let pattern = <P::BitAlign as BitAlign>::from_bit_range::<Self>(self.bits);
        proof {
            let some = self.spec_value();
            P::lemma_bits();
            P::lemma_pattern(some);
            lemma_payload_of_bits(some.spec_to_bits(), P::spec_bits(), spec_side::<P>());
            assert(some.spec_to_bits() == pattern);
        }
        let value = P::from_bits(pattern);
        proof {
            lemma_payload_injective(value, self.spec_value());
        }
        value
    }

    /// Puts `value` in the window. Every bit outside of the window is kept.
    pub fn store(&mut self, value: P)
        requires
            Self::fits(),
            value.wf(),
        ensures
            final(self).holds(value),
            final(self).spec_value() == value,
            final(self)@ == Self::spec_range().put(old(self)@, spec_payload(value)),
    {
        proof {
            Self::lemma_range();
            P::lemma_bits();
            P::lemma_pattern(value);
        }
        let placed = <P::BitAlign as BitAlign>::to_bit_range::<Self>(value.to_bits());
        self.write_unshifted_bits(placed);
        proof {
            assert(self.holds(value));
            lemma_payload_injective(value, self.spec_value());
        }
    }

    /// The window on the same word for a value of type `Q` that starts at
    /// the cursor `Z`, a part of this window.
    pub fn as_field<Z: BitStart, Q: Packable>(&self) -> (field: RawPackedBits<Z, Q>)
        requires
            Self::fits(),
            RawPackedBits::<Z, Q>::fits(),
            Self::spec_range().contains(RawPackedBits::<Z, Q>::spec_range()),
        ensures
            field@ == self@,
    {
        RawPackedBits { bits: self.bits, _marker: PhantomData }
    }

    /// The value of type `Q` that starts at the cursor `Z`, a part of this
    /// window.
    pub fn read_field<Z: BitStart, Q: Packable>(&self) -> (value: Q)
        requires
            Self::fits(),
            RawPackedBits::<Z, Q>::fits(),
            Self::spec_range().contains(RawPackedBits::<Z, Q>::spec_range()),
            exists|some: Q| #[trigger] RawPackedBits::<Z, Q>::for_word(self@).holds(some),
        ensures
            RawPackedBits::<Z, Q>::for_word(self@).holds(value),
            value == RawPackedBits::<Z, Q>::for_word(self@).spec_value(),
    {
        let field = self.as_field::<Z, Q>();
        field.load()
    }

    /// Puts `value`, of type `Q`, at the cursor `Z`, a part of this window.
    /// Every bit outside of that part is kept.
    pub fn write_field<Z: BitStart, Q: Packable>(&mut self, value: Q)
        requires
            Self::fits(),
            RawPackedBits::<Z, Q>::fits(),
            Self::spec_range().contains(RawPackedBits::<Z, Q>::spec_range()),
            value.wf(),
        ensures
            RawPackedBits::<Z, Q>::for_word(final(self)@).holds(value),
            final(self)@ == RawPackedBits::<Z, Q>::spec_range().put(
                old(self)@,
                spec_payload(value),
            ),
    {
        let mut field = self.as_field::<Z, Q>();
        field.store(value);
        self.bits = field.into_bits();
    }

    /// The window on the word `bits`.
    pub closed spec fn for_word(bits: usize) -> Self {
        RawPackedBits { bits, _marker: PhantomData }
    }

    /// What is stored in a window is what is loaded from it, whatever the
    /// word held before: the window on the word that has `value` written to
    /// its place has the value `value`.
    pub proof fn lemma_store_load(word: usize, value: P)
        requires
            Self::fits(),
            value.wf(),
        ensures
            Self::spec_range().put(word, spec_payload(value)) <= usize::MAX,
            Self::for_word(Self::spec_range().put(word, spec_payload(value)) as usize).spec_value()
                == value,
    {
        Self::lemma_range();
        lemma_payload(value);
        let range = Self::spec_range();
        lemma_field_of_with_field(word, range.spec_low(), range.spec_width(), spec_payload(value));
        let window = Self::for_word(range.put(word, spec_payload(value)) as usize);
        assert(window.holds(value));
        lemma_payload_injective(value, window.spec_value());
    }

    /// The window on a word has that word.
    pub proof fn lemma_for_word(self)
        ensures
            Self::for_word(self@) == self,
            Self::for_word(self@)@ == self@,
    {
    }
}

/// The place of one value of type `P` at the cursor `S` inside a packed
/// word, with the value in it.
pub struct SubPack<S, P> {
    raw: RawPackedBits<S, P>,
}

impl<S: BitStart, P: Packable> SubPack<S, P> {
    /// The word.
    pub closed spec fn spec_word(self) -> usize {
        self.raw@
    }

    /// The cursor and the type leave room for the value, and the word has a
    /// value of the type in its place.
    pub open spec fn wf(self) -> bool {
        &&& RawPackedBits::<S, P>::fits()
        &&& exists|some: P| #[trigger] RawPackedBits::<S, P>::for_word(self.spec_word()).holds(some)
    }

    /// The packed value.
    pub open spec fn view(self) -> P {
        RawPackedBits::<S, P>::for_word(self.spec_word()).spec_value()
    }

    /// The place on the word of `raw`, which has a value in it.
    pub fn new(raw: RawPackedBits<S, P>) -> (place: Self)
        requires
            RawPackedBits::<S, P>::fits(),
            exists|some: P| #[trigger] raw.holds(some),
        ensures
            place.wf(),
            place.spec_word() == raw@,
            place@ == raw.spec_value(),
    {
        proof {
            raw.lemma_for_word();
        }
        SubPack { raw }
    }

    /// The word.
    pub fn into_bits(self) -> (bits: usize)
        ensures
            bits == self.spec_word(),
    {
        self.raw.into_bits()
    }

    /// A copy of the packed value.
    pub fn get(&self) -> (value: P) where P: Copy
        requires
            self.wf(),
        ensures
            value == self@,
    {
        proof {
            self.raw.lemma_for_word();
        }
        self.raw.load()
    }

    /// Puts `new` in the place of the packed value. Every bit outside of
    /// the place is kept.
    pub fn set(&mut self, new: P)
        requires
            old(self).wf(),
            new.wf(),
        ensures
            final(self).wf(),
            final(self)@ == new,
            final(self).spec_word() == RawPackedBits::<S, P>::spec_range().put(
                old(self).spec_word(),
                spec_payload(new),
            ),
    {
        let _ = self.replace(new);
    }

    /// Puts `new` in the place of the packed value and returns the value
    /// that was there. Every bit outside of the place is kept.
    pub fn replace(&mut self, new: P) -> (prev: P)
        requires
            old(self).wf(),
            new.wf(),
        ensures
            prev == old(self)@,
            final(self).wf(),
            final(self)@ == new,
            final(self).spec_word() == RawPackedBits::<S, P>::spec_range().put(
                old(self).spec_word(),
                spec_payload(new),
            ),
    {
        proof {
            self.raw.lemma_for_word();
        }
        let prev = self.raw.load();
        self.raw.store(new);
        proof {
            self.raw.lemma_for_word();
        }
        prev
    }

    /// The place, on the same word, of a value of type `Q` at the cursor
    /// `Z`, a part of this place that has such a value.
    pub fn as_field<Z: BitStart, Q: Packable>(&self) -> (field: SubPack<Z, Q>)
        requires
            RawPackedBits::<S, P>::fits(),
            RawPackedBits::<Z, Q>::fits(),
            RawPackedBits::<S, P>::spec_range().contains(RawPackedBits::<Z, Q>::spec_range()),
            exists|some: Q| #[trigger]
                RawPackedBits::<Z, Q>::for_word(self.spec_word()).holds(some),
        ensures
            field.wf(),
            field.spec_word() == self.spec_word(),
    {
        let raw = self.raw.as_field::<Z, Q>();
        proof {
            raw.lemma_for_word();
        }
        SubPack { raw }
    }
}

/// A value packed into a word of its own, at the most significant end.
#[derive(PartialEq, Eq, Debug)]
pub struct Pack<P> {
    bits: usize,
    _marker: PhantomData<P>,
}

impl<P: Packable> Pack<P> {
    /// The word.
    pub closed spec fn spec_word(self) -> usize {
        self.bits
    }

    /// The type has a layout, and the word has a value of the type at its
    /// most significant end.
    pub open spec fn wf(self) -> bool {
        &&& P::fits()
        &&& exists|some: P| #[trigger]
            RawPackedBits::<DefaultStart, P>::for_word(self.spec_word()).holds(some)
    }

    /// The packed value.
    pub open spec fn view(self) -> P {
        RawPackedBits::<DefaultStart, P>::for_word(self.spec_word()).spec_value()
    }

    /// Packs `val` into a word that is zero but for `val`.
    pub fn new(val: P) -> (pack: Self)
        requires
            P::fits(),
            val.wf(),
        ensures
            pack.wf(),
            pack@ == val,
            pack.spec_word() == RawPackedBits::<DefaultStart, P>::spec_range().put(
                0,
                spec_payload(val),
            ),
    {
        proof {
            P::lemma_bits();
        }
        let mut raw = RawPackedBits::<DefaultStart, P>::for_bits(0);
        raw.store(val);
        proof {
            raw.lemma_for_word();
        }
        Pack { bits: raw.into_bits(), _marker: PhantomData }
    }

    /// The packed value.
    pub fn into_inner(self) -> (val: P)
        requires
            self.wf(),
        ensures
            val == self@,
    {
        proof {
            P::lemma_bits();
        }
        let raw = RawPackedBits::<DefaultStart, P>::for_bits(self.bits);
        proof {
            raw.lemma_for_word();
        }
        raw.load()
    }

    /// A copy of the packed value.
    pub fn get(&self) -> (val: P) where P: Copy
        requires
            self.wf(),
        ensures
            val == self@,
    {
        proof {
            P::lemma_bits();
        }
        let raw = RawPackedBits::<DefaultStart, P>::for_bits(self.bits);
        proof {
            raw.lemma_for_word();
        }
        raw.load()
    }

    /// Puts `new` in the place of the packed value and returns the value
    /// that was there.
    pub fn replace(&mut self, new: P) -> (prev: P)
        requires
            old(self).wf(),
            new.wf(),
        ensures
            prev == old(self)@,
            final(self).wf(),
            final(self)@ == new,
            final(self).spec_word() == RawPackedBits::<DefaultStart, P>::spec_range().put(
                old(self).spec_word(),
                spec_payload(new),
            ),
    {
        proof {
            P::lemma_bits();
        }
        let mut raw = RawPackedBits::<DefaultStart, P>::for_bits(self.bits);
        proof {
            raw.lemma_for_word();
        }
        let prev = raw.load();
        raw.store(new);
        proof {
            raw.lemma_for_word();
        }
        self.bits = raw.into_bits();
        prev
    }

    /// The word.
    pub fn to_bits(&self) -> (bits: usize)
        ensures
            bits == self.spec_word(),
    {
        self.bits
    }
}

} // verus!
