//! Tuples of packable values: each element takes the bits below the element
//! before it, the first at the most significant end of the word.

use vstd::prelude::*;
use vstd::arithmetic::power2::pow2;
use core::marker::PhantomData;
use crate::word::PTR_WIDTH;
use crate::word::field_value;
use crate::word::with_field;
use crate::word::lemma_field_of_zero;
use crate::word::lemma_field_of_with_field;
use crate::word::lemma_with_field_frame;
use crate::word::lemma_low_zeros_narrow;
use crate::range::FieldRange;
use crate::range::canonical;
use crate::range::payload_of;
use crate::range::bits_of;
use crate::range::lemma_payload_of_bits;
use crate::sealed::Sealed;
use crate::detail::BitAlign;
use crate::detail::BitRange;
use crate::detail::PointerStorage;
use crate::detail::NullableStorage;
use crate::packable::Packable;
use crate::packable::spec_side;
use crate::packable::spec_nullable;
use crate::packable::spec_payload;
use crate::packable::spec_descriptor;
use crate::packable::lemma_payload;
use crate::packable::lemma_payload_injective;
use crate::layout::FieldDescriptor;
use crate::layout::total_width;
use crate::layout::slot_at;
use crate::layout::lemma_total_width_step;

verus! {

/// A tuple whose elements are packed into one word. The first element takes
/// the most significant bits, each further element the bits below the one
/// before it. Tuples of up to four packable elements are such tuples.
pub trait PackableTuple: Sized {
    /// Whether the word of a tuple can be zero.
    type Storage: PointerStorage;

    /// The type of the last element.
    type Last: Packable;

    /// Whether the elements fit one word together.
    spec fn fits() -> bool;

    /// The cursor before the last element.
    spec fn spec_last_high_bit() -> nat;

    /// The cursor after the last element.
    spec fn spec_last_low_bit() -> nat;

    /// Whether every element is a value of its type.
    spec fn wf(self) -> bool;

    /// Whether `bits` has every element of the tuple in the element's field.
    spec fn held_by(self, bits: usize) -> bool;

    /// The word that has every element in its field and zeros elsewhere.
    spec fn spec_to_tuple_bits(self) -> usize;

    /// Whether the elements fit one word together.
    fn has_layout() -> (has: bool)
        ensures
            has == Self::fits(),
    ;

    /// The cursor before the last element.
    fn last_high_bit() -> (bit: u32)
        requires
            Self::fits(),
        ensures
            bit == Self::spec_last_high_bit(),
    ;

    /// The cursor after the last element.
    fn last_low_bit() -> (bit: u32)
        requires
            Self::fits(),
        ensures
            bit == Self::spec_last_low_bit(),
    ;

    /// The word that has every element in its field and zeros elsewhere.
    fn to_tuple_bits(self) -> (bits: usize)
        requires
            Self::fits(),
            self.wf(),
        ensures
            bits == self.spec_to_tuple_bits(),
    ;

    /// The tuple whose elements `bits` has in their fields.
    fn from_tuple_bits(bits: usize) -> (tuple: Self)
        requires
            Self::fits(),
            exists|some: Self| some.wf() && #[trigger] some.held_by(bits),
        ensures
            tuple.wf(),
            tuple.held_by(bits),
    ;

    /// The last element has a layout, and its field lies between the two
    /// cursors, inside the word.
    proof fn lemma_layout()
        requires
            Self::fits(),
        ensures
            <Self::Last as Packable>::fits(),
            Self::spec_last_high_bit() <= PTR_WIDTH,
            Self::spec_last_low_bit() + <Self::Last as Packable>::spec_bits()
                == Self::spec_last_high_bit(),
    ;

    /// The word of a tuple has the tuple's elements, and zeros below the
    /// last of them.
    proof fn lemma_tuple_bits(tuple: Self)
        requires
            Self::fits(),
            tuple.wf(),
        ensures
            tuple.held_by(tuple.spec_to_tuple_bits()),
            field_value(tuple.spec_to_tuple_bits(), 0, Self::spec_last_low_bit()) == 0,
    ;

    /// A word has the elements of one tuple only.
    proof fn lemma_held_unique(a: Self, b: Self, bits: usize)
        requires
            Self::fits(),
            a.wf(),
            b.wf(),
            a.held_by(bits),
            b.held_by(bits),
        ensures
            a == b,
    ;

    /// Writing to a field below the last element changes no element.
    proof fn lemma_held_frame(tuple: Self, bits: usize, low: nat, width: nat, v: nat)
        requires
            Self::fits(),
            low + width <= Self::spec_last_low_bit(),
            v < pow2(width),
        ensures
            with_field(bits, low, width, v) <= usize::MAX,
            tuple.held_by(with_field(bits, low, width, v) as usize) == tuple.held_by(bits),
    ;

    /// A word that has the elements of a tuple whose storage excludes zero
    /// is not zero.
    proof fn lemma_nonnull(tuple: Self, bits: usize)
        requires
            Self::fits(),
            tuple.wf(),
            tuple.held_by(bits),
        ensures
            !<Self::Storage as PointerStorage>::nullable() ==> bits != 0,
    ;
}

/// The field of the last element of a tuple type.
pub open spec fn last_range<T: PackableTuple>() -> FieldRange {
    FieldRange {
        before: (PTR_WIDTH - T::spec_last_high_bit()) as u32,
        after: T::spec_last_low_bit() as u32,
    }
}

/// The empty tuple takes no bits.
impl PackableTuple for () {
    type Storage = NullableStorage;

    type Last = ();

    open spec fn fits() -> bool {
        true
    }

    open spec fn spec_last_high_bit() -> nat {
        PTR_WIDTH as nat
    }

    open spec fn spec_last_low_bit() -> nat {
        PTR_WIDTH as nat
    }

    open spec fn wf(self) -> bool {
        true
    }

    open spec fn held_by(self, bits: usize) -> bool {
        true
    }

    open spec fn spec_to_tuple_bits(self) -> usize {
        0
    }

    fn has_layout() -> (has: bool) {
        true
    }

    fn last_high_bit() -> (bit: u32) {
        PTR_WIDTH
    }

    fn last_low_bit() -> (bit: u32) {
        PTR_WIDTH
    }

    fn to_tuple_bits(self) -> (bits: usize) {
        0
    }

    fn from_tuple_bits(bits: usize) -> (tuple: Self) {
        ()
    }

    proof fn lemma_layout() {
    }

    proof fn lemma_tuple_bits(tuple: Self) {
        lemma_field_of_zero(0, PTR_WIDTH as nat);
    }

    proof fn lemma_held_unique(a: Self, b: Self, bits: usize) {
    }

    proof fn lemma_held_frame(tuple: Self, bits: usize, low: nat, width: nat, v: nat) {
        lemma_field_of_with_field(bits, low, width, v);
    }

    proof fn lemma_nonnull(tuple: Self, bits: usize) {
    }
}

/// `bits` with the pattern of `last` written to the `width` bits below the
/// cursor `high`.
fn write_element<L: Packable>(bits: usize, high: u32, last: L) -> (out: usize)
    requires
        L::fits(),
        last.wf(),
        L::spec_bits() <= high <= PTR_WIDTH,
    ensures
        out == with_field(bits, (high - L::spec_bits()) as nat, L::spec_bits(), spec_payload(last)),
{
    let width = L::bits();
    let range = FieldRange { before: PTR_WIDTH - high, after: high - width };
    let pattern = last.to_bits();
    proof {
        L::lemma_pattern(last);
    }
    range.write(bits, <L::BitAlign as BitAlign>::get_side(), pattern)
}

/// The value whose pattern `bits` has in the `width` bits below the cursor
/// `high`.
fn read_element<L: Packable>(bits: usize, high: u32) -> (last: L)
    requires
        L::fits(),
        L::spec_bits() <= high <= PTR_WIDTH,
        exists|some: L|
            some.wf() && field_value(bits, (high - L::spec_bits()) as nat, L::spec_bits())
                == #[trigger] spec_payload(some),
    ensures
        last.wf(),
        field_value(bits, (high - L::spec_bits()) as nat, L::spec_bits()) == spec_payload(last),
{
    let width = L::bits();
    let range = FieldRange { before: PTR_WIDTH - high, after: high - width };
    let pattern = range.read(bits, <L::BitAlign as BitAlign>::get_side());
    proof {
        let some = choose|some: L|
            some.wf() && field_value(bits, (high - L::spec_bits()) as nat, L::spec_bits())
                == #[trigger] spec_payload(some);
        L::lemma_pattern(some);
        lemma_payload_of_bits(some.spec_to_bits(), L::spec_bits(), spec_side::<L>());
        assert(some.spec_to_bits() == pattern);
    }
    L::from_bits(pattern)
}

/// A tuple of one element: the element takes the most significant bits.
impl<A: Packable> PackableTuple for (A,) {
    type Storage = A::Storage;

    type Last = A;

    open spec fn fits() -> bool {
        A::fits()
    }

    open spec fn spec_last_high_bit() -> nat {
        PTR_WIDTH as nat
    }

    open spec fn spec_last_low_bit() -> nat {
        (PTR_WIDTH - A::spec_bits()) as nat
    }

    open spec fn wf(self) -> bool {
        self.0.wf()
    }

    open spec fn held_by(self, bits: usize) -> bool {
        field_value(bits, (PTR_WIDTH - A::spec_bits()) as nat, A::spec_bits()) == spec_payload(
            self.0,
        )
    }

    open spec fn spec_to_tuple_bits(self) -> usize {
        with_field(
            0,
            (PTR_WIDTH - A::spec_bits()) as nat,
            A::spec_bits(),
            spec_payload(self.0),
        ) as usize
    }

    fn has_layout() -> (has: bool) {
        A::has_layout()
    }

    fn last_high_bit() -> (bit: u32) {
        PTR_WIDTH
    }

    fn last_low_bit() -> (bit: u32) {
        PTR_WIDTH - A::bits()
    }

    fn to_tuple_bits(self) -> (bits: usize) {
        proof {
            A::lemma_bits();
        }
        write_element(0, PTR_WIDTH, self.0)
    }

    fn from_tuple_bits(bits: usize) -> (tuple: Self) {
        proof {
            A::lemma_bits();
            let some = choose|some: Self| some.wf() && #[trigger] some.held_by(bits);
            assert(some.0.wf() && field_value(
                bits,
                (PTR_WIDTH - A::spec_bits()) as nat,
                A::spec_bits(),
            ) == spec_payload(some.0));
        }
        (read_element(bits, PTR_WIDTH),)
    }

    proof fn lemma_layout() {
        A::lemma_bits();
    }

    proof fn lemma_tuple_bits(tuple: Self) {
        let low = (PTR_WIDTH - A::spec_bits()) as nat;
        lemma_payload(tuple.0);
        lemma_field_of_with_field(0, low, A::spec_bits(), spec_payload(tuple.0));
        lemma_with_field_frame(0, low, A::spec_bits(), spec_payload(tuple.0), 0, low);
        lemma_field_of_zero(0, low);
    }

    proof fn lemma_held_unique(a: Self, b: Self, bits: usize) {
        lemma_payload_injective(a.0, b.0);
    }

    proof fn lemma_held_frame(tuple: Self, bits: usize, low: nat, width: nat, v: nat) {
        A::lemma_bits();
        lemma_with_field_frame(
            bits,
            low,
            width,
            v,
            (PTR_WIDTH - A::spec_bits()) as nat,
            A::spec_bits(),
        );
    }

    proof fn lemma_nonnull(tuple: Self, bits: usize) {
        lemma_payload(tuple.0);
        lemma_field_of_zero((PTR_WIDTH - A::spec_bits()) as nat, A::spec_bits());
    }
}

/// A tuple of two elements: the second takes the bits below the first.
impl<A: Packable, B: Packable> PackableTuple for (A, B) {
    type Storage = A::Storage;

    type Last = B;

    open spec fn fits() -> bool {
        &&& <(A,) as PackableTuple>::fits()
        &&& B::fits()
        &&& B::spec_bits() <= <(A,) as PackableTuple>::spec_last_low_bit()
    }

    open spec fn spec_last_high_bit() -> nat {
        <(A,) as PackableTuple>::spec_last_low_bit()
    }

    open spec fn spec_last_low_bit() -> nat {
        (<(A,) as PackableTuple>::spec_last_low_bit() - B::spec_bits()) as nat
    }

    open spec fn wf(self) -> bool {
        (self.0,).wf() && self.1.wf()
    }

    open spec fn held_by(self, bits: usize) -> bool {
        &&& (self.0,).held_by(bits)
        &&& field_value(bits, Self::spec_last_low_bit(), B::spec_bits()) == spec_payload(self.1)
    }

    open spec fn spec_to_tuple_bits(self) -> usize {
        with_field(
            (self.0,).spec_to_tuple_bits(),
            Self::spec_last_low_bit(),
            B::spec_bits(),
            spec_payload(self.1),
        ) as usize
    }

    fn has_layout() -> (has: bool) {
        <(A,) as PackableTuple>::has_layout() && B::has_layout() && B::bits() <= <(
            A,
        ) as PackableTuple>::last_low_bit()
    }

    fn last_high_bit() -> (bit: u32) {
        <(A,) as PackableTuple>::last_low_bit()
    }

    fn last_low_bit() -> (bit: u32) {
        <(A,) as PackableTuple>::last_low_bit() - B::bits()
    }

    fn to_tuple_bits(self) -> (bits: usize) {
        let (a, b) = self;
        let high = <(A,) as PackableTuple>::last_low_bit();
        proof {
            <(A,) as PackableTuple>::lemma_layout();
        }
        let above = (a,).to_tuple_bits();
        write_element(above, high, b)
    }

    fn from_tuple_bits(bits: usize) -> (tuple: Self) {
        let high = <(A,) as PackableTuple>::last_low_bit();
        proof {
            <(A,) as PackableTuple>::lemma_layout();
            let some = choose|some: Self| some.wf() && #[trigger] some.held_by(bits);
            assert((some.0,).wf() && (some.0,).held_by(bits));
            assert(some.1.wf() && field_value(
                bits,
                (high - B::spec_bits()) as nat,
                B::spec_bits(),
            ) == spec_payload(some.1));
        }
        let (a,) = <(A,) as PackableTuple>::from_tuple_bits(bits);
        let b = read_element(bits, high);
        (a, b)
    }

    proof fn lemma_layout() {
        <(A,) as PackableTuple>::lemma_layout();
        B::lemma_bits();
    }

    proof fn lemma_tuple_bits(tuple: Self) {
        let above = (tuple.0,);
        let low = Self::spec_last_low_bit();
        let word = above.spec_to_tuple_bits();
        <(A,) as PackableTuple>::lemma_layout();
        <(A,) as PackableTuple>::lemma_tuple_bits(above);
        lemma_payload(tuple.1);
        <(A,) as PackableTuple>::lemma_held_frame(
            above,
            word,
            low,
            B::spec_bits(),
            spec_payload(tuple.1),
        );
        lemma_field_of_with_field(word, low, B::spec_bits(), spec_payload(tuple.1));
        lemma_with_field_frame(word, low, B::spec_bits(), spec_payload(tuple.1), 0, low);
        lemma_low_zeros_narrow(word, <(A,) as PackableTuple>::spec_last_low_bit(), low);
    }

    proof fn lemma_held_unique(a: Self, b: Self, bits: usize) {
        <(A,) as PackableTuple>::lemma_held_unique((a.0,), (b.0,), bits);
        lemma_payload_injective(a.1, b.1);
    }

    proof fn lemma_held_frame(tuple: Self, bits: usize, low: nat, width: nat, v: nat) {
        <(A,) as PackableTuple>::lemma_layout();
        B::lemma_bits();
        <(A,) as PackableTuple>::lemma_held_frame((tuple.0,), bits, low, width, v);
        lemma_with_field_frame(bits, low, width, v, Self::spec_last_low_bit(), B::spec_bits());
    }

    proof fn lemma_nonnull(tuple: Self, bits: usize) {
        <(A,) as PackableTuple>::lemma_nonnull((tuple.0,), bits);
    }
}

/// A tuple of three elements: the third takes the bits below the second.
impl<A: Packable, B: Packable, C: Packable> PackableTuple for (A, B, C) {
    type Storage = A::Storage;

    type Last = C;

    open spec fn fits() -> bool {
        &&& <(A, B) as PackableTuple>::fits()
        &&& C::fits()
        &&& C::spec_bits() <= <(A, B) as PackableTuple>::spec_last_low_bit()
    }

    open spec fn spec_last_high_bit() -> nat {
        <(A, B) as PackableTuple>::spec_last_low_bit()
    }

    open spec fn spec_last_low_bit() -> nat {
        (<(A, B) as PackableTuple>::spec_last_low_bit() - C::spec_bits()) as nat
    }

    open spec fn wf(self) -> bool {
        (self.0, self.1).wf() && self.2.wf()
    }

    open spec fn held_by(self, bits: usize) -> bool {
        &&& (self.0, self.1).held_by(bits)
        &&& field_value(bits, Self::spec_last_low_bit(), C::spec_bits()) == spec_payload(self.2)
    }

    open spec fn spec_to_tuple_bits(self) -> usize {
        with_field(
            (self.0, self.1).spec_to_tuple_bits(),
            Self::spec_last_low_bit(),
            C::spec_bits(),
            spec_payload(self.2),
        ) as usize
    }

    fn has_layout() -> (has: bool) {
        <(A, B) as PackableTuple>::has_layout() && C::has_layout() && C::bits() <= <(
            A,
            B,
        ) as PackableTuple>::last_low_bit()
    }

    fn last_high_bit() -> (bit: u32) {
        <(A, B) as PackableTuple>::last_low_bit()
    }

    fn last_low_bit() -> (bit: u32) {
        <(A, B) as PackableTuple>::last_low_bit() - C::bits()
    }

    fn to_tuple_bits(self) -> (bits: usize) {
        let (a, b, c) = self;
        let high = <(A, B) as PackableTuple>::last_low_bit();
        proof {
            <(A, B) as PackableTuple>::lemma_layout();
            <(A,) as PackableTuple>::lemma_layout();
        }
        let above = (a, b).to_tuple_bits();
        write_element(above, high, c)
    }

    fn from_tuple_bits(bits: usize) -> (tuple: Self) {
        let high = <(A, B) as PackableTuple>::last_low_bit();
        proof {
            <(A, B) as PackableTuple>::lemma_layout();
            <(A,) as PackableTuple>::lemma_layout();
            let some = choose|some: Self| some.wf() && #[trigger] some.held_by(bits);
            assert((some.0, some.1).wf() && (some.0, some.1).held_by(bits));
            assert(some.2.wf() && field_value(
                bits,
                (high - C::spec_bits()) as nat,
                C::spec_bits(),
            ) == spec_payload(some.2));
        }
        let (a, b) = <(A, B) as PackableTuple>::from_tuple_bits(bits);
        let c = read_element(bits, high);
        (a, b, c)
    }

    proof fn lemma_layout() {
        <(A, B) as PackableTuple>::lemma_layout();
        <(A,) as PackableTuple>::lemma_layout();
        C::lemma_bits();
    }

    proof fn lemma_tuple_bits(tuple: Self) {
        let above = (tuple.0, tuple.1);
        let low = Self::spec_last_low_bit();
        let word = above.spec_to_tuple_bits();
        <(A, B) as PackableTuple>::lemma_layout();
        <(A,) as PackableTuple>::lemma_layout();
        <(A, B) as PackableTuple>::lemma_tuple_bits(above);
        lemma_payload(tuple.2);
        <(A, B) as PackableTuple>::lemma_held_frame(
            above,
            word,
            low,
            C::spec_bits(),
            spec_payload(tuple.2),
        );
        lemma_field_of_with_field(word, low, C::spec_bits(), spec_payload(tuple.2));
        lemma_with_field_frame(word, low, C::spec_bits(), spec_payload(tuple.2), 0, low);
        lemma_low_zeros_narrow(word, <(A, B) as PackableTuple>::spec_last_low_bit(), low);
    }

    proof fn lemma_held_unique(a: Self, b: Self, bits: usize) {
        <(A, B) as PackableTuple>::lemma_held_unique((a.0, a.1), (b.0, b.1), bits);
        lemma_payload_injective(a.2, b.2);
    }

    proof fn lemma_held_frame(tuple: Self, bits: usize, low: nat, width: nat, v: nat) {
        <(A, B) as PackableTuple>::lemma_layout();
        <(A,) as PackableTuple>::lemma_layout();
        C::lemma_bits();
        <(A, B) as PackableTuple>::lemma_held_frame((tuple.0, tuple.1), bits, low, width, v);
        lemma_with_field_frame(bits, low, width, v, Self::spec_last_low_bit(), C::spec_bits());
    }

    proof fn lemma_nonnull(tuple: Self, bits: usize) {
        <(A, B) as PackableTuple>::lemma_nonnull((tuple.0, tuple.1), bits);
    }
}

/// A tuple of four elements: the fourth takes the bits below the third.
impl<A: Packable, B: Packable, C: Packable, D: Packable> PackableTuple for (A, B, C, D) {
    type Storage = A::Storage;

    type Last = D;

    open spec fn fits() -> bool {
        &&& <(A, B, C) as PackableTuple>::fits()
        &&& D::fits()
        &&& D::spec_bits() <= <(A, B, C) as PackableTuple>::spec_last_low_bit()
    }

    open spec fn spec_last_high_bit() -> nat {
        <(A, B, C) as PackableTuple>::spec_last_low_bit()
    }

    open spec fn spec_last_low_bit() -> nat {
        (<(A, B, C) as PackableTuple>::spec_last_low_bit() - D::spec_bits()) as nat
    }

    open spec fn wf(self) -> bool {
        (self.0, self.1, self.2).wf() && self.3.wf()
    }

    open spec fn held_by(self, bits: usize) -> bool {
        &&& (self.0, self.1, self.2).held_by(bits)
        &&& field_value(bits, Self::spec_last_low_bit(), D::spec_bits()) == spec_payload(self.3)
    }

    open spec fn spec_to_tuple_bits(self) -> usize {
        with_field(
            (self.0, self.1, self.2).spec_to_tuple_bits(),
            Self::spec_last_low_bit(),
            D::spec_bits(),
            spec_payload(self.3),
        ) as usize
    }

    fn has_layout() -> (has: bool) {
        <(A, B, C) as PackableTuple>::has_layout() && D::has_layout() && D::bits() <= <(
            A,
            B,
            C,
        ) as PackableTuple>::last_low_bit()
    }

    fn last_high_bit() -> (bit: u32) {
        <(A, B, C) as PackableTuple>::last_low_bit()
    }

    fn last_low_bit() -> (bit: u32) {
        <(A, B, C) as PackableTuple>::last_low_bit() - D::bits()
    }

    fn to_tuple_bits(self) -> (bits: usize) {
        let (a, b, c, d) = self;
        let high = <(A, B, C) as PackableTuple>::last_low_bit();
        proof {
            <(A, B, C) as PackableTuple>::lemma_layout();
            <(A, B) as PackableTuple>::lemma_layout();
            <(A,) as PackableTuple>::lemma_layout();
        }
        let above = (a, b, c).to_tuple_bits();
        write_element(above, high, d)
    }

    fn from_tuple_bits(bits: usize) -> (tuple: Self) {
        let high = <(A, B, C) as PackableTuple>::last_low_bit();
        proof {
            <(A, B, C) as PackableTuple>::lemma_layout();
            <(A, B) as PackableTuple>::lemma_layout();
        <(A,) as PackableTuple>::lemma_layout();
            let some = choose|some: Self| some.wf() && #[trigger] some.held_by(bits);
            assert((some.0, some.1, some.2).wf() && (some.0, some.1, some.2).held_by(bits));
            assert(some.3.wf() && field_value(
                bits,
                (high - D::spec_bits()) as nat,
                D::spec_bits(),
            ) == spec_payload(some.3));
        }
        let (a, b, c) = <(A, B, C) as PackableTuple>::from_tuple_bits(bits);
        let d = read_element(bits, high);
        (a, b, c, d)
    }

    proof fn lemma_layout() {
        <(A, B, C) as PackableTuple>::lemma_layout();
        <(A, B) as PackableTuple>::lemma_layout();
        <(A,) as PackableTuple>::lemma_layout();
        D::lemma_bits();
    }

    proof fn lemma_tuple_bits(tuple: Self) {
        let above = (tuple.0, tuple.1, tuple.2);
        let low = Self::spec_last_low_bit();
        let word = above.spec_to_tuple_bits();
        <(A, B, C) as PackableTuple>::lemma_layout();
        <(A, B) as PackableTuple>::lemma_layout();
        <(A,) as PackableTuple>::lemma_layout();
        <(A, B, C) as PackableTuple>::lemma_tuple_bits(above);
        lemma_payload(tuple.3);
        <(A, B, C) as PackableTuple>::lemma_held_frame(
            above,
            word,
            low,
            D::spec_bits(),
            spec_payload(tuple.3),
        );
        lemma_field_of_with_field(word, low, D::spec_bits(), spec_payload(tuple.3));
        lemma_with_field_frame(word, low, D::spec_bits(), spec_payload(tuple.3), 0, low);
        lemma_low_zeros_narrow(word, <(A, B, C) as PackableTuple>::spec_last_low_bit(), low);
    }

    proof fn lemma_held_unique(a: Self, b: Self, bits: usize) {
        <(A, B, C) as PackableTuple>::lemma_held_unique((a.0, a.1, a.2), (b.0, b.1, b.2), bits);
        lemma_payload_injective(a.3, b.3);
    }

    proof fn lemma_held_frame(tuple: Self, bits: usize, low: nat, width: nat, v: nat) {
        <(A, B, C) as PackableTuple>::lemma_layout();
        <(A, B) as PackableTuple>::lemma_layout();
        <(A,) as PackableTuple>::lemma_layout();
        D::lemma_bits();
        <(A, B, C) as PackableTuple>::lemma_held_frame(
            (tuple.0, tuple.1, tuple.2),
            bits,
            low,
            width,
            v,
        );
        lemma_with_field_frame(bits, low, width, v, Self::spec_last_low_bit(), D::spec_bits());
    }

    proof fn lemma_nonnull(tuple: Self, bits: usize) {
        <(A, B, C) as PackableTuple>::lemma_nonnull((tuple.0, tuple.1, tuple.2), bits);
    }
}

/// The bit range of the last element of the tuple `P`, as a type.
pub struct TupleEltBitRange<P>(PhantomData<P>);

impl<P> Sealed for TupleEltBitRange<P> {
}

impl<P: PackableTuple> BitRange for TupleEltBitRange<P> {
    open spec fn fits() -> bool {
        P::fits()
    }

    open spec fn spec_range() -> FieldRange {
        last_range::<P>()
    }

    fn has_layout() -> (has: bool) {
        P::has_layout()
    }

    fn range() -> (r: FieldRange) {
        proof {
            P::lemma_layout();
        }
        FieldRange { before: PTR_WIDTH - P::last_high_bit(), after: P::last_low_bit() }
    }
}

/// The number that `bits` has in the field of the last element of `T`.
pub open spec fn last_field<T: PackableTuple>(bits: usize) -> nat {
    field_value(bits, T::spec_last_low_bit(), <T::Last as Packable>::spec_bits())
}

/// `bits` with the field of the last element of `T` holding the number `v`.
pub open spec fn with_last_field<T: PackableTuple>(bits: usize, v: nat) -> nat {
    with_field(bits, T::spec_last_low_bit(), <T::Last as Packable>::spec_bits(), v)
}

/// The canonical pattern of the last element of `T` in the word of a tuple.
pub fn tuple_bits_to_last_bits<T: PackableTuple>(tuple_bits: usize) -> (last_bits: usize)
    requires
        T::fits(),
    ensures
        last_bits == bits_of(
            last_field::<T>(tuple_bits),
            <T::Last as Packable>::spec_bits(),
            spec_side::<T::Last>(),
        ),
        canonical(last_bits, <T::Last as Packable>::spec_bits(), spec_side::<T::Last>()),
        payload_of(last_bits, <T::Last as Packable>::spec_bits(), spec_side::<T::Last>())
            == last_field::<T>(tuple_bits),
{
    proof {
        T::lemma_layout();
    }
    <<T::Last as Packable>::BitAlign as BitAlign>::from_bit_range::<TupleEltBitRange<T>>(
        tuple_bits,
    )
}

/// The last element of `T` in the word of a tuple.
pub fn tuple_bits_to_last<T: PackableTuple>(tuple_bits: usize) -> (last: T::Last)
    requires
        T::fits(),
        exists|some: T::Last|
            some.wf() && last_field::<T>(tuple_bits) == #[trigger] spec_payload(some),
    ensures
        last.wf(),
        last_field::<T>(tuple_bits) == spec_payload(last),
{
    let last_bits = tuple_bits_to_last_bits::<T>(tuple_bits);
    proof {
        T::lemma_layout();
        let some = choose|some: T::Last|
            some.wf() && last_field::<T>(tuple_bits) == #[trigger] spec_payload(some);
        <T::Last as Packable>::lemma_pattern(some);
        <T::Last as Packable>::lemma_bits();
        lemma_payload_of_bits(
            some.spec_to_bits(),
            <T::Last as Packable>::spec_bits(),
            spec_side::<T::Last>(),
        );
        assert(some.spec_to_bits() == last_bits);
    }
    <T::Last as Packable>::from_bits(last_bits)
}

/// The word that has the significant bits of `last_bits`, a canonical
/// pattern of the last element of `T`, in that element's field and zeros
/// elsewhere.
pub fn last_bits_to_tuple_bits<T: PackableTuple>(last_bits: usize) -> (tuple_bits: usize)
    requires
        T::fits(),
        canonical(last_bits, <T::Last as Packable>::spec_bits(), spec_side::<T::Last>()),
    ensures
        tuple_bits == payload_of(
            last_bits,
            <T::Last as Packable>::spec_bits(),
            spec_side::<T::Last>(),
        ) * pow2(T::spec_last_low_bit()),
        last_range::<T>().inside(tuple_bits),
        last_field::<T>(tuple_bits) == payload_of(
            last_bits,
            <T::Last as Packable>::spec_bits(),
            spec_side::<T::Last>(),
        ),
{
    proof {
        T::lemma_layout();
    }
    <<T::Last as Packable>::BitAlign as BitAlign>::to_bit_range::<TupleEltBitRange<T>>(last_bits)
}

/// The word that has `last` in the field of the last element of `T` and
/// zeros elsewhere.
pub fn last_to_tuple_bits<T: PackableTuple>(last: T::Last) -> (tuple_bits: usize)
    requires
        T::fits(),
        last.wf(),
    ensures
        tuple_bits == spec_payload(last) * pow2(T::spec_last_low_bit()),
        last_range::<T>().inside(tuple_bits),
        last_field::<T>(tuple_bits) == spec_payload(last),
{
    proof {
        T::lemma_layout();
        <T::Last as Packable>::lemma_pattern(last);
    }
    last_bits_to_tuple_bits::<T>(last.to_bits())
}

/// `tuple_bits` with `last` in the field of the last element of `T`; every
/// other bit is kept.
pub fn update_tuple_bits_with_last<T: PackableTuple>(tuple_bits: usize, last: T::Last) -> (out:
    usize)
    requires
        T::fits(),
        last.wf(),
    ensures
        out == with_last_field::<T>(tuple_bits, spec_payload(last)),
        last_field::<T>(out) == spec_payload(last),
{
    proof {
        T::lemma_layout();
    }
    let placed = last_to_tuple_bits::<T>(last);
    let range = TupleEltBitRange::<T>::range();
    range.write_unshifted_bits(tuple_bits, placed)
}

/// The types and the layout compiler agree: the field of each element of a
/// pair is the slot that the layout gives to the descriptor of the element.
pub proof fn lemma_pair_layout<A: Packable, B: Packable>()
    requires
        <(A, B) as PackableTuple>::fits(),
    ensures
        total_width(seq![spec_descriptor::<A>(), spec_descriptor::<B>()]) <= PTR_WIDTH,
        last_range::<(A,)>() == slot_at(
            seq![spec_descriptor::<A>(), spec_descriptor::<B>()],
            PTR_WIDTH as nat,
            0,
        ).range,
        last_range::<(A, B)>() == slot_at(
            seq![spec_descriptor::<A>(), spec_descriptor::<B>()],
            PTR_WIDTH as nat,
            1,
        ).range,
{
    let fields = seq![spec_descriptor::<A>(), spec_descriptor::<B>()];
    <(A, B) as PackableTuple>::lemma_layout();
    <(A,) as PackableTuple>::lemma_layout();
    assert(fields.take(0) =~= Seq::<FieldDescriptor>::empty());
    assert(fields.take(2) =~= fields);
    lemma_total_width_step(fields, 0);
    lemma_total_width_step(fields, 1);
}

/// The types and the layout compiler agree: the field of each element of a
/// triple is the slot that the layout gives to the descriptor of the
/// element.
pub proof fn lemma_triple_layout<A: Packable, B: Packable, C: Packable>()
    requires
        <(A, B, C) as PackableTuple>::fits(),
    ensures
        total_width(
            seq![spec_descriptor::<A>(), spec_descriptor::<B>(), spec_descriptor::<C>()],
        ) <= PTR_WIDTH,
        last_range::<(A,)>() == slot_at(
            seq![spec_descriptor::<A>(), spec_descriptor::<B>(), spec_descriptor::<C>()],
            PTR_WIDTH as nat,
            0,
        ).range,
        last_range::<(A, B)>() == slot_at(
            seq![spec_descriptor::<A>(), spec_descriptor::<B>(), spec_descriptor::<C>()],
            PTR_WIDTH as nat,
            1,
        ).range,
        last_range::<(A, B, C)>() == slot_at(
            seq![spec_descriptor::<A>(), spec_descriptor::<B>(), spec_descriptor::<C>()],
            PTR_WIDTH as nat,
            2,
        ).range,
{
    let fields = seq![spec_descriptor::<A>(), spec_descriptor::<B>(), spec_descriptor::<C>()];
    <(A, B, C) as PackableTuple>::lemma_layout();
    <(A, B) as PackableTuple>::lemma_layout();
    <(A,) as PackableTuple>::lemma_layout();
    assert(fields.take(0) =~= Seq::<FieldDescriptor>::empty());
    assert(fields.take(3) =~= fields);
    lemma_total_width_step(fields, 0);
    lemma_total_width_step(fields, 1);
    lemma_total_width_step(fields, 2);
}

} // verus!
