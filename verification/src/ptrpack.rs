//! A tuple packed into one word.

use vstd::prelude::*;
use vstd::arithmetic::power2::lemma2_to64;
use core::marker::PhantomData;
use crate::word::PTR_WIDTH;
use crate::word::field_value;
use crate::word::lemma_with_field_frame;
use crate::detail::HighBits;
use crate::detail::PointerStorage;
use crate::packable::Packable;
use crate::packable::spec_payload;
use crate::tuples::PackableTuple;
use crate::tuples::last_field;
use crate::tuples::with_last_field;
use crate::tuples::tuple_bits_to_last;
use crate::tuples::update_tuple_bits_with_last;
use crate::packable::lemma_payload;

verus! {

/// A tuple of packable values in a single word. The word is that of the
/// tuple: every element in its field, zeros below the last.
#[derive(PartialEq, Eq, PartialOrd, Ord, Hash, Debug)]
pub struct PtrPack<T: PackableTuple> {
    data: T::Storage,
    _marker: PhantomData<T>,
}

impl<T: PackableTuple> Copy for PtrPack<T> {
}

impl<T: PackableTuple> Clone for PtrPack<T> {
    fn clone(&self) -> (copy: Self)
        ensures
            copy == *self,
    {
        *self
    }
}

impl<T: PackableTuple> PtrPack<T> {
    /// The packed word.
    pub closed spec fn spec_word(self) -> usize {
        self.data@
    }

    /// The word has the elements of a tuple, zeros below them, and is one
    /// that the storage admits.
    pub open spec fn wf(self) -> bool {
        &&& T::fits()
        &&& (<T::Storage as PointerStorage>::nullable() || self.spec_word() != 0)
        &&& exists|tuple: T| tuple.wf() && #[trigger] tuple.held_by(self.spec_word())
        &&& field_value(self.spec_word(), 0, T::spec_last_low_bit()) == 0
    }

    /// The packed tuple.
    pub open spec fn view(self) -> T {
        choose|tuple: T| tuple.wf() && #[trigger] tuple.held_by(self.spec_word())
    }

    /// Packs the tuple into a word.
    pub fn new(tuple: T) -> (pack: Self)
        requires
            T::fits(),
            tuple.wf(),
        ensures
            pack.wf(),
            pack@ == tuple,
            pack.spec_word() == tuple.spec_to_tuple_bits(),
    {
        proof {
            T::lemma_tuple_bits(tuple);
            T::lemma_nonnull(tuple, tuple.spec_to_tuple_bits());
        }
        let bits = tuple.to_tuple_bits();
        let pack = PtrPack {
            data: <T::Storage as PointerStorage>::from_bits(bits),
            _marker: PhantomData,
        };
        proof {
            T::lemma_held_unique(pack@, tuple, bits);
        }
        pack
    }

    /// The packed tuple.
    pub fn to_tuple(self) -> (tuple: T)
        requires
            self.wf(),
        ensures
            tuple == self@,
    {
        let tuple = T::from_tuple_bits(self.to_bits());
        proof {
            T::lemma_held_unique(self@, tuple, self.spec_word());
        }
        tuple
    }

    /// The pack whose word is `bits`.
    pub fn from_bits(bits: usize) -> (pack: Self)
        requires
            T::fits(),
            <T::Storage as PointerStorage>::nullable() || bits != 0,
            exists|tuple: T| tuple.wf() && #[trigger] tuple.held_by(bits),
            field_value(bits, 0, T::spec_last_low_bit()) == 0,
        ensures
            pack.wf(),
            pack.spec_word() == bits,
    {
        let pack = PtrPack {
            data: <T::Storage as PointerStorage>::from_bits(bits),
            _marker: PhantomData,
        };
        proof {
            let tuple = choose|tuple: T| tuple.wf() && #[trigger] tuple.held_by(bits);
            assert(tuple.held_by(pack.spec_word()));
        }
        pack
    }

    /// The packed word.
    pub fn to_bits(self) -> (bits: usize)
        ensures
            bits == self.spec_word(),
    {
        self.data.to_bits()
    }

    /// Replaces the word by `bits`, which has the elements of `tuple`.
    fn set_word(&mut self, bits: usize, Ghost(tuple): Ghost<T>)
        requires
            T::fits(),
            tuple.wf(),
            tuple.held_by(bits),
            field_value(bits, 0, T::spec_last_low_bit()) == 0,
        ensures
            final(self).wf(),
            final(self)@ == tuple,
            final(self).spec_word() == bits,
    {
        proof {
            T::lemma_nonnull(tuple, bits);
        }
        self.data = <T::Storage as PointerStorage>::from_bits(bits);
        proof {
            T::lemma_held_unique(self@, tuple, bits);
        }
    }

    /// The pack whose word is `bits`.
    pub closed spec fn spec_from_bits(bits: usize) -> Self {
        choose|pack: Self| pack.data@ == bits
    }

    /// Every word is the word of a pack.
    pub proof fn lemma_spec_from_bits(bits: usize)
        requires
            <T::Storage as PointerStorage>::nullable() || bits != 0,
        ensures
            Self::spec_from_bits(bits).spec_word() == bits,
    {
        <T::Storage as PointerStorage>::lemma_stores(bits);
        let data = choose|data: T::Storage| data@ == bits;
        let pack = PtrPack::<T> { data, _marker: PhantomData };
        assert(pack.data@ == bits);
    }

    /// A pack is known by its word.
    pub proof fn lemma_same_bits(a: Self, b: Self)
        requires
            a.spec_word() == b.spec_word(),
        ensures
            a == b,
    {
        <T::Storage as PointerStorage>::lemma_storage(a.data, b.data);
    }
}

/// A packed tuple is itself a packable value: its bits are the most
/// significant ones of the word.
impl<T: PackableTuple> Packable for PtrPack<T> {
    type BitAlign = HighBits;

    type Storage = T::Storage;

    open spec fn fits() -> bool {
        T::fits()
    }

    open spec fn spec_bits() -> nat {
        (PTR_WIDTH - T::spec_last_low_bit()) as nat
    }

    open spec fn wf(self) -> bool {
        PtrPack::wf(self)
    }

    open spec fn spec_to_bits(self) -> usize {
        PtrPack::spec_word(self)
    }

    fn has_layout() -> (has: bool) {
        T::has_layout()
    }

    fn bits() -> (n: u32) {
        proof {
            T::lemma_layout();
        }
        PTR_WIDTH - T::last_low_bit()
    }

    fn from_bits(bits: usize) -> (value: Self) {
        proof {
            let some = choose|some: Self|
                PtrPack::wf(some) && #[trigger] PtrPack::spec_word(some) == bits;
            assert(some@.held_by(bits));
        }
        PtrPack::from_bits(bits)
    }

    fn to_bits(self) -> (bits: usize) {
        PtrPack::to_bits(self)
    }

    proof fn lemma_bits() {
        T::lemma_layout();
    }

    proof fn lemma_pattern(value: Self) {
        T::lemma_layout();
        lemma2_to64();
    }

    proof fn lemma_injective(a: Self, b: Self) {
        PtrPack::lemma_same_bits(a, b);
    }
}

impl<A: Packable> PtrPack<(A,)> {
    /// The element of the tuple.
    pub fn get_0(self) -> (a: A)
        requires
            self.wf(),
        ensures
            a == self@.0,
    {
        proof {
            let tuple = self@;
            assert(tuple.wf() && tuple.held_by(self.spec_word()));
            assert(tuple.0.wf() && last_field::<(A,)>(self.spec_word()) == spec_payload(tuple.0));
        }
        let a = tuple_bits_to_last::<(A,)>(self.to_bits());
        proof {
            <(A,) as PackableTuple>::lemma_held_unique(self@, (a,), self.spec_word());
        }
        a
    }
}

impl<A: Packable> PtrPack<(A,)> {
    /// Replaces the element of the tuple.
    pub fn set_0(&mut self, a: A)
        requires
            old(self).wf(),
            a.wf(),
        ensures
            final(self).wf(),
            final(self)@ == (a,),
            final(self).spec_word() == with_last_field::<(A,)>(
                old(self).spec_word(),
                spec_payload(a),
            ),
    {
        let bits = update_tuple_bits_with_last::<(A,)>(self.to_bits(), a);
        proof {
            frame_low_zeros::<(A,), (A,)>(self.spec_word(), a);
        }
        self.set_word(bits, Ghost((a,)));
    }
}

impl<A: Packable, B: Packable> PtrPack<(A, B)> {
    /// Replaces the first element of the tuple.
    pub fn set_0(&mut self, a: A)
        requires
            old(self).wf(),
            a.wf(),
        ensures
            final(self).wf(),
            final(self)@ == (a, old(self)@.1),
            final(self).spec_word() == with_last_field::<(A,)>(
                old(self).spec_word(),
                spec_payload(a),
            ),
    {
        let ghost before = self@;
        proof {
            assert(before.wf() && before.held_by(self.spec_word()));
        }
        let bits = update_tuple_bits_with_last::<(A,)>(self.to_bits(), a);
        proof {
            frame_low_zeros::<(A,), (A, B)>(self.spec_word(), a);
            frame_last::<(A,), (A, B)>(self.spec_word(), a);
        }
        self.set_word(bits, Ghost((a, before.1)));
    }

    /// Replaces the second element of the tuple.
    pub fn set_1(&mut self, b: B)
        requires
            old(self).wf(),
            b.wf(),
        ensures
            final(self).wf(),
            final(self)@ == (old(self)@.0, b),
            final(self).spec_word() == with_last_field::<(A, B)>(
                old(self).spec_word(),
                spec_payload(b),
            ),
    {
        let ghost before = self@;
        proof {
            assert(before.wf() && before.held_by(self.spec_word()));
        }
        let bits = update_tuple_bits_with_last::<(A, B)>(self.to_bits(), b);
        proof {
            frame_low_zeros::<(A, B), (A, B)>(self.spec_word(), b);
            <(A, B) as PackableTuple>::lemma_layout();
            lemma_payload(b);
            <(A,) as PackableTuple>::lemma_held_frame(
                (before.0,),
                self.spec_word(),
                <(A, B) as PackableTuple>::spec_last_low_bit(),
                B::spec_bits(),
                spec_payload(b),
            );
        }
        self.set_word(bits, Ghost((before.0, b)));
    }

    /// The first element of the tuple.
    pub fn get_0(self) -> (a: A)
        requires
            self.wf(),
        ensures
            a == self@.0,
    {
        proof {
            let tuple = self@;
            assert(tuple.wf() && tuple.held_by(self.spec_word()));
            assert(tuple.0.wf() && last_field::<(A,)>(self.spec_word()) == spec_payload(tuple.0));
        }
        let a = tuple_bits_to_last::<(A,)>(self.to_bits());
        proof {
            <(A,) as PackableTuple>::lemma_held_unique((self@.0,), (a,), self.spec_word());
        }
        a
    }

    /// The second element of the tuple.
    pub fn get_1(self) -> (b: B)
        requires
            self.wf(),
        ensures
            b == self@.1,
    {
        proof {
            let tuple = self@;
            assert(tuple.wf() && tuple.held_by(self.spec_word()));
            assert(tuple.1.wf() && last_field::<(A, B)>(self.spec_word()) == spec_payload(
                tuple.1,
            ));
        }
        let b = tuple_bits_to_last::<(A, B)>(self.to_bits());
        proof {
            <(A, B) as PackableTuple>::lemma_held_unique(self@, (self@.0, b), self.spec_word());
        }
        b
    }
}

impl<A: Packable, B: Packable, C: Packable> PtrPack<(A, B, C)> {
    /// Replaces the first element of the tuple.
    pub fn set_0(&mut self, a: A)
        requires
            old(self).wf(),
            a.wf(),
        ensures
            final(self).wf(),
            final(self)@ == (a, old(self)@.1, old(self)@.2),
            final(self).spec_word() == with_last_field::<(A,)>(
                old(self).spec_word(),
                spec_payload(a),
            ),
    {
        let ghost before = self@;
        proof {
            assert(before.wf() && before.held_by(self.spec_word()));
        }
        let bits = update_tuple_bits_with_last::<(A,)>(self.to_bits(), a);
        proof {
            frame_low_zeros::<(A,), (A, B, C)>(self.spec_word(), a);
            frame_last::<(A,), (A, B)>(self.spec_word(), a);
            frame_last::<(A,), (A, B, C)>(self.spec_word(), a);
        }
        self.set_word(bits, Ghost((a, before.1, before.2)));
    }

    /// Replaces the second element of the tuple.
    pub fn set_1(&mut self, b: B)
        requires
            old(self).wf(),
            b.wf(),
        ensures
            final(self).wf(),
            final(self)@ == (old(self)@.0, b, old(self)@.2),
            final(self).spec_word() == with_last_field::<(A, B)>(
                old(self).spec_word(),
                spec_payload(b),
            ),
    {
        let ghost before = self@;
        proof {
            assert(before.wf() && before.held_by(self.spec_word()));
        }
        let bits = update_tuple_bits_with_last::<(A, B)>(self.to_bits(), b);
        proof {
            frame_low_zeros::<(A, B), (A, B, C)>(self.spec_word(), b);
            frame_last::<(A, B), (A, B, C)>(self.spec_word(), b);
            <(A, B) as PackableTuple>::lemma_layout();
            lemma_payload(b);
            <(A,) as PackableTuple>::lemma_held_frame(
                (before.0,),
                self.spec_word(),
                <(A, B) as PackableTuple>::spec_last_low_bit(),
                B::spec_bits(),
                spec_payload(b),
            );
        }
        self.set_word(bits, Ghost((before.0, b, before.2)));
    }

    /// Replaces the third element of the tuple.
    pub fn set_2(&mut self, c: C)
        requires
            old(self).wf(),
            c.wf(),
        ensures
            final(self).wf(),
            final(self)@ == (old(self)@.0, old(self)@.1, c),
            final(self).spec_word() == with_last_field::<(A, B, C)>(
                old(self).spec_word(),
                spec_payload(c),
            ),
    {
        let ghost before = self@;
        proof {
            assert(before.wf() && before.held_by(self.spec_word()));
        }
        let bits = update_tuple_bits_with_last::<(A, B, C)>(self.to_bits(), c);
        proof {
            frame_low_zeros::<(A, B, C), (A, B, C)>(self.spec_word(), c);
            <(A, B, C) as PackableTuple>::lemma_layout();
            lemma_payload(c);
            <(A, B) as PackableTuple>::lemma_held_frame(
                (before.0, before.1),
                self.spec_word(),
                <(A, B, C) as PackableTuple>::spec_last_low_bit(),
                C::spec_bits(),
                spec_payload(c),
            );
        }
        self.set_word(bits, Ghost((before.0, before.1, c)));
    }

    /// The first element of the tuple.
    pub fn get_0(self) -> (a: A)
        requires
            self.wf(),
        ensures
            a == self@.0,
    {
        proof {
            let tuple = self@;
            assert(tuple.wf() && tuple.held_by(self.spec_word()));
            assert(tuple.0.wf() && last_field::<(A,)>(self.spec_word()) == spec_payload(tuple.0));
        }
        let a = tuple_bits_to_last::<(A,)>(self.to_bits());
        proof {
            <(A,) as PackableTuple>::lemma_held_unique((self@.0,), (a,), self.spec_word());
        }
        a
    }

    /// The second element of the tuple.
    pub fn get_1(self) -> (b: B)
        requires
            self.wf(),
        ensures
            b == self@.1,
    {
        proof {
            let tuple = self@;
            assert(tuple.wf() && tuple.held_by(self.spec_word()));
            assert(tuple.1.wf() && last_field::<(A, B)>(self.spec_word()) == spec_payload(
                tuple.1,
            ));
        }
        let b = tuple_bits_to_last::<(A, B)>(self.to_bits());
        proof {
            <(A, B) as PackableTuple>::lemma_held_unique(
                (self@.0, self@.1),
                (self@.0, b),
                self.spec_word(),
            );
        }
        b
    }

    /// The third element of the tuple.
    pub fn get_2(self) -> (c: C)
        requires
            self.wf(),
        ensures
            c == self@.2,
    {
        proof {
            let tuple = self@;
            assert(tuple.wf() && tuple.held_by(self.spec_word()));
            assert(tuple.2.wf() && last_field::<(A, B, C)>(self.spec_word()) == spec_payload(
                tuple.2,
            ));
        }
        let c = tuple_bits_to_last::<(A, B, C)>(self.to_bits());
        proof {
            <(A, B, C) as PackableTuple>::lemma_held_unique(
                self@,
                (self@.0, self@.1, c),
                self.spec_word(),
            );
        }
        c
    }
}

impl<A: Packable, B: Packable, C: Packable, D: Packable> PtrPack<(A, B, C, D)> {
    /// The first element of the tuple.
    pub fn get_0(self) -> (a: A)
        requires
            self.wf(),
        ensures
            a == self@.0,
    {
        proof {
            let tuple = self@;
            assert(tuple.wf() && tuple.held_by(self.spec_word()));
            assert(tuple.0.wf() && last_field::<(A,)>(self.spec_word()) == spec_payload(tuple.0));
        }
        let a = tuple_bits_to_last::<(A,)>(self.to_bits());
        proof {
            <(A,) as PackableTuple>::lemma_held_unique((self@.0,), (a,), self.spec_word());
        }
        a
    }

    /// The second element of the tuple.
    pub fn get_1(self) -> (b: B)
        requires
            self.wf(),
        ensures
            b == self@.1,
    {
        proof {
            let tuple = self@;
            assert(tuple.wf() && tuple.held_by(self.spec_word()));
            assert(tuple.1.wf() && last_field::<(A, B)>(self.spec_word()) == spec_payload(
                tuple.1,
            ));
        }
        let b = tuple_bits_to_last::<(A, B)>(self.to_bits());
        proof {
            <(A, B) as PackableTuple>::lemma_held_unique(
                (self@.0, self@.1),
                (self@.0, b),
                self.spec_word(),
            );
        }
        b
    }

    /// The third element of the tuple.
    pub fn get_2(self) -> (c: C)
        requires
            self.wf(),
        ensures
            c == self@.2,
    {
        proof {
            let tuple = self@;
            assert(tuple.wf() && tuple.held_by(self.spec_word()));
            assert(tuple.2.wf() && last_field::<(A, B, C)>(self.spec_word()) == spec_payload(
                tuple.2,
            ));
        }
        let c = tuple_bits_to_last::<(A, B, C)>(self.to_bits());
        proof {
            <(A, B, C) as PackableTuple>::lemma_held_unique(
                (self@.0, self@.1, self@.2),
                (self@.0, self@.1, c),
                self.spec_word(),
            );
        }
        c
    }

    /// The fourth element of the tuple.
    pub fn get_3(self) -> (d: D)
        requires
            self.wf(),
        ensures
            d == self@.3,
    {
        proof {
            let tuple = self@;
            assert(tuple.wf() && tuple.held_by(self.spec_word()));
            assert(tuple.3.wf() && last_field::<(A, B, C, D)>(self.spec_word()) == spec_payload(
                tuple.3,
            ));
        }
        let d = tuple_bits_to_last::<(A, B, C, D)>(self.to_bits());
        proof {
            <(A, B, C, D) as PackableTuple>::lemma_held_unique(
                self@,
                (self@.0, self@.1, self@.2, d),
                self.spec_word(),
            );
        }
        d
    }

    /// Replaces the first element of the tuple.
    pub fn set_0(&mut self, a: A)
        requires
            old(self).wf(),
            a.wf(),
        ensures
            final(self).wf(),
            final(self)@ == (a, old(self)@.1, old(self)@.2, old(self)@.3),
            final(self).spec_word() == with_last_field::<(A,)>(
                old(self).spec_word(),
                spec_payload(a),
            ),
    {
        let ghost before = self@;
        proof {
            assert(before.wf() && before.held_by(self.spec_word()));
        }
        let bits = update_tuple_bits_with_last::<(A,)>(self.to_bits(), a);
        proof {
            frame_low_zeros::<(A,), (A, B, C, D)>(self.spec_word(), a);
            frame_last::<(A,), (A, B)>(self.spec_word(), a);
            frame_last::<(A,), (A, B, C)>(self.spec_word(), a);
            frame_last::<(A,), (A, B, C, D)>(self.spec_word(), a);
        }
        self.set_word(bits, Ghost((a, before.1, before.2, before.3)));
    }

    /// Replaces the second element of the tuple.
    pub fn set_1(&mut self, b: B)
        requires
            old(self).wf(),
            b.wf(),
        ensures
            final(self).wf(),
            final(self)@ == (old(self)@.0, b, old(self)@.2, old(self)@.3),
            final(self).spec_word() == with_last_field::<(A, B)>(
                old(self).spec_word(),
                spec_payload(b),
            ),
    {
        let ghost before = self@;
        proof {
            assert(before.wf() && before.held_by(self.spec_word()));
        }
        let bits = update_tuple_bits_with_last::<(A, B)>(self.to_bits(), b);
        proof {
            frame_low_zeros::<(A, B), (A, B, C, D)>(self.spec_word(), b);
            frame_last::<(A, B), (A, B, C)>(self.spec_word(), b);
            frame_last::<(A, B), (A, B, C, D)>(self.spec_word(), b);
            <(A, B) as PackableTuple>::lemma_layout();
            lemma_payload(b);
            <(A,) as PackableTuple>::lemma_held_frame(
                (before.0,),
                self.spec_word(),
                <(A, B) as PackableTuple>::spec_last_low_bit(),
                B::spec_bits(),
                spec_payload(b),
            );
        }
        self.set_word(bits, Ghost((before.0, b, before.2, before.3)));
    }

    /// Replaces the third element of the tuple.
    pub fn set_2(&mut self, c: C)
        requires
            old(self).wf(),
            c.wf(),
        ensures
            final(self).wf(),
            final(self)@ == (old(self)@.0, old(self)@.1, c, old(self)@.3),
            final(self).spec_word() == with_last_field::<(A, B, C)>(
                old(self).spec_word(),
                spec_payload(c),
            ),
    {
        let ghost before = self@;
        proof {
            assert(before.wf() && before.held_by(self.spec_word()));
        }
        let bits = update_tuple_bits_with_last::<(A, B, C)>(self.to_bits(), c);
        proof {
            frame_low_zeros::<(A, B, C), (A, B, C, D)>(self.spec_word(), c);
            frame_last::<(A, B, C), (A, B, C, D)>(self.spec_word(), c);
            <(A, B, C) as PackableTuple>::lemma_layout();
            lemma_payload(c);
            <(A, B) as PackableTuple>::lemma_held_frame(
                (before.0, before.1),
                self.spec_word(),
                <(A, B, C) as PackableTuple>::spec_last_low_bit(),
                C::spec_bits(),
                spec_payload(c),
            );
        }
        self.set_word(bits, Ghost((before.0, before.1, c, before.3)));
    }

    /// Replaces the fourth element of the tuple.
    pub fn set_3(&mut self, d: D)
        requires
            old(self).wf(),
            d.wf(),
        ensures
            final(self).wf(),
            final(self)@ == (old(self)@.0, old(self)@.1, old(self)@.2, d),
            final(self).spec_word() == with_last_field::<(A, B, C, D)>(
                old(self).spec_word(),
                spec_payload(d),
            ),
    {
        let ghost before = self@;
        proof {
            assert(before.wf() && before.held_by(self.spec_word()));
        }
        let bits = update_tuple_bits_with_last::<(A, B, C, D)>(self.to_bits(), d);
        proof {
            frame_low_zeros::<(A, B, C, D), (A, B, C, D)>(self.spec_word(), d);
            <(A, B, C, D) as PackableTuple>::lemma_layout();
            lemma_payload(d);
            <(A, B, C) as PackableTuple>::lemma_held_frame(
                (before.0, before.1, before.2),
                self.spec_word(),
                <(A, B, C, D) as PackableTuple>::spec_last_low_bit(),
                D::spec_bits(),
                spec_payload(d),
            );
        }
        self.set_word(bits, Ghost((before.0, before.1, before.2, d)));
    }
}

/// Writing the last element of `W` leaves the zeros below the last element
/// of `T`, a tuple that starts with the elements of `W`.
proof fn frame_low_zeros<W: PackableTuple, T: PackableTuple>(bits: usize, last: W::Last)
    requires
        W::fits(),
        T::fits(),
        T::spec_last_low_bit() <= W::spec_last_low_bit(),
        last.wf(),
        field_value(bits, 0, T::spec_last_low_bit()) == 0,
    ensures
        with_last_field::<W>(bits, spec_payload(last)) <= usize::MAX,
        field_value(
            with_last_field::<W>(bits, spec_payload(last)) as usize,
            0,
            T::spec_last_low_bit(),
        ) == 0,
{
    W::lemma_layout();
    lemma_payload(last);
    lemma_with_field_frame(
        bits,
        W::spec_last_low_bit(),
        <W::Last as Packable>::spec_bits(),
        spec_payload(last),
        0,
        T::spec_last_low_bit(),
    );
}

/// Writing the last element of `W` leaves the last element of `T`, which
/// lies below it.
proof fn frame_last<W: PackableTuple, T: PackableTuple>(bits: usize, last: W::Last)
    requires
        W::fits(),
        T::fits(),
        T::spec_last_high_bit() <= W::spec_last_low_bit(),
        last.wf(),
    ensures
        with_last_field::<W>(bits, spec_payload(last)) <= usize::MAX,
        last_field::<T>(with_last_field::<W>(bits, spec_payload(last)) as usize) == last_field::<T>(
            bits,
        ),
{
    W::lemma_layout();
    T::lemma_layout();
    lemma_payload(last);
    lemma_with_field_frame(
        bits,
        W::spec_last_low_bit(),
        <W::Last as Packable>::spec_bits(),
        spec_payload(last),
        T::spec_last_low_bit(),
        <T::Last as Packable>::spec_bits(),
    );
}

} // verus!
