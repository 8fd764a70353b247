//! Two packable types in the place of one: an untagged union, and a tagged
//! either that adds one bit to tell the two apart.

use vstd::prelude::*;
use core::marker::PhantomData;
use crate::word::PTR_WIDTH;
use crate::word::field_value;
use crate::word::spec_max;
use crate::word::const_max;
use crate::word::lemma_low_zeros_narrow;
use crate::word::lemma_field_of_zero;
use crate::word::lemma_field_in_low_zeros;
use crate::range::Side;
use crate::range::lemma_payload_of_bits;
use vstd::arithmetic::power2::pow2;
use crate::detail::HighBits;
use crate::detail::NullableStorage;
use crate::packable::Packable;
use crate::tuples::PackableTuple;
use crate::ptrpack::PtrPack;

verus! {

/// One of two values.
#[derive(Copy, Clone, Eq, PartialEq, Ord, PartialOrd, Hash, Debug)]
pub enum Either<L, R> {
    /// A value of the first type.
    Left(L),
    /// A value of the second type.
    Right(R),
}

impl<L: Packable, R: Packable> Either<L, R> {
    /// The value inside is a value of its type.
    pub open spec fn wf(self) -> bool {
        match self {
            Either::Left(left) => left.wf(),
            Either::Right(right) => right.wf(),
        }
    }
}

/// The word of a value alone in a word: the value at the most significant
/// end, zeros below it.
pub open spec fn alone_bits<P: Packable>(value: P) -> usize {
    (value,).spec_to_tuple_bits()
}

/// An untagged union of two packable types. The value of either type lies
/// at the most significant end of the word, so the union is as wide as the
/// wider of the two. The union does not know which of the two it holds.
pub struct TinyUnion<L: Packable, R: Packable> {
    bits: usize,
    _marker: PhantomData<(L, R)>,
}

impl<L: Packable, R: Packable> Copy for TinyUnion<L, R> {
}

impl<L: Packable, R: Packable> Clone for TinyUnion<L, R> {
    fn clone(&self) -> (copy: Self)
        ensures
            copy == *self,
    {
        *self
    }
}

impl<L: Packable, R: Packable> TinyUnion<L, R> {
    /// The word of the union.
    pub closed spec fn spec_word(self) -> usize {
        self.bits
    }

    /// Whether the union holds `left`.
    pub open spec fn holds_left(self, left: L) -> bool {
        left.wf() && self.spec_word() == alone_bits(left)
    }

    /// Whether the union holds `right`.
    pub open spec fn holds_right(self, right: R) -> bool {
        right.wf() && self.spec_word() == alone_bits(right)
    }

    /// Whether the union holds a value of the first type.
    pub open spec fn is_left(self) -> bool {
        exists|left: L| #[trigger] self.holds_left(left)
    }

    /// Whether the union holds a value of the second type.
    pub open spec fn is_right(self) -> bool {
        exists|right: R| #[trigger] self.holds_right(right)
    }

    /// The value of the first type that the union holds.
    pub open spec fn spec_left(self) -> L {
        choose|left: L| #[trigger] self.holds_left(left)
    }

    /// The value of the second type that the union holds.
    pub open spec fn spec_right(self) -> R {
        choose|right: R| #[trigger] self.holds_right(right)
    }

    /// The union that holds `left`.
    pub fn from_left(left: L) -> (union: Self)
        requires
            L::fits(),
            left.wf(),
        ensures
            union.holds_left(left),
            union.spec_left() == left,
    {
        let union = TinyUnion {
            bits: PtrPack::<(L,)>::new((left,)).to_bits(),
            _marker: PhantomData,
        };
        proof {
            union.lemma_from_left_as_left(left);
        }
        union
    }

    /// The union that holds `right`.
    pub fn from_right(right: R) -> (union: Self)
        requires
            R::fits(),
            right.wf(),
        ensures
            union.holds_right(right),
            union.spec_right() == right,
    {
        let union = TinyUnion {
            bits: PtrPack::<(R,)>::new((right,)).to_bits(),
            _marker: PhantomData,
        };
        proof {
            union.lemma_from_right_as_right(right);
        }
        union
    }

    /// The value of the first type that the union holds. The union must
    /// hold one: it cannot tell by itself.
    pub fn as_left(self) -> (left: L)
        requires
            L::fits(),
            self.is_left(),
        ensures
            left == self.spec_left(),
            self.holds_left(left),
    {
        proof {
            let held = self.spec_left();
            <(L,) as PackableTuple>::lemma_tuple_bits((held,));
            <(L,) as PackableTuple>::lemma_nonnull((held,), self.spec_word());
        }
        let pack = PtrPack::<(L,)>::from_bits(self.bits);
        let left = pack.get_0();
        proof {
            <(L,) as PackableTuple>::lemma_held_unique(
                (left,),
                (self.spec_left(),),
                self.spec_word(),
            );
        }
        left
    }

    /// The value of the second type that the union holds. The union must
    /// hold one: it cannot tell by itself.
    pub fn as_right(self) -> (right: R)
        requires
            R::fits(),
            self.is_right(),
        ensures
            right == self.spec_right(),
            self.holds_right(right),
    {
        proof {
            let held = self.spec_right();
            <(R,) as PackableTuple>::lemma_tuple_bits((held,));
            <(R,) as PackableTuple>::lemma_nonnull((held,), self.spec_word());
        }
        let pack = PtrPack::<(R,)>::from_bits(self.bits);
        let right = pack.get_0();
        proof {
            <(R,) as PackableTuple>::lemma_held_unique(
                (right,),
                (self.spec_right(),),
                self.spec_word(),
            );
        }
        right
    }

    /// What is put into a union as a value of the first type is what the
    /// union then holds as such, whatever the second type is.
    pub proof fn lemma_from_left_as_left(self, left: L)
        requires
            L::fits(),
            self.holds_left(left),
        ensures
            self.is_left(),
            self.spec_left() == left,
    {
        Self::lemma_left_unique(self, left, self.spec_left());
    }

    /// What is put into a union as a value of the second type is what the
    /// union then holds as such, whatever the first type is.
    pub proof fn lemma_from_right_as_right(self, right: R)
        requires
            R::fits(),
            self.holds_right(right),
        ensures
            self.is_right(),
            self.spec_right() == right,
    {
        Self::lemma_right_unique(self, right, self.spec_right());
    }

    /// A union holds one value of the first type at most.
    pub proof fn lemma_left_unique(self, a: L, b: L)
        requires
            L::fits(),
            self.holds_left(a),
            self.holds_left(b),
        ensures
            a == b,
    {
        <(L,) as PackableTuple>::lemma_tuple_bits((a,));
        <(L,) as PackableTuple>::lemma_tuple_bits((b,));
        <(L,) as PackableTuple>::lemma_held_unique((a,), (b,), self.spec_word());
    }

    /// A union holds one value of the second type at most.
    pub proof fn lemma_right_unique(self, a: R, b: R)
        requires
            R::fits(),
            self.holds_right(a),
            self.holds_right(b),
        ensures
            a == b,
    {
        <(R,) as PackableTuple>::lemma_tuple_bits((a,));
        <(R,) as PackableTuple>::lemma_tuple_bits((b,));
        <(R,) as PackableTuple>::lemma_held_unique((a,), (b,), self.spec_word());
    }

    /// The union with the given word.
    fn from_word(bits: usize) -> (union: Self)
        ensures
            union.spec_word() == bits,
    {
        TinyUnion { bits, _marker: PhantomData }
    }
}

/// A union is a packable value: pointer-like, and as wide as the wider of
/// its two types.
impl<L: Packable, R: Packable> Packable for TinyUnion<L, R> {
    type BitAlign = HighBits;

    type Storage = NullableStorage;

    open spec fn fits() -> bool {
        L::fits() && R::fits()
    }

    open spec fn spec_bits() -> nat {
        spec_max(L::spec_bits() as int, R::spec_bits() as int) as nat
    }

    open spec fn wf(self) -> bool {
        self.is_left() || self.is_right()
    }

    open spec fn spec_to_bits(self) -> usize {
        TinyUnion::spec_word(self)
    }

    fn has_layout() -> (has: bool) {
        L::has_layout() && R::has_layout()
    }

    fn bits() -> (n: u32) {
        const_max(L::bits(), R::bits())
    }

    fn from_bits(bits: usize) -> (value: Self) {
        TinyUnion::from_word(bits)
    }

    fn to_bits(self) -> (bits: usize) {
        self.bits
    }

    proof fn lemma_bits() {
        L::lemma_bits();
        R::lemma_bits();
    }

    proof fn lemma_pattern(value: Self) {
        L::lemma_bits();
        R::lemma_bits();
        let unused = (PTR_WIDTH - Self::spec_bits()) as nat;
        vstd::arithmetic::power2::lemma2_to64();
        if value.is_left() {
            let held = value.spec_left();
            <(L,) as PackableTuple>::lemma_tuple_bits((held,));
            lemma_low_zeros_narrow(
                TinyUnion::spec_word(value),
                (PTR_WIDTH - L::spec_bits()) as nat,
                unused,
            );
        } else {
            let held = value.spec_right();
            <(R,) as PackableTuple>::lemma_tuple_bits((held,));
            lemma_low_zeros_narrow(
                TinyUnion::spec_word(value),
                (PTR_WIDTH - R::spec_bits()) as nat,
                unused,
            );
        }
    }

    proof fn lemma_injective(a: Self, b: Self) {
    }
}

/// A tagged union of two packable types: a [`TinyUnion`] and, in the bit
/// below it, a tag that is set for a value of the second type.
pub struct TinyEither<L: Packable, R: Packable> {
    value: PtrPack<(TinyUnion<L, R>, bool)>,
}

impl<L: Packable, R: Packable> Copy for TinyEither<L, R> {
}

impl<L: Packable, R: Packable> Clone for TinyEither<L, R> {
    fn clone(&self) -> (copy: Self)
        ensures
            copy == *self,
    {
        *self
    }
}

impl<L: Packable, R: Packable> TinyEither<L, R> {
    /// Whether the two types leave room for the tag: the wider of them has
    /// fewer bits than a word.
    pub open spec fn fits() -> bool {
        <(TinyUnion<L, R>, bool) as PackableTuple>::fits()
    }

    /// The packed word.
    pub closed spec fn spec_word(self) -> usize {
        self.value.spec_word()
    }

    /// The union of the two types.
    pub closed spec fn spec_union(self) -> TinyUnion<L, R> {
        self.value@.0
    }

    /// The tag: whether the union holds a value of the second type.
    pub closed spec fn spec_tag(self) -> bool {
        self.value@.1
    }

    /// The word is that of a union and a tag, and the union holds a value
    /// of the type that the tag names.
    pub closed spec fn wf(self) -> bool {
        &&& self.value.wf()
        &&& self.value@.wf()
        &&& self.value@.1 ==> self.value@.0.is_right()
        &&& !self.value@.1 ==> self.value@.0.is_left()
    }

    /// The value: the one of the second type where the tag is set, the one
    /// of the first type where it is not.
    pub open spec fn view(self) -> Either<L, R> {
        if self.spec_tag() {
            Either::Right(self.spec_union().spec_right())
        } else {
            Either::Left(self.spec_union().spec_left())
        }
    }

    /// The union that a value is packed as.
    pub closed spec fn union_of(either: Either<L, R>) -> TinyUnion<L, R> {
        match either {
            Either::Left(left) => TinyUnion { bits: alone_bits(left), _marker: PhantomData },
            Either::Right(right) => TinyUnion { bits: alone_bits(right), _marker: PhantomData },
        }
    }

    /// The position of the tag: the bit below the union.
    pub open spec fn spec_tag_bit() -> nat {
        <(TinyUnion<L, R>, bool) as PackableTuple>::spec_last_low_bit()
    }

    /// The word that a value is packed as: the value at the most
    /// significant end, and below the union the tag, set for a value of the
    /// second type.
    pub open spec fn word_of(either: Either<L, R>) -> usize {
        match either {
            Either::Left(left) => alone_bits(left),
            Either::Right(right) => (alone_bits(right) + pow2(Self::spec_tag_bit())) as usize,
        }
    }

    /// Packs either value.
    pub fn new(either: Either<L, R>) -> (packed: Self)
        requires
            Self::fits(),
            either.wf(),
        ensures
            packed.wf(),
            packed@ == either,
            packed.spec_word() == Self::word_of(either),
    {
        match either {
            Either::Left(left) => Self::from_left(left),
            Either::Right(right) => Self::from_right(right),
        }
    }

    /// Packs a value of the first type.
    pub fn from_left(left: L) -> (packed: Self)
        requires
            Self::fits(),
            left.wf(),
        ensures
            packed.wf(),
            packed@ == Either::<L, R>::Left(left),
            packed.spec_word() == Self::word_of(Either::<L, R>::Left(left)),
            !packed.spec_tag(),
            packed.spec_union().holds_left(left),
    {
        let union = TinyUnion::<L, R>::from_left(left);
        let packed = TinyEither { value: PtrPack::new((union, false)) };
        proof {
            Self::lemma_word_of(Either::Left(left));
        }
        packed
    }

    /// Packs a value of the second type.
    pub fn from_right(right: R) -> (packed: Self)
        requires
            Self::fits(),
            right.wf(),
        ensures
            packed.wf(),
            packed@ == Either::<L, R>::Right(right),
            packed.spec_word() == Self::word_of(Either::<L, R>::Right(right)),
            packed.spec_tag(),
            packed.spec_union().holds_right(right),
    {
        let union = TinyUnion::<L, R>::from_right(right);
        let packed = TinyEither { value: PtrPack::new((union, true)) };
        proof {
            Self::lemma_word_of(Either::Right(right));
        }
        packed
    }

    /// Whether the value is of the first type. Only the tag is read.
    pub fn is_left(&self) -> (left: bool)
        requires
            self.wf(),
        ensures
            left == !self.spec_tag(),
            left == (self@ is Left),
    {
        !self.is_right()
    }

    /// Whether the value is of the second type. Only the tag is read.
    pub fn is_right(&self) -> (right: bool)
        requires
            self.wf(),
        ensures
            right == self.spec_tag(),
            right == (self@ is Right),
    {
        self.value.get_1()
    }

    /// The union without the tag.
    pub fn as_union(self) -> (union: TinyUnion<L, R>)
        requires
            self.wf(),
        ensures
            union == self.spec_union(),
            self@ matches Either::Left(left) ==> union.holds_left(left),
            self@ matches Either::Right(right) ==> union.holds_right(right),
    {
        self.value.get_0()
    }

    /// The value, which is known to be of the first type.
    pub fn as_left_unchecked(self) -> (left: L)
        requires
            self.wf(),
            self@ is Left,
        ensures
            self@ == Either::<L, R>::Left(left),
    {
        self.as_union().as_left()
    }

    /// The value, which is known to be of the second type.
    pub fn as_right_unchecked(self) -> (right: R)
        requires
            self.wf(),
            self@ is Right,
        ensures
            self@ == Either::<L, R>::Right(right),
    {
        self.as_union().as_right()
    }

    /// The value if it is of the first type.
    pub fn as_left(self) -> (left: Option<L>)
        requires
            self.wf(),
        ensures
            match self@ {
                Either::Left(value) => left == Some(value),
                Either::Right(_) => left.is_none(),
            },
    {
        if self.is_left() {
            Some(self.as_left_unchecked())
        } else {
            None
        }
    }

    /// The value if it is of the second type.
    pub fn as_right(self) -> (right: Option<R>)
        requires
            self.wf(),
        ensures
            match self@ {
                Either::Left(_) => right.is_none(),
                Either::Right(value) => right == Some(value),
            },
    {
        if self.is_right() {
            Some(self.as_right_unchecked())
        } else {
            None
        }
    }

    /// The value, of whichever type it is. Every well-formed word decodes.
    pub fn as_either(self) -> (either: Either<L, R>)
        requires
            self.wf(),
        ensures
            either == self@,
    {
        if self.is_left() {
            Either::Left(self.as_left_unchecked())
        } else {
            Either::Right(self.as_right_unchecked())
        }
    }

    /// The packed word.
    pub fn to_word(self) -> (bits: usize)
        ensures
            bits == self.spec_word(),
    {
        self.value.to_bits()
    }

    /// The packed value whose word is `bits`.
    pub fn from_word(bits: usize) -> (packed: Self)
        requires
            Self::fits(),
            exists|some: Self| some.wf() && #[trigger] some.spec_word() == bits,
        ensures
            packed.wf(),
            packed.spec_word() == bits,
    {
        proof {
            let some = choose|some: Self| some.wf() && #[trigger] some.spec_word() == bits;
            assert(some.value@.held_by(bits));
        }
        let packed = TinyEither { value: PtrPack::from_bits(bits) };
        proof {
            let some = choose|some: Self| some.wf() && #[trigger] some.spec_word() == bits;
            PtrPack::lemma_same_bits(packed.value, some.value);
        }
        packed
    }

    /// The word of a value holds the union and the tag of that value, and
    /// has zeros below the tag.
    pub proof fn lemma_word_of(either: Either<L, R>)
        requires
            Self::fits(),
            either.wf(),
        ensures
            Self::word_of(either) == (Self::union_of(either), either is Right).spec_to_tuple_bits(),
            (Self::union_of(either), either is Right).wf(),
            (Self::union_of(either), either is Right).held_by(Self::word_of(either)),
            field_value(Self::word_of(either), 0, Self::spec_tag_bit()) == 0,
            either matches Either::Left(left) ==> Self::union_of(either).holds_left(left),
            either matches Either::Right(right) ==> Self::union_of(either).holds_right(right),
    {
        let union = Self::union_of(either);
        let tag = either is Right;
        match either {
            Either::Left(left) => {
                assert(union.holds_left(left));
            },
            Either::Right(right) => {
                assert(union.holds_right(right));
            },
        }
        <(TinyUnion<L, R>, bool) as PackableTuple>::lemma_tuple_bits((union, tag));
        let width = <TinyUnion<L, R> as Packable>::spec_bits();
        let low = (PTR_WIDTH - width) as nat;
        <(TinyUnion<L, R>, bool) as PackableTuple>::lemma_layout();
        <TinyUnion<L, R> as Packable>::lemma_bits();
        <TinyUnion<L, R> as Packable>::lemma_pattern(union);
        lemma_payload_of_bits(union.spec_word(), width, Side::High);
        lemma_field_of_zero(low, width);
        vstd::arithmetic::power2::lemma2_to64();
        lemma_field_in_low_zeros(union.spec_word(), low, Self::spec_tag_bit(), 1);
        vstd::arithmetic::mul::lemma_mul_basics(pow2(Self::spec_tag_bit()) as int);
        vstd::arithmetic::mul::lemma_mul_basics(pow2(low) as int);
    }

    /// Packing and then reading gives the value back: a well-formed packed
    /// value with the word of `either` has the value `either`.
    pub proof fn lemma_new_as_either(self, either: Either<L, R>)
        requires
            Self::fits(),
            either.wf(),
            self.wf(),
            self.spec_word() == Self::word_of(either),
        ensures
            self@ == either,
    {
        let union = Self::union_of(either);
        Self::lemma_word_of(either);
        <(TinyUnion<L, R>, bool) as PackableTuple>::lemma_held_unique(
            self.value@,
            (union, either is Right),
            self.spec_word(),
        );
        match either {
            Either::Left(left) => {
                TinyUnion::lemma_left_unique(union, left, union.spec_left());
            },
            Either::Right(right) => {
                TinyUnion::lemma_right_unique(union, right, union.spec_right());
            },
        }
    }

    /// The value of a well-formed packed value is a value of its type.
    pub proof fn lemma_view_wf(self)
        requires
            Self::fits(),
            self.wf(),
        ensures
            self@.wf(),
    {
    }

    /// Every value has a well-formed packed value with its word.
    pub proof fn lemma_packed_exists(either: Either<L, R>)
        requires
            Self::fits(),
            either.wf(),
        ensures
            exists|some: Self| some.wf() && #[trigger] some.spec_word() == Self::word_of(either),
    {
        Self::lemma_word_of(either);
        let tuple = (Self::union_of(either), either is Right);
        let pack = PtrPack::<(TinyUnion<L, R>, bool)>::spec_from_bits(Self::word_of(either));
        PtrPack::<(TinyUnion<L, R>, bool)>::lemma_spec_from_bits(Self::word_of(either));
        let some = TinyEither { value: pack };
        assert(tuple.held_by(pack.spec_word()));
        <(TinyUnion<L, R>, bool) as PackableTuple>::lemma_held_unique(
            pack@,
            tuple,
            pack.spec_word(),
        );
        assert(some.wf());
        assert(some.spec_word() == Self::word_of(either));
    }

    /// Two values with the same word are the same value.
    pub proof fn lemma_word_of_injective(a: Either<L, R>, b: Either<L, R>)
        requires
            Self::fits(),
            a.wf(),
            b.wf(),
            Self::word_of(a) == Self::word_of(b),
        ensures
            a == b,
    {
        Self::lemma_word_of(a);
        Self::lemma_word_of(b);
        <(TinyUnion<L, R>, bool) as PackableTuple>::lemma_held_unique(
            (Self::union_of(a), a is Right),
            (Self::union_of(b), b is Right),
            Self::word_of(a),
        );
        let union = Self::union_of(a);
        match (a, b) {
            (Either::Left(x), Either::Left(y)) => {
                TinyUnion::lemma_left_unique(union, x, y);
            },
            (Either::Right(x), Either::Right(y)) => {
                TinyUnion::lemma_right_unique(union, x, y);
            },
            _ => {},
        }
    }
}

/// A tagged union is a packable value: pointer-like, and one bit wider than
/// its union.
impl<L: Packable, R: Packable> Packable for TinyEither<L, R> {
    type BitAlign = HighBits;

    type Storage = NullableStorage;

    open spec fn fits() -> bool {
        TinyEither::<L, R>::fits()
    }

    open spec fn spec_bits() -> nat {
        (PTR_WIDTH - <(TinyUnion<L, R>, bool) as PackableTuple>::spec_last_low_bit()) as nat
    }

    open spec fn wf(self) -> bool {
        TinyEither::wf(self)
    }

    open spec fn spec_to_bits(self) -> usize {
        self.spec_word()
    }

    fn has_layout() -> (has: bool) {
        <(TinyUnion<L, R>, bool) as PackableTuple>::has_layout()
    }

    fn bits() -> (n: u32) {
        <PtrPack<(TinyUnion<L, R>, bool)> as Packable>::bits()
    }

    fn from_bits(bits: usize) -> (value: Self) {
        TinyEither::from_word(bits)
    }

    fn to_bits(self) -> (bits: usize) {
        self.to_word()
    }

    proof fn lemma_bits() {
        <PtrPack<(TinyUnion<L, R>, bool)> as Packable>::lemma_bits();
    }

    proof fn lemma_pattern(value: Self) {
        <PtrPack<(TinyUnion<L, R>, bool)> as Packable>::lemma_pattern(value.value);
    }

    proof fn lemma_injective(a: Self, b: Self) {
        PtrPack::lemma_same_bits(a.value, b.value);
    }
}

/// Either of two packable values is a packable value: it is packed as a
/// [`TinyEither`].
impl<L: Packable, R: Packable> Packable for Either<L, R> {
    type BitAlign = HighBits;

    type Storage = NullableStorage;

    open spec fn fits() -> bool {
        TinyEither::<L, R>::fits()
    }

    open spec fn spec_bits() -> nat {
        (PTR_WIDTH - <(TinyUnion<L, R>, bool) as PackableTuple>::spec_last_low_bit()) as nat
    }

    open spec fn wf(self) -> bool {
        match self {
            Either::Left(left) => left.wf(),
            Either::Right(right) => right.wf(),
        }
    }

    open spec fn spec_to_bits(self) -> usize {
        TinyEither::<L, R>::word_of(self)
    }

    fn has_layout() -> (has: bool) {
        <(TinyUnion<L, R>, bool) as PackableTuple>::has_layout()
    }

    fn bits() -> (n: u32) {
        <PtrPack<(TinyUnion<L, R>, bool)> as Packable>::bits()
    }

    fn from_bits(bits: usize) -> (value: Self) {
        proof {
            let some = choose|some: Self|
                (match some {
                    Either::Left(left) => left.wf(),
                    Either::Right(right) => right.wf(),
                }) && #[trigger] TinyEither::<L, R>::word_of(some) == bits;
            assert(Either::wf(some));
            TinyEither::<L, R>::lemma_packed_exists(some);
        }
        let packed = TinyEither::<L, R>::from_word(bits);
        let value = packed.as_either();
        proof {
            let some = choose|some: Self|
                (match some {
                    Either::Left(left) => left.wf(),
                    Either::Right(right) => right.wf(),
                }) && #[trigger] TinyEither::<L, R>::word_of(some) == bits;
            packed.lemma_new_as_either(some);
            packed.lemma_view_wf();
        }
        value
    }

    fn to_bits(self) -> (bits: usize) {
        TinyEither::new(self).to_word()
    }

    proof fn lemma_bits() {
        <PtrPack<(TinyUnion<L, R>, bool)> as Packable>::lemma_bits();
    }

    proof fn lemma_pattern(value: Self) {
        TinyEither::<L, R>::lemma_word_of(value);
        <(TinyUnion<L, R>, bool) as PackableTuple>::lemma_layout();
        vstd::arithmetic::power2::lemma2_to64();
    }

    proof fn lemma_injective(a: Self, b: Self) {
        TinyEither::<L, R>::lemma_word_of_injective(a, b);
    }
}

} // verus!
