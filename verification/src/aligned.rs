//! An address that is not null and is aligned for a type: the zeros that the
//! alignment leaves at its low end are free for other fields.

use vstd::prelude::*;
use vstd::arithmetic::power2::pow2;
use vstd::arithmetic::power2::is_pow2;
use vstd::arithmetic::power2::lemma_pow2_unfold;
use vstd::arithmetic::power2::lemma_pow2_pos;
use vstd::arithmetic::power2::lemma_pow2_strictly_increases;
use vstd::arithmetic::power2::lemma2_to64;
use vstd::layout::align_of;
use core::marker::PhantomData;
use crate::word::PTR_WIDTH;
use crate::word::field_value;
use crate::word::lemma_max_word;
use crate::detail::HighBits;
use crate::detail::NonNullStorage;
use crate::packable::Packable;

verus! {

broadcast use {vstd::layout::align_properties, vstd::layout::align_nonzero};

/// The address of a value of type `T`: not null, and a multiple of the
/// alignment of `T`.
#[derive(PartialEq, Eq, PartialOrd, Ord, Hash, Debug)]
pub struct Aligned<T> {
    addr: usize,
    _marker: PhantomData<T>,
}

impl<T> Copy for Aligned<T> {
}

impl<T> Clone for Aligned<T> {
    fn clone(&self) -> (copy: Self)
        ensures
            copy == *self,
    {
        *self
    }
}

/// Whether `free` is the number of low bits that the alignment `align`
/// leaves zero: `align` is two to the `free`.
pub open spec fn is_free_bits(align: nat, free: nat) -> bool {
    align == pow2(free)
}

/// The number of low bits that are zero in every multiple of `align`, a
/// power of two.
pub open spec fn spec_free_bits(align: nat) -> nat {
    choose|free: nat| is_free_bits(align, free)
}

/// The number of low bits that are zero in every multiple of `align`, a
/// power of two that fits a word.
pub fn free_bits_of(align: usize) -> (free: u32)
    requires
        is_pow2(align as int),
    ensures
        is_free_bits(align as nat, free as nat),
        free == spec_free_bits(align as nat),
        free < PTR_WIDTH,
{
    let mut free: u32 = 0;
    let mut rest: usize = align;
    proof {
        lemma2_to64();
    }
    while rest > 1
        invariant
            is_pow2(rest as int),
            rest * pow2(free as nat) == align,
            free < PTR_WIDTH,
        decreases rest,
    {
        proof {
            lemma_pow2_unfold((free + 1) as nat);
            lemma_pow2_pos(free as nat);
            lemma_max_word();
            reveal(is_pow2);
            assert(rest as int % 2 == 0 && is_pow2(rest as int / 2));
            assert((rest / 2) * (2 * pow2(free as nat)) == rest * pow2(free as nat))
                by (nonlinear_arith)
                requires
                    rest as int % 2 == 0,
            ;
            if free + 1 >= PTR_WIDTH {
                if free + 1 > PTR_WIDTH {
                    lemma_pow2_strictly_increases(PTR_WIDTH as nat, (free + 1) as nat);
                }
                assert((rest / 2) * pow2((free + 1) as nat) >= pow2((free + 1) as nat))
                    by (nonlinear_arith)
                    requires
                        rest / 2 >= 1,
                ;
            }
        }
        rest = rest / 2;
        free = free + 1;
    }
    proof {
        reveal(is_pow2);
        assert(rest == 1);
        assert(1 * pow2(free as nat) == pow2(free as nat)) by (nonlinear_arith);
        lemma_free_bits_unique(align as nat, free as nat, spec_free_bits(align as nat));
    }
    free
}

/// A power of two is two to one exponent only.
pub proof fn lemma_free_bits_unique(align: nat, a: nat, b: nat)
    requires
        is_free_bits(align, a),
        is_free_bits(align, b),
    ensures
        a == b,
{
    if a < b {
        lemma_pow2_strictly_increases(a, b);
    } else if b < a {
        lemma_pow2_strictly_increases(b, a);
    }
}

impl<T> Aligned<T> {
    /// The address.
    pub closed spec fn spec_addr(self) -> usize {
        self.addr
    }

    /// Whether `addr` is the address of a value of `T`: not null, and a
    /// multiple of the alignment of `T`.
    pub open spec fn is_aligned(addr: usize) -> bool {
        addr != 0 && addr as nat % align_of::<T>() == 0
    }

    /// The address is not null and is a multiple of the alignment of `T`.
    pub open spec fn wf(self) -> bool {
        Self::is_aligned(self.spec_addr())
    }

    /// Number of low bits of an address that the alignment of `T` leaves
    /// zero.
    pub fn free_bits() -> (free: u32)
        ensures
            is_free_bits(align_of::<T>(), free as nat),
            free == spec_free_bits(align_of::<T>()),
            free < PTR_WIDTH,
    {
        free_bits_of(core::mem::align_of::<T>())
    }

    /// The aligned address `addr`, or nothing where `addr` is null or not a
    /// multiple of the alignment of `T`.
    pub fn new(addr: usize) -> (made: Option<Self>)
        ensures
            Self::is_aligned(addr) ==> (made matches Some(aligned) && aligned.spec_addr() == addr
                && aligned.wf()),
            !Self::is_aligned(addr) ==> made.is_none(),
    {
        let align = core::mem::align_of::<T>();
        if addr == 0 || addr % align != 0 {
            None
        } else {
            Some(Aligned { addr, _marker: PhantomData })
        }
    }

    /// The aligned address `addr`, which is known to be one.
    pub fn new_unchecked(addr: usize) -> (aligned: Self)
        requires
            Self::is_aligned(addr),
        ensures
            aligned.spec_addr() == addr,
            aligned.wf(),
    {
        Aligned { addr, _marker: PhantomData }
    }

    /// An aligned address at which no value lies: the alignment of `T`
    /// itself.
    pub fn dangling() -> (aligned: Self)
        ensures
            aligned.spec_addr() == align_of::<T>(),
            aligned.wf(),
    {
        Aligned { addr: core::mem::align_of::<T>(), _marker: PhantomData }
    }

    /// The address.
    pub fn as_ptr(self) -> (addr: usize)
        ensures
            addr == self.spec_addr(),
    {
        self.addr
    }

    /// The pattern of an aligned address has zeros in the low bits that the
    /// alignment leaves free: with an alignment of two to the `k`, the `k`
    /// lowest bits are zero.
    pub proof fn lemma_low_bits_zero(self)
        requires
            self.wf(),
        ensures
            is_free_bits(align_of::<T>(), spec_free_bits(align_of::<T>())),
            field_value(self.spec_to_bits(), 0, spec_free_bits(align_of::<T>())) == 0,
    {
        Self::lemma_align_is_pow2();
        lemma2_to64();
    }

    /// The alignment of `T` is two to the number of its free bits.
    pub proof fn lemma_align_is_pow2()
        ensures
            is_free_bits(align_of::<T>(), spec_free_bits(align_of::<T>())),
    {
        vstd::arithmetic::power2::is_pow2_equiv(align_of::<T>() as int);
        let i = choose|i: nat| vstd::arithmetic::power::pow(2, i) == align_of::<T>() as int;
        vstd::arithmetic::power2::lemma_pow2(i);
        assert(is_free_bits(align_of::<T>(), i));
    }
}

/// An aligned address is a packable value: pointer-like, never zero, and as
/// wide as a word less the bits that the alignment leaves free.
impl<T> Packable for Aligned<T> {
    type BitAlign = HighBits;

    type Storage = NonNullStorage;

    open spec fn fits() -> bool {
        spec_free_bits(align_of::<T>()) < PTR_WIDTH
    }

    open spec fn spec_bits() -> nat {
        (PTR_WIDTH - spec_free_bits(align_of::<T>())) as nat
    }

    open spec fn wf(self) -> bool {
        Aligned::wf(self)
    }

    open spec fn spec_to_bits(self) -> usize {
        self.spec_addr()
    }

    fn has_layout() -> (has: bool) {
        Self::free_bits() < PTR_WIDTH
    }

    fn bits() -> (n: u32) {
        PTR_WIDTH - Self::free_bits()
    }

    fn from_bits(bits: usize) -> (value: Self) {
        proof {
            let some = choose|some: Self| Aligned::wf(some) && #[trigger] some.spec_addr() == bits;
            assert(Self::is_aligned(bits));
        }
        Aligned::new_unchecked(bits)
    }

    fn to_bits(self) -> (bits: usize) {
        self.as_ptr()
    }

    proof fn lemma_bits() {
        Self::lemma_align_is_pow2();
    }

    proof fn lemma_pattern(value: Self) {
        Self::lemma_align_is_pow2();
    }

    proof fn lemma_injective(a: Self, b: Self) {
    }
}

} // verus!
