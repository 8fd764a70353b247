//! Cursors as types: where in a word the next field starts.

use vstd::prelude::*;
use core::marker::PhantomData;
use crate::word::PTR_WIDTH;
use crate::word::spec_min;
use crate::word::const_min;
use crate::sealed::Sealed;
use crate::packable::Packable;

verus! {

/// A place in a word at which a field can start. The cursor counts the bits
/// from the least significant one: at the word width nothing has been
/// given away yet, at zero nothing is left.
pub trait BitStart: Sealed {
    /// Whether the cursor can be reached: everything laid out before it
    /// fits the word.
    spec fn fits() -> bool;

    /// The cursor.
    spec fn spec_start() -> nat;

    /// Whether the cursor can be reached.
    fn has_layout() -> (has: bool)
        ensures
            has == Self::fits(),
    ;

    /// The cursor.
    fn start() -> (cursor: u32)
        requires
            Self::fits(),
        ensures
            cursor == Self::spec_start(),
            cursor <= PTR_WIDTH,
    ;

    /// A cursor that can be reached lies inside the word.
    proof fn lemma_start()
        requires
            Self::fits(),
        ensures
            Self::spec_start() <= PTR_WIDTH,
    ;
}

/// The cursor before anything has been laid out: the word width.
pub struct DefaultStart;

/// The cursor `S` moved past a value of type `P`.
pub struct NextStart<S, P>(PhantomData<(S, P)>);

/// The further advanced of the cursors `A` and `B`: the one that leaves
/// fewer bits.
pub struct UnionStart<A, B>(PhantomData<(A, B)>);

impl Sealed for DefaultStart {
}

impl<S, P> Sealed for NextStart<S, P> {
}

impl<A, B> Sealed for UnionStart<A, B> {
}

impl BitStart for DefaultStart {
    open spec fn fits() -> bool {
        true
    }

    open spec fn spec_start() -> nat {
        PTR_WIDTH as nat
    }

    fn has_layout() -> (has: bool) {
        true
    }

    fn start() -> (cursor: u32) {
        PTR_WIDTH
    }

    proof fn lemma_start() {
    }
}

impl<S: BitStart, P: Packable> BitStart for NextStart<S, P> {
    open spec fn fits() -> bool {
        &&& S::fits()
        &&& P::fits()
        &&& P::spec_bits() <= S::spec_start()
    }

    open spec fn spec_start() -> nat {
        (S::spec_start() - P::spec_bits()) as nat
    }

    fn has_layout() -> (has: bool) {
        S::has_layout() && P::has_layout() && P::bits() <= S::start()
    }

    fn start() -> (cursor: u32) {
        S::start() - P::bits()
    }

    proof fn lemma_start() {
        S::lemma_start();
    }
}

impl<A: BitStart, B: BitStart> BitStart for UnionStart<A, B> {
    open spec fn fits() -> bool {
        A::fits() && B::fits()
    }

    open spec fn spec_start() -> nat {
        spec_min(A::spec_start() as int, B::spec_start() as int) as nat
    }

    fn has_layout() -> (has: bool) {
        A::has_layout() && B::has_layout()
    }

    fn start() -> (cursor: u32) {
        const_min(A::start(), B::start())
    }

    proof fn lemma_start() {
        A::lemma_start();
        B::lemma_start();
    }
}

} // verus!
