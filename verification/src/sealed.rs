//! The seal of the layout traits.

use vstd::prelude::*;

verus! {

/// Closes a trait: the module of this trait is private, so only the types
/// of this crate implement the traits that build on it.
pub trait Sealed {
}

} // verus!
