//! Packs values of several types into one machine word.
//!
//! A value that leaves spare bits in a word, such as a `bool` or an aligned
//! address, is [`Packable`]. The layout gives each field of a struct the
//! bits below the field before it, starting at the most significant end of
//! the word, and gives the variants of an enum the same bits with a
//! discriminant below them. Fields are read and written by mask and shift.

mod sealed;
pub mod word;
pub mod range;
pub mod layout;
pub mod detail;
pub mod packable;
pub mod tuples;
pub mod ptrpack;
pub mod aligned;
pub mod either;
pub mod bitstart;
pub mod packed;
pub mod impls;

pub use crate::aligned::Aligned;
pub use crate::bitstart::BitStart;
pub use crate::bitstart::DefaultStart;
pub use crate::bitstart::NextStart;
pub use crate::bitstart::UnionStart;
pub use crate::either::Either;
pub use crate::either::TinyEither;
pub use crate::either::TinyUnion;
pub use crate::impls::PackedBox;
pub use crate::impls::PackedCopy;
pub use crate::packable::Packable;
pub use crate::packed::Pack;
pub use crate::packed::RawPackedBits;
pub use crate::packed::SubPack;
pub use crate::ptrpack::PtrPack;
pub use crate::tuples::PackableTuple;
pub use crate::word::PTR_WIDTH;
