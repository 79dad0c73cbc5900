//! Component storage: the [`Component`] marker trait, type identity and
//! type-erased values ([`erased`]), the [`blobvec::BlobVec`] column that holds
//! components of a single type, and the tuples of components that fill an
//! archetype row ([`component_set`]).
use vstd::prelude::*;

pub mod blobvec;
pub mod component_set;
pub mod erased;
mod sealed;

verus! {

/// Marker trait for types that can be stored in a [`blobvec::BlobVec`].
pub trait Component {

}

/// A component value was offered to storage that holds another component
/// type.
#[derive(Clone, Copy, Debug, PartialEq, Eq)]
pub struct ComponentTypeMismatch;

} // verus!
