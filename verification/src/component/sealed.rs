//! Restricts [`ComponentSet`](super::component_set::ComponentSet) to the
//! component tuples this crate implements it for.
use vstd::prelude::*;

use super::Component;

verus! {

/// Implemented only by the tuples of components that form a component set.
pub trait Sealed {

}

impl Sealed for () {

}

impl<A: Component + 'static> Sealed for (A,) {

}

impl<A: Component + 'static, B: Component + 'static> Sealed for (A, B) {

}

impl<A: Component + 'static, B: Component + 'static, C: Component + 'static> Sealed for (A, B, C) {

}

impl<A: Component + 'static, B: Component + 'static, C: Component + 'static, D: Component + 'static> Sealed for (A, B, C, D) {

}

impl<A: Component + 'static, B: Component + 'static, C: Component + 'static, D: Component + 'static, E: Component + 'static> Sealed for (A, B, C, D, E) {

}

impl<A: Component + 'static, B: Component + 'static, C: Component + 'static, D: Component + 'static, E: Component + 'static, F: Component + 'static> Sealed for (A, B, C, D, E, F) {

}

} // verus!
