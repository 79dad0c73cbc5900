//! Generational entity identity.
//!
//! An [`Entity`] is a lightweight handle made of a slot `index` and a
//! `generation` counter. Allocation, removal, and slot reuse are handled by
//! [`entity_allocator::EntityAllocator`].
use vstd::prelude::*;

pub mod entity_allocator;

pub use entity_allocator::EntityAllocator;

verus! {

/// A generational handle to an entity, made of a slot `index` and a
/// `generation` counter.
///
/// Two entities are equal only when both their `index` and `generation`
/// match, so a handle captured before its slot was reused compares unequal to
/// the handle of the slot's new occupant.
#[derive(Clone, Copy, Debug, PartialEq, Eq, Structural)]
pub struct Entity {
    index: u32,
    generation: u32,
}

impl Entity {
    /// The slot index of the handle.
    pub closed spec fn spec_index(&self) -> u32 {
        self.index
    }

    /// The generation of the handle.
    pub closed spec fn spec_generation(&self) -> u32 {
        self.generation
    }

    /// Creates a handle for the given `index` and `generation`.
    ///
    /// This does not allocate a slot; handles meant for an
    /// [`EntityAllocator`] come from its `create` method.
    pub fn new(index: u32, generation: u32) -> (entity: Self)
        ensures
            entity.index() == index,
            entity.generation() == generation,
    {
        Self { index, generation }
    }

    /// Returns the slot index this entity occupies.
    #[verifier::when_used_as_spec(spec_index)]
    pub fn index(&self) -> (index: u32)
        ensures
            index == self.index(),
    {
        self.index
    }

    /// Returns the generation of this entity's slot at the time the handle
    /// was created.
    #[verifier::when_used_as_spec(spec_generation)]
    pub fn generation(&self) -> (generation: u32)
        ensures
            generation == self.generation(),
    {
        self.generation
    }
}

/// Two handles are equal exactly when both their indices and their
/// generations are equal.
pub proof fn law_entity_identity(a: Entity, b: Entity)
    ensures
        (a == b) <==> (a.index() == b.index() && a.generation() == b.generation()),
{
}

} // verus!
