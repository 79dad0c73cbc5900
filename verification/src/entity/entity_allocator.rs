//! Ownership and lifecycle management of entity slots.
use vstd::prelude::*;

use super::law_entity_identity;
use super::Entity;

verus! {

/// The allocator's bookkeeping for a single entity slot.
#[derive(Clone, Copy)]
struct EntitySlot {
    /// Incremented each time this slot is reused by [`EntityAllocator::create`].
    generation: u32,
    /// Whether the slot currently refers to a live entity.
    is_alive: bool,
}

/// The abstract state of one allocator slot.
pub struct SlotState {
    pub generation: u32,
    pub alive: bool,
}

/// The abstract state of an [`EntityAllocator`]: one entry per slot ever
/// allocated, indexed by [`Entity::index`], and the indices of the removed
/// slots that are available for reuse, most recently freed last.
pub struct AllocatorView {
    pub slots: Seq<SlotState>,
    pub free: Seq<u32>,
}

impl AllocatorView {
    /// The allocator's invariant: slot indices fit in a `u32`, and the free
    /// list holds each dead slot exactly once and nothing else.
    pub open spec fn well_formed(self) -> bool {
        &&& self.slots.len() <= u32::MAX + 1
        &&& self.free.no_duplicates()
        &&& forall|k: int|
            0 <= k < self.free.len() ==> {
                &&& (#[trigger] self.free[k]) < self.slots.len()
                &&& !self.slots[self.free[k] as int].alive
            }
        &&& forall|i: int|
            0 <= i < self.slots.len() && !(#[trigger] self.slots[i]).alive ==> self.free.contains(
                i as u32,
            )
    }

    /// `entity` currently refers to a live entity: its slot exists, is alive,
    /// and has not been reused since the handle was issued.
    pub open spec fn is_live(self, entity: Entity) -> bool {
        &&& entity.index() < self.slots.len()
        &&& self.slots[entity.index() as int].alive
        &&& self.slots[entity.index() as int].generation == entity.generation()
    }

    /// `entity` is a handle this allocator may have issued: its slot exists
    /// and its generation is one the slot has already reached.
    pub open spec fn has_issued(self, entity: Entity) -> bool {
        &&& entity.index() < self.slots.len()
        &&& entity.generation() <= self.slots[entity.index() as int].generation
    }

    /// `create` can run without overflowing a counter: the slot it would reuse
    /// has a generation left, or a new slot index still fits in a `u32`.
    pub open spec fn can_create(self) -> bool {
        if self.free.len() > 0 {
            self.slots[self.free.last() as int].generation < u32::MAX
        } else {
            self.slots.len() <= u32::MAX
        }
    }

    /// The index of the handle that `create` returns.
    pub open spec fn created_index(self) -> u32 {
        if self.free.len() > 0 {
            self.free.last()
        } else {
            self.slots.len() as u32
        }
    }

    /// The generation of the handle that `create` returns.
    pub open spec fn created_generation(self) -> u32 {
        if self.free.len() > 0 {
            (self.slots[self.free.last() as int].generation + 1) as u32
        } else {
            0
        }
    }

    /// The state after `create`: the most recently freed slot is reused with
    /// its generation incremented, or else a new slot is appended at
    /// generation `0`.
    pub open spec fn after_create(self) -> AllocatorView {
        if self.free.len() > 0 {
            AllocatorView {
                slots: self.slots.update(
                    self.free.last() as int,
                    SlotState { generation: self.created_generation(), alive: true },
                ),
                free: self.free.drop_last(),
            }
        } else {
            AllocatorView {
                slots: self.slots.push(SlotState { generation: 0, alive: true }),
                free: self.free,
            }
        }
    }

    /// The state after a successful `remove(entity)`: the slot is dead and is
    /// the most recently freed one.
    pub open spec fn after_remove(self, entity: Entity) -> AllocatorView {
        AllocatorView {
            slots: self.slots.update(
                entity.index() as int,
                SlotState { generation: self.slots[entity.index() as int].generation, alive: false },
            ),
            free: self.free.push(entity.index()),
        }
    }
}

/// Owns entity slots and creates and removes generational [`Entity`]
/// handles.
pub struct EntityAllocator {
    /// One entry per slot ever allocated; indexed by [`Entity::index`].
    slots: Vec<EntitySlot>,
    /// Indices of removed slots available for reuse, most recently freed
    /// last, so that `pop` returns the most recently freed slot first.
    free: Vec<u32>,
}

impl View for EntityAllocator {
    type V = AllocatorView;

    closed spec fn view(&self) -> AllocatorView {
        AllocatorView {
            slots: self.slots@.map_values(
                |s: EntitySlot| SlotState { generation: s.generation, alive: s.is_alive },
            ),
            free: self.free@,
        }
    }
}

impl Default for EntityAllocator {
    fn default() -> (allocator: Self)
        ensures
            allocator@.slots.len() == 0,
            allocator@.free.len() == 0,
            allocator@.well_formed(),
    {
        Self::new()
    }
}

impl EntityAllocator {
    /// Creates an empty allocator with no slots.
    pub fn new() -> (allocator: Self)
        ensures
            allocator@.slots.len() == 0,
            allocator@.free.len() == 0,
            allocator@.well_formed(),
    {
        let allocator = Self { slots: Vec::new(), free: Vec::new() };
        assert(allocator@.slots =~= Seq::empty());
        allocator
    }

    /// Creates and returns a new, live entity.
    ///
    /// If a previously removed slot is available, the most recently removed
    /// one is reused with its generation incremented, so the returned handle
    /// differs from any handle previously issued for that slot. Otherwise a
    /// new slot is appended at generation `0`.
    pub fn create(&mut self) -> (entity: Entity)
        requires
            old(self)@.well_formed(),
            old(self)@.can_create(),
        ensures
            final(self)@ == old(self)@.after_create(),
            entity.index() == old(self)@.created_index(),
            entity.generation() == old(self)@.created_generation(),
            final(self)@.well_formed(),
            final(self)@.is_live(entity),
            !old(self)@.has_issued(entity),
    {
        proof {
            lemma_create_keeps_well_formed(self@);
        }
        let ghost before = self@;
        if let Some(index) = self.free.pop() {
            let slot = self.slots[index as usize];
            let generation = slot.generation + 1;
            self.slots.set(index as usize, EntitySlot { generation, is_alive: true });
            assert(self@.slots =~= before.after_create().slots);
            return Entity::new(index, generation);
        }
        self.slots.push(EntitySlot { generation: 0, is_alive: true });
        assert(self@.slots =~= before.after_create().slots);
        Entity::new((self.slots.len() - 1) as u32, 0)
    }

    /// Releases `entity`'s slot so a later [`EntityAllocator::create`] may
    /// reuse it.
    ///
    /// Returns an error, without modifying the allocator, when `entity` does
    /// not currently refer to a live entity: an index that was never
    /// allocated, a slot that is already dead, or a stale handle whose
    /// generation no longer matches the slot.
    pub fn remove(&mut self, entity: Entity) -> (result: Result<(), &str>)
        requires
            old(self)@.well_formed(),
        ensures
            result is Ok <==> old(self)@.is_live(entity),
            result is Ok ==> final(self)@ == old(self)@.after_remove(entity),
            result is Err ==> final(self)@ == old(self)@,
            final(self)@.well_formed(),
    {
        let index = entity.index() as usize;
        if index < self.slots.len() {
            let slot = self.slots[index];
            if slot.is_alive && slot.generation == entity.generation() {
                proof {
                    lemma_remove_keeps_well_formed(self@, entity);
                }
                let ghost before = self@;
                self.free.push(entity.index());
                self.slots.set(index, EntitySlot { generation: slot.generation, is_alive: false });
                assert(self@.slots =~= before.after_remove(entity).slots);
                return Ok(());
            }
        }
        Err("Error: Can't remove an entity that does not exist.")
    }

    /// Returns whether `entity` refers to a live entity: its slot is alive
    /// and has not been reused since the handle was issued.
    pub fn is_alive(&self, entity: Entity) -> (alive: bool)
        ensures
            alive == self@.is_live(entity),
    {
        let index = entity.index() as usize;
        if index < self.slots.len() {
            let slot = self.slots[index];
            return slot.is_alive && slot.generation == entity.generation();
        }
        false
    }
}

/// `create` keeps the allocator's invariant.
pub proof fn lemma_create_keeps_well_formed(v: AllocatorView)
    requires
        v.well_formed(),
        v.can_create(),
    ensures
        v.after_create().well_formed(),
{
    let w = v.after_create();
    if v.free.len() > 0 {
        let i = v.free.last();
        assert forall|k: int| 0 <= k < w.free.len() implies {
            &&& (#[trigger] w.free[k]) < w.slots.len()
            &&& !w.slots[w.free[k] as int].alive
        } by {
            assert(w.free[k] == v.free[k]);
            assert(v.free[k] != v.free[v.free.len() - 1]);
        }
        assert forall|j: int| 0 <= j < w.slots.len() && !(#[trigger] w.slots[j]).alive implies w.free.contains(
            j as u32,
        ) by {
            assert(j != i);
            assert(v.free.contains(j as u32));
            let k = choose|k: int| 0 <= k < v.free.len() && v.free[k] == j as u32;
            assert(k != v.free.len() - 1);
            assert(w.free[k] == j as u32);
        }
    } else {
        assert forall|j: int| 0 <= j < w.slots.len() && !(#[trigger] w.slots[j]).alive implies w.free.contains(
            j as u32,
        ) by {
            assert(j < v.slots.len());
            assert(v.slots[j] == w.slots[j]);
        }
    }
}

/// A successful `remove` keeps the allocator's invariant.
pub proof fn lemma_remove_keeps_well_formed(v: AllocatorView, entity: Entity)
    requires
        v.well_formed(),
        v.is_live(entity),
    ensures
        v.after_remove(entity).well_formed(),
{
    let w = v.after_remove(entity);
    let i = entity.index();
    assert(!v.free.contains(i)) by {
        if v.free.contains(i) {
            let k = choose|k: int| 0 <= k < v.free.len() && v.free[k] == i;
            assert(!v.slots[v.free[k] as int].alive);
        }
    }
    assert forall|a: int, b: int| 0 <= a < b < w.free.len() implies w.free[a] != w.free[b] by {
        if b == w.free.len() - 1 {
            assert(w.free[b] == i);
            assert(w.free[a] == v.free[a]);
        }
    }
    assert forall|k: int| 0 <= k < w.free.len() implies {
        &&& (#[trigger] w.free[k]) < w.slots.len()
        &&& !w.slots[w.free[k] as int].alive
    } by {
        if k < v.free.len() {
            assert(w.free[k] == v.free[k]);
        }
    }
    assert forall|j: int| 0 <= j < w.slots.len() && !(#[trigger] w.slots[j]).alive implies w.free.contains(
        j as u32,
    ) by {
        if j == i {
            assert(w.free[w.free.len() - 1] == i);
        } else {
            assert(v.slots[j] == w.slots[j]);
            assert(v.free.contains(j as u32));
            let k = choose|k: int| 0 <= k < v.free.len() && v.free[k] == j as u32;
            assert(w.free[k] == j as u32);
        }
    }
}

/// A handle returned by `create` is live afterwards and was never issued
/// before; every other handle keeps its liveness, and every handle issued
/// before stays issued.
pub proof fn law_create_issues_a_fresh_live_handle(
    v: AllocatorView,
    created: Entity,
    other: Entity,
)
    requires
        v.well_formed(),
        v.can_create(),
        created.index() == v.created_index(),
        created.generation() == v.created_generation(),
        other != created,
    ensures
        v.after_create().is_live(created),
        v.after_create().has_issued(created),
        !v.has_issued(created),
        v.after_create().is_live(other) == v.is_live(other),
        v.has_issued(other) ==> v.after_create().has_issued(other),
{
    law_entity_identity(other, created);
    if v.free.len() > 0 {
        let i = v.free.last();
        assert(v.free[v.free.len() - 1] == i);
        assert(!v.slots[i as int].alive);
    }
}

/// A successful `remove` makes its handle dead and leaves every other handle
/// as live as it was; the handles the allocator has issued stay the same.
pub proof fn law_remove_kills_only_its_handle(v: AllocatorView, removed: Entity, other: Entity)
    requires
        v.well_formed(),
        v.is_live(removed),
        other != removed,
    ensures
        !v.after_remove(removed).is_live(removed),
        v.after_remove(removed).has_issued(removed),
        v.after_remove(removed).is_live(other) == v.is_live(other),
        v.after_remove(removed).has_issued(other) == v.has_issued(other),
{
    law_entity_identity(other, removed);
}

/// At most one handle per slot is live: two live handles with the same index
/// are the same handle.
pub proof fn law_one_live_handle_per_slot(v: AllocatorView, a: Entity, b: Entity)
    requires
        v.is_live(a),
        v.is_live(b),
        a.index() == b.index(),
    ensures
        a == b,
{
    law_entity_identity(a, b);
}

/// A handle that was issued and is no longer live is never live again:
/// neither `create` nor a successful `remove` revives it, and it stays
/// issued.
pub proof fn law_stale_handles_stay_dead(v: AllocatorView, stale: Entity, removed: Entity)
    requires
        v.well_formed(),
        v.has_issued(stale),
        !v.is_live(stale),
    ensures
        v.can_create() ==> !v.after_create().is_live(stale) && v.after_create().has_issued(stale),
        v.is_live(removed) ==> !v.after_remove(removed).is_live(stale) && v.after_remove(
            removed,
        ).has_issued(stale),
{
    if v.free.len() > 0 {
        let i = v.free.last();
        assert(v.free[v.free.len() - 1] == i);
        assert(!v.slots[i as int].alive);
    }
}

/// Every live handle is one the allocator has issued.
pub proof fn law_live_handles_were_issued(v: AllocatorView, entity: Entity)
    requires
        v.is_live(entity),
    ensures
        v.has_issued(entity),
{
}

} // verus!
