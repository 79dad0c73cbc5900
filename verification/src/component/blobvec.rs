//! Contiguous, type-erased storage for components of a single type.
use std::any::TypeId;

use vstd::prelude::*;

use super::erased::{
    downcast_mut, downcast_ref, erase, erased_type, erased_type_id, erases_to, identifies,
    is_type_id_of, lemma_downcast_ref, lemma_erase, lemma_type_id_of, lemma_unerase, lends,
    type_id_equal, type_id_of, type_rank, unerase, unerases_to, ErasedValue,
};
use super::{Component, ComponentTypeMismatch};

verus! {

/// Stores components of one concrete type.
///
/// The capacity follows the growth policy of the storage: zero-sized
/// components never allocate and report a capacity of `usize::MAX`; other
/// components start at zero and double, starting at one element, whenever a
/// push finds the storage full. The elements themselves are type-erased
/// boxes, each of the type the storage was created for.
pub struct BlobVec {
    values: Vec<ErasedValue>,
    capacity: usize,
    elem_size: usize,
    type_id: TypeId,
}

impl BlobVec {
    /// The stored components, in storage order.
    pub closed spec fn values(&self) -> Seq<ErasedValue> {
        self.values@
    }

    /// The number of components the storage holds without growing.
    pub closed spec fn capacity(&self) -> nat {
        self.capacity as nat
    }

    /// The size in bytes of the stored component type.
    pub closed spec fn element_size(&self) -> nat {
        self.elem_size as nat
    }

    /// The component type the storage was created for.
    pub closed spec fn stored_type(&self) -> TypeId {
        self.type_id
    }

    /// The storage's invariant: no more components than capacity, the
    /// capacity policy for zero-sized components, an allocation size that a
    /// `Layout` can describe, and every stored value of the stored type.
    pub closed spec fn wf(&self) -> bool {
        &&& self.values@.len() <= self.capacity
        &&& self.elem_size == 0 ==> self.capacity == usize::MAX
        &&& self.elem_size != 0 ==> self.capacity * self.elem_size <= isize::MAX
        &&& forall|i: int|
            0 <= i < self.values@.len() ==> type_rank(erased_type(#[trigger] self.values@[i]))
                == type_rank(self.type_id)
    }

    /// Every value of a well-formed storage has the stored type.
    pub proof fn lemma_values_have_stored_type(&self, index: int)
        requires
            self.wf(),
            0 <= index < self.values().len(),
        ensures
            type_rank(erased_type(self.values()[index])) == type_rank(self.stored_type()),
    {
    }

    /// The storage holds components of type `T`.
    pub open spec fn holds_type<T: 'static>(&self) -> bool {
        identifies::<T>(self.stored_type())
    }

    /// The capacity after one growth step: one element, then doubling.
    pub open spec fn grown_capacity(&self) -> nat {
        if self.capacity() == 0 {
            1
        } else {
            2 * self.capacity()
        }
    }

    /// A push can proceed without a panic: the storage has room, or it can
    /// grow (its components are not zero-sized, the doubled capacity fits in
    /// a `usize`, and the doubled allocation fits in an `isize`).
    pub open spec fn can_push(&self) -> bool {
        ||| self.values().len() < self.capacity()
        ||| {
            &&& self.element_size() != 0
            &&& self.grown_capacity() <= usize::MAX
            &&& self.grown_capacity() * self.element_size() <= isize::MAX
        }
    }

    /// The capacity after a push.
    pub open spec fn capacity_after_push(&self) -> nat {
        if self.values().len() < self.capacity() {
            self.capacity()
        } else {
            self.grown_capacity()
        }
    }

    /// Creates empty storage for components of type `T`.
    pub fn new<T: Component + 'static>() -> (blob: Self)
        ensures
            blob.wf(),
            blob.values() == Seq::<ErasedValue>::empty(),
            blob.element_size() == vstd::layout::size_of::<T>(),
            is_type_id_of::<T>(blob.stored_type()),
            blob.capacity() == (if vstd::layout::size_of::<T>() == 0 {
                usize::MAX as nat
            } else {
                0
            }),
    {
        let elem_size = std::mem::size_of::<T>();
        let capacity = if elem_size == 0 {
            usize::MAX
        } else {
            0
        };
        let type_id = type_id_of::<T>();
        proof {
            lemma_type_id_of::<T>(type_id);
        }
        let blob = Self { values: Vec::new(), capacity, elem_size, type_id };
        assert(blob.values@ =~= Seq::<ErasedValue>::empty());
        blob
    }

    /// Doubles the capacity, starting at one element.
    fn grow(&mut self)
        requires
            old(self).wf(),
            old(self).element_size() != 0,
            old(self).grown_capacity() <= usize::MAX,
            old(self).grown_capacity() * old(self).element_size() <= isize::MAX,
        ensures
            final(self).wf(),
            final(self).values() == old(self).values(),
            final(self).capacity() == old(self).grown_capacity(),
            final(self).element_size() == old(self).element_size(),
            final(self).stored_type() == old(self).stored_type(),
    {
        let new_capacity = if self.capacity == 0 {
            1
        } else {
            self.capacity * 2
        };
        self.values.reserve(new_capacity - self.values.len());
        self.capacity = new_capacity;
    }

    /// Appends a value of the stored type.
    pub fn push_erased(&mut self, value: ErasedValue)
        requires
            old(self).wf(),
            old(self).can_push(),
            type_rank(erased_type(value)) == type_rank(old(self).stored_type()),
        ensures
            final(self).wf(),
            final(self).values() == old(self).values().push(value),
            final(self).capacity() == old(self).capacity_after_push(),
            final(self).element_size() == old(self).element_size(),
            final(self).stored_type() == old(self).stored_type(),
    {
        if self.values.len() >= self.capacity {
            self.grow();
        }
        self.values.push(value);
    }

    /// Appends `value` when it has the stored type.
    ///
    /// Returns an error, leaving the storage unchanged, when the value's
    /// type differs from the stored component type.
    pub fn try_push_erased(&mut self, value: ErasedValue) -> (result: Result<
        (),
        ComponentTypeMismatch,
    >)
        requires
            old(self).wf(),
            old(self).can_push(),
        ensures
            final(self).wf(),
            final(self).element_size() == old(self).element_size(),
            final(self).stored_type() == old(self).stored_type(),
            result is Ok <==> type_rank(erased_type(value)) == type_rank(old(self).stored_type()),
            result is Ok ==> final(self).values() == old(self).values().push(value)
                && final(self).capacity() == old(self).capacity_after_push(),
            result is Err ==> final(self).values() == old(self).values() && final(self).capacity()
                == old(self).capacity(),
    {
        let id = erased_type_id(&value);
        if !type_id_equal(&id, &self.type_id) {
            return Err(ComponentTypeMismatch);
        }
        self.push_erased(value);
        Ok(())
    }

    /// Appends a component.
    ///
    /// Returns an error, leaving the storage unchanged, when `T` differs
    /// from the stored component type.
    pub fn push<T: Component + 'static>(&mut self, value: T) -> (result: Result<
        (),
        ComponentTypeMismatch,
    >)
        requires
            old(self).wf(),
            old(self).can_push(),
        ensures
            final(self).wf(),
            final(self).element_size() == old(self).element_size(),
            final(self).stored_type() == old(self).stored_type(),
            result is Ok ==> {
                &&& final(self).values().len() == old(self).values().len() + 1
                &&& final(self).values().drop_last() == old(self).values()
                &&& final(self).capacity() == old(self).capacity_after_push()
            },
            result is Err ==> {
                &&& final(self).values() == old(self).values()
                &&& final(self).capacity() == old(self).capacity()
            },
            exists|erased: ErasedValue|
                #[trigger] erases_to(value, erased) && is_type_id_of::<T>(erased_type(erased)) && (
                result is Ok <==> type_rank(erased_type(erased)) == type_rank(
                    old(self).stored_type(),
                )) && (result is Ok ==> final(self).values() == old(self).values().push(erased)),
            result is Ok ==> old(self).holds_type::<T>(),
    {
        let ghost before = self.values();
        let ghost given = value;
        let erased = erase(value);
        proof {
            lemma_erase(given, erased);
        }
        let result = self.try_push_erased(erased);
        assert(result is Ok ==> self.values().drop_last() =~= before);
        result
    }

    /// Removes and returns the last value, or `None` when empty.
    pub fn pop_erased(&mut self) -> (popped: Option<ErasedValue>)
        requires
            old(self).wf(),
        ensures
            final(self).wf(),
            final(self).capacity() == old(self).capacity(),
            final(self).element_size() == old(self).element_size(),
            final(self).stored_type() == old(self).stored_type(),
            old(self).values().len() == 0 ==> popped is None && final(self).values() == old(
                self,
            ).values(),
            old(self).values().len() > 0 ==> popped == Some(old(self).values().last())
                && final(self).values() == old(self).values().drop_last(),
    {
        self.values.pop()
    }

    /// Removes and returns the last component, or `None` when empty.
    ///
    /// Returns `None`, leaving the storage unchanged, when `T` differs from
    /// the stored component type.
    pub fn pop<T: Component + 'static>(&mut self) -> (popped: Option<T>)
        requires
            old(self).wf(),
        ensures
            final(self).wf(),
            final(self).capacity() == old(self).capacity(),
            final(self).element_size() == old(self).element_size(),
            final(self).stored_type() == old(self).stored_type(),
            old(self).values().len() == 0 ==> popped is None,
            popped is Some ==> final(self).values() == old(self).values().drop_last(),
            popped is None ==> final(self).values() == old(self).values(),
            popped is Some <==> old(self).values().len() > 0 && old(self).holds_type::<T>(),
            popped matches Some(value) ==> unerases_to(old(self).values().last(), value),
    {
        match self.pop_erased() {
            None => None,
            Some(erased) => match unerase::<T>(erased) {
                Ok(value) => {
                    proof {
                        lemma_unerase(old(self).values().last(), value);
                    }
                    Some(value)
                },
                Err(back) => {
                    self.values.push(back);
                    assert(self.values() =~= old(self).values());
                    None
                },
            },
        }
    }

    /// Moves the value at `index` out, moving the last value into its place.
    ///
    /// Element order is not preserved.
    pub fn raw_swap_remove(&mut self, index: usize) -> (removed: ErasedValue)
        requires
            old(self).wf(),
            index < old(self).values().len(),
        ensures
            final(self).wf(),
            removed == old(self).values()[index as int],
            final(self).values() == old(self).values().update(
                index as int,
                old(self).values().last(),
            ).drop_last(),
            final(self).capacity() == old(self).capacity(),
            final(self).element_size() == old(self).element_size(),
            final(self).stored_type() == old(self).stored_type(),
    {
        let removed = self.values.swap_remove(index);
        proof {
            let after = self.values@;
            assert forall|i: int| 0 <= i < after.len() implies type_rank(
                erased_type(#[trigger] after[i]),
            ) == type_rank(self.type_id) by {
                if i == index {
                    assert(after[i] == old(self).values@[old(self).values@.len() - 1]);
                } else {
                    assert(after[i] == old(self).values@[i]);
                }
            }
        }
        removed
    }

    /// Removes the component at `index`, replacing it with the last
    /// component.
    ///
    /// Element order is not preserved. Returns `None`, leaving the storage
    /// unchanged, when `T` differs from the stored component type.
    pub fn swap_remove<T: Component + 'static>(&mut self, index: usize) -> (removed: Option<T>)
        requires
            old(self).wf(),
            index < old(self).values().len(),
        ensures
            final(self).wf(),
            final(self).capacity() == old(self).capacity(),
            final(self).element_size() == old(self).element_size(),
            final(self).stored_type() == old(self).stored_type(),
            removed is Some ==> final(self).values() == old(self).values().update(
                index as int,
                old(self).values().last(),
            ).drop_last(),
            removed is None ==> final(self).values() == old(self).values(),
            removed is Some <==> old(self).holds_type::<T>(),
            removed matches Some(value) ==> unerases_to(old(self).values()[index as int], value),
    {
        let erased = self.raw_swap_remove(index);
        match unerase::<T>(erased) {
            Ok(value) => {
                proof {
                    lemma_unerase(old(self).values()[index as int], value);
                }
                Some(value)
            },
            Err(back) => {
                // Put the value back where it was and the last value back last.
                self.values.push(back);
                let last = self.values.swap_remove(index);
                self.values.push(last);
                assert(self.values@ =~= old(self).values@);
                None
            },
        }
    }

    /// Returns the value at `index`, or `None` when out of bounds.
    pub fn get_erased(&self, index: usize) -> (value: Option<&ErasedValue>)
        ensures
            index < self.values().len() ==> value == Some(&self.values()[index as int]),
            index >= self.values().len() ==> value is None,
    {
        if index >= self.values.len() {
            return None;
        }
        Some(&self.values[index])
    }

    /// Returns the component at `index`, or `None` when out of bounds or
    /// when `T` differs from the stored component type.
    pub fn get<T: Component + 'static>(&self, index: usize) -> (value: Option<&T>)
        ensures
            index >= self.values().len() ==> value is None,
            value is Some ==> index < self.values().len(),
            value is Some <==> index < self.values().len() && identifies::<T>(
                erased_type(self.values()[index as int]),
            ),
            index < self.values().len() ==> lends(self.values()[index as int], value),
    {
        if index >= self.values.len() {
            return None;
        }
        let value = downcast_ref::<T>(&self.values[index]);
        proof {
            lemma_downcast_ref(self.values@[index as int], value);
        }
        value
    }

    /// Returns mutable access to the component at `index`, or `None` when
    /// out of bounds or when `T` differs from the stored component type.
    ///
    /// Only the component at `index` can change, and it stays a value of the
    /// stored type.
    pub fn get_mut<T: Component + 'static>(&mut self, index: usize) -> (value: Option<&mut T>)
        requires
            old(self).wf(),
        ensures
            final(self).wf(),
            final(self).capacity() == old(self).capacity(),
            final(self).element_size() == old(self).element_size(),
            final(self).stored_type() == old(self).stored_type(),
            final(self).values().len() == old(self).values().len(),
            forall|j: int|
                0 <= j < old(self).values().len() && j != index ==> final(self).values()[j] == old(
                    self,
                ).values()[j],
            index >= old(self).values().len() ==> value is None && *final(self) == *old(self),
            value is Some ==> index < old(self).values().len(),
            value is Some <==> index < old(self).values().len() && old(self).holds_type::<T>(),
    {
        if index >= self.values.len() {
            return None;
        }
        let slot = &mut self.values[index];
        downcast_mut::<T>(slot)
    }

    /// The number of stored components.
    pub fn len(&self) -> (n: usize)
        ensures
            n == self.values().len(),
    {
        self.values.len()
    }

    /// Returns the concrete component type stored by this storage.
    pub fn type_id(&self) -> (id: TypeId)
        ensures
            id == self.stored_type(),
    {
        self.type_id
    }
}

/// What a push appends, the next pop returns, and the pop restores the
/// values from before the push: `pop_erased` after `push_erased(value)`
/// gives `Some(value)` back and the same values, so pops come in LIFO order.
pub proof fn law_pop_undoes_push(values: Seq<ErasedValue>, value: ErasedValue)
    ensures
        values.push(value).len() > 0,
        values.push(value).last() == value,
        values.push(value).drop_last() == values,
{
    assert(values.push(value).drop_last() =~= values);
}

/// `swap_remove` at `index` removes exactly the value at `index`: the last
/// value moves into `index`, every other value stays in place, and nothing
/// else is lost or added.
pub proof fn law_swap_remove_moves_only_the_last<A>(values: Seq<A>, index: int)
    requires
        0 <= index < values.len(),
    ensures
        ({
            let after = values.update(index, values.last()).drop_last();
            &&& after.len() == values.len() - 1
            &&& after.to_multiset() == values.to_multiset().remove(values[index])
            &&& forall|j: int| 0 <= j < after.len() && j != index ==> after[j] == values[j]
            &&& index < after.len() ==> after[index] == values.last()
        }),
{
    broadcast use vstd::seq_lib::group_to_multiset_ensures;

    let updated = values.update(index, values.last());
    let after = updated.drop_last();
    assert(updated.remove(updated.len() - 1) =~= after);
    assert(updated.last() == values.last());
    assert(after.to_multiset() == updated.to_multiset().remove(values.last()));
    assert(updated.to_multiset() == values.to_multiset().insert(values.last()).remove(values[index]));
    assert(values.to_multiset().count(values.last()) > 0);
    assert(after.to_multiset() =~= values.to_multiset().remove(values[index]));
}

} // verus!
