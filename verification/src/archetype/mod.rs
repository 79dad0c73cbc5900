//! Archetype storage for entities sharing the same component types.
//!
//! An archetype stores one type-erased column per component type and keeps
//! entity handles aligned with component rows: row `i` of every column
//! belongs to the `i`-th entity.
use std::any::TypeId;

use vstd::prelude::*;

use crate::component::blobvec::BlobVec;
use crate::component::component_set::{
    ascending, column_types, columns_accept_row, columns_ascending, distinct_types, fits, push_row,
    row_matches, row_pushed, sort_type_ids, strictly_ascending, ComponentSet,
};
use crate::component::erased::{
    erased_type, identifies, is_type_id_of, lemma_type_id_of, lends, type_id_equal, type_id_less,
    type_id_of, type_rank, ErasedValue,
};
use crate::component::Component;
use crate::entity::Entity;

verus! {

broadcast use vstd::seq_lib::group_to_multiset_ensures;

/// Canonical identity of an archetype's component type set.
///
/// Component type identifiers are sorted at construction, so equivalent sets
/// produce equal keys regardless of the order they were given in.
#[derive(Clone, PartialEq, Eq, Hash, Debug)]
pub struct ArchetypeKey {
    components: Vec<TypeId>,
}

/// A component set that does not hold exactly the component types of an
/// archetype was offered to it.
#[derive(Clone, Copy, Debug, PartialEq, Eq)]
pub struct ComponentSetMismatch;

/// Reordering identifiers does not change whether a type occurs twice.
proof fn lemma_permutation_keeps_distinct_types(s: Seq<TypeId>, t: Seq<TypeId>)
    requires
        s.to_multiset() == t.to_multiset(),
        distinct_types(t),
    ensures
        distinct_types(s),
{
    assert(t.no_duplicates()) by {
        assert forall|i: int, j: int| 0 <= i < t.len() && 0 <= j < t.len() && i != j implies t[i]
            != t[j] by {
            assert(type_rank(t[i]) != type_rank(t[j]));
        }
    }
    t.lemma_multiset_has_no_duplicates();
    s.lemma_multiset_has_no_duplicates_conv();
    assert forall|i: int, j: int|
        0 <= i < s.len() && 0 <= j < s.len() && i != j implies type_rank(s[i]) != type_rank(
        s[j],
    ) by {
        assert(s.to_multiset().count(s[i]) > 0);
        assert(s.to_multiset().count(s[j]) > 0);
        assert(t.contains(s[i]));
        assert(t.contains(s[j]));
        let a = choose|a: int| 0 <= a < t.len() && t[a] == s[i];
        let b = choose|b: int| 0 <= b < t.len() && t[b] == s[j];
        assert(s[i] != s[j]);
    }
}

/// Keys are canonical: two strictly ascending sequences of type identifiers
/// that hold the same identifiers are the same sequence. Hence
/// `ArchetypeKey::new` gives equal keys for any two orders of one set of
/// component types.
pub proof fn law_key_is_canonical(k1: Seq<TypeId>, k2: Seq<TypeId>)
    requires
        strictly_ascending(k1),
        strictly_ascending(k2),
        k1.to_multiset() == k2.to_multiset(),
    ensures
        k1 == k2,
    decreases k1.len(),
{
    if k1.len() == 0 {
        assert(k2.to_multiset().len() == 0);
        assert(k1 =~= k2);
    } else {
        assert(k1.to_multiset().len() == k1.len());
        assert(k2.to_multiset().len() == k2.len());
        assert(k2.len() == k1.len());
        assert(k1.to_multiset().count(k1[0]) > 0);
        assert(k2.to_multiset().count(k2[0]) > 0);
        assert(k2.contains(k1[0]));
        assert(k1.contains(k2[0]));
        let a = choose|a: int| 0 <= a < k2.len() && k2[a] == k1[0];
        let b = choose|b: int| 0 <= b < k1.len() && k1[b] == k2[0];
        if a > 0 {
            assert(type_rank(k2[0]) < type_rank(k1[0]));
            if b > 0 {
                assert(type_rank(k1[0]) < type_rank(k2[0]));
            }
        }
        if b > 0 {
            assert(type_rank(k1[0]) < type_rank(k2[0]));
        }
        assert(a == 0);
        assert(k1[0] == k2[0]);
        let r1 = k1.drop_first();
        let r2 = k2.drop_first();
        assert(k1.remove(0) =~= r1);
        assert(k2.remove(0) =~= r2);
        assert(r1.to_multiset() == k1.to_multiset().remove(k1[0]));
        assert(r2.to_multiset() == k2.to_multiset().remove(k2[0]));
        law_key_is_canonical(r1, r2);
        assert forall|i: int| 0 <= i < k1.len() implies k1[i] == k2[i] by {
            if i > 0 {
                assert(k1[i] == r1[i - 1]);
                assert(k2[i] == r2[i - 1]);
            }
        }
        assert(k1 =~= k2);
    }
}

impl ArchetypeKey {
    /// The component types of the key, in ascending order.
    pub closed spec fn ids(&self) -> Seq<TypeId> {
        self.components@
    }

    /// The key's invariant: strictly ascending types.
    pub open spec fn wf(&self) -> bool {
        strictly_ascending(self.ids())
    }

    /// Creates a canonical key from component type identifiers: the same
    /// identifiers, sorted. The order of `component_ids` does not affect
    /// the result.
    ///
    /// A component type may occur only once in `component_ids`.
    pub fn new(component_ids: Vec<TypeId>) -> (key: Self)
        requires
            distinct_types(component_ids@),
        ensures
            key.wf(),
            key.ids().to_multiset() == component_ids@.to_multiset(),
    {
        let sorted = sort_type_ids(component_ids);
        proof {
            lemma_permutation_keeps_distinct_types(sorted@, component_ids@);
        }
        Self { components: sorted }
    }

    /// Creates a canonical key like [`ArchetypeKey::new`], or returns `None`
    /// when a component type occurs more than once in `component_ids`.
    pub fn try_new(component_ids: Vec<TypeId>) -> (key: Option<Self>)
        ensures
            key is Some <==> distinct_types(component_ids@),
            key matches Some(k) ==> k.wf() && k.ids().to_multiset()
                == component_ids@.to_multiset(),
    {
        let ghost given = component_ids@;
        let sorted = sort_type_ids(component_ids);
        let mut i: usize = 1;
        while i < sorted.len()
            invariant
                1 <= i,
                i <= sorted@.len() || sorted@.len() == 0,
                sorted@.to_multiset() == given.to_multiset(),
                given == component_ids@,
                ascending(sorted@),
                forall|k: int| 1 <= k < i && k < sorted@.len() ==> type_rank(sorted@[k - 1]) != type_rank(#[trigger] sorted@[k]),
            decreases sorted.len() - i,
        {
            if type_id_equal(&sorted[i - 1], &sorted[i]) {
                proof {
                    assert(type_rank(sorted@[i - 1]) == type_rank(sorted@[i as int]));
                    assert(!distinct_types(sorted@));
                    if distinct_types(given) {
                        lemma_permutation_keeps_distinct_types(sorted@, given);
                        assert(false);
                    }
                    assert(!distinct_types(given));
                }
                return None;
            }
            i = i + 1;
        }
        proof {
            assert forall|a: int, b: int| 0 <= a < b < sorted@.len() implies type_rank(sorted@[a])
                < type_rank(sorted@[b]) by {
                assert(type_rank(sorted@[a]) <= type_rank(sorted@[b - 1]));
                assert(type_rank(sorted@[b - 1]) != type_rank(sorted@[b]));
            }
            assert(distinct_types(sorted@)) by {
                assert forall|a: int, b: int|
                    0 <= a < sorted@.len() && 0 <= b < sorted@.len() && a != b implies type_rank(
                    sorted@[a],
                ) != type_rank(sorted@[b]) by {
                    if a < b {
                        assert(type_rank(sorted@[a]) < type_rank(sorted@[b]));
                    } else {
                        assert(type_rank(sorted@[b]) < type_rank(sorted@[a]));
                    }
                }
            }
            lemma_permutation_keeps_distinct_types(given, sorted@);
        }
        Some(Self { components: sorted })
    }

    /// The position of the component type `id` in the key, found by binary
    /// search, or `None` when the key does not hold it.
    pub fn position(&self, id: &TypeId) -> (found: Option<usize>)
        requires
            self.wf(),
        ensures
            found matches Some(i) ==> i < self.ids().len() && type_rank(self.ids()[i as int])
                == type_rank(*id),
            found is None ==> forall|i: int|
                0 <= i < self.ids().len() ==> type_rank(self.ids()[i]) != type_rank(*id),
    {
        let mut low: usize = 0;
        let mut high: usize = self.components.len();
        while low < high
            invariant
                low <= high <= self.components@.len(),
                strictly_ascending(self.components@),
                forall|i: int| 0 <= i < low ==> type_rank(self.components@[i]) < type_rank(*id),
                forall|i: int|
                    high <= i < self.components@.len() ==> type_rank(self.components@[i])
                        > type_rank(*id),
            decreases high - low,
        {
            let middle = low + (high - low) / 2;
            if type_id_equal(&self.components[middle], id) {
                return Some(middle);
            }
            if type_id_less(&self.components[middle], id) {
                proof {
                    assert forall|i: int| 0 <= i <= middle implies type_rank(self.components@[i])
                        < type_rank(*id) by {
                        if i < middle {
                            assert(type_rank(self.components@[i]) < type_rank(
                                self.components@[middle as int],
                            ));
                        }
                    }
                }
                low = middle + 1;
            } else {
                proof {
                    assert forall|i: int| middle <= i < self.components@.len() implies type_rank(
                        self.components@[i],
                    ) > type_rank(*id) by {
                        if i > middle {
                            assert(type_rank(self.components@[middle as int]) < type_rank(
                                self.components@[i],
                            ));
                        }
                    }
                }
                high = middle;
            }
        }
        None
    }
}

/// The archetype's invariant over its parts: a strictly ascending key, one
/// well-formed column per key type, in key order, and every column as long
/// as the entity column.
pub open spec fn rows_aligned(key: Seq<TypeId>, columns: Seq<BlobVec>, entities: Seq<Entity>) -> bool {
    &&& strictly_ascending(key)
    &&& columns.len() == key.len()
    &&& forall|i: int|
        0 <= i < columns.len() ==> {
            &&& type_rank((#[trigger] columns[i]).stored_type()) == type_rank(key[i])
            &&& columns[i].wf()
            &&& columns[i].values().len() == entities.len()
        }
}

/// Stores entities that share one exact set of component types.
///
/// Components are stored in type-erased columns. A row is defined by the
/// same index across `entities` and every component column.
pub struct Archetype {
    key: ArchetypeKey,
    columns: Vec<BlobVec>,
    entities: Vec<Entity>,
}

impl Archetype {
    /// The archetype's component types, in ascending order.
    pub closed spec fn key(&self) -> Seq<TypeId> {
        self.key.components@
    }

    /// The component columns, in key order.
    pub closed spec fn columns(&self) -> Seq<BlobVec> {
        self.columns@
    }

    /// The entity of each row.
    pub closed spec fn entities(&self) -> Seq<Entity> {
        self.entities@
    }

    /// Rows stay aligned: see [`rows_aligned`].
    pub open spec fn wf(&self) -> bool {
        rows_aligned(self.key(), self.columns(), self.entities())
    }

    /// Every column can take one more row without a panic.
    pub open spec fn can_insert(&self) -> bool {
        forall|i: int| 0 <= i < self.columns().len() ==> (#[trigger] self.columns()[i]).can_push()
    }

    /// Builds an empty archetype from a key and its columns, or returns
    /// `None` unless the columns are empty and hold exactly the key's types
    /// in key order.
    pub fn from_parts(key: ArchetypeKey, columns: Vec<BlobVec>) -> (archetype: Option<Self>)
        requires
            key.wf(),
            forall|i: int| 0 <= i < columns@.len() ==> (#[trigger] columns@[i]).wf(),
        ensures
            archetype is Some <==> {
                &&& columns@.len() == key.ids().len()
                &&& forall|i: int|
                    0 <= i < columns@.len() ==> type_rank((#[trigger] columns@[i]).stored_type())
                        == type_rank(key.ids()[i]) && columns@[i].values().len() == 0
            },
            archetype matches Some(a) ==> {
                &&& a.wf()
                &&& a.key() == key.ids()
                &&& a.columns() == columns@
                &&& a.entities().len() == 0
            },
    {
        if columns.len() != key.components.len() {
            return None;
        }
        let mut i: usize = 0;
        while i < columns.len()
            invariant
                columns@.len() == key.components@.len(),
                i <= columns@.len(),
                forall|k: int|
                    0 <= k < i ==> type_rank((#[trigger] columns@[k]).stored_type()) == type_rank(
                        key.components@[k],
                    ) && columns@[k].values().len() == 0,
            decreases columns.len() - i,
        {
            let stored = columns[i].type_id();
            if !type_id_equal(&stored, &key.components[i]) || columns[i].len() != 0 {
                return None;
            }
            i = i + 1;
        }
        let archetype = Self { key, columns, entities: Vec::new() };
        assert(archetype.entities@ =~= Seq::<Entity>::empty());
        Some(archetype)
    }

    /// Creates an empty archetype for the component types in `T`, with the
    /// key and the columns in canonical type order.
    ///
    /// Returns `None` when `T` names a component type more than once.
    pub fn new<T: ComponentSet>() -> (archetype: Option<Self>)
        ensures
            archetype matches Some(a) ==> {
                &&& a.wf()
                &&& a.entities().len() == 0
                &&& forall|i: int| 0 <= i < a.columns().len() ==> (#[trigger] a.columns()[i]).values().len() == 0
                &&& a.columns().len() == T::component_count()
                &&& T::lists_types(a.key())
            },
            T::component_count() == 0 ==> archetype is Some,
            archetype is None ==> exists|ids: Seq<TypeId>|
                #[trigger] T::lists_types(ids) && !distinct_types(ids),
    {
        let columns = T::create_column();
        let mut ids: Vec<TypeId> = Vec::new();
        let mut i: usize = 0;
        while i < columns.len()
            invariant
                i <= columns@.len(),
                ids@ =~= column_types(columns@).take(i as int),
            decreases columns.len() - i,
        {
            ids.push(columns[i].type_id());
            i = i + 1;
        }
        let ghost types = column_types(columns@);
        assert(ids@ =~= types);
        let key = match ArchetypeKey::try_new(ids) {
            Some(key) => key,
            None => return None,
        };
        proof {
            assert forall|a: int, b: int| 0 <= a < b < types.len() implies type_rank(types[a])
                < type_rank(types[b]) by {
                assert(type_rank(types[a]) <= type_rank(types[b]));
                assert(type_rank(types[a]) != type_rank(types[b]));
            }
            law_key_is_canonical(key.ids(), types);
        }
        Self::from_parts(key, columns)
    }

    /// Appends an entity and one row of values, each value into the column
    /// of its type.
    ///
    /// Returns an error, leaving the archetype unchanged, unless the row
    /// holds exactly one value for each component type of the archetype.
    pub fn insert_row(&mut self, entity: Entity, row: Vec<ErasedValue>) -> (result: Result<
        (),
        ComponentSetMismatch,
    >)
        requires
            old(self).wf(),
            old(self).can_insert(),
        ensures
            final(self).wf(),
            final(self).key() == old(self).key(),
            result is Ok <==> row_matches(old(self).columns(), row@),
            result is Ok ==> {
                &&& final(self).entities() == old(self).entities().push(entity)
                &&& row_pushed(old(self).columns(), final(self).columns())
                &&& forall|c: int, j: int|
                    0 <= c < old(self).columns().len() && 0 <= j < row@.len() && fits(
                        row@[j],
                        old(self).columns()[c],
                    ) ==> final(self).columns()[c].values() == old(self).columns()[c].values().push(
                        row@[j],
                    )
            },
            result is Err ==> final(self).columns() == old(self).columns() && final(self).entities()
                == old(self).entities(),
    {
        proof {
            self.lemma_accepts_row();
        }
        if push_row(&mut self.columns, row) {
            self.entities.push(entity);
            Ok(())
        } else {
            Err(ComponentSetMismatch)
        }
    }

    /// Appends an entity and its components as one aligned archetype row.
    ///
    /// The component tuple's order does not need to match the archetype's
    /// canonical column order. Returns an error, leaving the archetype
    /// unchanged, when the component set does not exactly match this
    /// archetype.
    pub fn insert<T: ComponentSet>(&mut self, entity: Entity, components: T) -> (result: Result<
        (),
        ComponentSetMismatch,
    >)
        requires
            old(self).wf(),
            old(self).can_insert(),
        ensures
            final(self).wf(),
            final(self).key() == old(self).key(),
            result is Ok ==> final(self).entities() == old(self).entities().push(entity)
                && row_pushed(old(self).columns(), final(self).columns()),
            result is Err ==> final(self).columns() == old(self).columns() && final(self).entities()
                == old(self).entities(),
            result is Ok ==> old(self).columns().len() == T::component_count(),
            T::component_count() == 0 ==> (result is Ok <==> old(self).columns().len() == 0),
            exists|row: Seq<ErasedValue>|
                #[trigger] components.erases_into(row) && (result is Ok <==> row_matches(
                    old(self).columns(),
                    row,
                )) && (result is Ok ==> forall|c: int, j: int|
                    0 <= c < old(self).columns().len() && 0 <= j < row.len() && fits(
                        row[j],
                        old(self).columns()[c],
                    ) ==> final(self).columns()[c].values() == old(self).columns()[c].values().push(
                        row[j],
                    )),
    {
        proof {
            self.lemma_accepts_row();
        }
        if components.push_into(&mut self.columns) {
            self.entities.push(entity);
            Ok(())
        } else {
            Err(ComponentSetMismatch)
        }
    }

    /// The columns of a well-formed archetype can take a row.
    proof fn lemma_accepts_row(&self)
        requires
            self.wf(),
            self.can_insert(),
        ensures
            columns_accept_row(self.columns@),
    {
        assert forall|i: int, k: int|
            0 <= i < self.columns@.len() && 0 <= k < self.columns@.len() && i != k implies type_rank(
            self.columns@[i].stored_type(),
        ) != type_rank(self.columns@[k].stored_type()) by {
            assert(type_rank(self.columns@[i].stored_type()) == type_rank(self.key.components@[i]));
            assert(type_rank(self.columns@[k].stored_type()) == type_rank(self.key.components@[k]));
        }
    }

    /// The index of the column that stores the component type `id`, if the
    /// archetype has one.
    pub fn column_index(&self, id: &TypeId) -> (index: Option<usize>)
        requires
            self.wf(),
        ensures
            index matches Some(i) ==> i < self.columns().len() && type_rank(
                self.columns()[i as int].stored_type(),
            ) == type_rank(*id),
            index is None ==> forall|i: int|
                0 <= i < self.columns().len() ==> type_rank(self.columns()[i].stored_type())
                    != type_rank(*id),
    {
        let found = self.key.position(id);
        proof {
            if found is None {
                assert forall|i: int| 0 <= i < self.columns().len() implies type_rank(
                    self.columns()[i].stored_type(),
                ) != type_rank(*id) by {
                    assert(type_rank(self.columns@[i].stored_type()) == type_rank(
                        self.key.components@[i],
                    ));
                    assert(type_rank(self.key.ids()[i]) != type_rank(*id));
                }
            }
        }
        found
    }

    /// Returns shared access to component `C` at `row_index`, or `None` when
    /// `C` is not part of this archetype or `row_index` is out of bounds.
    ///
    /// The component column is located from the archetype's canonical key.
    pub fn get<C: Component + 'static>(&self, row_index: usize) -> (component: Option<&C>)
        requires
            self.wf(),
        ensures
            row_index >= self.entities().len() ==> component is None,
            component is Some ==> row_index < self.entities().len(),
            exists|id: TypeId|
                #[trigger] is_type_id_of::<C>(id) && {
                    &&& (forall|c: int|
                        0 <= c < self.columns().len() ==> type_rank(
                            #[trigger] self.columns()[c].stored_type(),
                        ) != type_rank(id)) ==> component is None
                    &&& forall|c: int|
                        0 <= c < self.columns().len() && type_rank(
                            #[trigger] self.columns()[c].stored_type(),
                        ) == type_rank(id) ==> {
                            &&& (component is Some <==> row_index < self.entities().len())
                            &&& row_index < self.entities().len() ==> lends(
                                self.columns()[c].values()[row_index as int],
                                component,
                            )
                        }
                },
    {
        let id = type_id_of::<C>();
        proof {
            lemma_type_id_of::<C>(id);
        }
        match self.column_index(&id) {
            None => None,
            Some(index) => {
                let component = self.columns[index].get::<C>(row_index);
                proof {
                    self.lemma_column_unique(index as int, id);
                    if row_index < self.entities@.len() {
                        self.columns@[index as int].lemma_values_have_stored_type(row_index as int);
                        assert(type_rank(erased_type(self.columns@[index as int].values()[row_index as int]))
                            == type_rank(id));
                        assert(identifies::<C>(erased_type(self.columns@[index as int].values()[row_index as int])));
                    }
                }
                component
            },
        }
    }

    /// In a well-formed archetype, at most one column stores a given type.
    proof fn lemma_column_unique(&self, index: int, id: TypeId)
        requires
            self.wf(),
            0 <= index < self.columns@.len(),
            type_rank(self.columns@[index].stored_type()) == type_rank(id),
        ensures
            forall|c: int|
                0 <= c < self.columns@.len() && type_rank(self.columns@[c].stored_type()) == type_rank(id)
                    ==> c == index,
    {
        assert forall|c: int|
            0 <= c < self.columns@.len() && type_rank(self.columns@[c].stored_type()) == type_rank(id)
                implies c == index by {
            assert(type_rank(self.columns@[c].stored_type()) == type_rank(self.key.components@[c]));
            assert(type_rank(self.columns@[index].stored_type()) == type_rank(self.key.components@[index]));
            if c < index {
                assert(type_rank(self.key.components@[c]) < type_rank(self.key.components@[index]));
            } else if c > index {
                assert(type_rank(self.key.components@[index]) < type_rank(self.key.components@[c]));
            }
        }
    }

    /// Returns mutable access to component `C` at `row_index`, or `None`
    /// when `C` is not part of this archetype or `row_index` is out of
    /// bounds.
    ///
    /// Only the one component at `row_index` of one column can change.
    pub fn get_mut<C: Component + 'static>(&mut self, row_index: usize) -> (component: Option<
        &mut C,
    >)
        requires
            old(self).wf(),
        ensures
            final(self).wf(),
            final(self).key() == old(self).key(),
            final(self).entities() == old(self).entities(),
            final(self).columns().len() == old(self).columns().len(),
            forall|i: int, k: int|
                #![trigger final(self).columns()[i], final(self).columns()[k]]
                0 <= i < k < old(self).columns().len() ==> final(self).columns()[i] == old(
                    self,
                ).columns()[i] || final(self).columns()[k] == old(self).columns()[k],
            forall|i: int, j: int|
                0 <= i < old(self).columns().len() && 0 <= j < old(self).entities().len() && j
                    != row_index ==> #[trigger] final(self).columns()[i].values()[j] == old(
                    self,
                ).columns()[i].values()[j],
            row_index >= old(self).entities().len() ==> component is None && final(self).columns()
                == old(self).columns(),
            component is Some ==> row_index < old(self).entities().len(),
            exists|id: TypeId|
                #[trigger] is_type_id_of::<C>(id) && {
                    &&& (forall|c: int|
                        0 <= c < old(self).columns().len() ==> type_rank(
                            #[trigger] old(self).columns()[c].stored_type(),
                        ) != type_rank(id)) ==> component is None
                    &&& forall|c: int|
                        0 <= c < old(self).columns().len() && type_rank(
                            #[trigger] old(self).columns()[c].stored_type(),
                        ) == type_rank(id) ==> {
                            &&& (component is Some <==> row_index < old(self).entities().len())
                            &&& forall|i: int|
                                0 <= i < old(self).columns().len() && i != c ==> final(self).columns()[i]
                                    == old(self).columns()[i]
                        }
                },
    {
        let id = type_id_of::<C>();
        proof {
            lemma_type_id_of::<C>(id);
        }
        match self.column_index(&id) {
            None => None,
            Some(index) => {
                proof {
                    self.lemma_column_unique(index as int, id);
                    assert(identifies::<C>(self.columns@[index as int].stored_type()));
                }
                let column = &mut self.columns[index];
                column.get_mut::<C>(row_index)
            },
        }
    }

    /// Removes an archetype row by replacing it with the final row.
    ///
    /// The same row is removed from every component column and from the
    /// entity column before any removed component is destroyed.
    ///
    /// Returns the entity moved into `row_index`, or `None` when the removed
    /// row was already the final row.
    pub fn swap_remove(&mut self, row_index: usize) -> (moved: Option<Entity>)
        requires
            old(self).wf(),
            row_index < old(self).entities().len(),
        ensures
            final(self).wf(),
            final(self).key() == old(self).key(),
            final(self).entities() == old(self).entities().update(
                row_index as int,
                old(self).entities().last(),
            ).drop_last(),
            final(self).columns().len() == old(self).columns().len(),
            forall|i: int|
                0 <= i < old(self).columns().len() ==> (#[trigger] final(self).columns()[i]).values()
                    == old(self).columns()[i].values().update(
                    row_index as int,
                    old(self).columns()[i].values().last(),
                ).drop_last(),
            moved == (if row_index + 1 < old(self).entities().len() {
                Some(old(self).entities().last())
            } else {
                None
            }),
    {
        let mut drop_guard = DropGuard {
            pending_drop: Vec::with_capacity(self.columns.len()),
            next: 0,
        };
        let n = self.columns.len();
        let mut i: usize = 0;
        while i < n
            invariant
                n == old(self).columns@.len(),
                self.columns@.len() == n,
                drop_guard.next == 0,
                self.key == old(self).key,
                self.entities@ == old(self).entities@,
                old(self).wf(),
                row_index < old(self).entities@.len(),
                i <= n,
                forall|k: int|
                    0 <= k < i ==> {
                        &&& (#[trigger] self.columns@[k]).wf()
                        &&& self.columns@[k].stored_type() == old(self).columns@[k].stored_type()
                        &&& self.columns@[k].values() == old(self).columns@[k].values().update(
                            row_index as int,
                            old(self).columns@[k].values().last(),
                        ).drop_last()
                    },
                forall|k: int| i <= k < n ==> #[trigger] self.columns@[k] == old(self).columns@[k],
            decreases n - i,
        {
            let ghost before = self.columns@;
            let column = &mut self.columns[i];
            let removed = column.raw_swap_remove(row_index);
            drop_guard.pending_drop.push(PendingDrop { value: Some(removed) });
            proof {
                assert(self.columns@ == before.update(i as int, self.columns@[i as int]));
            }
            i = i + 1;
        }
        self.entities.swap_remove(row_index);
        while drop_guard.next < drop_guard.pending_drop.len()
            invariant
                drop_guard.next <= drop_guard.pending_drop@.len(),
            decreases drop_guard.pending_drop@.len() - drop_guard.next,
        {
            drop_guard.drop_next();
        }
        if row_index >= self.entities.len() {
            return None;
        }
        Some(self.entities[row_index])
    }
}

/// Rows move as units under `swap_remove`: after removing `row`, every
/// remaining row `k` holds, in the entity column and in any component
/// column, what one old row held, the last row when `k == row` and row `k`
/// otherwise.
pub proof fn law_swap_remove_keeps_rows_aligned<A, B>(entities: Seq<A>, column: Seq<B>, row: int)
    requires
        entities.len() == column.len(),
        0 <= row < entities.len(),
    ensures
        ({
            let entities_after = entities.update(row, entities.last()).drop_last();
            let column_after = column.update(row, column.last()).drop_last();
            &&& entities_after.len() == column_after.len()
            &&& forall|k: int|
                0 <= k < entities_after.len() ==> {
                    let source = if k == row {
                        entities.len() - 1
                    } else {
                        k
                    };
                    &&& #[trigger] entities_after[k] == entities[source]
                    &&& column_after[k] == column[source]
                }
        }),
{
}

/// A removed component value awaiting destruction.
pub struct PendingDrop {
    value: Option<ErasedValue>,
}

/// Holds the component values removed from an archetype row until they are
/// destroyed, in order. Values still pending when the guard goes away, for
/// instance while unwinding from a panicking destructor, are destroyed with
/// it.
pub struct DropGuard {
    pending_drop: Vec<PendingDrop>,
    next: usize,
}

impl DropGuard {
    /// Destroys the next pending component value.
    ///
    /// `next` is advanced first, so a panicking destructor is not attempted
    /// again.
    fn drop_next(&mut self)
        requires
            old(self).next < old(self).pending_drop@.len(),
        ensures
            final(self).next == old(self).next + 1,
            final(self).pending_drop@.len() == old(self).pending_drop@.len(),
    {
        let index = self.next;
        assert(index < self.pending_drop.len());
        self.next = index + 1;
        let pending = &mut self.pending_drop[index];
        let _destroyed = pending.value.take();
    }
}

} // verus!
