//! Heterogeneous component tuples used to create and fill archetype rows.
//!
//! Component types are kept in one canonical order, ascending by `TypeId`,
//! independently of the order in which a tuple names them. A row of values
//! is routed into the columns by the type of each value.
use std::any::TypeId;

use vstd::prelude::*;

use super::blobvec::BlobVec;
use super::erased::{
    erase, erased_type, erased_type_id, erases_to, is_type_id_of, lemma_erase, lemma_type_id_of,
    type_id_equal, type_id_less, type_id_of, type_rank, ErasedValue,
};
use super::sealed::Sealed;
use super::Component;

verus! {

broadcast use vstd::seq_lib::group_to_multiset_ensures;

/// The identifiers are in ascending order.
pub open spec fn ascending(ids: Seq<TypeId>) -> bool {
    forall|i: int, j: int| 0 <= i <= j < ids.len() ==> type_rank(ids[i]) <= type_rank(ids[j])
}

/// The identifiers are in strictly ascending order: ascending, and no type
/// twice.
pub open spec fn strictly_ascending(ids: Seq<TypeId>) -> bool {
    forall|i: int, j: int| 0 <= i < j < ids.len() ==> type_rank(ids[i]) < type_rank(ids[j])
}

/// No type occurs twice among the identifiers.
pub open spec fn distinct_types(ids: Seq<TypeId>) -> bool {
    forall|i: int, j: int|
        0 <= i < ids.len() && 0 <= j < ids.len() && i != j ==> type_rank(ids[i]) != type_rank(
            ids[j],
        )
}

/// The columns are in ascending order of their stored types.
pub open spec fn columns_ascending(columns: Seq<BlobVec>) -> bool {
    forall|i: int, j: int|
        0 <= i <= j < columns.len() ==> type_rank(columns[i].stored_type()) <= type_rank(
            columns[j].stored_type(),
        )
}

/// The stored types of the columns, in column order.
pub open spec fn column_types(columns: Seq<BlobVec>) -> Seq<TypeId> {
    columns.map_values(|c: BlobVec| c.stored_type())
}

/// Every column is well formed and empty.
pub open spec fn columns_empty(columns: Seq<BlobVec>) -> bool {
    forall|i: int| 0 <= i < columns.len() ==> columns[i].wf() && columns[i].values().len() == 0
}

/// The columns can take one more row: each is well formed and can grow by
/// one, and no two store the same type.
pub open spec fn columns_accept_row(columns: Seq<BlobVec>) -> bool {
    &&& forall|i: int| 0 <= i < columns.len() ==> columns[i].wf() && columns[i].can_push()
    &&& forall|i: int, k: int|
        0 <= i < columns.len() && 0 <= k < columns.len() && i != k ==> type_rank(
            columns[i].stored_type(),
        ) != type_rank(columns[k].stored_type())
}

/// `value` has the type that `column` stores.
pub open spec fn fits(value: ErasedValue, column: BlobVec) -> bool {
    type_rank(erased_type(value)) == type_rank(column.stored_type())
}

/// The row holds exactly one value for each column: as many values as
/// columns, no type twice, a column for every value and a value for every
/// column.
pub open spec fn row_matches(columns: Seq<BlobVec>, row: Seq<ErasedValue>) -> bool {
    &&& row.len() == columns.len()
    &&& forall|a: int, b: int|
        0 <= a < row.len() && 0 <= b < row.len() && a != b ==> type_rank(erased_type(row[a]))
            != type_rank(erased_type(row[b]))
    &&& forall|j: int| 0 <= j < row.len() ==> #[trigger] has_column_for(columns, row[j])
    &&& forall|c: int| 0 <= c < columns.len() ==> #[trigger] has_value_for(row, columns[c])
}

/// Some column stores the type of `value`.
pub open spec fn has_column_for(columns: Seq<BlobVec>, value: ErasedValue) -> bool {
    exists|c: int| 0 <= c < columns.len() && fits(value, columns[c])
}

/// Some value of the row has the type that `column` stores.
pub open spec fn has_value_for(row: Seq<ErasedValue>, column: BlobVec) -> bool {
    exists|j: int| 0 <= j < row.len() && fits(row[j], column)
}

/// Each column grew by exactly one value and is otherwise unchanged.
pub open spec fn row_pushed(before: Seq<BlobVec>, after: Seq<BlobVec>) -> bool {
    &&& after.len() == before.len()
    &&& forall|i: int|
        0 <= i < after.len() ==> {
            &&& (#[trigger] after[i]).wf()
            &&& after[i].stored_type() == before[i].stored_type()
            &&& after[i].element_size() == before[i].element_size()
            &&& after[i].capacity() == before[i].capacity_after_push()
            &&& after[i].values().len() == before[i].values().len() + 1
            &&& after[i].values().drop_last() == before[i].values()
        }
}

/// Some value of the row is routed to column `k`.
spec fn is_target(targets: Seq<usize>, k: int) -> bool {
    exists|i: int| 0 <= i < targets.len() && targets[i] == k
}

/// Sorts type identifiers into ascending order.
pub fn sort_type_ids(ids: Vec<TypeId>) -> (sorted: Vec<TypeId>)
    ensures
        sorted@.to_multiset() == ids@.to_multiset(),
        sorted@.len() == ids@.len(),
        ascending(sorted@),
{
    let mut rest = ids;
    let mut sorted: Vec<TypeId> = Vec::new();
    assert(sorted@.to_multiset() =~= vstd::multiset::Multiset::empty());
    while rest.len() > 0
        invariant
            sorted@.to_multiset().add(rest@.to_multiset()) == ids@.to_multiset(),
            sorted@.len() + rest@.len() == ids@.len(),
            ascending(sorted@),
            forall|a: int, b: int|
                0 <= a < sorted@.len() && 0 <= b < rest@.len() ==> type_rank(sorted@[a])
                    <= type_rank(rest@[b]),
        decreases rest.len(),
    {
        let mut least: usize = 0;
        let mut k: usize = 1;
        while k < rest.len()
            invariant
                0 <= least < rest@.len(),
                1 <= k <= rest@.len(),
                forall|j: int| 0 <= j < k ==> type_rank(rest@[least as int]) <= type_rank(rest@[j]),
            decreases rest.len() - k,
        {
            if type_id_less(&rest[k], &rest[least]) {
                least = k;
            }
            k = k + 1;
        }
        let ghost old_rest = rest@;
        let ghost old_sorted = sorted@;
        let x = rest.remove(least);
        sorted.push(x);
        proof {
            assert(old_rest.remove(least as int).to_multiset() == old_rest.to_multiset().remove(x));
            assert(sorted@.to_multiset() == old_sorted.to_multiset().insert(x));
            assert(sorted@.to_multiset().add(rest@.to_multiset()) =~= old_sorted.to_multiset().add(
                old_rest.to_multiset(),
            ));
            assert forall|a: int, b: int|
                0 <= a < sorted@.len() && 0 <= b < rest@.len() implies type_rank(sorted@[a])
                <= type_rank(rest@[b]) by {
                let ob = if b < least {
                    b
                } else {
                    b + 1
                };
                assert(rest@[b] == old_rest[ob]);
                if a < old_sorted.len() {
                    assert(sorted@[a] == old_sorted[a]);
                }
            }
            assert forall|i: int, j: int| 0 <= i <= j < sorted@.len() implies type_rank(sorted@[i])
                <= type_rank(sorted@[j]) by {
                if j == old_sorted.len() {
                    if i < j {
                        assert(sorted@[i] == old_sorted[i]);
                    }
                } else {
                    assert(sorted@[i] == old_sorted[i]);
                    assert(sorted@[j] == old_sorted[j]);
                }
            }
        }
    }
    assert(rest@.to_multiset() =~= vstd::multiset::Multiset::empty());
    assert(sorted@.to_multiset() =~= sorted@.to_multiset().add(rest@.to_multiset()));
    sorted
}

/// Sorts columns into ascending order of their stored types.
pub fn sort_columns(columns: Vec<BlobVec>) -> (sorted: Vec<BlobVec>)
    requires
        columns_empty(columns@),
    ensures
        sorted@.to_multiset() == columns@.to_multiset(),
        column_types(sorted@).to_multiset() == column_types(columns@).to_multiset(),
        sorted@.len() == columns@.len(),
        columns_empty(sorted@),
        columns_ascending(sorted@),
{
    let mut rest = columns;
    let mut sorted: Vec<BlobVec> = Vec::new();
    assert(sorted@.to_multiset() =~= vstd::multiset::Multiset::empty());
    while rest.len() > 0
        invariant
            sorted@.to_multiset().add(rest@.to_multiset()) == columns@.to_multiset(),
            column_types(sorted@).to_multiset().add(column_types(rest@).to_multiset())
                == column_types(columns@).to_multiset(),
            sorted@.len() + rest@.len() == columns@.len(),
            columns_empty(sorted@),
            columns_empty(rest@),
            columns_ascending(sorted@),
            forall|a: int, b: int|
                0 <= a < sorted@.len() && 0 <= b < rest@.len() ==> type_rank(
                    sorted@[a].stored_type(),
                ) <= type_rank(rest@[b].stored_type()),
        decreases rest.len(),
    {
        let mut least: usize = 0;
        let mut k: usize = 1;
        while k < rest.len()
            invariant
                0 <= least < rest@.len(),
                1 <= k <= rest@.len(),
                forall|j: int|
                    0 <= j < k ==> type_rank(rest@[least as int].stored_type()) <= type_rank(
                        rest@[j].stored_type(),
                    ),
            decreases rest.len() - k,
        {
            let candidate = rest[k].type_id();
            let current = rest[least].type_id();
            if type_id_less(&candidate, &current) {
                least = k;
            }
            k = k + 1;
        }
        let ghost old_rest = rest@;
        let ghost old_sorted = sorted@;
        let x = rest.remove(least);
        sorted.push(x);
        proof {
            assert(old_rest.remove(least as int).to_multiset() == old_rest.to_multiset().remove(x));
            assert(sorted@.to_multiset() == old_sorted.to_multiset().insert(x));
            assert(sorted@.to_multiset().add(rest@.to_multiset()) =~= old_sorted.to_multiset().add(
                old_rest.to_multiset(),
            ));
            let old_types = column_types(old_rest);
            assert(column_types(rest@) =~= old_types.remove(least as int));
            assert(old_types[least as int] == x.stored_type());
            assert(column_types(rest@).to_multiset() == old_types.to_multiset().remove(x.stored_type()));
            assert(column_types(sorted@) =~= column_types(old_sorted).push(x.stored_type()));
            assert(column_types(sorted@).to_multiset() == column_types(old_sorted).to_multiset().insert(
                x.stored_type(),
            ));
            assert(column_types(sorted@).to_multiset().add(column_types(rest@).to_multiset())
                =~= column_types(old_sorted).to_multiset().add(old_types.to_multiset()));
            assert forall|b: int| 0 <= b < rest@.len() implies rest@[b].wf() && rest@[b].values().len() == 0 by {
                let ob = if b < least {
                    b
                } else {
                    b + 1
                };
                assert(rest@[b] == old_rest[ob]);
            }
            assert forall|a: int| 0 <= a < sorted@.len() implies sorted@[a].wf() && sorted@[a].values().len() == 0 by {
                if a < old_sorted.len() {
                    assert(sorted@[a] == old_sorted[a]);
                }
            }
            assert forall|a: int, b: int|
                0 <= a < sorted@.len() && 0 <= b < rest@.len() implies type_rank(
                sorted@[a].stored_type(),
            ) <= type_rank(rest@[b].stored_type()) by {
                let ob = if b < least {
                    b
                } else {
                    b + 1
                };
                assert(rest@[b] == old_rest[ob]);
                if a < old_sorted.len() {
                    assert(sorted@[a] == old_sorted[a]);
                }
            }
            assert forall|i: int, j: int| 0 <= i <= j < sorted@.len() implies type_rank(
                sorted@[i].stored_type(),
            ) <= type_rank(sorted@[j].stored_type()) by {
                if j == old_sorted.len() {
                    if i < j {
                        assert(sorted@[i] == old_sorted[i]);
                    }
                } else {
                    assert(sorted@[i] == old_sorted[i]);
                    assert(sorted@[j] == old_sorted[j]);
                }
            }
        }
    }
    assert(rest@.to_multiset() =~= vstd::multiset::Multiset::empty());
    assert(sorted@.to_multiset() =~= sorted@.to_multiset().add(rest@.to_multiset()));
    assert(column_types(rest@).to_multiset() =~= vstd::multiset::Multiset::empty());
    assert(column_types(sorted@).to_multiset() =~= column_types(sorted@).to_multiset().add(
        column_types(rest@).to_multiset(),
    ));
    sorted
}

/// Whether no type occurs twice among `ids`.
fn types_distinct(ids: &Vec<TypeId>) -> (distinct: bool)
    ensures
        distinct == distinct_types(ids@),
{
    let n = ids.len();
    let mut i: usize = 0;
    while i < n
        invariant
            n == ids@.len(),
            i <= n,
            forall|a: int, b: int|
                0 <= a < i && 0 <= b < n && a != b ==> type_rank(ids@[a]) != type_rank(ids@[b]),
        decreases n - i,
    {
        let mut j: usize = 0;
        while j < n
            invariant
                n == ids@.len(),
                i < n,
                j <= n,
                forall|a: int, b: int|
                    0 <= a < i && 0 <= b < n && a != b ==> type_rank(ids@[a]) != type_rank(
                        ids@[b],
                    ),
                forall|b: int| 0 <= b < j && b != i ==> type_rank(ids@[i as int]) != type_rank(ids@[b]),
            decreases n - j,
        {
            if j != i && type_id_equal(&ids[i], &ids[j]) {
                return false;
            }
            j = j + 1;
        }
        i = i + 1;
    }
    true
}

/// Whether `id` names one of the types in `ids`.
fn type_listed(ids: &Vec<TypeId>, id: &TypeId) -> (listed: bool)
    ensures
        listed == exists|j: int| 0 <= j < ids@.len() && type_rank(ids@[j]) == type_rank(*id),
{
    let mut j: usize = 0;
    while j < ids.len()
        invariant
            j <= ids@.len(),
            forall|k: int| 0 <= k < j ==> type_rank(ids@[k]) != type_rank(*id),
        decreases ids.len() - j,
    {
        if type_id_equal(&ids[j], id) {
            return true;
        }
        j = j + 1;
    }
    false
}

/// The index of the column that stores the type `id`, if any.
fn column_of_type(columns: &Vec<BlobVec>, id: &TypeId) -> (found: Option<usize>)
    ensures
        found matches Some(c) ==> c < columns@.len() && type_rank(columns@[c as int].stored_type())
            == type_rank(*id),
        found is None ==> forall|c: int|
            0 <= c < columns@.len() ==> type_rank(columns@[c].stored_type()) != type_rank(*id),
{
    let mut c: usize = 0;
    while c < columns.len()
        invariant
            c <= columns@.len(),
            forall|k: int| 0 <= k < c ==> type_rank(columns@[k].stored_type()) != type_rank(*id),
        decreases columns.len() - c,
    {
        let stored = columns[c].type_id();
        if type_id_equal(&stored, id) {
            return Some(c);
        }
        c = c + 1;
    }
    None
}

/// Moves one row of values into the columns, each value into the column of
/// its type.
///
/// Succeeds exactly when the row holds one value for each column; otherwise
/// nothing moves and the columns are unchanged.
#[verifier::spinoff_prover]
#[verifier::rlimit(40)]
pub fn push_row(columns: &mut Vec<BlobVec>, row: Vec<ErasedValue>) -> (pushed: bool)
    requires
        columns_accept_row(old(columns)@),
    ensures
        pushed == row_matches(old(columns)@, row@),
        pushed ==> row_pushed(old(columns)@, final(columns)@),
        pushed ==> forall|c: int, j: int|
            0 <= c < old(columns)@.len() && 0 <= j < row@.len() && fits(row@[j], old(columns)@[c])
                ==> final(columns)@[c].values() == old(columns)@[c].values().push(row@[j]),
        !pushed ==> final(columns)@ == old(columns)@,
{
    let n = columns.len();
    if row.len() != n {
        return false;
    }
    let mut types: Vec<TypeId> = Vec::new();
    let mut j: usize = 0;
    while j < n
        invariant
            n == row@.len(),
            j <= n,
            types@.len() == j,
            forall|k: int| 0 <= k < j ==> types@[k] == erased_type(row@[k]),
        decreases n - j,
    {
        let id = erased_type_id(&row[j]);
        types.push(id);
        j = j + 1;
    }
    if !types_distinct(&types) {
        proof {
            let (a, b) = choose|a: int, b: int|
                0 <= a < n && 0 <= b < n && a != b && type_rank(types@[a]) == type_rank(types@[b]);
            assert(type_rank(erased_type(row@[a])) == type_rank(erased_type(row@[b])));
        }
        return false;
    }
    let mut targets: Vec<usize> = Vec::new();
    j = 0;
    while j < n
        invariant
            n == row@.len(),
            n == columns@.len(),
            n == types@.len(),
            columns@ == old(columns)@,
            forall|k: int| 0 <= k < n ==> types@[k] == erased_type(row@[k]),
            j <= n,
            targets@.len() == j,
            forall|k: int| 0 <= k < j ==> targets@[k] < n && fits(row@[k], columns@[targets@[k] as int]),
        decreases n - j,
    {
        match column_of_type(columns, &types[j]) {
            Some(c) => {
                targets.push(c);
            },
            None => {
                assert(!row_matches(columns@, row@)) by {
                    if row_matches(columns@, row@) {
                        assert(has_column_for(columns@, row@[j as int]));
                    }
                }
                return false;
            },
        }
        j = j + 1;
    }
    let mut c: usize = 0;
    while c < n
        invariant
            n == row@.len(),
            n == columns@.len(),
            n == types@.len(),
            columns@ == old(columns)@,
            forall|k: int| 0 <= k < n ==> types@[k] == erased_type(row@[k]),
            c <= n,
            forall|k: int| 0 <= k < c ==> #[trigger] has_value_for(row@, columns@[k]),
        decreases n - c,
    {
        let stored = columns[c].type_id();
        if !type_listed(&types, &stored) {
            assert(!row_matches(columns@, row@)) by {
                if row_matches(columns@, row@) {
                    assert(has_value_for(row@, columns@[c as int]));
                    let i = choose|i: int| 0 <= i < row@.len() && fits(row@[i], columns@[c as int]);
                    assert(type_rank(types@[i]) == type_rank(stored));
                }
            }
            return false;
        }
        proof {
            let i = choose|i: int| 0 <= i < n && type_rank(types@[i]) == type_rank(stored);
            assert(fits(row@[i], columns@[c as int]));
            assert(has_value_for(row@, columns@[c as int]));
        }
        c = c + 1;
    }
    let ghost row0 = row@;
    let ghost cols0 = columns@;
    proof {
        assert forall|a: int, b: int| 0 <= a < row0.len() && 0 <= b < row0.len() && a != b implies type_rank(
            erased_type(row0[a]),
        ) != type_rank(erased_type(row0[b])) by {
            assert(type_rank(types@[a]) != type_rank(types@[b]));
        }
        assert(row0.len() == cols0.len());
        assert forall|c: int| 0 <= c < cols0.len() implies #[trigger] has_value_for(row0, cols0[c]) by {
            assert(has_value_for(row@, columns@[c]));
        }
        assert forall|j: int| 0 <= j < row0.len() implies #[trigger] has_column_for(cols0, row0[j]) by {
            let c = targets@[j] as int;
            assert(fits(row0[j], cols0[c]));
        }
        assert(row_matches(cols0, row0));
        // every column is the target of exactly one value
        assert forall|a: int, b: int| 0 <= a < n && 0 <= b < n && targets@[a] == targets@[b] implies a == b by {
            if a != b {
                assert(type_rank(types@[a]) != type_rank(types@[b]));
            }
        }
        assert forall|k: int| 0 <= k < n implies #[trigger] is_target(targets@, k) by {
            assert(has_value_for(row0, cols0[k]));
            let i = choose|i: int| 0 <= i < n && fits(row0[i], cols0[k]);
            assert(fits(row0[i], cols0[targets@[i] as int]));
            assert(targets@[i] == k);
        }
    }
    let mut row = row;
    while row.len() > 0
        invariant
            n == row0.len(),
            n == cols0.len(),
            n == targets@.len(),
            columns_accept_row(cols0),
            row@.len() <= n,
            row@ == row0.subrange(0, row@.len() as int),
            columns@.len() == n,
            forall|k: int| 0 <= k < n ==> targets@[k] < n && fits(row0[k], cols0[targets@[k] as int]),
            forall|a: int, b: int| 0 <= a < n && 0 <= b < n && targets@[a] == targets@[b] ==> a == b,
            forall|k: int| 0 <= k < n ==> #[trigger] is_target(targets@, k),
            forall|k: int|
                0 <= k < n ==> {
                    let t = #[trigger] targets@[k] as int;
                    &&& k < row@.len() ==> columns@[t] == cols0[t]
                    &&& k >= row@.len() ==> {
                        &&& columns@[t].wf()
                        &&& columns@[t].stored_type() == cols0[t].stored_type()
                        &&& columns@[t].element_size() == cols0[t].element_size()
                        &&& columns@[t].capacity() == cols0[t].capacity_after_push()
                        &&& columns@[t].values() == cols0[t].values().push(row0[k])
                    }
                },
        decreases row.len(),
    {
        let ghost before = columns@;
        let value = row.pop().unwrap();
        let k = row.len();
        let target = targets[k];
        let column = &mut (*columns)[target];
        column.push_erased(value);
        assert(columns@ == before.update(target as int, columns@[target as int]));
        proof {
            assert(value == row0[k as int]);
            assert forall|m: int| 0 <= m < n implies {
                let t = #[trigger] targets@[m] as int;
                &&& m < row@.len() ==> columns@[t] == cols0[t]
                &&& m >= row@.len() ==> {
                    &&& columns@[t].wf()
                    &&& columns@[t].stored_type() == cols0[t].stored_type()
                    &&& columns@[t].element_size() == cols0[t].element_size()
                    &&& columns@[t].capacity() == cols0[t].capacity_after_push()
                    &&& columns@[t].values() == cols0[t].values().push(row0[m])
                }
            } by {
                if m != k {
                    assert(targets@[m] != target);
                    assert(columns@[targets@[m] as int] == before[targets@[m] as int]);
                }
            }
        }
    }
    proof {
        assert forall|i: int| 0 <= i < n implies {
            &&& (#[trigger] columns@[i]).wf()
            &&& columns@[i].stored_type() == cols0[i].stored_type()
            &&& columns@[i].element_size() == cols0[i].element_size()
            &&& columns@[i].capacity() == cols0[i].capacity_after_push()
            &&& columns@[i].values().len() == cols0[i].values().len() + 1
            &&& columns@[i].values().drop_last() == cols0[i].values()
        } by {
            assert(is_target(targets@, i));
            let k = choose|k: int| 0 <= k < targets@.len() && targets@[k] == i;
            assert(columns@[i].values() == cols0[i].values().push(row0[k]));
            assert(columns@[i].values().drop_last() =~= cols0[i].values());
        }
        assert forall|c: int, j: int|
            0 <= c < n && 0 <= j < n && fits(row0[j], cols0[c]) implies columns@[c].values() == cols0[c].values().push(row0[j]) by {
            assert(fits(row0[j], cols0[targets@[j] as int]));
            assert(targets@[j] == c);
        }
    }
    true
}

/// Describes a set of component values that fills one archetype row.
///
/// Implementations describe each component type, create one empty column
/// per type in ascending type order, and move each value into the column of
/// its type.
pub trait ComponentSet: Sealed {
    /// The number of components in the set.
    spec fn component_count() -> nat;

    /// `ids` holds the identifier of each component type of the set, once
    /// per component, in any order.
    spec fn lists_types(ids: Seq<TypeId>) -> bool;

    /// `row` holds each component value of `self`, boxed, in tuple order.
    spec fn erases_into(self, row: Seq<ErasedValue>) -> bool;

    /// Returns the component types of the set, one per component, in
    /// ascending order.
    fn type_ids() -> (ids: Vec<TypeId>)
        ensures
            ascending(ids@),
            ids@.len() == Self::component_count(),
            Self::lists_types(ids@),
    ;

    /// Moves every component value into the column of its type.
    ///
    /// Nothing moves, and `false` is returned, when the columns do not hold
    /// exactly the component types of this set; in particular when there
    /// are not as many columns as components.
    fn push_into(self, columns: &mut Vec<BlobVec>) -> (pushed: bool)
        requires
            columns_accept_row(old(columns)@),
        ensures
            pushed ==> row_pushed(old(columns)@, final(columns)@),
            !pushed ==> final(columns)@ == old(columns)@,
            pushed ==> old(columns)@.len() == Self::component_count(),
            Self::component_count() == 0 ==> (pushed <==> old(columns)@.len() == 0),
            exists|row: Seq<ErasedValue>|
                #[trigger] self.erases_into(row) && (pushed <==> row_matches(old(columns)@, row))
                    && (pushed ==> forall|c: int, j: int|
                    0 <= c < old(columns)@.len() && 0 <= j < row.len() && fits(
                        row[j],
                        old(columns)@[c],
                    ) ==> final(columns)@[c].values() == old(columns)@[c].values().push(row[j])),
    ;

    /// Creates one empty column for every component type in the set, in
    /// ascending type order.
    fn create_column() -> (columns: Vec<BlobVec>)
        ensures
            columns_empty(columns@),
            columns_ascending(columns@),
            columns@.len() == Self::component_count(),
            Self::lists_types(column_types(columns@)),
    ;
}

/// Some column stores components of `size` bytes.
pub open spec fn has_column_of_size(columns: Seq<BlobVec>, size: nat) -> bool {
    exists|i: int| 0 <= i < columns.len() && columns[i].element_size() == size
}

/// A column that is moved by a sort is still among the sorted columns.
proof fn lemma_sorted_columns_keep_sizes(unsorted: Seq<BlobVec>, sorted: Seq<BlobVec>, k: int)
    requires
        sorted.to_multiset() == unsorted.to_multiset(),
        0 <= k < unsorted.len(),
    ensures
        has_column_of_size(sorted, unsorted[k].element_size()),
{
    assert(unsorted.contains(unsorted[k]));
    assert(unsorted.to_multiset().count(unsorted[k]) > 0);
    assert(sorted.contains(unsorted[k]));
    let i = choose|i: int| 0 <= i < sorted.len() && sorted[i] == unsorted[k];
    assert(sorted[i].element_size() == unsorted[k].element_size());
}

/// The empty set of components: the empty archetype, with no component
/// types, no columns and no values.
impl ComponentSet for () {
    open spec fn component_count() -> nat {
        0
    }

    open spec fn lists_types(ids: Seq<TypeId>) -> bool {
        ids.len() == 0
    }

    open spec fn erases_into(self, row: Seq<ErasedValue>) -> bool {
        row.len() == 0
    }

    fn type_ids() -> (ids: Vec<TypeId>) {
        Vec::new()
    }

    fn push_into(self, columns: &mut Vec<BlobVec>) -> (pushed: bool) {
        let row: Vec<ErasedValue> = Vec::new();
        proof {
            assert(self.erases_into(row@));
        }
        push_row(columns, row)
    }

    fn create_column() -> (columns: Vec<BlobVec>) {
        let columns: Vec<BlobVec> = Vec::new();
        assert(column_types(columns@).len() == 0);
        columns
    }
}

impl<A: Component + 'static> ComponentSet for (A,) {
    open spec fn component_count() -> nat {
        1
    }

    open spec fn lists_types(ids: Seq<TypeId>) -> bool {
        exists|ta: TypeId|
            #![trigger is_type_id_of::<A>(ta)]
            is_type_id_of::<A>(ta) && ids.to_multiset() == seq![ta].to_multiset()
    }

    open spec fn erases_into(self, row: Seq<ErasedValue>) -> bool {
        row.len() == 1 && erases_to(self.0, row[0]) && is_type_id_of::<A>(erased_type(row[0]))
    }

    fn type_ids() -> (ids: Vec<TypeId>) {
        let mut ids: Vec<TypeId> = Vec::new();
        let ta = type_id_of::<A>();
        proof {
            lemma_type_id_of::<A>(ta);
        }
        ids.push(ta);
        let ghost unsorted = ids@;
        let sorted = sort_type_ids(ids);
        proof {
            assert(unsorted =~= seq![ta]);
        }
        sorted
    }

    fn push_into(self, columns: &mut Vec<BlobVec>) -> (pushed: bool) {
        let ghost whole = self;
        let (a,) = self;
        let mut row: Vec<ErasedValue> = Vec::new();
        let ea = erase(a);
        proof {
            lemma_erase(whole.0, ea);
        }
        row.push(ea);
        proof {
            assert(row@ =~= seq![ea]);
            assert(whole.erases_into(row@));
        }
        push_row(columns, row)
    }

    /// Each component type gets a column sized for its values.
    fn create_column() -> (columns: Vec<BlobVec>)
        ensures
            has_column_of_size(columns@, vstd::layout::size_of::<A>()),
    {
        let mut columns: Vec<BlobVec> = Vec::new();
        columns.push(BlobVec::new::<A>());
        let ghost unsorted = columns@;
        let sorted = sort_columns(columns);
        proof {
            lemma_sorted_columns_keep_sizes(unsorted, sorted@, 0);
            assert(column_types(unsorted) =~= seq![unsorted[0].stored_type()]);
        }
        sorted
    }
}

impl<A: Component + 'static, B: Component + 'static> ComponentSet for (A, B) {
    open spec fn component_count() -> nat {
        2
    }

    open spec fn lists_types(ids: Seq<TypeId>) -> bool {
        exists|ta: TypeId, tb: TypeId|
            #![trigger is_type_id_of::<A>(ta), is_type_id_of::<B>(tb)]
            is_type_id_of::<A>(ta) && is_type_id_of::<B>(tb) && ids.to_multiset() == seq![ta, tb].to_multiset()
    }

    open spec fn erases_into(self, row: Seq<ErasedValue>) -> bool {
        row.len() == 2 && erases_to(self.0, row[0]) && is_type_id_of::<A>(erased_type(row[0])) && erases_to(self.1, row[1]) && is_type_id_of::<B>(erased_type(row[1]))
    }

    fn type_ids() -> (ids: Vec<TypeId>) {
        let mut ids: Vec<TypeId> = Vec::new();
        let ta = type_id_of::<A>();
        proof {
            lemma_type_id_of::<A>(ta);
        }
        ids.push(ta);
        let tb = type_id_of::<B>();
        proof {
            lemma_type_id_of::<B>(tb);
        }
        ids.push(tb);
        let ghost unsorted = ids@;
        let sorted = sort_type_ids(ids);
        proof {
            assert(unsorted =~= seq![ta, tb]);
        }
        sorted
    }

    fn push_into(self, columns: &mut Vec<BlobVec>) -> (pushed: bool) {
        let ghost whole = self;
        let (a, b) = self;
        let mut row: Vec<ErasedValue> = Vec::new();
        let ea = erase(a);
        proof {
            lemma_erase(whole.0, ea);
        }
        row.push(ea);
        let eb = erase(b);
        proof {
            lemma_erase(whole.1, eb);
        }
        row.push(eb);
        proof {
            assert(row@ =~= seq![ea, eb]);
            assert(whole.erases_into(row@));
        }
        push_row(columns, row)
    }

    /// Each component type gets a column sized for its values.
    fn create_column() -> (columns: Vec<BlobVec>)
        ensures
            has_column_of_size(columns@, vstd::layout::size_of::<A>()),
            has_column_of_size(columns@, vstd::layout::size_of::<B>()),
    {
        let mut columns: Vec<BlobVec> = Vec::new();
        columns.push(BlobVec::new::<A>());
        columns.push(BlobVec::new::<B>());
        let ghost unsorted = columns@;
        let sorted = sort_columns(columns);
        proof {
            lemma_sorted_columns_keep_sizes(unsorted, sorted@, 0);
            lemma_sorted_columns_keep_sizes(unsorted, sorted@, 1);
            assert(column_types(unsorted) =~= seq![unsorted[0].stored_type(), unsorted[1].stored_type()]);
        }
        sorted
    }
}

impl<A: Component + 'static, B: Component + 'static, C: Component + 'static> ComponentSet for (A, B, C) {
    open spec fn component_count() -> nat {
        3
    }

    open spec fn lists_types(ids: Seq<TypeId>) -> bool {
        exists|ta: TypeId, tb: TypeId, tc: TypeId|
            #![trigger is_type_id_of::<A>(ta), is_type_id_of::<B>(tb), is_type_id_of::<C>(tc)]
            is_type_id_of::<A>(ta) && is_type_id_of::<B>(tb) && is_type_id_of::<C>(tc) && ids.to_multiset() == seq![ta, tb, tc].to_multiset()
    }

    open spec fn erases_into(self, row: Seq<ErasedValue>) -> bool {
        row.len() == 3 && erases_to(self.0, row[0]) && is_type_id_of::<A>(erased_type(row[0])) && erases_to(self.1, row[1]) && is_type_id_of::<B>(erased_type(row[1])) && erases_to(self.2, row[2]) && is_type_id_of::<C>(erased_type(row[2]))
    }

    fn type_ids() -> (ids: Vec<TypeId>) {
        let mut ids: Vec<TypeId> = Vec::new();
        let ta = type_id_of::<A>();
        proof {
            lemma_type_id_of::<A>(ta);
        }
        ids.push(ta);
        let tb = type_id_of::<B>();
        proof {
            lemma_type_id_of::<B>(tb);
        }
        ids.push(tb);
        let tc = type_id_of::<C>();
        proof {
            lemma_type_id_of::<C>(tc);
        }
        ids.push(tc);
        let ghost unsorted = ids@;
        let sorted = sort_type_ids(ids);
        proof {
            assert(unsorted =~= seq![ta, tb, tc]);
        }
        sorted
    }

    fn push_into(self, columns: &mut Vec<BlobVec>) -> (pushed: bool) {
        let ghost whole = self;
        let (a, b, c) = self;
        let mut row: Vec<ErasedValue> = Vec::new();
        let ea = erase(a);
        proof {
            lemma_erase(whole.0, ea);
        }
        row.push(ea);
        let eb = erase(b);
        proof {
            lemma_erase(whole.1, eb);
        }
        row.push(eb);
        let ec = erase(c);
        proof {
            lemma_erase(whole.2, ec);
        }
        row.push(ec);
        proof {
            assert(row@ =~= seq![ea, eb, ec]);
            assert(whole.erases_into(row@));
        }
        push_row(columns, row)
    }

    /// Each component type gets a column sized for its values.
    fn create_column() -> (columns: Vec<BlobVec>)
        ensures
            has_column_of_size(columns@, vstd::layout::size_of::<A>()),
            has_column_of_size(columns@, vstd::layout::size_of::<B>()),
            has_column_of_size(columns@, vstd::layout::size_of::<C>()),
    {
        let mut columns: Vec<BlobVec> = Vec::new();
        columns.push(BlobVec::new::<A>());
        columns.push(BlobVec::new::<B>());
        columns.push(BlobVec::new::<C>());
        let ghost unsorted = columns@;
        let sorted = sort_columns(columns);
        proof {
            lemma_sorted_columns_keep_sizes(unsorted, sorted@, 0);
            lemma_sorted_columns_keep_sizes(unsorted, sorted@, 1);
            lemma_sorted_columns_keep_sizes(unsorted, sorted@, 2);
            assert(column_types(unsorted) =~= seq![unsorted[0].stored_type(), unsorted[1].stored_type(), unsorted[2].stored_type()]);
        }
        sorted
    }
}

impl<A: Component + 'static, B: Component + 'static, C: Component + 'static, D: Component + 'static> ComponentSet for (A, B, C, D) {
    open spec fn component_count() -> nat {
        4
    }

    open spec fn lists_types(ids: Seq<TypeId>) -> bool {
        exists|ta: TypeId, tb: TypeId, tc: TypeId, td: TypeId|
            #![trigger is_type_id_of::<A>(ta), is_type_id_of::<B>(tb), is_type_id_of::<C>(tc), is_type_id_of::<D>(td)]
            is_type_id_of::<A>(ta) && is_type_id_of::<B>(tb) && is_type_id_of::<C>(tc) && is_type_id_of::<D>(td) && ids.to_multiset() == seq![ta, tb, tc, td].to_multiset()
    }

    open spec fn erases_into(self, row: Seq<ErasedValue>) -> bool {
        row.len() == 4 && erases_to(self.0, row[0]) && is_type_id_of::<A>(erased_type(row[0])) && erases_to(self.1, row[1]) && is_type_id_of::<B>(erased_type(row[1])) && erases_to(self.2, row[2]) && is_type_id_of::<C>(erased_type(row[2])) && erases_to(self.3, row[3]) && is_type_id_of::<D>(erased_type(row[3]))
    }

    fn type_ids() -> (ids: Vec<TypeId>) {
        let mut ids: Vec<TypeId> = Vec::new();
        let ta = type_id_of::<A>();
        proof {
            lemma_type_id_of::<A>(ta);
        }
        ids.push(ta);
        let tb = type_id_of::<B>();
        proof {
            lemma_type_id_of::<B>(tb);
        }
        ids.push(tb);
        let tc = type_id_of::<C>();
        proof {
            lemma_type_id_of::<C>(tc);
        }
        ids.push(tc);
        let td = type_id_of::<D>();
        proof {
            lemma_type_id_of::<D>(td);
        }
        ids.push(td);
        let ghost unsorted = ids@;
        let sorted = sort_type_ids(ids);
        proof {
            assert(unsorted =~= seq![ta, tb, tc, td]);
        }
        sorted
    }

    fn push_into(self, columns: &mut Vec<BlobVec>) -> (pushed: bool) {
        let ghost whole = self;
        let (a, b, c, d) = self;
        let mut row: Vec<ErasedValue> = Vec::new();
        let ea = erase(a);
        proof {
            lemma_erase(whole.0, ea);
        }
        row.push(ea);
        let eb = erase(b);
        proof {
            lemma_erase(whole.1, eb);
        }
        row.push(eb);
        let ec = erase(c);
        proof {
            lemma_erase(whole.2, ec);
        }
        row.push(ec);
        let ed = erase(d);
        proof {
            lemma_erase(whole.3, ed);
        }
        row.push(ed);
        proof {
            assert(row@ =~= seq![ea, eb, ec, ed]);
            assert(whole.erases_into(row@));
        }
        push_row(columns, row)
    }

    /// Each component type gets a column sized for its values.
    fn create_column() -> (columns: Vec<BlobVec>)
        ensures
            has_column_of_size(columns@, vstd::layout::size_of::<A>()),
            has_column_of_size(columns@, vstd::layout::size_of::<B>()),
            has_column_of_size(columns@, vstd::layout::size_of::<C>()),
            has_column_of_size(columns@, vstd::layout::size_of::<D>()),
    {
        let mut columns: Vec<BlobVec> = Vec::new();
        columns.push(BlobVec::new::<A>());
        columns.push(BlobVec::new::<B>());
        columns.push(BlobVec::new::<C>());
        columns.push(BlobVec::new::<D>());
        let ghost unsorted = columns@;
        let sorted = sort_columns(columns);
        proof {
            lemma_sorted_columns_keep_sizes(unsorted, sorted@, 0);
            lemma_sorted_columns_keep_sizes(unsorted, sorted@, 1);
            lemma_sorted_columns_keep_sizes(unsorted, sorted@, 2);
            lemma_sorted_columns_keep_sizes(unsorted, sorted@, 3);
            assert(column_types(unsorted) =~= seq![unsorted[0].stored_type(), unsorted[1].stored_type(), unsorted[2].stored_type(), unsorted[3].stored_type()]);
        }
        sorted
    }
}

impl<A: Component + 'static, B: Component + 'static, C: Component + 'static, D: Component + 'static, E: Component + 'static> ComponentSet for (A, B, C, D, E) {
    open spec fn component_count() -> nat {
        5
    }

    open spec fn lists_types(ids: Seq<TypeId>) -> bool {
        exists|ta: TypeId, tb: TypeId, tc: TypeId, td: TypeId, te: TypeId|
            #![trigger is_type_id_of::<A>(ta), is_type_id_of::<B>(tb), is_type_id_of::<C>(tc), is_type_id_of::<D>(td), is_type_id_of::<E>(te)]
            is_type_id_of::<A>(ta) && is_type_id_of::<B>(tb) && is_type_id_of::<C>(tc) && is_type_id_of::<D>(td) && is_type_id_of::<E>(te) && ids.to_multiset() == seq![ta, tb, tc, td, te].to_multiset()
    }

    open spec fn erases_into(self, row: Seq<ErasedValue>) -> bool {
        row.len() == 5 && erases_to(self.0, row[0]) && is_type_id_of::<A>(erased_type(row[0])) && erases_to(self.1, row[1]) && is_type_id_of::<B>(erased_type(row[1])) && erases_to(self.2, row[2]) && is_type_id_of::<C>(erased_type(row[2])) && erases_to(self.3, row[3]) && is_type_id_of::<D>(erased_type(row[3])) && erases_to(self.4, row[4]) && is_type_id_of::<E>(erased_type(row[4]))
    }

    fn type_ids() -> (ids: Vec<TypeId>) {
        let mut ids: Vec<TypeId> = Vec::new();
        let ta = type_id_of::<A>();
        proof {
            lemma_type_id_of::<A>(ta);
        }
        ids.push(ta);
        let tb = type_id_of::<B>();
        proof {
            lemma_type_id_of::<B>(tb);
        }
        ids.push(tb);
        let tc = type_id_of::<C>();
        proof {
            lemma_type_id_of::<C>(tc);
        }
        ids.push(tc);
        let td = type_id_of::<D>();
        proof {
            lemma_type_id_of::<D>(td);
        }
        ids.push(td);
        let te = type_id_of::<E>();
        proof {
            lemma_type_id_of::<E>(te);
        }
        ids.push(te);
        let ghost unsorted = ids@;
        let sorted = sort_type_ids(ids);
        proof {
            assert(unsorted =~= seq![ta, tb, tc, td, te]);
        }
        sorted
    }

    fn push_into(self, columns: &mut Vec<BlobVec>) -> (pushed: bool) {
        let ghost whole = self;
        let (a, b, c, d, e) = self;
        let mut row: Vec<ErasedValue> = Vec::new();
        let ea = erase(a);
        proof {
            lemma_erase(whole.0, ea);
        }
        row.push(ea);
        let eb = erase(b);
        proof {
            lemma_erase(whole.1, eb);
        }
        row.push(eb);
        let ec = erase(c);
        proof {
            lemma_erase(whole.2, ec);
        }
        row.push(ec);
        let ed = erase(d);
        proof {
            lemma_erase(whole.3, ed);
        }
        row.push(ed);
        let ee = erase(e);
        proof {
            lemma_erase(whole.4, ee);
        }
        row.push(ee);
        proof {
            assert(row@ =~= seq![ea, eb, ec, ed, ee]);
            assert(whole.erases_into(row@));
        }
        push_row(columns, row)
    }

    /// Each component type gets a column sized for its values.
    fn create_column() -> (columns: Vec<BlobVec>)
        ensures
            has_column_of_size(columns@, vstd::layout::size_of::<A>()),
            has_column_of_size(columns@, vstd::layout::size_of::<B>()),
            has_column_of_size(columns@, vstd::layout::size_of::<C>()),
            has_column_of_size(columns@, vstd::layout::size_of::<D>()),
            has_column_of_size(columns@, vstd::layout::size_of::<E>()),
    {
        let mut columns: Vec<BlobVec> = Vec::new();
        columns.push(BlobVec::new::<A>());
        columns.push(BlobVec::new::<B>());
        columns.push(BlobVec::new::<C>());
        columns.push(BlobVec::new::<D>());
        columns.push(BlobVec::new::<E>());
        let ghost unsorted = columns@;
        let sorted = sort_columns(columns);
        proof {
            lemma_sorted_columns_keep_sizes(unsorted, sorted@, 0);
            lemma_sorted_columns_keep_sizes(unsorted, sorted@, 1);
            lemma_sorted_columns_keep_sizes(unsorted, sorted@, 2);
            lemma_sorted_columns_keep_sizes(unsorted, sorted@, 3);
            lemma_sorted_columns_keep_sizes(unsorted, sorted@, 4);
            assert(column_types(unsorted) =~= seq![unsorted[0].stored_type(), unsorted[1].stored_type(), unsorted[2].stored_type(), unsorted[3].stored_type(), unsorted[4].stored_type()]);
        }
        sorted
    }
}

impl<A: Component + 'static, B: Component + 'static, C: Component + 'static, D: Component + 'static, E: Component + 'static, F: Component + 'static> ComponentSet for (A, B, C, D, E, F) {
    open spec fn component_count() -> nat {
        6
    }

    open spec fn lists_types(ids: Seq<TypeId>) -> bool {
        exists|ta: TypeId, tb: TypeId, tc: TypeId, td: TypeId, te: TypeId, tf: TypeId|
            #![trigger is_type_id_of::<A>(ta), is_type_id_of::<B>(tb), is_type_id_of::<C>(tc), is_type_id_of::<D>(td), is_type_id_of::<E>(te), is_type_id_of::<F>(tf)]
            is_type_id_of::<A>(ta) && is_type_id_of::<B>(tb) && is_type_id_of::<C>(tc) && is_type_id_of::<D>(td) && is_type_id_of::<E>(te) && is_type_id_of::<F>(tf) && ids.to_multiset() == seq![ta, tb, tc, td, te, tf].to_multiset()
    }

    open spec fn erases_into(self, row: Seq<ErasedValue>) -> bool {
        row.len() == 6 && erases_to(self.0, row[0]) && is_type_id_of::<A>(erased_type(row[0])) && erases_to(self.1, row[1]) && is_type_id_of::<B>(erased_type(row[1])) && erases_to(self.2, row[2]) && is_type_id_of::<C>(erased_type(row[2])) && erases_to(self.3, row[3]) && is_type_id_of::<D>(erased_type(row[3])) && erases_to(self.4, row[4]) && is_type_id_of::<E>(erased_type(row[4])) && erases_to(self.5, row[5]) && is_type_id_of::<F>(erased_type(row[5]))
    }

    fn type_ids() -> (ids: Vec<TypeId>) {
        let mut ids: Vec<TypeId> = Vec::new();
        let ta = type_id_of::<A>();
        proof {
            lemma_type_id_of::<A>(ta);
        }
        ids.push(ta);
        let tb = type_id_of::<B>();
        proof {
            lemma_type_id_of::<B>(tb);
        }
        ids.push(tb);
        let tc = type_id_of::<C>();
        proof {
            lemma_type_id_of::<C>(tc);
        }
        ids.push(tc);
        let td = type_id_of::<D>();
        proof {
            lemma_type_id_of::<D>(td);
        }
        ids.push(td);
        let te = type_id_of::<E>();
        proof {
            lemma_type_id_of::<E>(te);
        }
        ids.push(te);
        let tf = type_id_of::<F>();
        proof {
            lemma_type_id_of::<F>(tf);
        }
        ids.push(tf);
        let ghost unsorted = ids@;
        let sorted = sort_type_ids(ids);
        proof {
            assert(unsorted =~= seq![ta, tb, tc, td, te, tf]);
        }
        sorted
    }

    fn push_into(self, columns: &mut Vec<BlobVec>) -> (pushed: bool) {
        let ghost whole = self;
        let (a, b, c, d, e, f) = self;
        let mut row: Vec<ErasedValue> = Vec::new();
        let ea = erase(a);
        proof {
            lemma_erase(whole.0, ea);
        }
        row.push(ea);
        let eb = erase(b);
        proof {
            lemma_erase(whole.1, eb);
        }
        row.push(eb);
        let ec = erase(c);
        proof {
            lemma_erase(whole.2, ec);
        }
        row.push(ec);
        let ed = erase(d);
        proof {
            lemma_erase(whole.3, ed);
        }
        row.push(ed);
        let ee = erase(e);
        proof {
            lemma_erase(whole.4, ee);
        }
        row.push(ee);
        let ef = erase(f);
        proof {
            lemma_erase(whole.5, ef);
        }
        row.push(ef);
        proof {
            assert(row@ =~= seq![ea, eb, ec, ed, ee, ef]);
            assert(whole.erases_into(row@));
        }
        push_row(columns, row)
    }

    /// Each component type gets a column sized for its values.
    fn create_column() -> (columns: Vec<BlobVec>)
        ensures
            has_column_of_size(columns@, vstd::layout::size_of::<A>()),
            has_column_of_size(columns@, vstd::layout::size_of::<B>()),
            has_column_of_size(columns@, vstd::layout::size_of::<C>()),
            has_column_of_size(columns@, vstd::layout::size_of::<D>()),
            has_column_of_size(columns@, vstd::layout::size_of::<E>()),
            has_column_of_size(columns@, vstd::layout::size_of::<F>()),
    {
        let mut columns: Vec<BlobVec> = Vec::new();
        columns.push(BlobVec::new::<A>());
        columns.push(BlobVec::new::<B>());
        columns.push(BlobVec::new::<C>());
        columns.push(BlobVec::new::<D>());
        columns.push(BlobVec::new::<E>());
        columns.push(BlobVec::new::<F>());
        let ghost unsorted = columns@;
        let sorted = sort_columns(columns);
        proof {
            lemma_sorted_columns_keep_sizes(unsorted, sorted@, 0);
            lemma_sorted_columns_keep_sizes(unsorted, sorted@, 1);
            lemma_sorted_columns_keep_sizes(unsorted, sorted@, 2);
            lemma_sorted_columns_keep_sizes(unsorted, sorted@, 3);
            lemma_sorted_columns_keep_sizes(unsorted, sorted@, 4);
            lemma_sorted_columns_keep_sizes(unsorted, sorted@, 5);
            assert(column_types(unsorted) =~= seq![unsorted[0].stored_type(), unsorted[1].stored_type(), unsorted[2].stored_type(), unsorted[3].stored_type(), unsorted[4].stored_type(), unsorted[5].stored_type()]);
        }
        sorted
    }
}

} // verus!
