//! The primary table: row identifier to row value.
//!
//! Rows lie densely in a vector, in no order that callers may rely on, and a
//! concurrent hash map of the `dashmap` crate finds the slot of an identifier.
//! When a row leaves, the last row moves into its slot.
use vstd::prelude::*;
use dashmap::DashMap;
use std::collections::hash_map::RandomState;
use crate::id::{Indexed, RowId};

verus! {

/// `dashmap::DashMap`, a hash map that locks by shard. Nothing is claimed of
/// the type itself; what a map holds is `slot_map`.
#[verifier::external_type_specification]
#[verifier::external_body]
#[verifier::reject_recursive_types(K)]
#[verifier::reject_recursive_types(V)]
#[verifier::reject_recursive_types(S)]
pub struct ExDashMap<K, V, S>(DashMap<K, V, S>);

/// What a `DashMap` from identifier to slot holds: the pairs that were
/// inserted and not removed or overwritten since.
pub uninterp spec fn slot_map(m: DashMap<usize, usize, RandomState>) -> Map<usize, usize>;

/// `DashMap::new`: a map that holds nothing.
#[verifier::external_body]
fn slots_new() -> (m: DashMap<usize, usize, RandomState>)
    ensures
        slot_map(m) == (Map::<usize, usize>::empty()),
{
    DashMap::new()
}

/// `DashMap::get`, with the value copied out of the guard that it returns:
/// the slot stored under `id`, if there is one. The guard is gone when the
/// call returns, so no lock on the map is held afterwards.
#[verifier::external_body]
fn slots_get(m: &DashMap<usize, usize, RandomState>, id: usize) -> (slot: Option<usize>)
    ensures
        slot == (if slot_map(*m).contains_key(id) {
            Some(slot_map(*m)[id])
        } else {
            None
        }),
{
    m.get(&id).as_deref().copied()
}

/// `DashMap::insert`, whose result is dropped: afterwards `id` maps to `slot`
/// and every other identifier maps to what it mapped to before. The map is
/// taken by `&mut`, though `DashMap` would do with `&`, so that no one else
/// can change it meanwhile.
#[verifier::external_body]
fn slots_insert(m: &mut DashMap<usize, usize, RandomState>, id: usize, slot: usize)
    ensures
        slot_map(*final(m)) == slot_map(*old(m)).insert(id, slot),
{
    m.insert(id, slot);
}

/// `DashMap::remove`, which returns the pair it removed; the key is dropped
/// here. Afterwards `id` maps to nothing and every other identifier maps to
/// what it mapped to before; returns the slot that `id` mapped to before, if
/// there was one.
#[verifier::external_body]
fn slots_remove(m: &mut DashMap<usize, usize, RandomState>, id: usize) -> (prev: Option<usize>)
    ensures
        slot_map(*final(m)) == slot_map(*old(m)).remove(id),
        prev == (if slot_map(*old(m)).contains_key(id) {
            Some(slot_map(*old(m))[id])
        } else {
            None
        }),
{
    m.remove(&id).map(|entry| entry.1)
}

/// The rows that `order` lists before position `n`, as a map.
pub open spec fn rows_before<V>(order: Seq<Indexed<V>>, n: int) -> Map<RowId, V> {
    Map::new(
        |id: RowId| exists|i: int| 0 <= i < n && (#[trigger] order[i]).id == id,
        |id: RowId| order[choose|i: int| 0 <= i < n && (#[trigger] order[i]).id == id].value,
    )
}

/// The rows of a store, each under its identifier.
pub struct RowTable<V> {
    slot_of: DashMap<usize, usize, RandomState>,
    entries: Vec<Indexed<V>>,
}

impl<V> View for RowTable<V> {
    type V = Map<RowId, V>;

    /// The rows as a map from identifier to value.
    closed spec fn view(&self) -> Map<RowId, V> {
        Map::new(
            |id: RowId| slot_map(self.slot_of).contains_key(id.0),
            |id: RowId| self.entries@[slot_map(self.slot_of)[id.0] as int].value,
        )
    }
}

impl<V> RowTable<V> {
    /// The slot map and the vector of rows describe each other.
    pub closed spec fn wf(&self) -> bool {
        &&& forall|i: int|
            0 <= i < self.entries@.len() ==> {
                let id = (#[trigger] self.entries@[i]).id.0;
                slot_map(self.slot_of).contains_key(id) && slot_map(self.slot_of)[id] == i
            }
        &&& forall|id: usize| #[trigger]
            slot_map(self.slot_of).contains_key(id) ==> {
                let slot = slot_map(self.slot_of)[id];
                slot < self.entries@.len() && self.entries@[slot as int].id.0 == id
            }
    }

    /// The rows in the order in which `row` and `ids` walk them.
    pub closed spec fn order(&self) -> Seq<Indexed<V>> {
        self.entries@
    }

    /// `order` lists each row of the table once, and nothing else.
    pub proof fn lemma_order(&self)
        requires
            self.wf(),
        ensures
            forall|i: int|
                0 <= i < self.order().len() ==> {
                    let row = #[trigger] self.order()[i];
                    self@.contains_key(row.id) && self@[row.id] == row.value
                },
            forall|i: int, j: int|
                0 <= i < j < self.order().len() ==> (#[trigger] self.order()[i]).id != (
                #[trigger] self.order()[j]).id,
            forall|id: RowId| #[trigger]
                self@.contains_key(id) ==> exists|i: int|
                    0 <= i < self.order().len() && (#[trigger] self.order()[i]).id == id,
    {
        assert forall|id: RowId| #[trigger] self@.contains_key(id) implies exists|i: int|
            0 <= i < self.order().len() && (#[trigger] self.order()[i]).id == id by {
            let slot = slot_map(self.slot_of)[id.0] as int;
            assert(self.order()[slot].id == id);
        }
    }

    /// Walking `order` adds one row at a time, each under an identifier not
    /// met before, and ends with all rows of the table.
    pub proof fn lemma_rows_before(&self, n: int)
        requires
            self.wf(),
            0 <= n <= self.order().len(),
        ensures
            rows_before(self.order(), 0) == Map::<RowId, V>::empty(),
            rows_before(self.order(), self.order().len() as int) == self@,
            n < self.order().len() ==> {
                let row = self.order()[n];
                &&& !rows_before(self.order(), n).contains_key(row.id)
                &&& rows_before(self.order(), n + 1) == rows_before(self.order(), n).insert(
                    row.id,
                    row.value,
                )
            },
    {
    }

    /// A table without rows.
    pub fn new() -> (t: Self)
        ensures
            t.wf(),
            t@ == Map::<RowId, V>::empty(),
            t.order().len() == 0,
    {
        RowTable { slot_of: slots_new(), entries: Vec::new() }
    }

    /// How many rows the table holds.
    pub fn len(&self) -> (n: usize)
        ensures
            n == self.order().len(),
    {
        self.entries.len()
    }

    /// The row in position `i` of `order`.
    pub fn row(&self, i: usize) -> (r: &Indexed<V>)
        requires
            i < self.order().len(),
        ensures
            *r == self.order()[i as int],
    {
        &self.entries[i]
    }

    /// The value stored under `id`, if there is one.
    pub fn get(&self, id: RowId) -> (r: Option<&V>)
        requires
            self.wf(),
        ensures
            r == (if self@.contains_key(id) {
                Some(&self@[id])
            } else {
                None
            }),
    {
        match slots_get(&self.slot_of, id.0) {
            Some(slot) => Some(&self.entries[slot].value),
            None => None,
        }
    }

    /// Stores `value` under `id` and returns the value that was there before,
    /// if there was one.
    pub fn insert(&mut self, id: RowId, value: V) -> (prev: Option<V>)
        requires
            old(self).wf(),
        ensures
            final(self).wf(),
            final(self)@ == old(self)@.insert(id, value),
            prev == (if old(self)@.contains_key(id) {
                Some(old(self)@[id])
            } else {
                None
            }),
    {
        let entry = Indexed::new(id, value);
        match slots_get(&self.slot_of, id.0) {
            Some(slot) => {
                self.entries.push(entry);
                let before = self.entries.swap_remove(slot);
                Some(before.into_value())
            },
            None => {
                let slot: usize = self.entries.len();
                self.entries.push(entry);
                slots_insert(&mut self.slot_of, id.0, slot);
                None
            },
        }
    }

    /// Takes the row stored under `id` out of the table and returns its value,
    /// if there was one.
    pub fn remove(&mut self, id: RowId) -> (prev: Option<V>)
        requires
            old(self).wf(),
        ensures
            final(self).wf(),
            final(self)@ == old(self)@.remove(id),
            prev == (if old(self)@.contains_key(id) {
                Some(old(self)@[id])
            } else {
                None
            }),
    {
        match slots_remove(&mut self.slot_of, id.0) {
            Some(slot) => {
                let gone = self.entries.swap_remove(slot);
                if slot < self.entries.len() {
                    let moved: usize = self.entries[slot].id.0;
                    slots_insert(&mut self.slot_of, moved, slot);
                }
                Some(gone.into_value())
            },
            None => {
                None
            },
        }
    }

    /// The identifiers of all rows, in the order of `order`.
    pub fn ids(&self) -> (r: Vec<RowId>)
        ensures
            r@ == self.order().map_values(|row: Indexed<V>| row.id),
    {
        let mut r: Vec<RowId> = Vec::new();
        let mut i: usize = 0;
        while i < self.entries.len()
            invariant
                i <= self.entries@.len(),
                r@ == self.entries@.take(i as int).map_values(|row: Indexed<V>| row.id),
            decreases self.entries@.len() - i,
        {
            r.push(self.entries[i].id);
            i += 1;
        }
        r
    }
}

} // verus!
