//! The store: rows, and the indexes that follow them.
use vstd::prelude::*;
use vstd::std_specs::hash::*;
use std::hash::Hash;
use crate::id::{Indexed, RowId};
use crate::index::{Index, IndexId, IndexRead, IndexWrite, Indexable};
use crate::key_fn::{is_key_function, KeyFn, OneKey, ValueKey, ValueKeys};
use crate::row_table::{rows_before, RowTable};

verus! {

/// A table of rows and any number of indexes over them, all with keys of one
/// type.
///
/// Every row that enters or leaves the table enters or leaves each index in
/// the same call, so between calls each index holds exactly the rows of the
/// table, each under the keys that the index's key function names for it.
///
/// That is so of the indexes that the store maintains. `drop_indexes` ends
/// the maintenance of all that are registered; they stay in the store, as
/// they were, and can be read until the store itself is dropped.
#[verifier::reject_recursive_types(RowT)]
#[verifier::reject_recursive_types(KeyT)]
pub struct HashSync<RowT, KeyT> {
    rows: RowTable<RowT>,
    next_id: RowId,
    /// Every index that was ever registered: the one with identifier `i` is
    /// `indexes[i]`.
    indexes: Vec<IndexWrite<KeyT, RowT>>,
    /// The indexes from this position on follow the table. Those before it
    /// were dropped: they can still be read, and stay as they were.
    live_from: usize,
}

impl<RowT, KeyT: Hash + Eq> HashSync<RowT, KeyT> {
    /// The rows of the table.
    pub closed spec fn rows(&self) -> Map<RowId, RowT> {
        self.rows@
    }

    /// The identifier that the next `insert` gives out.
    pub closed spec fn spec_next_id(&self) -> RowId {
        self.next_id
    }

    /// The identifier that the next index registered gets.
    pub closed spec fn spec_next_index_id(&self) -> IndexId {
        IndexId(self.indexes@.len() as usize)
    }

    /// Whether `id` names an index that the store maintains.
    pub closed spec fn spec_has_index(&self, id: IndexId) -> bool {
        self.live_from <= id.0 < self.indexes@.len()
    }

    /// Whether `id` names an index that was dropped: the store maintains it no
    /// more, and it can still be read.
    pub closed spec fn spec_has_detached(&self, id: IndexId) -> bool {
        id.0 < self.live_from
    }

    /// The index that `id` names, maintained or dropped.
    pub closed spec fn index_at(&self, id: IndexId) -> Index<KeyT, RowT> {
        self.indexes@[id.0 as int].index()
    }

    /// The parts of the store are sound by themselves.
    pub closed spec fn parts_wf(&self) -> bool {
        &&& self.rows.wf()
        &&& self.live_from <= self.indexes@.len() <= usize::MAX
    }

    /// Every row was given an identifier below `next_id` and every index one
    /// below `next_index_id`; every index is well-formed and knows its
    /// identifier; and every index that the store maintains holds exactly the
    /// rows of the table.
    pub open spec fn wf(&self) -> bool {
        &&& self.parts_wf()
        &&& forall|id: RowId| #[trigger] self.rows().contains_key(id) ==> id.0 < self.next_id().0
        &&& self.indexes_wf(self.rows())
    }

    /// What `wf` says of the indexes, with `rows` for the rows of the table.
    pub open spec fn indexes_wf(&self, rows: Map<RowId, RowT>) -> bool {
        &&& forall|id: IndexId|
            #![trigger self.has_index(id)]
            #![trigger self.has_detached(id)]
            self.has_index(id) || self.has_detached(id) ==> {
                &&& id.0 < self.next_index_id().0
                &&& !(self.has_index(id) && self.has_detached(id))
                &&& self.index_at(id).wf()
                &&& self.index_at(id).id() == id
            }
        &&& forall|id: IndexId| #[trigger] self.has_index(id) ==> self.index_at(id).reflects(rows)
    }

    /// Whether the two stores have the same indexes: the maintained ones with
    /// key functions that answer alike, the dropped ones unchanged.
    pub open spec fn same_indexes_as(&self, other: &Self) -> bool {
        &&& self.next_index_id() == other.next_index_id()
        &&& forall|id: IndexId| self.has_index(id) == other.has_index(id)
        &&& forall|id: IndexId| self.has_detached(id) == other.has_detached(id)
        &&& forall|id: IndexId| #[trigger]
            self.has_index(id) ==> self.index_at(id).same_keys_as(&other.index_at(id))
        &&& forall|id: IndexId| #[trigger]
            self.has_detached(id) ==> self.index_at(id) == other.index_at(id)
    }

    /// Whether the store is what `before` becomes when an index is registered
    /// under `id`: the index is there, under the identifier that was next and
    /// named no index, and nothing else has changed.
    pub open spec fn adds_index(&self, before: &Self, id: IndexId) -> bool {
        &&& self.wf()
        &&& id == before.next_index_id()
        &&& self.next_index_id().0 == id.0 + 1
        &&& self.has_index(id)
        &&& !before.has_index(id)
        &&& !before.has_detached(id)
        &&& forall|other: IndexId|
            self.has_index(other) == (before.has_index(other) || other == id)
        &&& forall|other: IndexId| self.has_detached(other) == before.has_detached(other)
        &&& forall|other: IndexId|
            #![trigger before.has_index(other)]
            #![trigger before.has_detached(other)]
            before.has_index(other) || before.has_detached(other) ==> self.index_at(other)
                == before.index_at(other)
        &&& self.rows() == before.rows()
        &&& self.next_id() == before.next_id()
    }

    /// The state of a walk over the maintained indexes that takes each from
    /// holding `todo` to holding `done`: those before position `n` hold
    /// `done`, the others still `todo`, and nothing else differs from
    /// `before`.
    spec fn fanned_out(
        &self,
        before: &Self,
        n: int,
        done: Map<RowId, RowT>,
        todo: Map<RowId, RowT>,
    ) -> bool {
        &&& self.indexes@.len() == before.indexes@.len()
        &&& self.live_from == before.live_from
        &&& self.live_from <= self.indexes@.len() <= usize::MAX
        &&& self.next_id == before.next_id
        &&& forall|i: int|
            0 <= i < self.indexes@.len() ==> {
                let index = (#[trigger] self.indexes@[i]).index();
                &&& index.wf()
                &&& index.id() == IndexId(i as usize)
                &&& i < self.live_from ==> self.indexes@[i] == before.indexes@[i]
                &&& i >= self.live_from ==> index.same_keys_as(&before.indexes@[i].index())
                    && index.reflects(if i < n { done } else { todo })
            }
    }

    /// A store that is well-formed up to its rows is at the start of any
    /// walk over its indexes.
    proof fn lemma_walk_starts(&self, rows: Map<RowId, RowT>)
        requires
            self.parts_wf(),
            self.indexes_wf(rows),
        ensures
            self.fanned_out(self, self.live_from as int, rows, rows),
    {
        assert forall|i: int| 0 <= i < self.indexes@.len() implies {
            let index = (#[trigger] self.indexes@[i]).index();
            &&& index.wf()
            &&& index.id() == IndexId(i as usize)
            &&& i >= self.live_from ==> index.reflects(rows)
        } by {
            let id = IndexId(i as usize);
            assert(self.has_index(id) || self.has_detached(id));
        }
    }

    /// The identifier that the next `insert` gives out.
    #[verifier::when_used_as_spec(spec_next_id)]
    pub fn next_id(&self) -> (id: RowId)
        ensures
            id == self.next_id(),
    {
        self.next_id
    }

    /// The identifier that the next index registered gets.
    #[verifier::when_used_as_spec(spec_next_index_id)]
    pub fn next_index_id(&self) -> (id: IndexId)
        ensures
            id == self.next_index_id(),
    {
        IndexId::new(self.indexes.len())
    }

    /// Whether `id` names an index that the store maintains.
    #[verifier::when_used_as_spec(spec_has_index)]
    pub fn has_index(&self, id: IndexId) -> (b: bool)
        ensures
            b == self.has_index(id),
    {
        self.live_from <= id.0 && id.0 < self.indexes.len()
    }

    /// Whether `id` names an index that was dropped.
    #[verifier::when_used_as_spec(spec_has_detached)]
    pub fn has_detached(&self, id: IndexId) -> (b: bool)
        ensures
            b == self.has_detached(id),
    {
        id.0 < self.live_from
    }

    /// A store without rows or indexes, whose first row will be row 0.
    pub fn new() -> (s: Self)
        ensures
            s.wf(),
            s.rows() == Map::<RowId, RowT>::empty(),
            s.next_id() == RowId(0),
            s.next_index_id() == IndexId(0),
            forall|id: IndexId| !s.has_index(id) && !s.has_detached(id),
    {
        HashSync {
            rows: RowTable::new(),
            next_id: RowId::new(0),
            indexes: Vec::new(),
            live_from: 0,
        }
    }

    /// The identifiers of all rows, each once, in no particular order.
    pub fn keys(&self) -> (r: Vec<RowId>)
        requires
            self.wf(),
        ensures
            r@.no_duplicates(),
            r@.to_set() == self.rows().dom(),
    {
        let r = self.rows.ids();
        proof {
            self.rows.lemma_order();
            let order = self.rows.order();
            assert forall|id: RowId| r@.to_set().contains(id) <==> self.rows().dom().contains(
                id,
            ) by {
                if self.rows().dom().contains(id) {
                    let i = choose|i: int| 0 <= i < order.len() && (#[trigger] order[i]).id == id;
                    assert(r@[i] == id);
                }
            }
        }
        r
    }

    /// Stores `row` under a fresh identifier, takes it into every index that
    /// the store maintains, and returns the identifier.
    pub fn insert(&mut self, row: RowT) -> (id: RowId)
        requires
            old(self).wf(),
            old(self).next_id().0 < usize::MAX,
        ensures
            final(self).wf(),
            id == old(self).next_id(),
            final(self).next_id().0 == id.0 + 1,
            final(self).rows() == old(self).rows().insert(id, row),
            final(self).same_indexes_as(old(self)),
    {
        let id = self.next_id;
        self.insert_at(id, row);
        let ghost placed = *self;
        self.next_id = self.next_id.next();
        proof {
            placed.lemma_same_indexes(self);
        }
        id
    }

    /// Takes `row` into every maintained index and then into the table,
    /// under an identifier that the table does not hold. The indexes go
    /// first, so that the table never shows a row that an index has yet to
    /// learn of.
    fn insert_at(&mut self, id: RowId, row: RowT)
        requires
            old(self).parts_wf(),
            old(self).indexes_wf(old(self).rows()),
            !old(self).rows().contains_key(id),
        ensures
            final(self).parts_wf(),
            final(self).indexes_wf(final(self).rows()),
            final(self).rows() == old(self).rows().insert(id, row),
            final(self).next_id() == old(self).next_id(),
            final(self).same_indexes_as(old(self)),
    {
        let indexed = Indexed::new(id, row);
        let ghost before = *self;
        let ghost after = self.rows().insert(id, row);
        proof {
            self.lemma_walk_starts(before.rows());
        }
        let mut n: usize = self.live_from;
        while n < self.indexes.len()
            invariant
                self.live_from <= n <= self.indexes@.len(),
                self.rows == before.rows,
                indexed == (Indexed { id, value: row }),
                after == before.rows().insert(id, row),
                !before.rows().contains_key(id),
                self.fanned_out(&before, n as int, after, before.rows()),
            decreases self.indexes@.len() - n,
        {
            assert(self.indexes@[n as int].reflects(before.rows()));
            self.indexes[n].insert(&indexed);
            n += 1;
        }
        self.rows.insert(id, indexed.into_value());
    }

    /// Two stores with the same list of indexes have the same indexes.
    proof fn lemma_same_indexes(&self, other: &Self)
        requires
            self.indexes == other.indexes,
            self.live_from == other.live_from,
        ensures
            forall|id: IndexId| self.has_index(id) == other.has_index(id),
            forall|id: IndexId| self.has_detached(id) == other.has_detached(id),
            forall|id: IndexId| self.index_at(id) == other.index_at(id),
            self.next_index_id() == other.next_index_id(),
    {
    }

    /// Takes the row stored under `id` out of the table and out of every
    /// index that the store maintains, and returns its value; does nothing
    /// where there is no such row.
    pub fn delete(&mut self, id: RowId) -> (r: Option<RowT>)
        requires
            old(self).wf(),
        ensures
            final(self).wf(),
            final(self).rows() == old(self).rows().remove(id),
            r == (if old(self).rows().contains_key(id) {
                Some(old(self).rows()[id])
            } else {
                None
            }),
            final(self).next_id() == old(self).next_id(),
            final(self).same_indexes_as(old(self)),
    {
        let ghost before = *self;
        let row = self.rows.remove(id);
        match row {
            Some(value) => {
                let indexed = Indexed::new(id, value);
                let ghost after = before.rows().remove(id);
                proof {
                    before.lemma_walk_starts(before.rows());
                }
                let mut n: usize = self.live_from;
                while n < self.indexes.len()
                    invariant
                        self.live_from <= n <= self.indexes@.len(),
                        self.rows.wf(),
                        self.rows@ == after,
                        indexed == (Indexed { id, value }),
                        after == before.rows().remove(id),
                        before.rows().contains_key(id),
                        before.rows()[id] == value,
                        self.fanned_out(&before, n as int, after, before.rows()),
                    decreases self.indexes@.len() - n,
                {
                    self.indexes[n].delete(&indexed);
                    n += 1;
                }
                Some(indexed.into_value())
            },
            None => {
                proof {
                    before.lemma_same_indexes(self);
                }
                None
            },
        }
    }

    /// Stores `row` under `id` in place of whatever was there, in the table
    /// and in every index that the store maintains, and keeps `next_id`
    /// above `id`.
    pub fn replace(&mut self, id: RowId, row: RowT)
        requires
            old(self).wf(),
            id.0 < usize::MAX,
        ensures
            final(self).wf(),
            final(self).rows() == old(self).rows().insert(id, row),
            final(self).next_id() == (if id.0 < old(self).next_id().0 {
                old(self).next_id()
            } else {
                RowId((id.0 + 1) as usize)
            }),
            final(self).same_indexes_as(old(self)),
    {
        self.delete(id);
        self.insert_at(id, row);
        let ghost placed = *self;
        let after_id = id.next();
        if self.next_id.0 < after_id.0 {
            self.next_id = after_id;
        }
        proof {
            placed.lemma_same_indexes(self);
        }
    }

    /// Lets go of every index: the store that comes back has the same rows
    /// and maintains no index. The indexes that were there can still be read
    /// through `reader`; they stay as they were at this moment, whatever
    /// happens to the rows afterwards.
    pub fn drop_indexes(self) -> (s: Self)
        requires
            self.wf(),
        ensures
            s.wf(),
            s.rows() == self.rows(),
            s.next_id() == self.next_id(),
            s.next_index_id() == self.next_index_id(),
            forall|id: IndexId| !s.has_index(id),
            forall|id: IndexId|
                s.has_detached(id) == (self.has_index(id) || self.has_detached(id)),
            forall|id: IndexId|
                #![trigger self.has_index(id)]
                #![trigger self.has_detached(id)]
                self.has_index(id) || self.has_detached(id) ==> s.index_at(id) == self.index_at(
                    id,
                ),
    {
        let live_from: usize = self.indexes.len();
        let s = HashSync { rows: self.rows, next_id: self.next_id, indexes: self.indexes, live_from };
        proof {
            assert forall|id: IndexId|
                #![trigger s.has_index(id)]
                #![trigger s.has_detached(id)]
                s.has_index(id) || s.has_detached(id) implies {
                &&& id.0 < s.next_index_id().0
                &&& !(s.has_index(id) && s.has_detached(id))
                &&& s.index_at(id).wf()
                &&& s.index_at(id).id() == id
            } by {
                assert(self.has_index(id) || self.has_detached(id));
            }
        }
        s
    }

    /// The one routine behind the four ways of registering an index: builds
    /// an index around `key_fn`, takes every row of the table into it, and
    /// keeps it.
    fn register(&mut self, key_fn: Box<dyn KeyFn<KeyT, RowT>>) -> (id: IndexId)
        requires
            old(self).wf(),
            obeys_key_model::<KeyT>(),
            is_key_function(&key_fn),
        ensures
            final(self).adds_index(old(self), id),
            forall|row: Indexed<RowT>, ks: Seq<KeyT>| #[trigger]
                final(self).index_at(id).yields(row, ks) == key_fn.yields(row, ks),
    {
        let id = IndexId::new(self.indexes.len());
        let mut index = Index::new(id, key_fn);
        let ghost fresh = index;
        let ghost order = self.rows.order();
        proof {
            self.rows.lemma_rows_before(0);
        }
        let mut n: usize = 0;
        while n < self.rows.len()
            invariant
                n <= order.len(),
                order == self.rows.order(),
                self.rows.wf(),
                index.wf(),
                index.id() == id,
                index.same_keys_as(&fresh),
                index.reflects(rows_before(order, n as int)),
            decreases order.len() - n,
        {
            proof {
                self.rows.lemma_rows_before(n as int);
            }
            index.insert(self.rows.row(n));
            n += 1;
        }
        let ghost before = *self;
        self.indexes.push(index.into_read_write());
        proof {
            assert(self.indexes@.len() == self.indexes.len());
            assert forall|other: IndexId|
                #![trigger self.has_index(other)]
                #![trigger self.has_detached(other)]
                self.has_index(other) || self.has_detached(other) implies {
                &&& other.0 < self.next_index_id().0
                &&& !(self.has_index(other) && self.has_detached(other))
                &&& self.index_at(other).wf()
                &&& self.index_at(other).id() == other
            } by {
                if other != id {
                    assert(before.has_index(other) || before.has_detached(other));
                }
            }
            assert forall|other: IndexId| #[trigger] self.has_index(other) implies self.index_at(
                other,
            ).reflects(self.rows()) by {
                if other != id {
                    assert(before.has_index(other));
                }
            }
        }
        id
    }

    /// Registers an index whose key function sees a row's value and names one
    /// key.
    pub fn index<F>(&mut self, index_fn: F) -> (id: IndexId) where
        F: Fn(&RowT) -> KeyT + Send + Sync + 'static,

        requires
            old(self).wf(),
            obeys_key_model::<KeyT>(),
            forall|value: RowT| #[trigger] call_requires(index_fn, (&value,)),
            forall|value: RowT, a: KeyT, b: KeyT|
                #[trigger] call_ensures(index_fn, (&value,), a) && #[trigger] call_ensures(
                    index_fn,
                    (&value,),
                    b,
                ) ==> a == b,
        ensures
            final(self).adds_index(old(self), id),
            forall|row: Indexed<RowT>, ks: Seq<KeyT>| #[trigger]
                final(self).index_at(id).yields(row, ks) <==> ks.len() == 1 && call_ensures(
                    index_fn,
                    (&row.value,),
                    ks[0],
                ),
    {
        self.register(Box::new(ValueKey(index_fn)))
    }

    /// Registers an index whose key function sees a row's value and names any
    /// number of keys.
    pub fn index_many<F>(&mut self, index_fn: F) -> (id: IndexId) where
        F: Fn(&RowT) -> Vec<KeyT> + Send + Sync + 'static,

        requires
            old(self).wf(),
            obeys_key_model::<KeyT>(),
            forall|value: RowT| #[trigger] call_requires(index_fn, (&value,)),
            forall|value: RowT, a: Vec<KeyT>, b: Vec<KeyT>|
                #[trigger] call_ensures(index_fn, (&value,), a) && #[trigger] call_ensures(
                    index_fn,
                    (&value,),
                    b,
                ) ==> a@ == b@,
        ensures
            final(self).adds_index(old(self), id),
            forall|row: Indexed<RowT>, ks: Seq<KeyT>| #[trigger]
                final(self).index_at(id).yields(row, ks) <==> exists|out: Vec<KeyT>|
                    call_ensures(index_fn, (&row.value,), out) && out@ == ks,
    {
        self.register(Box::new(ValueKeys(index_fn)))
    }

    /// Registers an index whose key function sees a row with its identifier
    /// and names one key.
    pub fn index_id<F>(&mut self, index_fn: F) -> (id: IndexId) where
        F: Fn(&Indexed<RowT>) -> KeyT + Send + Sync + 'static,

        requires
            old(self).wf(),
            obeys_key_model::<KeyT>(),
            forall|row: Indexed<RowT>| #[trigger] call_requires(index_fn, (&row,)),
            forall|row: Indexed<RowT>, a: KeyT, b: KeyT|
                #[trigger] call_ensures(index_fn, (&row,), a) && #[trigger] call_ensures(
                    index_fn,
                    (&row,),
                    b,
                ) ==> a == b,
        ensures
            final(self).adds_index(old(self), id),
            forall|row: Indexed<RowT>, ks: Seq<KeyT>| #[trigger]
                final(self).index_at(id).yields(row, ks) <==> ks.len() == 1 && call_ensures(
                    index_fn,
                    (&row,),
                    ks[0],
                ),
    {
        self.register(Box::new(OneKey(index_fn)))
    }

    /// Registers an index whose key function sees a row with its identifier
    /// and names any number of keys.
    pub fn index_id_many<F>(&mut self, index_fn: F) -> (id: IndexId) where
        F: Fn(&Indexed<RowT>) -> Vec<KeyT> + Send + Sync + 'static,

        requires
            old(self).wf(),
            obeys_key_model::<KeyT>(),
            forall|row: Indexed<RowT>| #[trigger] call_requires(index_fn, (&row,)),
            forall|row: Indexed<RowT>, a: Vec<KeyT>, b: Vec<KeyT>|
                #[trigger] call_ensures(index_fn, (&row,), a) && #[trigger] call_ensures(
                    index_fn,
                    (&row,),
                    b,
                ) ==> a@ == b@,
        ensures
            final(self).adds_index(old(self), id),
            forall|row: Indexed<RowT>, ks: Seq<KeyT>| #[trigger]
                final(self).index_at(id).yields(row, ks) <==> exists|out: Vec<KeyT>|
                    call_ensures(index_fn, (&row,), out) && out@ == ks,
    {
        self.register(Box::new(index_fn))
    }
}

impl<RowT: Clone, KeyT: Hash + Eq> HashSync<RowT, KeyT> {
    /// A clone of the value stored under `id`, if there is one.
    pub fn by_id(&self, id: RowId) -> (r: Option<RowT>)
        requires
            self.wf(),
        ensures
            match r {
                Some(value) => self.rows().contains_key(id) && cloned(self.rows()[id], value),
                None => !self.rows().contains_key(id),
            },
    {
        match self.rows.get(id) {
            Some(value) => Some(value.clone()),
            None => None,
        }
    }

    /// A clone of the value stored under `id`, paired with `id`, if there is
    /// one.
    pub fn by_id_indexed(&self, id: RowId) -> (r: Option<Indexed<RowT>>)
        requires
            self.wf(),
        ensures
            match r {
                Some(row) => row.id == id && self.rows().contains_key(id) && cloned(
                    self.rows()[id],
                    row.value,
                ),
                None => !self.rows().contains_key(id),
            },
    {
        match self.by_id(id) {
            Some(value) => Some(Indexed::new(id, value)),
            None => None,
        }
    }

    /// A read handle for the index that `id` names, if it names one,
    /// maintained or dropped. The handle borrows the store: look things up,
    /// let go of it, and change the store again.
    ///
    /// A maintained index is in step with the table. A dropped one holds the
    /// rows that it held when it was dropped; a lookup through it passes over
    /// those that have left the table since, and knows nothing of rows that
    /// came later.
    pub fn reader(&self, id: IndexId) -> (r: Option<IndexRead<'_, KeyT, RowT>>)
        requires
            self.wf(),
        ensures
            match r {
                Some(read) => {
                    &&& self.has_index(id) || self.has_detached(id)
                    &&& read.index() == self.index_at(id)
                    &&& read.rows() == self.rows()
                    &&& read.wf()
                    &&& self.has_index(id) ==> read.in_sync()
                },
                None => !self.has_index(id) && !self.has_detached(id),
            },
    {
        if id.0 < self.indexes.len() {
            Some(self.indexes[id.0].reader(&self.rows))
        } else {
            None
        }
    }
}

impl<RowT, KeyT: Hash + Eq> Default for HashSync<RowT, KeyT> {
    /// The same as `new`.
    fn default() -> (s: Self)
        ensures
            s.wf(),
            s.rows() == Map::<RowId, RowT>::empty(),
            s.next_id() == RowId(0),
            s.next_index_id() == IndexId(0),
            forall|id: IndexId| !s.has_index(id) && !s.has_detached(id),
    {
        Self::new()
    }
}

} // verus!
