//! Secondary indexes: from a key to the rows that produce it.
use vstd::prelude::*;
use vstd::std_specs::hash::*;
use vstd::std_specs::iter::IteratorSpec;
use fxhash::{FxBuildHasher, FxHashMap, FxHashSet};
use std::collections::hash_map::Entry;
use std::hash::Hash;
use crate::fx::new_key_map;
use crate::id::{Indexed, RowId};
use crate::key_fn::{is_key_function, keys_of, KeyFn};
use crate::row_table::RowTable;

verus! {

/// The handle of one index of a store.
#[derive(Debug, Clone, Copy, PartialEq, Eq, Structural, Hash)]
pub struct IndexId(pub usize);

impl IndexId {
    /// The identifier made from `id`.
    pub fn new(id: usize) -> (r: Self)
        ensures
            r == IndexId(id),
    {
        IndexId(id)
    }

    /// The identifier that follows this one.
    pub fn next(&self) -> (r: Self)
        requires
            self.0 < usize::MAX,
        ensures
            r.0 == self.0 + 1,
    {
        IndexId(self.0 + 1)
    }
}

/// What a store asks of an index: to take in each row that enters the table
/// and to let go of each row that leaves it.
pub trait Indexable<ValueT> {
    /// Whether the index is fit to be used.
    spec fn ready(&self) -> bool;

    /// Whether the index holds each row of `rows` under each of its keys, and
    /// nothing else.
    spec fn reflects(&self, rows: Map<RowId, ValueT>) -> bool;

    /// Takes `row` in under each of its keys.
    fn insert(&mut self, row: &Indexed<ValueT>) -> (id: IndexId)
        requires
            old(self).ready(),
        ensures
            final(self).ready(),
            forall|rows: Map<RowId, ValueT>| #[trigger]
                old(self).reflects(rows) && !rows.contains_key(row.id) ==> final(self).reflects(
                    rows.insert(row.id, row.value),
                ),
    ;

    /// Lets go of `row` under each of its keys.
    fn delete(&mut self, row: &Indexed<ValueT>)
        requires
            old(self).ready(),
        ensures
            final(self).ready(),
            forall|rows: Map<RowId, ValueT>| #[trigger]
                old(self).reflects(rows) && rows.contains_key(row.id) && rows[row.id] == row.value
                    ==> final(self).reflects(rows.remove(row.id)),
    ;
}

/// The rows that the map `m` holds under `key`: none where it does not hold
/// the key.
spec fn ids_in<K>(m: Map<K, FxHashSet<usize>>, key: K) -> Set<usize> {
    if m.contains_key(key) {
        m[key]@
    } else {
        Set::empty()
    }
}

/// Puts `id` into the set under `key`, starting a set where there is none.
fn add_id<K: Hash + Eq>(map: &mut FxHashMap<K, FxHashSet<usize>>, key: K, id: usize)
    requires
        obeys_key_model::<K>(),
        builds_valid_hashers::<FxBuildHasher>(),
    ensures
        final(map)@.dom() == old(map)@.dom().insert(key),
        ids_in(final(map)@, key) == ids_in(old(map)@, key).insert(id),
        forall|k: K| k != key ==> #[trigger] final(map)@[k] == old(map)@[k],
{
    let set = map.entry(key).or_insert(FxHashSet::default());
    set.insert(id);
}

/// Takes `id` out of the set under `key`, and the key out of the map if that
/// leaves its set empty.
fn drop_id<K: Hash + Eq>(map: &mut FxHashMap<K, FxHashSet<usize>>, key: K, id: usize)
    requires
        obeys_key_model::<K>(),
        builds_valid_hashers::<FxBuildHasher>(),
        forall|k: K| #[trigger] old(map)@.contains_key(k) ==> !old(map)@[k]@.is_empty(),
    ensures
        forall|k: K| #[trigger] final(map)@.contains_key(k) ==> !final(map)@[k]@.is_empty(),
        ids_in(final(map)@, key) == ids_in(old(map)@, key).remove(id),
        forall|k: K| k != key ==> final(map)@.contains_key(k) == old(map)@.contains_key(k),
        forall|k: K| k != key ==> #[trigger] final(map)@[k] == old(map)@[k],
{
    match map.entry(key) {
        Entry::Occupied(mut slot) => {
            slot.get_mut().remove(&id);
            if slot.get().is_empty() {
                slot.remove();
            }
        },
        Entry::Vacant(_) => {},
    }
}

/// One key function and, for each key that some row produces, the set of the
/// rows that produce it.
#[verifier::reject_recursive_types(K)]
#[verifier::reject_recursive_types(V)]
pub struct Index<K, V> {
    id: IndexId,
    key_fn: Box<dyn KeyFn<K, V>>,
    index: FxHashMap<K, FxHashSet<usize>>,
}

impl<K: Hash + Eq, V> Index<K, V> {
    /// Keys hash and compare as the maps expect, the key function answers for
    /// every row, and no key is kept with an empty set.
    pub closed spec fn wf(&self) -> bool {
        &&& obeys_key_model::<K>()
        &&& builds_valid_hashers::<FxBuildHasher>()
        &&& is_key_function(&self.key_fn)
        &&& forall|k: K| #[trigger] self.index@.contains_key(k) ==> !self.index@[k]@.is_empty()
    }

    /// The identifier that the index was made with.
    pub closed spec fn id(&self) -> IndexId {
        self.id
    }

    /// Whether the index's key function may name the keys `ks` for `row`.
    pub closed spec fn yields(&self, row: Indexed<V>, ks: Seq<K>) -> bool {
        self.key_fn.yields(row, ks)
    }

    /// The keys that the index's key function names for `row`.
    pub closed spec fn keys_of(&self, row: Indexed<V>) -> Seq<K> {
        keys_of(&self.key_fn, row)
    }

    /// The rows held under `key`.
    pub closed spec fn ids(&self, key: K) -> Set<RowId> {
        Set::new(|id: RowId| ids_in(self.index@, key).contains(id.0))
    }

    /// The keys that hold at least one row.
    pub open spec fn present(&self) -> Set<K> {
        Set::new(|key: K| !self.ids(key).is_empty())
    }

    /// Whether the key functions of the two indexes answer alike.
    pub open spec fn same_keys_as(&self, other: &Self) -> bool {
        &&& forall|row: Indexed<V>, ks: Seq<K>| #[trigger]
            self.yields(row, ks) == other.yields(row, ks)
        &&& forall|row: Indexed<V>| #[trigger] self.keys_of(row) == other.keys_of(row)
    }

    /// What the key function of a well-formed index returns for a row is
    /// `keys_of` that row.
    pub proof fn lemma_keys_of(&self, row: Indexed<V>, ks: Seq<K>)
        requires
            self.wf(),
            self.yields(row, ks),
        ensures
            self.keys_of(row) == ks,
    {
    }

    /// An index without rows, around `key_fn`.
    pub fn new(id: IndexId, key_fn: Box<dyn KeyFn<K, V>>) -> (r: Self)
        requires
            obeys_key_model::<K>(),
            is_key_function(&key_fn),
        ensures
            r.wf(),
            r.id() == id,
            forall|key: K| #[trigger] r.ids(key) == Set::<RowId>::empty(),
            forall|row: Indexed<V>, ks: Seq<K>| #[trigger]
                r.yields(row, ks) == key_fn.yields(row, ks),
    {
        Index { id, key_fn, index: new_key_map() }
    }

    /// The rows held under `key`, each once, in no particular order.
    pub fn get(&self, key: &K) -> (r: Vec<RowId>)
        requires
            self.wf(),
        ensures
            r@.no_duplicates(),
            r@.to_set() == self.ids(*key),
    {
        let mut r: Vec<RowId> = Vec::new();
        match self.index.get(key) {
            Some(set) => {
                for id in it: set.iter()
                    invariant
                        it.seq() == set.iter().remaining(),
                        r@.len() == it.index(),
                        forall|j: int| 0 <= j < r@.len() ==> (#[trigger] r@[j]).0 == *it.seq()[j],
                {
                    r.push(RowId::new(*id));
                }
                proof {
                    let walked = set.iter().remaining();
                    assert forall|id: RowId| r@.to_set().contains(id) <==> self.ids(*key).contains(
                        id,
                    ) by {
                        if r@.to_set().contains(id) {
                            let i = choose|i: int| 0 <= i < r@.len() && r@[i] == id;
                            assert(walked.unref()[i] == id.0);
                        }
                        if self.ids(*key).contains(id) {
                            let i = choose|i: int|
                                0 <= i < walked.unref().len() && walked.unref()[i] == id.0;
                            assert(r@[i] == id);
                        }
                    }
                }
            },
            None => {},
        }
        r
    }

    /// The keys that hold at least one row, each once, in no particular
    /// order.
    pub fn keys(&self) -> (r: Vec<&K>)
        requires
            self.wf(),
        ensures
            r@.unref().no_duplicates(),
            r@.unref().to_set() == self.present(),
    {
        let mut r: Vec<&K> = Vec::new();
        for key in it: self.index.keys()
            invariant
                it.seq() == self.index.keys().remaining(),
                r@.len() == it.index(),
                forall|j: int| 0 <= j < r@.len() ==> #[trigger] r@[j] == it.seq()[j],
        {
            r.push(key);
        }
        proof {
            let walked = self.index.keys().remaining();
            assert(r@ =~= walked);
            assert forall|key: K| self.index@.dom().contains(key) <==> self.present().contains(
                key,
            ) by {
                if self.index@.contains_key(key) {
                    let n = choose|n: usize| self.index@[key]@.contains(n);
                    assert(self.ids(key).contains(RowId(n)));
                }
            }
        }
        r
    }

    /// Hands the index over to the handle through which a store maintains
    /// it. Read handles are lent out by that handle.
    pub fn into_read_write(self) -> (w: IndexWrite<K, V>)
        ensures
            w.index() == self,
    {
        IndexWrite::new(self)
    }
}

impl<K: Hash + Eq, V> Indexable<V> for Index<K, V> {
    open spec fn ready(&self) -> bool {
        self.wf()
    }

    open spec fn reflects(&self, rows: Map<RowId, V>) -> bool {
        &&& forall|id: RowId| #[trigger]
            rows.contains_key(id) ==> {
                let row = Indexed { id, value: rows[id] };
                self.yields(row, self.keys_of(row))
            }
        &&& forall|key: K, id: RowId|
            #![trigger self.ids(key).contains(id)]
            self.ids(key).contains(id) <==> rows.contains_key(id) && self.keys_of(
                Indexed { id, value: rows[id] },
            ).contains(key)
    }

    /// Puts the identifier of `row` into the set of each key that the key
    /// function names for it, starting a set where a key has none.
    fn insert(&mut self, row: &Indexed<V>) -> (id: IndexId)
        ensures
            id == old(self).id(),
            final(self).id() == old(self).id(),
            final(self).same_keys_as(old(self)),
            final(self).yields(*row, final(self).keys_of(*row)),
            forall|key: K| #[trigger]
                final(self).ids(key) == (if old(self).keys_of(*row).contains(key) {
                    old(self).ids(key).insert(row.id)
                } else {
                    old(self).ids(key)
                }),
    {
        let keys = self.key_fn.keys(row);
        let ghost ks = keys@;
        let ghost before = *self;
        let id: usize = row.id.0;
        for key in it: keys
            invariant
                it.seq() == ks,
                obeys_key_model::<K>(),
                builds_valid_hashers::<FxBuildHasher>(),
                self.id == before.id,
                self.key_fn == before.key_fn,
                forall|k: K| #[trigger]
                    self.index@.contains_key(k) ==> !self.index@[k]@.is_empty(),
                forall|k: K| #[trigger]
                    ids_in(self.index@, k) == (if ks.take(it.index()).contains(k) {
                        ids_in(before.index@, k).insert(id)
                    } else {
                        ids_in(before.index@, k)
                    }),
        {
            let ghost prev = self.index@;
            let ghost done = ks.take(it.index());
            add_id(&mut self.index, key, id);
            proof {
                assert(ks.take(it.index() + 1) == done.push(key));
                assert forall|k: K| #[trigger]
                    ids_in(self.index@, k) == (if done.push(key).contains(k) {
                        ids_in(before.index@, k).insert(id)
                    } else {
                        ids_in(before.index@, k)
                    }) by {
                    if k == key {
                        assert(done.push(key)[done.len() as int] == key);
                    } else {
                        assert(ids_in(self.index@, k) == ids_in(prev, k));
                    }
                }
            }
        }
        proof {
            assert(ks.take(ks.len() as int) == ks);
            assert forall|key: K| #[trigger]
                self.ids(key) == (if before.keys_of(*row).contains(key) {
                    before.ids(key).insert(row.id)
                } else {
                    before.ids(key)
                }) by {}
        }
        self.id
    }

    /// Takes the identifier of `row` out of the set of each key that the key
    /// function names for it, and forgets a key whose set is left empty.
    fn delete(&mut self, row: &Indexed<V>)
        ensures
            final(self).id() == old(self).id(),
            final(self).same_keys_as(old(self)),
            forall|key: K| #[trigger]
                final(self).ids(key) == (if old(self).keys_of(*row).contains(key) {
                    old(self).ids(key).remove(row.id)
                } else {
                    old(self).ids(key)
                }),
    {
        let keys = self.key_fn.keys(row);
        let ghost ks = keys@;
        let ghost before = *self;
        let id: usize = row.id.0;
        for key in it: keys
            invariant
                it.seq() == ks,
                obeys_key_model::<K>(),
                builds_valid_hashers::<FxBuildHasher>(),
                self.id == before.id,
                self.key_fn == before.key_fn,
                forall|k: K| #[trigger]
                    self.index@.contains_key(k) ==> !self.index@[k]@.is_empty(),
                forall|k: K| #[trigger]
                    ids_in(self.index@, k) == (if ks.take(it.index()).contains(k) {
                        ids_in(before.index@, k).remove(id)
                    } else {
                        ids_in(before.index@, k)
                    }),
        {
            let ghost prev = self.index@;
            let ghost done = ks.take(it.index());
            drop_id(&mut self.index, key, id);
            proof {
                assert(ks.take(it.index() + 1) == done.push(key));
                assert forall|k: K| #[trigger]
                    ids_in(self.index@, k) == (if done.push(key).contains(k) {
                        ids_in(before.index@, k).remove(id)
                    } else {
                        ids_in(before.index@, k)
                    }) by {
                    if k == key {
                        assert(done.push(key)[done.len() as int] == key);
                    } else {
                        assert(ids_in(self.index@, k) == ids_in(prev, k));
                    }
                }
            }
        }
        proof {
            assert(ks.take(ks.len() as int) == ks);
            assert forall|key: K| #[trigger]
                self.ids(key) == (if before.keys_of(*row).contains(key) {
                    before.ids(key).remove(row.id)
                } else {
                    before.ids(key)
                }) by {}
        }
    }
}

/// The handle through which a store maintains one index.
#[verifier::reject_recursive_types(K)]
#[verifier::reject_recursive_types(V)]
pub struct IndexWrite<K, V> {
    index: Index<K, V>,
}

impl<K: Hash + Eq, V> IndexWrite<K, V> {
    /// The index behind the handle.
    pub closed spec fn index(&self) -> Index<K, V> {
        self.index
    }

    /// The write handle of `index`.
    pub fn new(index: Index<K, V>) -> (w: Self)
        ensures
            w.index() == index,
    {
        IndexWrite { index }
    }

    /// The identifier of the index behind the handle.
    pub fn id(&self) -> (id: IndexId)
        ensures
            id == self.index().id(),
    {
        self.index.id
    }

    /// Lends out a read handle that joins the index with `rows`.
    pub fn reader<'a>(&'a self, rows: &'a RowTable<V>) -> (r: IndexRead<'a, K, V>)
        ensures
            r.index() == self.index(),
            r.table() == *rows,
    {
        IndexRead::new(rows, &self.index)
    }
}

impl<K: Hash + Eq, V> Indexable<V> for IndexWrite<K, V> {
    open spec fn ready(&self) -> bool {
        self.index().wf()
    }

    open spec fn reflects(&self, rows: Map<RowId, V>) -> bool {
        self.index().reflects(rows)
    }

    /// Forwards to the index.
    fn insert(&mut self, row: &Indexed<V>) -> (id: IndexId)
        ensures
            id == old(self).index().id(),
            final(self).index().id() == old(self).index().id(),
            final(self).index().same_keys_as(&old(self).index()),
            forall|key: K| #[trigger]
                final(self).index().ids(key) == (if old(self).index().keys_of(*row).contains(key) {
                    old(self).index().ids(key).insert(row.id)
                } else {
                    old(self).index().ids(key)
                }),
    {
        self.index.insert(row)
    }

    /// Forwards to the index.
    fn delete(&mut self, row: &Indexed<V>)
        ensures
            final(self).index().id() == old(self).index().id(),
            final(self).index().same_keys_as(&old(self).index()),
            forall|key: K| #[trigger]
                final(self).index().ids(key) == (if old(self).index().keys_of(*row).contains(key) {
                    old(self).index().ids(key).remove(row.id)
                } else {
                    old(self).index().ids(key)
                }),
    {
        self.index.delete(row)
    }
}

/// Whether `out` lists, each once, the rows of `rows` whose identifier is in
/// `ids`, every value a clone of the one in `rows`. Identifiers without a row
/// are passed over.
pub open spec fn is_join<V: Clone>(out: Seq<Indexed<V>>, ids: Set<RowId>, rows: Map<RowId, V>) -> bool {
    &&& forall|i: int|
        0 <= i < out.len() ==> {
            let row = #[trigger] out[i];
            ids.contains(row.id) && rows.contains_key(row.id) && cloned(rows[row.id], row.value)
        }
    &&& forall|i: int, j: int|
        0 <= i < j < out.len() ==> (#[trigger] out[i]).id != (#[trigger] out[j]).id
    &&& forall|id: RowId|
        ids.contains(id) && #[trigger] rows.contains_key(id) ==> exists|i: int|
            0 <= i < out.len() && (#[trigger] out[i]).id == id
}

/// A join lists as many rows as there are identifiers with a row.
pub proof fn lemma_join_len<V: Clone>(out: Seq<Indexed<V>>, ids: Set<RowId>, rows: Map<RowId, V>)
    requires
        is_join(out, ids, rows),
    ensures
        ids.intersect(rows.dom()).finite(),
        out.len() == ids.intersect(rows.dom()).len(),
{
    let listed = out.map_values(|row: Indexed<V>| row.id);
    assert forall|id: RowId| listed.to_set().contains(id) <==> ids.intersect(rows.dom()).contains(
        id,
    ) by {
        if ids.intersect(rows.dom()).contains(id) {
            let i = choose|i: int| 0 <= i < out.len() && (#[trigger] out[i]).id == id;
            assert(listed[i] == id);
        }
    }
    assert(listed.to_set() =~= ids.intersect(rows.dom()));
    listed.unique_seq_to_set();
}

/// The values of `rows`, in their order.
pub open spec fn values_of<V>(rows: Seq<Indexed<V>>) -> Seq<V> {
    rows.map_values(|row: Indexed<V>| row.value)
}

/// Whether `out` lists a clone of each key of `keys`, once.
pub open spec fn is_listing<K: Clone>(out: Seq<K>, keys: Set<K>) -> bool {
    exists|ks: Seq<K>|
        {
            &&& ks.no_duplicates()
            &&& ks.to_set() == keys
            &&& #[trigger] ks.len() == out.len()
            &&& forall|i: int| 0 <= i < ks.len() ==> cloned(ks[i], #[trigger] out[i])
        }
}

/// A handle for looking rows up through one index. It borrows the index and
/// the table, so for as long as it lives neither changes.
#[verifier::reject_recursive_types(K)]
#[verifier::reject_recursive_types(V)]
pub struct IndexRead<'a, K, V> {
    rows: &'a RowTable<V>,
    index: &'a Index<K, V>,
}

impl<'a, K: Hash + Eq, V> IndexRead<'a, K, V> {
    /// The index that the handle reads.
    pub closed spec fn index(&self) -> Index<K, V> {
        *self.index
    }

    /// The table that the handle resolves identifiers against.
    pub closed spec fn table(&self) -> RowTable<V> {
        *self.rows
    }

    /// The rows of the table.
    pub open spec fn rows(&self) -> Map<RowId, V> {
        self.table()@
    }

    /// The index and the table are each well-formed.
    pub open spec fn wf(&self) -> bool {
        self.index().wf() && self.table().wf()
    }

    /// The index holds exactly the rows of the table, each under its keys.
    pub open spec fn in_sync(&self) -> bool {
        self.index().reflects(self.rows())
    }

    /// The rows of the table that the key function puts under `key`.
    pub open spec fn matching(&self, key: K) -> Set<RowId> {
        Set::new(
            |id: RowId|
                self.rows().contains_key(id) && self.index().keys_of(
                    Indexed { id, value: self.rows()[id] },
                ).contains(key),
        )
    }

    /// The keys under which the key function puts at least one row of the
    /// table.
    pub open spec fn live_keys(&self) -> Set<K> {
        Set::new(|key: K| !self.matching(key).is_empty())
    }

    /// The keys of an index in step with the table are the keys of the rows
    /// of the table.
    pub proof fn lemma_keys_in_sync(&self)
        requires
            self.in_sync(),
        ensures
            self.index().present() == self.live_keys(),
    {
    }

    /// A read handle over `index`, resolving against `rows`.
    pub fn new(rows: &'a RowTable<V>, index: &'a Index<K, V>) -> (r: Self)
        ensures
            r.index() == *index,
            r.table() == *rows,
    {
        IndexRead { rows, index }
    }
}

impl<'a, K: Hash + Eq, V: Clone> IndexRead<'a, K, V> {
    /// The rows held under `key` that the table still has, with their
    /// identifiers.
    pub fn get(&self, key: &K) -> (r: Vec<Indexed<V>>)
        requires
            self.wf(),
        ensures
            is_join(r@, self.index().ids(*key), self.rows()),
            r@.len() == self.index().ids(*key).intersect(self.rows().dom()).len(),
            self.in_sync() ==> is_join(r@, self.matching(*key), self.rows()),
    {
        let ids = self.index.get(key);
        let mut r: Vec<Indexed<V>> = Vec::new();
        let mut n: usize = 0;
        while n < ids.len()
            invariant
                n <= ids@.len(),
                self.wf(),
                ids@.no_duplicates(),
                ids@.to_set() == self.index().ids(*key),
                is_join(r@, ids@.take(n as int).to_set(), self.rows()),
            decreases ids@.len() - n,
        {
            let id = ids[n];
            let ghost seen = ids@.take(n as int);
            let ghost prev = r@;
            assert(ids@.take(n + 1) == seen.push(id));
            match self.rows.get(id) {
                Some(value) => {
                    r.push(Indexed::new(id, value.clone()));
                    proof {
                        assert forall|i: int| 0 <= i < r@.len() implies {
                            let row = #[trigger] r@[i];
                            seen.push(id).to_set().contains(row.id) && self.rows().contains_key(
                                row.id,
                            ) && cloned(self.rows()[row.id], row.value)
                        } by {
                            if i >= prev.len() {
                                assert(seen.push(id)[seen.len() as int] == id);
                            }
                        }
                        assert forall|other: RowId|
                            seen.push(id).to_set().contains(other) && #[trigger] self.rows().contains_key(
                                other,
                            ) implies exists|i: int|
                            0 <= i < r@.len() && (#[trigger] r@[i]).id == other by {
                            if other == id {
                                assert(r@[prev.len() as int].id == other);
                            } else {
                                let i = choose|i: int|
                                    0 <= i < prev.len() && (#[trigger] prev[i]).id == other;
                                assert(r@[i] == prev[i]);
                            }
                        }
                    }
                },
                None => {},
            }
            n += 1;
        }
        proof {
            assert(ids@.take(n as int) == ids@);
            lemma_join_len(r@, self.index().ids(*key), self.rows());
        }
        r
    }

    /// The values of the rows held under `key` that the table still has.
    pub fn get_values(&self, key: &K) -> (r: Vec<V>)
        requires
            self.wf(),
        ensures
            exists|joined: Seq<Indexed<V>>|
                is_join(joined, self.index().ids(*key), self.rows()) && r@ == #[trigger] values_of(
                    joined,
                ),
            r@.len() == self.index().ids(*key).intersect(self.rows().dom()).len(),
            self.in_sync() ==> exists|joined: Seq<Indexed<V>>|
                is_join(joined, self.matching(*key), self.rows()) && r@ == #[trigger] values_of(
                    joined,
                ),
    {
        let joined = self.get(key);
        let ghost rows = joined@;
        let mut r: Vec<V> = Vec::new();
        for row in it: joined
            invariant
                it.seq() == rows,
                r@ == values_of(rows.take(it.index())),
        {
            r.push(row.into_value());
        }
        assert(rows.take(rows.len() as int) == rows);
        r
    }
}

impl<'a, K: Hash + Eq + Clone, V> IndexRead<'a, K, V> {
    /// A copy of each key that holds at least one row.
    pub fn keys(&self) -> (r: Vec<K>)
        requires
            self.index().wf(),
        ensures
            is_listing(r@, self.index().present()),
            self.in_sync() ==> is_listing(r@, self.live_keys()),
    {
        let keys = self.index.keys();
        let mut r: Vec<K> = Vec::new();
        let mut n: usize = 0;
        while n < keys.len()
            invariant
                n <= keys@.len(),
                r@.len() == n,
                forall|i: int| 0 <= i < n ==> cloned(*keys@[i], #[trigger] r@[i]),
            decreases keys@.len() - n,
        {
            r.push(keys[n].clone());
            n += 1;
        }
        proof {
            assert(keys@.unref().len() == r@.len());
            if self.in_sync() {
                self.lemma_keys_in_sync();
            }
        }
        r
    }
}

} // verus!
