//! What holds of a store and its indexes between any two calls.
//!
//! Each operation of a [`HashSync`] requires `wf()` and ensures it again, so
//! `wf()` holds of every store that was made by `new` and changed only
//! through its operations. The lemmas below say what follows from it, of the
//! indexes that the store maintains and of those it has dropped.
use vstd::prelude::*;
use std::hash::Hash;
use crate::hashsync::HashSync;
use crate::id::{Indexed, RowId};
use crate::index::{IndexId, Indexable};

verus! {

/// An index is complete: it holds a row under a key exactly when the row is in
/// the table and the key is among those that the key function names for it.
/// This holds after any sequence of operations; a lookup returns the rows that
/// the index holds under the key.
pub proof fn lemma_index_complete<RowT, KeyT: Hash + Eq>(
    store: HashSync<RowT, KeyT>,
    index: IndexId,
    key: KeyT,
    id: RowId,
)
    requires
        store.wf(),
        store.has_index(index),
    ensures
        store.index_at(index).ids(key).contains(id) <==> store.rows().contains_key(id)
            && store.index_at(index).keys_of(
            Indexed { id, value: store.rows()[id] },
        ).contains(key),
{
}

/// The key function of an index is a function: whatever it may return for a
/// row, in the table or not, is `keys_of` that row.
pub proof fn lemma_keys_depend_on_row_alone<RowT, KeyT: Hash + Eq>(
    store: HashSync<RowT, KeyT>,
    index: IndexId,
    row: Indexed<RowT>,
    ks: Seq<KeyT>,
)
    requires
        store.wf(),
        store.has_index(index),
        store.index_at(index).yields(row, ks),
    ensures
        store.index_at(index).keys_of(row) == ks,
{
    store.index_at(index).lemma_keys_of(row, ks);
}

/// For a row of the table, the keys under which an index holds it are keys
/// that the key function does name for it.
pub proof fn lemma_keys_are_named<RowT, KeyT: Hash + Eq>(
    store: HashSync<RowT, KeyT>,
    index: IndexId,
    id: RowId,
)
    requires
        store.wf(),
        store.has_index(index),
        store.rows().contains_key(id),
    ensures
        ({
            let row = Indexed { id, value: store.rows()[id] };
            store.index_at(index).yields(row, store.index_at(index).keys_of(row))
        }),
{
}

/// Inserting a row puts its identifier into the set of each key that an
/// index's key function names for it, and changes no other set.
pub proof fn lemma_insert_grows<RowT, KeyT: Hash + Eq>(
    before: HashSync<RowT, KeyT>,
    after: HashSync<RowT, KeyT>,
    row: Indexed<RowT>,
    index: IndexId,
    key: KeyT,
)
    requires
        before.wf(),
        after.wf(),
        !before.rows().contains_key(row.id),
        after.rows() == before.rows().insert(row.id, row.value),
        after.same_indexes_as(&before),
        before.has_index(index),
    ensures
        after.index_at(index).ids(key) == (if after.index_at(index).keys_of(row).contains(key) {
            before.index_at(index).ids(key).insert(row.id)
        } else {
            before.index_at(index).ids(key)
        }),
{
}

/// Deleting a row takes its identifier out of every set of every index, and a
/// key stays present in an index only if another row still produces it.
pub proof fn lemma_delete_shrinks<RowT, KeyT: Hash + Eq>(
    before: HashSync<RowT, KeyT>,
    after: HashSync<RowT, KeyT>,
    gone: RowId,
    index: IndexId,
    key: KeyT,
)
    requires
        before.wf(),
        after.wf(),
        after.rows() == before.rows().remove(gone),
        after.same_indexes_as(&before),
        before.has_index(index),
    ensures
        !after.index_at(index).ids(key).contains(gone),
        after.index_at(index).ids(key) == before.index_at(index).ids(key).remove(gone),
        after.index_at(index).present().contains(key) <==> exists|other: RowId|
            other != gone && before.index_at(index).ids(key).contains(other),
{
    let old_index = before.index_at(index);
    let new_index = after.index_at(index);
    if new_index.present().contains(key) {
        let other = choose|other: RowId| new_index.ids(key).contains(other);
        assert(other != gone && old_index.ids(key).contains(other));
    }
    if exists|other: RowId| other != gone && old_index.ids(key).contains(other) {
        let other = choose|other: RowId| other != gone && old_index.ids(key).contains(other);
        assert(new_index.ids(key).contains(other));
    }
}

/// An index registered late starts complete: it holds every row that was in
/// the table before it was registered, under each of the row's keys.
pub proof fn lemma_registration_backfills<RowT, KeyT: Hash + Eq>(
    before: HashSync<RowT, KeyT>,
    after: HashSync<RowT, KeyT>,
    index: IndexId,
    id: RowId,
    key: KeyT,
)
    requires
        after.wf(),
        after.rows() == before.rows(),
        !before.has_index(index),
        after.has_index(index),
        before.rows().contains_key(id),
        after.index_at(index).keys_of(Indexed { id, value: before.rows()[id] }).contains(key),
    ensures
        after.index_at(index).ids(key).contains(id),
{
}

/// A row is held under every key that a many-valued key function names for
/// it, and under no other.
pub proof fn lemma_row_under_each_key<RowT, KeyT: Hash + Eq>(
    store: HashSync<RowT, KeyT>,
    index: IndexId,
    id: RowId,
)
    requires
        store.wf(),
        store.has_index(index),
        store.rows().contains_key(id),
    ensures
        ({
            let keys = store.index_at(index).keys_of(Indexed { id, value: store.rows()[id] });
            &&& forall|i: int|
                0 <= i < keys.len() ==> store.index_at(index).ids(#[trigger] keys[i]).contains(id)
            &&& forall|key: KeyT|
                store.index_at(index).ids(key).contains(id) ==> keys.contains(key)
        }),
{
}

/// Indexes are independent: what an index holds follows from the rows of the
/// table and from its own key function, whatever other indexes the store has.
pub proof fn lemma_indexes_independent<RowT, KeyT: Hash + Eq>(
    one: HashSync<RowT, KeyT>,
    other: HashSync<RowT, KeyT>,
    i: IndexId,
    j: IndexId,
    key: KeyT,
)
    requires
        one.wf(),
        other.wf(),
        one.has_index(i),
        other.has_index(j),
        one.rows() == other.rows(),
        one.index_at(i).same_keys_as(&other.index_at(j)),
    ensures
        one.index_at(i).ids(key) == other.index_at(j).ids(key),
{
}

/// Dropping the indexes leaves each of them readable and, as long as the rows
/// stay as they were, complete: a handle to an index that the store had
/// maintained finds after the drop what it found before.
pub proof fn lemma_dropped_index_is_complete<RowT, KeyT: Hash + Eq>(
    before: HashSync<RowT, KeyT>,
    after: HashSync<RowT, KeyT>,
    index: IndexId,
)
    requires
        before.wf(),
        before.has_index(index),
        after.rows() == before.rows(),
        after.index_at(index) == before.index_at(index),
    ensures
        after.index_at(index).reflects(after.rows()),
{
}

/// A dropped index is not told of what happens to the rows afterwards. Of the
/// rows that it held under a key when it was dropped, a lookup finds those
/// that the table still has, and no others.
pub proof fn lemma_dropped_index_is_frozen<RowT, KeyT: Hash + Eq>(
    then: HashSync<RowT, KeyT>,
    now: HashSync<RowT, KeyT>,
    index: IndexId,
    key: KeyT,
    id: RowId,
)
    requires
        then.wf(),
        then.has_index(index),
        now.index_at(index) == then.index_at(index),
    ensures
        now.index_at(index).ids(key).intersect(now.rows().dom()).contains(id) <==> {
            &&& now.rows().contains_key(id)
            &&& then.rows().contains_key(id)
            &&& then.index_at(index).keys_of(Indexed { id, value: then.rows()[id] }).contains(key)
        },
{
}

} // verus!
