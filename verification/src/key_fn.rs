//! Key functions: what an index asks a row for.
//!
//! An index is built around one key function, which names the keys that a row
//! is to be found under: none, one or several. The function may look at the
//! row's value alone or at its identifier too. Each of the four shapes is a
//! type that implements [`KeyFn`].
use vstd::prelude::*;
use crate::id::Indexed;

verus! {

/// The capability of naming the keys of a row.
pub trait KeyFn<K, V>: Send + Sync {
    /// Whether `keys` may be called on `row`.
    spec fn accepts(&self, row: Indexed<V>) -> bool;

    /// Whether `keys` may return `ks` for `row`.
    spec fn yields(&self, row: Indexed<V>, ks: Seq<K>) -> bool;

    /// The keys that `row` is indexed under.
    fn keys(&self, row: &Indexed<V>) -> (ks: Vec<K>)
        requires
            self.accepts(*row),
        ensures
            self.yields(*row, ks@),
    ;
}

/// A function from a row and its identifier to any number of keys.
impl<K, V, F: Fn(&Indexed<V>) -> Vec<K> + Send + Sync> KeyFn<K, V> for F {
    open spec fn accepts(&self, row: Indexed<V>) -> bool {
        call_requires(*self, (&row,))
    }

    open spec fn yields(&self, row: Indexed<V>, ks: Seq<K>) -> bool {
        exists|out: Vec<K>| call_ensures(*self, (&row,), out) && out@ == ks
    }

    fn keys(&self, row: &Indexed<V>) -> (ks: Vec<K>) {
        self(row)
    }
}

/// A function from a row and its identifier to exactly one key.
pub struct OneKey<F>(pub F);

impl<K, V, F: Fn(&Indexed<V>) -> K + Send + Sync> KeyFn<K, V> for OneKey<F> {
    open spec fn accepts(&self, row: Indexed<V>) -> bool {
        call_requires(self.0, (&row,))
    }

    open spec fn yields(&self, row: Indexed<V>, ks: Seq<K>) -> bool {
        ks.len() == 1 && call_ensures(self.0, (&row,), ks[0])
    }

    fn keys(&self, row: &Indexed<V>) -> (ks: Vec<K>) {
        let key = (self.0)(row);
        let mut ks: Vec<K> = Vec::new();
        ks.push(key);
        ks
    }
}

/// A function from a row's value to any number of keys.
pub struct ValueKeys<F>(pub F);

impl<K, V, F: Fn(&V) -> Vec<K> + Send + Sync> KeyFn<K, V> for ValueKeys<F> {
    open spec fn accepts(&self, row: Indexed<V>) -> bool {
        call_requires(self.0, (&row.value,))
    }

    open spec fn yields(&self, row: Indexed<V>, ks: Seq<K>) -> bool {
        exists|out: Vec<K>| call_ensures(self.0, (&row.value,), out) && out@ == ks
    }

    fn keys(&self, row: &Indexed<V>) -> (ks: Vec<K>) {
        (self.0)(row.value())
    }
}

/// A function from a row's value to exactly one key.
pub struct ValueKey<F>(pub F);

impl<K, V, F: Fn(&V) -> K + Send + Sync> KeyFn<K, V> for ValueKey<F> {
    open spec fn accepts(&self, row: Indexed<V>) -> bool {
        call_requires(self.0, (&row.value,))
    }

    open spec fn yields(&self, row: Indexed<V>, ks: Seq<K>) -> bool {
        ks.len() == 1 && call_ensures(self.0, (&row.value,), ks[0])
    }

    fn keys(&self, row: &Indexed<V>) -> (ks: Vec<K>) {
        let key = (self.0)(row.value());
        let mut ks: Vec<K> = Vec::new();
        ks.push(key);
        ks
    }
}

/// Whether `f` can serve an index: it can be asked about every row, and what
/// it answers depends on the row alone.
///
/// An index forgets the keys it stored a row under and asks again when the row
/// leaves, so a function that answered differently the second time would leave
/// the row behind.
pub open spec fn is_key_function<K, V>(f: &Box<dyn KeyFn<K, V>>) -> bool {
    &&& forall|row: Indexed<V>| #[trigger] f.accepts(row)
    &&& forall|row: Indexed<V>, a: Seq<K>, b: Seq<K>|
        #[trigger] f.yields(row, a) && #[trigger] f.yields(row, b) ==> a =~= b
}

/// The keys that `f` names for `row`, where it names any.
pub open spec fn keys_of<K, V>(f: &Box<dyn KeyFn<K, V>>, row: Indexed<V>) -> Seq<K> {
    choose|ks: Seq<K>| f.yields(row, ks)
}

} // verus!
