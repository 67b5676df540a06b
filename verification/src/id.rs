//! Row identifiers and rows paired with their identifier.
use vstd::prelude::*;
use std::cmp::Ordering;

verus! {

/// The handle of one row of a table.
///
/// Identifiers are ordered like the numbers they are made from, so a store
/// that hands out `next()` of the last identifier never hands one out twice.
#[derive(Debug, Clone, Copy, PartialEq, Eq, Structural, Ord, Hash)]
pub struct RowId(pub usize);

impl PartialOrd for RowId {
    /// The order of the two numbers.
    fn partial_cmp(&self, other: &Self) -> (r: Option<Ordering>) {
        if self.0 < other.0 {
            Some(Ordering::Less)
        } else if self.0 == other.0 {
            Some(Ordering::Equal)
        } else {
            Some(Ordering::Greater)
        }
    }
}

impl vstd::std_specs::cmp::PartialOrdSpecImpl for RowId {
    open spec fn obeys_partial_cmp_spec() -> bool {
        true
    }

    /// Identifiers compare as their numbers do.
    open spec fn partial_cmp_spec(&self, other: &Self) -> Option<Ordering> {
        if self.0 < other.0 {
            Some(Ordering::Less)
        } else if self.0 == other.0 {
            Some(Ordering::Equal)
        } else {
            Some(Ordering::Greater)
        }
    }
}

impl RowId {
    /// The identifier made from `id`.
    pub fn new(id: usize) -> (r: Self)
        ensures
            r == RowId(id),
    {
        RowId(id)
    }

    /// The identifier that follows this one.
    pub fn next(&self) -> (r: Self)
        requires
            self.0 < usize::MAX,
        ensures
            r.0 == self.0 + 1,
    {
        RowId(self.0 + 1)
    }
}

/// A row value together with the identifier it is stored under.
#[derive(Debug, PartialEq, Eq)]
pub struct Indexed<T> {
    pub id: RowId,
    pub value: T,
}

impl<T: Clone> Clone for Indexed<T> {
    /// The same identifier with a clone of the value.
    fn clone(&self) -> (r: Self)
        ensures
            r.id == self.id,
            cloned(self.value, r.value),
    {
        Indexed { id: self.id, value: self.value.clone() }
    }
}

impl<T> Indexed<T> {
    /// Pairs `value` with `id`.
    pub fn new(id: RowId, value: T) -> (r: Self)
        ensures
            r == (Indexed { id, value }),
    {
        Indexed { id, value }
    }

    /// The identifier of the row.
    pub fn id(&self) -> (r: RowId)
        ensures
            r == self.id,
    {
        self.id
    }

    /// The value of the row.
    pub fn value(&self) -> (r: &T)
        ensures
            *r == self.value,
    {
        &self.value
    }

    /// Gives up the identifier and returns the value.
    pub fn into_value(self) -> (r: T)
        ensures
            r == self.value,
    {
        self.value
    }
}

} // verus!
