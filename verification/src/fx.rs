//! Hash maps and sets of the `fxhash` crate, as the indexes use them.
use vstd::prelude::*;
use vstd::std_specs::hash::*;
use fxhash::{FxBuildHasher, FxHashMap, FxHashSet, FxHasher};
use std::hash::BuildHasherDefault;

verus! {

/// `fxhash::FxHasher`, the hasher of the maps and sets below. Nothing is
/// claimed of the type itself.
#[verifier::external_type_specification]
#[verifier::external_body]
pub struct ExFxHasher(FxHasher);

/// `std::hash::BuildHasherDefault`, which makes each hasher with `default()`.
/// Nothing is claimed of the type itself.
#[verifier::external_type_specification]
#[verifier::external_body]
#[verifier::reject_recursive_types(H)]
pub struct ExBuildHasherDefault<H>(BuildHasherDefault<H>);

/// Whether the hashers that `m` builds give one hash to one sequence of
/// writes. This belongs to the hasher's type; it is stated of a map so
/// that the function that makes the map can promise it.
pub open spec fn hashes_by_content<K>(m: &FxHashMap<K, FxHashSet<usize>>) -> bool {
    builds_valid_hashers::<FxBuildHasher>()
}

/// `FxHashMap::default`: an empty map whose hasher is `fxhash::FxHasher`.
///
/// Every `FxHasher` starts from the same state and `write` mixes in the bytes
/// it is given and nothing else, so two hashers that were written the same
/// bytes finish with the same hash. That is what the specifications of
/// `HashMap` and `HashSet` ask of a hasher before they say anything.
#[verifier::external_body]
pub(crate) fn new_key_map<K>() -> (m: FxHashMap<K, FxHashSet<usize>>)
    ensures
        m@ == (Map::<K, FxHashSet<usize>>::empty()),
        hashes_by_content(&m),
{
    FxHashMap::default()
}

} // verus!
