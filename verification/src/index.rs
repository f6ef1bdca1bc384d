//! The map from revision identifier to node position, hashed with Fx.

use rustc_hash::FxBuildHasher;
use std::collections::HashMap;
use vstd::prelude::*;

verus! {

/// `rustc_hash::FxBuildHasher`, the hasher of the index.
#[verifier::external_type_specification]
#[verifier::external_body]
pub struct ExFxBuildHasher(FxBuildHasher);

/// The entries of a revision index: each key's characters, and the position
/// stored under it.
pub uninterp spec fn index_entries(index: HashMap<String, usize, FxBuildHasher>) -> Map<Seq<char>, usize>;

/// `HashMap::with_capacity_and_hasher` with the Fx hasher: an index without
/// entries.
#[verifier::external_body]
pub(crate) fn index_new(capacity: usize) -> (index: HashMap<String, usize, FxBuildHasher>)
    ensures
        forall|key: Seq<char>| !index_entries(index).contains_key(key),
{
    HashMap::with_capacity_and_hasher(capacity, FxBuildHasher)
}

/// `HashMap::insert`: the key now leads to `ix`, whatever it led to before;
/// every other key is untouched.
#[verifier::external_body]
pub(crate) fn index_insert(index: &mut HashMap<String, usize, FxBuildHasher>, key: String, ix: usize)
    ensures
        index_entries(*final(index)) == index_entries(*old(index)).insert(key@, ix),
{
    index.insert(key, ix);
}

/// `HashMap::get`, copied out: the position stored under the key, if the key
/// is present.
#[verifier::external_body]
pub(crate) fn index_get(index: &HashMap<String, usize, FxBuildHasher>, key: &str) -> (ix: Option<usize>)
    ensures
        ix == (if index_entries(*index).contains_key(key@) {
            Some(index_entries(*index)[key@])
        } else {
            None
        }),
{
    index.get(key).copied()
}

} // verus!
