//! Hash collections keyed by strings, as `rustc_hash` provides them.
//!
//! `FxHashMap` and `FxHashSet` are std's `HashMap` and `HashSet` with the
//! hasher of `rustc_hash`. Nothing here is proved: each function below makes
//! one call on such a collection, and its contract states what std documents
//! of that call, over the name given here to what the collection holds.

use rustc_hash::{FxHashMap, FxHashSet};
use vstd::prelude::*;

verus! {

/// The hasher factory of `rustc_hash`, a unit struct.
#[verifier::external_type_specification]
#[verifier::external_body]
pub struct ExFxBuildHasher(rustc_hash::FxBuildHasher);

/// The keys of `table`, each as its sequence of characters, with the number
/// stored under it.
pub uninterp spec fn table_entries(table: FxHashMap<String, usize>) -> Map<Seq<char>, usize>;

/// The strings in `set`, each as its sequence of characters.
pub uninterp spec fn set_members(set: FxHashSet<String>) -> Set<Seq<char>>;

/// `FxHashMap::default`: a map that holds nothing.
#[verifier::external_body]
pub(crate) fn table_new() -> (table: FxHashMap<String, usize>)
    ensures
        table_entries(table) == (Map::<Seq<char>, usize>::empty()),
{
    FxHashMap::default()
}

/// `HashMap::insert`: afterwards `key` maps to `value` and every other key is
/// as before; the value that `key` had, if it had one, is returned.
#[verifier::external_body]
pub(crate) fn table_insert(table: &mut FxHashMap<String, usize>, key: String, value: usize) -> (previous:
    Option<usize>)
    ensures
        table_entries(*final(table)) == table_entries(*old(table)).insert(key@, value),
        previous == if table_entries(*old(table)).contains_key(key@) {
            Some(table_entries(*old(table))[key@])
        } else {
            None
        },
{
    table.insert(key, value)
}

/// `HashMap::get`: the value stored under `key`, if there is one.
#[verifier::external_body]
pub(crate) fn table_get(table: &FxHashMap<String, usize>, key: &String) -> (found: Option<usize>)
    ensures
        found == if table_entries(*table).contains_key(key@) {
            Some(table_entries(*table)[key@])
        } else {
            None
        },
{
    table.get(key).copied()
}

/// `FxHashSet::default`: a set that holds nothing.
#[verifier::external_body]
pub(crate) fn set_new() -> (set: FxHashSet<String>)
    ensures
        set_members(set) == Set::<Seq<char>>::empty(),
{
    FxHashSet::default()
}

/// `HashSet::insert`: afterwards `item` is a member and every other string is
/// as before; the result tells whether `item` was new.
#[verifier::external_body]
pub(crate) fn set_insert(set: &mut FxHashSet<String>, item: String) -> (fresh: bool)
    ensures
        set_members(*final(set)) == set_members(*old(set)).insert(item@),
        fresh == !set_members(*old(set)).contains(item@),
{
    set.insert(item)
}

/// `HashSet::contains`: whether `item` is a member.
#[verifier::external_body]
pub(crate) fn set_contains(set: &FxHashSet<String>, item: &String) -> (present: bool)
    ensures
        present == set_members(*set).contains(item@),
{
    set.contains(item)
}

} // verus!
