//! The hash tables that map register and global slots to value cells.
use ahash::AHashMap;
use vstd::prelude::*;

verus! {

#[verifier::external_type_specification]
#[verifier::external_body]
#[verifier::reject_recursive_types(K)]
#[verifier::reject_recursive_types(V)]
#[verifier::reject_recursive_types(S)]
pub struct ExAHashMap<K, V, S>(AHashMap<K, V, S>);

#[verifier::external_type_specification]
#[verifier::external_body]
pub struct ExRandomState(ahash::RandomState);

/// The entries of a slot table.
pub uninterp spec fn slot_table(m: AHashMap<u32, usize>) -> Map<u32, usize>;

/// Relies on `AHashMap::new`: a map with no entries.
#[verifier::external_body]
pub(crate) fn table_new() -> (r: AHashMap<u32, usize>)
    ensures
        slot_table(r).dom() == Set::<u32>::empty(),
{
    AHashMap::new()
}

/// Relies on `AHashMap::get`: the value stored under `k`, if there is one.
#[verifier::external_body]
pub(crate) fn table_get(m: &AHashMap<u32, usize>, k: u32) -> (r: Option<usize>)
    ensures
        slot_table(*m).contains_key(k) ==> r == Some(slot_table(*m)[k]),
        !slot_table(*m).contains_key(k) ==> r is None,
{
    m.get(&k).copied()
}

/// Relies on `AHashMap::insert`: afterwards `k` maps to `v` and every other key keeps
/// its entry.
#[verifier::external_body]
pub(crate) fn table_insert(m: &mut AHashMap<u32, usize>, k: u32, v: usize)
    ensures
        slot_table(*final(m)) == slot_table(*old(m)).insert(k, v),
{
    m.insert(k, v);
}

} // verus!
