//! The job table: waiters keyed by correlation id, kept in a concurrent map.
use vstd::prelude::*;
use dashmap::DashMap;

verus! {

#[verifier::external_type_specification]
#[verifier::external_body]
#[verifier::reject_recursive_types(K)]
#[verifier::reject_recursive_types(V)]
#[verifier::reject_recursive_types(S)]
pub struct ExDashMap<K, V, S>(DashMap<K, V, S>);

/// The entries of a job table: correlation id to waiter.
pub uninterp spec fn job_table(m: DashMap<Vec<u8>, u64>) -> Map<Seq<u8>, u64>;

/// Relies on `DashMap::new`: a map with no entries.
#[verifier::external_body]
pub(crate) fn new_table() -> (r: DashMap<Vec<u8>, u64>)
    ensures
        job_table(r).is_empty(),
{
    DashMap::new()
}

/// Relies on `DashMap::insert`: afterwards the key maps to the value and no other entry changed.
#[verifier::external_body]
pub(crate) fn insert_entry(m: &mut DashMap<Vec<u8>, u64>, key: Vec<u8>, value: u64)
    ensures
        job_table(*final(m)) == job_table(*old(m)).insert(key@, value),
{
    m.insert(key, value);
}

/// Relies on `DashMap::remove`: hands back the value under the key, if any, and removes that
/// entry alone.
#[verifier::external_body]
pub(crate) fn remove_entry(m: &mut DashMap<Vec<u8>, u64>, key: &[u8]) -> (r: Option<u64>)
    ensures
        job_table(*final(m)) == job_table(*old(m)).remove(key@),
        match r {
            Some(v) => job_table(*old(m)).contains_key(key@) && job_table(*old(m))[key@] == v,
            None => !job_table(*old(m)).contains_key(key@),
        },
{
    m.remove(key).map(|e| e.1)
}

/// Relies on `DashMap::contains_key`: whether the key has an entry.
#[verifier::external_body]
pub(crate) fn has_entry(m: &DashMap<Vec<u8>, u64>, key: &[u8]) -> (r: bool)
    ensures
        r == job_table(*m).contains_key(key@),
{
    m.contains_key(key)
}

/// Relies on `DashMap::len`: the number of entries.
#[verifier::external_body]
pub(crate) fn entry_count(m: &DashMap<Vec<u8>, u64>) -> (r: usize)
    ensures
        r == job_table(*m).dom().len(),
{
    m.len()
}

/// Relies on `DashMap::iter`: visits each entry once, in an order the map decides. Hands out
/// the values.
#[verifier::external_body]
pub(crate) fn entry_values(m: &DashMap<Vec<u8>, u64>) -> (r: Vec<u64>)
    ensures
        r@.len() == job_table(*m).dom().len(),
        r@.to_set() == job_table(*m).values(),
{
    m.iter().map(|e| *e.value()).collect()
}

/// Relies on `DashMap::clear`: afterwards the map has no entries.
#[verifier::external_body]
pub(crate) fn clear_entries(m: &mut DashMap<Vec<u8>, u64>)
    ensures
        job_table(*final(m)).is_empty(),
{
    m.clear();
}

} // verus!
