//! The hash maps that hold records and live keys, as far as `dashmap` is
//! trusted with them: what each of its calls does to the contents.

use vstd::prelude::*;

use dashmap::DashMap;

use crate::engine::key::{KeyState, StateView};
use crate::storage::record::{KeyRecord, RecordView};

verus! {

/// A concurrent hash map, known by its contents alone.
#[verifier::external_type_specification]
#[verifier::external_body]
#[verifier::reject_recursive_types(K)]
#[verifier::reject_recursive_types(V)]
#[verifier::reject_recursive_types(S)]
pub struct ExDashMap<K, V, S>(DashMap<K, V, S>);

/// The records that a map holds.
pub uninterp spec fn records_in(map: DashMap<String, KeyRecord>) -> Map<Seq<char>, RecordView>;

/// No record at all.
pub open spec fn no_records() -> Map<Seq<char>, RecordView> {
    Map::empty()
}

/// `DashMap::new`: an empty map.
#[verifier::external_body]
pub(crate) fn records_new() -> (r: DashMap<String, KeyRecord>)
    ensures
        records_in(r) == no_records(),
{
    DashMap::new()
}

/// `DashMap::insert`: the id stands for the record from now on.
#[verifier::external_body]
pub(crate) fn records_insert(map: &mut DashMap<String, KeyRecord>, id: String, record: KeyRecord)
    ensures
        records_in(*final(map)) == records_in(*old(map)).insert(id@, record@),
{
    map.insert(id, record);
}

/// `DashMap::remove`: the id stands for nothing from now on; tells whether it
/// stood for a record.
#[verifier::external_body]
pub(crate) fn records_remove(map: &mut DashMap<String, KeyRecord>, id: &str) -> (r: bool)
    ensures
        r == records_in(*old(map)).contains_key(id@),
        records_in(*final(map)) == records_in(*old(map)).remove(id@),
{
    map.remove(id).is_some()
}

/// `DashMap::get`: a copy of the record that the id stands for.
#[verifier::external_body]
pub(crate) fn records_get(map: &DashMap<String, KeyRecord>, id: &str) -> (r: Option<KeyRecord>)
    ensures
        r is Some <==> records_in(*map).contains_key(id@),
        r matches Some(record) ==> record@ == records_in(*map)[id@],
{
    map.get(id).map(|entry| entry.value().clone())
}

/// `DashMap::iter`: a copy of every entry, each once, in no particular order.
#[verifier::external_body]
pub(crate) fn records_entries(map: &DashMap<String, KeyRecord>) -> (r: Vec<(String, KeyRecord)>)
    ensures
        forall|i: int|
            0 <= i < r.len() ==> records_in(*map).contains_key((#[trigger] r[i]).0@) && r[i].1@
                == records_in(*map)[r[i].0@],
        forall|i: int, j: int|
            0 <= i < j < r.len() ==> (#[trigger] r[i]).0@ != (#[trigger] r[j]).0@,
        forall|id: Seq<char>| #[trigger]
            records_in(*map).contains_key(id) ==> exists|i: int|
                0 <= i < r.len() && (#[trigger] r[i]).0@ == id,
{
    map.iter().map(|entry| (entry.key().clone(), entry.value().clone())).collect()
}

/// The keys that a map holds.
pub uninterp spec fn keys_in(map: DashMap<String, KeyState>) -> Map<Seq<char>, StateView>;

/// No key at all.
pub open spec fn no_keys() -> Map<Seq<char>, StateView> {
    Map::empty()
}

/// `DashMap::new`: an empty map.
#[verifier::external_body]
pub(crate) fn table_new() -> (r: DashMap<String, KeyState>)
    ensures
        keys_in(r) == no_keys(),
{
    DashMap::new()
}

/// `DashMap::insert`: the id stands for the state from now on.
#[verifier::external_body]
pub(crate) fn table_insert(map: &mut DashMap<String, KeyState>, id: String, state: KeyState)
    ensures
        keys_in(*final(map)) == keys_in(*old(map)).insert(id@, state@),
{
    map.insert(id, state);
}

/// `DashMap::remove`: the id stands for nothing from now on; tells whether it
/// stood for a key.
#[verifier::external_body]
pub(crate) fn table_remove(map: &mut DashMap<String, KeyState>, id: &str) -> (r: bool)
    ensures
        r == keys_in(*old(map)).contains_key(id@),
        keys_in(*final(map)) == keys_in(*old(map)).remove(id@),
{
    map.remove(id).is_some()
}

/// `DashMap::get`: a copy of the state that the id stands for.
#[verifier::external_body]
pub(crate) fn table_get(map: &DashMap<String, KeyState>, id: &str) -> (r: Option<KeyState>)
    ensures
        r is Some <==> keys_in(*map).contains_key(id@),
        r matches Some(state) ==> state@ == keys_in(*map)[id@],
{
    map.get(id).map(|entry| entry.value().clone())
}

/// `DashMap::iter`: a copy of every entry, each once, in no particular order.
#[verifier::external_body]
pub(crate) fn table_entries(map: &DashMap<String, KeyState>) -> (r: Vec<(String, KeyState)>)
    ensures
        forall|i: int|
            0 <= i < r.len() ==> keys_in(*map).contains_key((#[trigger] r[i]).0@) && r[i].1@
                == keys_in(*map)[r[i].0@],
        forall|i: int, j: int|
            0 <= i < j < r.len() ==> (#[trigger] r[i]).0@ != (#[trigger] r[j]).0@,
        forall|id: Seq<char>| #[trigger]
            keys_in(*map).contains_key(id) ==> exists|i: int|
                0 <= i < r.len() && (#[trigger] r[i]).0@ == id,
{
    map.iter().map(|entry| (entry.key().clone(), entry.value().clone())).collect()
}

/// `DashMap::len`: how many keys there are.
#[verifier::external_body]
pub(crate) fn table_len(map: &DashMap<String, KeyState>) -> (r: usize)
    ensures
        r == keys_in(*map).dom().len(),
{
    map.len()
}

/// `DashMap::is_empty`: whether there is no key.
#[verifier::external_body]
pub(crate) fn table_is_empty(map: &DashMap<String, KeyState>) -> (r: bool)
    ensures
        r == (keys_in(*map) == no_keys()),
{
    map.is_empty()
}

} // verus!
