//! The concurrent maps of `dashmap` that hold the inode table, its indices
//! and the set of known torrents, with what each operation does to their
//! contents.
use crate::types::inode::InodeEntry;
use dashmap::{DashMap, DashSet};
use vstd::prelude::*;

verus! {

#[verifier::external_type_specification]
#[verifier::external_body]
#[verifier::reject_recursive_types(K)]
#[verifier::reject_recursive_types(V)]
#[verifier::reject_recursive_types(S)]
pub struct ExDashMap<K, V, S>(DashMap<K, V, S>);

#[verifier::external_type_specification]
#[verifier::external_body]
#[verifier::reject_recursive_types(K)]
#[verifier::reject_recursive_types(S)]
pub struct ExDashSet<K, S>(DashSet<K, S>);

/// What an inode table holds.
pub uninterp spec fn inode_table(m: DashMap<u64, InodeEntry>) -> Map<u64, InodeEntry>;

/// What a path index holds, keyed by the path's characters.
pub uninterp spec fn path_index(m: DashMap<String, u64>) -> Map<Seq<char>, u64>;

/// What a torrent index holds.
pub uninterp spec fn torrent_index(m: DashMap<u64, u64>) -> Map<u64, u64>;

/// What a set of torrent ids holds.
pub uninterp spec fn id_set(s: DashSet<u64>) -> Set<u64>;

/// The empty inode table.
pub open spec fn empty_inode_map() -> Map<u64, InodeEntry> {
    Map::empty()
}

/// The empty path index.
pub open spec fn empty_path_map() -> Map<Seq<char>, u64> {
    Map::empty()
}

/// The empty torrent index.
pub open spec fn empty_id_map() -> Map<u64, u64> {
    Map::empty()
}

/// The empty set of ids.
pub open spec fn empty_id_set() -> Set<u64> {
    Set::empty()
}

// ---- inode table -------------------------------------------------------

/// `DashMap::new`: an empty map.
#[verifier::external_body]
pub(crate) fn inode_table_new() -> (m: DashMap<u64, InodeEntry>)
    ensures
        inode_table(m) == empty_inode_map(),
{
    DashMap::new()
}

/// `DashMap::insert`: the key now maps to the value.
#[verifier::external_body]
pub(crate) fn inode_table_insert(m: &mut DashMap<u64, InodeEntry>, key: u64, value: InodeEntry)
    ensures
        inode_table(*final(m)) == inode_table(*old(m)).insert(key, value),
{
    m.insert(key, value);
}

/// `DashMap::get` and a clone of the value: the value under the key, if any.
#[verifier::external_body]
pub(crate) fn inode_table_get(m: &DashMap<u64, InodeEntry>, key: u64) -> (r: Option<InodeEntry>)
    ensures
        r == (if inode_table(*m).dom().contains(key) {
            Some(inode_table(*m)[key])
        } else {
            None::<InodeEntry>
        }),
{
    m.get(&key).map(|e| e.value().clone())
}

/// `DashMap::remove`: the key is gone; the value it had is returned.
#[verifier::external_body]
pub(crate) fn inode_table_remove(m: &mut DashMap<u64, InodeEntry>, key: u64) -> (r: Option<InodeEntry>)
    ensures
        inode_table(*final(m)) == inode_table(*old(m)).remove(key),
        r == (if inode_table(*old(m)).dom().contains(key) {
            Some(inode_table(*old(m))[key])
        } else {
            None::<InodeEntry>
        }),
{
    m.remove(&key).map(|(_, v)| v)
}

/// `DashMap::contains_key`.
#[verifier::external_body]
pub(crate) fn inode_table_contains(m: &DashMap<u64, InodeEntry>, key: u64) -> (r: bool)
    ensures
        r == inode_table(*m).dom().contains(key),
{
    m.contains_key(&key)
}

/// `DashMap::len`: the number of keys; the key set is finite.
#[verifier::external_body]
pub(crate) fn inode_table_len(m: &DashMap<u64, InodeEntry>) -> (r: usize)
    ensures
        r == inode_table(*m).dom().len(),
{
    m.len()
}

/// `DashMap::iter`, each item copied out: every pair of the map once, in
/// the map's own order.
#[verifier::external_body]
pub(crate) fn inode_table_pairs(m: &DashMap<u64, InodeEntry>) -> (r: Vec<(u64, InodeEntry)>)
    ensures
        r@.len() == inode_table(*m).dom().len(),
        forall|i: int| 0 <= i < r@.len() ==> inode_table(*m).dom().contains(#[trigger] r@[i].0)
            && inode_table(*m)[r@[i].0] == r@[i].1,
        forall|i: int, j: int| 0 <= i < r@.len() && 0 <= j < r@.len() && i != j ==> #[trigger] r@[i].0
            != #[trigger] r@[j].0,
        forall|k: u64| inode_table(*m).dom().contains(k) ==> exists|i: int| 0 <= i < r@.len() && #[trigger] r@[i].0 == k,
{
    let mut v = Vec::new();
    for item in m.iter() {
        v.push((*item.key(), item.value().clone()));
    }
    v
}

// ---- path index --------------------------------------------------------

/// `DashMap::new`: an empty map.
#[verifier::external_body]
pub(crate) fn path_index_new() -> (m: DashMap<String, u64>)
    ensures
        path_index(m) == empty_path_map(),
{
    DashMap::new()
}

/// `DashMap::insert`: the path now maps to the inode.
#[verifier::external_body]
pub(crate) fn path_index_insert(m: &mut DashMap<String, u64>, key: String, value: u64)
    ensures
        path_index(*final(m)) == path_index(*old(m)).insert(key@, value),
{
    m.insert(key, value);
}

/// `DashMap::get`: the inode under the path, if any.
#[verifier::external_body]
pub(crate) fn path_index_get(m: &DashMap<String, u64>, key: &str) -> (r: Option<u64>)
    ensures
        r == (if path_index(*m).dom().contains(key@) {
            Some(path_index(*m)[key@])
        } else {
            None::<u64>
        }),
{
    m.get(key).map(|e| *e.value())
}

/// `DashMap::remove`: the path is gone.
#[verifier::external_body]
pub(crate) fn path_index_remove(m: &mut DashMap<String, u64>, key: &str)
    ensures
        path_index(*final(m)) == path_index(*old(m)).remove(key@),
{
    m.remove(key);
}

/// `DashMap::iter`, each item copied out: every pair of the map, in the
/// map's own order.
#[verifier::external_body]
pub(crate) fn path_index_pairs(m: &DashMap<String, u64>) -> (r: Vec<(String, u64)>)
    ensures
        forall|i: int| 0 <= i < r@.len() ==> path_index(*m).dom().contains(#[trigger] r@[i].0@)
            && path_index(*m)[r@[i].0@] == r@[i].1,
        forall|p: Seq<char>| path_index(*m).dom().contains(p) ==> exists|i: int| 0 <= i < r@.len() && #[trigger] r@[i].0@ == p,
{
    let mut v = Vec::new();
    for item in m.iter() {
        v.push((item.key().clone(), *item.value()));
    }
    v
}

/// `DashMap::clear`: nothing is left.
#[verifier::external_body]
pub(crate) fn path_index_clear(m: &mut DashMap<String, u64>)
    ensures
        path_index(*final(m)) == empty_path_map(),
{
    m.clear();
}

// ---- torrent index -----------------------------------------------------

/// `DashMap::new`: an empty map.
#[verifier::external_body]
pub(crate) fn torrent_index_new() -> (m: DashMap<u64, u64>)
    ensures
        torrent_index(m) == empty_id_map(),
{
    DashMap::new()
}

/// `DashMap::insert`: the torrent now maps to the inode.
#[verifier::external_body]
pub(crate) fn torrent_index_insert(m: &mut DashMap<u64, u64>, key: u64, value: u64)
    ensures
        torrent_index(*final(m)) == torrent_index(*old(m)).insert(key, value),
{
    m.insert(key, value);
}

/// `DashMap::get`: the inode of the torrent, if any.
#[verifier::external_body]
pub(crate) fn torrent_index_get(m: &DashMap<u64, u64>, key: u64) -> (r: Option<u64>)
    ensures
        r == (if torrent_index(*m).dom().contains(key) {
            Some(torrent_index(*m)[key])
        } else {
            None::<u64>
        }),
{
    m.get(&key).map(|e| *e.value())
}

/// `DashMap::remove`: the torrent is gone.
#[verifier::external_body]
pub(crate) fn torrent_index_remove(m: &mut DashMap<u64, u64>, key: u64)
    ensures
        torrent_index(*final(m)) == torrent_index(*old(m)).remove(key),
{
    m.remove(&key);
}

/// `DashMap::clear`: nothing is left.
#[verifier::external_body]
pub(crate) fn torrent_index_clear(m: &mut DashMap<u64, u64>)
    ensures
        torrent_index(*final(m)) == empty_id_map(),
{
    m.clear();
}

/// `DashMap::iter`, each item copied out: every pair of the map once, in
/// the map's own order.
#[verifier::external_body]
pub(crate) fn torrent_index_pairs(m: &DashMap<u64, u64>) -> (r: Vec<(u64, u64)>)
    ensures
        r@.len() == torrent_index(*m).dom().len(),
        forall|i: int| 0 <= i < r@.len() ==> torrent_index(*m).dom().contains(#[trigger] r@[i].0)
            && torrent_index(*m)[r@[i].0] == r@[i].1,
        forall|i: int, j: int| 0 <= i < r@.len() && 0 <= j < r@.len() && i != j ==> #[trigger] r@[i].0
            != #[trigger] r@[j].0,
        forall|k: u64| torrent_index(*m).dom().contains(k) ==> exists|i: int| 0 <= i < r@.len() && #[trigger] r@[i].0 == k,
{
    let mut v = Vec::new();
    for item in m.iter() {
        v.push((*item.key(), *item.value()));
    }
    v
}

// ---- id set ------------------------------------------------------------

/// `DashSet::new`: an empty set.
#[verifier::external_body]
pub(crate) fn id_set_new() -> (s: DashSet<u64>)
    ensures
        id_set(s) == empty_id_set(),
{
    DashSet::new()
}

/// `DashSet::insert`: the id is in the set.
#[verifier::external_body]
pub(crate) fn id_set_insert(s: &mut DashSet<u64>, id: u64)
    ensures
        id_set(*final(s)) == id_set(*old(s)).insert(id),
{
    s.insert(id);
}

/// `DashSet::remove`: the id is not in the set.
#[verifier::external_body]
pub(crate) fn id_set_remove(s: &mut DashSet<u64>, id: u64)
    ensures
        id_set(*final(s)) == id_set(*old(s)).remove(id),
{
    s.remove(&id);
}

/// `DashSet::contains`.
#[verifier::external_body]
pub(crate) fn id_set_contains(s: &DashSet<u64>, id: u64) -> (r: bool)
    ensures
        r == id_set(*s).contains(id),
{
    s.contains(&id)
}

/// `DashSet::iter`, each item copied out: every id of the set once.
#[verifier::external_body]
pub(crate) fn id_set_items(s: &DashSet<u64>) -> (r: Vec<u64>)
    ensures
        r@.no_duplicates(),
        r@.to_set() == id_set(*s),
{
    let mut v = Vec::new();
    for item in s.iter() {
        v.push(*item.key());
    }
    v
}

} // verus!
