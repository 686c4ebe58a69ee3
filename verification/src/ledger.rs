//! The concurrent hash set and hash map that a harvest is kept in, as seen by their one owner.
use dashmap::{DashMap, DashSet};
use vstd::prelude::*;

use crate::text::texts;

verus! {

/// What one source gave.
#[derive(Debug, Clone, Copy, PartialEq, Eq)]
pub struct SourceStats {
    /// The lines that hold a usable node.
    pub lines: usize,
    /// The size of what was downloaded, in bytes.
    pub size: usize,
    /// The nodes that no source had given before.
    pub unique: usize,
}

/// `dashmap::DashSet`, opaque.
#[verifier::external_type_specification]
#[verifier::external_body]
#[verifier::reject_recursive_types(K)]
#[verifier::reject_recursive_types(S)]
pub struct ExDashSet<K, S>(dashmap::DashSet<K, S>);

/// `dashmap::DashMap`, opaque.
#[verifier::external_type_specification]
#[verifier::external_body]
#[verifier::reject_recursive_types(K)]
#[verifier::reject_recursive_types(V)]
#[verifier::reject_recursive_types(S)]
pub struct ExDashMap<K, V, S>(dashmap::DashMap<K, V, S>);

/// The texts in a set.
pub uninterp spec fn members(set: DashSet<String>) -> Set<Seq<char>>;

/// What a map records of each source.
pub uninterp spec fn records(map: DashMap<String, SourceStats>) -> Map<Seq<char>, SourceStats>;

/// Calls `DashSet::new`, which makes an empty set.
#[verifier::external_body]
pub(crate) fn new_set() -> (set: DashSet<String>)
    ensures
        members(set) == Set::<Seq<char>>::empty(),
{
    DashSet::new()
}

/// Calls `DashSet::insert`, which adds a text and says whether it is new. The set is borrowed
/// mutably, so that no other thread can reach it during the call.
#[verifier::external_body]
pub(crate) fn add_member(set: &mut DashSet<String>, text: String) -> (fresh: bool)
    ensures
        members(*final(set)) == members(*old(set)).insert(text@),
        fresh == !members(*old(set)).contains(text@),
{
    set.insert(text)
}

/// Calls `DashSet::iter` and copies each text out. Each comes once; in which order they come is
/// open.
#[verifier::external_body]
pub(crate) fn list_members(set: &DashSet<String>) -> (list: Vec<String>)
    ensures
        texts(list@).no_duplicates(),
        texts(list@).to_set() == members(*set),
{
    set.iter().map(|text| text.key().clone()).collect()
}

/// Calls `DashMap::new`, which makes an empty map.
#[verifier::external_body]
pub(crate) fn new_map() -> (map: DashMap<String, SourceStats>)
    ensures
        (records(map) == Map::<Seq<char>, SourceStats>::empty()),
{
    DashMap::new()
}

/// Calls `DashMap::insert`, which records `stats` for `source` in place of what was there. The
/// map is borrowed mutably, so that no other thread can reach it during the call.
#[verifier::external_body]
pub(crate) fn put_record(map: &mut DashMap<String, SourceStats>, source: String, stats: SourceStats)
    ensures
        records(*final(map)) == records(*old(map)).insert(source@, stats),
{
    map.insert(source, stats);
}

/// The sources in a list of records.
pub open spec fn sources(rows: Seq<(String, SourceStats)>) -> Seq<Seq<char>> {
    Seq::new(rows.len(), |i: int| rows[i].0@)
}

/// Calls `DashMap::iter` and copies each record out. Each comes once; in which order they come
/// is open.
#[verifier::external_body]
pub(crate) fn list_records(map: &DashMap<String, SourceStats>) -> (rows: Vec<
    (String, SourceStats),
>)
    ensures
        sources(rows@).no_duplicates(),
        sources(rows@).to_set() == records(*map).dom(),
        forall|i: int|
            0 <= i < rows@.len() ==> records(*map)[(#[trigger] rows@[i]).0@] == rows@[i].1,
{
    map.iter().map(|record| (record.key().clone(), *record.value())).collect()
}

} // verus!
