//! Insertion-ordered maps and sets of names, as the resolver hands them
//! over. Their contents are read out once, in order, into vectors; all
//! decisions are taken on those.

use crate::names::views;
use indexmap::IndexMap;
use indexmap::IndexSet;
use vstd::prelude::*;

verus! {

/// `indexmap::IndexMap`: a hash map that keeps its entries in the order in
/// which they were inserted. Nothing of its inside is visible here.
#[verifier::external_type_specification]
#[verifier::external_body]
#[verifier::reject_recursive_types(K)]
#[verifier::reject_recursive_types(V)]
#[verifier::reject_recursive_types(S)]
pub struct ExIndexMap<K, V, S>(IndexMap<K, V, S>);

/// `indexmap::IndexSet`: a hash set that keeps its members in the order in
/// which they were inserted. Nothing of its inside is visible here.
#[verifier::external_type_specification]
#[verifier::external_body]
#[verifier::reject_recursive_types(T)]
#[verifier::reject_recursive_types(S)]
pub struct ExIndexSet<T, S>(IndexSet<T, S>);

/// The entries of a map from split package to depth, in insertion order.
pub uninterp spec fn depth_map_entries(map: IndexMap<String, i32>) -> Seq<(Seq<char>, i32)>;

/// The entries of a map from split package to package base, in insertion
/// order.
pub uninterp spec fn name_map_entries(map: IndexMap<String, String>) -> Seq<
    (Seq<char>, Seq<char>),
>;

/// The members of a set of names, in insertion order.
pub uninterp spec fn name_set_entries(set: IndexSet<String>) -> Seq<Seq<char>>;

/// The views of a list of name and depth pairs.
pub open spec fn depth_pairs(pairs: Seq<(String, i32)>) -> Seq<(Seq<char>, i32)> {
    pairs.map_values(|p: (String, i32)| (p.0@, p.1))
}

/// The views of a list of pairs of names.
pub open spec fn name_pairs(pairs: Seq<(String, String)>) -> Seq<(Seq<char>, Seq<char>)> {
    pairs.map_values(|p: (String, String)| (p.0@, p.1@))
}

/// The keys of a list of name and depth pairs.
pub open spec fn depth_keys(entries: Seq<(Seq<char>, i32)>) -> Seq<Seq<char>> {
    entries.map_values(|e: (Seq<char>, i32)| e.0)
}

/// The keys of a list of pairs of names.
pub open spec fn name_keys(entries: Seq<(Seq<char>, Seq<char>)>) -> Seq<Seq<char>> {
    entries.map_values(|e: (Seq<char>, Seq<char>)| e.0)
}

/// `IndexMap::iter`, collected: the entries of the map, each copied out, in
/// the map's order. The contract claims that they are the map's contents and
/// that no key occurs twice, as in any map.
#[verifier::external_body]
pub(crate) fn depth_entries(map: &IndexMap<String, i32>) -> (out: Vec<(String, i32)>)
    ensures
        depth_pairs(out@) == depth_map_entries(*map),
        depth_keys(depth_pairs(out@)).no_duplicates(),
{
    map.iter().map(|(name, depth)| (name.clone(), *depth)).collect()
}

/// `IndexMap::iter`, collected: the entries of the map, each copied out, in
/// the map's order. The contract claims that they are the map's contents and
/// that no key occurs twice, as in any map.
#[verifier::external_body]
pub(crate) fn name_entries(map: &IndexMap<String, String>) -> (out: Vec<(String, String)>)
    ensures
        name_pairs(out@) == name_map_entries(*map),
        name_keys(name_pairs(out@)).no_duplicates(),
{
    map.iter().map(|(name, base)| (name.clone(), base.clone())).collect()
}

/// `IndexSet::iter`, collected: the members of the set, each copied out, in
/// the set's order. The contract claims that they are the set's contents and
/// that none occurs twice, as in any set.
#[verifier::external_body]
pub(crate) fn set_entries(set: &IndexSet<String>) -> (out: Vec<String>)
    ensures
        views(out@) == name_set_entries(*set),
        views(out@).no_duplicates(),
{
    set.iter().cloned().collect()
}

/// `IndexSet::from_iter` on names that are all different: the set that holds
/// them, in their order.
#[verifier::external_body]
pub(crate) fn name_set(names: Vec<String>) -> (out: IndexSet<String>)
    requires
        views(names@).no_duplicates(),
    ensures
        name_set_entries(out) == views(names@),
{
    names.into_iter().collect()
}

} // verus!
