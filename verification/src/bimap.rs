//! The two-way map of the `bidir_map` crate, as far as the store uses it.
//!
//! Nothing in this file is proved: each function calls the map and states what
//! the crate does, which is to keep its pairs in a vector and to search it
//! from the front.

use bidir_map::BidirMap;
use vstd::prelude::*;

verus! {

/// `bidir_map::BidirMap`, taken as a whole: what a map holds is known by
/// `pairs` alone.
#[verifier::external_type_specification]
#[verifier::external_body]
#[verifier::reject_recursive_types(Kv1)]
#[verifier::reject_recursive_types(Kv2)]
pub struct ExBidirMap<Kv1: PartialEq, Kv2: PartialEq>(BidirMap<Kv1, Kv2>);

/// Pairs of texts, in an order: what a map holds, and what the store holds
/// as its entries, each a token and its URL.
pub type Entries = Seq<(Seq<char>, Seq<char>)>;

/// The pairs that `map` holds, in the order in which it keeps them.
pub uninterp spec fn pairs(map: BidirMap<String, String>) -> Seq<(Seq<char>, Seq<char>)>;

/// The pairs of strings in `entries`, each string as its characters.
pub open spec fn pair_views(entries: Seq<(String, String)>) -> Entries {
    Seq::new(entries.len(), |i: int| (entries[i].0@, entries[i].1@))
}

/// Some pair of `s` has `key` as its first component.
pub open spec fn has_first(s: Entries, key: Seq<char>) -> bool {
    exists|i: int| 0 <= i < s.len() && (#[trigger] s[i]).0 == key
}

/// Some pair of `s` has `key` as its second component.
pub open spec fn has_second(s: Entries, key: Seq<char>) -> bool {
    exists|i: int| 0 <= i < s.len() && (#[trigger] s[i]).1 == key
}

/// `i` is the place of the earliest pair of `s` whose first component is `key`.
pub open spec fn earliest_first(s: Entries, key: Seq<char>, i: int) -> bool {
    &&& 0 <= i < s.len()
    &&& s[i].0 == key
    &&& forall|j: int| 0 <= j < i ==> (#[trigger] s[j]).0 != key
}

/// `i` is the place of the earliest pair of `s` whose second component is `key`.
pub open spec fn earliest_second(s: Entries, key: Seq<char>, i: int) -> bool {
    &&& 0 <= i < s.len()
    &&& s[i].1 == key
    &&& forall|j: int| 0 <= j < i ==> (#[trigger] s[j]).1 != key
}

/// `BidirMap::new`: a map that holds no pair.
#[verifier::external_body]
pub(crate) fn empty_map() -> (map: BidirMap<String, String>)
    ensures
        pairs(map) == Entries::empty(),
{
    BidirMap::new()
}

/// `BidirMap::from_iter`: a map that holds the pairs of `entries`, in their
/// order. The map takes them as they come: it looks for no pair that
/// is there twice.
#[verifier::external_body]
pub(crate) fn map_of(entries: Vec<(String, String)>) -> (map: BidirMap<String, String>)
    ensures
        pairs(map) == pair_views(entries@),
{
    entries.into_iter().collect()
}

/// `BidirMap::len`: how many pairs the map holds.
#[verifier::external_body]
pub(crate) fn count(map: &BidirMap<String, String>) -> (n: usize)
    ensures
        n == pairs(*map).len(),
{
    map.len()
}

/// `BidirMap::contains_first_key`: whether a pair has `key` as its first
/// component.
#[verifier::external_body]
pub(crate) fn contains_first(map: &BidirMap<String, String>, key: &str) -> (found: bool)
    ensures
        found == has_first(pairs(*map), key@),
{
    map.contains_first_key(key)
}

/// `BidirMap::get_by_first`: the second component of the earliest pair whose
/// first component is `key`, if there is such a pair.
#[verifier::external_body]
pub(crate) fn second_of<'a>(map: &'a BidirMap<String, String>, key: &str) -> (found: Option<
    &'a String,
>)
    ensures
        match found {
            Some(second) => exists|i: int|
                earliest_first(pairs(*map), key@, i) && (#[trigger] pairs(*map)[i]).1 == second@,
            None => !has_first(pairs(*map), key@),
        },
{
    map.get_by_first(key)
}

/// `BidirMap::get_by_second`: the first component of the earliest pair whose
/// second component is `key`, if there is such a pair.
#[verifier::external_body]
pub(crate) fn first_of<'a>(map: &'a BidirMap<String, String>, key: &str) -> (found: Option<
    &'a String,
>)
    ensures
        match found {
            Some(first) => exists|i: int|
                earliest_second(pairs(*map), key@, i) && (#[trigger] pairs(*map)[i]).0 == first@,
            None => !has_second(pairs(*map), key@),
        },
{
    map.get_by_second(key)
}

/// `BidirMap::insert`, where neither component is in the map yet: the pair is
/// put behind the others and nothing is handed back. Of the other cases, in
/// which the map first drops a pair, nothing is said.
#[verifier::external_body]
pub(crate) fn insert_pair(
    map: &mut BidirMap<String, String>,
    first: String,
    second: String,
) -> (dropped: Option<(String, String)>)
    ensures
        !has_first(pairs(*old(map)), first@) && !has_second(pairs(*old(map)), second@) ==> {
            &&& dropped is None
            &&& pairs(*final(map)) == pairs(*old(map)).push((first@, second@))
        },
{
    map.insert(first, second)
}

/// `BidirMap::remove_by_first`: the earliest pair whose first component is
/// `key` leaves the map and is handed back, and the last pair takes its place.
/// A map without such a pair stays as it is.
#[verifier::external_body]
pub(crate) fn remove_first(map: &mut BidirMap<String, String>, key: &str) -> (removed: Option<
    (String, String),
>)
    ensures
        match removed {
            Some(pair) => exists|i: int|
                {
                    &&& earliest_first(pairs(*old(map)), key@, i)
                    &&& (#[trigger] pairs(*old(map))[i]) == (pair.0@, pair.1@)
                    &&& pairs(*final(map)) == pairs(*old(map)).update(
                        i,
                        pairs(*old(map)).last(),
                    ).drop_last()
                },
            None => !has_first(pairs(*old(map)), key@) && pairs(*final(map)) == pairs(*old(map)),
        },
{
    map.remove_by_first(key)
}

/// `BidirMap::iter`: the pairs of the map, in its order, each as a copy.
#[verifier::external_body]
pub(crate) fn all_pairs(map: &BidirMap<String, String>) -> (entries: Vec<(String, String)>)
    ensures
        pair_views(entries@) == pairs(*map),
{
    map.iter().map(|(first, second)| (first.clone(), second.clone())).collect()
}

} // verus!
