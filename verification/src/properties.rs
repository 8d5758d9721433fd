//! The ordered string property maps of the model (`IndexMap<String, String>`)
//! and the lookups the library makes in them.

use indexmap::IndexMap;
use vstd::prelude::*;

verus! {

/// The ordered map of the `indexmap` crate, known to Verus as an opaque type.
#[verifier::external_type_specification]
#[verifier::external_body]
#[verifier::reject_recursive_types(K)]
#[verifier::reject_recursive_types(V)]
#[verifier::reject_recursive_types(S)]
pub struct ExIndexMap<K, V, S>(IndexMap<K, V, S>);

/// The key/value pairs held by a property map, keys and values taken by
/// their characters.
pub uninterp spec fn property_entries(m: IndexMap<String, String>) -> Map<Seq<char>, Seq<char>>;

/// The value stored under `key`, if any.
pub open spec fn prop(m: IndexMap<String, String>, key: Seq<char>) -> Option<Seq<char>> {
    if property_entries(m).dom().contains(key) {
        Some(property_entries(m)[key])
    } else {
        None
    }
}

/// `IndexMap::get`: the value stored under a key equal to `key`, if there is
/// one.
#[verifier::external_body]
pub(crate) fn property_get<'a>(m: &'a IndexMap<String, String>, key: &str) -> (r: Option<&'a String>)
    ensures
        r is Some <==> prop(*m, key@) is Some,
        r matches Some(v) ==> prop(*m, key@) == Some(v@),
{
    m.get(key)
}

/// `IndexMap::contains_key`: whether a key equal to `key` is stored.
#[verifier::external_body]
pub(crate) fn property_contains(m: &IndexMap<String, String>, key: &str) -> (r: bool)
    ensures
        r == property_entries(*m).dom().contains(key@),
{
    m.contains_key(key)
}

/// Whether the ordered pairs `l` are the entries of `m`: no key occurs
/// twice, and `m` maps exactly the keys of `l`, each to its value in `l`.
pub open spec fn pairs_form(l: Seq<(Seq<char>, Seq<char>)>, m: Map<Seq<char>, Seq<char>>) -> bool {
    &&& forall|i: int, j: int| 0 <= i < j < l.len() ==> #[trigger] l[i].0 != #[trigger] l[j].0
    &&& forall|i: int| 0 <= i < l.len() ==> #[trigger] m.contains_key(l[i].0) && m[l[i].0] == l[i].1
    &&& forall|k: Seq<char>| #[trigger] m.contains_key(k) ==> exists|i: int| 0 <= i < l.len() && #[trigger] l[i].0 == k
}

/// The pairs of a property list after storing `v` under `k`: a pair with
/// an equal key keeps its place and takes the new value; otherwise the pair
/// goes last.
pub open spec fn list_inserted(l: Seq<(Seq<char>, Seq<char>)>, k: Seq<char>, v: Seq<char>) -> Seq<(Seq<char>, Seq<char>)> {
    if exists|i: int| 0 <= i < l.len() && #[trigger] l[i].0 == k {
        l.update(choose|i: int| 0 <= i < l.len() && #[trigger] l[i].0 == k, (k, v))
    } else {
        l.push((k, v))
    }
}

/// `IndexMap::insert`: stores `value` under `key`, replacing an earlier value
/// stored under an equal key; an existing key keeps its place in the order,
/// a new one goes last. The map's ordered pairs are its entries, with each
/// key once, before and after.
#[verifier::external_body]
pub(crate) fn property_insert(m: &mut IndexMap<String, String>, key: String, value: String)
    ensures
        pairs_form(property_list(*old(m)), property_entries(*old(m))),
        pairs_form(property_list(*final(m)), property_entries(*final(m))),
        property_entries(*final(m)) == property_entries(*old(m)).insert(key@, value@),
        property_list(*final(m)) == list_inserted(property_list(*old(m)), key@, value@),
{
    m.insert(key, value);
}

/// The key/value pairs of a property map in the order they were inserted,
/// keys and values taken by their characters.
pub uninterp spec fn property_list(m: IndexMap<String, String>) -> Seq<(Seq<char>, Seq<char>)>;

/// `IndexMap::iter`, each pair copied: the pairs in insertion order, which
/// are the map's entries with each key once.
#[verifier::external_body]
pub(crate) fn property_pairs(m: &IndexMap<String, String>) -> (r: Vec<(String, String)>)
    ensures
        r@.map_values(|e: (String, String)| (e.0@, e.1@)) == property_list(*m),
        pairs_form(r@.map_values(|e: (String, String)| (e.0@, e.1@)), property_entries(*m)),
{
    m.iter().map(|(k, v)| (k.clone(), v.clone())).collect()
}

/// `Clone for IndexMap`: the copy holds the same pairs in the same order,
/// which are its entries with each key once.
#[verifier::external_body]
pub(crate) fn clone_properties(m: &IndexMap<String, String>) -> (r: IndexMap<String, String>)
    ensures
        pairs_form(property_list(r), property_entries(r)),
        property_entries(r) == property_entries(*m),
        property_list(r) == property_list(*m),
{
    m.clone()
}

} // verus!
