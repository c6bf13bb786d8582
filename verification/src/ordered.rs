//! Insertion-ordered maps and sets, as the resolver hands them over.
//!
//! The collections are `indexmap`'s. What they hold is named by the
//! uninterpreted functions below; every fact about them enters through the
//! contracts in this file, which restate `indexmap`'s documentation and are
//! not proved.

use crate::record::PackageRecord;
use indexmap::IndexMap;
use indexmap::IndexSet;
use vstd::prelude::*;

verus! {

#[verifier::external_type_specification]
#[verifier::external_body]
#[verifier::reject_recursive_types(K)]
#[verifier::reject_recursive_types(V)]
#[verifier::reject_recursive_types(S)]
pub struct ExIndexMap<K, V, S>(IndexMap<K, V, S>);

#[verifier::external_type_specification]
#[verifier::external_body]
#[verifier::reject_recursive_types(T)]
#[verifier::reject_recursive_types(S)]
pub struct ExIndexSet<T, S>(IndexSet<T, S>);

/// The key-depth pairs of a map from names to depths, in insertion order.
pub uninterp spec fn depth_pairs(m: IndexMap<String, i32>) -> Seq<(Seq<char>, i32)>;

/// The key-value pairs of a map from names to names, in insertion order.
pub uninterp spec fn text_pairs(m: IndexMap<String, String>) -> Seq<(Seq<char>, Seq<char>)>;

/// The key-record pairs of a map from names to package records, in insertion
/// order: for each record the key and the names of its package-base and
/// version.
pub uninterp spec fn record_pairs(m: IndexMap<String, PackageRecord>) -> Seq<
    (Seq<char>, Seq<char>, Seq<char>),
>;

/// The members of a set of names, in insertion order.
pub uninterp spec fn set_members(s: IndexSet<String>) -> Seq<Seq<char>>;

/// The value of the first pair with this key, if there is one. A map holds a
/// key once, so for the pairs of a map that pair is the only one.
pub open spec fn lookup<V>(pairs: Seq<(Seq<char>, V)>, key: Seq<char>) -> Option<V>
    decreases pairs.len(),
{
    if pairs.len() == 0 {
        None
    } else if pairs.first().0 == key {
        Some(pairs.first().1)
    } else {
        lookup(pairs.drop_first(), key)
    }
}

/// `IndexMap::iter`, each pair cloned: the pairs come in insertion order.
#[verifier::external_body]
pub(crate) fn depth_entries(m: &IndexMap<String, i32>) -> (r: Vec<(String, i32)>)
    ensures
        r.deep_view() == depth_pairs(*m),
{
    m.iter().map(|(k, v)| (k.clone(), *v)).collect()
}

/// `IndexMap::iter`, each pair cloned: the pairs come in insertion order.
#[verifier::external_body]
pub(crate) fn text_entries(m: &IndexMap<String, String>) -> (r: Vec<(String, String)>)
    ensures
        r.deep_view() == text_pairs(*m),
{
    m.iter().map(|(k, v)| (k.clone(), v.clone())).collect()
}

/// `IndexSet::iter`, each member cloned: the members come in insertion order.
#[verifier::external_body]
pub(crate) fn set_entries(s: &IndexSet<String>) -> (r: Vec<String>)
    ensures
        r.deep_view() == set_members(*s),
{
    s.iter().cloned().collect()
}

/// The keys of the triples, in order.
pub open spec fn record_keys(triples: Seq<(Seq<char>, Seq<char>, Seq<char>)>) -> Seq<Seq<char>> {
    Seq::new(triples.len(), |i: int| triples[i].0)
}

/// `IndexMap::iter` over the records, each handed out as its key with clones
/// of the record's package-base and version, in insertion order; a map holds
/// each key once.
#[verifier::external_body]
pub(crate) fn record_entries(m: &IndexMap<String, PackageRecord>) -> (r: Vec<
    (String, String, String),
>)
    ensures
        r.deep_view() == record_pairs(*m),
        record_keys(r.deep_view()).no_duplicates(),
{
    m.iter().map(|(k, v)| (k.clone(), v.package_base.clone(), v.version.clone())).collect()
}

/// `IndexMap::get`: the value stored for `key`, or `None` when the map has no
/// such key.
#[verifier::external_body]
pub(crate) fn depth_of(m: &IndexMap<String, i32>, key: &str) -> (r: Option<i32>)
    ensures
        r == lookup(depth_pairs(*m), key@),
{
    m.get(key).copied()
}

/// `IndexMap::contains_key`: whether the map has a record for `key`.
#[verifier::external_body]
pub(crate) fn has_record(m: &IndexMap<String, PackageRecord>, key: &str) -> (r: bool)
    ensures
        r == record_keys(record_pairs(*m)).contains(key@),
{
    m.contains_key(key)
}

/// `IndexMap::new`: a map without entries.
#[verifier::external_body]
pub(crate) fn new_text_map() -> (r: IndexMap<String, String>)
    ensures
        text_pairs(r) == Seq::<(Seq<char>, Seq<char>)>::empty(),
{
    IndexMap::new()
}

/// The pairs after an insert: a key that is present keeps its place and takes
/// the new value; a new key goes to the end.
pub open spec fn spec_insert(
    pairs: Seq<(Seq<char>, Seq<char>)>,
    key: Seq<char>,
    value: Seq<char>,
) -> Seq<(Seq<char>, Seq<char>)> {
    if lookup(pairs, key) is Some {
        Seq::new(pairs.len(), |i: int| if pairs[i].0 == key { (key, value) } else { pairs[i] })
    } else {
        pairs.push((key, value))
    }
}

/// `IndexMap::insert`, the value it hands back dropped.
#[verifier::external_body]
pub(crate) fn insert_text(m: &mut IndexMap<String, String>, key: String, value: String)
    ensures
        text_pairs(*final(m)) == spec_insert(text_pairs(*old(m)), key@, value@),
{
    m.insert(key, value);
}

/// A key has a value exactly when some pair carries it, and the value found
/// belongs to such a pair.
pub proof fn lemma_lookup<V>(pairs: Seq<(Seq<char>, V)>, key: Seq<char>)
    ensures
        lookup(pairs, key) is Some <==> exists|i: int|
            0 <= i < pairs.len() && #[trigger] pairs[i].0 == key,
        lookup(pairs, key) matches Some(v) ==> pairs.contains((key, v)),
    decreases pairs.len(),
{
    if pairs.len() > 0 {
        let rest = pairs.drop_first();
        lemma_lookup(rest, key);
        if pairs.first().0 == key {
            assert(pairs[0].0 == key);
            assert(pairs[0] == (key, pairs.first().1));
        } else {
            if lookup(rest, key) is Some {
                let i = choose|i: int| 0 <= i < rest.len() && #[trigger] rest[i].0 == key;
                assert(pairs[i + 1].0 == key);
                let v = lookup(rest, key)->0;
                let j = choose|j: int| 0 <= j < rest.len() && rest[j] == (key, v);
                assert(pairs[j + 1] == (key, v));
            }
            if exists|i: int| 0 <= i < pairs.len() && #[trigger] pairs[i].0 == key {
                let i = choose|i: int| 0 <= i < pairs.len() && #[trigger] pairs[i].0 == key;
                assert(rest[i - 1].0 == key);
            }
        }
    }
}

} // verus!
