//! The ordered maps and string sets that presets and themes are made of, modelled
//! as sequences of entries (in insertion order) and sets of character sequences.
use std::collections::HashSet;

use indexmap::IndexMap;
use vstd::prelude::*;

verus! {

broadcast use vstd::seq_lib::group_seq_properties;

#[verifier::external_type_specification]
#[verifier::external_body]
#[verifier::reject_recursive_types(K)]
#[verifier::reject_recursive_types(V)]
#[verifier::reject_recursive_types(S)]
pub struct ExIndexMap<K, V, S>(IndexMap<K, V, S>);

/// A flat `key = "value"` token group, in the order its keys were first written.
pub type TokenMap = IndexMap<String, String>;

/// The variants enabled per group, in the order the groups were first written.
pub type VariantMap = IndexMap<String, Vec<String>>;

/// The entries of a token map, in order.
pub uninterp spec fn token_entries(m: IndexMap<String, String>) -> Seq<(Seq<char>, Seq<char>)>;

/// The entries of a variant map, in order.
pub uninterp spec fn variant_entries(m: IndexMap<String, Vec<String>>) -> Seq<(Seq<char>, Seq<Seq<char>>)>;

/// The strings a set of strings holds.
pub uninterp spec fn string_set(s: HashSet<String>) -> Set<Seq<char>>;

/// The position of the first entry with key `k`.
pub open spec fn key_index<V>(es: Seq<(Seq<char>, V)>, k: Seq<char>) -> Option<nat>
    decreases es.len(),
{
    if es.len() == 0 {
        None
    } else {
        match key_index(es.drop_last(), k) {
            Some(i) => Some(i),
            None => if es.last().0 == k {
                Some((es.len() - 1) as nat)
            } else {
                None
            },
        }
    }
}

/// Whether some entry has key `k`.
pub open spec fn has_key<V>(es: Seq<(Seq<char>, V)>, k: Seq<char>) -> bool {
    key_index(es, k) is Some
}

/// The value stored under `k`.
pub open spec fn lookup<V>(es: Seq<(Seq<char>, V)>, k: Seq<char>) -> Option<V> {
    match key_index(es, k) {
        Some(i) => Some(es[i as int].1),
        None => None,
    }
}

/// The entries after inserting `k => v`: an existing key keeps its place and takes the
/// new value; a new key goes last.
pub open spec fn entries_insert<V>(es: Seq<(Seq<char>, V)>, k: Seq<char>, v: V) -> Seq<(Seq<char>, V)> {
    match key_index(es, k) {
        Some(i) => es.update(i as int, (k, v)),
        None => es.push((k, v)),
    }
}

/// The entries after inserting each pair of `pairs` in turn.
pub open spec fn insert_all<V>(es: Seq<(Seq<char>, V)>, pairs: Seq<(Seq<char>, V)>) -> Seq<(Seq<char>, V)>
    decreases pairs.len(),
{
    if pairs.len() == 0 {
        es
    } else {
        entries_insert(insert_all(es, pairs.drop_last()), pairs.last().0, pairs.last().1)
    }
}

/// The keys of a sequence of entries, in order.
pub open spec fn keys_of<V>(es: Seq<(Seq<char>, V)>) -> Seq<Seq<char>> {
    es.map_values(|e: (Seq<char>, V)| e.0)
}

/// A sequence of string pairs as character sequences.
pub open spec fn pair_views(ps: Seq<(String, String)>) -> Seq<(Seq<char>, Seq<char>)> {
    ps.map_values(|p: (String, String)| (p.0@, p.1@))
}

/// A sequence of strings as character sequences.
pub open spec fn string_views(ss: Seq<String>) -> Seq<Seq<char>> {
    ss.map_values(|s: String| s@)
}

/// `IndexMap::new`: an empty token map.
#[verifier::external_body]
pub(crate) fn token_map_new() -> (m: TokenMap)
    ensures
        token_entries(m) == Seq::<(Seq<char>, Seq<char>)>::empty(),
{
    IndexMap::new()
}

/// `IndexMap::insert`: the value replaces that of an equal key, which keeps its
/// place; a new key is added last.
#[verifier::external_body]
pub(crate) fn token_map_insert(m: &mut TokenMap, k: String, v: String)
    ensures
        token_entries(*final(m)) == entries_insert(token_entries(*old(m)), k@, v@),
{
    m.insert(k, v);
}

/// `IndexMap::contains_key`.
#[verifier::external_body]
pub(crate) fn token_map_contains(m: &TokenMap, k: &str) -> (r: bool)
    ensures
        r == has_key(token_entries(*m), k@),
{
    m.contains_key(k)
}

/// `IndexMap::iter`, each entry copied out, in order.
#[verifier::external_body]
pub(crate) fn token_map_pairs(m: &TokenMap) -> (r: Vec<(String, String)>)
    ensures
        pair_views(r@) == token_entries(*m),
{
    m.iter().map(|(k, v)| (k.clone(), v.clone())).collect()
}

/// `IndexMap::new`: an empty variant map.
#[verifier::external_body]
pub(crate) fn variant_map_new() -> (m: VariantMap)
    ensures
        variant_entries(m) == Seq::<(Seq<char>, Seq<Seq<char>>)>::empty(),
{
    IndexMap::new()
}

/// `IndexMap::insert` on a variant map.
#[verifier::external_body]
pub(crate) fn variant_map_insert(m: &mut VariantMap, k: String, v: Vec<String>)
    ensures
        variant_entries(*final(m)) == entries_insert(variant_entries(*old(m)), k@, string_views(v@)),
{
    m.insert(k, v);
}

/// `IndexMap::get` on a variant map.
#[verifier::external_body]
pub(crate) fn variant_map_get<'a>(m: &'a VariantMap, k: &str) -> (r: Option<&'a Vec<String>>)
    ensures
        match r {
            Some(v) => lookup(variant_entries(*m), k@) == Some(string_views(v@)),
            None => lookup(variant_entries(*m), k@) is None,
        },
{
    m.get(k)
}

/// `HashSet::new`: an empty set of strings. (vstd's own `HashSet` specifications
/// hold only for key types with a key model, which `String` is not given.)
#[verifier::external_body]
pub(crate) fn string_set_new() -> (s: HashSet<String>)
    ensures
        string_set(s) == Set::<Seq<char>>::empty(),
{
    HashSet::new()
}

/// `HashSet::insert`: afterwards the set holds `k`; the result tells whether it was new.
#[verifier::external_body]
pub(crate) fn string_set_insert(s: &mut HashSet<String>, k: String) -> (r: bool)
    ensures
        string_set(*final(s)) == string_set(*old(s)).insert(k@),
        r == !string_set(*old(s)).contains(k@),
{
    s.insert(k)
}

/// `HashSet::contains`.
#[verifier::external_body]
pub(crate) fn string_set_contains(s: &HashSet<String>, k: &str) -> (r: bool)
    ensures
        r == string_set(*s).contains(k@),
{
    s.contains(k)
}

} // verus!
