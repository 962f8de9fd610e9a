//! Hash maps from text, with rustc_hash's hasher.
use rustc_hash::{FxBuildHasher, FxHashMap};
use vstd::prelude::*;

verus! {

/// The hasher of rustc_hash.
#[verifier::external_type_specification]
#[verifier::external_body]
pub struct ExFxBuildHasher(FxBuildHasher);

/// What a map from text to text holds.
pub uninterp spec fn text_map(m: FxHashMap<String, String>) -> Map<Seq<char>, Seq<char>>;

/// Calls `FxHashMap::default`, which makes a map that holds nothing.
#[verifier::external_body]
pub(crate) fn new_text_map() -> (r: FxHashMap<String, String>)
    ensures
        text_map(r).dom() == Set::<Seq<char>>::empty(),
{
    FxHashMap::default()
}

/// Calls `HashMap::insert`: the key then has the value, in place of one it had before.
#[verifier::external_body]
pub(crate) fn insert_text(m: &mut FxHashMap<String, String>, key: String, value: String)
    ensures
        text_map(*final(m)) == text_map(*old(m)).insert(key@, value@),
{
    m.insert(key, value);
}

/// Calls `HashMap::get`: the value of a key, where the map holds the key.
#[verifier::external_body]
pub(crate) fn get_text<'a>(m: &'a FxHashMap<String, String>, key: &str) -> (r: Option<&'a String>)
    ensures
        r is Some == text_map(*m).contains_key(key@),
        r matches Some(v) ==> v@ == text_map(*m)[key@],
{
    m.get(key)
}

/// Whether a list holds what a map holds, each key once, in some order.
pub open spec fn lists(entries: Seq<(Seq<char>, Seq<char>)>, m: Map<Seq<char>, Seq<char>>) -> bool {
    &&& forall|i: int, j: int|
        0 <= i < entries.len() && 0 <= j < entries.len() && i != j ==> (#[trigger] entries[i]).0
            != (#[trigger] entries[j]).0
    &&& forall|i: int|
        0 <= i < entries.len() ==> m.contains_key((#[trigger] entries[i]).0) && m[entries[i].0]
            == entries[i].1
    &&& forall|k: Seq<char>| #[trigger]
        m.contains_key(k) ==> exists|i: int|
            0 <= i < entries.len() && (#[trigger] entries[i]).0 == k
}

/// The texts of a list of pairs.
pub open spec fn pair_texts(v: Seq<(String, String)>) -> Seq<(Seq<char>, Seq<char>)> {
    v.map_values(|p: (String, String)| (p.0@, p.1@))
}

/// Walks a map with `HashMap::iter` and copies its entries out. Each entry comes once; the
/// order is left open.
#[verifier::external_body]
pub(crate) fn text_entries(m: &FxHashMap<String, String>) -> (r: Vec<(String, String)>)
    ensures
        lists(pair_texts(r@), text_map(*m)),
{
    m.iter().map(|(k, v)| (k.clone(), v.clone())).collect()
}

} // verus!
