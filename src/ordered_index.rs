//! An insertion-ordered index from command names to positions, kept in
//! linked_hash_map's `LinkedHashMap`.
use linked_hash_map::LinkedHashMap;
use vstd::prelude::*;

verus! {

#[verifier::external_type_specification]
#[verifier::external_body]
#[verifier::reject_recursive_types(K)]
#[verifier::reject_recursive_types(V)]
#[verifier::reject_recursive_types(S)]
pub struct ExLinkedHashMap<K, V, S>(LinkedHashMap<K, V, S>);

/// The entries of a name index, in the order in which the map walks them.
pub uninterp spec fn entries_of(m: LinkedHashMap<String, usize>) -> Seq<(Seq<char>, usize)>;

/// Whether `k` is a key among `entries`.
pub open spec fn has_key(entries: Seq<(Seq<char>, usize)>, k: Seq<char>) -> bool {
    exists|j: int| 0 <= j < entries.len() && (#[trigger] entries[j]).0 == k
}

/// No key occurs twice among `entries`.
pub open spec fn keys_distinct(entries: Seq<(Seq<char>, usize)>) -> bool {
    forall|i: int, j: int|
        0 <= i < entries.len() && 0 <= j < entries.len() && i != j ==> (#[trigger] entries[i]).0
            != (#[trigger] entries[j]).0
}

/// Relies on `LinkedHashMap::new`: a new map has no entries.
#[verifier::external_body]
pub(crate) fn index_new() -> (r: LinkedHashMap<String, usize>)
    ensures
        entries_of(r) == Seq::<(Seq<char>, usize)>::empty(),
{
    LinkedHashMap::new()
}

/// Relies on `LinkedHashMap::insert`: a new key is attached at the back; an
/// existing key has its value replaced, and its entry is detached and
/// attached again at the back, the old value being returned.
#[verifier::external_body]
pub(crate) fn index_insert(m: &mut LinkedHashMap<String, usize>, k: String, v: usize) -> (r:
    Option<usize>)
    ensures
        !has_key(entries_of(*old(m)), k@) ==> r.is_none() && entries_of(*final(m)) == entries_of(
            *old(m),
        ).push((k@, v)),
        forall|j: int|
            0 <= j < entries_of(*old(m)).len() && (#[trigger] entries_of(*old(m))[j]).0 == k@
                ==> r == Some(entries_of(*old(m))[j].1) && entries_of(*final(m)) == entries_of(
                *old(m),
            ).remove(j).push((k@, v)),
{
    m.insert(k, v)
}

/// Relies on `LinkedHashMap::get`: the value stored under the key, if any.
#[verifier::external_body]
pub(crate) fn index_get(m: &LinkedHashMap<String, usize>, k: &str) -> (r: Option<usize>)
    ensures
        !has_key(entries_of(*m), k@) ==> r.is_none(),
        forall|j: int|
            0 <= j < entries_of(*m).len() && (#[trigger] entries_of(*m)[j]).0 == k@ ==> r == Some(
                entries_of(*m)[j].1,
            ),
{
    m.get(k).copied()
}

/// Relies on `LinkedHashMap::keys`: the keys, oldest entry first.
#[verifier::external_body]
pub(crate) fn index_keys(m: &LinkedHashMap<String, usize>) -> (r: Vec<String>)
    ensures
        r@.len() == entries_of(*m).len(),
        forall|j: int| 0 <= j < r@.len() ==> (#[trigger] r@[j])@ == entries_of(*m)[j].0,
{
    m.keys().cloned().collect()
}

} // verus!
