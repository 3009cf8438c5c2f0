//! The hash sets and maps of `ahash` that the library keeps its sets of
//! edges, pages, resource numbers and crash titles in, and what it relies on
//! of them.
//!
//! Each contract states what `std`'s `HashSet` and `HashMap`, which the
//! `ahash` types wrap and dereference to, document of the method; nothing is
//! said of the order in which they would be walked.
use ahash::{AHashMap, AHashSet, RandomState};
use vstd::prelude::*;

verus! {

#[verifier::external_type_specification]
#[verifier::external_body]
pub struct ExRandomState(RandomState);

#[verifier::external_type_specification]
#[verifier::external_body]
#[verifier::reject_recursive_types(T)]
#[verifier::reject_recursive_types(S)]
pub struct ExAHashSet<T, S>(AHashSet<T, S>);

#[verifier::external_type_specification]
#[verifier::external_body]
#[verifier::reject_recursive_types(K)]
#[verifier::reject_recursive_types(V)]
#[verifier::reject_recursive_types(S)]
pub struct ExAHashMap<K, V, S>(AHashMap<K, V, S>);

/// The numbers in a set of `u32`.
pub uninterp spec fn u32_items(s: AHashSet<u32>) -> Set<u32>;

/// The numbers in a set of `u64`.
pub uninterp spec fn u64_items(s: AHashSet<u64>) -> Set<u64>;

/// The key-value pairs of a map from `usize` to `usize`.
pub uninterp spec fn usize_pairs(m: AHashMap<usize, usize>) -> Map<usize, usize>;

/// `AHashSet::new`: an empty set.
#[verifier::external_body]
pub(crate) fn u32_set_new() -> (r: AHashSet<u32>)
    ensures
        u32_items(r) == Set::<u32>::empty(),
{
    AHashSet::new()
}

/// `HashSet::contains`: whether `x` is in the set.
#[verifier::external_body]
pub(crate) fn u32_set_contains(s: &AHashSet<u32>, x: u32) -> (r: bool)
    ensures
        r == u32_items(*s).contains(x),
{
    s.contains(&x)
}

/// `HashSet::insert`: adds `x`; says whether it was not there before.
#[verifier::external_body]
pub(crate) fn u32_set_insert(s: &mut AHashSet<u32>, x: u32) -> (r: bool)
    ensures
        u32_items(*final(s)) == u32_items(*old(s)).insert(x),
        r == !u32_items(*old(s)).contains(x),
{
    s.insert(x)
}

/// `HashSet::len`: the number of items, of a set that is finite as every
/// set in memory is.
#[verifier::external_body]
pub(crate) fn u32_set_len(s: &AHashSet<u32>) -> (r: usize)
    requires
        u32_items(*s).finite(),
    ensures
        r == u32_items(*s).len(),
{
    s.len()
}

/// `Extend::extend` with the items of another set: the union.
#[verifier::external_body]
pub(crate) fn u32_set_extend(s: &mut AHashSet<u32>, other: &AHashSet<u32>)
    ensures
        u32_items(*final(s)) == u32_items(*old(s)).union(u32_items(*other)),
{
    s.extend(other.iter())
}

/// `AHashSet::new`: an empty set.
#[verifier::external_body]
pub(crate) fn u64_set_new() -> (r: AHashSet<u64>)
    ensures
        u64_items(r) == Set::<u64>::empty(),
{
    AHashSet::new()
}

/// `HashSet::insert`: adds `x`; says whether it was not there before.
#[verifier::external_body]
pub(crate) fn u64_set_insert(s: &mut AHashSet<u64>, x: u64) -> (r: bool)
    ensures
        u64_items(*final(s)) == u64_items(*old(s)).insert(x),
        r == !u64_items(*old(s)).contains(x),
{
    s.insert(x)
}

/// `AHashMap::new`: an empty map.
#[verifier::external_body]
pub(crate) fn usize_map_new() -> (r: AHashMap<usize, usize>)
    ensures
        usize_pairs(r).dom() == Set::<usize>::empty(),
{
    AHashMap::new()
}

/// `AHashMap::get`: the value of key `k`, if any.
#[verifier::external_body]
pub(crate) fn usize_map_get(m: &AHashMap<usize, usize>, k: usize) -> (r: Option<usize>)
    ensures
        usize_pairs(*m).contains_key(k) ==> r == Some(usize_pairs(*m)[k]),
        !usize_pairs(*m).contains_key(k) ==> r is None,
{
    m.get(&k).copied()
}

/// `AHashMap::insert`: sets the value of key `k` to `v`.
#[verifier::external_body]
pub(crate) fn usize_map_insert(m: &mut AHashMap<usize, usize>, k: usize, v: usize)
    ensures
        usize_pairs(*final(m)) == usize_pairs(*old(m)).insert(k, v),
{
    m.insert(k, v);
}

/// `HashMap::len`: the number of keys, of a map that is finite as every map
/// in memory is.
#[verifier::external_body]
pub(crate) fn usize_map_len(m: &AHashMap<usize, usize>) -> (r: usize)
    requires
        usize_pairs(*m).dom().finite(),
    ensures
        r == usize_pairs(*m).dom().len(),
{
    m.len()
}

/// The texts in a set of strings.
pub uninterp spec fn text_items(s: AHashSet<String>) -> Set<Seq<char>>;

/// The texts and numbers of a map from strings to `usize`.
pub uninterp spec fn text_counts(m: AHashMap<String, usize>) -> Map<Seq<char>, usize>;

/// `AHashSet::new`: an empty set.
#[verifier::external_body]
pub(crate) fn text_set_new() -> (r: AHashSet<String>)
    ensures
        text_items(r) == Set::<Seq<char>>::empty(),
{
    AHashSet::new()
}

/// `HashSet::contains`: whether a string equal to `t` is in the set.
#[verifier::external_body]
pub(crate) fn text_set_contains(s: &AHashSet<String>, t: &str) -> (r: bool)
    ensures
        r == text_items(*s).contains(t@),
{
    s.contains(t)
}

/// `HashSet::insert`: adds `t`; says whether it was not there before.
#[verifier::external_body]
pub(crate) fn text_set_insert(s: &mut AHashSet<String>, t: String) -> (r: bool)
    ensures
        text_items(*final(s)) == text_items(*old(s)).insert(t@),
        r == !text_items(*old(s)).contains(t@),
{
    s.insert(t)
}

/// `HashSet::remove`: takes out `t`; says whether it was there.
#[verifier::external_body]
pub(crate) fn text_set_remove(s: &mut AHashSet<String>, t: &str) -> (r: bool)
    ensures
        text_items(*final(s)) == text_items(*old(s)).remove(t@),
        r == text_items(*old(s)).contains(t@),
{
    s.remove(t)
}

/// `AHashMap::new`: an empty map.
#[verifier::external_body]
pub(crate) fn text_map_new() -> (r: AHashMap<String, usize>)
    ensures
        text_counts(r).dom() == Set::<Seq<char>>::empty(),
{
    AHashMap::new()
}

/// `AHashMap::get`: the value of key `t`, if any.
#[verifier::external_body]
pub(crate) fn text_map_get(m: &AHashMap<String, usize>, t: &str) -> (r: Option<usize>)
    ensures
        text_counts(*m).contains_key(t@) ==> r == Some(text_counts(*m)[t@]),
        !text_counts(*m).contains_key(t@) ==> r is None,
{
    m.get(t).copied()
}

/// `AHashMap::insert`: sets the value of key `k` to `v`.
#[verifier::external_body]
pub(crate) fn text_map_insert(m: &mut AHashMap<String, usize>, k: String, v: usize)
    ensures
        text_counts(*final(m)) == text_counts(*old(m)).insert(k@, v),
{
    m.insert(k, v);
}

/// `HashMap::len`: the number of keys, of a map that is finite as every map
/// in memory is.
#[verifier::external_body]
pub(crate) fn text_map_len(m: &AHashMap<String, usize>) -> (r: usize)
    requires
        text_counts(*m).dom().finite(),
    ensures
        r == text_counts(*m).dom().len(),
{
    m.len()
}

} // verus!
