use vstd::prelude::*;
use indexmap::IndexMap;

verus! {

/// The `IndexMap` of the `indexmap` crate, opaque to proofs.
#[verifier::external_type_specification]
#[verifier::external_body]
#[verifier::reject_recursive_types(K)]
#[verifier::reject_recursive_types(V)]
#[verifier::reject_recursive_types(S)]
pub struct ExIndexMap<K, V, S>(IndexMap<K, V, S>);

/// The entries of a map from names to positions, in insertion order: each
/// entry is a key's characters and its value.
pub uninterp spec fn name_entries(m: IndexMap<String, usize>) -> Seq<(Seq<char>, usize)>;

/// No two entries share their key.
pub open spec fn names_unique(e: Seq<(Seq<char>, usize)>) -> bool {
    forall|i: int, j: int| 0 <= i < j < e.len() ==> e[i].0 != e[j].0
}

/// The position of the entry with the given key, if any.
pub open spec fn entry_pos(e: Seq<(Seq<char>, usize)>, k: Seq<char>) -> Option<int> {
    if exists|i: int| 0 <= i < e.len() && e[i].0 == k {
        Some(choose|i: int| 0 <= i < e.len() && e[i].0 == k)
    } else {
        None
    }
}

/// The value stored under a key, if any.
pub open spec fn entry_value(e: Seq<(Seq<char>, usize)>, k: Seq<char>) -> Option<usize> {
    match entry_pos(e, k) {
        Some(i) => Some(e[i].1),
        None => None,
    }
}

pub proof fn lemma_entry_pos_unique(e: Seq<(Seq<char>, usize)>, k: Seq<char>, i: int)
    requires
        names_unique(e),
        0 <= i < e.len(),
        e[i].0 == k,
    ensures
        entry_pos(e, k) == Some(i),
{
    let j = choose|j: int| 0 <= j < e.len() && e[j].0 == k;
    if j < i {
        assert(e[j].0 != e[i].0);
    } else if i < j {
        assert(e[i].0 != e[j].0);
    }
}

/// `IndexMap::new`: an empty map.
#[verifier::external_body]
pub(crate) fn name_map_new() -> (m: IndexMap<String, usize>)
    ensures
        name_entries(m) == Seq::<(Seq<char>, usize)>::empty(),
{
    IndexMap::new()
}

/// `IndexMap::get`: the value stored under a key equal to `k`, if any.
#[verifier::external_body]
pub(crate) fn name_map_get(m: &IndexMap<String, usize>, k: &str) -> (r: Option<usize>)
    ensures
        r == entry_value(name_entries(*m), k@),
{
    m.get(k).copied()
}

/// `IndexMap::insert`: an existing key keeps its place and gets the new value,
/// and the old value is returned; a new key is appended last.
#[verifier::external_body]
pub(crate) fn name_map_insert(m: &mut IndexMap<String, usize>, k: String, v: usize) -> (r: Option<usize>)
    ensures
        match entry_pos(name_entries(*old(m)), k@) {
            Some(i) => r == Some(name_entries(*old(m))[i].1)
                && name_entries(*final(m)) == name_entries(*old(m)).update(i, (k@, v)),
            None => r is None && name_entries(*final(m)) == name_entries(*old(m)).push((k@, v)),
        },
{
    m.insert(k, v)
}

/// `IndexMap::clone`: a map with the same entries in the same order.
#[verifier::external_body]
pub(crate) fn name_map_clone(m: &IndexMap<String, usize>) -> (r: IndexMap<String, usize>)
    ensures
        name_entries(r) == name_entries(*m),
{
    m.clone()
}

/// `IndexMap::len`: the number of entries.
#[verifier::external_body]
pub(crate) fn name_map_len(m: &IndexMap<String, usize>) -> (n: usize)
    ensures
        n == name_entries(*m).len(),
{
    m.len()
}

/// `IndexMap::get_index`: the key and value at a position.
#[verifier::external_body]
pub(crate) fn name_map_get_index(m: &IndexMap<String, usize>, i: usize) -> (r: (String, usize))
    requires
        i < name_entries(*m).len(),
    ensures
        r.0@ == name_entries(*m)[i as int].0,
        r.1 == name_entries(*m)[i as int].1,
{
    let (k, v) = m.get_index(i).unwrap();
    (k.clone(), *v)
}

/// The map from each of some distinct names to its position among them,
/// in their order.
pub fn positions_map(names: &Vec<String>) -> (m: IndexMap<String, usize>)
    requires
        forall|i: int, j: int| 0 <= i < j < names@.len() ==> names@[i]@ != names@[j]@,
    ensures
        name_entries(m) == Seq::new(names@.len(), |i: int| (names@[i]@, i as usize)),
{
    let mut m = name_map_new();
    let mut k: usize = 0;
    while k < names.len()
        invariant
            0 <= k <= names@.len(),
            forall|i: int, j: int| 0 <= i < j < names@.len() ==> names@[i]@ != names@[j]@,
            name_entries(m) == Seq::new(k as nat, |i: int| (names@[i]@, i as usize)),
        decreases names@.len() - k,
    {
        let ghost e = name_entries(m);
        assert(entry_pos(e, names@[k as int]@) is None) by {
            if exists|i: int| 0 <= i < e.len() && e[i].0 == names@[k as int]@ {
                let i = choose|i: int| 0 <= i < e.len() && e[i].0 == names@[k as int]@;
                assert(e[i].0 == names@[i]@);
            }
        }
        let _ = name_map_insert(&mut m, names[k].clone(), k);
        assert(name_entries(m) =~= Seq::new((k + 1) as nat, |i: int| (names@[i]@, i as usize)));
        k = k + 1;
    }
    m
}

} // verus!
