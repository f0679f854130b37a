//! The insertion-ordered map and set of the `indexmap` crate, as this crate uses them.
//!
//! Both are used with small integer keys (the index of an [`crate::api::EventKind`] or of a
//! position type). Their contents are named by [`map_entries`] and [`set_items`]; the wrappers
//! below state what each method does to the contents, as the `indexmap` documentation and
//! source describe it.
use vstd::prelude::*;

use indexmap::{IndexMap, IndexSet};

verus! {

#[verifier::external_type_specification]
#[verifier::external_body]
#[verifier::reject_recursive_types(K)]
#[verifier::reject_recursive_types(V)]
#[verifier::reject_recursive_types(S)]
pub struct ExIndexMap<K, V, S>(IndexMap<K, V, S>);

#[verifier::external_type_specification]
#[verifier::external_body]
#[verifier::reject_recursive_types(T)]
#[verifier::reject_recursive_types(S)]
pub struct ExIndexSet<T, S>(IndexSet<T, S>);

/// The entries of an `IndexMap<u8, u64>` in insertion order.
pub uninterp spec fn map_entries(m: IndexMap<u8, u64>) -> Seq<(u8, u64)>;

/// The items of an `IndexSet<u8>` in insertion order.
pub uninterp spec fn set_items(s: IndexSet<u8>) -> Seq<u8>;

/// No key occurs twice.
pub open spec fn distinct_keys(s: Seq<(u8, u64)>) -> bool {
    assoc_distinct(s)
}

/// No item occurs twice.
pub open spec fn distinct_items(s: Seq<u8>) -> bool {
    forall|i: int, j: int| 0 <= i < s.len() && 0 <= j < s.len() && i != j ==> s[i] != s[j]
}

/// No key occurs twice in an association sequence.
pub open spec fn assoc_distinct<K>(s: Seq<(K, u64)>) -> bool {
    forall|i: int, j: int| 0 <= i < s.len() && 0 <= j < s.len() && i != j ==> s[i].0 != s[j].0
}

/// The position of the entry with key `k`.
pub open spec fn assoc_position<K>(s: Seq<(K, u64)>, k: K) -> Option<int> {
    if exists|i: int| 0 <= i < s.len() && s[i].0 == k {
        Some(choose|i: int| 0 <= i < s.len() && s[i].0 == k)
    } else {
        None
    }
}

/// Insertion into an ordered association sequence: an existing entry with key `k` keeps its
/// position and gets the value `v`, otherwise the entry is appended.
pub open spec fn assoc_insert<K>(s: Seq<(K, u64)>, k: K, v: u64) -> Seq<(K, u64)> {
    match assoc_position(s, k) {
        Some(i) => s.update(i, (k, v)),
        None => s.push((k, v)),
    }
}

/// The value of the entry with key `k`.
pub open spec fn assoc_get<K>(s: Seq<(K, u64)>, k: K) -> Option<u64> {
    match assoc_position(s, k) {
        Some(i) => Some(s[i].1),
        None => None,
    }
}

pub proof fn lemma_assoc_position<K>(s: Seq<(K, u64)>, k: K)
    requires
        assoc_distinct(s),
    ensures
        assoc_position(s, k) matches Some(i) ==> 0 <= i < s.len() && s[i].0 == k,
        assoc_position(s, k) is None ==> forall|i: int| 0 <= i < s.len() ==> s[i].0 != k,
        forall|i: int| 0 <= i < s.len() && s[i].0 == k ==> assoc_position(s, k) == Some(i),
{
}

pub proof fn lemma_assoc_insert<K>(s: Seq<(K, u64)>, k: K, v: u64)
    requires
        assoc_distinct(s),
    ensures
        assoc_distinct(assoc_insert(s, k, v)),
        assoc_position(s, k) is None ==> assoc_insert(s, k, v) == s.push((k, v)),
        assoc_position(s, k) matches Some(i) ==> assoc_insert(s, k, v) == s.update(i, (k, v)),
{
}

/// After an insertion, key `k` has the value `v` and the other keys keep theirs.
pub proof fn lemma_assoc_insert_get<K>(s: Seq<(K, u64)>, k: K, v: u64, j: K)
    requires
        assoc_distinct(s),
    ensures
        assoc_get(assoc_insert(s, k, v), k) == Some(v),
        j != k ==> assoc_get(assoc_insert(s, k, v), j) == assoc_get(s, j),
{
    lemma_assoc_insert(s, k, v);
    let t = assoc_insert(s, k, v);
    lemma_assoc_position(s, k);
    lemma_assoc_position(t, k);
    lemma_assoc_position(s, j);
    lemma_assoc_position(t, j);
    match assoc_position(s, k) {
        Some(i) => {
            assert(t[i].0 == k);
        },
        None => {
            assert(t[s.len() as int].0 == k);
        },
    }
    if j != k {
        match assoc_position(s, j) {
            Some(i) => {
                assert(t[i] == s[i]);
            },
            None => {
                assert forall|i: int| 0 <= i < t.len() implies t[i].0 != j by {
                    if i < s.len() {
                        assert(t[i].0 == s[i].0);
                    }
                }
            },
        }
    }
}

/// Inserting the value a key has already changes nothing.
pub proof fn lemma_assoc_insert_same<K>(s: Seq<(K, u64)>, k: K, v: u64)
    requires
        assoc_distinct(s),
        assoc_get(s, k) == Some(v),
    ensures
        assoc_insert(s, k, v) == s,
{
    lemma_assoc_position(s, k);
    let i = assoc_position(s, k).unwrap();
    assert(s.update(i, (k, v)) =~= s);
}

/// No key occurs twice in a sequence of key-value pairs.
pub open spec fn kv_distinct<K, V>(s: Seq<(K, V)>) -> bool {
    forall|i: int, j: int| 0 <= i < s.len() && 0 <= j < s.len() && i != j ==> s[i].0 != s[j].0
}

/// The position of the entry with key `k`.
pub open spec fn kv_position<K, V>(s: Seq<(K, V)>, k: K) -> Option<int> {
    if exists|i: int| 0 <= i < s.len() && s[i].0 == k {
        Some(choose|i: int| 0 <= i < s.len() && s[i].0 == k)
    } else {
        None
    }
}

/// The value of the entry with key `k`.
pub open spec fn kv_get<K, V>(s: Seq<(K, V)>, k: K) -> Option<V> {
    match kv_position(s, k) {
        Some(i) => Some(s[i].1),
        None => None,
    }
}

/// Insertion into a map kept as key-value pairs: an existing entry with key `k` keeps its
/// position and gets the value `v`, otherwise the entry is appended.
pub open spec fn kv_insert<K, V>(s: Seq<(K, V)>, k: K, v: V) -> Seq<(K, V)> {
    match kv_position(s, k) {
        Some(i) => s.update(i, (k, v)),
        None => s.push((k, v)),
    }
}

/// The pairs of `pairs` inserted one after the other.
pub open spec fn kv_insert_all<K, V>(s: Seq<(K, V)>, pairs: Seq<(K, V)>) -> Seq<(K, V)>
    decreases pairs.len(),
{
    if pairs.len() == 0 {
        s
    } else {
        kv_insert(kv_insert_all(s, pairs.drop_last()), pairs.last().0, pairs.last().1)
    }
}

/// With distinct keys, the position of a key is the index of its entry.
pub proof fn lemma_kv_position<K, V>(s: Seq<(K, V)>, k: K)
    requires
        kv_distinct(s),
    ensures
        kv_position(s, k) matches Some(i) ==> 0 <= i < s.len() && s[i].0 == k,
        kv_position(s, k) is None ==> forall|i: int| 0 <= i < s.len() ==> s[i].0 != k,
        forall|i: int| 0 <= i < s.len() && s[i].0 == k ==> kv_position(s, k) == Some(i),
{
}

/// Insertion keeps the keys distinct.
pub proof fn lemma_kv_insert<K, V>(s: Seq<(K, V)>, k: K, v: V)
    requires
        kv_distinct(s),
    ensures
        kv_distinct(kv_insert(s, k, v)),
        kv_get(kv_insert(s, k, v), k) == Some(v),
{
    lemma_kv_position(s, k);
    let t = kv_insert(s, k, v);
    if let Some(i) = kv_position(s, k) {
        assert(t[i].0 == k);
        lemma_kv_position(t, k);
    } else {
        assert(t[s.len() as int].0 == k);
        assert(kv_distinct(t));
        lemma_kv_position(t, k);
    }
}

/// Inserting under one key leaves the entry of every other key as it was.
pub proof fn lemma_kv_insert_other<K, V>(s: Seq<(K, V)>, k: K, v: V, m: K)
    requires
        kv_distinct(s),
        m != k,
    ensures
        kv_get(kv_insert(s, k, v), m) == kv_get(s, m),
{
    lemma_kv_position(s, k);
    lemma_kv_position(s, m);
    lemma_kv_insert(s, k, v);
    let t = kv_insert(s, k, v);
    lemma_kv_position(t, m);
    if let Some(j) = kv_position(s, m) {
        assert(t[j] == s[j]);
    } else {
        assert forall|i: int| 0 <= i < t.len() implies t[i].0 != m by {
            if i < s.len() {
                if let Some(p) = kv_position(s, k) {
                    if i != p {
                        assert(t[i] == s[i]);
                    }
                } else {
                    assert(t[i] == s[i]);
                }
            }
        }
    }
}

/// The position of the entry with key `k`.
pub open spec fn key_position(s: Seq<(u8, u64)>, k: u8) -> Option<int> {
    assoc_position(s, k)
}

/// The contents of a map after `IndexMap::insert(k, v)`: an existing entry with key `k` keeps
/// its position and gets the value `v`, otherwise the entry is appended.
pub open spec fn map_insert_spec(s: Seq<(u8, u64)>, k: u8, v: u64) -> Seq<(u8, u64)> {
    assoc_insert(s, k, v)
}

/// The contents of a set after `IndexSet::insert(x)`: unchanged if `x` is present, otherwise
/// `x` is appended.
pub open spec fn set_insert_spec(s: Seq<u8>, x: u8) -> Seq<u8> {
    if s.contains(x) {
        s
    } else {
        s.push(x)
    }
}

/// `IndexMap::new`: an empty map.
#[verifier::external_body]
pub(crate) fn map_new() -> (m: IndexMap<u8, u64>)
    ensures
        map_entries(m) == Seq::<(u8, u64)>::empty(),
{
    IndexMap::new()
}

/// `IndexMap::len`: the number of entries.
#[verifier::external_body]
pub(crate) fn map_len(m: &IndexMap<u8, u64>) -> (r: usize)
    ensures
        r == map_entries(*m).len(),
{
    m.len()
}

/// `IndexMap::insert`: an entry with an equal key keeps its position and gets the new value;
/// otherwise the entry is appended. Keys stay distinct.
#[verifier::external_body]
pub(crate) fn map_insert(m: &mut IndexMap<u8, u64>, k: u8, v: u64)
    requires
        distinct_keys(map_entries(*old(m))),
    ensures
        map_entries(*final(m)) == map_insert_spec(map_entries(*old(m)), k, v),
{
    m.insert(k, v);
}

/// `IndexMap::get_index`: the entry at position `i`, if there is one.
#[verifier::external_body]
pub(crate) fn map_get_index(m: &IndexMap<u8, u64>, i: usize) -> (r: Option<(u8, u64)>)
    ensures
        i < map_entries(*m).len() ==> r == Some(map_entries(*m)[i as int]),
        i >= map_entries(*m).len() ==> r is None,
{
    m.get_index(i).map(|(k, v)| (*k, *v))
}

/// `IndexMap::get_index_of`: the position of the entry with key `k`, if there is one.
#[verifier::external_body]
pub(crate) fn map_get_index_of(m: &IndexMap<u8, u64>, k: u8) -> (r: Option<usize>)
    requires
        distinct_keys(map_entries(*m)),
    ensures
        r matches Some(i) ==> key_position(map_entries(*m), k) == Some(i as int),
        r is None ==> key_position(map_entries(*m), k) is None,
{
    m.get_index_of(&k)
}

/// `IndexMap::get_index_mut`: replace the value of the entry at position `i`.
#[verifier::external_body]
pub(crate) fn map_set_value_at(m: &mut IndexMap<u8, u64>, i: usize, v: u64)
    requires
        i < map_entries(*old(m)).len(),
    ensures
        map_entries(*final(m)) == map_entries(*old(m)).update(
            i as int,
            (map_entries(*old(m))[i as int].0, v),
        ),
{
    if let Some((_, value)) = m.get_index_mut(i) {
        *value = v;
    }
}

/// `IndexMap::clone`: a map with the same entries in the same order.
#[verifier::external_body]
pub(crate) fn map_clone(m: &IndexMap<u8, u64>) -> (r: IndexMap<u8, u64>)
    ensures
        map_entries(r) == map_entries(*m),
{
    m.clone()
}

/// `IndexSet::new`: an empty set.
#[verifier::external_body]
pub(crate) fn set_new() -> (s: IndexSet<u8>)
    ensures
        set_items(s) == Seq::<u8>::empty(),
{
    IndexSet::new()
}

/// `IndexSet::len`: the number of items.
#[verifier::external_body]
pub(crate) fn set_len(s: &IndexSet<u8>) -> (r: usize)
    ensures
        r == set_items(*s).len(),
{
    s.len()
}

/// `IndexSet::insert`: an item already present leaves the set unchanged; otherwise the item is
/// appended. Returns whether the item was new.
#[verifier::external_body]
pub(crate) fn set_insert(s: &mut IndexSet<u8>, x: u8) -> (r: bool)
    ensures
        set_items(*final(s)) == set_insert_spec(set_items(*old(s)), x),
        r == !set_items(*old(s)).contains(x),
{
    s.insert(x)
}

/// `IndexSet::get_index`: the item at position `i`, if there is one.
#[verifier::external_body]
pub(crate) fn set_get_index(s: &IndexSet<u8>, i: usize) -> (r: Option<u8>)
    ensures
        i < set_items(*s).len() ==> r == Some(set_items(*s)[i as int]),
        i >= set_items(*s).len() ==> r is None,
{
    s.get_index(i).copied()
}

} // verus!
