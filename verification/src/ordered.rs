//! The insertion-ordered maps and sets that hold the attributes, properties,
//! class names and styles of a rendered element (`indexmap` with the `Fx`
//! hasher of `rustc-hash`), and the mathematical model of their contents: a
//! sequence of entries in iteration order.
use crate::types::{Attribute, AttributeView, Property, PropertyView};
use indexmap::{IndexMap, IndexSet};
use rustc_hash::FxHasher;
use std::hash::BuildHasherDefault;
use vstd::prelude::*;

verus! {

#[verifier::external_type_specification]
#[verifier::external_body]
pub struct ExFxHasher(FxHasher);

#[verifier::external_type_specification]
#[verifier::external_body]
#[verifier::reject_recursive_types(H)]
pub struct ExBuildHasherDefault<H>(BuildHasherDefault<H>);

#[verifier::external_type_specification]
#[verifier::external_body]
#[verifier::reject_recursive_types(K)]
#[verifier::reject_recursive_types(V)]
#[verifier::reject_recursive_types(S)]
pub struct ExIndexMap<K, V, S>(IndexMap<K, V, S>);

#[verifier::external_type_specification]
#[verifier::external_body]
#[verifier::reject_recursive_types(T)]
#[verifier::reject_recursive_types(S)]
pub struct ExIndexSet<T, S>(IndexSet<T, S>);

/// The hasher builder used by the maps of a rendered element.
pub type FxBuildHasher = BuildHasherDefault<FxHasher>;

/// Attribute values of an element, by name.
pub type AttributeMap = IndexMap<String, Attribute, FxBuildHasher>;

/// Property values of an element, by name.
pub type PropertyMap = IndexMap<String, Property, FxBuildHasher>;

/// Inline styles of an element, by name.
pub type StyleMap = IndexMap<String, String, FxBuildHasher>;

/// Class names of an element.
pub type ClassSet = IndexSet<String, FxBuildHasher>;

/// The entries of an attribute map, in iteration order.
pub uninterp spec fn attribute_entries(m: AttributeMap) -> Seq<(Seq<char>, AttributeView)>;

/// The entries of a property map, in iteration order.
pub uninterp spec fn property_entries(m: PropertyMap) -> Seq<(Seq<char>, PropertyView)>;

/// The entries of a style map, in iteration order.
pub uninterp spec fn style_entries(m: StyleMap) -> Seq<(Seq<char>, Seq<char>)>;

/// The members of a class set, in iteration order.
pub uninterp spec fn class_members(s: ClassSet) -> Seq<Seq<char>>;

// ==== the model of insertion-ordered maps ====

/// The position of the entry with key `k`, or `-1` where there is none.
pub open spec fn key_index<V>(e: Seq<(Seq<char>, V)>, k: Seq<char>) -> int
    decreases e.len(),
{
    if e.len() == 0 {
        -1
    } else if e.last().0 == k {
        e.len() - 1
    } else {
        key_index(e.drop_last(), k)
    }
}

/// No two entries share a key.
pub open spec fn keys_unique<V>(e: Seq<(Seq<char>, V)>) -> bool {
    forall|i: int, j: int| 0 <= i < e.len() && 0 <= j < e.len() && i != j ==> e[i].0 != e[j].0
}

/// The entries after inserting `(k, v)`: an entry with key `k` keeps its place
/// and takes the value `v`; otherwise the pair is added last.
pub open spec fn entries_insert<V>(e: Seq<(Seq<char>, V)>, k: Seq<char>, v: V) -> Seq<(Seq<char>, V)> {
    let i = key_index(e, k);
    if i >= 0 {
        e.update(i, (k, v))
    } else {
        e.push((k, v))
    }
}

/// The entries after removing the key `k` by swapping its entry with the last
/// one and dropping the last.
pub open spec fn entries_swap_remove<V>(e: Seq<(Seq<char>, V)>, k: Seq<char>) -> Seq<(Seq<char>, V)> {
    let i = key_index(e, k);
    if i >= 0 {
        e.update(i, e.last()).drop_last()
    } else {
        e
    }
}

/// The members of an ordered set after inserting `k`: unchanged where `k` is
/// a member, else `k` is added last.
pub open spec fn members_insert(s: Seq<Seq<char>>, k: Seq<char>) -> Seq<Seq<char>> {
    if s.contains(k) {
        s
    } else {
        s.push(k)
    }
}

pub proof fn lemma_key_index<V>(e: Seq<(Seq<char>, V)>, k: Seq<char>)
    ensures
        -1 <= key_index(e, k) < e.len(),
        key_index(e, k) >= 0 ==> e[key_index(e, k)].0 == k,
        key_index(e, k) == -1 ==> forall|j: int| 0 <= j < e.len() ==> e[j].0 != k,
        keys_unique(e) ==> forall|j: int| 0 <= j < e.len() && e[j].0 == k ==> j == key_index(e, k),
    decreases e.len(),
{
    if e.len() > 0 {
        lemma_key_index(e.drop_last(), k);
        if e.last().0 != k {
            assert forall|j: int| 0 <= j < e.len() - 1 implies e.drop_last()[j] == e[j] by {}
        }
    }
}

pub proof fn lemma_insert_unique<V>(e: Seq<(Seq<char>, V)>, k: Seq<char>, v: V)
    requires
        keys_unique(e),
    ensures
        keys_unique(entries_insert(e, k, v)),
        key_index(entries_insert(e, k, v), k) >= 0,
        entries_insert(e, k, v)[key_index(entries_insert(e, k, v), k)] == (k, v),
{
    lemma_key_index(e, k);
    let r = entries_insert(e, k, v);
    lemma_key_index(r, k);
    if key_index(e, k) >= 0 {
        assert(r[key_index(e, k)].0 == k);
    } else {
        assert(r[e.len() as int].0 == k);
    }
}

pub proof fn lemma_swap_remove_unique<V>(e: Seq<(Seq<char>, V)>, k: Seq<char>)
    requires
        keys_unique(e),
    ensures
        keys_unique(entries_swap_remove(e, k)),
        forall|j: int|
            0 <= j < entries_swap_remove(e, k).len() ==> #[trigger] entries_swap_remove(e, k)[j].0 != k,
{
    lemma_key_index(e, k);
}

/// The value under the key `k`, if any.
pub open spec fn entry_value<V>(e: Seq<(Seq<char>, V)>, k: Seq<char>) -> Option<V> {
    if key_index(e, k) >= 0 {
        Some(e[key_index(e, k)].1)
    } else {
        None
    }
}

pub proof fn lemma_entry_value_at<V>(e: Seq<(Seq<char>, V)>, j: int)
    requires
        keys_unique(e),
        0 <= j < e.len(),
    ensures
        entry_value(e, e[j].0) == Some(e[j].1),
{
    lemma_key_index(e, e[j].0);
}

pub proof fn lemma_insert_value<V>(e: Seq<(Seq<char>, V)>, k: Seq<char>, v: V, x: Seq<char>)
    requires
        keys_unique(e),
    ensures
        entry_value(entries_insert(e, k, v), x) == if x == k {
            Some(v)
        } else {
            entry_value(e, x)
        },
{
    lemma_insert_unique(e, k, v);
    let r = entries_insert(e, k, v);
    lemma_key_index(e, k);
    lemma_key_index(e, x);
    lemma_key_index(r, x);
    if x != k {
        let j = key_index(e, x);
        if j >= 0 {
            assert(r[j] == e[j]);
        } else {
            assert forall|q: int| 0 <= q < r.len() implies r[q].0 != x by {
                if q < e.len() && q != key_index(e, k) {
                    assert(r[q] == e[q]);
                }
            }
        }
    }
}

pub proof fn lemma_swap_remove_value<V>(e: Seq<(Seq<char>, V)>, k: Seq<char>, x: Seq<char>)
    requires
        keys_unique(e),
    ensures
        entry_value(entries_swap_remove(e, k), x) == if x == k {
            None
        } else {
            entry_value(e, x)
        },
{
    lemma_swap_remove_unique(e, k);
    let r = entries_swap_remove(e, k);
    let i = key_index(e, k);
    lemma_key_index(e, k);
    lemma_key_index(e, x);
    lemma_key_index(r, x);
    if x != k && i >= 0 {
        let j = key_index(e, x);
        if j >= 0 {
            if j == e.len() - 1 {
                assert(r[i] == e[j]);
            } else {
                assert(r[j] == e[j]);
            }
        } else {
            assert forall|q: int| 0 <= q < r.len() implies r[q].0 != x by {
                if q != i {
                    assert(r[q] == e[q]);
                } else {
                    assert(r[q] == e[e.len() - 1]);
                }
            }
        }
    }
}

/// Entries with no value under any key are none.
pub proof fn lemma_no_values_empty<V>(e: Seq<(Seq<char>, V)>)
    requires
        keys_unique(e),
        forall|x: Seq<char>| #[trigger] entry_value(e, x) is None,
    ensures
        e.len() == 0,
{
    if e.len() > 0 {
        lemma_entry_value_at(e, 0);
        assert(entry_value(e, e[0].0) is None);
    }
}

// ==== attribute maps ====

/// `IndexMap::default`: an empty map.
#[verifier::external_body]
pub(crate) fn attribute_map_new() -> (m: AttributeMap)
    ensures
        attribute_entries(m) == Seq::<(Seq<char>, AttributeView)>::empty(),
{
    IndexMap::default()
}

/// `IndexMap::insert`: an existing key keeps its place and gets the new value,
/// whose predecessor is returned; a new key is added last.
#[verifier::external_body]
pub(crate) fn attribute_map_insert(m: &mut AttributeMap, key: String, value: Attribute) -> (r: Option<Attribute>)
    ensures
        attribute_entries(*final(m)) == entries_insert(attribute_entries(*old(m)), key@, value@),
        key_index(attribute_entries(*old(m)), key@) >= 0 ==> (r matches Some(o) && o@ == attribute_entries(*old(m))[key_index(attribute_entries(*old(m)), key@)].1),
        key_index(attribute_entries(*old(m)), key@) < 0 ==> r is None,
{
    m.insert(key, value)
}

/// `IndexMap::remove`, which is `swap_remove`: the entry of the key is
/// replaced by the last entry, the last dropped, and the value returned.
#[verifier::external_body]
pub(crate) fn attribute_map_remove(m: &mut AttributeMap, key: &str) -> (r: Option<Attribute>)
    ensures
        attribute_entries(*final(m)) == entries_swap_remove(attribute_entries(*old(m)), key@),
        key_index(attribute_entries(*old(m)), key@) >= 0 ==> (r matches Some(o) && o@ == attribute_entries(*old(m))[key_index(attribute_entries(*old(m)), key@)].1),
        key_index(attribute_entries(*old(m)), key@) < 0 ==> r is None,
{
    m.remove(key)
}

/// `IndexMap::into_iter`, collected: the entries in iteration order.
#[verifier::external_body]
pub(crate) fn attribute_map_into_entries(m: AttributeMap) -> (r: Vec<(String, Attribute)>)
    ensures
        r@.len() == attribute_entries(m).len(),
        forall|i: int| 0 <= i < r@.len() ==> (#[trigger] r@[i]).0@ == attribute_entries(m)[i].0 && r@[i].1@ == attribute_entries(m)[i].1,
{
    m.into_iter().collect()
}

// ==== property maps ====

/// `IndexMap::default`: an empty map.
#[verifier::external_body]
pub(crate) fn property_map_new() -> (m: PropertyMap)
    ensures
        property_entries(m) == Seq::<(Seq<char>, PropertyView)>::empty(),
{
    IndexMap::default()
}

/// `IndexMap::insert`: an existing key keeps its place and gets the new value,
/// whose predecessor is returned; a new key is added last.
#[verifier::external_body]
pub(crate) fn property_map_insert(m: &mut PropertyMap, key: String, value: Property) -> (r: Option<Property>)
    ensures
        property_entries(*final(m)) == entries_insert(property_entries(*old(m)), key@, value@),
        key_index(property_entries(*old(m)), key@) >= 0 ==> (r matches Some(o) && o@ == property_entries(*old(m))[key_index(property_entries(*old(m)), key@)].1),
        key_index(property_entries(*old(m)), key@) < 0 ==> r is None,
{
    m.insert(key, value)
}

/// `IndexMap::remove`, which is `swap_remove`: the entry of the key is
/// replaced by the last entry, the last dropped, and the value returned.
#[verifier::external_body]
pub(crate) fn property_map_remove(m: &mut PropertyMap, key: &str) -> (r: Option<Property>)
    ensures
        property_entries(*final(m)) == entries_swap_remove(property_entries(*old(m)), key@),
        key_index(property_entries(*old(m)), key@) >= 0 ==> (r matches Some(o) && o@ == property_entries(*old(m))[key_index(property_entries(*old(m)), key@)].1),
        key_index(property_entries(*old(m)), key@) < 0 ==> r is None,
{
    m.remove(key)
}

/// `IndexMap::into_iter`, collected: the entries in iteration order.
#[verifier::external_body]
pub(crate) fn property_map_into_entries(m: PropertyMap) -> (r: Vec<(String, Property)>)
    ensures
        r@.len() == property_entries(m).len(),
        forall|i: int| 0 <= i < r@.len() ==> (#[trigger] r@[i]).0@ == property_entries(m)[i].0 && r@[i].1@ == property_entries(m)[i].1,
{
    m.into_iter().collect()
}

// ==== style maps ====

/// `IndexMap::default`: an empty map.
#[verifier::external_body]
pub(crate) fn style_map_new() -> (m: StyleMap)
    ensures
        style_entries(m) == Seq::<(Seq<char>, Seq<char>)>::empty(),
{
    IndexMap::default()
}

/// `IndexMap::insert`: an existing key keeps its place and gets the new value;
/// a new key is added last.
#[verifier::external_body]
pub(crate) fn style_map_insert(m: &mut StyleMap, key: String, value: String)
    ensures
        style_entries(*final(m)) == entries_insert(style_entries(*old(m)), key@, value@),
{
    m.insert(key, value);
}

/// `IndexMap::clear`: no entries are left.
#[verifier::external_body]
pub(crate) fn style_map_clear(m: &mut StyleMap)
    ensures
        style_entries(*final(m)) == Seq::<(Seq<char>, Seq<char>)>::empty(),
{
    m.clear()
}

/// `IndexMap::iter`, cloned and collected: the entries in iteration order.
#[verifier::external_body]
pub(crate) fn style_map_entries(m: &StyleMap) -> (r: Vec<(String, String)>)
    ensures
        r@.len() == style_entries(*m).len(),
        forall|i: int| 0 <= i < r@.len() ==> (#[trigger] r@[i]).0@ == style_entries(*m)[i].0 && r@[i].1@ == style_entries(*m)[i].1,
{
    m.iter().map(|(k, v)| (k.clone(), v.clone())).collect()
}

// ==== class sets ====

/// `IndexSet::default`: an empty set.
#[verifier::external_body]
pub(crate) fn class_set_new() -> (s: ClassSet)
    ensures
        class_members(s) == Seq::<Seq<char>>::empty(),
{
    IndexSet::default()
}

/// `IndexSet::insert`: a member leaves the set as it was; another value is
/// added last.
#[verifier::external_body]
pub(crate) fn class_set_insert(s: &mut ClassSet, value: String)
    ensures
        class_members(*final(s)) == members_insert(class_members(*old(s)), value@),
{
    s.insert(value);
}

/// `IndexSet::clear`: no members are left.
#[verifier::external_body]
pub(crate) fn class_set_clear(s: &mut ClassSet)
    ensures
        class_members(*final(s)) == Seq::<Seq<char>>::empty(),
{
    s.clear()
}

/// `IndexSet::iter`, cloned and collected: the members in iteration order.
#[verifier::external_body]
pub(crate) fn class_set_members(s: &ClassSet) -> (r: Vec<String>)
    ensures
        r@.len() == class_members(*s).len(),
        forall|i: int| 0 <= i < r@.len() ==> (#[trigger] r@[i])@ == class_members(*s)[i],
{
    s.iter().cloned().collect()
}

} // verus!
