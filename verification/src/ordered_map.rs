//! The insertion-ordered map of the `indexmap` crate, as the set operations
//! use it: keyed by canonical text, holding values.
//!
//! Verus does not look inside an `IndexMap`. What one holds is named by
//! [`map_entries`], and the contracts below say over that name what each
//! method does, as the documentation of `indexmap` gives it.
use vstd::prelude::*;
use indexmap::IndexMap;
use crate::value::{Tree, Value, trees};

verus! {

/// `indexmap::IndexMap`, made known so that it can stand in signatures.
/// Nothing is said of what is inside one.
#[verifier::external_type_specification]
#[verifier::external_body]
#[verifier::reject_recursive_types(K)]
#[verifier::reject_recursive_types(V)]
#[verifier::reject_recursive_types(S)]
pub struct ExIndexMap<K, V, S>(IndexMap<K, V, S>);

/// Pairs of key and value, in a fixed order.
pub type Entries = Seq<(Seq<char>, Tree)>;

/// The entries of a map in its order, each value as its tree.
pub uninterp spec fn map_entries(m: IndexMap<String, Value>) -> Entries;

/// Whether some entry has the key.
pub open spec fn has_key(entries: Entries, key: Seq<char>) -> bool {
    exists|i: int| 0 <= i < entries.len() && (#[trigger] entries[i]).0 == key
}

/// The index of the first entry with the key; the length where none has it.
pub open spec fn key_index(entries: Entries, key: Seq<char>) -> int
    decreases entries.len(),
{
    if entries.len() == 0 {
        0
    } else if entries[0].0 == key {
        0
    } else {
        1 + key_index(entries.drop_first(), key)
    }
}

/// The entries after an insertion: the value of the entry with that key is
/// replaced where it stands, and a new key goes to the end.
pub open spec fn put(entries: Entries, key: Seq<char>, value: Tree) -> Entries {
    if has_key(entries, key) {
        entries.update(key_index(entries, key), (key, value))
    } else {
        entries.push((key, value))
    }
}

/// The values of the entries, in order.
pub open spec fn entry_values(entries: Entries) -> Seq<Tree> {
    Seq::new(entries.len(), |i: int| entries[i].1)
}

/// `IndexMap::new`: a map without entries.
#[verifier::external_body]
pub(crate) fn map_new() -> (m: IndexMap<String, Value>)
    ensures
        map_entries(m) == Seq::<(Seq<char>, Tree)>::empty(),
{
    IndexMap::new()
}

/// `IndexMap::insert`. Where an entry has the key, it keeps its place, its
/// value becomes `value` and the value it had is returned; else the pair
/// becomes the last entry and `None` is returned.
#[verifier::external_body]
pub(crate) fn map_insert(m: &mut IndexMap<String, Value>, key: String, value: Value) -> (previous:
    Option<Value>)
    ensures
        map_entries(*final(m)) == put(map_entries(*old(m)), key@, value@),
        match previous {
            Some(p) => has_key(map_entries(*old(m)), key@) && p@ == map_entries(*old(m))[key_index(
                map_entries(*old(m)),
                key@,
            )].1,
            None => !has_key(map_entries(*old(m)), key@),
        },
{
    m.insert(key, value)
}

/// `IndexMap::contains_key`: whether an entry has a key equal to `key`.
#[verifier::external_body]
pub(crate) fn map_contains_key(m: &IndexMap<String, Value>, key: &String) -> (r: bool)
    ensures
        r == has_key(map_entries(*m), key@),
{
    m.contains_key(key)
}

/// `IndexMap::values_mut`, each value moved out in turn: the values of the
/// map, in its order.
#[verifier::external_body]
pub(crate) fn map_take_values(m: IndexMap<String, Value>) -> (values: Vec<Value>)
    ensures
        trees(values@) == entry_values(map_entries(m)),
{
    let mut m = m;
    m.values_mut().map(|v| v.take()).collect()
}

/// Where the first entry with a key stands.
pub proof fn lemma_key_index(entries: Entries, key: Seq<char>)
    ensures
        0 <= key_index(entries, key) <= entries.len(),
        key_index(entries, key) < entries.len() <==> has_key(entries, key),
        has_key(entries, key) ==> entries[key_index(entries, key)].0 == key,
        forall|j: int| 0 <= j < key_index(entries, key) ==> (#[trigger] entries[j]).0 != key,
    decreases entries.len(),
{
    if entries.len() == 0 {
    } else if entries[0].0 == key {
    } else {
        let rest = entries.drop_first();
        lemma_key_index(rest, key);
        let k = key_index(rest, key);
        assert forall|j: int| 0 <= j < k + 1 implies (#[trigger] entries[j]).0 != key by {
            if j > 0 {
                assert(rest[j - 1] == entries[j]);
            }
        }
        if has_key(rest, key) {
            assert(rest[k] == entries[k + 1]);
        }
        if has_key(entries, key) {
            let i = choose|i: int| 0 <= i < entries.len() && (#[trigger] entries[i]).0 == key;
            assert(rest[i - 1] == entries[i]);
        }
    }
}

} // verus!
