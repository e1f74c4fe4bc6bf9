//! The hash maps of `bevy_platform` that the game keeps: chunk centers to chunk entities, and
//! item identifiers to counts.
//!
//! Verus sees nothing inside a `HashMap`; what each map holds is named by a spec function, and
//! each method the game calls is a small wrapper whose contract states, over that name, what the
//! method does (as `bevy_platform`'s `HashMap`, a new-type over `hashbrown::HashMap`, shows it).

use vstd::prelude::*;
use bevy::platform::collections::HashMap;
use bevy::platform::hash::FixedHasher;

verus! {

#[verifier::external_type_specification]
#[verifier::external_body]
#[verifier::reject_recursive_types(K)]
#[verifier::reject_recursive_types(V)]
#[verifier::reject_recursive_types(S)]
pub struct ExBevyHashMap<K, V, S>(HashMap<K, V, S>);

#[verifier::external_type_specification]
#[verifier::external_body]
pub struct ExFixedHasher(FixedHasher);

/// The entries of a map from chunk-center coordinates to chunk entities (as entity bits).
pub uninterp spec fn chunk_entries(m: HashMap<(i32, i32), u64>) -> Map<(i32, i32), u64>;

/// The entries of a map from item identifiers (by their characters) to counts.
pub uninterp spec fn count_entries(m: HashMap<String, u32>) -> Map<Seq<char>, u32>;

/// `HashMap::new` of `bevy_platform`: a map with no entry.
#[verifier::external_body]
pub(crate) fn chunk_map_new() -> (fresh: HashMap<(i32, i32), u64>)
    ensures
        chunk_entries(fresh) =~= Map::empty(),
{
    HashMap::new()
}

/// `HashMap::get` of `bevy_platform`: the value stored under `key`, if any.
#[verifier::external_body]
pub(crate) fn chunk_map_get(m: &HashMap<(i32, i32), u64>, key: (i32, i32)) -> (r: Option<u64>)
    ensures
        r == (if chunk_entries(*m).contains_key(key) {
            Some(chunk_entries(*m)[key])
        } else {
            None
        }),
{
    m.get(&key).copied()
}

/// `HashMap::insert` of `bevy_platform`: afterwards `key` maps to `value` and every other key
/// keeps its entry. (The replaced value that `insert` returns is not used.)
#[verifier::external_body]
pub(crate) fn chunk_map_insert(m: &mut HashMap<(i32, i32), u64>, key: (i32, i32), value: u64)
    ensures
        chunk_entries(*final(m)) == chunk_entries(*old(m)).insert(key, value),
{
    m.insert(key, value);
}

/// `HashMap::new` of `bevy_platform`: a map with no entry.
#[verifier::external_body]
pub(crate) fn count_map_new() -> (fresh: HashMap<String, u32>)
    ensures
        count_entries(fresh) =~= Map::empty(),
{
    HashMap::new()
}

/// `HashMap::get` of `bevy_platform` on a `String` key, which hashes and compares the key by
/// its characters: the value stored under a key with the same characters, if any.
#[verifier::external_body]
pub(crate) fn count_map_get(m: &HashMap<String, u32>, key: &String) -> (r: Option<u32>)
    ensures
        r == (if count_entries(*m).contains_key(key@) {
            Some(count_entries(*m)[key@])
        } else {
            None
        }),
{
    m.get(key).copied()
}

/// `HashMap::insert` of `bevy_platform` on a `String` key: afterwards the key's characters map
/// to `value` and every other key keeps its entry.
#[verifier::external_body]
pub(crate) fn count_map_insert(m: &mut HashMap<String, u32>, key: String, value: u32)
    ensures
        count_entries(*final(m)) == count_entries(*old(m)).insert(key@, value),
{
    m.insert(key, value);
}

} // verus!
