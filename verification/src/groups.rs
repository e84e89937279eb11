//! The groups of a proposal, from first inserted to last: a
//! `linked_hash_map::LinkedHashMap` from the aggregator's address (or none)
//! to the group of operations that use that aggregator.
//!
//! The map's contents are named by [`groups_of`]; what each method of the map
//! does to them is stated here and not proved.

use crate::primitives::Address;
use crate::simulation::OpWithSimulation;
use linked_hash_map::LinkedHashMap;
use vstd::prelude::*;

verus! {

/// `linked_hash_map::LinkedHashMap`, made known so that it can stand in
/// fields and signatures. Nothing is known of what a value of it holds but
/// what the functions below state.
#[verifier::external_type_specification]
#[verifier::external_body]
#[verifier::reject_recursive_types(K)]
#[verifier::reject_recursive_types(V)]
#[verifier::reject_recursive_types(S)]
pub struct ExLinkedHashMap<K, V, S>(LinkedHashMap<K, V, S>);

/// The operations that share an aggregator, and the aggregator's signature
/// over them.
#[derive(Debug, Default)]
pub struct AggregatorGroup {
    pub ops_with_simulations: Vec<OpWithSimulation>,
    pub signature: Vec<u8>,
}

/// The key and the group of each entry of the map, in the order the keys
/// were first inserted.
pub uninterp spec fn groups_of(map: LinkedHashMap<Option<Address>, AggregatorGroup>) -> Seq<
    (Option<Address>, AggregatorGroup),
>;

/// The place of the first entry with this key, or the number of entries
/// where there is none.
pub open spec fn position_of(entries: Seq<(Option<Address>, AggregatorGroup)>, key: Option<Address>) -> int
    decreases entries.len(),
{
    if entries.len() == 0 {
        0
    } else if entries[0].0 == key {
        0
    } else {
        1 + position_of(entries.skip(1), key)
    }
}

/// True when an entry has this key.
pub open spec fn has_key(entries: Seq<(Option<Address>, AggregatorGroup)>, key: Option<Address>) -> bool {
    position_of(entries, key) < entries.len()
}

/// `LinkedHashMap::new`: a map without entries.
#[verifier::external_body]
pub(crate) fn groups_new() -> (map: LinkedHashMap<Option<Address>, AggregatorGroup>)
    ensures
        groups_of(map) == Seq::<(Option<Address>, AggregatorGroup)>::empty(),
{
    LinkedHashMap::new()
}

/// `LinkedHashMap::len`: the number of entries.
#[verifier::external_body]
pub(crate) fn groups_len(map: &LinkedHashMap<Option<Address>, AggregatorGroup>) -> (n: usize)
    ensures
        n == groups_of(*map).len(),
{
    map.len()
}

/// `LinkedHashMap::keys`: the keys, in the order they were first inserted.
#[verifier::external_body]
pub(crate) fn groups_keys(map: &LinkedHashMap<Option<Address>, AggregatorGroup>) -> (keys: Vec<
    Option<Address>,
>)
    ensures
        keys@ == groups_of(*map).map_values(|e: (Option<Address>, AggregatorGroup)| e.0),
{
    map.keys().copied().collect()
}

/// `LinkedHashMap::get`: the group stored under the key, if there is one.
#[verifier::external_body]
pub(crate) fn groups_get<'a>(
    map: &'a LinkedHashMap<Option<Address>, AggregatorGroup>,
    key: &Option<Address>,
) -> (group: Option<&'a AggregatorGroup>)
    ensures
        group is Some == has_key(groups_of(*map), *key),
        group is Some ==> *group->0 == groups_of(*map)[position_of(groups_of(*map), *key)].1,
{
    map.get(key)
}

/// `LinkedHashMap::insert`: stores the group under the key. A new key goes to
/// the end; a key that was there moves to the end, and its old group is
/// returned.
#[verifier::external_body]
pub(crate) fn groups_insert(
    map: &mut LinkedHashMap<Option<Address>, AggregatorGroup>,
    key: Option<Address>,
    group: AggregatorGroup,
) -> (old_group: Option<AggregatorGroup>)
    ensures
        old_group is Some == has_key(groups_of(*old(map)), key),
        old_group is Some ==> old_group->0 == groups_of(*old(map))[position_of(
            groups_of(*old(map)),
            key,
        )].1 && groups_of(*final(map)) == groups_of(*old(map)).remove(
            position_of(groups_of(*old(map)), key),
        ).push((key, group)),
        old_group is None ==> groups_of(*final(map)) == groups_of(*old(map)).push((key, group)),
{
    map.insert(key, group)
}

/// `LinkedHashMap::remove`: takes the entry with the key out and returns its
/// group; the other entries keep their order.
#[verifier::external_body]
pub(crate) fn groups_remove(
    map: &mut LinkedHashMap<Option<Address>, AggregatorGroup>,
    key: &Option<Address>,
) -> (group: Option<AggregatorGroup>)
    ensures
        group is Some == has_key(groups_of(*old(map)), *key),
        group is Some ==> group->0 == groups_of(*old(map))[position_of(
            groups_of(*old(map)),
            *key,
        )].1 && groups_of(*final(map)) == groups_of(*old(map)).remove(
            position_of(groups_of(*old(map)), *key),
        ),
        group is None ==> groups_of(*final(map)) == groups_of(*old(map)),
{
    map.remove(key)
}

/// `LinkedHashMap::get_mut`, then `std::mem::replace` on what it points to:
/// puts `group` in the place of the group stored under the key and returns
/// that one. The entry keeps its place. Where the key is missing, nothing
/// changes and `group` comes back.
#[verifier::external_body]
pub(crate) fn groups_replace(
    map: &mut LinkedHashMap<Option<Address>, AggregatorGroup>,
    key: &Option<Address>,
    group: AggregatorGroup,
) -> (old_group: AggregatorGroup)
    ensures
        has_key(groups_of(*old(map)), *key) ==> old_group == groups_of(*old(map))[position_of(
            groups_of(*old(map)),
            *key,
        )].1 && groups_of(*final(map)) == groups_of(*old(map)).update(
            position_of(groups_of(*old(map)), *key),
            (*key, group),
        ),
        !has_key(groups_of(*old(map)), *key) ==> old_group == group && groups_of(*final(map))
            == groups_of(*old(map)),
{
    match map.get_mut(key) {
        Some(slot) => std::mem::replace(slot, group),
        None => group,
    }
}

} // verus!
