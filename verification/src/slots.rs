//! Numbers found by name, in the hash map of the `ahash` crate.
use crate::text::texts;
use ahash::AHashMap;
use vstd::prelude::*;

verus! {

#[verifier::external_type_specification]
#[verifier::external_body]
#[verifier::reject_recursive_types(K)]
#[verifier::reject_recursive_types(V)]
#[verifier::reject_recursive_types(S)]
pub struct ExAHashMap<K, V, S>(AHashMap<K, V, S>);

#[verifier::external_type_specification]
#[verifier::external_body]
pub struct ExAHashRandomState(ahash::RandomState);

/// What an `AHashMap` from names to numbers holds.
pub uninterp spec fn slots_of(map: AHashMap<String, usize>) -> Map<Seq<char>, usize>;

/// `AHashMap::new`.
///
/// Trusted: the new map holds nothing.
#[verifier::external_body]
pub(crate) fn new_slots() -> (slots: AHashMap<String, usize>)
    ensures
        slots_of(slots) == (Map::<Seq<char>, usize>::empty()),
{
    AHashMap::new()
}

/// `AHashMap::get`, with the number copied out.
///
/// Trusted: it finds the number that the map holds for the name, and nothing where the map holds
/// none. Names are compared by their characters.
#[verifier::external_body]
pub(crate) fn get_slot(slots: &AHashMap<String, usize>, name: &str) -> (slot: Option<usize>)
    ensures
        slot == (if slots_of(*slots).contains_key(name@) {
            Some(slots_of(*slots)[name@])
        } else {
            None
        }),
{
    slots.get(name).copied()
}

/// `contains_key`, which `AHashMap` has from the standard library's map inside it.
///
/// Trusted: it tells whether the map holds a number for the name.
#[verifier::external_body]
pub(crate) fn has_slot(slots: &AHashMap<String, usize>, name: &str) -> (has: bool)
    ensures
        has == slots_of(*slots).contains_key(name@),
{
    slots.contains_key(name)
}

/// `AHashMap::insert`.
///
/// Trusted: afterwards the map holds the number for the name, in place of the one that it may have
/// held before, and is otherwise unchanged. The former number is returned.
#[verifier::external_body]
pub(crate) fn insert_slot(
    slots: &mut AHashMap<String, usize>,
    name: String,
    slot: usize,
) -> (former: Option<usize>)
    ensures
        slots_of(*final(slots)) == slots_of(*old(slots)).insert(name@, slot),
        former == (if slots_of(*old(slots)).contains_key(name@) {
            Some(slots_of(*old(slots))[name@])
        } else {
            None
        }),
{
    slots.insert(name, slot)
}

/// `keys`, which `AHashMap` has from the standard library's map inside it, with the names copied
/// out.
///
/// Trusted: each name that the map holds a number for comes out once, and no other. Nothing is
/// said of the order, which differs from one map to the next.
#[verifier::external_body]
pub(crate) fn slot_names(slots: &AHashMap<String, usize>) -> (names: Vec<String>)
    ensures
        texts(names@).no_duplicates(),
        forall|name: Seq<char>|
            texts(names@).contains(name) <==> #[trigger] slots_of(*slots).contains_key(name),
{
    slots.keys().cloned().collect()
}

} // verus!
