//! Handlers found by name.
use crate::slots::{get_slot, has_slot, insert_slot, new_slots, slot_names, slots_of};
use crate::text::texts;
use ahash::AHashMap;
use vstd::prelude::*;

verus! {

/// A table of handlers of one kind, each under the name of the symbol that it implements.
///
/// The map leads from a name to a place in the list of handlers.
#[verifier::reject_recursive_types(T)]
pub struct HandlerTable<T> {
    slots: AHashMap<String, usize>,
    handlers: Vec<T>,
}

impl<T> View for HandlerTable<T> {
    type V = Map<Seq<char>, T>;

    closed spec fn view(&self) -> Map<Seq<char>, T> {
        slots_of(self.slots).map_values(|slot: usize| self.handlers@[slot as int])
    }
}

impl<T> HandlerTable<T> {
    /// Every name leads to a handler, and no two names to the same one.
    pub closed spec fn wf(self) -> bool {
        let slots = slots_of(self.slots);
        &&& forall|name: Seq<char>| #[trigger]
            slots.contains_key(name) ==> slots[name] < self.handlers@.len()
        &&& forall|a: Seq<char>, b: Seq<char>|
            #![trigger slots.contains_key(a), slots.contains_key(b)]
            slots.contains_key(a) && slots.contains_key(b) && slots[a] == slots[b] ==> a == b
    }

    /// A table with no handler.
    pub fn new() -> (table: HandlerTable<T>)
        ensures
            table.wf(),
            table@ == Map::<Seq<char>, T>::empty(),
    {
        let table = HandlerTable { slots: new_slots(), handlers: Vec::new() };
        assert(table@ =~= Map::<Seq<char>, T>::empty());
        table
    }

    /// Puts a handler under a name, in place of the one that may be there.
    pub fn register(&mut self, name: &str, handler: T)
        requires
            old(self).wf(),
        ensures
            final(self).wf(),
            final(self)@ == old(self)@.insert(name@, handler),
    {
        match get_slot(&self.slots, name) {
            Some(slot) => {
                self.handlers.set(slot, handler);
            },
            None => {
                let slot: usize = self.handlers.len();
                self.handlers.push(handler);
                insert_slot(&mut self.slots, name.to_owned(), slot);
            },
        }
        assert(self@ =~= old(self)@.insert(name@, handler));
    }

    /// Whether there is a handler under a name.
    pub fn contains_key(&self, name: &str) -> (has: bool)
        ensures
            has == self@.contains_key(name@),
    {
        has_slot(&self.slots, name)
    }

    /// The handler under a name.
    pub fn get(&self, name: &str) -> (handler: Option<&T>)
        requires
            self.wf(),
        ensures
            match handler {
                Some(h) => self@.contains_key(name@) && *h == self@[name@],
                None => !self@.contains_key(name@),
            },
    {
        match get_slot(&self.slots, name) {
            Some(slot) => Some(&self.handlers[slot]),
            None => None,
        }
    }

    /// The names that have a handler, each once. The order is not fixed.
    pub fn names(&self) -> (names: Vec<String>)
        ensures
            is_walk(texts(names@), self@.dom()),
    {
        let names = slot_names(&self.slots);
        assert(texts(names@).to_set() =~= self@.dom()) by {
            assert forall|name: Seq<char>|
                texts(names@).contains(name) == self@.dom().contains(name) by {
                assert(slots_of(self.slots).contains_key(name) == self@.dom().contains(name));
            }
        }
        names
    }
}

/// An order in which all of `names` can be gone through: each once, and nothing else.
pub open spec fn is_walk(walk: Seq<Seq<char>>, names: Set<Seq<char>>) -> bool {
    walk.no_duplicates() && walk.to_set() == names
}

} // verus!
