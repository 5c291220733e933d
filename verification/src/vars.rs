//! The variables of a strategy.
use vstd::hash_map::StringHashMap;
use vstd::prelude::*;

verus! {

/// A table of variables: a value for each name.
///
/// The map leads from a name to a place in the list of values.
#[verifier::reject_recursive_types(R)]
pub struct VarTable<R> {
    index: StringHashMap<usize>,
    entries: Vec<(String, R)>,
}

impl<R> View for VarTable<R> {
    type V = Map<Seq<char>, R>;

    closed spec fn view(&self) -> Map<Seq<char>, R> {
        self.index@.map_values(|i: usize| self.entries@[i as int].1)
    }
}

/// Whether two maps have the same names, and the values of `other` are clones of those of `map`.
pub open spec fn cloned_values<R: Clone>(map: Map<Seq<char>, R>, other: Map<Seq<char>, R>) -> bool {
    &&& other.dom() == map.dom()
    &&& forall|name: Seq<char>| #[trigger]
        map.contains_key(name) ==> cloned(map[name], other[name])
}

/// Whether `entries` are what `map` holds, each name once.
pub open spec fn lists_map<R>(entries: Seq<(String, R)>, map: Map<Seq<char>, R>) -> bool {
    &&& forall|i: int, j: int|
        0 <= i < j < entries.len() ==> #[trigger] entries[i].0@ != #[trigger] entries[j].0@
    &&& forall|i: int|
        0 <= i < entries.len() ==> map.contains_key(#[trigger] entries[i].0@) && map[entries[i].0@]
            == entries[i].1
    &&& forall|name: Seq<char>| #[trigger]
        map.contains_key(name) ==> exists|i: int|
            0 <= i < entries.len() && #[trigger] entries[i].0@ == name
}

impl<R> VarTable<R> {
    /// A name leads to its own entry, and every entry has a name that leads to it.
    pub closed spec fn wf(self) -> bool {
        &&& forall|name: Seq<char>| #[trigger]
            self.index@.contains_key(name) ==> self.index@[name] < self.entries@.len()
                && self.entries@[self.index@[name] as int].0@ == name
        &&& forall|i: int|
            0 <= i < self.entries@.len() ==> self.index@.contains_key(
                #[trigger] self.entries@[i].0@,
            ) && self.index@[self.entries@[i].0@] == i
    }

    /// A table with no variable.
    pub fn new() -> (table: VarTable<R>)
        ensures
            table.wf(),
            table@ == Map::<Seq<char>, R>::empty(),
    {
        let table = VarTable { index: StringHashMap::new(), entries: Vec::new() };
        assert(table@ =~= Map::<Seq<char>, R>::empty());
        table
    }

    /// The value of a variable.
    pub fn get(&self, name: &str) -> (value: Option<&R>)
        requires
            self.wf(),
        ensures
            match value {
                Some(v) => self@.contains_key(name@) && *v == self@[name@],
                None => !self@.contains_key(name@),
            },
    {
        match self.index.get(name) {
            Some(place) => {
                let i: usize = *place;
                Some(&self.entries[i].1)
            },
            None => None,
        }
    }

    /// Gives a variable a value.
    pub fn set(&mut self, name: &str, value: R)
        requires
            old(self).wf(),
        ensures
            final(self).wf(),
            final(self)@ == old(self)@.insert(name@, value),
    {
        let key = name.to_owned();
        let place: Option<usize> = match self.index.get(name) {
            Some(place) => Some(*place),
            None => None,
        };
        match place {
            Some(i) => {
                self.entries.set(i, (key, value));
            },
            None => {
                self.index.insert(key.clone(), self.entries.len());
                self.entries.push((key, value));
            },
        }
        assert(self@ =~= old(self)@.insert(name@, value));
    }

    /// The variables and their values, in no fixed order.
    pub fn into_entries(self) -> (entries: Vec<(String, R)>)
        requires
            self.wf(),
        ensures
            lists_map(entries@, self@),
    {
        proof {
            assert forall|i: int| 0 <= i < self.entries@.len() implies self@.contains_key(
                #[trigger] self.entries@[i].0@,
            ) && self@[self.entries@[i].0@] == self.entries@[i].1 by {
                assert(self.index@.contains_key(self.entries@[i].0@));
            }
            assert forall|name: Seq<char>| #[trigger] self@.contains_key(name) implies exists|i: int|
                0 <= i < self.entries@.len() && #[trigger] self.entries@[i].0@ == name by {
                assert(self.index@.contains_key(name));
                let i = self.index@[name] as int;
                assert(self.entries@[i].0@ == name);
            }
        }
        self.entries
    }
}

impl<R: Clone> VarTable<R> {
    /// A copy of the table as it is now.
    pub fn snapshot(&self) -> (copy: VarTable<R>)
        requires
            self.wf(),
        ensures
            copy.wf(),
            cloned_values(self@, copy@),
    {
        let mut index: StringHashMap<usize> = StringHashMap::new();
        let mut entries: Vec<(String, R)> = Vec::new();
        for i in 0..self.entries.len()
            invariant
                self.wf(),
                entries@.len() == i,
                forall|j: int|
                    0 <= j < i ==> (#[trigger] entries@[j]).0@ == self.entries@[j].0@ && cloned(
                        self.entries@[j].1,
                        entries@[j].1,
                    ),
                forall|name: Seq<char>| #[trigger]
                    index@.contains_key(name) <==> self.index@.contains_key(name)
                        && self.index@[name] < i,
                forall|name: Seq<char>| #[trigger]
                    index@.contains_key(name) ==> index@[name] == self.index@[name],
        {
            let name = self.entries[i].0.clone();
            let value = self.entries[i].1.clone();
            assert(self.index@.contains_key(self.entries@[i as int].0@));
            entries.push((name.clone(), value));
            index.insert(name, i);
        }
        let copy = VarTable { index, entries };
        proof {
            assert forall|j: int| 0 <= j < copy.entries@.len() implies copy.index@.contains_key(
                #[trigger] copy.entries@[j].0@,
            ) && copy.index@[copy.entries@[j].0@] == j by {
                let k = self.entries@[j].0@;
                assert(self.index@.contains_key(k));
                assert(copy.index@.contains_key(k));
            }
            assert forall|name: Seq<char>| #[trigger]
                copy.index@.contains_key(name) implies copy.index@[name] < copy.entries@.len()
                && copy.entries@[copy.index@[name] as int].0@ == name by {
                assert(self.index@.contains_key(name));
            }
            assert forall|name: Seq<char>|
                copy@.dom().contains(name) == self@.dom().contains(name) by {
                assert(copy.index@.contains_key(name) == self.index@.contains_key(name));
            }
            assert(copy@.dom() =~= self@.dom());
            assert forall|name: Seq<char>| #[trigger] self@.contains_key(name) implies cloned(
                self@[name],
                copy@[name],
            ) by {
                assert(self.index@.contains_key(name));
                assert(copy.index@.contains_key(name));
                let j = self.index@[name] as int;
                assert(copy.entries@[j].0@ == self.entries@[j].0@);
            }
        }
        copy
    }
}

} // verus!
