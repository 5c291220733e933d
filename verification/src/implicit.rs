//! Implicit contexts: values that a step of a strategy leaves for later steps, by protocol.
use crate::text::same_text;
use std::sync::Arc;
use vstd::prelude::*;

verus! {

/// `Arc::clone` of the standard library.
///
/// Trusted: the clone holds the same value.
#[verifier::external_body]
fn share<V: ?Sized>(value: &Arc<V>) -> (other: Arc<V>)
    ensures
        other == *value,
{
    Arc::clone(value)
}

/// The place of the first value of a protocol.
pub open spec fn first_of<V: ?Sized>(
    entries: Seq<(Seq<char>, Arc<V>)>,
    protocol: Seq<char>,
) -> Option<int>
    decreases entries.len(),
{
    if entries.len() == 0 {
        None
    } else {
        match first_of(entries.drop_last(), protocol) {
            Some(i) => Some(i),
            None => if entries.last().0 == protocol {
                Some(entries.len() - 1)
            } else {
                None
            },
        }
    }
}

/// The first value of a protocol.
pub open spec fn value_of<V: ?Sized>(
    entries: Seq<(Seq<char>, Arc<V>)>,
    protocol: Seq<char>,
) -> Option<Arc<V>> {
    match first_of(entries, protocol) {
        Some(i) => Some(entries[i].1),
        None => None,
    }
}

/// The values once the first one of a protocol is taken out: the last value takes its place.
pub open spec fn without_first<V: ?Sized>(
    entries: Seq<(Seq<char>, Arc<V>)>,
    protocol: Seq<char>,
) -> Seq<(Seq<char>, Arc<V>)> {
    match first_of(entries, protocol) {
        Some(i) => entries.update(i, entries.last()).drop_last(),
        None => entries,
    }
}

/// `first_of` finds a value of the protocol with none before it, and fails only where there is none.
pub proof fn lemma_first_of<V: ?Sized>(entries: Seq<(Seq<char>, Arc<V>)>, protocol: Seq<char>)
    ensures
        match first_of(entries, protocol) {
            Some(i) => 0 <= i < entries.len() && entries[i].0 == protocol && (forall|j: int|
                0 <= j < i ==> #[trigger] entries[j].0 != protocol),
            None => forall|j: int| 0 <= j < entries.len() ==> #[trigger] entries[j].0 != protocol,
        },
    decreases entries.len(),
{
    if entries.len() > 0 {
        let head = entries.drop_last();
        lemma_first_of(head, protocol);
        assert(forall|j: int| 0 <= j < head.len() ==> head[j] == #[trigger] entries[j]);
    }
}

/// There is only one first place.
pub proof fn lemma_first_is<V: ?Sized>(
    entries: Seq<(Seq<char>, Arc<V>)>,
    protocol: Seq<char>,
    i: int,
)
    requires
        0 <= i < entries.len(),
        entries[i].0 == protocol,
        forall|j: int| 0 <= j < i ==> #[trigger] entries[j].0 != protocol,
    ensures
        first_of(entries, protocol) == Some(i),
{
    lemma_first_of(entries, protocol);
}

/// The values that were left, in a list: there are few at a time.
pub struct ContextList<V: ?Sized> {
    entries: Vec<(&'static str, Arc<V>)>,
}

impl<V: ?Sized> View for ContextList<V> {
    type V = Seq<(Seq<char>, Arc<V>)>;

    closed spec fn view(&self) -> Seq<(Seq<char>, Arc<V>)> {
        self.entries@.map_values(|e: (&'static str, Arc<V>)| (e.0@, e.1))
    }
}

impl<V: ?Sized> ContextList<V> {
    /// A list with no value.
    pub fn new() -> (list: ContextList<V>)
        ensures
            list@ == Seq::<(Seq<char>, Arc<V>)>::empty(),
    {
        let list = ContextList { entries: Vec::new() };
        assert(list@ =~= Seq::<(Seq<char>, Arc<V>)>::empty());
        list
    }

    /// Leaves a value, after those that are there.
    pub fn produce(&mut self, protocol: &'static str, value: Arc<V>)
        ensures
            final(self)@ == old(self)@.push((protocol@, value)),
    {
        self.entries.push((protocol, value));
        assert(self@ =~= old(self)@.push((protocol@, value)));
    }

    fn position(&self, protocol: &'static str) -> (place: Option<usize>)
        ensures
            match place {
                Some(i) => i < self@.len() && first_of(self@, protocol@) == Some(i as int),
                None => first_of(self@, protocol@) is None,
            },
    {
        for i in 0..self.entries.len()
            invariant
                forall|j: int| 0 <= j < i ==> #[trigger] self@[j].0 != protocol@,
        {
            assert(self@[i as int].0 == self.entries@[i as int].0@);
            if same_text(self.entries[i].0, protocol) {
                proof {
                    lemma_first_is(self@, protocol@, i as int);
                }
                return Some(i);
            }
        }
        proof {
            lemma_first_of(self@, protocol@);
        }
        None
    }

    /// The first value of a protocol.
    pub fn get(&self, protocol: &'static str) -> (value: Option<Arc<V>>)
        ensures
            value == value_of(self@, protocol@),
    {
        match self.position(protocol) {
            Some(i) => {
                assert(self@[i as int].1 == self.entries@[i as int].1);
                Some(share(&self.entries[i].1))
            },
            None => None,
        }
    }

    /// Takes out the first value of a protocol.
    pub fn consume(&mut self, protocol: &'static str) -> (value: Option<Arc<V>>)
        ensures
            value == value_of(old(self)@, protocol@),
            final(self)@ == without_first(old(self)@, protocol@),
    {
        match self.position(protocol) {
            Some(i) => {
                assert(self@[i as int].1 == self.entries@[i as int].1);
                let entry = self.entries.swap_remove(i);
                assert(self@ =~= without_first(old(self)@, protocol@));
                Some(entry.1)
            },
            None => None,
        }
    }

    /// Whether there is a value of a protocol.
    pub fn has(&self, protocol: &'static str) -> (has: bool)
        ensures
            has == (first_of(self@, protocol@) is Some),
    {
        self.position(protocol).is_some()
    }
}

} // verus!
