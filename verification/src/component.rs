//! Attribute tables: one value of one attribute for each entity of one kind.

use crate::allocator::Id;
use core::marker::PhantomData;
use vstd::prelude::*;

verus! {

/// The table of one attribute, of type `V`, of the entities of kind `K`. It
/// is sparse: an entity has a value from the moment one is inserted for it,
/// and keeps that value from then on.
#[derive(Debug)]
pub struct Component<K, V> {
    values: Vec<Option<V>>,
    kind: PhantomData<K>,
}

impl<K, V> View for Component<K, V> {
    type V = Map<usize, V>;

    /// The table as a map from the slot of an identifier to the value
    /// inserted for it.
    closed spec fn view(&self) -> Map<usize, V> {
        Map::new(
            |slot: usize| slot < self.values@.len() && self.values@[slot as int] is Some,
            |slot: usize| self.values@[slot as int]->0,
        )
    }
}

impl<K, V> Default for Component<K, V> {
    fn default() -> (table: Self)
        ensures
            table@ == Map::<usize, V>::empty(),
    {
        Component::new()
    }
}

impl<K, V> Component<K, V> {
    /// Whether a value has been inserted for `id`.
    pub open spec fn spec_contains(&self, id: Id<K>) -> bool {
        self@.contains_key(id.index())
    }

    /// The value inserted for `id`, if there is one.
    pub open spec fn spec_get(&self, id: Id<K>) -> Option<V> {
        if self@.contains_key(id.index()) {
            Some(self@[id.index()])
        } else {
            None
        }
    }

    /// Once a value is inserted for an identifier, the
    /// table has exactly that value for it; every other identifier has what
    /// it had before, a value or none; and a table into which nothing was
    /// inserted has no value for any identifier.
    pub proof fn lemma_lookup_after_insert(&self, after: &Self, id: Id<K>, value: V, other: Id<K>)
        requires
            after@ == self@.insert(id.index(), value),
        ensures
            after.contains(id),
            after.spec_get(id) == Some(value),
            other.index() != id.index() ==> after.spec_get(other) == self.spec_get(other),
            self@ == Map::<usize, V>::empty() ==> self.spec_get(other) is None,
    {
    }

    /// The table that holds nothing.
    pub fn new() -> (table: Self)
        ensures
            table@ == Map::<usize, V>::empty(),
    {
        let table = Component { values: Vec::new(), kind: PhantomData };
        assert(table@ =~= Map::<usize, V>::empty());
        table
    }

    /// Whether a value has been inserted for `id`.
    #[verifier::when_used_as_spec(spec_contains)]
    pub fn contains(&self, id: Id<K>) -> (present: bool)
        ensures
            present == self.contains(id),
    {
        let slot = id.index();
        slot < self.values.len() && self.values[slot].is_some()
    }

    /// Gives `id` its value. An identifier gets a value at most once.
    pub fn insert(&mut self, id: Id<K>, value: V)
        requires
            !old(self).contains(id),
        ensures
            final(self)@ == old(self)@.insert(id.index(), value),
    {
        let slot = id.index();
        while self.values.len() <= slot
            invariant
                slot < usize::MAX,
                self.values@.len() >= old(self).values@.len(),
                forall|j: int|
                    0 <= j < old(self).values@.len() ==> self.values@[j] == old(self).values@[j],
                forall|j: int|
                    old(self).values@.len() <= j < self.values@.len() ==> self.values@[j] is None,
            decreases slot + 1 - self.values.len(),
        {
            self.values.push(None);
        }
        self.values[slot] = Some(value);
        assert(self@ =~= old(self)@.insert(slot, value));
    }

    /// The value of `id`, which must have one, to be changed in place. The
    /// stores of this crate that keep growing values use it; a table of
    /// attributes is not changed once it is filled.
    pub(crate) fn get_mut(&mut self, id: Id<K>) -> (value: &mut V)
        requires
            old(self).contains(id),
        ensures
            *value == old(self)@[id.index()],
            final(self)@ == old(self)@.insert(id.index(), *final(value)),
    {
        let slot = id.index();
        match &mut self.values[slot] {
            Some(value) => value,
            None => vstd::pervasive::unreached(),
        }
    }

    /// The value of `id`, if one has been inserted.
    pub fn get(&self, id: Id<K>) -> (value: Option<&V>)
        ensures
            value is Some <==> self.contains(id),
            value matches Some(v) ==> *v == self@[id.index()],
    {
        let slot = id.index();
        if slot < self.values.len() {
            self.values[slot].as_ref()
        } else {
            None
        }
    }

    /// The value of `id`, which must have one.
    pub fn index(&self, id: Id<K>) -> (value: &V)
        requires
            self.contains(id),
        ensures
            *value == self@[id.index()],
    {
        let slot = id.index();
        self.values[slot].as_ref().unwrap()
    }
}

} // verus!
