//! Stars and the table of their names.

use crate::allocator::Id;
use crate::component::Component;
use vstd::prelude::*;

verus! {

/// A star: the kind of the identifiers of stars, and what is recorded of
/// one when it is created.
#[derive(Debug, Clone, PartialEq, Eq, PartialOrd, Ord, Hash)]
pub struct Star {
    pub name: String,
}

/// The attribute tables of the stars.
#[derive(Debug)]
pub struct Stars {
    pub name: Component<Star, String>,
}

impl Default for Stars {
    fn default() -> (stars: Self)
        ensures
            stars.name@ == Map::<usize, String>::empty(),
    {
        Stars { name: Component::new() }
    }
}

impl Stars {
    /// Records the star `star` under `id`, which has no record yet.
    pub fn insert(&mut self, id: Id<Star>, star: Star)
        requires
            !old(self).name.contains(id),
        ensures
            final(self).name@ == old(self).name@.insert(id.index(), star.name),
    {
        self.name.insert(id, star.name);
    }
}

} // verus!
