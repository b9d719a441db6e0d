//! The surface regions of the bodies. The regions of one body are created
//! in one burst, and are linked to it as one range.

use crate::allocator::{Id, IdRange, RangeAllocator};
use crate::body::Body;
use crate::links::{LinksView, OwnerRangeLinks};
use vstd::prelude::*;

verus! {

/// A surface region: the kind of the identifiers of regions.
#[derive(Debug, Copy, Clone, PartialEq, Eq, PartialOrd, Ord, Hash)]
pub struct Region;

/// The regions of each body, as one range for each body.
pub type BodyRegions = OwnerRangeLinks<Body, Region>;

/// The tables of the regions.
#[derive(Debug)]
pub struct Regions {
    pub body_regions: BodyRegions,
}

impl Default for Regions {
    fn default() -> (regions: Self)
        ensures
            regions.body_regions@ == LinksView::<Body, Region>::empty(),
            regions.wf(),
    {
        Regions { body_regions: OwnerRangeLinks::new() }
    }
}

impl Regions {
    /// The links between bodies and regions are in order.
    pub open spec fn wf(&self) -> bool {
        self.body_regions@.wf()
    }

    /// Whether every region that is linked lies in a slot below `issued`:
    /// what holds of the regions and the allocator that issued them.
    pub open spec fn below(&self, issued: nat) -> bool {
        forall|slot: usize| #[trigger] self.body_regions@.by_owned.contains_key(slot) ==> slot < issued
    }

    /// Whether `count` regions can be created for `body` with the allocator
    /// that has issued `issued` regions: the allocator has that many left,
    /// it issued all regions that are linked, and `body` has no regions yet.
    pub open spec fn accepts(&self, count: usize, body: Id<Body>, issued: nat) -> bool {
        &&& issued + count <= usize::MAX
        &&& self.below(issued)
        &&& !self.body_regions@.by_owner.contains_key(body.index())
    }

    /// Creates `count` regions for `body`: has `alloc` issue them in one
    /// burst, links each of them to `body` in the order in which they were
    /// issued, and returns their range.
    pub fn insert(&mut self, count: usize, body: Id<Body>, alloc: &mut RangeAllocator<Region>) -> (range:
        IdRange<Region>)
        requires
            old(self).wf(),
            old(self).accepts(count, body, old(alloc)@),
        ensures
            range.start() == old(alloc)@,
            range.len() == count,
            final(alloc)@ == old(alloc)@ + count,
            final(self).wf(),
            final(self).below(final(alloc)@),
            final(self).body_regions@ == old(self).body_regions@.link_burst(body, range@, count as nat),
            count > 0 ==> final(self).body_regions@.by_owner == old(self).body_regions@.by_owner.insert(
                body.index(),
                range,
            ),
            count == 0 ==> final(self).body_regions@.by_owner == old(self).body_regions@.by_owner,
            forall|slot: usize| #[trigger]
                final(self).body_regions@.by_owned.contains_key(slot) <==> (old(self).body_regions@.by_owned.contains_key(slot)
                    || range.start() <= slot < range.spec_end()),
            forall|slot: usize|
                old(self).body_regions@.by_owned.contains_key(slot) ==> #[trigger] final(self).body_regions@.by_owned[slot]
                    == old(self).body_regions@.by_owned[slot],
            forall|slot: usize|
                range.start() <= slot < range.spec_end() ==> #[trigger] final(self).body_regions@.by_owned[slot]
                    == body,
    {
        let range = alloc.create(count);
        self.body_regions.link_range(body, range);
        range
    }
}

} // verus!
