//! The whole world: the allocators of the three kinds of entity and the
//! tables of each kind.

use crate::allocator::{Id, RangeAllocator};
use crate::body::{Bodies, Body};
use crate::links::LinksView;
use crate::region::{Region, Regions};
use crate::relations::RangeForest;
use crate::star::{Star, Stars};
use vstd::prelude::*;

verus! {

/// The allocators, one for each kind of entity.
#[derive(Debug)]
pub struct Allocators {
    pub star: RangeAllocator<Star>,
    pub body: RangeAllocator<Body>,
    pub region: RangeAllocator<Region>,
}

impl Default for Allocators {
    fn default() -> (allocators: Self)
        ensures
            allocators.star@ == 0,
            allocators.body@ == 0,
            allocators.region@ == 0,
    {
        Allocators { star: RangeAllocator::new(), body: RangeAllocator::new(), region: RangeAllocator::new() }
    }
}

/// What a state holds, table by table, each by the slots of its
/// identifiers, and how many identifiers of each kind have been issued.
pub struct World {
    pub star_names: Map<usize, String>,
    pub body_names: Map<usize, String>,
    pub star_bodies: LinksView<Star, Body>,
    pub forest: RangeForest<Body>,
    pub body_regions: LinksView<Body, Region>,
    pub stars: nat,
    pub bodies: nat,
    pub regions: nat,
}

/// The state of the world.
#[derive(Debug)]
pub struct State {
    pub allocators: Allocators,
    pub star: Stars,
    pub body: Bodies,
    pub region: Regions,
}

impl Default for State {
    fn default() -> (state: Self)
        ensures
            state.wf(),
            state.allocators.star@ == 0,
            state.allocators.body@ == 0,
            state.allocators.region@ == 0,
    {
        State {
            allocators: Allocators::default(),
            star: Stars::default(),
            body: Bodies::default(),
            region: Regions::default(),
        }
    }
}

impl View for State {
    type V = World;

    open spec fn view(&self) -> World {
        World {
            star_names: self.star.name@,
            body_names: self.body.name@,
            star_bodies: self.body.star_bodies@,
            forest: self.body.relation@,
            body_regions: self.region.body_regions@,
            stars: self.allocators.star@,
            bodies: self.allocators.body@,
            regions: self.allocators.region@,
        }
    }
}

impl State {
    /// The tables hold exactly what the allocators have issued, and agree
    /// with each other: every star that was issued has a name, every body
    /// that was issued has a name, a star that was issued and a place among
    /// planets and moons, every region that was issued belongs to a body
    /// that was issued, and nothing else is in any table.
    pub open spec fn wf(&self) -> bool {
        &&& self.body.wf()
        &&& self.region.wf()
        &&& forall|slot: usize| #[trigger]
            self.star.name@.contains_key(slot) <==> slot < self.allocators.star@
        &&& forall|slot: usize| #[trigger]
            self.body.name@.contains_key(slot) <==> slot < self.allocators.body@
        &&& forall|slot: usize| #[trigger]
            self.region.body_regions@.by_owned.contains_key(slot) <==> slot < self.allocators.region@
        &&& forall|slot: usize| #[trigger]
            self.body.star_bodies@.by_owner.contains_key(slot) ==> slot < self.allocators.star@
        &&& forall|slot: usize| #[trigger]
            self.region.body_regions@.by_owner.contains_key(slot) ==> slot < self.allocators.body@
    }

    /// Every body of the world orbits a star of the world, which has a
    /// name.
    pub proof fn lemma_star_is_named(&self, body: Id<Body>)
        requires
            self.wf(),
            self.body.contains(body),
        ensures
            self.star.name.contains(self.body.star_of(body)),
            self.body.star_of(body).index() < self.allocators.star@,
    {
        assert(self.body.star_bodies@.by_owned.contains_key(body.index()));
        let star = self.body.star_of(body);
        assert(self.body.star_bodies@.covers(star.index(), body.index()));
        assert(self.body.star_bodies@.by_owner.contains_key(star.index()));
    }

    /// The standard name of `body`, where it has one: it has none if it is
    /// no body of this world, if it belongs to a planet beyond the last
    /// numeral, or if it is a moon beyond the last letter.
    pub fn standard_name(&self, body: Id<Body>) -> (name: Option<String>)
        requires
            self.wf(),
        ensures
            name is Some <==> self.body.spec_nameable(body, &self.star),
            name matches Some(text) ==> text@ == self.body.spec_standard_name(body, &self.star),
    {
        if self.body.is_nameable(body, &self.star) {
            Some(self.body.get_standard_name(body, &self.star))
        } else {
            None
        }
    }

    /// The bodies whose orbits carry `body`, outermost first, with the star
    /// that the outermost of them orbits; nothing if `body` is no body of
    /// this world. The position of the body at any time is the position of
    /// that star, displaced by each of these orbits in turn.
    pub fn orbits(&self, body: Id<Body>) -> (path: Option<(Id<Star>, Vec<Id<Body>>)>)
        requires
            self.wf(),
        ensures
            path is Some <==> self.body.contains(body),
            path matches Some((star, chain)) ==> star == self.body.star_of(body) && chain@
                == self.body.spec_orbit_chain(body),
    {
        if self.body.contains(body) {
            proof {
                assert(self.body.star_bodies@.by_owned.contains_key(body.index()));
            }
            Some((self.body.star_bodies.lookup_by_owned(body), self.body.orbit_chain(body)))
        } else {
            None
        }
    }
}

} // verus!
