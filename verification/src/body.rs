//! The bodies that orbit a star: planets, and the moons of planets. The
//! store links each body to its star and to its place among planets and
//! moons, and answers for a body which orbits carry it and how it is named.

use crate::allocator::{Id, IdRange};
use crate::component::Component;
use crate::links::OwnerRangeLinks;
use crate::naming::{get_standard_name, nameable, standard_name};
use crate::relations::{RangeRelation, RangeRelations};
use crate::star::{Star, Stars};
use vstd::prelude::*;

verus! {

/// A body: the kind of the identifiers of bodies, and what is recorded of
/// one when it is created.
#[derive(Debug, Clone, PartialEq, Eq, PartialOrd, Ord, Hash)]
pub struct Body {
    pub name: String,
}

/// Where a new body belongs: the star that it orbits and, for a moon, the
/// planet that it orbits.
#[derive(Debug, Clone, Copy)]
pub struct BodyLinks {
    pub star: Id<Star>,
    pub parent: Option<Id<Body>>,
}

/// The bodies of each star, as one range for each star.
pub type StarBodies = OwnerRangeLinks<Star, Body>;

/// The tables of the bodies: their names, the star of each, and the forest
/// of planets and moons.
#[derive(Debug)]
pub struct Bodies {
    pub name: Component<Body, String>,
    pub star_bodies: StarBodies,
    pub relation: RangeRelations<Body>,
}

impl Default for Bodies {
    fn default() -> (bodies: Self)
        ensures
            bodies.wf(),
            bodies.name@ == Map::<usize, String>::empty(),
            bodies.star_bodies@ == crate::links::LinksView::<Star, Body>::empty(),
            bodies.relation@ == crate::relations::RangeForest::<Body>::empty(),
    {
        Bodies { name: Component::new(), star_bodies: OwnerRangeLinks::new(), relation: RangeRelations::new() }
    }
}

impl Bodies {
    /// Whether `id` is one of the bodies of the store.
    pub open spec fn spec_contains(&self, id: Id<Body>) -> bool {
        self.relation@.contains(id)
    }

    /// The star of the body `id`.
    pub open spec fn star_of(&self, id: Id<Body>) -> Id<Star> {
        self.star_bodies@.by_owned[id.index()]
    }

    /// The three tables agree: a body has a name, a star and a place in the
    /// forest, or none of them; links and forest are each in order; and a
    /// moon orbits the star of its planet.
    pub open spec fn wf(&self) -> bool {
        &&& self.star_bodies@.wf()
        &&& self.relation@.wf()
        &&& forall|slot: usize|
            self.relation@.entries.contains_key(slot) <==> #[trigger] self.star_bodies@.by_owned.contains_key(
                slot,
            )
        &&& forall|slot: usize|
            self.relation@.entries.contains_key(slot) <==> #[trigger] self.name@.contains_key(slot)
        &&& forall|slot: usize| #[trigger]
            self.relation@.is_child_at(slot) ==> self.star_bodies@.by_owned[slot]
                == self.star_bodies@.by_owned[self.relation@.parent_at(slot).index()]
    }

    /// Whether the new body `id` can be inserted with the links `links`: it
    /// is not yet in the store, it is the next body of its star, and, for a
    /// moon, it is the next moon of its planet, which orbits the same star.
    pub open spec fn accepts(&self, id: Id<Body>, links: BodyLinks) -> bool {
        &&& !self.spec_contains(id)
        &&& self.star_bodies@.accepts(links.star, id)
        &&& links.parent matches Some(parent) ==> {
            &&& self.relation@.accepts_child(id, parent)
            &&& self.star_of(parent) == links.star
        }
    }

    /// The planets of `star`: the roots among its bodies, in the order in
    /// which they were created. A star without bodies has none.
    pub open spec fn spec_planets(&self, star: Id<Star>) -> Seq<Id<Body>> {
        self.relation@.roots_among(self.star_bodies@.range_of(star)@)
    }

    /// The planet that `id` belongs to: its parent if it is a moon, itself
    /// if it is a planet.
    pub open spec fn planet_of(&self, id: Id<Body>) -> Id<Body> {
        if self.relation@.is_child_at(id.index()) {
            self.relation@.parent_at(id.index())
        } else {
            id
        }
    }

    /// The ordinal, from zero, of the planet `planet` among the planets of
    /// its star: how many planets that star has before it.
    pub open spec fn spec_planet_ordinal(&self, planet: Id<Body>) -> nat {
        let range = self.star_bodies@.range_of(self.star_of(planet));
        self.relation@.roots_before(range@, planet.index() - range.start())
    }

    /// The ordinal, from zero, of the moon `moon` among the moons of its
    /// planet.
    pub open spec fn spec_moon_ordinal(&self, moon: Id<Body>) -> nat {
        (moon.index() - self.relation@.children_at(
            self.relation@.parent_at(moon.index()).index(),
        ).start()) as nat
    }

    /// The ordinal of `id` among the moons of its planet if it is a moon,
    /// nothing if it is a planet.
    pub open spec fn moon_ordinal_of(&self, id: Id<Body>) -> Option<nat> {
        if self.relation@.is_child_at(id.index()) {
            Some(self.spec_moon_ordinal(id))
        } else {
            None
        }
    }

    /// The bodies whose orbits carry `id`, outermost first: for a moon its
    /// planet and then the moon, for a planet the planet alone. The
    /// displacement of `id` from its star at any time is the sum of the
    /// displacements of these orbits at that time.
    pub open spec fn spec_orbit_chain(&self, id: Id<Body>) -> Seq<Id<Body>> {
        match self.relation@.entries[id.index()] {
            RangeRelation::ChildOf(parent) => seq![parent, id],
            RangeRelation::ParentOf(_) => seq![id],
        }
    }

    /// Whether the body `id` can be given its standard name: its star has a
    /// name, and its ordinals can be rendered.
    pub open spec fn spec_nameable(&self, id: Id<Body>, stars: &Stars) -> bool {
        &&& self.spec_contains(id)
        &&& stars.name.contains(self.star_of(id))
        &&& nameable(self.spec_planet_ordinal(self.planet_of(id)), self.moon_ordinal_of(id))
    }

    /// The standard name of the body `id`.
    pub open spec fn spec_standard_name(&self, id: Id<Body>, stars: &Stars) -> Seq<char> {
        standard_name(
            stars.name@[self.star_of(id).index()]@,
            self.spec_planet_ordinal(self.planet_of(id)),
            self.moon_ordinal_of(id),
        )
    }

    /// Whether `id` is one of the bodies of the store.
    #[verifier::when_used_as_spec(spec_contains)]
    pub fn contains(&self, id: Id<Body>) -> (present: bool)
        ensures
            present == self.contains(id),
    {
        self.relation.contains(id)
    }

    /// Whether the new body `id` can be inserted with the links `links`.
    pub fn accepts_body(&self, id: Id<Body>, links: BodyLinks) -> (accepted: bool)
        requires
            self.wf(),
        ensures
            accepted == self.accepts(id, links),
    {
        if self.relation.contains(id) || !self.star_bodies.accepts(links.star, id) {
            return false;
        }
        match links.parent {
            Some(parent) => {
                if self.relation.accepts_child(id, parent) {
                    self.star_bodies.lookup_by_owned(parent).same(links.star)
                } else {
                    false
                }
            },
            None => true,
        }
    }

    /// Takes the new body `body` in under `id`: records its name, links it
    /// to its star as the next of the bodies of that star, and gives it its
    /// place in the forest, as a planet or as the next moon of its planet.
    pub fn insert(&mut self, id: Id<Body>, body: Body, links: BodyLinks)
        requires
            old(self).wf(),
            old(self).accepts(id, links),
        ensures
            final(self).wf(),
            final(self).name@ == old(self).name@.insert(id.index(), body.name),
            final(self).star_bodies@ == old(self).star_bodies@.link(links.star, id),
            final(self).relation@ == match links.parent {
                Some(parent) => old(self).relation@.insert_child(id, parent),
                None => old(self).relation@.insert_parent(id),
            },
    {
        self.name.insert(id, body.name);
        self.star_bodies.link(links.star, id);
        match links.parent {
            Some(parent) => self.relation.insert_child(id, parent),
            None => self.relation.insert_parent(id),
        }
        proof {
            assert forall|slot: usize| #[trigger] self.relation@.is_child_at(slot) implies self.star_bodies@.by_owned[slot]
                == self.star_bodies@.by_owned[self.relation@.parent_at(slot).index()] by {
                if slot != id.index() {
                    assert(old(self).relation@.is_child_at(slot));
                    let parent = old(self).relation@.parent_at(slot);
                    assert(old(self).relation@.covers(parent.index(), slot));
                }
            }
        }
    }

    /// The bodies whose orbits carry `id`, outermost first.
    pub fn orbit_chain(&self, id: Id<Body>) -> (chain: Vec<Id<Body>>)
        requires
            self.contains(id),
        ensures
            chain@ == self.spec_orbit_chain(id),
    {
        let mut chain: Vec<Id<Body>> = Vec::new();
        match self.relation.lookup(id) {
            RangeRelation::ChildOf(parent) => {
                chain.push(parent);
                chain.push(id);
            },
            RangeRelation::ParentOf(_) => {
                chain.push(id);
            },
        }
        assert(chain@ =~= self.spec_orbit_chain(id));
        chain
    }

    /// The planets of `star`, in the order in which they were created.
    pub fn planets(&self, star: Id<Star>) -> (planets: Vec<Id<Body>>)
        ensures
            planets@ == self.spec_planets(star),
    {
        let bodies = if self.star_bodies.has_owned(star) {
            self.star_bodies.lookup_by_owner(star)
        } else {
            IdRange::empty()
        };
        self.relation.parents(bodies)
    }

    /// The ordinal, from zero, of the planet `planet` among the planets of
    /// its star.
    pub fn planet_ordinal(&self, planet: Id<Body>) -> (ordinal: usize)
        requires
            self.wf(),
            self.relation@.is_root(planet),
        ensures
            ordinal == self.spec_planet_ordinal(planet),
            ordinal < self.spec_planets(self.star_of(planet)).len(),
            self.spec_planets(self.star_of(planet))[ordinal as int] == planet,
    {
        proof {
            assert(self.relation@.entries.contains_key(planet.index()));
            assert(self.star_bodies@.by_owned.contains_key(planet.index()));
        }
        let star = self.star_bodies.lookup_by_owned(planet);
        proof {
            assert(self.star_bodies@.covers(star.index(), planet.index()));
        }
        let bodies = self.star_bodies.lookup_by_owner(star);
        proof {
            use_type_invariant(&planet);
            bodies.lemma_view();
        }
        self.relation.root_ordinal(bodies, planet)
    }

    /// The ordinal, from zero, of the moon `moon` among the moons of its
    /// planet.
    pub fn moon_ordinal(&self, moon: Id<Body>) -> (ordinal: usize)
        requires
            self.wf(),
            self.relation@.is_child_at(moon.index()),
        ensures
            ordinal == self.spec_moon_ordinal(moon),
            ordinal < self.relation@.children_at(self.relation@.parent_at(moon.index()).index()).len(),
            self.relation@.children_at(self.relation@.parent_at(moon.index()).index())@[ordinal as int]
                == moon,
    {
        let ghost planet = self.relation@.parent_at(moon.index());
        proof {
            assert(self.relation@.covers(planet.index(), moon.index()));
        }
        let moons = match self.relation.lookup(moon) {
            RangeRelation::ChildOf(parent) => match self.relation.lookup(parent) {
                RangeRelation::ParentOf(moons) => moons,
                RangeRelation::ChildOf(_) => IdRange::empty(),
            },
            RangeRelation::ParentOf(_) => IdRange::empty(),
        };
        proof {
            use_type_invariant(&moon);
            moons.lemma_view();
        }
        match moons.position(moon) {
            Some(ordinal) => ordinal,
            None => 0,
        }
    }

    /// Whether the body `id` can be given its standard name.
    pub fn is_nameable(&self, id: Id<Body>, stars: &Stars) -> (nameable: bool)
        requires
            self.wf(),
        ensures
            nameable == self.spec_nameable(id, stars),
    {
        if !self.relation.contains(id) {
            return false;
        }
        if !stars.name.contains(self.star_bodies.lookup_by_owned(id)) {
            return false;
        }
        match self.relation.lookup(id) {
            RangeRelation::ParentOf(_) => self.planet_ordinal(id) < crate::naming::MAX_PLANETS,
            RangeRelation::ChildOf(parent) => {
                proof {
                    assert(self.relation@.is_child_at(id.index()));
                    assert(self.relation@.covers(parent.index(), id.index()));
                }
                self.planet_ordinal(parent) < crate::naming::MAX_PLANETS && self.moon_ordinal(id)
                    < crate::naming::MAX_MOONS
            },
        }
    }

    /// The standard name of the body `id`: the name of its star and the
    /// numeral of its planet among the planets of that star; for a moon,
    /// the letter of the moon among the moons of its planet follows.
    pub fn get_standard_name(&self, id: Id<Body>, stars: &Stars) -> (name: String)
        requires
            self.wf(),
            self.spec_nameable(id, stars),
        ensures
            name@ == self.spec_standard_name(id, stars),
    {
        let star = self.star_bodies.lookup_by_owned(id);
        let star_name = stars.name.index(star);
        match self.relation.lookup(id) {
            RangeRelation::ParentOf(_) => {
                let planet = self.planet_ordinal(id);
                get_standard_name(star_name.as_str(), planet, None)
            },
            RangeRelation::ChildOf(parent) => {
                proof {
                    assert(self.relation@.is_child_at(id.index()));
                    assert(self.relation@.covers(parent.index(), id.index()));
                }
                let planet = self.planet_ordinal(parent);
                let moon = self.moon_ordinal(id);
                get_standard_name(star_name.as_str(), planet, Some(moon))
            },
        }
    }

    /// The displacement of a moon from its star is
    /// composed of two orbits, that of its planet followed by its own, and
    /// the planet orbits the same star on its own orbit alone; the
    /// displacement of a planet is composed of its own orbit and no other.
    /// None of this depends on the time for which the orbits are taken.
    pub proof fn lemma_orbit_chain(&self, id: Id<Body>)
        requires
            self.wf(),
            self.contains(id),
        ensures
            self.relation@.is_root(id) ==> self.spec_orbit_chain(id) == seq![id],
            !self.relation@.is_root(id) ==> {
                let planet = self.relation@.parent_at(id.index());
                &&& self.spec_orbit_chain(id) == seq![planet, id]
                &&& self.contains(planet)
                &&& self.relation@.is_root(planet)
                &&& self.spec_orbit_chain(planet) == seq![planet]
                &&& self.star_of(planet) == self.star_of(id)
            },
    {
        if !self.relation@.is_root(id) {
            assert(self.relation@.is_child_at(id.index()));
            let planet = self.relation@.parent_at(id.index());
            assert(self.relation@.covers(planet.index(), id.index()));
        }
    }

    /// What a query answers is decided by what the tables
    /// hold and by nothing else: two stores that hold the same, asked the
    /// same, give the same planets, the same orbits and the same name. So
    /// does one store asked twice, as long as nothing is written in between.
    pub proof fn lemma_reads_agree(&self, other: &Bodies, stars: &Stars, other_stars: &Stars, id: Id<Body>)
        requires
            self.name@ == other.name@,
            self.star_bodies@ == other.star_bodies@,
            self.relation@ == other.relation@,
            stars.name@ == other_stars.name@,
        ensures
            self.spec_planets(self.star_of(id)) == other.spec_planets(other.star_of(id)),
            self.spec_orbit_chain(id) == other.spec_orbit_chain(id),
            self.spec_nameable(id, stars) == other.spec_nameable(id, other_stars),
            self.spec_standard_name(id, stars) == other.spec_standard_name(id, other_stars),
    {
    }
}

} // verus!
