//! Building a world from a description of its stellar systems: each star
//! with its planets, each planet with its moons, and for each planet and
//! moon the number of its surface regions.

use crate::allocator::{Id, IdRange};
use crate::body::{Body, BodyLinks};
use crate::relations::RangeRelation;
use crate::star::Star;
use crate::state::{State, World};
use crate::system::{SystemQueue, SystemState};
use vstd::prelude::*;

verus! {

/// The time at which a new world starts, in seconds since the epoch: the
/// first second of the year 2050.
pub const SIMULATION_START: i64 = 2_524_608_000;

/// The description of a moon: the body and the number of its regions.
#[derive(Debug)]
pub struct Moon {
    pub body: Body,
    pub regions: usize,
}

/// The description of a planet: the body, its moons in order, and the
/// number of its regions.
#[derive(Debug)]
pub struct Planet {
    pub body: Body,
    pub moons: Vec<Moon>,
    pub regions: usize,
}

/// The description of a stellar system: the star and its planets in order.
#[derive(Debug)]
pub struct StellarSystem {
    pub star: Star,
    pub planets: Vec<Planet>,
}

/// The description of a world: its stellar systems in order.
#[derive(Debug)]
pub struct Setup {
    pub systems: Vec<StellarSystem>,
}

/// How many regions the first `n` of `moons` have together.
pub open spec fn moon_regions(moons: Seq<Moon>, n: int) -> nat
    decreases n,
{
    if n <= 0 {
        0
    } else {
        moon_regions(moons, n - 1) + moons[n - 1].regions as nat
    }
}

/// How many bodies the first `n` of `planets` are together with their moons.
pub open spec fn planet_bodies(planets: Seq<Planet>, n: int) -> nat
    decreases n,
{
    if n <= 0 {
        0
    } else {
        planet_bodies(planets, n - 1) + 1 + planets[n - 1].moons@.len()
    }
}

/// How many regions the first `n` of `planets` have together with their
/// moons.
pub open spec fn planet_regions(planets: Seq<Planet>, n: int) -> nat
    decreases n,
{
    if n <= 0 {
        0
    } else {
        planet_regions(planets, n - 1) + planets[n - 1].regions as nat + moon_regions(
            planets[n - 1].moons@,
            planets[n - 1].moons@.len() as int,
        )
    }
}

/// How many bodies the first `n` of `systems` have together.
pub open spec fn system_bodies(systems: Seq<StellarSystem>, n: int) -> nat
    decreases n,
{
    if n <= 0 {
        0
    } else {
        system_bodies(systems, n - 1) + planet_bodies(
            systems[n - 1].planets@,
            systems[n - 1].planets@.len() as int,
        )
    }
}

/// How many regions the first `n` of `systems` have together.
pub open spec fn system_regions(systems: Seq<StellarSystem>, n: int) -> nat
    decreases n,
{
    if n <= 0 {
        0
    } else {
        system_regions(systems, n - 1) + planet_regions(
            systems[n - 1].planets@,
            systems[n - 1].planets@.len() as int,
        )
    }
}

/// Whether `world` holds the body with the name `name` in slot `slot`, as a
/// body of `star`, with `regions` regions from the slot `first_region` on.
pub open spec fn body_seeded(
    world: World,
    slot: int,
    name: Seq<char>,
    star: Id<Star>,
    first_region: int,
    regions: nat,
) -> bool {
    &&& 0 <= slot <= usize::MAX
    &&& world.body_names.contains_key(slot as usize)
    &&& world.body_names[slot as usize]@ == name
    &&& world.star_bodies.by_owned.contains_key(slot as usize)
    &&& world.star_bodies.by_owned[slot as usize] == star
    &&& world.forest.entries.contains_key(slot as usize)
    &&& regions == 0 ==> !world.body_regions.by_owner.contains_key(slot as usize)
    &&& regions > 0 ==> {
        &&& world.body_regions.by_owner.contains_key(slot as usize)
        &&& world.body_regions.by_owner[slot as usize].start() == first_region
        &&& world.body_regions.by_owner[slot as usize].len() == regions
    }
}

/// Whether `world` holds moon `m` of `moons` as it is described: in the
/// slot `m + 1` after that of its planet, as a child of that planet, with
/// its regions after those of the planet and of the moons before it.
pub open spec fn moon_seeded(
    world: World,
    moons: Seq<Moon>,
    m: int,
    planet: int,
    star: Id<Star>,
    first_region: int,
) -> bool {
    &&& body_seeded(
        world,
        planet + 1 + m,
        moons[m].body.name@,
        star,
        first_region + moon_regions(moons, m),
        moons[m].regions as nat,
    )
    &&& world.forest.entries[(planet + 1 + m) as usize] == RangeRelation::ChildOf(Id::<Body>::at(planet))
}

/// Whether `world` holds `planet` and its moons as they are described: the
/// planet in slot `slot` as a root, its moons in the slots that follow, as
/// its range of children, and the regions of the planet from `first_region`
/// on, followed by those of its moons.
pub open spec fn planet_seeded(
    world: World,
    planet: Planet,
    slot: int,
    star: Id<Star>,
    first_region: int,
) -> bool {
    &&& body_seeded(world, slot, planet.body.name@, star, first_region, planet.regions as nat)
    &&& world.forest.root_at(slot as usize)
    &&& world.forest.children_at(slot as usize).len() == planet.moons@.len()
    &&& planet.moons@.len() > 0 ==> world.forest.children_at(slot as usize).start() == slot + 1
    &&& forall|m: int|
        0 <= m < planet.moons@.len() ==> #[trigger] moon_seeded(
            world,
            planet.moons@,
            m,
            slot,
            star,
            first_region + planet.regions,
        )
}

/// Whether `world` holds planet `p` of `planets` as it is described, where
/// the first of `planets` has the slot `first_body` and the first region of
/// the first of them has the slot `first_region`.
pub open spec fn planet_seeded_at(
    world: World,
    planets: Seq<Planet>,
    p: int,
    star: Id<Star>,
    first_body: int,
    first_region: int,
) -> bool {
    planet_seeded(
        world,
        planets[p],
        first_body + planet_bodies(planets, p),
        star,
        first_region + planet_regions(planets, p),
    )
}

/// Whether `world` holds `system` as it is described: the star in slot
/// `star` with its name, and its planets and moons in one range of bodies
/// from `first_body` on, in the order of the description, with their
/// regions from `first_region` on. A star without planets has no range.
pub open spec fn system_seeded(
    world: World,
    system: StellarSystem,
    star: int,
    first_body: int,
    first_region: int,
) -> bool {
    &&& 0 <= star < usize::MAX
    &&& world.star_names.contains_key(star as usize)
    &&& world.star_names[star as usize]@ == system.star.name@
    &&& system.planets@.len() == 0 ==> !world.star_bodies.by_owner.contains_key(star as usize)
    &&& system.planets@.len() > 0 ==> {
        &&& world.star_bodies.by_owner.contains_key(star as usize)
        &&& world.star_bodies.by_owner[star as usize].start() == first_body
        &&& world.star_bodies.by_owner[star as usize].len() == planet_bodies(
            system.planets@,
            system.planets@.len() as int,
        )
    }
    &&& forall|p: int|
        0 <= p < system.planets@.len() ==> #[trigger] planet_seeded_at(
            world,
            system.planets@,
            p,
            Id::<Star>::at(star),
            first_body,
            first_region,
        )
}

/// Whether `world` holds system `s` of `systems` as it is described, where
/// the systems take their stars, bodies and regions from slot 0 on, one
/// system after the other.
pub open spec fn system_seeded_at(world: World, systems: Seq<StellarSystem>, s: int) -> bool {
    system_seeded(world, systems[s], s, system_bodies(systems, s) as int, system_regions(systems, s) as int)
}

/// Whether `new` holds whatever `old` holds of the bodies in the slots
/// below `bodies` and of the stars in the slots below `stars`.
spec fn keeps(new: World, old: World, bodies: int, stars: int) -> bool {
    &&& forall|slot: usize|
        slot < bodies ==> (#[trigger] new.body_names.contains_key(slot)) == old.body_names.contains_key(slot)
            && new.body_names[slot] == old.body_names[slot]
    &&& forall|slot: usize|
        slot < bodies ==> (#[trigger] new.star_bodies.by_owned.contains_key(slot))
            == old.star_bodies.by_owned.contains_key(slot) && new.star_bodies.by_owned[slot]
            == old.star_bodies.by_owned[slot]
    &&& forall|slot: usize|
        slot < bodies ==> (#[trigger] new.forest.entries.contains_key(slot)) == old.forest.entries.contains_key(
            slot,
        ) && new.forest.entries[slot] == old.forest.entries[slot]
    &&& forall|slot: usize|
        slot < bodies ==> (#[trigger] new.body_regions.by_owner.contains_key(slot))
            == old.body_regions.by_owner.contains_key(slot) && new.body_regions.by_owner[slot]
            == old.body_regions.by_owner[slot]
    &&& forall|slot: usize|
        slot < stars ==> (#[trigger] new.star_names.contains_key(slot)) == old.star_names.contains_key(slot)
            && new.star_names[slot] == old.star_names[slot]
    &&& forall|slot: usize|
        slot < stars ==> (#[trigger] new.star_bodies.by_owner.contains_key(slot))
            == old.star_bodies.by_owner.contains_key(slot) && new.star_bodies.by_owner[slot]
            == old.star_bodies.by_owner[slot]
}

/// Whether `state` is a world under construction in which the bodies in
/// the slots below `frontier`, and no others, have been taken in.
spec fn seeding(state: &State, frontier: int) -> bool {
    &&& state.body.wf()
    &&& state.region.wf()
    &&& 0 <= frontier <= state.allocators.body@
    &&& forall|slot: usize| #[trigger] state.body.name@.contains_key(slot) <==> slot < frontier
    &&& forall|slot: usize| #[trigger]
        state.region.body_regions@.by_owned.contains_key(slot) <==> slot < state.allocators.region@
    &&& forall|slot: usize| #[trigger]
        state.region.body_regions@.by_owner.contains_key(slot) ==> slot < frontier
}

/// Takes in the body with the name `name` under `id`, which is the next
/// body of the world under construction, and creates its regions.
fn seed_body(state: &mut State, id: Id<Body>, name: String, links: BodyLinks, regions: usize)
    requires
        seeding(old(state), id.index() as int),
        id.index() < old(state)@.bodies,
        old(state).body.accepts(id, links),
        old(state)@.regions + regions <= usize::MAX,
    ensures
        seeding(final(state), id.index() + 1),
        final(state)@.stars == old(state)@.stars,
        final(state)@.bodies == old(state)@.bodies,
        final(state)@.regions == old(state)@.regions + regions,
        final(state)@.star_names == old(state)@.star_names,
        final(state)@.body_names == old(state)@.body_names.insert(id.index(), name),
        final(state)@.star_bodies == old(state)@.star_bodies.link(links.star, id),
        final(state)@.forest == match links.parent {
            Some(parent) => old(state)@.forest.insert_child(id, parent),
            None => old(state)@.forest.insert_parent(id),
        },
        regions == 0 ==> final(state)@.body_regions.by_owner == old(state)@.body_regions.by_owner,
        regions > 0 ==> final(state)@.body_regions.by_owner.contains_key(id.index()),
        regions > 0 ==> final(state)@.body_regions.by_owner[id.index()].start() == old(state)@.regions,
        regions > 0 ==> final(state)@.body_regions.by_owner[id.index()].len() == regions,
        forall|slot: usize|
            slot != id.index() ==> (#[trigger] final(state)@.body_regions.by_owner.contains_key(slot))
                == old(state)@.body_regions.by_owner.contains_key(slot)
                && final(state)@.body_regions.by_owner[slot] == old(state)@.body_regions.by_owner[slot],
        keeps(final(state)@, old(state)@, untouched_below(id, links), links.star.index() as int),
        forall|slot: usize|
            slot != links.star.index() ==> (#[trigger] final(state)@.star_bodies.by_owner.contains_key(slot))
                == old(state)@.star_bodies.by_owner.contains_key(slot),
{
    state.body.insert(id, Body { name }, links);
    state.region.insert(regions, id, &mut state.allocators.region);
    proof {
        let new = state@;
        let old = old(state)@;
        let bodies = untouched_below(id, links);
        assert forall|slot: usize| slot < bodies implies (#[trigger] new.body_names.contains_key(slot))
            == old.body_names.contains_key(slot) && new.body_names[slot] == old.body_names[slot] by {}
        assert forall|slot: usize| slot < bodies implies (#[trigger] new.star_bodies.by_owned.contains_key(slot))
            == old.star_bodies.by_owned.contains_key(slot) && new.star_bodies.by_owned[slot]
            == old.star_bodies.by_owned[slot] by {}
        assert forall|slot: usize| slot < bodies implies (#[trigger] new.forest.entries.contains_key(slot))
            == old.forest.entries.contains_key(slot) && new.forest.entries[slot] == old.forest.entries[slot] by {}
        assert forall|slot: usize| slot < bodies implies (#[trigger] new.body_regions.by_owner.contains_key(slot))
            == old.body_regions.by_owner.contains_key(slot) && new.body_regions.by_owner[slot]
            == old.body_regions.by_owner[slot] by {}
        assert forall|slot: usize| slot < links.star.index() implies (#[trigger] new.star_names.contains_key(
            slot,
        )) == old.star_names.contains_key(slot) && new.star_names[slot] == old.star_names[slot] by {}
        assert forall|slot: usize| slot < links.star.index() implies (#[trigger] new.star_bodies.by_owner.contains_key(
            slot,
        )) == old.star_bodies.by_owner.contains_key(slot) && new.star_bodies.by_owner[slot]
            == old.star_bodies.by_owner[slot] by {}
    }
}

/// The slot below which taking in the body `id` with the links `links`
/// changes nothing: that of its planet for a moon, its own for a planet.
spec fn untouched_below(id: Id<Body>, links: BodyLinks) -> int {
    match links.parent {
        Some(parent) => if parent.index() < id.index() {
            parent.index() as int
        } else {
            id.index() as int
        },
        None => id.index() as int,
    }
}

/// The regions of some of the moons are no more than those of all of them.
proof fn lemma_moon_regions_rise(moons: Seq<Moon>, m: int, n: int)
    requires
        0 <= m <= n,
    ensures
        moon_regions(moons, m) <= moon_regions(moons, n),
    decreases n,
{
    if m < n {
        lemma_moon_regions_rise(moons, m, n - 1);
    }
}

/// Takes in `planet` and its moons as the next bodies of `star`: the planet
/// under the identifier at `offset` in `ids`, its moons under those that
/// follow. Returns the offset of the identifier after the last of them.
fn seed_planet(state: &mut State, star: Id<Star>, ids: IdRange<Body>, offset: usize, planet: &Planet) -> (next:
    usize)
    requires
        seeding(old(state), ids.start() + offset),
        offset + 1 + planet.moons@.len() <= ids.len(),
        ids.spec_end() <= old(state).allocators.body@,
        old(state).body.star_bodies@.by_owner.contains_key(star.index()) <==> offset > 0,
        offset > 0 ==> old(state).body.star_bodies@.by_owner[star.index()].start() == ids.start()
            && old(state).body.star_bodies@.by_owner[star.index()].len() == offset,
        old(state).allocators.region@ + planet.regions + moon_regions(
            planet.moons@,
            planet.moons@.len() as int,
        ) <= usize::MAX,
    ensures
        next == offset + 1 + planet.moons@.len(),
        seeding(final(state), ids.start() + next),
        final(state).body.star_bodies@.by_owner.contains_key(star.index()),
        final(state).body.star_bodies@.by_owner[star.index()].start() == ids.start(),
        final(state).body.star_bodies@.by_owner[star.index()].len() == next,
        final(state)@.stars == old(state)@.stars,
        final(state)@.bodies == old(state)@.bodies,
        final(state)@.regions == old(state)@.regions + planet.regions + moon_regions(
            planet.moons@,
            planet.moons@.len() as int,
        ),
        final(state)@.star_names == old(state)@.star_names,
        keeps(final(state)@, old(state)@, ids.start() + offset, star.index() as int),
        forall|slot: usize|
            slot != star.index() ==> (#[trigger] final(state)@.star_bodies.by_owner.contains_key(slot))
                == old(state)@.star_bodies.by_owner.contains_key(slot),
        planet_seeded(final(state)@, *planet, ids.start() + offset, star, old(state)@.regions as int),
{
    let ghost before = state@;
    let ghost slot: int = ids.start() + offset;
    let ghost first_region: int = state@.regions + planet.regions;
    let planet_id = ids.get(offset);
    proof {
        use_type_invariant(&star);
        use_type_invariant(&planet_id);
        use_type_invariant(&ids);
        ids.lemma_view();
        planet_id.lemma_wf();
        lemma_moon_regions_rise(planet.moons@, 0, planet.moons@.len() as int);
        IdRange::<Body>::lemma_empty();
        state.body.star_bodies@.range_of(star).lemma_extend(planet_id);
        assert(!state.body.name@.contains_key(planet_id.index()));
        assert(!state.body.relation@.entries.contains_key(planet_id.index()));
        assert(!state.body.star_bodies@.by_owned.contains_key(planet_id.index()));
    }
    seed_body(state, planet_id, planet.body.name.clone(), BodyLinks { star, parent: None }, planet.regions);
    let count = planet.moons.len();
    let mut m: usize = 0;
    while m < count
        invariant
            m <= count,
            count == planet.moons@.len(),
            slot == ids.start() + offset,
            planet_id == Id::<Body>::at(slot),
            planet_id.index() == slot,
            planet_id.wf(),
            star.wf(),
            ids.wf(),
            first_region == before.regions + planet.regions,
            before.regions + planet.regions + moon_regions(planet.moons@, count as int) <= usize::MAX,
            offset + 1 + count <= ids.len(),
            ids.spec_end() <= state.allocators.body@,
            seeding(state, slot + 1 + m),
            state.body.star_bodies@.by_owner.contains_key(star.index()),
            state.body.star_bodies@.by_owner[star.index()].start() == ids.start(),
            state.body.star_bodies@.by_owner[star.index()].len() == offset + 1 + m,
            state.body.relation@.root_at(planet_id.index()),
            state.body.relation@.children_at(planet_id.index()).len() == m,
            m > 0 ==> state.body.relation@.children_at(planet_id.index()).start() == slot + 1,
            state@.stars == before.stars,
            state@.bodies == before.bodies,
            state@.regions == first_region + moon_regions(planet.moons@, m as int),
            state@.star_names == before.star_names,
            keeps(state@, before, slot, star.index() as int),
            forall|other: usize|
                other != star.index() ==> (#[trigger] state@.star_bodies.by_owner.contains_key(other))
                    == before.star_bodies.by_owner.contains_key(other),
            body_seeded(state@, slot, planet.body.name@, star, before.regions as int, planet.regions as nat),
            forall|done: int|
                0 <= done < m ==> #[trigger] moon_seeded(state@, planet.moons@, done, slot, star, first_region),
        decreases count - m,
    {
        let ghost mid = state@;
        let moon = &planet.moons[m];
        let moon_id = ids.get(offset + 1 + m);
        proof {
            use_type_invariant(&moon_id);
            ids.lemma_view();
            moon_id.lemma_wf();
            lemma_moon_regions_rise(planet.moons@, m + 1, count as int);
            assert(state.body.relation@.children_at(planet_id.index()).wf());
            state.body.relation@.children_at(planet_id.index()).lemma_extend(moon_id);
            state.body.star_bodies@.by_owner[star.index()].lemma_extend(moon_id);
            assert(!state.body.name@.contains_key(moon_id.index()));
            assert(!state.body.relation@.entries.contains_key(moon_id.index()));
            assert(!state.body.star_bodies@.by_owned.contains_key(moon_id.index()));
            assert(state.body.name@.contains_key(planet_id.index()));
            assert(state.body.star_bodies@.by_owned.contains_key(planet_id.index()));
        }
        seed_body(state, moon_id, moon.body.name.clone(), BodyLinks { star, parent: Some(planet_id) }, moon.regions);
        proof {
            lemma_keeps_twice(state@, mid, before, slot, slot, star.index() as int);
            assert(state@.body_regions.by_owner.contains_key(slot as usize)
                == mid.body_regions.by_owner.contains_key(slot as usize));
            assert(moon_seeded(state@, planet.moons@, m as int, slot, star, first_region));
            assert forall|done: int| 0 <= done < m + 1 implies #[trigger] moon_seeded(
                state@,
                planet.moons@,
                done,
                slot,
                star,
                first_region,
            ) by {
                if done < m {
                    assert(moon_seeded(mid, planet.moons@, done, slot, star, first_region));
                }
            }
        }
        m = m + 1;
    }
    offset + 1 + count
}

/// The bodies of some of the planets are no more than those of all of them.
proof fn lemma_planet_bodies_rise(planets: Seq<Planet>, p: int, n: int)
    requires
        0 <= p <= n,
    ensures
        planet_bodies(planets, p) <= planet_bodies(planets, n),
    decreases n,
{
    if p < n {
        lemma_planet_bodies_rise(planets, p, n - 1);
    }
}

/// The regions of some of the planets are no more than those of all of them.
proof fn lemma_planet_regions_rise(planets: Seq<Planet>, p: int, n: int)
    requires
        0 <= p <= n,
    ensures
        planet_regions(planets, p) <= planet_regions(planets, n),
    decreases n,
{
    if p < n {
        lemma_planet_regions_rise(planets, p, n - 1);
    }
}

/// The bodies of some of the systems are no more than those of all of them.
proof fn lemma_system_bodies_rise(systems: Seq<StellarSystem>, s: int, n: int)
    requires
        0 <= s <= n,
    ensures
        system_bodies(systems, s) <= system_bodies(systems, n),
    decreases n,
{
    if s < n {
        lemma_system_bodies_rise(systems, s, n - 1);
    }
}

/// The regions of some of the systems are no more than those of all of them.
proof fn lemma_system_regions_rise(systems: Seq<StellarSystem>, s: int, n: int)
    requires
        0 <= s <= n,
    ensures
        system_regions(systems, s) <= system_regions(systems, n),
    decreases n,
{
    if s < n {
        lemma_system_regions_rise(systems, s, n - 1);
    }
}

/// What is kept twice is kept.
proof fn lemma_keeps_twice(new: World, mid: World, old: World, bodies: int, more: int, stars: int)
    requires
        keeps(mid, old, bodies, stars),
        keeps(new, mid, more, stars),
        bodies <= more,
    ensures
        keeps(new, old, bodies, stars),
{
    assert forall|slot: usize| slot < bodies implies (#[trigger] new.body_names.contains_key(slot))
        == old.body_names.contains_key(slot) && new.body_names[slot] == old.body_names[slot] by {
        assert(mid.body_names.contains_key(slot) == old.body_names.contains_key(slot));
    }
    assert forall|slot: usize| slot < bodies implies (#[trigger] new.star_bodies.by_owned.contains_key(slot))
        == old.star_bodies.by_owned.contains_key(slot) && new.star_bodies.by_owned[slot]
        == old.star_bodies.by_owned[slot] by {
        assert(mid.star_bodies.by_owned.contains_key(slot) == old.star_bodies.by_owned.contains_key(slot));
    }
    assert forall|slot: usize| slot < bodies implies (#[trigger] new.forest.entries.contains_key(slot))
        == old.forest.entries.contains_key(slot) && new.forest.entries[slot] == old.forest.entries[slot] by {
        assert(mid.forest.entries.contains_key(slot) == old.forest.entries.contains_key(slot));
    }
    assert forall|slot: usize| slot < bodies implies (#[trigger] new.body_regions.by_owner.contains_key(slot))
        == old.body_regions.by_owner.contains_key(slot) && new.body_regions.by_owner[slot]
        == old.body_regions.by_owner[slot] by {
        assert(mid.body_regions.by_owner.contains_key(slot) == old.body_regions.by_owner.contains_key(slot));
    }
    assert forall|slot: usize| slot < stars implies (#[trigger] new.star_names.contains_key(slot))
        == old.star_names.contains_key(slot) && new.star_names[slot] == old.star_names[slot] by {
        assert(mid.star_names.contains_key(slot) == old.star_names.contains_key(slot));
    }
    assert forall|slot: usize| slot < stars implies (#[trigger] new.star_bodies.by_owner.contains_key(slot))
        == old.star_bodies.by_owner.contains_key(slot) && new.star_bodies.by_owner[slot]
        == old.star_bodies.by_owner[slot] by {
        assert(mid.star_bodies.by_owner.contains_key(slot) == old.star_bodies.by_owner.contains_key(slot));
    }
}

/// A planet that a world holds as described is held so by every world that
/// keeps the bodies up to the last moon of the planet.
proof fn lemma_keeps_planet(
    new: World,
    old: World,
    bodies: int,
    stars: int,
    planet: Planet,
    slot: int,
    star: Id<Star>,
    first_region: int,
)
    requires
        keeps(new, old, bodies, stars),
        planet_seeded(old, planet, slot, star, first_region),
        slot + 1 + planet.moons@.len() <= bodies,
    ensures
        planet_seeded(new, planet, slot, star, first_region),
{
    assert(new.body_names.contains_key(slot as usize));
    assert(new.star_bodies.by_owned.contains_key(slot as usize));
    assert(new.forest.entries.contains_key(slot as usize));
    assert(new.body_regions.by_owner.contains_key(slot as usize) == old.body_regions.by_owner.contains_key(
        slot as usize,
    ));
    assert forall|m: int| 0 <= m < planet.moons@.len() implies #[trigger] moon_seeded(
        new,
        planet.moons@,
        m,
        slot,
        star,
        first_region + planet.regions,
    ) by {
        assert(moon_seeded(old, planet.moons@, m, slot, star, first_region + planet.regions));
        let moon = (slot + 1 + m) as usize;
        assert(new.body_names.contains_key(moon));
        assert(new.star_bodies.by_owned.contains_key(moon));
        assert(new.forest.entries.contains_key(moon));
        assert(new.body_regions.by_owner.contains_key(moon) == old.body_regions.by_owner.contains_key(moon));
    }
}

/// A system that a world holds as described is held so by every world that
/// keeps its star and the bodies up to its last.
proof fn lemma_keeps_system(
    new: World,
    old: World,
    bodies: int,
    stars: int,
    system: StellarSystem,
    star: int,
    first_body: int,
    first_region: int,
)
    requires
        keeps(new, old, bodies, stars),
        system_seeded(old, system, star, first_body, first_region),
        star < stars,
        first_body + planet_bodies(system.planets@, system.planets@.len() as int) <= bodies,
    ensures
        system_seeded(new, system, star, first_body, first_region),
{
    assert(new.star_names.contains_key(star as usize));
    assert(new.star_bodies.by_owner.contains_key(star as usize) == old.star_bodies.by_owner.contains_key(
        star as usize,
    ));
    assert forall|p: int| 0 <= p < system.planets@.len() implies #[trigger] planet_seeded_at(
        new,
        system.planets@,
        p,
        Id::<Star>::at(star),
        first_body,
        first_region,
    ) by {
        assert(planet_seeded_at(old, system.planets@, p, Id::<Star>::at(star), first_body, first_region));
        lemma_planet_bodies_rise(system.planets@, p + 1, system.planets@.len() as int);
        lemma_keeps_planet(
            new,
            old,
            bodies,
            stars,
            system.planets@[p],
            first_body + planet_bodies(system.planets@, p),
            Id::<Star>::at(star),
            first_region + planet_regions(system.planets@, p),
        );
    }
}

/// How many bodies `planets` are together with their moons.
fn count_bodies(planets: &Vec<Planet>) -> (count: usize)
    requires
        planet_bodies(planets@, planets@.len() as int) <= usize::MAX,
    ensures
        count == planet_bodies(planets@, planets@.len() as int),
{
    let mut count: usize = 0;
    let mut p: usize = 0;
    while p < planets.len()
        invariant
            p <= planets@.len(),
            count == planet_bodies(planets@, p as int),
            planet_bodies(planets@, planets@.len() as int) <= usize::MAX,
        decreases planets@.len() - p,
    {
        proof {
            lemma_planet_bodies_rise(planets@, p + 1, planets@.len() as int);
        }
        count = count + 1 + planets[p].moons.len();
        p = p + 1;
    }
    count
}

/// Takes in `system` under the star identifier `star`: records the star,
/// has the bodies of the system issued in one burst, and takes in its
/// planets and their moons in the order of the description.
fn seed_system(state: &mut State, star: Id<Star>, system: &StellarSystem)
    requires
        seeding(old(state), old(state).allocators.body@ as int),
        star.index() < old(state).allocators.star@,
        forall|slot: usize| #[trigger] old(state)@.star_names.contains_key(slot) <==> slot < star.index(),
        forall|slot: usize| #[trigger]
            old(state)@.star_bodies.by_owner.contains_key(slot) ==> slot < star.index(),
        old(state).allocators.body@ + planet_bodies(system.planets@, system.planets@.len() as int)
            <= usize::MAX,
        old(state).allocators.region@ + planet_regions(system.planets@, system.planets@.len() as int)
            <= usize::MAX,
    ensures
        seeding(final(state), final(state).allocators.body@ as int),
        final(state)@.stars == old(state)@.stars,
        final(state)@.bodies == old(state)@.bodies + planet_bodies(
            system.planets@,
            system.planets@.len() as int,
        ),
        final(state)@.regions == old(state)@.regions + planet_regions(
            system.planets@,
            system.planets@.len() as int,
        ),
        forall|slot: usize| #[trigger] final(state)@.star_names.contains_key(slot) <==> slot < star.index() + 1,
        forall|slot: usize| #[trigger]
            final(state)@.star_bodies.by_owner.contains_key(slot) ==> slot < star.index() + 1,
        keeps(final(state)@, old(state)@, old(state)@.bodies as int, star.index() as int),
        system_seeded(
            final(state)@,
            *system,
            star.index() as int,
            old(state)@.bodies as int,
            old(state)@.regions as int,
        ),
{
    let ghost before = state@;
    proof {
        use_type_invariant(&star);
        star.lemma_wf();
        assert(!before.star_names.contains_key(star.index()));
        assert(!before.star_bodies.by_owner.contains_key(star.index()));
    }
    state.star.insert(star, Star { name: system.star.name.clone() });
    let body_count = count_bodies(&system.planets);
    let ids = state.allocators.body.create(body_count);
    let count = system.planets.len();
    let mut offset: usize = 0;
    let mut p: usize = 0;
    proof {
        use_type_invariant(&ids);
    }
    while p < count
        invariant
            p <= count,
            count == system.planets@.len(),
            star.wf(),
            star == Id::<Star>::at(star.index() as int),
            ids.wf(),
            ids.start() == before.bodies,
            ids.len() == planet_bodies(system.planets@, count as int),
            ids.spec_end() == state.allocators.body@,
            offset == planet_bodies(system.planets@, p as int),
            before.regions + planet_regions(system.planets@, count as int) <= usize::MAX,
            seeding(state, ids.start() + offset),
            state.body.star_bodies@.by_owner.contains_key(star.index()) <==> offset > 0,
            offset > 0 ==> state.body.star_bodies@.by_owner[star.index()].start() == ids.start()
                && state.body.star_bodies@.by_owner[star.index()].len() == offset,
            state@.stars == before.stars,
            state@.bodies == before.bodies + planet_bodies(system.planets@, count as int),
            state@.regions == before.regions + planet_regions(system.planets@, p as int),
            state@.star_names == before.star_names.insert(star.index(), state@.star_names[star.index()]),
            state@.star_names[star.index()]@ == system.star.name@,
            keeps(state@, before, before.bodies as int, star.index() as int),
            forall|slot: usize|
                slot != star.index() ==> (#[trigger] state@.star_bodies.by_owner.contains_key(slot))
                    == before.star_bodies.by_owner.contains_key(slot),
            forall|done: int|
                0 <= done < p ==> #[trigger] planet_seeded_at(
                    state@,
                    system.planets@,
                    done,
                    star,
                    before.bodies as int,
                    before.regions as int,
                ),
        decreases count - p,
    {
        let ghost mid = state@;
        let ghost reached: int = ids.start() + offset;
        proof {
            lemma_planet_bodies_rise(system.planets@, p + 1, count as int);
            lemma_planet_regions_rise(system.planets@, p + 1, count as int);
        }
        offset = seed_planet(state, star, ids, offset, &system.planets[p]);
        proof {
            lemma_keeps_twice(state@, mid, before, before.bodies as int, reached, star.index() as int);
            assert forall|done: int| 0 <= done < p + 1 implies #[trigger] planet_seeded_at(
                state@,
                system.planets@,
                done,
                star,
                before.bodies as int,
                before.regions as int,
            ) by {
                if done < p {
                    assert(planet_seeded_at(
                        mid,
                        system.planets@,
                        done,
                        star,
                        before.bodies as int,
                        before.regions as int,
                    ));
                    lemma_planet_bodies_rise(system.planets@, done + 1, p as int);
                    lemma_keeps_planet(
                        state@,
                        mid,
                        reached,
                        star.index() as int,
                        system.planets@[done],
                        (before.bodies + planet_bodies(system.planets@, done)) as int,
                        star,
                        (before.regions + planet_regions(system.planets@, done)) as int,
                    );
                }
            }
        }
        p = p + 1;
    }
}

/// The sum of two counts, if it can be counted.
fn add_counts(a: usize, b: usize) -> (sum: Option<usize>)
    ensures
        sum == if a + b <= usize::MAX {
            Some((a + b) as usize)
        } else {
            None
        },
{
    if a > usize::MAX - b {
        None
    } else {
        Some(a + b)
    }
}

/// How many regions `moons` have together, if they can be counted.
fn count_moon_regions(moons: &Vec<Moon>) -> (count: Option<usize>)
    ensures
        count == if moon_regions(moons@, moons@.len() as int) <= usize::MAX {
            Some(moon_regions(moons@, moons@.len() as int) as usize)
        } else {
            None
        },
{
    let mut count: usize = 0;
    let mut m: usize = 0;
    while m < moons.len()
        invariant
            m <= moons@.len(),
            count == moon_regions(moons@, m as int),
        decreases moons@.len() - m,
    {
        proof {
            lemma_moon_regions_rise(moons@, m + 1, moons@.len() as int);
        }
        match add_counts(count, moons[m].regions) {
            Some(sum) => {
                count = sum;
            },
            None => {
                return None;
            },
        }
        m = m + 1;
    }
    Some(count)
}

/// How many bodies and how many regions `planets` have together with their
/// moons, if both can be counted.
fn count_planets(planets: &Vec<Planet>) -> (counts: Option<(usize, usize)>)
    ensures
        counts == if planet_bodies(planets@, planets@.len() as int) <= usize::MAX && planet_regions(
            planets@,
            planets@.len() as int,
        ) <= usize::MAX {
            Some(
                (
                    planet_bodies(planets@, planets@.len() as int) as usize,
                    planet_regions(planets@, planets@.len() as int) as usize,
                ),
            )
        } else {
            None
        },
{
    let mut bodies: usize = 0;
    let mut regions: usize = 0;
    let mut p: usize = 0;
    while p < planets.len()
        invariant
            p <= planets@.len(),
            bodies == planet_bodies(planets@, p as int),
            regions == planet_regions(planets@, p as int),
        decreases planets@.len() - p,
    {
        proof {
            lemma_planet_bodies_rise(planets@, p + 1, planets@.len() as int);
            lemma_planet_regions_rise(planets@, p + 1, planets@.len() as int);
        }
        let planet = &planets[p];
        let more_bodies = match add_counts(planet.moons.len(), 1) {
            Some(own) => add_counts(bodies, own),
            None => None,
        };
        let more_regions = match count_moon_regions(&planet.moons) {
            Some(of_moons) => match add_counts(planet.regions, of_moons) {
                Some(own) => add_counts(regions, own),
                None => None,
            },
            None => None,
        };
        match (more_bodies, more_regions) {
            (Some(b), Some(r)) => {
                bodies = b;
                regions = r;
            },
            _ => {
                return None;
            },
        }
        p = p + 1;
    }
    Some((bodies, regions))
}

/// Where nothing is wanted, nothing is found.
proof fn lemma_filter_none<A>(s: Seq<A>, wanted: spec_fn(A) -> bool)
    requires
        forall|i: int| 0 <= i < s.len() ==> !wanted(#[trigger] s[i]),
    ensures
        s.filter(wanted) == Seq::<A>::empty(),
    decreases s.len(),
{
    reveal(Seq::filter);
    if s.len() > 0 {
        lemma_filter_none(s.drop_last(), wanted);
    }
}

/// Where the first alone is wanted, the first alone is found.
proof fn lemma_filter_first<A>(s: Seq<A>, wanted: spec_fn(A) -> bool)
    requires
        s.len() > 0,
        wanted(s[0]),
        forall|i: int| 1 <= i < s.len() ==> !wanted(#[trigger] s[i]),
    ensures
        s.filter(wanted) == seq![s[0]],
{
    let one = seq![s[0]];
    let rest = s.skip(1);
    assert(s =~= one + rest);
    Seq::filter_distributes_over_add(one, rest, wanted);
    assert(one.filter(wanted) =~= one) by {
        reveal_with_fuel(Seq::filter, 2);
        assert(one.drop_last() =~= Seq::<A>::empty());
    }
    lemma_filter_none(rest, wanted);
}

/// In the range of the bodies of a star whose planets a world holds as
/// they are described, exactly `q` planets come before planet `q`: the
/// planets are the roots of the range, and the slots between two of them
/// hold the moons of the first.
proof fn lemma_planets_before(
    world: World,
    planets: Seq<Planet>,
    star: Id<Star>,
    range: IdRange<Body>,
    first_region: int,
    q: int,
)
    requires
        range.wf(),
        range.len() == planet_bodies(planets, planets.len() as int),
        0 <= q <= planets.len(),
        forall|p: int|
            0 <= p < planets.len() ==> #[trigger] planet_seeded_at(
                world,
                planets,
                p,
                star,
                range.start() as int,
                first_region,
            ),
    ensures
        planet_bodies(planets, q) <= range.len(),
        world.forest.roots_before(range@, planet_bodies(planets, q) as int) == q,
    decreases q,
{
    let is_root = |id: Id<Body>| world.forest.is_root(id);
    range.lemma_view();
    lemma_planet_bodies_rise(planets, q, planets.len() as int);
    if q == 0 {
        reveal(Seq::filter);
        assert(range@.take(0) =~= Seq::<Id<Body>>::empty());
    } else {
        let p = q - 1;
        lemma_planets_before(world, planets, star, range, first_region, p);
        let from = planet_bodies(planets, p) as int;
        let to = planet_bodies(planets, q) as int;
        let slot = range.start() + from;
        let head = range@.take(from);
        let segment = range@.subrange(from, to);
        assert(range@.take(to) =~= head + segment);
        Seq::filter_distributes_over_add(head, segment, is_root);
        assert(planet_seeded_at(world, planets, p, star, range.start() as int, first_region));
        assert(segment[0] == range@[from]);
        assert(is_root(segment[0]));
        assert forall|i: int| 1 <= i < segment.len() implies !is_root(#[trigger] segment[i]) by {
            assert(segment[i] == range@[from + i]);
            assert(moon_seeded(world, planets[p].moons@, i - 1, slot, star, first_region + planet_regions(
                planets,
                p,
            ) + planets[p].regions));
        }
        lemma_filter_first(segment, is_root);
    }
}

/// The slot of planet `p` of system `s` of `systems`.
pub open spec fn planet_slot(systems: Seq<StellarSystem>, s: int, p: int) -> int {
    (system_bodies(systems, s) + planet_bodies(systems[s].planets@, p)) as int
}

/// The slot of moon `m` of planet `p` of system `s` of `systems`.
pub open spec fn moon_slot(systems: Seq<StellarSystem>, s: int, p: int, m: int) -> int {
    planet_slot(systems, s, p) + 1 + m
}

/// In a world that holds system `s` of
/// `systems` as it is described, planet `p` of that system has the ordinal
/// `p` among the planets of its star, and moon `m` of that planet has the
/// ordinal `m` among its moons: the planet is named after the star with the
/// numeral of `p`, and the moon with the letter of `m` after that.
pub proof fn lemma_seeded_names(state: &State, systems: Seq<StellarSystem>, s: int, p: int)
    requires
        state.body.wf(),
        0 <= s < systems.len(),
        0 <= p < systems[s].planets@.len(),
        system_seeded_at(state@, systems, s),
    ensures
        ({
            let planet = Id::<Body>::at(planet_slot(systems, s, p));
            &&& state.body.contains(planet)
            &&& state.star.name.contains(state.body.star_of(planet))
            &&& state.body.spec_planet_ordinal(planet) == p
            &&& state.body.moon_ordinal_of(planet) is None
            &&& state.body.planet_of(planet) == planet
            &&& state.body.spec_standard_name(planet, &state.star) == crate::naming::standard_name(
                systems[s].star.name@,
                p as nat,
                None,
            )
        }),
        forall|m: int|
            0 <= m < systems[s].planets@[p].moons@.len() ==> {
                let planet = Id::<Body>::at(planet_slot(systems, s, p));
                let moon = Id::<Body>::at(#[trigger] moon_slot(systems, s, p, m));
                &&& state.body.contains(moon)
                &&& state.star.name.contains(state.body.star_of(moon))
                &&& state.body.planet_of(moon) == planet
                &&& state.body.moon_ordinal_of(moon) == Some(m as nat)
                &&& state.body.spec_standard_name(moon, &state.star) == crate::naming::standard_name(
                    systems[s].star.name@,
                    p as nat,
                    Some(m as nat),
                )
            },
{
    let world = state@;
    let system = systems[s];
    let planets = system.planets@;
    let star = Id::<Star>::at(s);
    let first_body = system_bodies(systems, s) as int;
    let first_region = system_regions(systems, s) as int;
    let slot = first_body + planet_bodies(planets, p);
    let planet = Id::<Body>::at(slot);
    assert(system_seeded(world, system, s, first_body, first_region));
    assert(planet_seeded_at(world, planets, p, star, first_body, first_region));
    Id::<Star>::lemma_at(s);
    let range = world.star_bodies.by_owner[s as usize];
    assert(world.star_bodies.by_owner.contains_key(s as usize));
    assert(range.wf());
    range.lemma_view();
    lemma_planet_bodies_rise(planets, p + 1, planets.len() as int);
    Id::<Body>::lemma_at(slot);
    lemma_planets_before(world, planets, star, range, first_region, p);
    assert(state.body.star_of(planet) == star);
    assert(state.body.star_bodies@.range_of(star) == range);
    assert(!state.body.relation@.is_child_at(planet.index()));
    assert forall|m: int| 0 <= m < planets[p].moons@.len() implies {
        let moon = Id::<Body>::at(#[trigger] moon_slot(systems, s, p, m));
        &&& state.body.contains(moon)
        &&& state.star.name.contains(state.body.star_of(moon))
        &&& state.body.planet_of(moon) == planet
        &&& state.body.moon_ordinal_of(moon) == Some(m as nat)
        &&& state.body.spec_standard_name(moon, &state.star) == crate::naming::standard_name(
            system.star.name@,
            p as nat,
            Some(m as nat),
        )
    } by {
        let moon = Id::<Body>::at(slot + 1 + m);
        assert(moon_seeded(world, planets[p].moons@, m, slot, star, first_region + planet_regions(planets, p)
            + planets[p].regions));
        Id::<Body>::lemma_at(slot + 1 + m);
        assert(state.body.relation@.is_child_at(moon.index()));
        assert(state.body.relation@.parent_at(moon.index()) == planet);
    }
}

impl Setup {
    /// Whether the identifiers of the world that is described can be
    /// issued: its bodies can be counted, and so can its regions.
    pub open spec fn spec_fits(&self) -> bool {
        &&& system_bodies(self.systems@, self.systems@.len() as int) <= usize::MAX
        &&& system_regions(self.systems@, self.systems@.len() as int) <= usize::MAX
    }

    /// Whether the identifiers of the world that is described can be
    /// issued.
    #[verifier::when_used_as_spec(spec_fits)]
    pub fn fits(&self) -> (fits: bool)
        ensures
            fits == self.fits(),
    {
        let mut bodies: usize = 0;
        let mut regions: usize = 0;
        let mut s: usize = 0;
        while s < self.systems.len()
            invariant
                s <= self.systems@.len(),
                bodies == system_bodies(self.systems@, s as int),
                regions == system_regions(self.systems@, s as int),
            decreases self.systems@.len() - s,
        {
            proof {
                lemma_system_bodies_rise(self.systems@, s + 1, self.systems@.len() as int);
                lemma_system_regions_rise(self.systems@, s + 1, self.systems@.len() as int);
            }
            let sums = match count_planets(&self.systems[s].planets) {
                Some((b, r)) => (add_counts(bodies, b), add_counts(regions, r)),
                None => (None, None),
            };
            match sums {
                (Some(b), Some(r)) => {
                    bodies = b;
                    regions = r;
                },
                _ => {
                    return false;
                },
            }
            s = s + 1;
        }
        true
    }

    /// Builds the world that is described. The stars get their identifiers
    /// in one burst, in the order of the description. Then each system in
    /// turn gets the identifiers of its bodies in one burst, which its
    /// planets take up in order, each followed by its moons; and each body,
    /// as it is taken in, gets its regions in one burst. Every burst is
    /// used up exactly, and every range is linked without a gap.
    pub fn create(self) -> (world: SystemState)
        requires
            self.fits(),
        ensures
            world.state.wf(),
            world.state@.stars == self.systems@.len(),
            world.state@.bodies == system_bodies(self.systems@, self.systems@.len() as int),
            world.state@.regions == system_regions(self.systems@, self.systems@.len() as int),
            forall|s: int|
                0 <= s < self.systems@.len() ==> #[trigger] system_seeded_at(world.state@, self.systems@, s),
    {
        let mut state = State::default();
        let count = self.systems.len();
        let stars = state.allocators.star.create(count);
        let mut s: usize = 0;
        proof {
            use_type_invariant(&stars);
            stars.lemma_view();
        }
        while s < count
            invariant
                s <= count,
                count == self.systems@.len(),
                self.fits(),
                stars.wf(),
                stars.start() == 0,
                stars.len() == count,
                seeding(&state, state.allocators.body@ as int),
                state@.stars == count,
                state@.bodies == system_bodies(self.systems@, s as int),
                state@.regions == system_regions(self.systems@, s as int),
                forall|slot: usize| #[trigger] state@.star_names.contains_key(slot) <==> slot < s,
                forall|slot: usize| #[trigger] state@.star_bodies.by_owner.contains_key(slot) ==> slot < s,
                forall|done: int| 0 <= done < s ==> #[trigger] system_seeded_at(state@, self.systems@, done),
            decreases count - s,
        {
            let ghost mid = state@;
            let star = stars.get(s);
            proof {
                stars.lemma_view();
                lemma_system_bodies_rise(self.systems@, s + 1, count as int);
                lemma_system_regions_rise(self.systems@, s + 1, count as int);
            }
            seed_system(&mut state, star, &self.systems[s]);
            proof {
                assert forall|done: int| 0 <= done < s + 1 implies #[trigger] system_seeded_at(
                    state@,
                    self.systems@,
                    done,
                ) by {
                    if done < s {
                        assert(system_seeded_at(mid, self.systems@, done));
                        lemma_system_bodies_rise(self.systems@, done + 1, s as int);
                        lemma_keeps_system(
                            state@,
                            mid,
                            mid.bodies as int,
                            s as int,
                            self.systems@[done],
                            done,
                            system_bodies(self.systems@, done) as int,
                            system_regions(self.systems@, done) as int,
                        );
                    }
                }
            }
            s = s + 1;
        }
        proof {
            assert forall|slot: usize| #[trigger]
                state.star.name@.contains_key(slot) <==> slot < state.allocators.star@ by {
                assert(state@.star_names.contains_key(slot) <==> slot < s);
            }
            assert forall|slot: usize| #[trigger]
                state.body.star_bodies@.by_owner.contains_key(slot) implies slot < state.allocators.star@ by {
                assert(state@.star_bodies.by_owner.contains_key(slot));
            }
        }
        SystemState { state, queue: SystemQueue::new(SIMULATION_START) }
    }
}

} // verus!
