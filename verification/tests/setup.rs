use star_system::allocator::IdRange;
use star_system::body::Body;
use star_system::relations::RangeRelation;
use star_system::setup::{Moon, Planet, Setup, StellarSystem, SIMULATION_START};
use star_system::star::Star;
use star_system::state::State;

fn moon(name: &str, regions: usize) -> Moon {
    Moon { body: Body { name: name.to_string() }, regions }
}

fn planet(name: &str, regions: usize, moons: Vec<Moon>) -> Planet {
    Planet { body: Body { name: name.to_string() }, moons, regions }
}

fn system(name: &str, planets: Vec<Planet>) -> StellarSystem {
    StellarSystem { star: Star { name: name.to_string() }, planets }
}

fn rigel() -> Setup {
    Setup {
        systems: vec![system(
            "Rigel",
            vec![planet("Planet", 12, vec![moon("Moon A", 4), moon("Moon B", 3)])],
        )],
    }
}

#[test]
fn one_planet_with_two_moons() {
    let setup = rigel();
    assert!(setup.fits());
    let world = setup.create();
    let state = &world.state;
    assert_eq!(usize::MAX - 1, state.allocators.star.remaining());
    assert_eq!(usize::MAX - 3, state.allocators.body.remaining());
    assert_eq!(usize::MAX - 19, state.allocators.region.remaining());

    let mut stars = star_system::allocator::RangeAllocator::<Star>::new();
    let star = stars.create_one();
    assert_eq!("Rigel", state.star.name.index(star));

    let bodies = state.body.star_bodies.lookup_by_owner(star);
    assert_eq!((0, 3), (bodies.start(), bodies.len()));
    let names: Vec<&str> = bodies.ids().iter().map(|id| state.body.name.index(*id).as_str()).collect();
    assert_eq!(vec!["Planet", "Moon A", "Moon B"], names);
    let standard: Vec<String> =
        bodies.ids().iter().map(|id| state.body.get_standard_name(*id, &state.star)).collect();
    assert_eq!(vec!["Rigel I", "Rigel I-A", "Rigel I-B"], standard);

    let planet = bodies.get(0);
    assert_eq!(vec![planet], state.body.planets(star));
    let moons = state.body.relation.lookup(planet).parent_of().unwrap();
    assert_eq!((1, 2), (moons.start(), moons.len()));
    for moon in moons.ids() {
        assert_eq!(RangeRelation::ChildOf(planet), state.body.relation.lookup(moon));
        assert_eq!(star, state.body.star_bodies.lookup_by_owned(moon));
        assert_eq!(vec![planet, moon], state.body.orbit_chain(moon));
    }

    let expected = [(0usize, 12usize), (12, 4), (16, 3)];
    for (body, (start, len)) in bodies.ids().iter().zip(expected) {
        let regions = state.region.body_regions.lookup_by_owner(*body);
        assert_eq!((start, len), (regions.start(), regions.len()));
        for region in regions.ids() {
            assert_eq!(*body, state.region.body_regions.lookup_by_owned(region));
        }
    }
}

#[test]
fn several_systems_take_their_slots_in_order() {
    let setup = Setup {
        systems: vec![
            system("Sol", vec![
                planet("Mercury", 1, vec![]),
                planet("Earth", 2, vec![moon("Luna", 1)]),
                planet("Mars", 0, vec![moon("Phobos", 0), moon("Deimos", 2)]),
            ]),
            system("Void", vec![]),
            system("Rigel", vec![planet("Only", 3, vec![moon("Little", 1)])]),
        ],
    };
    assert!(setup.fits());
    let world = setup.create();
    let state = &world.state;
    let mut allocator = star_system::allocator::RangeAllocator::<Star>::new();
    let stars = allocator.create(3);
    let names: Vec<&str> = stars.ids().iter().map(|id| state.star.name.index(*id).as_str()).collect();
    assert_eq!(vec!["Sol", "Void", "Rigel"], names);

    let sol = state.body.star_bodies.lookup_by_owner(stars.get(0));
    assert_eq!((0, 6), (sol.start(), sol.len()));
    assert!(!state.body.star_bodies.has_owned(stars.get(1)));
    assert!(state.body.planets(stars.get(1)).is_empty());
    let rigel = state.body.star_bodies.lookup_by_owner(stars.get(2));
    assert_eq!((6, 2), (rigel.start(), rigel.len()));

    let all: Vec<String> = sol
        .ids()
        .iter()
        .chain(rigel.ids().iter())
        .map(|id| format!("{}={}", state.body.name.index(*id), state.body.get_standard_name(*id, &state.star)))
        .collect();
    assert_eq!(
        vec![
            "Mercury=Sol I",
            "Earth=Sol II",
            "Luna=Sol II-A",
            "Mars=Sol III",
            "Phobos=Sol III-A",
            "Deimos=Sol III-B",
            "Only=Rigel I",
            "Little=Rigel I-A",
        ],
        all
    );

    // a planet without moons is a root with an empty range
    assert_eq!(RangeRelation::ParentOf(IdRange::empty()), state.body.relation.lookup(sol.get(0)));
    // regions, body by body: 1, 2, 1, 0, 0, 2, 3, 1
    let regions: Vec<Option<(usize, usize)>> = sol
        .ids()
        .iter()
        .chain(rigel.ids().iter())
        .map(|id| {
            if state.region.body_regions.has_owned(*id) {
                let range = state.region.body_regions.lookup_by_owner(*id);
                Some((range.start(), range.len()))
            } else {
                None
            }
        })
        .collect();
    assert_eq!(
        vec![Some((0, 1)), Some((1, 2)), Some((3, 1)), None, None, Some((4, 2)), Some((6, 3)), Some((9, 1))],
        regions
    );
    assert_eq!(usize::MAX - 10, state.allocators.region.remaining());
    assert_eq!(usize::MAX - 8, state.allocators.body.remaining());
}

#[test]
fn an_empty_description_gives_an_empty_world() {
    let setup = Setup { systems: vec![] };
    assert!(setup.fits());
    let world = setup.create();
    assert_eq!(usize::MAX, world.state.allocators.star.remaining());
    assert_eq!(usize::MAX, world.state.allocators.body.remaining());
    assert_eq!(usize::MAX, world.state.allocators.region.remaining());
    let fresh = State::default();
    assert_eq!(fresh.allocators.body.remaining(), world.state.allocators.body.remaining());
}

#[test]
fn too_many_regions_do_not_fit() {
    let setup = Setup {
        systems: vec![system("Big", vec![planet("a", usize::MAX, vec![moon("b", 1)])])],
    };
    assert!(!setup.fits());
    let edge = Setup {
        systems: vec![
            system("Big", vec![planet("a", usize::MAX - 1, vec![])]),
            system("Small", vec![planet("b", 0, vec![moon("c", 1)])]),
        ],
    };
    assert!(edge.fits());
    let over = Setup {
        systems: vec![
            system("Big", vec![planet("a", usize::MAX - 1, vec![])]),
            system("Small", vec![planet("b", 1, vec![moon("c", 1)])]),
        ],
    };
    assert!(!over.fits());
}

#[test]
fn the_simulation_starts_with_the_year_2050() {
    assert_eq!(2_524_608_000, SIMULATION_START);
    assert_eq!(0, SIMULATION_START % 86_400);
    assert_eq!(29_220, SIMULATION_START / 86_400);
}

#[test]
fn a_world_names_its_bodies_and_knows_their_orbits() {
    let world = rigel().create();
    let state = &world.state;
    let star = state.allocators.star.issued().get(0);
    let bodies = state.allocators.body.issued();
    assert_eq!(3, bodies.len());
    assert_eq!(Some("Rigel I".to_string()), state.standard_name(bodies.get(0)));
    assert_eq!(Some("Rigel I-B".to_string()), state.standard_name(bodies.get(2)));
    assert_eq!(Some((star, vec![bodies.get(0)])), state.orbits(bodies.get(0)));
    assert_eq!(Some((star, vec![bodies.get(0), bodies.get(1)])), state.orbits(bodies.get(1)));
    // the same question gets the same answer
    assert_eq!(state.standard_name(bodies.get(1)), state.standard_name(bodies.get(1)));
    assert_eq!(state.orbits(bodies.get(2)), state.orbits(bodies.get(2)));
    // what is no body of this world has neither name nor orbit
    let mut other = star_system::allocator::RangeAllocator::<Body>::new();
    let stranger = other.create(4).get(3);
    assert_eq!(None, state.standard_name(stranger));
    assert_eq!(None, state.orbits(stranger));
}

#[test]
fn a_thirteenth_planet_and_a_twenty_seventh_moon_have_no_name() {
    let moons: Vec<Moon> = (0..27).map(|_| moon("m", 0)).collect();
    let mut planets: Vec<Planet> = (0..12).map(|_| planet("p", 0, vec![])).collect();
    planets[11] = planet("last", 0, moons);
    planets.push(planet("beyond", 0, vec![moon("lost", 0)]));
    let world = Setup { systems: vec![system("Sol", planets)] }.create();
    let state = &world.state;
    let bodies = state.allocators.body.issued();
    assert_eq!(12 + 27 + 2, bodies.len());
    assert_eq!(Some("Sol XII".to_string()), state.standard_name(bodies.get(11)));
    assert_eq!(Some("Sol XII-A".to_string()), state.standard_name(bodies.get(12)));
    assert_eq!(Some("Sol XII-Z".to_string()), state.standard_name(bodies.get(37)));
    assert_eq!(None, state.standard_name(bodies.get(38)));
    assert_eq!(None, state.standard_name(bodies.get(39)));
    assert_eq!(None, state.standard_name(bodies.get(40)));
}
