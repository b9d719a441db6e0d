use star_system::allocator::{Id, RangeAllocator};
use star_system::body::{Bodies, Body, BodyLinks};
use star_system::star::{Star, Stars};

fn named(name: &str) -> Body {
    Body { name: name.to_string() }
}

fn named_star() -> (Stars, Id<Star>) {
    let mut allocator: RangeAllocator<Star> = RangeAllocator::new();
    let id = allocator.create_one();
    let mut stars = Stars::default();
    stars.insert(id, Star { name: "Rigel".to_string() });
    (stars, id)
}

#[test]
fn one_planet_is_the_first() {
    let (stars, star) = named_star();
    let mut allocator: RangeAllocator<Body> = RangeAllocator::new();
    let planet = allocator.create_one();
    let mut bodies = Bodies::default();
    bodies.insert(planet, named("Planet"), BodyLinks { star, parent: None });
    assert!(bodies.is_nameable(planet, &stars));
    assert_eq!("Rigel I", bodies.get_standard_name(planet, &stars));
}

#[test]
fn moons_take_the_letters_of_their_planet() {
    let (stars, star) = named_star();
    let mut allocator: RangeAllocator<Body> = RangeAllocator::new();
    let ids = allocator.create(4);
    let mut bodies = Bodies::default();
    bodies.insert(ids.get(0), named("First"), BodyLinks { star, parent: None });
    bodies.insert(ids.get(1), named("Second"), BodyLinks { star, parent: None });
    bodies.insert(ids.get(2), named("Moon A"), BodyLinks { star, parent: Some(ids.get(1)) });
    bodies.insert(ids.get(3), named("Moon B"), BodyLinks { star, parent: Some(ids.get(1)) });
    assert_eq!("Rigel I", bodies.get_standard_name(ids.get(0), &stars));
    assert_eq!("Rigel II", bodies.get_standard_name(ids.get(1), &stars));
    assert_eq!("Rigel II-A", bodies.get_standard_name(ids.get(2), &stars));
    assert_eq!("Rigel II-B", bodies.get_standard_name(ids.get(3), &stars));
    assert_eq!(vec![ids.get(0), ids.get(1)], bodies.planets(star));
    assert_eq!(1, bodies.planet_ordinal(ids.get(1)));
    assert_eq!(0, bodies.moon_ordinal(ids.get(2)));
    assert_eq!(1, bodies.moon_ordinal(ids.get(3)));
}

#[test]
fn moons_before_a_planet_do_not_count_as_planets() {
    let (stars, star) = named_star();
    let mut allocator: RangeAllocator<Body> = RangeAllocator::new();
    let ids = allocator.create(7);
    let mut bodies = Bodies::default();
    // planet, 2 moons, planet, planet, 1 moon, planet
    let parents = [None, Some(0), Some(0), None, None, Some(4), None];
    for (k, parent) in parents.iter().enumerate() {
        let links = BodyLinks { star, parent: parent.map(|p| ids.get(p)) };
        assert!(bodies.accepts_body(ids.get(k), links));
        bodies.insert(ids.get(k), named("Body"), links);
    }
    let expected = ["Rigel I", "Rigel I-A", "Rigel I-B", "Rigel II", "Rigel III", "Rigel III-A", "Rigel IV"];
    for (k, name) in expected.iter().enumerate() {
        assert_eq!(*name, bodies.get_standard_name(ids.get(k), &stars));
    }
    assert_eq!(vec![ids.get(0), ids.get(3), ids.get(4), ids.get(6)], bodies.planets(star));
}

#[test]
fn orbits_are_the_planet_and_then_the_moon() {
    let (_, star) = named_star();
    let mut allocator: RangeAllocator<Body> = RangeAllocator::new();
    let ids = allocator.create(3);
    let mut bodies = Bodies::default();
    bodies.insert(ids.get(0), named("Planet"), BodyLinks { star, parent: None });
    bodies.insert(ids.get(1), named("Moon A"), BodyLinks { star, parent: Some(ids.get(0)) });
    bodies.insert(ids.get(2), named("Moon B"), BodyLinks { star, parent: Some(ids.get(0)) });
    assert_eq!(vec![ids.get(0)], bodies.orbit_chain(ids.get(0)));
    assert_eq!(vec![ids.get(0), ids.get(1)], bodies.orbit_chain(ids.get(1)));
    assert_eq!(vec![ids.get(0), ids.get(2)], bodies.orbit_chain(ids.get(2)));
    // asking again changes nothing
    assert_eq!(bodies.orbit_chain(ids.get(2)), bodies.orbit_chain(ids.get(2)));
}

#[test]
fn the_same_question_gets_the_same_name() {
    let (stars, star) = named_star();
    let mut allocator: RangeAllocator<Body> = RangeAllocator::new();
    let ids = allocator.create(2);
    let mut bodies = Bodies::default();
    bodies.insert(ids.get(0), named("Planet"), BodyLinks { star, parent: None });
    bodies.insert(ids.get(1), named("Moon"), BodyLinks { star, parent: Some(ids.get(0)) });
    let first = bodies.get_standard_name(ids.get(1), &stars);
    let second = bodies.get_standard_name(ids.get(1), &stars);
    assert_eq!("Rigel I-A", first);
    assert_eq!(first, second);
}

#[test]
fn bodies_of_two_stars_are_counted_apart() {
    let mut star_ids: RangeAllocator<Star> = RangeAllocator::new();
    let suns = star_ids.create(2);
    let mut stars = Stars::default();
    stars.insert(suns.get(0), Star { name: "Rigel".to_string() });
    stars.insert(suns.get(1), Star { name: "Vega".to_string() });
    let mut allocator: RangeAllocator<Body> = RangeAllocator::new();
    let ids = allocator.create(4);
    let mut bodies = Bodies::default();
    bodies.insert(ids.get(0), named("a"), BodyLinks { star: suns.get(0), parent: None });
    bodies.insert(ids.get(1), named("b"), BodyLinks { star: suns.get(0), parent: None });
    bodies.insert(ids.get(2), named("c"), BodyLinks { star: suns.get(1), parent: None });
    bodies.insert(ids.get(3), named("d"), BodyLinks { star: suns.get(1), parent: Some(ids.get(2)) });
    assert_eq!("Rigel II", bodies.get_standard_name(ids.get(1), &stars));
    assert_eq!("Vega I", bodies.get_standard_name(ids.get(2), &stars));
    assert_eq!("Vega I-A", bodies.get_standard_name(ids.get(3), &stars));
    assert_eq!(vec![ids.get(2)], bodies.planets(suns.get(1)));
    // a moon cannot be given to another star than that of its planet
    let mut more: RangeAllocator<Body> = RangeAllocator::new();
    more.create(4);
    let next = more.create_one();
    assert!(!bodies.accepts_body(next, BodyLinks { star: suns.get(0), parent: Some(ids.get(2)) }));
    assert!(bodies.accepts_body(next, BodyLinks { star: suns.get(1), parent: Some(ids.get(2)) }));
}

#[test]
fn a_thirteenth_planet_has_no_name() {
    let (stars, star) = named_star();
    let mut allocator: RangeAllocator<Body> = RangeAllocator::new();
    let ids = allocator.create(13);
    let mut bodies = Bodies::default();
    for k in 0..13 {
        bodies.insert(ids.get(k), named("Planet"), BodyLinks { star, parent: None });
    }
    assert!(bodies.is_nameable(ids.get(11), &stars));
    assert_eq!("Rigel XII", bodies.get_standard_name(ids.get(11), &stars));
    assert!(!bodies.is_nameable(ids.get(12), &stars));
    assert!(bodies.contains(ids.get(12)));
}

#[test]
fn a_star_without_bodies_has_no_planets() {
    let (_, star) = named_star();
    let bodies = Bodies::default();
    assert!(bodies.planets(star).is_empty());
}
