use star_system::allocator::RangeAllocator;
use star_system::body::{Body, StarBodies};
use star_system::links::OwnerRangeLinks;
use star_system::region::{BodyRegions, Region};
use star_system::star::Star;

#[test]
fn a_burst_becomes_the_range_of_its_owner() {
    let mut stars: RangeAllocator<Star> = RangeAllocator::new();
    let mut bodies: RangeAllocator<Body> = RangeAllocator::new();
    let star = stars.create_one();
    let burst = bodies.create(4);
    let mut links = StarBodies::new();
    assert!(!links.has_owned(star));
    for body in burst.ids() {
        assert!(!links.has_owner(body));
        assert!(links.accepts(star, body));
        links.link(star, body);
    }
    assert!(links.has_owned(star));
    assert_eq!(burst, links.lookup_by_owner(star));
    for body in burst.ids() {
        assert!(links.has_owner(body));
        assert_eq!(star, links.lookup_by_owned(body));
    }
}

#[test]
fn bursts_of_several_owners_stay_apart() {
    let mut stars: RangeAllocator<Star> = RangeAllocator::new();
    let mut bodies: RangeAllocator<Body> = RangeAllocator::new();
    let owners = stars.create(3);
    let first = bodies.create(2);
    let second = bodies.create(3);
    let third = bodies.create(1);
    let mut links: OwnerRangeLinks<Star, Body> = OwnerRangeLinks::default();
    links.link_range(owners.get(0), first);
    links.link_range(owners.get(2), second);
    links.link_range(owners.get(1), third);
    assert_eq!(first, links.lookup_by_owner(owners.get(0)));
    assert_eq!(second, links.lookup_by_owner(owners.get(2)));
    assert_eq!(third, links.lookup_by_owner(owners.get(1)));
    assert_eq!(owners.get(0), links.lookup_by_owned(first.get(1)));
    assert_eq!(owners.get(2), links.lookup_by_owned(second.get(0)));
    assert_eq!(owners.get(2), links.lookup_by_owned(second.get(2)));
    assert_eq!(owners.get(1), links.lookup_by_owned(third.get(0)));
}

#[test]
fn a_link_out_of_turn_is_not_accepted() {
    let mut stars: RangeAllocator<Star> = RangeAllocator::new();
    let mut bodies: RangeAllocator<Body> = RangeAllocator::new();
    let owners = stars.create(2);
    let burst = bodies.create(5);
    let mut links = StarBodies::new();
    links.link(owners.get(0), burst.get(0));
    links.link(owners.get(0), burst.get(1));
    // already linked
    assert!(!links.accepts(owners.get(0), burst.get(1)));
    assert!(!links.accepts(owners.get(1), burst.get(0)));
    // not the slot after the range
    assert!(!links.accepts(owners.get(0), burst.get(3)));
    assert!(links.accepts(owners.get(0), burst.get(2)));
    // a new owner starts anywhere
    assert!(links.accepts(owners.get(1), burst.get(3)));
    links.link(owners.get(1), burst.get(3));
    assert!(links.accepts(owners.get(1), burst.get(4)));
    assert!(!links.accepts(owners.get(1), burst.get(2)));
    assert_eq!(2, links.lookup_by_owner(owners.get(0)).len());
    assert_eq!((3, 1), (links.lookup_by_owner(owners.get(1)).start(), links.lookup_by_owner(owners.get(1)).len()));
}

#[test]
fn an_empty_burst_links_nothing() {
    let mut bodies: RangeAllocator<Body> = RangeAllocator::new();
    let mut regions: RangeAllocator<Region> = RangeAllocator::new();
    let body = bodies.create_one();
    let none = regions.create(0);
    let mut links = BodyRegions::new();
    links.link_range(body, none);
    assert!(!links.has_owned(body));
    let some = regions.create(2);
    links.link_range(body, some);
    assert_eq!(some, links.lookup_by_owner(body));
    assert_eq!(body, links.lookup_by_owned(some.get(1)));
}
