use star_system::allocator::RangeAllocator;
use star_system::body::Body;
use star_system::region::{Region, Regions};
use star_system::star::{Star, Stars};
use star_system::state::State;

#[test]
fn regions_of_a_body_are_one_burst() {
    let mut bodies: RangeAllocator<Body> = RangeAllocator::new();
    let mut alloc: RangeAllocator<Region> = RangeAllocator::new();
    let ids = bodies.create(3);
    let mut regions = Regions::default();
    let first = regions.insert(4, ids.get(0), &mut alloc);
    let none = regions.insert(0, ids.get(1), &mut alloc);
    let second = regions.insert(2, ids.get(2), &mut alloc);
    assert_eq!((0, 4), (first.start(), first.len()));
    assert!(none.is_empty());
    assert_eq!((4, 2), (second.start(), second.len()));
    assert_eq!(first, regions.body_regions.lookup_by_owner(ids.get(0)));
    assert!(!regions.body_regions.has_owned(ids.get(1)));
    assert_eq!(second, regions.body_regions.lookup_by_owner(ids.get(2)));
    for region in first.ids() {
        assert_eq!(ids.get(0), regions.body_regions.lookup_by_owned(region));
    }
    for region in second.ids() {
        assert_eq!(ids.get(2), regions.body_regions.lookup_by_owned(region));
    }
    assert_eq!(alloc.issued().len(), 6);
}

#[test]
fn stars_keep_their_names() {
    let mut allocator: RangeAllocator<Star> = RangeAllocator::new();
    let ids = allocator.create(2);
    let mut stars = Stars::default();
    stars.insert(ids.get(1), Star { name: "Vega".to_string() });
    stars.insert(ids.get(0), Star { name: "Rigel".to_string() });
    assert_eq!("Rigel", stars.name.index(ids.get(0)));
    assert_eq!("Vega", stars.name.index(ids.get(1)));
    assert_eq!(ids, allocator.issued());
}

#[test]
fn a_new_state_is_empty() {
    let state = State::default();
    assert!(state.allocators.star.issued().is_empty());
    assert!(state.allocators.body.issued().is_empty());
    assert!(state.allocators.region.issued().is_empty());
    let mut allocator: RangeAllocator<Body> = RangeAllocator::new();
    let body = allocator.create_one();
    assert!(!state.body.contains(body));
    assert!(!state.region.body_regions.has_owned(body));
}
