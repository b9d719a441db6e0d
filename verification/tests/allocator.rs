use star_system::allocator::{Id, IdRange, RangeAllocator, FIRST_GENERATION};
use star_system::body::Body;
use star_system::star::Star;

#[test]
fn single_identifiers_rise_by_one() {
    let mut allocator: RangeAllocator<Star> = RangeAllocator::new();
    let a = allocator.create_one();
    let b = allocator.create_one();
    let c = allocator.create_one();
    assert_eq!(0, a.index());
    assert_eq!(1, b.index());
    assert_eq!(2, c.index());
    assert!(a < b && b < c);
    assert_ne!(a, b);
    assert_eq!(FIRST_GENERATION, a.generation());
    assert_eq!(FIRST_GENERATION, c.generation());
}

#[test]
fn a_range_holds_what_was_asked_for_in_order() {
    let mut allocator: RangeAllocator<Body> = RangeAllocator::new();
    let range = allocator.create(5);
    assert_eq!(0, range.start());
    assert_eq!(5, range.len());
    assert_eq!(5, range.end());
    assert!(!range.is_empty());
    let ids = range.ids();
    assert_eq!(5, ids.len());
    for (k, id) in ids.iter().enumerate() {
        assert_eq!(k, id.index());
        assert_eq!(*id, range.get(k));
        assert_eq!(Some(k), range.position(*id));
        assert!(range.contains(*id));
    }
}

#[test]
fn requests_are_disjoint_and_rising() {
    let mut allocator: RangeAllocator<Body> = RangeAllocator::new();
    let first = allocator.create(3);
    let single = allocator.create_one();
    let second = allocator.create(4);
    let third = allocator.create(2);
    assert_eq!((0, 3), (first.start(), first.len()));
    assert_eq!(3, single.index());
    assert_eq!((4, 4), (second.start(), second.len()));
    assert_eq!((8, 2), (third.start(), third.len()));
    let mut all: Vec<Id<Body>> = first.ids();
    all.push(single);
    all.extend(second.ids());
    all.extend(third.ids());
    for pair in all.windows(2) {
        assert!(pair[0] < pair[1]);
        assert_eq!(pair[0].index() + 1, pair[1].index());
    }
    assert!(!first.contains(single));
    assert!(!second.contains(single));
    assert_eq!(None, first.position(second.get(0)));
    assert_eq!(None, second.position(first.get(2)));
}

#[test]
fn an_empty_request_gives_an_empty_range() {
    let mut allocator: RangeAllocator<Star> = RangeAllocator::new();
    let before = allocator.create(2);
    let empty = allocator.create(0);
    let after = allocator.create_one();
    assert_eq!(0, empty.len());
    assert!(empty.is_empty());
    assert!(empty.ids().is_empty());
    assert_eq!(2, before.len());
    assert_eq!(2, after.index());
    assert!(!empty.contains(after));
}

#[test]
fn remaining_falls_with_each_request() {
    let mut allocator: RangeAllocator<Star> = RangeAllocator::default();
    assert_eq!(usize::MAX, allocator.remaining());
    allocator.create(10);
    assert_eq!(usize::MAX - 10, allocator.remaining());
    allocator.create_one();
    assert_eq!(usize::MAX - 11, allocator.remaining());
}

#[test]
fn a_range_grows_by_the_next_slot() {
    let mut allocator: RangeAllocator<Body> = RangeAllocator::new();
    let skipped = allocator.create(2);
    let issued = allocator.create(3);
    let mut range = IdRange::empty();
    assert!(range.is_empty());
    range.extend(issued.get(0));
    assert_eq!(IdRange::single(issued.get(0)), range);
    assert_eq!((2, 1), (range.start(), range.len()));
    range.extend(issued.get(1));
    range.extend(issued.get(2));
    assert_eq!(issued, range);
    assert_eq!(issued.ids(), range.ids());
    assert!(!range.contains(skipped.get(1)));
}

#[test]
fn identifiers_compare_by_slot() {
    let mut allocator: RangeAllocator<Star> = RangeAllocator::new();
    let range = allocator.create(3);
    let a = range.get(0);
    let b = range.get(1);
    assert!(a.same(range.get(0)));
    assert!(!a.same(b));
    assert_eq!(a, range.get(0));
    assert!(a < b);
    let copy = a;
    assert_eq!(copy, a);
    assert_eq!(a.clone(), a);
}
