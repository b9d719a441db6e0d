use star_system::allocator::RangeAllocator;
use star_system::body::Body;
use star_system::graph::{Relation, Relations};

#[test]
fn children_are_listed_in_the_order_of_insertion() {
    let mut allocator: RangeAllocator<Body> = RangeAllocator::new();
    let ids = allocator.create(6);
    let mut store: Relations<Body> = Relations::new();
    store.insert_parent(ids.get(4));
    assert_eq!(&Relation::ParentOf(vec![]), store.lookup(ids.get(4)));
    // slots in any order
    store.insert_child(ids.get(5), ids.get(4));
    store.insert_child(ids.get(0), ids.get(4));
    store.insert_child(ids.get(2), ids.get(4));
    assert_eq!(&Relation::ParentOf(vec![ids.get(5), ids.get(0), ids.get(2)]), store.lookup(ids.get(4)));
    for k in [5usize, 0, 2] {
        assert_eq!(&Relation::ChildOf(ids.get(4)), store.lookup(ids.get(k)));
        assert!(!store.is_root(ids.get(k)));
    }
    assert!(store.is_root(ids.get(4)));
    assert!(!store.contains(ids.get(1)));
    assert_eq!(None, store.get(ids.get(3)));
}

#[test]
fn children_of_two_roots_may_interleave() {
    let mut allocator: RangeAllocator<Body> = RangeAllocator::new();
    let ids = allocator.create(6);
    let mut one: Relations<Body> = Relations::default();
    let mut other: Relations<Body> = Relations::default();
    for store in [&mut one, &mut other] {
        store.insert_parent(ids.get(0));
        store.insert_parent(ids.get(1));
    }
    one.insert_child(ids.get(2), ids.get(0));
    one.insert_child(ids.get(3), ids.get(1));
    one.insert_child(ids.get(4), ids.get(0));
    one.insert_child(ids.get(5), ids.get(1));
    other.insert_child(ids.get(3), ids.get(1));
    other.insert_child(ids.get(5), ids.get(1));
    other.insert_child(ids.get(2), ids.get(0));
    other.insert_child(ids.get(4), ids.get(0));
    for k in 0..6 {
        assert_eq!(one.lookup(ids.get(k)), other.lookup(ids.get(k)));
    }
    assert_eq!(&Relation::ParentOf(vec![ids.get(2), ids.get(4)]), one.lookup(ids.get(0)));
    assert_eq!(&Relation::ParentOf(vec![ids.get(3), ids.get(5)]), one.lookup(ids.get(1)));
}

#[test]
fn only_a_root_takes_children() {
    let mut allocator: RangeAllocator<Body> = RangeAllocator::new();
    let ids = allocator.create(4);
    let mut store: Relations<Body> = Relations::new();
    store.insert_parent(ids.get(0));
    store.insert_child(ids.get(1), ids.get(0));
    assert!(store.accepts_child(ids.get(2), ids.get(0)));
    assert!(!store.accepts_child(ids.get(2), ids.get(1)));
    assert!(!store.accepts_child(ids.get(2), ids.get(3)));
    assert!(!store.accepts_child(ids.get(1), ids.get(0)));
    assert!(!store.accepts_child(ids.get(0), ids.get(0)));
}
