use star_system::allocator::{IdRange, RangeAllocator};
use star_system::body::Body;
use star_system::relations::{RangeRelation, RangeRelations};

#[test]
fn a_burst_of_children_round_trips() {
    let mut allocator: RangeAllocator<Body> = RangeAllocator::new();
    let ids = allocator.create(4);
    let root = ids.get(0);
    let mut store: RangeRelations<Body> = RangeRelations::new();
    store.insert_parent(root);
    assert_eq!(RangeRelation::ParentOf(IdRange::empty()), store.lookup(root));
    let mut children = IdRange::empty();
    for k in 1..4 {
        assert!(store.accepts_child(ids.get(k), root));
        store.insert_child(ids.get(k), root);
        children.extend(ids.get(k));
    }
    assert_eq!(RangeRelation::ParentOf(children), store.lookup(root));
    assert_eq!((1, 3), (children.start(), children.len()));
    for k in 1..4 {
        assert_eq!(RangeRelation::ChildOf(root), store.lookup(ids.get(k)));
        assert_eq!(Some(root), store.lookup(ids.get(k)).child_of());
        assert_eq!(None, store.lookup(ids.get(k)).parent_of());
        assert!(!store.is_root(ids.get(k)));
    }
    assert_eq!(Some(children), store.lookup(root).parent_of());
    assert_eq!(None, store.lookup(root).child_of());
    assert!(store.is_root(root));
}

#[test]
fn parents_are_the_roots_in_order() {
    let mut allocator: RangeAllocator<Body> = RangeAllocator::new();
    let ids = allocator.create(7);
    let mut store: RangeRelations<Body> = RangeRelations::default();
    // root 0 with children 1 and 2, root 3 without, root 4 with child 5; 6 has no place
    store.insert_parent(ids.get(0));
    store.insert_child(ids.get(1), ids.get(0));
    store.insert_child(ids.get(2), ids.get(0));
    store.insert_parent(ids.get(3));
    store.insert_parent(ids.get(4));
    store.insert_child(ids.get(5), ids.get(4));
    assert_eq!(vec![ids.get(0), ids.get(3), ids.get(4)], store.parents(ids));
    assert_eq!(0, store.root_ordinal(ids, ids.get(0)));
    assert_eq!(1, store.root_ordinal(ids, ids.get(3)));
    assert_eq!(2, store.root_ordinal(ids, ids.get(4)));
    assert!(store.parents(IdRange::empty()).is_empty());
    assert!(!store.contains(ids.get(6)));
    assert_eq!(None, store.get(ids.get(6)));
    assert_eq!(Some(RangeRelation::ChildOf(ids.get(4))), store.get(ids.get(5)));
}

#[test]
fn a_child_out_of_turn_is_not_accepted() {
    let mut allocator: RangeAllocator<Body> = RangeAllocator::new();
    let ids = allocator.create(6);
    let mut store: RangeRelations<Body> = RangeRelations::new();
    store.insert_parent(ids.get(0));
    // the first child may sit anywhere
    assert!(store.accepts_child(ids.get(3), ids.get(0)));
    store.insert_child(ids.get(1), ids.get(0));
    // then only the next slot
    assert!(!store.accepts_child(ids.get(3), ids.get(0)));
    assert!(store.accepts_child(ids.get(2), ids.get(0)));
    // what has a place cannot get another
    assert!(!store.accepts_child(ids.get(1), ids.get(0)));
    assert!(!store.accepts_child(ids.get(0), ids.get(0)));
    // a child is no parent, and neither is what has no place
    assert!(!store.accepts_child(ids.get(2), ids.get(1)));
    assert!(!store.accepts_child(ids.get(2), ids.get(5)));
}
