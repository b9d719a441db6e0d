use star_system::allocator::RangeAllocator;
use star_system::component::Component;
use star_system::star::Star;

#[test]
fn a_value_is_found_once_it_is_inserted() {
    let mut allocator: RangeAllocator<Star> = RangeAllocator::new();
    let ids = allocator.create(4);
    let mut names: Component<Star, String> = Component::new();
    names.insert(ids.get(2), "Vega".to_string());
    assert!(names.contains(ids.get(2)));
    assert_eq!("Vega", names.index(ids.get(2)));
    assert_eq!(Some(&"Vega".to_string()), names.get(ids.get(2)));
}

#[test]
fn nothing_is_found_for_what_was_never_inserted() {
    let mut allocator: RangeAllocator<Star> = RangeAllocator::new();
    let ids = allocator.create(4);
    let mut masses: Component<Star, u64> = Component::default();
    assert_eq!(None, masses.get(ids.get(0)));
    masses.insert(ids.get(1), 7);
    assert!(!masses.contains(ids.get(0)));
    assert!(!masses.contains(ids.get(2)));
    assert!(!masses.contains(ids.get(3)));
    assert_eq!(None, masses.get(ids.get(0)));
    assert_eq!(None, masses.get(ids.get(3)));
    assert_eq!(Some(&7), masses.get(ids.get(1)));
}

#[test]
fn values_do_not_disturb_each_other_in_any_order() {
    let mut allocator: RangeAllocator<Star> = RangeAllocator::new();
    let ids = allocator.create(5);
    let mut table: Component<Star, usize> = Component::new();
    for k in [3usize, 0, 4, 1] {
        table.insert(ids.get(k), 10 * k);
    }
    for k in [0usize, 1, 3, 4] {
        assert_eq!(10 * k, *table.index(ids.get(k)));
    }
    assert_eq!(None, table.get(ids.get(2)));
    table.insert(ids.get(2), 20);
    for k in 0..5 {
        assert_eq!(Some(&(10 * k)), table.get(ids.get(k)));
    }
}
