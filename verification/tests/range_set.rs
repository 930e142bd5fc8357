use bsql::range_set::RangeSet;

#[test]
fn range_set_test_that_it_works() {
    let mut range_set = RangeSet::new(0..2);

    assert_eq!(false, range_set.contains(0));

    assert_eq!(2, range_set.available());
    assert_eq!(0, range_set.count());
    assert!(!range_set.is_full());

    assert!(range_set.insert(0));
    assert_eq!(1, range_set.available());
    assert_eq!(1, range_set.count());
    assert!(!range_set.is_full());

    assert!(range_set.contains(0));

    assert!(range_set.insert(1));
    assert_eq!(0, range_set.available());
    assert_eq!(2, range_set.count());
    assert!(range_set.is_full());

    // Fails to insert a duplicate value
    assert_eq!(false, range_set.insert(1));

    // Fails to insert a value out-of-bounds
    assert_eq!(false, range_set.insert(3));
}

#[test]
fn range_set_test_consume_return_available_value() {
    let mut range_set = RangeSet::new(0..2);

    assert!(range_set.consume().is_some());
    assert!(range_set.consume().is_some());
    assert!(range_set.consume().is_none());
}

#[test]
fn consumed_numbers_come_from_the_range_and_differ() {
    let mut range_set = RangeSet::new(10..60);
    let mut seen = Vec::new();
    for _ in 0..50 {
        let value = range_set.consume().unwrap();
        assert!((10..60).contains(&value));
        assert!(!seen.contains(&value));
        assert!(range_set.contains(value));
        seen.push(value);
    }
    assert!(range_set.is_full());
    let mut keys = range_set.keys();
    keys.sort();
    seen.sort();
    assert_eq!(seen, keys);
    range_set.remove(20);
    assert!(!range_set.contains(20));
    assert_eq!(1, range_set.available());
    assert_eq!(49, range_set.count());
    assert_eq!(Some(20), range_set.consume());
}

#[test]
fn an_empty_range_offers_nothing() {
    let mut range_set = RangeSet::new(5..5);
    assert!(range_set.is_full());
    assert_eq!(None, range_set.consume());
    let mut backwards = RangeSet::new(9..3);
    assert_eq!(0, backwards.available());
    assert!(!backwards.insert(5));
    assert!(backwards.keys().is_empty());
}
