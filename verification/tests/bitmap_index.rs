use bsql::bitmap_index::BitmapIndex;

#[test]
fn bitmap_index_test_that_it_works() {
    let mut array = [0; 32];
    let mut bitmap_index: BitmapIndex =
        BitmapIndex::from_raw(&mut array).expect("Failed to build BitmapIndex");

    assert_eq!(false, bitmap_index.is_set(0));

    assert_eq!(256, bitmap_index.available());
    assert_eq!(0, bitmap_index.count());
    assert!(!bitmap_index.is_full());

    bitmap_index.set(0);
    assert_eq!(255, bitmap_index.available());
    assert_eq!(1, bitmap_index.count());
    assert!(!bitmap_index.is_full());

    assert!(bitmap_index.is_set(0));

    bitmap_index.set(1);
    assert_eq!(254, bitmap_index.available());
    assert_eq!(2, bitmap_index.count());
}

#[test]
fn test_that_unset_works() {
    let mut array = [0; 32];
    let mut bitmap_index: BitmapIndex =
        BitmapIndex::from_raw(&mut array).expect("Failed to build BitmapIndex");

    assert_eq!(false, bitmap_index.is_set(0));

    bitmap_index.set(0);
    assert_eq!(true, bitmap_index.is_set(0));

    bitmap_index.unset(0);
    assert_eq!(false, bitmap_index.is_set(0));
}

#[test]
fn test_returns_all_set_bit_indices() {
    let mut array = [0; 32];
    let mut bitmap_index: BitmapIndex =
        BitmapIndex::from_raw(&mut array).expect("Failed to build BitmapIndex");

    assert!(bitmap_index.indices().is_empty());

    bitmap_index.set(0);
    assert_eq!(vec![0], bitmap_index.indices());

    bitmap_index.set(13);
    assert_eq!(vec![0, 13], bitmap_index.indices());

    bitmap_index.unset(0);
    assert_eq!(vec![13], bitmap_index.indices());
}

#[test]
fn test_does_nothing_when_setting_the_same_bit_twice() {
    let mut array = [0; 32];
    let mut bitmap_index: BitmapIndex =
        BitmapIndex::from_raw(&mut array).expect("Failed to build BitmapIndex");
    assert_eq!(false, bitmap_index.is_set(0));

    bitmap_index.set(0);
    assert!(bitmap_index.is_set(0));

    bitmap_index.set(0);
    assert!(bitmap_index.is_set(0));
}

#[test]
fn test_consume_finds_available_slots_in_the_middle_of_the_index() {
    let mut array = [0; 32];
    let mut bitmap_index: BitmapIndex =
        BitmapIndex::from_raw(&mut array).expect("Failed to build BitmapIndex");
    (0..=128).for_each(|index: u8| {
        bitmap_index.set(index.into());
    });
    (130..255).for_each(|index: u8| {
        bitmap_index.set(index.into());
    });

    assert_eq!(2, bitmap_index.available());
    assert_eq!(Some(129), bitmap_index.consume());
}

#[test]
fn bitmap_index_test_consume_return_available_value() {
    let mut array = [0; 32];
    let mut bitmap_index: BitmapIndex =
        BitmapIndex::from_raw(&mut array).expect("Failed to build BitmapIndex");

    for _ in 0..=u8::MAX {
        assert!(bitmap_index.consume().is_some());
    }

    assert!(bitmap_index.consume().is_none());
}

#[test]
fn test_from_raw_works() {
    let mut raw_data = [0; 32];
    raw_data[2] = 0xFF;
    let bitmap_index: BitmapIndex =
        BitmapIndex::from_raw(&mut raw_data).expect("Failed to load from bytes");

    assert_eq!(8, bitmap_index.count());
}

#[test]
fn test_recreating_from_raw_works() {
    let mut my_bigger_array = [0; 64];

    {
        let mut bitmap_index: BitmapIndex =
            BitmapIndex::from_raw(&mut my_bigger_array[0..32]).expect("Failed to load from bytes");

        bitmap_index.set(0);
        assert_eq!(1, bitmap_index.count());
    }

    {
        let bitmap_index: BitmapIndex =
            BitmapIndex::from_raw(&mut my_bigger_array[0..32]).expect("Failed to load from bytes");

        assert_eq!(1, bitmap_index.count());
    }
}

#[test]
fn from_raw_refuses_a_region_of_another_size() {
    let mut short = [0u8; 31];
    assert!(BitmapIndex::from_raw(&mut short).is_none());
    let mut long = [0u8; 33];
    assert!(BitmapIndex::from_raw(&mut long).is_none());
}

#[test]
fn count_and_available_add_up_to_the_capacity() {
    let mut array = [0u8; 32];
    let mut bitmap_index = BitmapIndex::from_raw(&mut array).unwrap();
    for round in 0..=255u8 {
        assert_eq!(256, bitmap_index.count() + bitmap_index.available());
        assert_eq!(Some(round), bitmap_index.consume());
    }
    assert_eq!(256, bitmap_index.count());
    assert_eq!(0, bitmap_index.available());
    assert!(bitmap_index.is_full());
}

#[test]
fn unset_clears_one_flag_only() {
    let mut array = [0u8; 32];
    let mut bitmap_index = BitmapIndex::from_raw(&mut array).unwrap();
    bitmap_index.set(8);
    bitmap_index.set(9);
    bitmap_index.set(15);
    bitmap_index.unset(9);
    assert_eq!(vec![8, 15], bitmap_index.indices());
    assert_eq!(Some(0), bitmap_index.find_available_index());
}

#[test]
fn consume_takes_the_lowest_clear_flag() {
    let mut array = [0xFFu8; 32];
    array[3] = 0b1110_1111;
    array[7] = 0;
    let mut bitmap_index = BitmapIndex::from_raw(&mut array).unwrap();
    assert_eq!(Some(28), bitmap_index.consume());
    assert_eq!(Some(56), bitmap_index.consume());
    drop(bitmap_index);
    assert_eq!(0xFF, array[3]);
    assert_eq!(1, array[7]);
}
