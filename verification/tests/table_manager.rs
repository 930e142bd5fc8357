use bsql::data_type::DataType;
use bsql::error::Error;
use bsql::page_manager::PageManager;
use bsql::table_manager::TableManager;
use bsql::value::Value;

#[test]
fn fetching_table_name_works() {
    let mut page_manager = PageManager::new();
    let table_manager = TableManager::new(&mut page_manager, "test").unwrap();
    assert_eq!("test", table_manager.name(&page_manager));
}

#[test]
fn get_records_for_pages_with_different_columns() {
    let mut page_manager = PageManager::new();
    let table_manager = TableManager::new(&mut page_manager, "test").unwrap();
    table_manager.add_column(&mut page_manager, "day", DataType::Integer).unwrap();
    assert!(table_manager.insert_record(&mut page_manager, vec![Value::Integer(31)]).is_some());

    table_manager.add_column(&mut page_manager, "month", DataType::Integer).unwrap();
    assert!(table_manager
        .insert_record(&mut page_manager, vec![Value::Integer(1), Value::Integer(5)])
        .is_some());

    // Returns records for the _current_ columns. Order is not guaranteed.
    let records = table_manager.get_records(&page_manager);
    assert!(
        records.rows().contains(&vec![Some(Value::Integer(31)), None]),
        "Missing record with only first column"
    );
    assert!(
        records.rows().contains(&vec![Some(Value::Integer(1)), Some(Value::Integer(5))]),
        "Missing record both column"
    );
}

#[test]
fn test_get_records_with_specific_columns() {
    let mut page_manager = PageManager::new();
    let table_manager = TableManager::new(&mut page_manager, "test").unwrap();
    table_manager.add_column(&mut page_manager, "day", DataType::Integer).unwrap();
    assert!(table_manager.insert_record(&mut page_manager, vec![Value::Integer(13)]).is_some());

    table_manager.add_column(&mut page_manager, "month", DataType::Integer).unwrap();
    assert!(table_manager
        .insert_record(&mut page_manager, vec![Value::Integer(2), Value::Integer(4)])
        .is_some());

    // Returns records for the _given_ columns. Order is not guaranteed.
    let records = table_manager
        .get_records_for_columns(&page_manager, &vec!["month", "day"])
        .expect("Failed to get the result");

    assert_eq!(2, *records.count());
    assert!(
        records.rows().contains(&vec![None, Some(Value::Integer(13))]),
        "Missing record with only first column"
    );
    assert!(
        records.rows().contains(&vec![Some(Value::Integer(4)), Some(Value::Integer(2))]),
        "Missing record both column"
    );
}

#[test]
fn test_getting_a_single_record_works() {
    let mut page_manager = PageManager::new();
    let table_manager = TableManager::new(&mut page_manager, "test").unwrap();
    table_manager.add_column(&mut page_manager, "day", DataType::Integer).unwrap();

    let record_id = table_manager
        .insert_record(&mut page_manager, vec![Value::Integer(13)])
        .expect("Failed to insert record");

    let record = table_manager
        .get_record(&page_manager, record_id)
        .expect("Failed to fetch inserted record.");

    assert_eq!(&vec![Some(Value::Integer(13))], record.rows().first().unwrap());
}

#[test]
fn test_get_records_with_specific_columns_with_invalid_columns() {
    let mut page_manager = PageManager::new();
    let table_manager = TableManager::new(&mut page_manager, "test").unwrap();
    table_manager.add_column(&mut page_manager, "day", DataType::Integer).unwrap();

    assert_eq!(
        Err(Error::ColumnDoesNotExist("month".to_string())),
        table_manager.get_records_for_columns(&page_manager, &vec!["month", "day"])
    )
}

#[test]
fn table_manager_test_initialize_and_load() {
    let mut page_manager = PageManager::new();
    let page_id = page_manager.create_page();

    {
        let table_manager = TableManager::initialize(&mut page_manager, page_id, "my_table")
            .expect("Failed to initialize");

        assert_eq!(table_manager.name(&page_manager), "my_table");
    }

    let table_manager =
        TableManager::load(&page_manager, page_id).expect("Failed to load TableManager");
    assert_eq!(table_manager.name(&page_manager), "my_table");
}

#[test]
fn test_inserting_record_and_getting_it_back_out() {
    let mut page_manager = PageManager::new();
    let table_manager = TableManager::new(&mut page_manager, "test").unwrap();
    table_manager.add_column(&mut page_manager, "day", DataType::Integer).unwrap();

    let record_id = table_manager
        .insert_record(&mut page_manager, vec![Value::Integer(29)])
        .expect("Failed to insert a row");

    let record = table_manager
        .get_record(&page_manager, record_id)
        .expect("Failed to retrive record by interal record id");

    assert_eq!(1, *record.count());
    assert_eq!(
        vec![Some(Value::Integer(29))],
        *record.rows().first().expect("Failed to fetch the first record")
    );
}

#[test]
fn column_ids_are_unique_and_stay_as_they_are() {
    let mut page_manager = PageManager::new();
    let table_manager = TableManager::new(&mut page_manager, "t").unwrap();
    let mut seen: Vec<u8> = Vec::new();
    for number in 0..256u32 {
        table_manager
            .add_column(&mut page_manager, &format!("c{}", number), DataType::Integer)
            .unwrap();
        let columns = table_manager.column_definitions(&page_manager);
        assert_eq!(number as usize + 1, columns.len());
        for (position, id) in seen.iter().enumerate() {
            assert_eq!(*id, columns[position].column_id());
            assert_eq!(&format!("c{}", position), columns[position].name());
        }
        let added = columns.last().unwrap().column_id();
        assert!(!seen.contains(&added));
        seen.push(added);
    }
    let before = page_manager.to_bytes();
    assert_eq!(
        Err(Error::TooManyColumnsInUse),
        table_manager.add_column(&mut page_manager, "c256", DataType::Integer)
    );
    assert_eq!(before, page_manager.to_bytes());
    assert_eq!(
        Err(Error::ColumnAlreadyExist("c7".to_string())),
        table_manager.add_column(&mut page_manager, "c7", DataType::Integer)
    );
}

#[test]
fn a_record_of_the_wrong_width_is_refused_and_changes_nothing() {
    let mut page_manager = PageManager::new();
    let table_manager = TableManager::new(&mut page_manager, "t").unwrap();
    table_manager.add_column(&mut page_manager, "a", DataType::Integer).unwrap();
    table_manager.insert_record(&mut page_manager, vec![Value::Integer(1)]).unwrap();
    let before = page_manager.to_bytes();
    assert_eq!(None, table_manager.insert_record(&mut page_manager, vec![]));
    assert_eq!(
        None,
        table_manager.insert_record(&mut page_manager, vec![Value::Integer(1), Value::Integer(2)])
    );
    assert_eq!(before, page_manager.to_bytes());
}

#[test]
fn name_and_columns_read_back_from_the_page_they_were_written_to() {
    let mut page_manager = PageManager::new();
    let table_manager = TableManager::new(&mut page_manager, "größe").unwrap();
    table_manager.add_column(&mut page_manager, "höhe", DataType::Integer).unwrap();
    table_manager.add_column(&mut page_manager, "b", DataType::Integer).unwrap();
    let reloaded = PageManager::from_bytes(&page_manager.to_bytes());
    let loaded = TableManager::load(&reloaded, table_manager.id()).unwrap();
    assert_eq!("größe", loaded.name(&reloaded));
    assert_eq!(
        table_manager.column_definitions(&page_manager),
        loaded.column_definitions(&reloaded)
    );
    assert_eq!(vec!["höhe".to_string(), "b".to_string()], loaded.column_names(&reloaded));
    assert!(loaded.column_exists(&reloaded, "b"));
    assert!(!loaded.column_exists(&reloaded, "c"));
}

#[test]
fn the_metadata_page_has_the_documented_layout() {
    let mut page_manager = PageManager::new();
    let table_manager = TableManager::new(&mut page_manager, "ab").unwrap();
    table_manager.add_column(&mut page_manager, "x", DataType::Integer).unwrap();
    table_manager.insert_record(&mut page_manager, vec![Value::Integer(9)]).unwrap();
    let metadata = page_manager.fetch_page(table_manager.id()).unwrap().metadata;
    assert_eq!(1, metadata[0]);
    assert_eq!([2, 97, 98], metadata[32..35]);
    assert_eq!([0, 1, 3, 0, 1, 120, 1, 0, 0, 0, 1], metadata[96..107]);
    assert_eq!(vec![1], table_manager.page_ids(&page_manager));
}

#[test]
fn a_full_page_is_followed_by_a_new_one() {
    let mut page_manager = PageManager::new();
    let table_manager = TableManager::new(&mut page_manager, "t").unwrap();
    table_manager.add_column(&mut page_manager, "a", DataType::Integer).unwrap();
    for slot in 0..256u64 {
        assert_eq!(
            Some(slot),
            table_manager.insert_record(&mut page_manager, vec![Value::Integer(slot as u8)])
        );
    }
    assert_eq!(2, page_manager.page_count());
    assert_eq!(
        Some(1u64 << 32),
        table_manager.insert_record(&mut page_manager, vec![Value::Integer(77)])
    );
    assert_eq!(
        Some((1u64 << 32) | 1),
        table_manager.insert_record(&mut page_manager, vec![Value::Integer(78)])
    );
    assert_eq!(3, page_manager.page_count());
    assert_eq!(vec![1, 2], table_manager.page_ids(&page_manager));
    let records = table_manager.get_records(&page_manager);
    assert_eq!(258, *records.count());
    for slot in 0..256usize {
        assert_eq!(vec![Some(Value::Integer(slot as u8))], records.rows()[slot]);
    }
    assert_eq!(vec![Some(Value::Integer(77))], records.rows()[256]);
    assert_eq!(vec![Some(Value::Integer(78))], records.rows()[257]);
    let single = table_manager.get_record(&page_manager, (1u64 << 32) | 1).unwrap();
    assert_eq!(vec![vec![Some(Value::Integer(78))]], single.rows());
    assert!(table_manager.get_record(&page_manager, (1u64 << 32) | 2).is_none());
    assert!(table_manager.get_record(&page_manager, 2u64 << 32).is_none());
    assert!(table_manager.get_record(&page_manager, 256).is_none());
}

#[test]
fn a_table_name_of_63_bytes_is_too_long() {
    let mut page_manager = PageManager::new();
    let long = "x".repeat(63);
    assert!(matches!(TableManager::new(&mut page_manager, &long), Err(Error::TableNameTooLong)));
    assert_eq!(0, page_manager.page_count());
    let short = "x".repeat(62);
    let table_manager = TableManager::new(&mut page_manager, &short).unwrap();
    assert_eq!(short, table_manager.name(&page_manager));
}

#[test]
fn a_column_that_does_not_fit_the_page_is_refused() {
    let mut page_manager = PageManager::new();
    let table_manager = TableManager::new(&mut page_manager, "t").unwrap();
    assert_eq!(
        Err(Error::TooManyColumnsInUse),
        table_manager.add_column(&mut page_manager, &"n".repeat(254), DataType::Integer)
    );
    for number in 0..15u8 {
        let name = format!("{}{}", "n".repeat(250), number % 10 + (number / 10) * 10);
        assert_eq!(Ok(()), table_manager.add_column(&mut page_manager, &name[..253.min(name.len())], DataType::Integer));
    }
    let before = page_manager.to_bytes();
    assert_eq!(
        Err(Error::TooManyColumnsInUse),
        table_manager.add_column(&mut page_manager, &"m".repeat(253), DataType::Integer)
    );
    assert_eq!(before, page_manager.to_bytes());
}

#[test]
fn load_refuses_a_page_without_a_table() {
    let mut page_manager = PageManager::new();
    assert!(matches!(TableManager::load(&page_manager, 0), Err(Error::TableDoesNotExist(_))));
    let page_id = page_manager.create_page();
    assert!(TableManager::load(&page_manager, page_id).is_ok());
    page_manager.fetch_page_mut(page_id).unwrap().metadata[0] = 1;
    assert!(matches!(TableManager::load(&page_manager, page_id), Err(Error::TableDoesNotExist(_))));
}
