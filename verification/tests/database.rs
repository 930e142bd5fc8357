use bsql::data_type::DataType;
use bsql::database::Database;
use bsql::error::Error;
use bsql::page_manager::PageManager;
use bsql::value::Value;

#[test]
fn database_test_creating_new_table_without_columns() {
    let mut page_manager = PageManager::new();
    let database = Database::new(&mut page_manager, "test").unwrap();

    let result = database.create_table(&mut page_manager, "foobar", vec![]);

    assert!(result.is_ok(), "Failed to create table");
}

#[test]
fn database_test_creating_new_table_with_columns() {
    let mut page_manager = PageManager::new();
    let database = Database::new(&mut page_manager, "test").unwrap();

    let result = database.create_table(
        &mut page_manager,
        "foobar",
        vec![("hello".to_string(), DataType::Integer)],
    );

    assert!(result.is_ok(), "Failed to create table");
}

#[test]
fn database_test_creating_table_that_already_exists() {
    let mut page_manager = PageManager::new();
    let database = Database::new(&mut page_manager, "test").unwrap();
    let table_name = "new_database";
    assert!(database.create_table(&mut page_manager, table_name, vec![]).is_ok());

    let result = database.create_table(&mut page_manager, table_name, vec![]);

    assert_eq!(Err(Error::TableAlreadyExists(table_name.to_string())), result);
}

#[test]
fn test_adding_column_to_table() {
    let mut page_manager = PageManager::new();
    let database = Database::new(&mut page_manager, "test").unwrap();
    let table_name = "new_database";
    assert!(database.create_table(&mut page_manager, table_name, vec![]).is_ok());

    let result = database.add_column(&mut page_manager, table_name, "age", DataType::Integer);

    assert!(result.is_ok(), "Failed to add column to table");
}

#[test]
fn inserting_row_to_a_table() {
    let mut page_manager = PageManager::new();
    let database = Database::new(&mut page_manager, "test").unwrap();
    let table_name = "new_table";
    assert!(database
        .create_table(&mut page_manager, table_name, vec![("age".to_string(), DataType::Integer)])
        .is_ok());

    let result = database.insert_row(&mut page_manager, table_name, vec![Value::Integer(3)]);

    assert!(result.is_ok(), "Failed to insert row to table");
}

#[test]
fn inserting_row_with_different_len_values() {
    let mut page_manager = PageManager::new();
    let database = Database::new(&mut page_manager, "test").unwrap();
    let table_name = "new_table";
    assert!(database
        .create_table(&mut page_manager, table_name, vec![("age".to_string(), DataType::Integer)])
        .is_ok());

    let result = database.insert_row(
        &mut page_manager,
        table_name,
        vec![Value::Integer(3), Value::Integer(5)],
    );

    assert_eq!(result.is_ok(), false);
}

#[test]
fn select_all_from_table() {
    let mut page_manager = PageManager::new();
    let database = Database::new(&mut page_manager, "test").unwrap();
    let table_name = "new_table";
    assert!(database
        .create_table(&mut page_manager, table_name, vec![("age".to_string(), DataType::Integer)])
        .is_ok());
    assert!(database.insert_row(&mut page_manager, table_name, vec![Value::Integer(5)]).is_ok());

    let result = database
        .select_all_columns(&page_manager, table_name)
        .expect("Failed to select from database");

    assert_eq!(1, *result.count());
    assert_eq!(vec![vec![Some(Value::Integer(5))]], result.rows());
}

#[test]
fn select_all_from_table_with_different_columns_over_time() {
    let mut page_manager = PageManager::new();
    let database = Database::new(&mut page_manager, "test").unwrap();
    let table_name = "new_table";
    assert!(database
        .create_table(&mut page_manager, table_name, vec![("age".to_string(), DataType::Integer)])
        .is_ok());
    assert!(database.insert_row(&mut page_manager, table_name, vec![Value::Integer(1)]).is_ok());

    assert!(database.add_column(&mut page_manager, table_name, "month", DataType::Integer).is_ok());
    assert!(database
        .insert_row(&mut page_manager, table_name, vec![Value::Integer(2), Value::Integer(3)])
        .is_ok());

    // Order is not guaranteed
    let result = database
        .select_all_columns(&page_manager, table_name)
        .expect("Failed to select from database");

    assert_eq!(2, *result.count());
    assert!(result.rows().contains(&vec![Some(Value::Integer(1)), None]));
    assert!(result.rows().contains(&vec![Some(Value::Integer(1)), None]));
}

#[test]
fn select_all_from_empty_table() {
    let mut page_manager = PageManager::new();
    let database = Database::new(&mut page_manager, "test").unwrap();
    let table_name = "new_table";
    assert!(database.create_table(&mut page_manager, table_name, vec![]).is_ok());

    let result = database
        .select_all_columns(&page_manager, table_name)
        .expect("Failed to select from database");

    assert_eq!(0, *result.count());
    assert!(result.rows().is_empty());
}

#[test]
fn select_from_table() {
    let mut page_manager = PageManager::new();
    let database = Database::new(&mut page_manager, "test").unwrap();
    let table_name = "new_table";
    assert!(database
        .create_table(
            &mut page_manager,
            table_name,
            vec![
                ("age".to_string(), DataType::Integer),
                ("birthday".to_string(), DataType::Integer),
            ]
        )
        .is_ok());
    assert!(database
        .insert_row(&mut page_manager, table_name, vec![Value::Integer(5), Value::Integer(3)])
        .is_ok());

    let result = database
        .select_columns_by_name(&page_manager, table_name, vec!["birthday"])
        .expect("Failed to select from database");

    assert_eq!(1, *result.count());
    assert_eq!(vec![vec![Some(Value::Integer(3))]], result.rows());
}

#[test]
fn select_with_column_that_doesnt_exist() {
    let mut page_manager = PageManager::new();
    let database = Database::new(&mut page_manager, "test").unwrap();
    let table_name = "new_table";
    assert!(database.create_table(&mut page_manager, table_name, vec![]).is_ok());

    let result = database.select_columns_by_name(&page_manager, table_name, vec!["lol123"]);

    assert_eq!(Err(Error::ColumnDoesNotExist("lol123".to_string())), result);
}

#[test]
fn the_second_row_of_a_grown_table_has_both_values() {
    let mut page_manager = PageManager::new();
    let database = Database::new(&mut page_manager, "d").unwrap();
    database
        .create_table(&mut page_manager, "t", vec![("a".to_string(), DataType::Integer)])
        .unwrap();
    database.insert_row(&mut page_manager, "t", vec![Value::Integer(1)]).unwrap();
    assert_eq!(
        Ok("ALTER TABLE".to_string()),
        database.add_column(&mut page_manager, "t", "b", DataType::Integer)
    );
    database
        .insert_row(&mut page_manager, "t", vec![Value::Integer(2), Value::Integer(3)])
        .unwrap();
    let result = database.select_all_columns(&page_manager, "t").unwrap();
    assert_eq!(&vec!["a".to_string(), "b".to_string()], result.columns());
    assert_eq!(
        vec![
            vec![Some(Value::Integer(1)), None],
            vec![Some(Value::Integer(2)), Some(Value::Integer(3))]
        ],
        result.rows()
    );
}

#[test]
fn what_a_database_does_not_have_is_reported() {
    let mut page_manager = PageManager::new();
    let database = Database::new(&mut page_manager, "d").unwrap();
    assert_eq!(Some("d".to_string()), database.name(&page_manager));
    let missing = Err(Error::TableDoesNotExist("t".to_string()));
    assert_eq!(missing, database.select_all_columns(&page_manager, "t"));
    assert_eq!(
        Err(Error::TableDoesNotExist("t".to_string())),
        database.select_columns_by_name(&page_manager, "t", vec!["a"])
    );
    assert_eq!(
        Err(Error::TableDoesNotExist("t".to_string())),
        database.insert_row(&mut page_manager, "t", vec![])
    );
    assert_eq!(
        Err(Error::TableDoesNotExist("t".to_string())),
        database.add_column(&mut page_manager, "t", "a", DataType::Integer)
    );
    assert_eq!(
        Err(Error::TableDoesNotExist("t".to_string())),
        database.column_definitions(&page_manager, "t")
    );
    assert!(!database.table_exists(&page_manager, "t"));
    assert!(database.table_names(&page_manager).is_empty());
}

#[test]
fn a_table_that_cannot_be_created_leaves_no_trace() {
    let mut page_manager = PageManager::new();
    let database = Database::new(&mut page_manager, "d").unwrap();
    let before = page_manager.to_bytes();
    assert_eq!(
        Err(Error::TableNameTooLong),
        database.create_table(&mut page_manager, &"t".repeat(63), vec![])
    );
    assert_eq!(
        Err(Error::ColumnAlreadyExist("a".to_string())),
        database.create_table(
            &mut page_manager,
            "t",
            vec![
                ("a".to_string(), DataType::Integer),
                ("b".to_string(), DataType::Integer),
                ("a".to_string(), DataType::Integer)
            ]
        )
    );
    let many: Vec<(String, DataType)> =
        (0..257).map(|number| (format!("c{}", number), DataType::Integer)).collect();
    assert_eq!(
        Err(Error::TooManyColumnsInUse),
        database.create_table(&mut page_manager, "t", many.clone())
    );
    assert_eq!(before, page_manager.to_bytes());
    assert_eq!(Ok(0), database.create_table(&mut page_manager, "t", many[..256].to_vec()));
    assert_eq!(Ok(1), database.create_table(&mut page_manager, "u", vec![]));
    assert_eq!(vec!["t".to_string(), "u".to_string()], database.table_names(&page_manager));
    let columns = database.column_definitions(&page_manager, "t").unwrap();
    assert_eq!(256, columns.len());
    for (position, column) in columns.iter().enumerate() {
        assert_eq!(position as u8, column.column_id());
        assert_eq!(&format!("c{}", position), column.name());
    }
    assert_eq!(
        Err(Error::TooManyColumnsInUse),
        database.add_column(&mut page_manager, "t", "one_more", DataType::Integer)
    );
}

#[test]
fn a_database_lists_at_most_255_tables() {
    let mut page_manager = PageManager::new();
    let database = Database::new(&mut page_manager, "d").unwrap();
    for number in 0..255u64 {
        assert_eq!(Ok(number), database.create_table(&mut page_manager, &format!("t{}", number), vec![]));
    }
    let before = page_manager.to_bytes();
    assert_eq!(Err(Error::InsertFailed), database.create_table(&mut page_manager, "last", vec![]));
    assert_eq!(before, page_manager.to_bytes());
    assert_eq!(255, database.table_names(&page_manager).len());
    assert_eq!(255, database.table_managers(&page_manager).len());
    assert_eq!(255, database.table_manager_page_ids(&page_manager).len());
}

#[test]
fn a_database_name_of_63_bytes_is_too_long() {
    let mut page_manager = PageManager::new();
    assert!(matches!(
        Database::new(&mut page_manager, &"d".repeat(63)),
        Err(Error::DatabaseNameTooLong)
    ));
    assert_eq!(0, page_manager.page_count());
    let database = Database::new(&mut page_manager, &"d".repeat(62)).unwrap();
    assert_eq!(Some("d".repeat(62)), database.name(&page_manager));
    let loaded = Database::load(&page_manager, database.id()).unwrap();
    assert_eq!(Some("d".repeat(62)), loaded.name(&page_manager));
    assert!(matches!(Database::load(&page_manager, 5), Err(Error::DatabaseDoesNotExist(_))));
}
