use bsql::column_definition::ColumnDefinition;
use bsql::data_type::DataType;
use bsql::error::Error;
use bsql::manager::Manager;
use bsql::page_manager::PageManager;
use bsql::query_result::QueryResult;
use bsql::row_result::RowResult;
use bsql::tokenizer::Token;
use bsql::value::Value;

#[test]
fn test_list_databases() {
    let page_manager = PageManager::new();
    let mut manager = Manager::new(page_manager);
    manager.create_database("hello").unwrap();
    manager.create_database("world").unwrap();

    assert_eq!(vec!["hello".to_string(), "world".to_string()], manager.database_names());
}

#[test]
fn a_row_goes_in_and_comes_out() {
    let mut manager = Manager::new(PageManager::new());
    assert_eq!(
        Ok(QueryResult::CommandSuccessMessage("CREATE DATABASE".to_string())),
        manager.execute("", "CREATE DATABASE d;")
    );
    assert_eq!(
        Ok(QueryResult::CommandSuccessMessage("CREATE TABLE".to_string())),
        manager.execute("d", "CREATE TABLE t (x integer);")
    );
    assert_eq!(
        Ok(QueryResult::InsertSuccess { count: 1 }),
        manager.execute("d", "INSERT INTO t VALUES (5);")
    );
    assert_eq!(
        Ok(QueryResult::RowResult(RowResult::new(
            vec!["x".to_string()],
            vec![vec![Some(Value::Integer(5))]]
        ))),
        manager.execute("d", "SELECT * FROM t;")
    );
}

#[test]
fn rows_from_before_a_column_was_added_have_no_value_for_it() {
    let mut manager = Manager::new(PageManager::new());
    manager.execute("", "CREATE DATABASE d;").unwrap();
    manager.execute("d", "CREATE TABLE t (a integer);").unwrap();
    manager.execute("d", "INSERT INTO t VALUES (1);").unwrap();
    assert_eq!(
        Ok(QueryResult::CommandSuccessMessage("ALTER TABLE".to_string())),
        manager.add_column("d", "t", "b", DataType::Integer)
    );
    manager.execute("d", "INSERT INTO t VALUES (2, 3);").unwrap();
    let Ok(QueryResult::RowResult(rows)) = manager.execute("d", "SELECT * FROM t;") else {
        panic!("no rows");
    };
    assert_eq!(2, *rows.count());
    assert!(rows.rows().contains(&vec![Some(Value::Integer(1)), None]));
    assert!(rows.rows().contains(&vec![Some(Value::Integer(2)), Some(Value::Integer(3))]));
    assert_eq!(
        Ok(QueryResult::RowResult(RowResult::new(
            vec!["b".to_string(), "a".to_string()],
            vec![
                vec![None, Some(Value::Integer(1))],
                vec![Some(Value::Integer(3)), Some(Value::Integer(2))]
            ]
        ))),
        manager.execute("d", "SELECT b, a FROM t WHERE a = 1;")
    );
}

#[test]
fn selecting_an_unknown_column_fails_and_changes_nothing() {
    let mut manager = Manager::new(PageManager::new());
    manager.execute("", "CREATE DATABASE d;").unwrap();
    manager.execute("d", "CREATE TABLE t (a integer);").unwrap();
    manager.execute("d", "INSERT INTO t VALUES (1);").unwrap();
    let before = manager.page_manager().to_bytes();
    assert_eq!(
        Err(Error::ColumnDoesNotExist("nope".to_string())),
        manager.execute("d", "SELECT a, nope, neither FROM t;")
    );
    assert_eq!(
        Err(Error::ColumnDoesNotExist("nope".to_string())),
        manager.select("d", "t", vec!["nope".to_string()])
    );
    assert_eq!(before, manager.page_manager().to_bytes());
}

#[test]
fn every_kind_of_failure_is_reported_and_changes_nothing() {
    let mut manager = Manager::new(PageManager::new());
    manager.execute("", "CREATE DATABASE d;").unwrap();
    manager.execute("d", "CREATE TABLE t (a integer);").unwrap();
    let before = manager.page_manager().to_bytes();
    assert_eq!(Err(Error::MissingToken), manager.execute("d", "CREATE TABLE u"));
    assert_eq!(
        Err(Error::UnexpectedToken { actual: Token::Identifier("DROP".to_string()) }),
        manager.execute("d", "DROP TABLE t;")
    );
    assert_eq!(
        Err(Error::DatabaseAlreadyExists("d".to_string())),
        manager.execute("d", "CREATE DATABASE d;")
    );
    assert_eq!(
        Err(Error::DatabaseNameTooLong),
        manager.execute("d", &format!("CREATE DATABASE {};", "n".repeat(63)))
    );
    assert_eq!(
        Err(Error::DatabaseDoesNotExist("e".to_string())),
        manager.execute("e", "CREATE TABLE t (a integer);")
    );
    assert_eq!(
        Err(Error::DatabaseDoesNotExist("e".to_string())),
        manager.execute("e", "INSERT INTO t VALUES (1);")
    );
    assert_eq!(
        Err(Error::DatabaseDoesNotExist("e".to_string())),
        manager.execute("e", "SELECT * FROM t;")
    );
    assert_eq!(
        Err(Error::DatabaseDoesNotExist("e".to_string())),
        manager.execute("e", "SELECT a FROM t;")
    );
    assert_eq!(
        Err(Error::DatabaseDoesNotExist("e".to_string())),
        manager.add_column("e", "t", "b", DataType::Integer)
    );
    assert_eq!(
        Err(Error::TableAlreadyExists("t".to_string())),
        manager.execute("d", "CREATE TABLE t ();")
    );
    assert_eq!(
        Err(Error::TableNameTooLong),
        manager.execute("d", &format!("CREATE TABLE {} ();", "n".repeat(63)))
    );
    assert_eq!(
        Err(Error::TableDoesNotExist("u".to_string())),
        manager.execute("d", "INSERT INTO u VALUES (1);")
    );
    assert_eq!(
        Err(Error::TableDoesNotExist("u".to_string())),
        manager.execute("d", "SELECT * FROM u;")
    );
    assert_eq!(
        Err(Error::ColumnAlreadyExist("a".to_string())),
        manager.add_column("d", "t", "a", DataType::Integer)
    );
    assert_eq!(
        Err(Error::ColumnAlreadyExist("b".to_string())),
        manager.execute("d", "CREATE TABLE u (b integer, b integer);")
    );
    assert_eq!(Err(Error::InsertFailed), manager.execute("d", "INSERT INTO t VALUES (1, 2);"));
    assert_eq!(Err(Error::InsertFailed), manager.execute("d", "INSERT INTO t VALUES ();"));
    assert_eq!(before, manager.page_manager().to_bytes());
}

#[test]
fn the_catalog_can_be_asked_what_it_holds() {
    let mut manager = Manager::new(PageManager::new());
    assert!(!manager.database_exists("d"));
    manager.create_database("d").unwrap();
    assert!(manager.database_exists("d"));
    manager
        .create_table("d", "t", vec![("a".to_string(), DataType::Integer)])
        .unwrap();
    manager.create_table("d", "u", vec![]).unwrap();
    assert_eq!(Ok(vec!["t".to_string(), "u".to_string()]), manager.database_table_names("d"));
    assert_eq!(
        Err(Error::DatabaseDoesNotExist("e".to_string())),
        manager.database_table_names("e")
    );
    assert_eq!(
        Ok(vec![ColumnDefinition::new(0, DataType::Integer, "a".to_string())]),
        manager.table_definition("d", "t")
    );
    assert_eq!(Err(Error::TableDoesNotExist("v".to_string())), manager.table_definition("d", "v"));
    assert_eq!(
        Err(Error::DatabaseDoesNotExist("e".to_string())),
        manager.table_definition("e", "t")
    );
    assert_eq!(Ok(QueryResult::InsertSuccess { count: 1 }), manager.insert_row("d", "t", vec![Value::Integer(4)]));
    assert_eq!(
        Ok(QueryResult::RowResult(RowResult::new(vec!["a".to_string()], vec![vec![Some(Value::Integer(4))]]))),
        manager.select_all("d", "t")
    );
    assert_eq!(vec![1], manager.database_page_ids());
    assert_eq!(1, manager.databases().len());
    assert_eq!(0, manager.root_page_id());
    assert!(manager.can_grow());
}

#[test]
fn a_store_that_was_written_out_reads_back_the_same() {
    let mut manager = Manager::new(PageManager::new());
    manager.execute("", "CREATE DATABASE d;").unwrap();
    manager.execute("", "CREATE DATABASE e;").unwrap();
    manager.execute("d", "CREATE TABLE t (a integer);").unwrap();
    manager.execute("e", "CREATE TABLE u (x integer, y integer);").unwrap();
    for number in 0..300u32 {
        manager.execute("d", &format!("INSERT INTO t VALUES ({});", number % 256)).unwrap();
    }
    manager.add_column("d", "t", "b", DataType::Integer).unwrap();
    manager.execute("d", "INSERT INTO t VALUES (1, 2);").unwrap();
    manager.execute("e", "INSERT INTO u VALUES (3, 4);").unwrap();

    let stored = manager.page_manager().to_bytes();
    assert_eq!(manager.page_manager().page_count() * 8192, stored.len());
    let mut with_tail = stored.clone();
    with_tail.extend_from_slice(&[1, 2, 3]);
    let reloaded = PageManager::from_bytes(&with_tail);
    assert_eq!(manager.page_manager().page_count(), reloaded.page_count());
    assert_eq!(stored, reloaded.to_bytes());

    let mut fresh = Manager::load(reloaded, manager.root_page_id()).unwrap();
    assert_eq!(manager.database_names(), fresh.database_names());
    assert_eq!(manager.database_table_names("d"), fresh.database_table_names("d"));
    assert_eq!(manager.database_table_names("e"), fresh.database_table_names("e"));
    assert_eq!(manager.table_definition("d", "t"), fresh.table_definition("d", "t"));
    assert_eq!(manager.execute("d", "SELECT * FROM t;"), fresh.execute("d", "SELECT * FROM t;"));
    assert_eq!(manager.execute("e", "SELECT y FROM u;"), fresh.execute("e", "SELECT y FROM u;"));
    assert!(Manager::load(PageManager::new(), 0).is_none());
}

#[test]
fn the_root_lists_at_most_255_databases() {
    let mut manager = Manager::new(PageManager::new());
    for number in 0..255 {
        manager.create_database(&format!("d{}", number)).unwrap();
    }
    let before = manager.page_manager().to_bytes();
    assert_eq!(Err(Error::InsertFailed), manager.create_database("last"));
    assert_eq!(before, manager.page_manager().to_bytes());
    assert_eq!(255, manager.database_names().len());
}
