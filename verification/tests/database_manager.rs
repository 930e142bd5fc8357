use bsql::data_type::DataType;
use bsql::database_manager::database::Database;
use bsql::database_manager::DatabaseManager;
use bsql::table_schema::TableSchema;

#[test]
fn test_creating_new_table_without_columns() {
    let mut database = Database::new();

    let result = database.create_table(&TableSchema::named("foobar".to_string()));

    assert!(result.is_some(), "Failed to create table");
}

#[test]
fn test_creating_new_table_with_columns() {
    let mut database = Database::new();
    let mut table_schema = TableSchema::named("foobar".to_string());
    assert!(table_schema.add_column("age", DataType::Integer));

    let result = database.create_table(&table_schema);

    assert!(result.is_some(), "Failed to create table");
}

#[test]
fn test_creating_table_that_already_exists() {
    let mut database = Database::new();
    let table_schema = TableSchema::named("new_database".to_string());
    assert!(database.create_table(&table_schema).is_some());

    let result = database.create_table(&table_schema);

    assert!(result.is_none(), "Should fail to create duplicate database");
}

#[test]
fn a_database_in_memory_lists_its_tables() {
    let mut database = Database::new();
    database.create_table(&TableSchema::named("b".to_string())).unwrap();
    database.create_table(&TableSchema::named("a".to_string())).unwrap();
    assert_eq!(vec!["b".to_string(), "a".to_string()], database.table_names());
    assert!(database.table_exists("a"));
    assert!(!database.table_exists("c"));
}

#[test]
fn a_catalog_in_memory_keeps_the_tables_of_each_database_apart() {
    let mut manager = DatabaseManager::new();
    assert!(manager.database_names().is_empty());
    assert!(!manager.database_exists("d"));
    assert_eq!(None, manager.database_table_names("d"));
    assert!(!manager.create_table("d", "t"));

    assert_eq!(Some(()), manager.create_database("d"));
    assert_eq!(Some(()), manager.create_database("e"));
    assert_eq!(None, manager.create_database("d"));
    assert_eq!(vec!["d".to_string(), "e".to_string()], manager.database_names());
    assert!(manager.database_exists("e"));

    assert!(manager.create_table("d", "t"));
    assert!(manager.create_table("e", "t"));
    assert!(manager.create_table("e", "u"));
    assert!(!manager.create_table("e", "u"));
    assert_eq!(Some(vec!["t".to_string()]), manager.database_table_names("d"));
    assert_eq!(Some(vec!["t".to_string(), "u".to_string()]), manager.database_table_names("e"));
}
