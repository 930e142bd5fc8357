use bsql::database_definition::DatabaseDefinition;

#[test]
fn database_definition_test_creating_new_table_without_columns() {
    let mut database = DatabaseDefinition::new();

    let result = database.create_table("foobar");

    assert!(result.is_some(), "Failed to create table");
}

#[test]
fn database_definition_test_creating_new_table_with_columns() {
    let mut database = DatabaseDefinition::new();

    let result = database.create_table("foobar");

    assert!(result.is_some(), "Failed to create table");
}

#[test]
fn database_definition_test_creating_table_that_already_exists() {
    let mut database = DatabaseDefinition::new();
    let table_name = "new_database";
    assert!(database.create_table(table_name).is_some());

    let result = database.create_table(table_name);

    assert!(result.is_none(), "Should fail to create duplicate database");
}

#[test]
fn tables_are_listed_in_the_order_they_were_created() {
    let mut database = DatabaseDefinition::new();
    assert!(database.table_names().is_empty());
    assert!(!database.table_exists("a"));
    database.create_table("b").unwrap();
    database.create_table("a").unwrap();
    assert_eq!(None, database.create_table("b"));
    assert_eq!(vec!["b".to_string(), "a".to_string()], database.table_names());
    assert!(database.table_exists("a"));
    assert!(!database.table_exists("c"));
}
