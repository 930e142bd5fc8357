use bsql::data_type::DataType;
use bsql::table_schema::TableSchema;
use bsql::table_store::TableStore;

#[test]
fn test_adding_first_column() {
    let mut table_schema = TableSchema::new();

    let result = table_schema.add_column("foobar", DataType::Integer);

    assert!(result, "Failed to add column");
}

#[test]
fn test_adding_duplicate_column() {
    let mut table_schema = TableSchema::new();
    assert!(table_schema.add_column("foobar", DataType::Integer));

    let result = table_schema.add_column("foobar", DataType::Integer);

    assert_eq!(false, result);
}

#[test]
fn test_deleting_column() {
    let mut table_schema = TableSchema::new();
    assert!(table_schema.add_column("foobar", DataType::Integer));

    let result = table_schema.drop_column("foobar");

    assert!(result);
}

#[test]
fn test_deleting_non_existing_column() {
    let mut table_schema = TableSchema::new();

    let result = table_schema.drop_column("foobar");

    assert_eq!(false, result);
}

#[test]
fn test_storing_single_column_record() {
    let mut table_schema = TableSchema::new();
    table_schema.add_column("age", DataType::Integer);
    let mut table_store = TableStore::new(table_schema);

    table_store.insert_record(vec![28]);
    table_store.insert_record(vec![13]);

    assert_eq!(2, table_store.count());
}

#[test]
fn test_storing_record_with_different_size() {
    let mut table_schema = TableSchema::new();
    table_schema.add_column("age", DataType::Integer);
    let mut table_store = TableStore::new(table_schema);

    table_store.insert_record(vec![28, 29]);

    assert_eq!(0, table_store.count());
}

#[test]
fn test_retriving_record_with_internal_id() {
    let mut table_schema = TableSchema::new();
    table_schema.add_column("age", DataType::Integer);
    let mut table_store = TableStore::new(table_schema);

    let internal_id =
        table_store.insert_record(vec![28]).expect("Failed to insert record into store");

    let record_data = table_store.get_record(internal_id);

    assert!(record_data.is_some());
}

#[test]
fn a_schema_hands_out_each_id_once() {
    let mut table_schema = TableSchema::named("t".to_string());
    assert_eq!("t", table_schema.name());
    for number in 0..256 {
        assert!(table_schema.add_column(&format!("c{}", number), DataType::Integer));
    }
    assert_eq!(256, table_schema.column_definitions_len());
    assert!(!table_schema.add_column("one_more", DataType::Integer));
    assert!(table_schema.drop_column("c3"));
    assert!(!table_schema.drop_column("c3"));
    assert_eq!(255, table_schema.column_definitions_len());
    assert!(!table_schema.add_column("c3", DataType::Integer));
    let copy = table_schema.duplicate();
    assert_eq!(table_schema, copy);
}

#[test]
fn records_are_found_under_the_ids_they_got() {
    let mut table_schema = TableSchema::new();
    table_schema.add_column("a", DataType::Integer);
    table_schema.add_column("b", DataType::Integer);
    let mut table_store = TableStore::new(table_schema);
    assert_eq!(Some(1), table_store.insert_record(vec![1, 2]));
    assert_eq!(None, table_store.insert_record(vec![1]));
    assert_eq!(Some(2), table_store.insert_record(vec![3, 4]));
    assert_eq!(Some(&vec![1, 2]), table_store.get_record(1));
    assert_eq!(Some(&vec![3, 4]), table_store.get_record(2));
    assert_eq!(None, table_store.get_record(0));
    assert_eq!(None, table_store.get_record(3));
    assert_eq!(2, table_store.count());
}
