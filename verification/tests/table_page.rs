use bsql::column_definition::ColumnDefinition;
use bsql::data_type::DataType;
use bsql::page_manager::PageManager;
use bsql::table_page::TablePage;
use bsql::value::Value;

#[test]
fn test_inserting_and_reading_record_with_one_column() {
    let mut page_manager = PageManager::new();
    let column_definition = ColumnDefinition::new(1, DataType::Integer, "day".to_string());
    let table_page = TablePage::new(&mut page_manager, vec![column_definition.clone()]).unwrap();

    let record_id = table_page.insert_record(&mut page_manager, vec![Value::Integer(3)]);
    assert!(record_id.is_some(), "Failed to insert the record into the page.");

    let record_data = table_page.get_record(&page_manager, record_id.unwrap());
    assert_eq!(Some(vec![Value::Integer(3)]), record_data);
}

#[test]
fn test_inserting_and_reading_record_with_multiple_columns() {
    let mut page_manager = PageManager::new();
    let table_page = TablePage::new(
        &mut page_manager,
        vec![
            ColumnDefinition::new(1, DataType::Integer, "day".to_string()),
            ColumnDefinition::new(2, DataType::Integer, "month".to_string()),
        ],
    )
    .unwrap();

    let record_id =
        table_page.insert_record(&mut page_manager, vec![Value::Integer(3), Value::Integer(5)]);
    assert!(record_id.is_some(), "Failed to insert the record into the page.");

    let record_data = table_page.get_record(&page_manager, record_id.unwrap());
    assert_eq!(Some(vec![Value::Integer(3), Value::Integer(5)]), record_data);
}

#[test]
fn test_inserting_record_when_the_page_is_full() {
    let mut page_manager = PageManager::new();
    let column_definition = ColumnDefinition::new(1, DataType::Integer, "day".to_string());

    let table_page = TablePage::new(&mut page_manager, vec![column_definition.clone()]).unwrap();
    for _ in 0..=u8::MAX {
        table_page
            .insert_record(&mut page_manager, vec![Value::Integer(3)])
            .expect("Failed to insert record while filling the page");
    }

    let record_id = table_page.insert_record(&mut page_manager, vec![Value::Integer(3)]);
    assert_eq!(None, record_id);
}

#[test]
fn test_inserting_record_with_other_column_definitions() {
    let mut page_manager = PageManager::new();
    let column_definition = ColumnDefinition::new(1, DataType::Integer, "day".to_string());
    let table_page = TablePage::new(&mut page_manager, vec![column_definition.clone()]).unwrap();

    let record_id =
        table_page.insert_record(&mut page_manager, vec![Value::Integer(3), Value::Integer(1)]);
    assert_eq!(None, record_id);
}

#[test]
fn test_inserting_and_deleting_record() {
    let mut page_manager = PageManager::new();
    let table_page = TablePage::new(
        &mut page_manager,
        vec![ColumnDefinition::new(1, DataType::Integer, "day".to_string())],
    )
    .unwrap();

    let record_id = table_page.insert_record(&mut page_manager, vec![Value::Integer(3)]);
    assert!(record_id.is_some());
    assert_eq!(1, table_page.record_count(&page_manager));

    table_page.delete_record(&mut page_manager, record_id.unwrap());
    assert_eq!(0, table_page.record_count(&page_manager));
}

#[test]
fn test_record_size() {
    let mut page_manager = PageManager::new();

    {
        let table_page = TablePage::new(
            &mut page_manager,
            vec![ColumnDefinition::new(1, DataType::Integer, "day".to_string())],
        )
        .unwrap();
        assert_eq!(1, table_page.record_size());
    }

    {
        let table_page = TablePage::new(
            &mut page_manager,
            vec![
                ColumnDefinition::new(1, DataType::Integer, "day".to_string()),
                ColumnDefinition::new(2, DataType::Integer, "month".to_string()),
            ],
        )
        .unwrap();

        assert_eq!(2, table_page.record_size());
    }
}

#[test]
fn table_page_test_initialize_and_load() {
    let mut page_manager = PageManager::new();
    let page_id = page_manager.create_page();
    let column_definitions = vec![
        ColumnDefinition::new(23, DataType::Integer, "day".to_string()),
        ColumnDefinition::new(11, DataType::Integer, "month".to_string()),
    ];

    {
        let table_page =
            TablePage::initialize(&mut page_manager, page_id, column_definitions.clone()).unwrap();
        table_page.insert_record(&mut page_manager, vec![Value::Integer(13), Value::Integer(12)]);
    }

    let table_page = TablePage::load(&page_manager, page_id).unwrap();
    let loaded: Vec<(u8, DataType)> = table_page
        .column_definitions()
        .iter()
        .map(|column| (column.column_id(), *column.data_type()))
        .collect();
    let expected: Vec<(u8, DataType)> = column_definitions
        .iter()
        .map(|column| (column.column_id(), *column.data_type()))
        .collect();
    assert_eq!(expected, loaded);
    assert_eq!(1, table_page.record_count(&page_manager));
}

#[test]
fn test_serialize_page_header() {
    let mut page_manager = PageManager::new();
    let table_page = TablePage::new(
        &mut page_manager,
        vec![
            ColumnDefinition::new(23, DataType::Integer, "day".to_string()),
            ColumnDefinition::new(11, DataType::Integer, "month".to_string()),
        ],
    )
    .unwrap();

    let page_header = table_page.serialize_page_header();

    assert_eq!(
        [
            2,                                // two columns
            23,                               // column id
            DataType::Integer.bsql_type_id(), // (column_id, type_id)
            11,                               // column id
            DataType::Integer.bsql_type_id(), // (column_id, type_id)
        ],
        page_header.as_slice()
    );
    assert_eq!(page_header.len(), table_page.page_header_size());
    assert_eq!(2, DataType::Integer.bsql_size() + DataType::Integer.bsql_size());
}

#[test]
fn a_table_page_stores_no_names() {
    let mut page_manager = PageManager::new();
    let page_id = page_manager.create_page();
    TablePage::initialize(
        &mut page_manager,
        page_id,
        vec![ColumnDefinition::new(7, DataType::Integer, "day".to_string())],
    )
    .unwrap();
    let metadata = page_manager.fetch_page(page_id).unwrap().metadata;
    assert_eq!([0, 0, 0, 0, 0, 0, 0, 2], metadata[32..40]);
    assert_eq!([7, 1], metadata[40..42]);
    assert!(metadata[42..].iter().all(|byte| *byte == 0));
    let loaded = TablePage::load(&page_manager, page_id).unwrap();
    assert_eq!("", loaded.column_definitions()[0].name());
}

#[test]
fn records_lie_slot_after_slot_in_the_data_region() {
    let mut page_manager = PageManager::new();
    let table_page = TablePage::new(
        &mut page_manager,
        vec![
            ColumnDefinition::new(0, DataType::Integer, "a".to_string()),
            ColumnDefinition::new(1, DataType::Integer, "b".to_string()),
        ],
    )
    .unwrap();
    assert_eq!(Some(0), table_page.insert_record(&mut page_manager, vec![Value::Integer(1), Value::Integer(2)]));
    assert_eq!(Some(1), table_page.insert_record(&mut page_manager, vec![Value::Integer(3), Value::Integer(4)]));
    assert_eq!(Some(2), table_page.insert_record(&mut page_manager, vec![Value::Integer(5), Value::Integer(6)]));
    let page = page_manager.fetch_page(table_page.id()).unwrap();
    assert_eq!([1, 2, 3, 4, 5, 6, 0], page.data[0..7]);
    assert_eq!(0b0000_0111, page.metadata[0]);

    table_page.delete_record(&mut page_manager, 1);
    let page = page_manager.fetch_page(table_page.id()).unwrap();
    assert_eq!([1, 2, 3, 4, 5, 6, 0], page.data[0..7]);
    assert_eq!(0b0000_0101, page.metadata[0]);
    assert_eq!(None, table_page.get_record(&page_manager, 1));
    assert_eq!(
        vec![vec![Value::Integer(1), Value::Integer(2)], vec![Value::Integer(5), Value::Integer(6)]],
        table_page.get_records(&page_manager)
    );

    assert_eq!(Some(1), table_page.insert_record(&mut page_manager, vec![Value::Integer(7), Value::Integer(8)]));
    assert_eq!(Some(vec![Value::Integer(7), Value::Integer(8)]), table_page.get_record(&page_manager, 1));
}

#[test]
fn a_page_of_wide_records_is_full_before_its_bitmap_is() {
    let mut page_manager = PageManager::new();
    let columns: Vec<ColumnDefinition> = (0..=255u8)
        .map(|id| ColumnDefinition::new(id, DataType::Integer, String::new()))
        .collect();
    let table_page = TablePage::new(&mut page_manager, columns).unwrap();
    assert_eq!(256, table_page.record_size());
    let record: Vec<Value> = (0..=255u8).map(Value::Integer).collect();
    for slot in 0..16u8 {
        assert!(!table_page.is_full(&page_manager));
        assert_eq!(Some(slot), table_page.insert_record(&mut page_manager, record.clone()));
    }
    assert!(table_page.is_full(&page_manager));
    assert_eq!(None, table_page.insert_record(&mut page_manager, record.clone()));
    assert_eq!(Some(record), table_page.get_record(&page_manager, 15));
    assert_eq!(16, table_page.record_count(&page_manager));
}

#[test]
fn a_failed_insert_leaves_the_page_as_it_is() {
    let mut page_manager = PageManager::new();
    let table_page = TablePage::new(
        &mut page_manager,
        vec![ColumnDefinition::new(0, DataType::Integer, "a".to_string())],
    )
    .unwrap();
    table_page.insert_record(&mut page_manager, vec![Value::Integer(9)]).unwrap();
    let before = page_manager.to_bytes();
    assert_eq!(None, table_page.insert_record(&mut page_manager, vec![]));
    assert_eq!(None, table_page.insert_record(&mut page_manager, vec![Value::Integer(1), Value::Integer(2)]));
    assert_eq!(before, page_manager.to_bytes());
}

#[test]
fn too_many_columns_or_a_missing_page_are_refused() {
    let mut page_manager = PageManager::new();
    let columns: Vec<ColumnDefinition> = (0..257u16)
        .map(|id| ColumnDefinition::new(id as u8, DataType::Integer, String::new()))
        .collect();
    assert!(TablePage::new(&mut page_manager, columns).is_none());
    assert_eq!(0, page_manager.page_count());
    assert!(TablePage::initialize(&mut page_manager, 0, vec![]).is_none());
    assert!(TablePage::load(&page_manager, 0).is_none());
}
