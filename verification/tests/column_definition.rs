use bsql::column_definition::ColumnDefinition;
use bsql::data_type::DataType;
use bsql::value::Value;

#[test]
fn test_serializing_and_deserializing_into_bytes() {
    let column_definition = ColumnDefinition::new(1, DataType::Integer, "hello".to_string());

    let serialized_column: Vec<u8> = column_definition.to_raw_bytes();
    assert_eq!(vec![7, 1, 1, 104, 101, 108, 108, 111], serialized_column);

    let deserialized_column = ColumnDefinition::from_raw_bytes(&serialized_column[1..]);
    assert_eq!(Some(column_definition), deserialized_column);
}

#[test]
fn from_raw_bytes_refuses_what_is_no_column() {
    assert_eq!(None, ColumnDefinition::from_raw_bytes(&[]));
    assert_eq!(None, ColumnDefinition::from_raw_bytes(&[4]));
    assert_eq!(None, ColumnDefinition::from_raw_bytes(&[4, 2, 104]));
    assert_eq!(None, ColumnDefinition::from_raw_bytes(&[4, 1, 0xFF, 0xFE]));
    assert_eq!(
        Some(ColumnDefinition::new(4, DataType::Integer, String::new())),
        ColumnDefinition::from_raw_bytes(&[4, 1])
    );
}

#[test]
fn a_name_outside_ascii_survives_the_round_trip() {
    let column_definition = ColumnDefinition::new(200, DataType::Integer, "größe".to_string());
    let serialized = column_definition.to_raw_bytes();
    assert_eq!(2 + "größe".len(), serialized[0] as usize);
    assert_eq!(Some(column_definition), ColumnDefinition::from_raw_bytes(&serialized[1..]));
}

#[test]
fn data_type_ids_and_sizes() {
    assert_eq!(Some(DataType::Integer), DataType::from_type_id(1));
    assert_eq!(None, DataType::from_type_id(0));
    assert_eq!(None, DataType::from_type_id(2));
    assert_eq!(1, DataType::Integer.bsql_type_id());
    assert_eq!(1, DataType::Integer.bsql_size());
    assert_eq!("integer", DataType::Integer.to_string());
    assert_eq!(Some(Value::Integer(9)), DataType::to_bsql_value(&DataType::Integer, &[9, 8]));
    assert_eq!(None, DataType::to_bsql_value(&DataType::Integer, &[]));
    assert_eq!(vec![200], Value::Integer(200).to_bsql_data());
}

#[test]
fn a_value_is_shown_in_base_ten() {
    assert_eq!("0", Value::Integer(0).to_string());
    assert_eq!("9", Value::Integer(9).to_string());
    assert_eq!("10", Value::Integer(10).to_string());
    assert_eq!("99", Value::Integer(99).to_string());
    assert_eq!("100", Value::Integer(100).to_string());
    assert_eq!("205", Value::Integer(205).to_string());
    for number in 0..=255u8 {
        assert_eq!(format!("{}", number), Value::Integer(number).to_string());
    }
}
