pub mod bitmap_index;
pub mod catalog_fields;
pub mod codec;
pub mod column_definition;
pub mod data_type;
pub mod database;
pub mod database_definition;
pub mod database_manager;
pub mod error;
pub mod manager;
pub mod names;
pub mod page;
pub mod page_manager;
pub mod parser;
pub mod query_result;
pub mod range_set;
pub mod row_result;
pub mod table_catalog;
pub mod table_manager;
pub mod table_page;
pub mod table_schema;
pub mod table_store;
pub mod text;
pub mod tokenizer;
pub mod value;
