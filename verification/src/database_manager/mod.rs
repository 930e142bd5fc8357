pub mod catalog;
pub mod database;

pub use catalog::DatabaseManager;
