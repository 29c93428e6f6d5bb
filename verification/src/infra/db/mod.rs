//! The stored recipes.

pub mod database;
pub mod laws;
pub mod query;
pub mod tables;

pub use database::Database;
