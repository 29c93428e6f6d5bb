//! Recipes, their ingredients and how two copies are merged.

pub mod error;
pub mod ingredient;
pub mod merge;
pub mod recipe;
