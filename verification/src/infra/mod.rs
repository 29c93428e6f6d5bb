//! Analysis, storage and synchronisation.

pub mod ai;
pub mod db;
pub mod json;
pub mod model_manager;
pub mod scraper;
pub mod sync;
