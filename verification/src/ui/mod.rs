//! What the user sees, and what happens when something is pressed.

pub mod app_state;
pub mod import;
pub mod models;
pub mod search;
