//! Recipe keeping: text analysis, storage rules and screen state.

pub mod clock;
pub mod domain;
pub mod ids;
pub mod infra;
pub mod number;
pub mod order;
pub mod paths;
pub mod text;
pub mod ui;
pub mod unicode;
