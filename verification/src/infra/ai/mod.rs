//! Turning free text into recipes.

pub mod amount;
pub mod client;
pub mod format;
pub mod json_text;
pub mod lines;
pub mod mock;
pub mod ollama;

pub use client::{AnalyzedRecipe, LlmClient, OcrClient};
pub use format::format_recipe_text;
pub use lines::preprocess_text;
pub use mock::{MockLlm, MockOcr};
pub use ollama::OllamaLlm;
