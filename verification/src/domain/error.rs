//! What can go wrong.

use vstd::prelude::*;

verus! {

#[derive(Debug)]
pub enum DomainError {
    RecipeNotFound(String),
    InvalidIngredient(String),
    ParseError(String),
    SyncError(String),
    AiError(String),
}

impl DomainError {
    /// The words that come before the detail.
    pub open spec fn heading(&self) -> Seq<char> {
        match self {
            DomainError::RecipeNotFound(_) => "Recipe not found: "@,
            DomainError::InvalidIngredient(_) => "Invalid ingredient data: "@,
            DomainError::ParseError(_) => "Parse error: "@,
            DomainError::SyncError(_) => "Sync error: "@,
            DomainError::AiError(_) => "AI processing error: "@,
        }
    }

    /// What the error is about.
    pub open spec fn detail(&self) -> Seq<char> {
        match self {
            DomainError::RecipeNotFound(d) => d@,
            DomainError::InvalidIngredient(d) => d@,
            DomainError::ParseError(d) => d@,
            DomainError::SyncError(d) => d@,
            DomainError::AiError(d) => d@,
        }
    }

    /// What the error is about, without the words that come before it.
    pub fn into_detail(self) -> (r: String)
        ensures
            r@ == self.detail(),
    {
        match self {
            DomainError::RecipeNotFound(d) => d,
            DomainError::InvalidIngredient(d) => d,
            DomainError::ParseError(d) => d,
            DomainError::SyncError(d) => d,
            DomainError::AiError(d) => d,
        }
    }

    /// The error as one line for the user.
    pub fn message(&self) -> (r: String)
        ensures
            r@ == self.heading() + self.detail(),
    {
        match self {
            DomainError::RecipeNotFound(d) => "Recipe not found: ".to_owned().concat(d.as_str()),
            DomainError::InvalidIngredient(d) => "Invalid ingredient data: ".to_owned().concat(
                d.as_str(),
            ),
            DomainError::ParseError(d) => "Parse error: ".to_owned().concat(d.as_str()),
            DomainError::SyncError(d) => "Sync error: ".to_owned().concat(d.as_str()),
            DomainError::AiError(d) => "AI processing error: ".to_owned().concat(d.as_str()),
        }
    }
}

/// Each error is about what it was made with, all of it, and its heading tells which error it is.
pub proof fn law_errors_are_about_what_they_were_made_with(d: String)
    ensures
        DomainError::RecipeNotFound(d).detail() == d@,
        DomainError::InvalidIngredient(d).detail() == d@,
        DomainError::ParseError(d).detail() == d@,
        DomainError::SyncError(d).detail() == d@,
        DomainError::AiError(d).detail() == d@,
        DomainError::RecipeNotFound(d).heading() == "Recipe not found: "@,
        DomainError::InvalidIngredient(d).heading() == "Invalid ingredient data: "@,
        DomainError::ParseError(d).heading() == "Parse error: "@,
        DomainError::SyncError(d).heading() == "Sync error: "@,
        DomainError::AiError(d).heading() == "AI processing error: "@,
{
}

} // verus!
