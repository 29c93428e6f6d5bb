//! Who analyses a text, and what comes out.

use crate::domain::error::DomainError;
use crate::domain::recipe::{raw_views, substitute_views, RawIngredient, RawIngredientView};
use crate::domain::recipe::{Substitute, SubstituteView};
use vstd::prelude::*;

verus! {

/// Finds the recipe in a text.
pub trait LlmClient: Send + Sync {
    /// Analyses a text; nothing comes out if it is no recipe.
    fn analyze_recipe(&self, text: &str) -> Result<Option<AnalyzedRecipe>, DomainError>;
}

/// Reads the text in a picture.
pub trait OcrClient: Send + Sync {
    /// The text in the picture at `image_path`.
    fn extract_text(&self, image_path: &str) -> Result<String, DomainError>;
}

/// A recipe that was found in a text.
pub struct AnalyzedRecipe {
    pub title: String,
    pub ingredients: Vec<RawIngredient>,
    pub instructions: String,
    pub substitutes: Vec<Substitute>,
}

/// A found recipe as plain text.
pub struct AnalyzedRecipeView {
    pub title: Seq<char>,
    pub ingredients: Seq<RawIngredientView>,
    pub instructions: Seq<char>,
    pub substitutes: Seq<SubstituteView>,
}

impl View for AnalyzedRecipe {
    type V = AnalyzedRecipeView;

    open spec fn view(&self) -> AnalyzedRecipeView {
        AnalyzedRecipeView {
            title: self.title@,
            ingredients: raw_views(self.ingredients@),
            instructions: self.instructions@,
            substitutes: substitute_views(self.substitutes@),
        }
    }
}

/// What an analysis found, as plain text.
pub open spec fn found(o: Option<AnalyzedRecipe>) -> Option<AnalyzedRecipeView> {
    match o {
        Some(a) => Some(a@),
        None => None,
    }
}

/// A found recipe is seen whole.
pub proof fn law_a_found_recipe_is_seen_whole(a: AnalyzedRecipe)
    ensures
        a@.title == a.title@ && a@.instructions == a.instructions@,
        a@.ingredients.len() == a.ingredients@.len(),
        forall|i: int|
            0 <= i < a.ingredients@.len() ==> #[trigger] a@.ingredients[i] == a.ingredients@[i]@,
        a@.substitutes.len() == a.substitutes@.len(),
        forall|i: int|
            0 <= i < a.substitutes@.len() ==> #[trigger] a@.substitutes[i] == a.substitutes@[i]@,
        found(Some(a)) == Some(a@),
        found(None) is None,
{
}

} // verus!
