//! Recipes.

use crate::clock::{now_timestamp, LAST_TIMESTAMP};
use crate::domain::ingredient::{Ingredient, IngredientView};
use crate::text::texts;
use vstd::prelude::*;

verus! {

/// A recipe with its ingredients.
#[derive(Debug)]
pub struct Recipe {
    pub id: String,
    pub title: String,
    pub source_url: Option<String>,
    pub instructions: String,
    pub substitutes_json: Option<String>,
    pub updated_at: i64,
    pub is_deleted: bool,
    pub ingredients: Vec<Ingredient>,
}

/// A recipe as plain values.
pub struct RecipeView {
    pub id: Seq<char>,
    pub title: Seq<char>,
    pub source_url: Option<Seq<char>>,
    pub instructions: Seq<char>,
    pub substitutes_json: Option<Seq<char>>,
    pub updated_at: i64,
    pub is_deleted: bool,
    pub ingredients: Seq<IngredientView>,
}

/// The text that an optional string holds.
pub open spec fn opt_text(o: Option<String>) -> Option<Seq<char>> {
    match o {
        Some(s) => Some(s@),
        None => None,
    }
}

/// A copy of an optional string.
pub fn copy_opt(o: &Option<String>) -> (r: Option<String>)
    ensures
        opt_text(r) == opt_text(*o),
{
    match o {
        Some(s) => Some(s.clone()),
        None => None,
    }
}

/// The ingredients of a list as plain values.
pub open spec fn ingredient_views(v: Seq<Ingredient>) -> Seq<IngredientView> {
    v.map_values(|i: Ingredient| i@)
}

impl View for Recipe {
    type V = RecipeView;

    open spec fn view(&self) -> RecipeView {
        RecipeView {
            id: self.id@,
            title: self.title@,
            source_url: opt_text(self.source_url),
            instructions: self.instructions@,
            substitutes_json: opt_text(self.substitutes_json),
            updated_at: self.updated_at,
            is_deleted: self.is_deleted,
            ingredients: ingredient_views(self.ingredients@),
        }
    }
}

impl Clone for Recipe {
    fn clone(&self) -> (r: Self)
        ensures
            r@ == self@,
    {
        let ingredients = self.ingredients.clone();
        assert(ingredient_views(ingredients@) =~= ingredient_views(self.ingredients@));
        Recipe {
            id: self.id.clone(),
            title: self.title.clone(),
            source_url: copy_opt(&self.source_url),
            instructions: self.instructions.clone(),
            substitutes_json: copy_opt(&self.substitutes_json),
            updated_at: self.updated_at,
            is_deleted: self.is_deleted,
            ingredients,
        }
    }
}

impl RecipeView {
    /// The same recipe changed at the time `now`.
    pub open spec fn touched(self, now: i64) -> RecipeView {
        RecipeView { updated_at: now, ..self }
    }

    /// The same recipe deleted at the time `now`.
    pub open spec fn deleted(self, now: i64) -> RecipeView {
        RecipeView { is_deleted: true, updated_at: now, ..self }
    }
}

/// A recipe as it is first made: without ingredients or substitutes, and not deleted.
pub open spec fn fresh_recipe(
    id: Seq<char>,
    title: Seq<char>,
    source_url: Option<Seq<char>>,
    instructions: Seq<char>,
    now: i64,
) -> RecipeView {
    RecipeView {
        id,
        title,
        source_url,
        instructions,
        substitutes_json: None,
        updated_at: now,
        is_deleted: false,
        ingredients: Seq::empty(),
    }
}

impl Recipe {
    /// A recipe made at the time `now`.
    pub fn new_at(
        id: String,
        title: String,
        source_url: Option<String>,
        instructions: String,
        now: i64,
    ) -> (r: Self)
        ensures
            r@ == fresh_recipe(id@, title@, opt_text(source_url), instructions@, now),
    {
        let r = Recipe {
            id,
            title,
            source_url,
            instructions,
            substitutes_json: None,
            updated_at: now,
            is_deleted: false,
            ingredients: Vec::new(),
        };
        assert(r@.ingredients =~= Seq::<IngredientView>::empty());
        r
    }

    /// A recipe made now. The clock decides the time.
    pub fn new(
        id: String,
        title: String,
        source_url: Option<String>,
        instructions: String,
    ) -> (r: Self)
        ensures
            r@ == fresh_recipe(id@, title@, opt_text(source_url), instructions@, r.updated_at),
            0 <= r.updated_at <= LAST_TIMESTAMP,
    {
        let now: i64 = now_timestamp();
        Self::new_at(id, title, source_url, instructions, now)
    }

    /// Marks the recipe as changed at the time `now`.
    pub fn touch_at(&mut self, now: i64)
        ensures
            final(self)@ == old(self)@.touched(now),
    {
        self.updated_at = now;
    }

    /// Marks the recipe as changed now. The clock decides the time.
    pub fn touch(&mut self)
        ensures
            final(self)@ == old(self)@.touched(final(self).updated_at),
            0 <= final(self).updated_at <= LAST_TIMESTAMP,
    {
        let now: i64 = now_timestamp();
        self.touch_at(now);
    }

    /// Marks the recipe as deleted at the time `now`.
    pub fn soft_delete_at(&mut self, now: i64)
        ensures
            final(self)@ == old(self)@.deleted(now),
    {
        self.is_deleted = true;
        self.touch_at(now);
    }

    /// Marks the recipe as deleted now. The clock decides the time.
    pub fn soft_delete(&mut self)
        ensures
            final(self)@ == old(self)@.deleted(final(self).updated_at),
            0 <= final(self).updated_at <= LAST_TIMESTAMP,
    {
        self.is_deleted = true;
        self.touch();
    }

    /// The substitutes that the recipe suggests, where `parsed` is what `substitutes_json` reads
    /// as: nothing if it does not read as a list of substitutes.
    pub fn substitutes(&self, parsed: Option<Vec<Substitute>>) -> (r: Vec<Substitute>)
        ensures
            self.substitutes_json is Some && parsed is Some ==> r == parsed->0,
            self.substitutes_json is None || parsed is None ==> r@.len() == 0,
    {
        if self.substitutes_json.is_some() {
            match parsed {
                Some(list) => list,
                None => Vec::new(),
            }
        } else {
            Vec::new()
        }
    }
}

/// What can be used in place of an ingredient.
#[derive(Debug)]
pub struct Substitute {
    pub ingredient: String,
    pub alternatives: Vec<String>,
    pub note: Option<String>,
}

/// A substitute as plain text.
pub struct SubstituteView {
    pub ingredient: Seq<char>,
    pub alternatives: Seq<Seq<char>>,
    pub note: Option<Seq<char>>,
}

impl View for Substitute {
    type V = SubstituteView;

    open spec fn view(&self) -> SubstituteView {
        SubstituteView {
            ingredient: self.ingredient@,
            alternatives: texts(self.alternatives@),
            note: opt_text(self.note),
        }
    }
}

impl Clone for Substitute {
    fn clone(&self) -> (r: Self)
        ensures
            r@ == self@,
    {
        let alternatives = self.alternatives.clone();
        assert(texts(alternatives@) =~= texts(self.alternatives@));
        Substitute {
            ingredient: self.ingredient.clone(),
            alternatives,
            note: copy_opt(&self.note),
        }
    }
}

/// The substitutes of a list as plain text.
pub open spec fn substitute_views(v: Seq<Substitute>) -> Seq<SubstituteView> {
    v.map_values(|s: Substitute| s@)
}

/// An ingredient as an analysis gives it.
#[derive(Debug)]
pub struct RawIngredient {
    pub name: String,
    pub amount: String,
    pub unit: String,
}

/// A raw ingredient as plain text.
pub struct RawIngredientView {
    pub name: Seq<char>,
    pub amount: Seq<char>,
    pub unit: Seq<char>,
}

impl View for RawIngredient {
    type V = RawIngredientView;

    open spec fn view(&self) -> RawIngredientView {
        RawIngredientView { name: self.name@, amount: self.amount@, unit: self.unit@ }
    }
}

impl Clone for RawIngredient {
    fn clone(&self) -> (r: Self)
        ensures
            r@ == self@,
    {
        RawIngredient {
            name: self.name.clone(),
            amount: self.amount.clone(),
            unit: self.unit.clone(),
        }
    }
}

/// The raw ingredients of a list as plain text.
pub open spec fn raw_views(v: Seq<RawIngredient>) -> Seq<RawIngredientView> {
    v.map_values(|i: RawIngredient| i@)
}

/// A recipe as an analysis gives it, before it is stored.
#[derive(Debug)]
pub struct RawRecipe {
    pub title: String,
    pub ingredients: Vec<RawIngredient>,
    pub instructions: String,
}

/// A raw recipe as plain text.
pub struct RawRecipeView {
    pub title: Seq<char>,
    pub ingredients: Seq<RawIngredientView>,
    pub instructions: Seq<char>,
}

impl View for RawRecipe {
    type V = RawRecipeView;

    open spec fn view(&self) -> RawRecipeView {
        RawRecipeView {
            title: self.title@,
            ingredients: raw_views(self.ingredients@),
            instructions: self.instructions@,
        }
    }
}

impl Clone for RawRecipe {
    fn clone(&self) -> (r: Self)
        ensures
            r@ == self@,
    {
        let ingredients = self.ingredients.clone();
        assert(raw_views(ingredients@) =~= raw_views(self.ingredients@));
        RawRecipe {
            title: self.title.clone(),
            ingredients,
            instructions: self.instructions.clone(),
        }
    }
}

/// A change keeps all of a recipe but the time, and a deletion all but the time and the mark.
pub proof fn law_changes_keep_the_rest(r: RecipeView, now: i64, later: i64)
    ensures
        r.touched(now).updated_at == now,
        r.touched(now).touched(r.updated_at) == r,
        r.deleted(now).updated_at == now,
        r.deleted(now).is_deleted,
        !r.is_deleted ==> (RecipeView { is_deleted: false, ..r.deleted(now) }).touched(r.updated_at)
            == r,
        r.deleted(now).deleted(later) == r.deleted(later),
{
}

/// A new recipe has what it was made of, and nothing else.
pub proof fn law_a_new_recipe_has_what_it_was_made_of(
    id: Seq<char>,
    title: Seq<char>,
    source_url: Option<Seq<char>>,
    instructions: Seq<char>,
    now: i64,
)
    ensures
        ({
            let r = fresh_recipe(id, title, source_url, instructions, now);
            &&& r.id == id && r.title == title && r.source_url == source_url
            &&& r.instructions == instructions && r.updated_at == now
            &&& !r.is_deleted && r.substitutes_json is None && r.ingredients.len() == 0
        }),
{
}

/// A recipe is seen whole: each text, time and mark as it is, and each ingredient in its place.
pub proof fn law_a_recipe_is_seen_whole(r: Recipe)
    ensures
        r@.id == r.id@ && r@.title == r.title@ && r@.instructions == r.instructions@,
        r@.source_url is Some <==> r.source_url is Some,
        r.source_url matches Some(u) ==> r@.source_url == Some(u@),
        r@.substitutes_json is Some <==> r.substitutes_json is Some,
        r.substitutes_json matches Some(j) ==> r@.substitutes_json == Some(j@),
        r@.updated_at == r.updated_at && r@.is_deleted == r.is_deleted,
        r@.ingredients.len() == r.ingredients@.len(),
        forall|i: int|
            0 <= i < r.ingredients@.len() ==> #[trigger] r@.ingredients[i] == r.ingredients@[i]@,
{
}

/// What an analysis gives is seen whole too.
pub proof fn law_what_was_analysed_is_seen_whole(i: RawIngredient, s: Substitute, r: RawRecipe)
    ensures
        i@.name == i.name@ && i@.amount == i.amount@ && i@.unit == i.unit@,
        s@.ingredient == s.ingredient@,
        s@.alternatives.len() == s.alternatives@.len(),
        forall|k: int|
            0 <= k < s.alternatives@.len() ==> #[trigger] s@.alternatives[k] == s.alternatives@[k]@,
        s@.note is Some <==> s.note is Some,
        s.note matches Some(n) ==> s@.note == Some(n@),
        r@.title == r.title@ && r@.instructions == r.instructions@,
        r@.ingredients.len() == r.ingredients@.len(),
        forall|k: int|
            0 <= k < r.ingredients@.len() ==> #[trigger] r@.ingredients[k] == r.ingredients@[k]@,
{
}

} // verus!
