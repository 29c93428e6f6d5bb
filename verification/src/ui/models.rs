//! Recipes, ingredients and models as they are shown.

use crate::domain::ingredient::{Ingredient, IngredientView};
use crate::domain::recipe::{ingredient_views, substitute_views, Recipe, RecipeView};
use crate::domain::recipe::{Substitute, SubstituteView};
use crate::infra::db::database::recipe_views;
use crate::infra::model_manager::{available_models, format_model_size, known_models, model_size};
use crate::infra::model_manager::{model_views, ModelInfo, ModelInfoView};
use crate::text::{join, joined, lemma_texts_push, texts};
use vstd::prelude::*;

verus! {

// ---------------------------------------------------------------------------
// Recipes
// ---------------------------------------------------------------------------

/// A recipe as it is shown.
#[derive(Debug)]
pub struct RecipeModel {
    pub id: String,
    pub title: String,
    pub source_url: String,
    pub instructions: String,
    pub substitutes_json: String,
    pub ingredient_names: String,
    pub ingredient_count: i32,
}

/// A shown recipe as plain values.
pub struct RecipeModelView {
    pub id: Seq<char>,
    pub title: Seq<char>,
    pub source_url: Seq<char>,
    pub instructions: Seq<char>,
    pub substitutes_json: Seq<char>,
    pub ingredient_names: Seq<char>,
    pub ingredient_count: i32,
}

impl View for RecipeModel {
    type V = RecipeModelView;

    open spec fn view(&self) -> RecipeModelView {
        RecipeModelView {
            id: self.id@,
            title: self.title@,
            source_url: self.source_url@,
            instructions: self.instructions@,
            substitutes_json: self.substitutes_json@,
            ingredient_names: self.ingredient_names@,
            ingredient_count: self.ingredient_count,
        }
    }
}

/// The shown recipes of a list as plain values.
pub open spec fn recipe_model_views(v: Seq<RecipeModel>) -> Seq<RecipeModelView> {
    v.map_values(|m: RecipeModel| m@)
}

/// How many ingredients a recipe in a list names.
pub const NAMED_INGREDIENTS: usize = 4;

/// A text, or an empty one if there is none.
pub open spec fn text_or_empty(o: Option<Seq<char>>) -> Seq<char> {
    match o {
        Some(t) => t,
        None => Seq::empty(),
    }
}

/// The names of the first ingredients, at most as many as are shown.
pub open spec fn first_names(ings: Seq<IngredientView>) -> Seq<Seq<char>> {
    let n = if ings.len() < NAMED_INGREDIENTS {
        ings.len() as int
    } else {
        NAMED_INGREDIENTS as int
    };
    ings.take(n).map_values(|i: IngredientView| i.name)
}

/// The ingredients of a recipe in one line.
pub open spec fn names_line(ings: Seq<IngredientView>) -> Seq<char> {
    if ings.len() == 0 {
        "食材なし"@
    } else {
        joined(first_names(ings), ", "@)
    }
}

/// How a recipe is shown.
pub open spec fn recipe_model(r: RecipeView) -> RecipeModelView {
    RecipeModelView {
        id: r.id,
        title: r.title,
        source_url: text_or_empty(r.source_url),
        instructions: r.instructions,
        substitutes_json: text_or_empty(r.substitutes_json),
        ingredient_names: names_line(r.ingredients),
        ingredient_count: r.ingredients.len() as i32,
    }
}

fn copy_or_empty(o: &Option<String>) -> (r: String)
    ensures
        r@ == text_or_empty(crate::domain::recipe::opt_text(*o)),
{
    match o {
        Some(t) => t.clone(),
        None => String::new(),
    }
}

fn first_names_of(ings: &Vec<Ingredient>) -> (r: Vec<String>)
    ensures
        texts(r@) == first_names(ingredient_views(ings@)),
{
    let ghost all = first_names(ingredient_views(ings@));
    let mut names: Vec<String> = Vec::new();
    let mut i: usize = 0;
    assert(texts(names@) =~= all.take(0));
    while i < ings.len() && i < NAMED_INGREDIENTS
        invariant
            i <= ings@.len(),
            i <= NAMED_INGREDIENTS,
            all == first_names(ingredient_views(ings@)),
            texts(names@) == all.take(i as int),
        decreases ings@.len() - i,
    {
        let name = ings[i].name.clone();
        proof {
            lemma_texts_push(names@, name);
            assert(all[i as int] == name@);
            assert(all.take(i + 1) =~= all.take(i as int).push(name@));
        }
        names.push(name);
        i += 1;
    }
    assert(all.take(i as int) =~= all);
    names
}

/// How a recipe is shown.
pub fn to_recipe_model(recipe: &Recipe) -> (r: RecipeModel)
    ensures
        r@ == recipe_model(recipe@),
{
    let names = first_names_of(&recipe.ingredients);
    let ingredient_names = if recipe.ingredients.is_empty() {
        "食材なし".to_owned()
    } else {
        join(&names, ", ")
    };
    RecipeModel {
        id: recipe.id.clone(),
        title: recipe.title.clone(),
        source_url: copy_or_empty(&recipe.source_url),
        instructions: recipe.instructions.clone(),
        substitutes_json: copy_or_empty(&recipe.substitutes_json),
        ingredient_names,
        ingredient_count: recipe.ingredients.len() as i32,
    }
}

/// How the recipes of a list are shown.
pub open spec fn recipe_models(rs: Seq<RecipeView>) -> Seq<RecipeModelView> {
    rs.map_values(|r: RecipeView| recipe_model(r))
}

/// How the recipes of a list are shown.
pub fn to_recipe_models(recipes: &Vec<Recipe>) -> (r: Vec<RecipeModel>)
    ensures
        recipe_model_views(r@) == recipe_models(recipe_views(recipes@)),
{
    let ghost all = recipe_models(recipe_views(recipes@));
    let mut out: Vec<RecipeModel> = Vec::new();
    let mut i: usize = 0;
    assert(recipe_model_views(out@) =~= all.take(0));
    while i < recipes.len()
        invariant
            i <= recipes@.len(),
            all == recipe_models(recipe_views(recipes@)),
            recipe_model_views(out@) == all.take(i as int),
        decreases recipes@.len() - i,
    {
        let one = to_recipe_model(&recipes[i]);
        proof {
            assert(recipe_model_views(out@.push(one)) =~= recipe_model_views(out@).push(one@));
            assert(all.take(i + 1) =~= all.take(i as int).push(one@));
        }
        out.push(one);
        i += 1;
    }
    assert(all.take(recipes@.len() as int) =~= all);
    out
}

// ---------------------------------------------------------------------------
// Ingredients
// ---------------------------------------------------------------------------

/// An ingredient as it is shown.
#[derive(Debug)]
pub struct IngredientModel {
    pub recipe_id: String,
    pub name: String,
    pub amount: String,
    pub unit: String,
}

/// A shown ingredient as plain text.
pub struct IngredientModelView {
    pub recipe_id: Seq<char>,
    pub name: Seq<char>,
    pub amount: Seq<char>,
    pub unit: Seq<char>,
}

impl View for IngredientModel {
    type V = IngredientModelView;

    open spec fn view(&self) -> IngredientModelView {
        IngredientModelView {
            recipe_id: self.recipe_id@,
            name: self.name@,
            amount: self.amount@,
            unit: self.unit@,
        }
    }
}

/// The shown ingredients of a list as plain text.
pub open spec fn ingredient_model_views(v: Seq<IngredientModel>) -> Seq<IngredientModelView> {
    v.map_values(|m: IngredientModel| m@)
}

/// How the ingredients of a list are shown.
pub open spec fn ingredient_models(ings: Seq<IngredientView>) -> Seq<IngredientModelView> {
    ings.map_values(
        |i: IngredientView|
            IngredientModelView {
                recipe_id: i.recipe_id,
                name: i.name,
                amount: i.amount,
                unit: i.unit,
            },
    )
}

/// How the ingredients of a list are shown.
pub fn to_ingredient_models(ingredients: &Vec<Ingredient>) -> (r: Vec<IngredientModel>)
    ensures
        ingredient_model_views(r@) == ingredient_models(ingredient_views(ingredients@)),
{
    let ghost all = ingredient_models(ingredient_views(ingredients@));
    let mut out: Vec<IngredientModel> = Vec::new();
    let mut i: usize = 0;
    assert(ingredient_model_views(out@) =~= all.take(0));
    while i < ingredients.len()
        invariant
            i <= ingredients@.len(),
            all == ingredient_models(ingredient_views(ingredients@)),
            ingredient_model_views(out@) == all.take(i as int),
        decreases ingredients@.len() - i,
    {
        let one = IngredientModel {
            recipe_id: ingredients[i].recipe_id.clone(),
            name: ingredients[i].name.clone(),
            amount: ingredients[i].amount.clone(),
            unit: ingredients[i].unit.clone(),
        };
        proof {
            assert(ingredient_model_views(out@.push(one)) =~= ingredient_model_views(out@).push(
                one@,
            ));
            assert(all.take(i + 1) =~= all.take(i as int).push(one@));
        }
        out.push(one);
        i += 1;
    }
    assert(all.take(ingredients@.len() as int) =~= all);
    out
}

// ---------------------------------------------------------------------------
// Substitutes
// ---------------------------------------------------------------------------

/// A substitute as it is shown.
#[derive(Debug)]
pub struct SubstituteModel {
    pub ingredient: String,
    pub alternatives: String,
    pub note: String,
}

/// A shown substitute as plain text.
pub struct SubstituteModelView {
    pub ingredient: Seq<char>,
    pub alternatives: Seq<char>,
    pub note: Seq<char>,
}

impl View for SubstituteModel {
    type V = SubstituteModelView;

    open spec fn view(&self) -> SubstituteModelView {
        SubstituteModelView {
            ingredient: self.ingredient@,
            alternatives: self.alternatives@,
            note: self.note@,
        }
    }
}

/// The shown substitutes of a list as plain text.
pub open spec fn substitute_model_views(v: Seq<SubstituteModel>) -> Seq<SubstituteModelView> {
    v.map_values(|m: SubstituteModel| m@)
}

/// How the substitutes of a list are shown: the alternatives of each in one line.
pub open spec fn substitute_models(subs: Seq<SubstituteView>) -> Seq<SubstituteModelView> {
    subs.map_values(
        |s: SubstituteView|
            SubstituteModelView {
                ingredient: s.ingredient,
                alternatives: joined(s.alternatives, ", "@),
                note: text_or_empty(s.note),
            },
    )
}

/// How the substitutes of a list are shown.
pub fn to_substitute_models(subs: &Vec<Substitute>) -> (r: Vec<SubstituteModel>)
    ensures
        substitute_model_views(r@) == substitute_models(substitute_views(subs@)),
{
    let ghost all = substitute_models(substitute_views(subs@));
    let mut out: Vec<SubstituteModel> = Vec::new();
    let mut i: usize = 0;
    assert(substitute_model_views(out@) =~= all.take(0));
    while i < subs.len()
        invariant
            i <= subs@.len(),
            all == substitute_models(substitute_views(subs@)),
            substitute_model_views(out@) == all.take(i as int),
        decreases subs@.len() - i,
    {
        let one = SubstituteModel {
            ingredient: subs[i].ingredient.clone(),
            alternatives: join(&subs[i].alternatives, ", "),
            note: copy_or_empty(&subs[i].note),
        };
        proof {
            assert(substitute_views(subs@)[i as int] == subs@[i as int]@);
            assert(substitute_model_views(out@.push(one)) =~= substitute_model_views(out@).push(
                one@,
            ));
            assert(all.take(i + 1) =~= all.take(i as int).push(one@));
        }
        out.push(one);
        i += 1;
    }
    assert(all.take(subs@.len() as int) =~= all);
    out
}

// ---------------------------------------------------------------------------
// Language models
// ---------------------------------------------------------------------------

/// A language model as it is offered.
#[derive(Debug)]
pub struct ModelOptionModel {
    pub id: String,
    pub name: String,
    pub description: String,
    pub size_text: String,
    pub speed: String,
    pub accuracy: String,
    pub recommended: bool,
}

/// An offered model as plain values.
pub struct ModelOptionView {
    pub id: Seq<char>,
    pub name: Seq<char>,
    pub description: Seq<char>,
    pub size_text: Seq<char>,
    pub speed: Seq<char>,
    pub accuracy: Seq<char>,
    pub recommended: bool,
}

impl View for ModelOptionModel {
    type V = ModelOptionView;

    open spec fn view(&self) -> ModelOptionView {
        ModelOptionView {
            id: self.id@,
            name: self.name@,
            description: self.description@,
            size_text: self.size_text@,
            speed: self.speed@,
            accuracy: self.accuracy@,
            recommended: self.recommended,
        }
    }
}

/// The offered models of a list as plain values.
pub open spec fn model_option_views(v: Seq<ModelOptionModel>) -> Seq<ModelOptionView> {
    v.map_values(|m: ModelOptionModel| m@)
}

/// How a language model is offered.
pub open spec fn model_option(m: ModelInfoView) -> ModelOptionView {
    ModelOptionView {
        id: m.id,
        name: m.name,
        description: m.description,
        size_text: model_size(m.size_gb_tenths as nat),
        speed: m.speed_label,
        accuracy: m.accuracy_label,
        recommended: m.recommended,
    }
}

/// How a language model is offered.
pub fn to_model_option(info: &ModelInfo) -> (r: ModelOptionModel)
    ensures
        r@ == model_option(info@),
{
    ModelOptionModel {
        id: info.id.to_owned(),
        name: info.name.to_owned(),
        description: info.description.to_owned(),
        size_text: format_model_size(info.size_gb_tenths),
        speed: info.speed_label.to_owned(),
        accuracy: info.accuracy_label.to_owned(),
        recommended: info.recommended,
    }
}

/// All language models that are offered.
pub open spec fn all_model_options() -> Seq<ModelOptionView> {
    known_models().map_values(|m: ModelInfoView| model_option(m))
}

/// All language models that are offered.
pub fn model_options() -> (r: Vec<ModelOptionModel>)
    ensures
        model_option_views(r@) == all_model_options(),
{
    let models = available_models();
    let ghost all = all_model_options();
    let mut out: Vec<ModelOptionModel> = Vec::new();
    let mut i: usize = 0;
    assert(model_option_views(out@) =~= all.take(0));
    while i < models.len()
        invariant
            i <= models@.len(),
            model_views(models@) == known_models(),
            all == all_model_options(),
            model_option_views(out@) == all.take(i as int),
        decreases models@.len() - i,
    {
        let one = to_model_option(&models[i]);
        proof {
            assert(model_views(models@)[i as int] == models@[i as int]@);
            assert(model_option_views(out@.push(one)) =~= model_option_views(out@).push(one@));
            assert(all.take(i + 1) =~= all.take(i as int).push(one@));
        }
        out.push(one);
        i += 1;
    }
    assert(model_views(models@).len() == models@.len());
    assert(all.take(models@.len() as int) =~= all);
    out
}

// ---------------------------------------------------------------------------
// Laws
// ---------------------------------------------------------------------------

/// A recipe is shown as it is, with an empty text for what it does not have.
pub proof fn law_a_recipe_is_shown_as_it_is(r: RecipeView)
    ensures
        ({
            let m = recipe_model(r);
            &&& m.id == r.id && m.title == r.title && m.instructions == r.instructions
            &&& r.source_url matches Some(u) ==> m.source_url == u
            &&& r.source_url is None ==> m.source_url.len() == 0
            &&& r.substitutes_json matches Some(j) ==> m.substitutes_json == j
            &&& r.substitutes_json is None ==> m.substitutes_json.len() == 0
            &&& r.ingredients.len() <= i32::MAX ==> m.ingredient_count == r.ingredients.len()
        }),
{
}

/// A recipe names its first four ingredients and no more, each as it is called.
pub proof fn law_four_ingredients_are_named(r: RecipeView, s: RecipeView)
    ensures
        r.ingredients.len() == 0 ==> recipe_model(r).ingredient_names == "食材なし"@,
        0 < r.ingredients.len() <= 4 ==> recipe_model(r).ingredient_names == joined(
            r.ingredients.map_values(|i: IngredientView| i.name),
            ", "@,
        ),
        r.ingredients.len() == 4 && r.ingredients.is_prefix_of(s.ingredients) ==> recipe_model(
            s,
        ).ingredient_names == recipe_model(r).ingredient_names,
{
    let a = r.ingredients;
    if 0 < a.len() <= 4 {
        assert(a.take(a.len() as int) =~= a);
    }
    if a.len() == 4 && a.is_prefix_of(s.ingredients) {
        assert(s.ingredients.take(4) =~= a);
    }
}

/// Lists are shown item by item, each as it is.
pub proof fn law_lists_are_shown_item_by_item(
    rs: Seq<RecipeView>,
    ings: Seq<IngredientView>,
    subs: Seq<SubstituteView>,
)
    ensures
        recipe_models(rs).len() == rs.len(),
        forall|k: int|
            0 <= k < rs.len() ==> #[trigger] recipe_models(rs)[k] == recipe_model(rs[k]),
        ingredient_models(ings).len() == ings.len(),
        forall|k: int|
            0 <= k < ings.len() ==> {
                let m = #[trigger] ingredient_models(ings)[k];
                m.recipe_id == ings[k].recipe_id && m.name == ings[k].name && m.amount
                    == ings[k].amount && m.unit == ings[k].unit
            },
        substitute_models(subs).len() == subs.len(),
        forall|k: int|
            0 <= k < subs.len() ==> {
                let m = #[trigger] substitute_models(subs)[k];
                m.ingredient == subs[k].ingredient && m.alternatives == joined(
                    subs[k].alternatives,
                    ", "@,
                ) && (subs[k].note matches Some(n) ==> m.note == n) && (subs[k].note is None
                    ==> m.note.len() == 0)
            },
{
}

/// A language model is offered with what is known of it.
pub proof fn law_models_are_offered_as_they_are(m: ModelInfoView)
    ensures
        ({
            let o = model_option(m);
            &&& o.id == m.id && o.name == m.name && o.description == m.description
            &&& o.size_text == model_size(m.size_gb_tenths as nat)
            &&& o.speed == m.speed_label && o.accuracy == m.accuracy_label
            &&& o.recommended == m.recommended
        }),
        all_model_options().len() == known_models().len(),
        forall|k: int|
            0 <= k < known_models().len() ==> #[trigger] all_model_options()[k] == model_option(
                known_models()[k],
            ),
{
}

/// What is shown is seen whole.
pub proof fn law_what_is_shown_is_seen_whole(
    r: RecipeModel,
    i: IngredientModel,
    s: SubstituteModel,
    m: ModelOptionModel,
)
    ensures
        r@.id == r.id@ && r@.title == r.title@ && r@.source_url == r.source_url@,
        r@.instructions == r.instructions@ && r@.substitutes_json == r.substitutes_json@,
        r@.ingredient_names == r.ingredient_names@ && r@.ingredient_count == r.ingredient_count,
        i@.recipe_id == i.recipe_id@ && i@.name == i.name@ && i@.amount == i.amount@,
        i@.unit == i.unit@,
        s@.ingredient == s.ingredient@ && s@.alternatives == s.alternatives@ && s@.note == s.note@,
        m@.id == m.id@ && m@.name == m.name@ && m@.description == m.description@,
        m@.size_text == m.size_text@ && m@.speed == m.speed@ && m@.accuracy == m.accuracy@,
        m@.recommended == m.recommended,
{
}

} // verus!
