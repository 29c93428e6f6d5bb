//! Adding a recipe that was found in a text.

use crate::clock::{now_timestamp, LAST_TIMESTAMP};
use crate::domain::error::DomainError;
use crate::domain::ingredient::{normalized, Ingredient, IngredientView};
use crate::domain::recipe::{fresh_recipe, ingredient_views, opt_text, raw_views};
use crate::domain::recipe::{RawIngredient, RawIngredientView, Recipe, RecipeView, Substitute};
use crate::ids::{fresh_id, is_random_uuid};
use crate::infra::ai::client::{AnalyzedRecipe, AnalyzedRecipeView, LlmClient};
use crate::infra::db::database::Database;
use crate::infra::db::laws::{coherent, law_own_ingredients_are_accepted};
use crate::infra::db::laws::{law_stored_recipe_is_read_back, law_storing_leaves_other_recipes};
use crate::infra::db::tables::{lookup, same_key, taken, unique_keys, Tables};
use vstd::prelude::*;

verus! {

/// The ingredients that were found, as ingredients of the recipe `id`.
pub open spec fn ingredients_of(id: Seq<char>, found: Seq<RawIngredientView>) -> Seq<
    IngredientView,
> {
    found.map_values(
        |i: RawIngredientView|
            IngredientView {
                recipe_id: id,
                name: i.name,
                amount: i.amount,
                unit: i.unit,
                normalized_name: normalized(i.name),
            },
    )
}

/// The recipe that is stored for what was found, where `encoded` is the list of substitutes as
/// it is stored.
pub open spec fn imported(
    id: Seq<char>,
    found: AnalyzedRecipeView,
    source_url: Option<Seq<char>>,
    encoded: Option<Seq<char>>,
    now: i64,
) -> RecipeView {
    RecipeView {
        substitutes_json: if found.substitutes.len() == 0 {
            None
        } else {
            encoded
        },
        ingredients: ingredients_of(id, found.ingredients),
        ..fresh_recipe(id, found.title, source_url, found.instructions, now)
    }
}

/// The error of a text in which there is no recipe.
pub open spec fn is_no_recipe_error(e: DomainError) -> bool {
    e is AiError && e.detail()
        == "レシピとして認識できませんでした。別のテキストをお試しください。"@
}

fn ingredients_for(id: &String, found: &Vec<RawIngredient>) -> (r: Vec<Ingredient>)
    ensures
        ingredient_views(r@) == ingredients_of(id@, raw_views(found@)),
{
    let ghost all = ingredients_of(id@, raw_views(found@));
    let mut out: Vec<Ingredient> = Vec::new();
    let mut i: usize = 0;
    assert(ingredient_views(out@) =~= all.take(0));
    while i < found.len()
        invariant
            i <= found@.len(),
            all == ingredients_of(id@, raw_views(found@)),
            ingredient_views(out@) == all.take(i as int),
        decreases found@.len() - i,
    {
        let one = Ingredient::new(
            id.clone(),
            found[i].name.clone(),
            found[i].amount.clone(),
            found[i].unit.clone(),
        );
        proof {
            assert(raw_views(found@)[i as int] == found@[i as int]@);
            assert(ingredient_views(out@.push(one)) =~= ingredient_views(out@).push(one@));
            assert(all.take(i + 1) =~= all.take(i as int).push(one@));
        }
        out.push(one);
        i += 1;
    }
    assert(all.take(found@.len() as int) =~= all);
    out
}

/// The recipe that is stored for what was found.
pub fn build_recipe(
    id: String,
    analyzed: AnalyzedRecipe,
    source_url: Option<String>,
    encoded: Option<String>,
    now: i64,
) -> (r: Recipe)
    ensures
        r@ == imported(id@, analyzed@, opt_text(source_url), opt_text(encoded), now),
{
    let ingredients = ingredients_for(&id, &analyzed.ingredients);
    let mut recipe = Recipe::new_at(id, analyzed.title, source_url, analyzed.instructions, now);
    if !analyzed.substitutes.is_empty() {
        recipe.substitutes_json = encoded;
    }
    recipe.ingredients = ingredients;
    recipe
}

/// Stores what was found as the recipe `id`, made at the time `now`.
pub fn store_analyzed_at(
    db: &mut Database,
    id: String,
    analyzed: AnalyzedRecipe,
    source_url: Option<String>,
    encoded: Option<String>,
    now: i64,
) -> (r: Result<(), DomainError>)
    requires
        old(db)@.wf(),
    ensures
        final(db)@.wf(),
        final(db)@ == old(db)@.with_recipe(
            imported(id@, analyzed@, opt_text(source_url), opt_text(encoded), now),
        ),
        r is Ok,
{
    let recipe = build_recipe(id, analyzed, source_url, encoded, now);
    proof {
        law_own_ingredients_are_accepted(db@, recipe@);
    }
    db.upsert_recipe(&recipe)
}

/// What an analysis found; a text in which there is no recipe is an error, and so is an analysis
/// that failed.
pub fn recognized(outcome: Result<Option<AnalyzedRecipe>, DomainError>) -> (r: Result<
    AnalyzedRecipe,
    DomainError,
>)
    ensures
        match outcome {
            Ok(Some(a)) => r == Ok::<AnalyzedRecipe, DomainError>(a),
            Ok(None) => r is Err && is_no_recipe_error(r->Err_0),
            Err(e) => r == Err::<AnalyzedRecipe, DomainError>(e),
        },
{
    match outcome {
        Ok(Some(a)) => Ok(a),
        Ok(None) => Err(
            DomainError::AiError(
                "レシピとして認識できませんでした。別のテキストをお試しください。".to_owned(),
            ),
        ),
        Err(e) => Err(e),
    }
}

/// Whether `after` is what is stored once what was found was stored under a fresh id, with the
/// time that it was then.
pub open spec fn import_of(
    before: Tables,
    after: Tables,
    found: AnalyzedRecipeView,
    source_url: Option<Seq<char>>,
    encoded: Option<Seq<char>>,
) -> bool {
    exists|id: Seq<char>, now: i64|
        is_random_uuid(id) && 0 <= now <= LAST_TIMESTAMP && after == before.with_recipe(
            #[trigger] imported(id, found, source_url, encoded, now),
        )
}

/// Stores what was found, under a fresh id and with the time that it is. Chance decides the id
/// and the clock the time.
pub fn store_analyzed(
    db: &mut Database,
    analyzed: AnalyzedRecipe,
    source_url: Option<String>,
    encoded: Option<String>,
) -> (r: Result<(), DomainError>)
    requires
        old(db)@.wf(),
    ensures
        final(db)@.wf(),
        r is Ok,
        import_of(old(db)@, final(db)@, analyzed@, opt_text(source_url), opt_text(encoded)),
{
    let id = fresh_id();
    let now: i64 = now_timestamp();
    let ghost one = imported(id@, analyzed@, opt_text(source_url), opt_text(encoded), now);
    let r = store_analyzed_at(db, id, analyzed, source_url, encoded, now);
    assert(db@ == old(db)@.with_recipe(one));
    r
}

/// Has a text analysed and stores the recipe that was found, under a fresh id. `encode` turns a
/// list of substitutes into the text that is stored for it. The analysis decides whether there is
/// a recipe in the text; where there is none, or the analysis fails, nothing is stored.
pub fn import_analyzed<C: LlmClient, E: Fn(&Vec<Substitute>) -> Option<String>>(
    text: &str,
    source_url: Option<String>,
    db: &mut Database,
    llm: &C,
    encode: &E,
) -> (r: Result<(), DomainError>)
    requires
        old(db)@.wf(),
        forall|s: &Vec<Substitute>| #[trigger] call_requires(*encode, (s,)),
    ensures
        final(db)@.wf(),
        exists|out: Result<Option<AnalyzedRecipe>, DomainError>| #[trigger]
            call_ensures(C::analyze_recipe, (llm, text), out) && match out {
                Ok(Some(a)) => r is Ok && exists|s: Option<String>|
                    call_ensures(*encode, (&a.substitutes,), s) && #[trigger] import_of(
                        old(db)@,
                        final(db)@,
                        a@,
                        opt_text(source_url),
                        opt_text(s),
                    ),
                Ok(None) => r is Err && is_no_recipe_error(r->Err_0) && final(db)@ == old(db)@,
                Err(e) => r == Err::<(), DomainError>(e) && final(db)@ == old(db)@,
            },
{
    let outcome = llm.analyze_recipe(text);
    let ghost out = outcome;
    assert(call_ensures(C::analyze_recipe, (llm, text), out));
    let analyzed = match recognized(outcome) {
        Ok(a) => a,
        Err(e) => {
            return Err(e);
        },
    };
    let encoded = encode(&analyzed.substitutes);
    store_analyzed(db, analyzed, source_url, encoded)
}

/// A recipe that was imported under an id that was not in use is then found as it was imported,
/// if no ingredient was named twice.
pub proof fn law_imported_recipe_is_read_back(
    t: Tables,
    id: Seq<char>,
    found: AnalyzedRecipeView,
    source_url: Option<Seq<char>>,
    encoded: Option<Seq<char>>,
    now: i64,
)
    requires
        t.wf(),
        lookup(t.recipes, id) is None,
        forall|i: int, j: int|
            0 <= i < j < found.ingredients.len() ==> (#[trigger] found.ingredients[i]).name != (
            #[trigger] found.ingredients[j]).name,
    ensures
        t.with_recipe(imported(id, found, source_url, encoded, now)).get(id) == Some(
            imported(id, found, source_url, encoded, now),
        ),
{
    let recipe = imported(id, found, source_url, encoded, now);
    assert(unique_keys(recipe.ingredients)) by {
        assert forall|i: int, j: int| 0 <= i < j < recipe.ingredients.len() implies !same_key(
            #[trigger] recipe.ingredients[i],
            #[trigger] recipe.ingredients[j],
        ) by {
            assert(found.ingredients[i].name != found.ingredients[j].name);
        }
    }
    assert(coherent(recipe));
    assert(taken(t.recipes, recipe.row()));
    law_stored_recipe_is_read_back(t, recipe);
}

/// Importing a recipe leaves the recipes with other ids as they were.
pub proof fn law_import_leaves_other_recipes(
    t: Tables,
    id: Seq<char>,
    found: AnalyzedRecipeView,
    source_url: Option<Seq<char>>,
    encoded: Option<Seq<char>>,
    now: i64,
    other: Seq<char>,
)
    requires
        t.wf(),
        other != id,
    ensures
        t.with_recipe(imported(id, found, source_url, encoded, now)).get(other) == t.get(other),
{
    law_storing_leaves_other_recipes(
        t,
        imported(id, found, source_url, encoded, now),
        other,
    );
}

/// What is stored of each ingredient is what was found of it: as many ingredients in the same
/// order, each with its name, its amount and its unit as they were found, whatever they are.
pub proof fn law_what_was_found_is_what_is_stored(
    id: Seq<char>,
    found: AnalyzedRecipeView,
    source_url: Option<Seq<char>>,
    encoded: Option<Seq<char>>,
    now: i64,
)
    ensures
        ({
            let r = imported(id, found, source_url, encoded, now);
            &&& r.id == id && r.title == found.title && r.instructions == found.instructions
            &&& r.source_url == source_url && r.updated_at == now && !r.is_deleted
            &&& found.substitutes.len() > 0 ==> r.substitutes_json == encoded
            &&& found.substitutes.len() == 0 ==> r.substitutes_json is None
            &&& r.ingredients.len() == found.ingredients.len()
            &&& forall|i: int|
                0 <= i < found.ingredients.len() ==> {
                    let x = #[trigger] r.ingredients[i];
                    &&& x.recipe_id == id
                    &&& x.name == found.ingredients[i].name
                    &&& x.amount == found.ingredients[i].amount
                    &&& x.unit == found.ingredients[i].unit
                    &&& x.normalized_name == normalized(found.ingredients[i].name)
                }
        }),
{
}

/// What was found can be read back once it was stored under an id that was not in use: the texts,
/// the address, and the ingredients with their names, amounts and units.
pub proof fn law_what_was_found_can_be_read(
    t: Tables,
    id: Seq<char>,
    found: AnalyzedRecipeView,
    source_url: Option<Seq<char>>,
    encoded: Option<Seq<char>>,
    now: i64,
)
    requires
        t.wf(),
        lookup(t.recipes, id) is None,
        forall|i: int, j: int|
            0 <= i < j < found.ingredients.len() ==> (#[trigger] found.ingredients[i]).name != (
            #[trigger] found.ingredients[j]).name,
    ensures
        ({
            let after = t.with_recipe(imported(id, found, source_url, encoded, now));
            let r = after.get(id)->0;
            &&& after.get(id) is Some
            &&& r.title == found.title && r.instructions == found.instructions
            &&& r.source_url == source_url && r.updated_at == now
            &&& r.ingredients.len() == found.ingredients.len()
            &&& forall|i: int|
                0 <= i < found.ingredients.len() ==> {
                    let x = #[trigger] r.ingredients[i];
                    x.name == found.ingredients[i].name && x.amount == found.ingredients[i].amount
                        && x.unit == found.ingredients[i].unit
                }
        }),
{
    law_imported_recipe_is_read_back(t, id, found, source_url, encoded, now);
    law_what_was_found_is_what_is_stored(id, found, source_url, encoded, now);
}

} // verus!
