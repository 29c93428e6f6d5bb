//! The stored recipes, held in memory while they are read and changed.

use crate::clock::{now_timestamp, LAST_TIMESTAMP};
use crate::domain::error::DomainError;
use crate::domain::ingredient::{Ingredient, IngredientView};
use crate::domain::merge::{validate_sync, MergePolicy, MergeReport};
use crate::domain::recipe::{copy_opt, ingredient_views, Recipe, RecipeView};
use crate::infra::db::query::{by_normalized_name, live, live_hit, newest_first};
use crate::infra::db::tables::{deleted_rows, has_recipe, inserted, lemma_filter_unique};
use crate::infra::db::tables::{lemma_inserted_unique, lemma_merged_rows_unique};
use crate::infra::db::tables::{lemma_merged_unique, lemma_position};
use crate::infra::db::tables::{lemma_position_at, lemma_storable, lemma_upserted_unique};
use crate::infra::db::tables::{merged_rows, not_part_of, other_than, part_of, position};
use crate::infra::db::tables::{replaced, same_key, storable, taken, unique_ids, unique_keys};
use crate::infra::db::tables::{upserted, RecipeRow, RowView, Tables};
use crate::number::{parse_signed, signed_decimal, signed_text};
use crate::order::{in_order, lemma_put_in_order, put_in_order, text_before};
use crate::text::{double_char, doubled, lemma_filter_take, same_text, texts, trim};
use vstd::prelude::*;

verus! {

/// The rows of a list as plain values.
pub open spec fn row_views(v: Seq<RecipeRow>) -> Seq<RowView> {
    v.map_values(|r: RecipeRow| r@)
}

/// The recipes of a list as plain values.
pub open spec fn recipe_views(v: Seq<Recipe>) -> Seq<RecipeView> {
    v.map_values(|r: Recipe| r@)
}

proof fn lemma_row_views_push(v: Seq<RecipeRow>, r: RecipeRow)
    ensures
        row_views(v.push(r)) == row_views(v).push(r@),
{
    assert(row_views(v.push(r)) =~= row_views(v).push(r@));
}

proof fn lemma_ingredient_views_push(v: Seq<Ingredient>, i: Ingredient)
    ensures
        ingredient_views(v.push(i)) == ingredient_views(v).push(i@),
{
    assert(ingredient_views(v.push(i)) =~= ingredient_views(v).push(i@));
}

impl Clone for RecipeRow {
    fn clone(&self) -> (r: Self)
        ensures
            r@ == self@,
    {
        RecipeRow {
            id: self.id.clone(),
            title: self.title.clone(),
            source_url: copy_opt(&self.source_url),
            instructions: self.instructions.clone(),
            substitutes_json: copy_opt(&self.substitutes_json),
            updated_at: self.updated_at,
            is_deleted: self.is_deleted,
        }
    }
}

impl Recipe {
    /// The recipe without its ingredients.
    pub fn row(&self) -> (r: RecipeRow)
        ensures
            r@ == self@.row(),
    {
        RecipeRow {
            id: self.id.clone(),
            title: self.title.clone(),
            source_url: copy_opt(&self.source_url),
            instructions: self.instructions.clone(),
            substitutes_json: copy_opt(&self.substitutes_json),
            updated_at: self.updated_at,
            is_deleted: self.is_deleted,
        }
    }
}

// ---------------------------------------------------------------------------
// Rows
// ---------------------------------------------------------------------------

fn find_row(rows: &Vec<RecipeRow>, id: &str) -> (r: usize)
    ensures
        r == position(row_views(rows@), id@),
        r <= rows@.len(),
{
    let mut i: usize = 0;
    while i < rows.len()
        invariant
            i <= rows@.len(),
            forall|j: int| 0 <= j < i ==> (#[trigger] row_views(rows@)[j]).id != id@,
        decreases rows@.len() - i,
    {
        if same_text(rows[i].id.as_str(), id) {
            proof {
                lemma_position_at(row_views(rows@), id@, i as int);
            }
            return i;
        }
        i += 1;
    }
    proof {
        lemma_position_at(row_views(rows@), id@, i as int);
    }
    i
}

fn upsert_row(rows: &mut Vec<RecipeRow>, row: RecipeRow)
    ensures
        row_views(final(rows)@) == upserted(row_views(old(rows)@), row@),
{
    let at = find_row(rows, row.id.as_str());
    if at == rows.len() {
        proof {
            lemma_row_views_push(rows@, row);
        }
        rows.push(row);
    } else if MergePolicy::remote_wins(rows[at].updated_at, row.updated_at) {
        rows.set(at, row);
        assert(row_views(rows@) =~= row_views(old(rows)@).update(at as int, row@));
    }
}

fn is_taken(rows: &Vec<RecipeRow>, row: &RecipeRow) -> (r: bool)
    ensures
        r == taken(row_views(rows@), row@),
{
    let at = find_row(rows, row.id.as_str());
    at == rows.len() || MergePolicy::remote_wins(rows[at].updated_at, row.updated_at)
}

fn mentions(hits: &Vec<String>, id: &str) -> (r: bool)
    ensures
        r == texts(hits@).contains(id@),
{
    let mut i: usize = 0;
    while i < hits.len()
        invariant
            i <= hits@.len(),
            forall|j: int| 0 <= j < i ==> #[trigger] texts(hits@)[j] != id@,
        decreases hits@.len() - i,
    {
        if same_text(hits[i].as_str(), id) {
            assert(texts(hits@)[i as int] == id@);
            return true;
        }
        i += 1;
    }
    false
}

/// Puts a row into a list in which the one that was changed last comes first.
fn insert_newest(rows: &mut Vec<RecipeRow>, row: RecipeRow)
    ensures
        row_views(final(rows)@) == put_in_order(row_views(old(rows)@), row@, newest_first()),
{
    let mut at: usize = rows.len();
    while at > 0 && rows[at - 1].updated_at < row.updated_at
        invariant
            at <= rows@.len(),
            rows@ == old(rows)@,
            forall|j: int|
                at <= j < rows@.len() ==> !newest_first()(#[trigger] row_views(rows@)[j], row@),
        decreases at,
    {
        at -= 1;
    }
    proof {
        lemma_put_in_order(row_views(rows@), row@, newest_first(), at as int);
    }
    rows.insert(at, row);
    assert(row_views(rows@) =~= row_views(old(rows)@).insert(at as int, row@));
}

/// Puts an ingredient into a list that is sorted by the normalized names.
fn insert_by_name(ings: &mut Vec<Ingredient>, ing: Ingredient)
    ensures
        ingredient_views(final(ings)@) == put_in_order(
            ingredient_views(old(ings)@),
            ing@,
            by_normalized_name(),
        ),
{
    let mut at: usize = ings.len();
    while at > 0 && !text_before(
        ings[at - 1].normalized_name.as_str(),
        ing.normalized_name.as_str(),
    )
        invariant
            at <= ings@.len(),
            ings@ == old(ings)@,
            forall|j: int|
                at <= j < ings@.len() ==> !by_normalized_name()(
                    #[trigger] ingredient_views(ings@)[j],
                    ing@,
                ),
        decreases at,
    {
        at -= 1;
    }
    proof {
        lemma_put_in_order(ingredient_views(ings@), ing@, by_normalized_name(), at as int);
    }
    ings.insert(at, ing);
    assert(ingredient_views(ings@) =~= ingredient_views(old(ings)@).insert(at as int, ing@));
}

// ---------------------------------------------------------------------------
// Ingredients
// ---------------------------------------------------------------------------

fn replace_ingredient(ings: Vec<Ingredient>, ing: Ingredient) -> (r: Vec<Ingredient>)
    ensures
        ingredient_views(r@) == replaced(ingredient_views(ings@), ing@),
{
    let ghost all = ingredient_views(ings@);
    let mut out: Vec<Ingredient> = Vec::new();
    proof {
        reveal(Seq::filter);
        assert(ingredient_views(out@) =~= all.take(0).filter(other_than(ing@)));
    }
    for i in it: ings
        invariant
            all == ingredient_views(it.seq()),
            ingredient_views(out@) == all.take(it.index()).filter(other_than(ing@)),
    {
        let ghost k = it.index();
        proof {
            lemma_filter_take(all, other_than(ing@), k);
            lemma_ingredient_views_push(out@, i);
        }
        if !(same_text(i.recipe_id.as_str(), ing.recipe_id.as_str()) && same_text(
            i.name.as_str(),
            ing.name.as_str(),
        )) {
            out.push(i);
        }
    }
    proof {
        assert(all.take(all.len() as int) =~= all);
        lemma_ingredient_views_push(out@, ing);
    }
    out.push(ing);
    out
}

fn drop_ingredients(ings: Vec<Ingredient>, id: &str) -> (r: Vec<Ingredient>)
    ensures
        ingredient_views(r@) == ingredient_views(ings@).filter(not_part_of(id@)),
{
    let ghost all = ingredient_views(ings@);
    let mut out: Vec<Ingredient> = Vec::new();
    proof {
        reveal(Seq::filter);
        assert(ingredient_views(out@) =~= all.take(0).filter(not_part_of(id@)));
    }
    for i in it: ings
        invariant
            all == ingredient_views(it.seq()),
            ingredient_views(out@) == all.take(it.index()).filter(not_part_of(id@)),
    {
        let ghost k = it.index();
        proof {
            lemma_filter_take(all, not_part_of(id@), k);
            lemma_ingredient_views_push(out@, i);
        }
        if !same_text(i.recipe_id.as_str(), id) {
            out.push(i);
        }
    }
    assert(all.take(all.len() as int) =~= all);
    out
}

// ---------------------------------------------------------------------------
// The database
// ---------------------------------------------------------------------------

/// The stored recipes.
pub struct Database {
    recipes: Vec<RecipeRow>,
    ingredients: Vec<Ingredient>,
    last_sync: Option<String>,
}

impl View for Database {
    type V = Tables;

    closed spec fn view(&self) -> Tables {
        Tables {
            recipes: row_views(self.recipes@),
            ingredients: ingredient_views(self.ingredients@),
            last_sync: crate::domain::recipe::opt_text(self.last_sync),
        }
    }
}

/// The error of an ingredient whose recipe is not stored.
pub open spec fn is_link_error(e: DomainError) -> bool {
    e is InvalidIngredient && e.detail() == "FOREIGN KEY constraint failed"@
}

/// The error of rows of which two stand for the same thing.
pub open spec fn is_duplicate_error(e: DomainError) -> bool {
    e is SyncError && e.detail() == "UNIQUE constraint failed"@
}

fn has_duplicate_id(rows: &Vec<RecipeRow>) -> (r: bool)
    ensures
        r == !unique_ids(row_views(rows@)),
{
    let ghost all = row_views(rows@);
    let mut i: usize = 0;
    while i < rows.len()
        invariant
            i <= rows@.len(),
            all == row_views(rows@),
            forall|a: int, b: int|
                0 <= a < i && a < b < all.len() ==> (#[trigger] all[a]).id != (
                #[trigger] all[b]).id,
        decreases rows@.len() - i,
    {
        let mut j: usize = i + 1;
        while j < rows.len()
            invariant
                i < j <= rows@.len(),
                all == row_views(rows@),
                forall|b: int| i < b < j ==> all[i as int].id != (#[trigger] all[b]).id,
            decreases rows@.len() - j,
        {
            if same_text(rows[i].id.as_str(), rows[j].id.as_str()) {
                assert(all[i as int].id == all[j as int].id);
                return true;
            }
            j += 1;
        }
        i += 1;
    }
    false
}

fn has_duplicate_key(ings: &Vec<Ingredient>) -> (r: bool)
    ensures
        r == !unique_keys(ingredient_views(ings@)),
{
    let ghost all = ingredient_views(ings@);
    let mut i: usize = 0;
    while i < ings.len()
        invariant
            i <= ings@.len(),
            all == ingredient_views(ings@),
            forall|a: int, b: int|
                0 <= a < i && a < b < all.len() ==> !same_key(#[trigger] all[a], #[trigger] all[b]),
        decreases ings@.len() - i,
    {
        let mut j: usize = i + 1;
        while j < ings.len()
            invariant
                i < j <= ings@.len(),
                all == ingredient_views(ings@),
                forall|b: int| i < b < j ==> !same_key(all[i as int], #[trigger] all[b]),
            decreases ings@.len() - j,
        {
            if same_text(ings[i].recipe_id.as_str(), ings[j].recipe_id.as_str()) && same_text(
                ings[i].name.as_str(),
                ings[j].name.as_str(),
            ) {
                assert(same_key(all[i as int], all[j as int]));
                return true;
            }
            j += 1;
        }
        i += 1;
    }
    false
}

impl Database {
    /// A database with the given rows. Two rows of the same recipe, or two of the same ingredient
    /// of a recipe, are an error.
    pub fn open(
        recipes: Vec<RecipeRow>,
        ingredients: Vec<Ingredient>,
        last_sync: Option<String>,
    ) -> (r: Result<Self, DomainError>)
        ensures
            r is Ok <==> unique_ids(row_views(recipes@)) && unique_keys(
                ingredient_views(ingredients@),
            ),
            match r {
                Ok(db) => db@.wf() && db@ == (Tables {
                    recipes: row_views(recipes@),
                    ingredients: ingredient_views(ingredients@),
                    last_sync: crate::domain::recipe::opt_text(last_sync),
                }),
                Err(e) => is_duplicate_error(e),
            },
    {
        if has_duplicate_id(&recipes) || has_duplicate_key(&ingredients) {
            return Err(DomainError::SyncError("UNIQUE constraint failed".to_owned()));
        }
        Ok(Database { recipes, ingredients, last_sync })
    }

    /// An empty database.
    pub fn open_in_memory() -> (r: Self)
        ensures
            r@.wf(),
            r@.linked(),
            r@ == (Tables {
                recipes: Seq::empty(),
                ingredients: Seq::empty(),
                last_sync: None,
            }),
    {
        let r = Database { recipes: Vec::new(), ingredients: Vec::new(), last_sync: None };
        assert(r@.recipes =~= Seq::<RowView>::empty());
        assert(r@.ingredients =~= Seq::<IngredientView>::empty());
        r
    }

    /// The rows of the recipes, deleted ones too.
    pub fn recipe_rows(&self) -> (r: &Vec<RecipeRow>)
        ensures
            row_views(r@) == self@.recipes,
    {
        &self.recipes
    }

    /// The rows of the ingredients.
    pub fn ingredient_rows(&self) -> (r: &Vec<Ingredient>)
        ensures
            ingredient_views(r@) == self@.ingredients,
    {
        &self.ingredients
    }

    /// When the last merge was, as it is stored.
    pub fn last_sync_text(&self) -> (r: Option<&str>)
        ensures
            match r {
                Some(t) => self@.last_sync == Some(t@),
                None => self@.last_sync is None,
            },
    {
        match &self.last_sync {
            Some(t) => Some(t.as_str()),
            None => None,
        }
    }

    // -- Recipes --

    /// Stores a recipe: its row if it is not there or only in an older version, and its
    /// ingredients in place of those that it had. An ingredient of a recipe that is not stored is
    /// an error; what came before it stays stored.
    pub fn upsert_recipe(&mut self, recipe: &Recipe) -> (r: Result<(), DomainError>)
        requires
            old(self)@.wf(),
        ensures
            final(self)@.wf(),
            final(self)@ == old(self)@.with_recipe(recipe@),
            r is Ok <==> old(self)@.accepts(recipe@),
            r matches Err(e) ==> is_link_error(e),
    {
        proof {
            lemma_upserted_unique(self@.recipes, recipe@.row());
            lemma_filter_unique(self@.ingredients, not_part_of(recipe@.id));
        }
        upsert_row(&mut self.recipes, recipe.row());
        let mut ings: Vec<Ingredient> = Vec::new();
        std::mem::swap(&mut ings, &mut self.ingredients);
        let ghost kept = old(self)@.ingredients.filter(not_part_of(recipe@.id));
        ings = drop_ingredients(ings, recipe.id.as_str());
        let ghost rows = row_views(self.recipes@);
        let ghost new = recipe@.ingredients;
        let mut i: usize = 0;
        let mut refused: bool = false;
        assert(new.take(0) =~= Seq::<IngredientView>::empty());
        while i < recipe.ingredients.len() && !refused
            invariant
                i <= recipe.ingredients@.len(),
                new == ingredient_views(recipe.ingredients@),
                rows == row_views(self.recipes@),
                ingredient_views(ings@) == inserted(kept, new.take(i as int)),
                forall|j: int| 0 <= j < i ==> has_recipe(rows, #[trigger] new[j]),
                refused ==> i < new.len() && !has_recipe(rows, new[i as int]),
            decreases recipe.ingredients@.len() - i, if refused { 0int } else { 1int },
        {
            let ing = &recipe.ingredients[i];
            if find_row(&self.recipes, ing.recipe_id.as_str()) == self.recipes.len() {
                refused = true;
            } else {
                proof {
                    assert(new.take(i + 1).drop_last() =~= new.take(i as int));
                    assert(new.take(i + 1).last() == ing@);
                }
                ings = replace_ingredient(ings, ing.clone());
                i += 1;
            }
        }
        proof {
            lemma_storable(rows, new);
            assert(storable(rows, new) == i) by {
                if storable(rows, new) < i {
                    assert(has_recipe(rows, new[storable(rows, new)]));
                }
            }
            lemma_inserted_unique(kept, new.take(i as int));
        }
        self.ingredients = ings;
        if refused {
            Err(DomainError::InvalidIngredient("FOREIGN KEY constraint failed".to_owned()))
        } else {
            Ok(())
        }
    }

    fn get_ingredients(&self, id: &str) -> (r: Vec<Ingredient>)
        ensures
            ingredient_views(r@) == self@.ingredients.filter(part_of(id@)),
    {
        let ghost all = self@.ingredients;
        let mut out: Vec<Ingredient> = Vec::new();
        let mut i: usize = 0;
        proof {
            reveal(Seq::filter);
            assert(ingredient_views(out@) =~= all.take(0).filter(part_of(id@)));
        }
        while i < self.ingredients.len()
            invariant
                i <= self.ingredients@.len(),
                all == self@.ingredients,
                ingredient_views(out@) == all.take(i as int).filter(part_of(id@)),
            decreases self.ingredients@.len() - i,
        {
            proof {
                lemma_filter_take(all, part_of(id@), i as int);
            }
            if same_text(self.ingredients[i].recipe_id.as_str(), id) {
                let ing = self.ingredients[i].clone();
                proof {
                    lemma_ingredient_views_push(out@, ing);
                }
                out.push(ing);
            }
            i += 1;
        }
        assert(all.take(all.len() as int) =~= all);
        out
    }

    fn recipe_of(&self, row: &RecipeRow) -> (r: Recipe)
        ensures
            r@ == self@.recipe(row@),
    {
        Recipe {
            id: row.id.clone(),
            title: row.title.clone(),
            source_url: copy_opt(&row.source_url),
            instructions: row.instructions.clone(),
            substitutes_json: copy_opt(&row.substitutes_json),
            updated_at: row.updated_at,
            is_deleted: row.is_deleted,
            ingredients: self.get_ingredients(row.id.as_str()),
        }
    }

    fn recipes_of(&self, rows: &Vec<RecipeRow>) -> (r: Vec<Recipe>)
        ensures
            recipe_views(r@) == row_views(rows@).map_values(|r: RowView| self@.recipe(r)),
    {
        let ghost all = row_views(rows@).map_values(|r: RowView| self@.recipe(r));
        let mut out: Vec<Recipe> = Vec::new();
        let mut i: usize = 0;
        assert(recipe_views(out@) =~= all.take(0));
        while i < rows.len()
            invariant
                i <= rows@.len(),
                all == row_views(rows@).map_values(|r: RowView| self@.recipe(r)),
                recipe_views(out@) == all.take(i as int),
            decreases rows@.len() - i,
        {
            let one = self.recipe_of(&rows[i]);
            proof {
                assert(recipe_views(out@.push(one)) =~= recipe_views(out@).push(one@));
                assert(all.take(i + 1) =~= all.take(i as int).push(one@));
            }
            out.push(one);
            i += 1;
        }
        assert(all.take(rows@.len() as int) =~= all);
        out
    }

    /// The recipe `id`, unless it is not stored or deleted.
    pub fn get_recipe(&self, id: &str) -> (r: Option<Recipe>)
        ensures
            match r {
                Some(recipe) => self@.get(id@) == Some(recipe@),
                None => self@.get(id@) is None,
            },
    {
        let at = find_row(&self.recipes, id);
        if at == self.recipes.len() || self.recipes[at].is_deleted {
            None
        } else {
            Some(self.recipe_of(&self.recipes[at]))
        }
    }

    /// The recipes that are not deleted, the one that was changed last first.
    pub fn list_recipes(&self) -> (r: Vec<Recipe>)
        ensures
            recipe_views(r@) == self@.list(),
    {
        let ghost all = self@.recipes;
        let mut rows: Vec<RecipeRow> = Vec::new();
        let mut i: usize = 0;
        proof {
            reveal(Seq::filter);
            assert(row_views(rows@) =~= in_order(all.take(0).filter(live()), newest_first()));
        }
        while i < self.recipes.len()
            invariant
                i <= self.recipes@.len(),
                all == self@.recipes,
                row_views(rows@) == in_order(all.take(i as int).filter(live()), newest_first()),
            decreases self.recipes@.len() - i,
        {
            proof {
                let before = all.take(i as int).filter(live());
                lemma_filter_take(all, live(), i as int);
                assert(before.push(all[i as int]).drop_last() =~= before);
            }
            if !self.recipes[i].is_deleted {
                insert_newest(&mut rows, self.recipes[i].clone());
            }
            i += 1;
        }
        assert(all.take(all.len() as int) =~= all);
        self.recipes_of(&rows)
    }

    /// Deletes the recipe `id`, if it is stored, at the time `now`. It stays stored as deleted, so
    /// that a merge carries the deletion on.
    pub fn soft_delete_recipe_at(&mut self, id: &str, now: i64)
        requires
            old(self)@.wf(),
        ensures
            final(self)@.wf(),
            final(self)@ == old(self)@.without_recipe(id@, now),
    {
        let at = find_row(&self.recipes, id);
        proof {
            lemma_position(self@.recipes, id@);
        }
        if at < self.recipes.len() {
            let mut row = self.recipes[at].clone();
            row.is_deleted = true;
            row.updated_at = now;
            self.recipes.set(at, row);
            assert(self@.recipes =~= deleted_rows(old(self)@.recipes, id@, now));
        }
    }

    /// Deletes the recipe `id`, if it is stored, now. The clock decides the time.
    pub fn soft_delete_recipe(&mut self, id: &str)
        requires
            old(self)@.wf(),
        ensures
            final(self)@.wf(),
            exists|now: i64|
                0 <= now <= LAST_TIMESTAMP && final(self)@ == #[trigger] old(self)@.without_recipe(
                    id@,
                    now,
                ),
    {
        let now: i64 = now_timestamp();
        self.soft_delete_recipe_at(id, now);
    }

    // -- Ingredients --

    /// The ingredients of all recipes that are not deleted, by their normalized names.
    pub fn all_ingredients(&self) -> (r: Vec<Ingredient>)
        ensures
            ingredient_views(r@) == self@.pantry(),
    {
        let ghost all = self@.ingredients;
        let ghost p = self@.in_use();
        let mut out: Vec<Ingredient> = Vec::new();
        let mut i: usize = 0;
        proof {
            reveal(Seq::filter);
            assert(ingredient_views(out@) =~= in_order(
                all.take(0).filter(p),
                by_normalized_name(),
            ));
        }
        while i < self.ingredients.len()
            invariant
                i <= self.ingredients@.len(),
                all == self@.ingredients,
                p == self@.in_use(),
                ingredient_views(out@) == in_order(
                    all.take(i as int).filter(p),
                    by_normalized_name(),
                ),
            decreases self.ingredients@.len() - i,
        {
            proof {
                let before = all.take(i as int).filter(p);
                lemma_filter_take(all, p, i as int);
                assert(before.push(all[i as int]).drop_last() =~= before);
            }
            let at = find_row(&self.recipes, self.ingredients[i].recipe_id.as_str());
            if at < self.recipes.len() && !self.recipes[at].is_deleted {
                insert_by_name(&mut out, self.ingredients[i].clone());
            }
            i += 1;
        }
        assert(all.take(all.len() as int) =~= all);
        out
    }

    // -- Search --

    fn select_hits(&self, hits: &Vec<String>) -> (r: Vec<Recipe>)
        ensures
            recipe_views(r@) == self@.select(live_hit(texts(hits@))),
    {
        let ghost all = self@.recipes;
        let ghost p = live_hit(texts(hits@));
        let mut rows: Vec<RecipeRow> = Vec::new();
        let mut i: usize = 0;
        proof {
            reveal(Seq::filter);
            assert(row_views(rows@) =~= in_order(all.take(0).filter(p), newest_first()));
        }
        while i < self.recipes.len()
            invariant
                i <= self.recipes@.len(),
                all == self@.recipes,
                p == live_hit(texts(hits@)),
                row_views(rows@) == in_order(all.take(i as int).filter(p), newest_first()),
            decreases self.recipes@.len() - i,
        {
            proof {
                let before = all.take(i as int).filter(p);
                lemma_filter_take(all, p, i as int);
                assert(before.push(all[i as int]).drop_last() =~= before);
            }
            if !self.recipes[i].is_deleted && mentions(hits, self.recipes[i].id.as_str()) {
                insert_newest(&mut rows, self.recipes[i].clone());
            }
            i += 1;
        }
        assert(all.take(all.len() as int) =~= all);
        self.recipes_of(&rows)
    }

    /// The recipes that are not deleted and that have an ingredient that `query` names, where
    /// `hits` are the recipes of the ingredients that the full-text query for it matches. A blank
    /// query finds all recipes that are not deleted.
    pub fn search_by_ingredient(&self, query: &str, hits: &Vec<String>) -> (r: Vec<Recipe>)
        ensures
            recipe_views(r@) == self@.search(query@, texts(hits@)),
    {
        if trim(query).as_str().is_empty() {
            self.list_recipes()
        } else {
            self.select_hits(hits)
        }
    }

    /// The recipes that are not deleted and in whose title `query` stands, where `hits` are the
    /// recipes whose titles match the pattern for it. A blank query finds all recipes that are
    /// not deleted.
    pub fn search_by_title(&self, query: &str, hits: &Vec<String>) -> (r: Vec<Recipe>)
        ensures
            recipe_views(r@) == self@.search(query@, texts(hits@)),
    {
        if trim(query).as_str().is_empty() {
            self.list_recipes()
        } else {
            self.select_hits(hits)
        }
    }

    // -- Merging --

    /// When the last merge was; zero if there was none or its time cannot be read.
    pub fn get_last_sync(&self) -> (r: i64)
        ensures
            r == self@.synced_at(),
    {
        match &self.last_sync {
            Some(t) => match parse_signed(t.as_str()) {
                Some(n) => n,
                None => 0,
            },
            None => 0,
        }
    }

    /// Notes when the last merge was.
    pub fn set_last_sync(&mut self, ts: i64)
        requires
            old(self)@.wf(),
        ensures
            final(self)@.wf(),
            final(self)@ == (Tables { last_sync: Some(signed_decimal(ts as int)), ..old(self)@ }),
    {
        self.last_sync = Some(signed_text(ts));
    }

    /// Merges `remote` in at the time `now`: of each recipe the version with the later
    /// `updated_at` is kept, the local one if both are from the same time. The ingredients of a
    /// recipe that is taken over replace the local ones, unless it is deleted.
    pub fn merge_at(&mut self, remote: &Database, now: i64) -> (r: MergeReport)
        requires
            old(self)@.wf(),
            remote@.wf(),
        ensures
            final(self)@.wf(),
            final(self)@ == (Tables {
                last_sync: Some(signed_decimal(now as int)),
                ..old(self)@.merged(remote@)
            }),
            r.upserted == old(self)@.merge_count(remote@),
            r.skipped == 0,
    {
        let ghost local = self@;
        let mut report = MergeReport::default();

        // Which recipes are taken over.
        let ghost offered = remote@.recipes;
        let mut flags: Vec<bool> = Vec::new();
        let mut i: usize = 0;
        proof {
            reveal(Seq::filter);
            assert(offered.take(0).filter(local.takes_row()).len() == 0);
        }
        while i < remote.recipes.len()
            invariant
                i <= remote.recipes@.len(),
                local == self@,
                offered == remote@.recipes,
                flags@.len() == i,
                forall|j: int|
                    0 <= j < i ==> #[trigger] flags@[j] == taken(local.recipes, offered[j]),
                report.upserted == offered.take(i as int).filter(local.takes_row()).len(),
                report.upserted <= i,
                report.skipped == 0,
            decreases remote.recipes@.len() - i,
        {
            let take = is_taken(&self.recipes, &remote.recipes[i]);
            proof {
                lemma_filter_take(offered, local.takes_row(), i as int);
            }
            if take {
                report.record_upsert();
            }
            flags.push(take);
            i += 1;
        }
        assert(offered.take(offered.len() as int) =~= offered);

        // Their ingredients, in place of the local ones.
        let mut ings: Vec<Ingredient> = Vec::new();
        std::mem::swap(&mut ings, &mut self.ingredients);
        let ghost keep = local.keeps_ingredient(remote@);
        let ghost mine = local.ingredients;
        let mut kept: Vec<Ingredient> = Vec::new();
        assert(ingredient_views(kept@) =~= mine.take(0).filter(keep));
        for ing in it: ings
            invariant
                offered == remote@.recipes,
                flags@.len() == remote.recipes@.len(),
                forall|j: int|
                    0 <= j < flags@.len() ==> #[trigger] flags@[j] == taken(
                        local.recipes,
                        offered[j],
                    ),
                keep == local.keeps_ingredient(remote@),
                mine == ingredient_views(it.seq()),
                ingredient_views(kept@) == mine.take(it.index()).filter(keep),
        {
            let ghost k = it.index();
            let at = find_row(&remote.recipes, ing.recipe_id.as_str());
            proof {
                lemma_filter_take(mine, keep, k);
                lemma_ingredient_views_push(kept@, ing);
                lemma_position(offered, ing@.recipe_id);
            }
            if !(at < remote.recipes.len() && flags[at] && !remote.recipes[at].is_deleted) {
                kept.push(ing);
            }
        }
        assert(mine.take(mine.len() as int) =~= mine);
        let ghost stay = ingredient_views(kept@);
        let ghost take = local.takes_ingredient(remote@);
        let ghost all = remote@.ingredients;
        let mut k: usize = 0;
        proof {
            assert(all.take(0).filter(take) =~= Seq::<IngredientView>::empty());
            assert(stay + Seq::<IngredientView>::empty() =~= stay);
        }
        while k < remote.ingredients.len()
            invariant
                k <= remote.ingredients@.len(),
                offered == remote@.recipes,
                flags@.len() == remote.recipes@.len(),
                forall|j: int|
                    0 <= j < flags@.len() ==> #[trigger] flags@[j] == taken(
                        local.recipes,
                        offered[j],
                    ),
                take == local.takes_ingredient(remote@),
                all == remote@.ingredients,
                ingredient_views(kept@) == stay + all.take(k as int).filter(take),
            decreases remote.ingredients@.len() - k,
        {
            let at = find_row(&remote.recipes, remote.ingredients[k].recipe_id.as_str());
            proof {
                lemma_filter_take(all, take, k as int);
                lemma_position(offered, all[k as int].recipe_id);
            }
            if at < remote.recipes.len() && flags[at] && !remote.recipes[at].is_deleted {
                let ing = remote.ingredients[k].clone();
                proof {
                    let before = all.take(k as int).filter(take);
                    lemma_ingredient_views_push(kept@, ing);
                    assert((stay + before).push(ing@) =~= stay + before.push(ing@));
                }
                kept.push(ing);
            }
            k += 1;
        }
        proof {
            assert(all.take(all.len() as int) =~= all);
            lemma_merged_unique(local, remote@);
        }
        self.ingredients = kept;

        // Their rows.
        let mut m: usize = 0;
        assert(offered.take(0) =~= Seq::<RowView>::empty());
        while m < remote.recipes.len()
            invariant
                m <= remote.recipes@.len(),
                offered == remote@.recipes,
                row_views(self.recipes@) == merged_rows(local.recipes, offered.take(m as int)),
                self.ingredients == kept,
            decreases remote.recipes@.len() - m,
        {
            proof {
                assert(offered.take(m + 1).drop_last() =~= offered.take(m as int));
                assert(offered.take(m + 1).last() == remote.recipes@[m as int]@);
            }
            upsert_row(&mut self.recipes, remote.recipes[m].clone());
            m += 1;
        }
        proof {
            assert(offered.take(offered.len() as int) =~= offered);
            lemma_merged_rows_unique(local.recipes, offered);
        }
        self.set_last_sync(now);
        report
    }

    /// Merges `remote` in now. The clock decides the time that is noted.
    pub fn merge_from_file(&mut self, remote: &Database) -> (r: Result<MergeReport, DomainError>)
        requires
            old(self)@.wf(),
            remote@.wf(),
        ensures
            final(self)@.wf(),
            final(self)@.recipes == old(self)@.merged(remote@).recipes,
            final(self)@.ingredients == old(self)@.merged(remote@).ingredients,
            0 <= final(self)@.synced_at() <= LAST_TIMESTAMP,
            final(self)@.last_sync == Some(signed_decimal(final(self)@.synced_at() as int)),
            r is Ok,
            r->Ok_0.upserted == old(self)@.merge_count(remote@),
            r->Ok_0.skipped == 0,
    {
        let now: i64 = now_timestamp();
        let report = self.merge_at(remote, now);
        proof {
            crate::number::law_signed_text_round_trip(now);
        }
        match validate_sync(&report) {
            Ok(()) => Ok(report),
            Err(e) => Err(e),
        }
    }
}

// ---------------------------------------------------------------------------
// Statements
// ---------------------------------------------------------------------------

/// The statement that makes the database file at `path` readable as `remote`.
pub fn attach_statement(path: &str) -> (r: String)
    ensures
        r@ == "ATTACH DATABASE '"@ + doubled(path@, '\'') + "' AS remote;"@,
{
    "ATTACH DATABASE '".to_owned().concat(double_char(path, '\'').as_str()).concat("' AS remote;")
}

/// The statement that writes a copy of the database to a file at `path`.
pub fn export_statement(path: &str) -> (r: String)
    ensures
        r@ == "VACUUM INTO '"@ + doubled(path@, '\'') + "';"@,
{
    "VACUUM INTO '".to_owned().concat(double_char(path, '\'').as_str()).concat("';")
}

} // verus!
