//! What is stored, and what each change makes of it.

use crate::domain::ingredient::IngredientView;
use crate::domain::merge::newer;
use crate::domain::recipe::{opt_text, RecipeView};
use vstd::prelude::*;

verus! {

/// A stored recipe, without its ingredients.
#[derive(Debug)]
pub struct RecipeRow {
    pub id: String,
    pub title: String,
    pub source_url: Option<String>,
    pub instructions: String,
    pub substitutes_json: Option<String>,
    pub updated_at: i64,
    pub is_deleted: bool,
}

/// A stored recipe as plain values.
pub struct RowView {
    pub id: Seq<char>,
    pub title: Seq<char>,
    pub source_url: Option<Seq<char>>,
    pub instructions: Seq<char>,
    pub substitutes_json: Option<Seq<char>>,
    pub updated_at: i64,
    pub is_deleted: bool,
}

impl View for RecipeRow {
    type V = RowView;

    open spec fn view(&self) -> RowView {
        RowView {
            id: self.id@,
            title: self.title@,
            source_url: opt_text(self.source_url),
            instructions: self.instructions@,
            substitutes_json: opt_text(self.substitutes_json),
            updated_at: self.updated_at,
            is_deleted: self.is_deleted,
        }
    }
}

/// All that is stored: the recipes, the ingredients of each, and when the last merge was.
pub struct Tables {
    pub recipes: Seq<RowView>,
    pub ingredients: Seq<IngredientView>,
    pub last_sync: Option<Seq<char>>,
}

// ---------------------------------------------------------------------------
// Recipes
// ---------------------------------------------------------------------------

/// No two rows are of the same recipe.
pub open spec fn unique_ids(rows: Seq<RowView>) -> bool {
    forall|i: int, j: int|
        0 <= i < j < rows.len() ==> (#[trigger] rows[i]).id != (#[trigger] rows[j]).id
}

/// Where the row of the recipe `id` stands; behind all rows if there is none.
pub open spec fn position(rows: Seq<RowView>, id: Seq<char>) -> int
    decreases rows.len(),
{
    if rows.len() == 0 || rows[0].id == id {
        0
    } else {
        1 + position(rows.drop_first(), id)
    }
}

/// The row of the recipe `id`.
pub open spec fn lookup(rows: Seq<RowView>, id: Seq<char>) -> Option<RowView> {
    if position(rows, id) < rows.len() {
        Some(rows[position(rows, id)])
    } else {
        None
    }
}

/// A position lies within the rows or just behind them, and is the first of its recipe.
pub proof fn lemma_position(rows: Seq<RowView>, id: Seq<char>)
    ensures
        0 <= position(rows, id) <= rows.len(),
        position(rows, id) < rows.len() ==> rows[position(rows, id)].id == id,
        forall|j: int| 0 <= j < position(rows, id) ==> (#[trigger] rows[j]).id != id,
    decreases rows.len(),
{
    if rows.len() > 0 && rows[0].id != id {
        let t = rows.drop_first();
        lemma_position(t, id);
        assert forall|j: int| 0 <= j < position(rows, id) implies (#[trigger] rows[j]).id != id by {
            if j > 0 {
                assert(t[j - 1] == rows[j]);
            }
        }
    }
}

/// The position is where the row is, or behind all rows if there is none.
pub proof fn lemma_position_at(rows: Seq<RowView>, id: Seq<char>, k: int)
    requires
        0 <= k <= rows.len(),
        k < rows.len() ==> rows[k].id == id,
        forall|j: int| 0 <= j < k ==> (#[trigger] rows[j]).id != id,
    ensures
        position(rows, id) == k,
{
    lemma_position(rows, id);
    let p = position(rows, id);
    if p < k {
        assert(rows[p].id != id);
    }
}

/// The rows once `row` was offered: a recipe that is not there is added, and one that is there
/// is replaced if the offered version is newer.
pub open spec fn upserted(rows: Seq<RowView>, row: RowView) -> Seq<RowView> {
    let p = position(rows, row.id);
    if p == rows.len() {
        rows.push(row)
    } else if newer(rows[p].updated_at, row.updated_at) {
        rows.update(p, row)
    } else {
        rows
    }
}

/// Whether an offered row is taken: the recipe is not there, or only in an older version.
pub open spec fn taken(rows: Seq<RowView>, row: RowView) -> bool {
    match lookup(rows, row.id) {
        Some(old) => newer(old.updated_at, row.updated_at),
        None => true,
    }
}

/// The rows once all of `offered` were offered, one after the other.
pub open spec fn merged_rows(rows: Seq<RowView>, offered: Seq<RowView>) -> Seq<RowView>
    decreases offered.len(),
{
    if offered.len() == 0 {
        rows
    } else {
        upserted(merged_rows(rows, offered.drop_last()), offered.last())
    }
}

/// The rows once the recipe `id` was deleted at the time `now`.
pub open spec fn deleted_rows(rows: Seq<RowView>, id: Seq<char>, now: i64) -> Seq<RowView> {
    let p = position(rows, id);
    if p < rows.len() {
        rows.update(p, RowView { is_deleted: true, updated_at: now, ..rows[p] })
    } else {
        rows
    }
}

// ---------------------------------------------------------------------------
// Ingredients
// ---------------------------------------------------------------------------

/// Whether two ingredients are the same one of the same recipe.
pub open spec fn same_key(a: IngredientView, b: IngredientView) -> bool {
    a.recipe_id == b.recipe_id && a.name == b.name
}

/// No ingredient of a recipe stands twice.
pub open spec fn unique_keys(ings: Seq<IngredientView>) -> bool {
    forall|i: int, j: int|
        0 <= i < j < ings.len() ==> !same_key(#[trigger] ings[i], #[trigger] ings[j])
}

/// Holds of the ingredients of the recipe `id`.
pub open spec fn part_of(id: Seq<char>) -> spec_fn(IngredientView) -> bool {
    |i: IngredientView| i.recipe_id == id
}

/// Holds of the ingredients of other recipes than `id`.
pub open spec fn not_part_of(id: Seq<char>) -> spec_fn(IngredientView) -> bool {
    |i: IngredientView| i.recipe_id != id
}

/// Holds of every ingredient but the one that `ing` stands for.
pub open spec fn other_than(ing: IngredientView) -> spec_fn(IngredientView) -> bool {
    |i: IngredientView| !same_key(i, ing)
}

/// The ingredients once `ing` was put in, in place of what stood for it.
pub open spec fn replaced(ings: Seq<IngredientView>, ing: IngredientView) -> Seq<IngredientView> {
    ings.filter(other_than(ing)).push(ing)
}

/// The ingredients once all of `new` were put in, one after the other.
pub open spec fn inserted(ings: Seq<IngredientView>, new: Seq<IngredientView>) -> Seq<
    IngredientView,
>
    decreases new.len(),
{
    if new.len() == 0 {
        ings
    } else {
        replaced(inserted(ings, new.drop_last()), new.last())
    }
}

/// Whether the recipe that an ingredient belongs to is stored.
pub open spec fn has_recipe(rows: Seq<RowView>, ing: IngredientView) -> bool {
    lookup(rows, ing.recipe_id) is Some
}

/// How many ingredients of the list come before the first whose recipe is not stored.
pub open spec fn storable(rows: Seq<RowView>, new: Seq<IngredientView>) -> int
    decreases new.len(),
{
    if new.len() > 0 && has_recipe(rows, new[0]) {
        1 + storable(rows, new.drop_first())
    } else {
        0
    }
}

/// All that comes before the count has its recipe stored, and what comes at it has not.
pub proof fn lemma_storable(rows: Seq<RowView>, new: Seq<IngredientView>)
    ensures
        0 <= storable(rows, new) <= new.len(),
        forall|j: int| 0 <= j < storable(rows, new) ==> has_recipe(rows, #[trigger] new[j]),
        storable(rows, new) < new.len() ==> !has_recipe(rows, new[storable(rows, new)]),
    decreases new.len(),
{
    if new.len() > 0 && has_recipe(rows, new[0]) {
        let t = new.drop_first();
        lemma_storable(rows, t);
        assert forall|j: int| 0 <= j < storable(rows, new) implies has_recipe(
            rows,
            #[trigger] new[j],
        ) by {
            if j > 0 {
                assert(t[j - 1] == new[j]);
            }
        }
    }
}

// ---------------------------------------------------------------------------
// Changes
// ---------------------------------------------------------------------------

impl RecipeView {
    /// The recipe without its ingredients.
    pub open spec fn row(self) -> RowView {
        RowView {
            id: self.id,
            title: self.title,
            source_url: self.source_url,
            instructions: self.instructions,
            substitutes_json: self.substitutes_json,
            updated_at: self.updated_at,
            is_deleted: self.is_deleted,
        }
    }
}

impl Tables {
    /// No recipe stands twice, and no ingredient of a recipe stands twice.
    pub open spec fn wf(self) -> bool {
        unique_ids(self.recipes) && unique_keys(self.ingredients)
    }

    /// Every ingredient belongs to a stored recipe.
    pub open spec fn linked(self) -> bool {
        forall|i: int|
            0 <= i < self.ingredients.len() ==> has_recipe(
                self.recipes,
                #[trigger] self.ingredients[i],
            )
    }

    /// Whether every ingredient of a recipe that is to be stored can be stored with it.
    pub open spec fn accepts(self, recipe: RecipeView) -> bool {
        storable(upserted(self.recipes, recipe.row()), recipe.ingredients)
            == recipe.ingredients.len()
    }

    /// What is stored once a recipe was stored: its row if it is new or newer, and its
    /// ingredients in place of all that it had, up to the first that cannot be stored.
    pub open spec fn with_recipe(self, recipe: RecipeView) -> Tables {
        let rows = upserted(self.recipes, recipe.row());
        Tables {
            recipes: rows,
            ingredients: inserted(
                self.ingredients.filter(not_part_of(recipe.id)),
                recipe.ingredients.take(storable(rows, recipe.ingredients)),
            ),
            ..self
        }
    }

    /// What is stored once the recipe `id` was deleted at the time `now`.
    pub open spec fn without_recipe(self, id: Seq<char>, now: i64) -> Tables {
        Tables { recipes: deleted_rows(self.recipes, id, now), ..self }
    }

    /// Whether a merge takes over the recipe `id` from `remote`.
    pub open spec fn takes(self, remote: Tables, id: Seq<char>) -> bool {
        lookup(remote.recipes, id) matches Some(r) && taken(self.recipes, r)
    }

    /// Holds of the ingredients of the recipes that a merge takes over and that are not deleted:
    /// the remote ones replace the local ones.
    pub open spec fn takes_ingredient(self, remote: Tables) -> spec_fn(IngredientView) -> bool {
        |i: IngredientView|
            self.takes(remote, i.recipe_id) && !lookup(remote.recipes, i.recipe_id)->0.is_deleted
    }

    /// Holds of the ingredients of all other recipes: the local ones stay.
    pub open spec fn keeps_ingredient(self, remote: Tables) -> spec_fn(IngredientView) -> bool {
        |i: IngredientView| !self.takes_ingredient(remote)(i)
    }

    /// Holds of the rows that a merge takes over.
    pub open spec fn takes_row(self) -> spec_fn(RowView) -> bool {
        |r: RowView| taken(self.recipes, r)
    }

    /// What is stored once `remote` was merged in.
    pub open spec fn merged(self, remote: Tables) -> Tables {
        Tables {
            recipes: merged_rows(self.recipes, remote.recipes),
            ingredients: self.ingredients.filter(self.keeps_ingredient(remote))
                + remote.ingredients.filter(self.takes_ingredient(remote)),
            ..self
        }
    }

    /// How many recipes a merge takes over.
    pub open spec fn merge_count(self, remote: Tables) -> nat {
        remote.recipes.filter(self.takes_row()).len()
    }
}

// ---------------------------------------------------------------------------
// What changes keep
// ---------------------------------------------------------------------------

/// Offering a row keeps the recipes apart.
pub proof fn lemma_upserted_unique(rows: Seq<RowView>, row: RowView)
    requires
        unique_ids(rows),
    ensures
        unique_ids(upserted(rows, row)),
{
    lemma_position(rows, row.id);
}

/// Offering rows keeps the recipes apart.
pub proof fn lemma_merged_rows_unique(rows: Seq<RowView>, offered: Seq<RowView>)
    requires
        unique_ids(rows),
    ensures
        unique_ids(merged_rows(rows, offered)),
    decreases offered.len(),
{
    if offered.len() > 0 {
        lemma_merged_rows_unique(rows, offered.drop_last());
        lemma_upserted_unique(merged_rows(rows, offered.drop_last()), offered.last());
    }
}

/// Leaving ingredients out keeps the rest apart.
pub proof fn lemma_filter_unique(ings: Seq<IngredientView>, p: spec_fn(IngredientView) -> bool)
    requires
        unique_keys(ings),
    ensures
        unique_keys(ings.filter(p)),
    decreases ings.len(),
{
    reveal(Seq::filter);
    if ings.len() > 0 {
        let front = ings.drop_last();
        lemma_filter_unique(front, p);
        let kept = front.filter(p);
        if p(ings.last()) {
            assert forall|i: int, j: int|
                0 <= i < j < ings.filter(p).len() implies !same_key(
                #[trigger] ings.filter(p)[i],
                #[trigger] ings.filter(p)[j],
            ) by {
                if j == kept.len() {
                    front.lemma_filter_contains_rev(p, kept[i]);
                    let k = choose|k: int| 0 <= k < front.len() && front[k] == kept[i];
                    assert(ings[k] == kept[i]);
                    assert(!same_key(ings[k], ings[ings.len() - 1]));
                }
            }
        }
    }
}

/// Putting an ingredient in keeps the ingredients apart.
pub proof fn lemma_replaced_unique(ings: Seq<IngredientView>, ing: IngredientView)
    requires
        unique_keys(ings),
    ensures
        unique_keys(replaced(ings, ing)),
{
    let p = other_than(ing);
    lemma_filter_unique(ings, p);
    let kept = ings.filter(p);
    assert forall|i: int, j: int| 0 <= i < j < replaced(ings, ing).len() implies !same_key(
        #[trigger] replaced(ings, ing)[i],
        #[trigger] replaced(ings, ing)[j],
    ) by {
        if j == kept.len() {
            ings.lemma_filter_pred(p, i);
        }
    }
}

/// Putting ingredients in keeps the ingredients apart.
pub proof fn lemma_inserted_unique(ings: Seq<IngredientView>, new: Seq<IngredientView>)
    requires
        unique_keys(ings),
    ensures
        unique_keys(inserted(ings, new)),
    decreases new.len(),
{
    if new.len() > 0 {
        lemma_inserted_unique(ings, new.drop_last());
        lemma_replaced_unique(inserted(ings, new.drop_last()), new.last());
    }
}

/// Merging keeps the ingredients apart.
pub proof fn lemma_merged_unique(local: Tables, remote: Tables)
    requires
        unique_keys(local.ingredients),
        unique_keys(remote.ingredients),
    ensures
        unique_keys(local.merged(remote).ingredients),
{
    let keep = local.keeps_ingredient(remote);
    let take = local.takes_ingredient(remote);
    let kept = local.ingredients.filter(keep);
    let new = remote.ingredients.filter(take);
    lemma_filter_unique(local.ingredients, keep);
    lemma_filter_unique(remote.ingredients, take);
    assert forall|i: int, j: int| 0 <= i < j < (kept + new).len() implies !same_key(
        #[trigger] (kept + new)[i],
        #[trigger] (kept + new)[j],
    ) by {
        if i < kept.len() && j >= kept.len() {
            local.ingredients.lemma_filter_pred(keep, i);
            remote.ingredients.lemma_filter_pred(take, j - kept.len());
        }
    }
}

/// A row is seen whole.
pub proof fn law_a_row_is_seen_whole(r: RecipeRow)
    ensures
        r@.id == r.id@ && r@.title == r.title@ && r@.instructions == r.instructions@,
        r@.source_url is Some <==> r.source_url is Some,
        r.source_url matches Some(u) ==> r@.source_url == Some(u@),
        r@.substitutes_json is Some <==> r.substitutes_json is Some,
        r.substitutes_json matches Some(j) ==> r@.substitutes_json == Some(j@),
        r@.updated_at == r.updated_at && r@.is_deleted == r.is_deleted,
{
}

} // verus!
