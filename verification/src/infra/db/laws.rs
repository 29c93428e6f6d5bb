//! What always holds of the stored recipes.

use crate::domain::ingredient::IngredientView;
use crate::domain::merge::newer;
use crate::domain::recipe::RecipeView;
use crate::infra::db::query::{by_normalized_name, live, live_hit, newest_first};
use crate::infra::db::tables::{deleted_rows, has_recipe, inserted, lemma_position};
use crate::infra::db::tables::{lemma_merged_rows_unique, lemma_position_at, lemma_storable};
use crate::infra::db::tables::{lemma_upserted_unique, lookup, merged_rows, not_part_of};
use crate::infra::db::tables::{other_than, part_of, position, same_key, storable};
use crate::infra::db::tables::{taken, unique_ids, unique_keys, upserted, RowView, Tables};
use crate::number::{law_signed_text_round_trip, parsed_signed, signed_decimal};
use crate::order::{in_order, is_in_order, law_in_order_sorts, lemma_text_le, orders};
use crate::order::text_le;
use crate::text::{lemma_filter_all, lemma_trimmed_is_stretch, trimmed, whitespace};
use vstd::prelude::*;

verus! {

// ---------------------------------------------------------------------------
// Rows
// ---------------------------------------------------------------------------

proof fn lemma_lookup_row(rows: Seq<RowView>, k: int)
    requires
        unique_ids(rows),
        0 <= k < rows.len(),
    ensures
        lookup(rows, rows[k].id) == Some(rows[k]),
{
    lemma_position_at(rows, rows[k].id, k);
}

proof fn lemma_lookup_upserted(rows: Seq<RowView>, row: RowView, id: Seq<char>)
    requires
        unique_ids(rows),
    ensures
        lookup(upserted(rows, row), id) == if id == row.id && taken(rows, row) {
            Some(row)
        } else {
            lookup(rows, id)
        },
{
    let after = upserted(rows, row);
    let p = position(rows, row.id);
    let q = position(rows, id);
    lemma_position(rows, row.id);
    lemma_position(rows, id);
    lemma_upserted_unique(rows, row);
    if taken(rows, row) {
        assert(after[p] == row);
        if id == row.id {
            lemma_lookup_row(after, p);
        } else if q < rows.len() {
            assert(after[q] == rows[q]);
            lemma_lookup_row(after, q);
        } else {
            assert forall|j: int| 0 <= j < after.len() implies (#[trigger] after[j]).id != id by {
                if j != p {
                    assert(after[j] == rows[j]);
                }
            }
            lemma_position_at(after, id, after.len() as int);
        }
    } else {
        assert(after == rows);
    }
}

proof fn lemma_lookup_prefix(rows: Seq<RowView>, id: Seq<char>)
    requires
        unique_ids(rows),
        rows.len() > 0,
    ensures
        lookup(rows, id) == if rows.last().id == id {
            Some(rows.last())
        } else {
            lookup(rows.drop_last(), id)
        },
        rows.last().id == id ==> lookup(rows.drop_last(), id) is None,
{
    let front = rows.drop_last();
    lemma_position(front, id);
    lemma_position(rows, id);
    if rows.last().id == id {
        lemma_lookup_row(rows, rows.len() - 1);
        if position(front, id) < front.len() {
            assert(front[position(front, id)] == rows[position(front, id)]);
        }
    } else {
        let q = position(front, id);
        if q < front.len() {
            assert(rows[q] == front[q]);
            lemma_lookup_row(rows, q);
        } else {
            assert forall|j: int| 0 <= j < rows.len() implies (#[trigger] rows[j]).id != id by {
                if j < front.len() {
                    assert(front[j] == rows[j]);
                }
            }
            lemma_position_at(rows, id, rows.len() as int);
        }
    }
}

proof fn lemma_lookup_merged(rows: Seq<RowView>, offered: Seq<RowView>, id: Seq<char>)
    requires
        unique_ids(rows),
        unique_ids(offered),
    ensures
        lookup(merged_rows(rows, offered), id) == match lookup(offered, id) {
            Some(r) => if taken(rows, r) {
                Some(r)
            } else {
                lookup(rows, id)
            },
            None => lookup(rows, id),
        },
    decreases offered.len(),
{
    lemma_position(offered, id);
    if offered.len() > 0 {
        let front = offered.drop_last();
        let row = offered.last();
        let before = merged_rows(rows, front);
        lemma_lookup_merged(rows, front, id);
        lemma_lookup_merged(rows, front, row.id);
        lemma_lookup_prefix(offered, id);
        lemma_lookup_prefix(offered, row.id);
        lemma_merged_rows_unique(rows, front);
        lemma_lookup_upserted(before, row, id);
        lemma_position(front, id);
        lemma_position(before, row.id);
        lemma_position(rows, row.id);
    }
}

proof fn lemma_nothing_taken(rows: Seq<RowView>, offered: Seq<RowView>)
    requires
        forall|i: int| 0 <= i < offered.len() ==> !taken(rows, #[trigger] offered[i]),
    ensures
        merged_rows(rows, offered) == rows,
    decreases offered.len(),
{
    if offered.len() > 0 {
        let front = offered.drop_last();
        assert forall|i: int| 0 <= i < front.len() implies !taken(rows, #[trigger] front[i]) by {
            assert(front[i] == offered[i]);
        }
        lemma_nothing_taken(rows, front);
        assert(!taken(rows, offered[offered.len() - 1]));
        lemma_position(rows, offered.last().id);
    }
}

proof fn lemma_filter_none<A>(s: Seq<A>, p: spec_fn(A) -> bool)
    requires
        forall|i: int| 0 <= i < s.len() ==> !p(#[trigger] s[i]),
    ensures
        s.filter(p) == Seq::<A>::empty(),
    decreases s.len(),
{
    reveal(Seq::filter);
    if s.len() > 0 {
        lemma_filter_none(s.drop_last(), p);
        assert(!p(s[s.len() - 1]));
    }
}

// ---------------------------------------------------------------------------
// Ingredients
// ---------------------------------------------------------------------------

proof fn lemma_filter_push<A>(s: Seq<A>, x: A, p: spec_fn(A) -> bool)
    ensures
        s.push(x).filter(p) == if p(x) {
            s.filter(p).push(x)
        } else {
            s.filter(p)
        },
{
    reveal(Seq::filter);
    assert(s.push(x).drop_last() =~= s);
}

proof fn lemma_filter_twice<A>(s: Seq<A>, p: spec_fn(A) -> bool, q: spec_fn(A) -> bool)
    requires
        forall|i: int| 0 <= i < s.len() && p(#[trigger] s[i]) ==> q(s[i]),
    ensures
        s.filter(q).filter(p) == s.filter(p),
    decreases s.len(),
{
    reveal(Seq::filter);
    if s.len() > 0 {
        let front = s.drop_last();
        assert(forall|i: int| 0 <= i < front.len() ==> #[trigger] front[i] == s[i]);
        lemma_filter_twice(front, p, q);
        assert(p(s[s.len() - 1]) ==> q(s[s.len() - 1]));
        if q(s.last()) {
            lemma_filter_push(front.filter(q), s.last(), p);
        }
    }
}

/// Putting in ingredients of other recipes does not touch those of a recipe.
proof fn lemma_inserted_others(ings: Seq<IngredientView>, new: Seq<IngredientView>, id: Seq<char>)
    requires
        forall|i: int| 0 <= i < new.len() ==> (#[trigger] new[i]).recipe_id != id,
    ensures
        inserted(ings, new).filter(part_of(id)) == ings.filter(part_of(id)),
    decreases new.len(),
{
    if new.len() > 0 {
        let front = new.drop_last();
        assert(forall|i: int| 0 <= i < front.len() ==> #[trigger] front[i] == new[i]);
        lemma_inserted_others(ings, front, id);
        let before = inserted(ings, front);
        let x = new.last();
        assert(x == new[new.len() - 1]);
        lemma_filter_push(before.filter(other_than(x)), x, part_of(id));
        lemma_filter_twice(before, part_of(id), other_than(x));
    }
}

/// Holds of the ingredients that no ingredient of `new` stands for.
pub open spec fn not_among(new: Seq<IngredientView>) -> spec_fn(IngredientView) -> bool {
    |i: IngredientView| forall|j: int| 0 <= j < new.len() ==> !same_key(i, #[trigger] new[j])
}

proof fn lemma_filter_both<A>(
    s: Seq<A>,
    p: spec_fn(A) -> bool,
    q: spec_fn(A) -> bool,
    r: spec_fn(A) -> bool,
)
    requires
        forall|i: int| 0 <= i < s.len() ==> r(#[trigger] s[i]) == (p(s[i]) && q(s[i])),
    ensures
        s.filter(p).filter(q) == s.filter(r),
    decreases s.len(),
{
    reveal(Seq::filter);
    if s.len() > 0 {
        let front = s.drop_last();
        assert(forall|i: int| 0 <= i < front.len() ==> #[trigger] front[i] == s[i]);
        lemma_filter_both(front, p, q, r);
        assert(r(s[s.len() - 1]) == (p(s.last()) && q(s.last())));
        if p(s.last()) {
            lemma_filter_push(front.filter(p), s.last(), q);
        }
    }
}

/// Putting in ingredients that are all different leaves those that none of them stands for, and
/// behind them the new ones.
proof fn lemma_inserted_is(ings: Seq<IngredientView>, new: Seq<IngredientView>)
    requires
        unique_keys(new),
    ensures
        inserted(ings, new) == ings.filter(not_among(new)) + new,
    decreases new.len(),
{
    if new.len() == 0 {
        assert forall|i: int| 0 <= i < ings.len() implies not_among(new)(#[trigger] ings[i]) by {}
        lemma_filter_all(ings, not_among(new));
        assert(ings + new =~= ings);
    } else {
        let front = new.drop_last();
        let x = new.last();
        assert(unique_keys(front)) by {
            assert forall|i: int, j: int| 0 <= i < j < front.len() implies !same_key(
                #[trigger] front[i],
                #[trigger] front[j],
            ) by {
                assert(!same_key(new[i], new[j]));
            }
        }
        lemma_inserted_is(ings, front);
        let kept = ings.filter(not_among(front));
        let before = kept + front;
        // Nothing of `front` stands for `x`.
        assert forall|i: int| 0 <= i < front.len() implies other_than(x)(#[trigger] front[i]) by {
            assert(!same_key(new[i], new[new.len() - 1]));
        }
        lemma_filter_all(front, other_than(x));
        Seq::filter_distributes_over_add(kept, front, other_than(x));
        assert forall|i: int| 0 <= i < ings.len() implies not_among(new)(#[trigger] ings[i]) == (
        not_among(front)(ings[i]) && other_than(x)(ings[i])) by {
            let y = ings[i];
            if not_among(new)(y) {
                assert(!same_key(y, new[new.len() - 1]));
                assert forall|j: int| 0 <= j < front.len() implies !same_key(
                    y,
                    #[trigger] front[j],
                ) by {
                    assert(!same_key(y, new[j]));
                }
            }
            if not_among(front)(y) && other_than(x)(y) {
                assert forall|j: int| 0 <= j < new.len() implies !same_key(y, #[trigger] new[j]) by {
                    if j < front.len() {
                        assert(!same_key(y, front[j]));
                    }
                }
            }
        }
        lemma_filter_both(ings, not_among(front), other_than(x), not_among(new));
        assert((ings.filter(not_among(new)) + front).push(x) =~= ings.filter(not_among(new)) + new);
    }
}

// ---------------------------------------------------------------------------
// Storing and reading
// ---------------------------------------------------------------------------

/// A recipe of which every ingredient is its own.
pub open spec fn owns_ingredients(recipe: RecipeView) -> bool {
    forall|i: int|
        0 <= i < recipe.ingredients.len() ==> (#[trigger] recipe.ingredients[i]).recipe_id
            == recipe.id
}

/// A recipe of which every ingredient is its own, and no ingredient stands twice.
pub open spec fn coherent(recipe: RecipeView) -> bool {
    owns_ingredients(recipe) && unique_keys(recipe.ingredients)
}

/// A recipe with ingredients of its own can always be stored.
pub proof fn law_own_ingredients_are_accepted(t: Tables, recipe: RecipeView)
    requires
        t.wf(),
        owns_ingredients(recipe),
    ensures
        t.accepts(recipe),
{
    let rows = upserted(t.recipes, recipe.row());
    lemma_lookup_upserted(t.recipes, recipe.row(), recipe.id);
    lemma_storable(rows, recipe.ingredients);
    let n = storable(rows, recipe.ingredients);
    if n < recipe.ingredients.len() {
        assert(recipe.ingredients[n].recipe_id == recipe.id);
    }
}

/// What is stored can be read back: a coherent recipe that is new, or newer than what is there,
/// and that is not deleted, is then found as it was given.
pub proof fn law_stored_recipe_is_read_back(t: Tables, recipe: RecipeView)
    requires
        t.wf(),
        coherent(recipe),
        taken(t.recipes, recipe.row()),
        !recipe.is_deleted,
    ensures
        t.with_recipe(recipe).get(recipe.id) == Some(recipe),
{
    law_own_ingredients_are_accepted(t, recipe);
    lemma_lookup_upserted(t.recipes, recipe.row(), recipe.id);
    let new = recipe.ingredients;
    assert(new.take(new.len() as int) =~= new);
    lemma_stored_ingredients(t, recipe);
    assert(t.with_recipe(recipe).recipe(recipe.row()) == recipe);
}

proof fn lemma_stored_ingredients(t: Tables, recipe: RecipeView)
    requires
        coherent(recipe),
    ensures
        inserted(t.ingredients.filter(not_part_of(recipe.id)), recipe.ingredients).filter(
            part_of(recipe.id),
        ) == recipe.ingredients,
{
    let id = recipe.id;
    let new = recipe.ingredients;
    let base = t.ingredients.filter(not_part_of(id));
    lemma_inserted_is(base, new);
    let kept = base.filter(not_among(new));
    assert forall|i: int| 0 <= i < kept.len() implies !part_of(id)(#[trigger] kept[i]) by {
        base.lemma_filter_contains_rev(not_among(new), kept[i]);
        let k = choose|k: int| 0 <= k < base.len() && base[k] == kept[i];
        t.ingredients.lemma_filter_pred(not_part_of(id), k);
    }
    lemma_filter_none(kept, part_of(id));
    assert forall|i: int| 0 <= i < new.len() implies part_of(id)(#[trigger] new[i]) by {}
    lemma_filter_all(new, part_of(id));
    Seq::filter_distributes_over_add(kept, new, part_of(id));
    assert(Seq::<IngredientView>::empty() + new =~= new);
}

/// Of an ingredient that a recipe names more than once, the last is what is read back, at the
/// place of the last.
pub proof fn law_last_of_each_ingredient_is_read_back(t: Tables, recipe: RecipeView)
    requires
        t.wf(),
        owns_ingredients(recipe),
        taken(t.recipes, recipe.row()),
        !recipe.is_deleted,
    ensures
        t.with_recipe(recipe).get(recipe.id) == Some(
            RecipeView { ingredients: inserted(Seq::empty(), recipe.ingredients), ..recipe },
        ),
{
    law_own_ingredients_are_accepted(t, recipe);
    lemma_lookup_upserted(t.recipes, recipe.row(), recipe.id);
    let id = recipe.id;
    let new = recipe.ingredients;
    let base = t.ingredients.filter(not_part_of(id));
    assert(new.take(new.len() as int) =~= new);
    lemma_inserted_own(base, new, id);
    assert forall|i: int| 0 <= i < base.len() implies !part_of(id)(#[trigger] base[i]) by {
        t.ingredients.lemma_filter_pred(not_part_of(id), i);
    }
    lemma_filter_none(base, part_of(id));
}

proof fn lemma_inserted_own(ings: Seq<IngredientView>, new: Seq<IngredientView>, id: Seq<char>)
    requires
        forall|i: int| 0 <= i < new.len() ==> (#[trigger] new[i]).recipe_id == id,
    ensures
        inserted(ings, new).filter(part_of(id)) == inserted(ings.filter(part_of(id)), new),
    decreases new.len(),
{
    if new.len() > 0 {
        let front = new.drop_last();
        let x = new.last();
        assert(x == new[new.len() - 1]);
        assert(forall|i: int| 0 <= i < front.len() ==> #[trigger] front[i] == new[i]);
        lemma_inserted_own(ings, front, id);
        let before = inserted(ings, front);
        let both = |i: IngredientView| part_of(id)(i) && other_than(x)(i);
        lemma_filter_push(before.filter(other_than(x)), x, part_of(id));
        lemma_filter_both(before, other_than(x), part_of(id), both);
        lemma_filter_both(before, part_of(id), other_than(x), both);
    }
}

/// Storing a version that is not newer than what is there keeps the row, but replaces the
/// ingredients.
pub proof fn law_stale_version_keeps_the_row(t: Tables, recipe: RecipeView)
    requires
        t.wf(),
        coherent(recipe),
        !taken(t.recipes, recipe.row()),
    ensures
        t.with_recipe(recipe).recipes == t.recipes,
        t.with_recipe(recipe).ingredients.filter(part_of(recipe.id)) == recipe.ingredients,
{
    law_own_ingredients_are_accepted(t, recipe);
    lemma_position(t.recipes, recipe.id);
    let new = recipe.ingredients;
    assert(new.take(new.len() as int) =~= new);
    lemma_stored_ingredients(t, recipe);
}

/// Storing a recipe with ingredients of its own does not touch any other recipe.
pub proof fn law_storing_leaves_other_recipes(t: Tables, recipe: RecipeView, id: Seq<char>)
    requires
        t.wf(),
        owns_ingredients(recipe),
        id != recipe.id,
    ensures
        lookup(t.with_recipe(recipe).recipes, id) == lookup(t.recipes, id),
        t.with_recipe(recipe).get(id) == t.get(id),
{
    lemma_lookup_upserted(t.recipes, recipe.row(), id);
    let rows = upserted(t.recipes, recipe.row());
    let new = recipe.ingredients.take(storable(rows, recipe.ingredients));
    lemma_storable(rows, recipe.ingredients);
    assert forall|i: int| 0 <= i < new.len() implies (#[trigger] new[i]).recipe_id != id by {
        assert(new[i] == recipe.ingredients[i]);
    }
    lemma_inserted_others(t.ingredients.filter(not_part_of(recipe.id)), new, id);
    lemma_filter_twice(t.ingredients, part_of(id), not_part_of(recipe.id));
    lemma_position(t.recipes, id);
    lemma_position(rows, id);
}

/// Storing the same recipe again changes nothing more that can be read of it.
pub proof fn law_storing_again_reads_the_same(t: Tables, recipe: RecipeView)
    requires
        t.wf(),
        t.with_recipe(recipe).wf(),
        coherent(recipe),
        taken(t.recipes, recipe.row()),
        !recipe.is_deleted,
    ensures
        t.with_recipe(recipe).with_recipe(recipe).get(recipe.id) == Some(recipe),
{
    law_stored_recipe_is_read_back(t, recipe);
    let once = t.with_recipe(recipe);
    lemma_lookup_upserted(t.recipes, recipe.row(), recipe.id);
    assert(!taken(once.recipes, recipe.row()));
    law_stale_version_keeps_the_row(once, recipe);
    assert(once.with_recipe(recipe).recipe(recipe.row()) == recipe);
}

// ---------------------------------------------------------------------------
// Deleting
// ---------------------------------------------------------------------------

proof fn lemma_deleted_rows(rows: Seq<RowView>, id: Seq<char>, now: i64, other: Seq<char>)
    requires
        unique_ids(rows),
    ensures
        unique_ids(deleted_rows(rows, id, now)),
        lookup(deleted_rows(rows, id, now), other) == match lookup(rows, other) {
            Some(r) => Some(
                if other == id {
                    RowView { is_deleted: true, updated_at: now, ..r }
                } else {
                    r
                },
            ),
            None => None,
        },
{
    let after = deleted_rows(rows, id, now);
    lemma_position(rows, id);
    lemma_position(rows, other);
    let p = position(rows, id);
    let q = position(rows, other);
    if p < rows.len() {
        assert(forall|j: int| 0 <= j < rows.len() ==> (#[trigger] after[j]).id == rows[j].id);
        lemma_position_at(after, other, q);
    }
}

/// A deleted recipe stays stored as deleted since the given time, and is found no more: not by
/// its id, in no list, by no search, and none of its ingredients is in use.
pub proof fn law_deleted_recipe_is_gone(
    t: Tables,
    id: Seq<char>,
    now: i64,
    query: Seq<char>,
    hits: Seq<Seq<char>>,
)
    requires
        t.wf(),
    ensures
        t.without_recipe(id, now).get(id) is None,
        forall|i: int|
            0 <= i < t.without_recipe(id, now).list().len() ==> (#[trigger] t.without_recipe(
                id,
                now,
            ).list()[i]).id != id,
        forall|i: int|
            0 <= i < t.without_recipe(id, now).search(query, hits).len() ==> (
            #[trigger] t.without_recipe(id, now).search(query, hits)[i]).id != id,
        forall|i: int|
            0 <= i < t.without_recipe(id, now).pantry().len() ==> (#[trigger] t.without_recipe(
                id,
                now,
            ).pantry()[i]).recipe_id != id,
        lookup(t.recipes, id) matches Some(r) ==> lookup(t.without_recipe(id, now).recipes, id)
            == Some(RowView { is_deleted: true, updated_at: now, ..r }),
{
    let after = t.without_recipe(id, now);
    lemma_deleted_rows(t.recipes, id, now, id);
    lemma_position(t.recipes, id);
    assert forall|i: int| 0 <= i < after.list().len() implies (#[trigger] after.list()[i]).id
        != id by {
        let row = lemma_selected(after, live(), i);
        lemma_lookup_row(after.recipes, row);
    }
    assert forall|i: int| 0 <= i < after.search(query, hits).len() implies (
    #[trigger] after.search(query, hits)[i]).id != id by {
        if !crate::infra::db::query::blank(query) {
            let row = lemma_selected(after, live_hit(hits), i);
            lemma_lookup_row(after.recipes, row);
        } else {
            assert(after.search(query, hits) == after.list());
        }
    }
    lemma_by_name_orders();
    let used = after.ingredients.filter(after.in_use());
    law_in_order_sorts(used, by_normalized_name());
    assert forall|i: int| 0 <= i < after.pantry().len() implies (#[trigger] after.pantry()[i]).recipe_id
        != id by {
        let x = after.pantry()[i];
        lemma_same_items(after.pantry(), used, i);
        after.ingredients.lemma_filter_contains_rev(after.in_use(), x);
        let k = choose|k: int| 0 <= k < used.len() && used[k] == x;
        after.ingredients.lemma_filter_pred(after.in_use(), k);
    }
}

/// Deleting a recipe does not touch any other.
pub proof fn law_deleting_leaves_other_recipes(t: Tables, id: Seq<char>, now: i64, other: Seq<char>)
    requires
        t.wf(),
        other != id,
    ensures
        t.without_recipe(id, now).get(other) == t.get(other),
{
    lemma_deleted_rows(t.recipes, id, now, other);
}

// ---------------------------------------------------------------------------
// Lists
// ---------------------------------------------------------------------------

proof fn lemma_newest_first_orders()
    ensures
        orders(newest_first()),
{
}

proof fn lemma_by_name_orders()
    ensures
        orders(by_normalized_name()),
{
    let le = by_normalized_name();
    assert forall|a: IngredientView, b: IngredientView| #[trigger] le(a, b) || le(b, a) by {
        lemma_text_le(a.normalized_name, b.normalized_name, a.normalized_name);
    }
    assert forall|a: IngredientView, b: IngredientView, c: IngredientView| #[trigger]
        le(a, b) && #[trigger] le(b, c) implies le(a, c) by {
        lemma_text_le(a.normalized_name, b.normalized_name, c.normalized_name);
    }
}

proof fn lemma_same_items<A>(a: Seq<A>, b: Seq<A>, i: int)
    requires
        a.to_multiset() == b.to_multiset(),
        0 <= i < a.len(),
    ensures
        b.contains(a[i]),
{
    broadcast use vstd::seq_lib::group_to_multiset_ensures;

    assert(a.contains(a[i]));
    assert(a.to_multiset().count(a[i]) > 0);
}

/// Each selected recipe comes from a row that was asked for.
proof fn lemma_selected(t: Tables, p: spec_fn(RowView) -> bool, i: int) -> (k: int)
    requires
        0 <= i < t.select(p).len(),
    ensures
        0 <= k < t.recipes.len(),
        p(t.recipes[k]),
        t.select(p)[i] == t.recipe(t.recipes[k]),
{
    let rows = t.recipes.filter(p);
    let sorted = in_order(rows, newest_first());
    lemma_newest_first_orders();
    law_in_order_sorts(rows, newest_first());
    lemma_same_items(sorted, rows, i);
    let j = choose|j: int| 0 <= j < rows.len() && rows[j] == sorted[i];
    t.recipes.lemma_filter_pred(p, j);
    t.recipes.lemma_filter_contains_rev(p, sorted[i]);
    choose|k: int| 0 <= k < t.recipes.len() && t.recipes[k] == sorted[i]
}

/// Each row that was asked for is among the selected recipes.
proof fn lemma_selects(t: Tables, p: spec_fn(RowView) -> bool, k: int)
    requires
        0 <= k < t.recipes.len(),
        p(t.recipes[k]),
    ensures
        t.select(p).contains(t.recipe(t.recipes[k])),
{
    let rows = t.recipes.filter(p);
    let sorted = in_order(rows, newest_first());
    lemma_newest_first_orders();
    law_in_order_sorts(rows, newest_first());
    t.recipes.lemma_filter_contains(p, k);
    let j = choose|j: int| 0 <= j < rows.len() && rows[j] == t.recipes[k];
    lemma_same_items(rows, sorted, j);
    let m = choose|m: int| 0 <= m < sorted.len() && sorted[m] == rows[j];
    assert(t.select(p)[m] == t.recipe(t.recipes[k]));
}

/// The list holds just the recipes that can be read by their ids.
pub proof fn law_list_is_what_can_be_read(t: Tables, recipe: RecipeView)
    requires
        t.wf(),
    ensures
        t.list().contains(recipe) <==> t.get(recipe.id) == Some(recipe),
{
    if t.list().contains(recipe) {
        let i = choose|i: int| 0 <= i < t.list().len() && t.list()[i] == recipe;
        let k = lemma_selected(t, live(), i);
        lemma_lookup_row(t.recipes, k);
    }
    if t.get(recipe.id) == Some(recipe) {
        lemma_position(t.recipes, recipe.id);
        lemma_selects(t, live(), position(t.recipes, recipe.id));
    }
}

/// In a list or a search result no recipe comes before one that was changed later, and no recipe
/// stands twice.
pub proof fn law_search_is_newest_first(t: Tables, query: Seq<char>, hits: Seq<Seq<char>>)
    requires
        t.wf(),
    ensures
        forall|i: int, j: int|
            0 <= i < j < t.search(query, hits).len() ==> (#[trigger] t.search(
                query,
                hits,
            )[i]).updated_at >= (#[trigger] t.search(query, hits)[j]).updated_at,
        forall|i: int, j: int|
            0 <= i < j < t.search(query, hits).len() ==> (#[trigger] t.search(query, hits)[i]).id
                != (#[trigger] t.search(query, hits)[j]).id,
{
    let p = if crate::infra::db::query::blank(query) {
        live()
    } else {
        live_hit(hits)
    };
    let rows = t.recipes.filter(p);
    let sorted = in_order(rows, newest_first());
    lemma_newest_first_orders();
    law_in_order_sorts(rows, newest_first());
    lemma_filtered_ids(t.recipes, p);
    lemma_distinct_ids(rows, sorted);
    let found = t.select(p);
    assert forall|i: int, j: int| 0 <= i < j < found.len() implies (#[trigger] found[i]).updated_at
        >= (#[trigger] found[j]).updated_at && found[i].id != found[j].id by {
        assert(newest_first()(sorted[i], sorted[j]));
        assert(sorted[i].id != sorted[j].id);
    }
}

proof fn lemma_filtered_ids(rows: Seq<RowView>, p: spec_fn(RowView) -> bool)
    requires
        unique_ids(rows),
    ensures
        unique_ids(rows.filter(p)),
    decreases rows.len(),
{
    reveal(Seq::filter);
    if rows.len() > 0 {
        let front = rows.drop_last();
        lemma_filtered_ids(front, p);
        let kept = front.filter(p);
        if p(rows.last()) {
            assert forall|i: int, j: int| 0 <= i < j < rows.filter(p).len() implies (
            #[trigger] rows.filter(p)[i]).id != (#[trigger] rows.filter(p)[j]).id by {
                if j == kept.len() {
                    front.lemma_filter_contains_rev(p, kept[i]);
                    let k = choose|k: int| 0 <= k < front.len() && front[k] == kept[i];
                    assert(rows[k] == kept[i]);
                    assert(rows[k].id != rows[rows.len() - 1].id);
                }
            }
        }
    }
}

proof fn lemma_distinct_ids(a: Seq<RowView>, b: Seq<RowView>)
    requires
        unique_ids(a),
        a.to_multiset() == b.to_multiset(),
    ensures
        unique_ids(b),
{
    broadcast use vstd::seq_lib::group_to_multiset_ensures;

    assert(a.no_duplicates()) by {
        assert forall|i: int, j: int| 0 <= i < a.len() && 0 <= j < a.len() && i != j implies a[i]
            != a[j] by {
            if i < j {
                assert(a[i].id != a[j].id);
            } else {
                assert(a[j].id != a[i].id);
            }
        }
    }
    a.lemma_multiset_has_no_duplicates();
    assert(b.no_duplicates()) by {
        assert forall|x: RowView| b.to_multiset().contains(x) implies b.to_multiset().count(x)
            == 1 by {
            assert(a.to_multiset().contains(x));
        }
        b.lemma_multiset_has_no_duplicates_conv();
    }
    assert forall|i: int, j: int| 0 <= i < j < b.len() implies (#[trigger] b[i]).id != (
    #[trigger] b[j]).id by {
        lemma_same_items(b, a, i);
        lemma_same_items(b, a, j);
        let k = choose|k: int| 0 <= k < a.len() && a[k] == b[i];
        let m = choose|m: int| 0 <= m < a.len() && a[m] == b[j];
        assert(b[i] != b[j]);
        if k < m {
            assert(a[k].id != a[m].id);
        } else if m < k {
            assert(a[m].id != a[k].id);
        }
    }
}

/// A search finds just those of the listed recipes that match, and all of them.
pub proof fn law_search_finds_what_matches(
    t: Tables,
    query: Seq<char>,
    hits: Seq<Seq<char>>,
    recipe: RecipeView,
)
    requires
        t.wf(),
    ensures
        t.search(query, hits).contains(recipe) <==> t.list().contains(recipe) && (
        crate::infra::db::query::blank(query) || hits.contains(recipe.id)),
{
    let found = t.search(query, hits);
    if !crate::infra::db::query::blank(query) {
        law_list_is_what_can_be_read(t, recipe);
        if found.contains(recipe) {
            let i = choose|i: int| 0 <= i < found.len() && found[i] == recipe;
            let k = lemma_selected(t, live_hit(hits), i);
            lemma_lookup_row(t.recipes, k);
        }
        if t.list().contains(recipe) && hits.contains(recipe.id) {
            lemma_position(t.recipes, recipe.id);
            lemma_selects(t, live_hit(hits), position(t.recipes, recipe.id));
        }
    }
}

/// The ingredients in use are listed by their normalized names.
pub proof fn law_pantry_is_sorted(t: Tables)
    ensures
        is_in_order(t.pantry(), by_normalized_name()),
        t.pantry().to_multiset() == t.ingredients.filter(t.in_use()).to_multiset(),
{
    lemma_by_name_orders();
    law_in_order_sorts(t.ingredients.filter(t.in_use()), by_normalized_name());
}

// ---------------------------------------------------------------------------
// Merging
// ---------------------------------------------------------------------------

/// Last write wins: of each recipe a merge keeps the remote version if it is newer or the only
/// one, and the local version otherwise.
pub proof fn law_merge_keeps_the_newer(local: Tables, remote: Tables, id: Seq<char>)
    requires
        local.wf(),
        remote.wf(),
    ensures
        lookup(local.merged(remote).recipes, id) == match (
            lookup(local.recipes, id),
            lookup(remote.recipes, id),
        ) {
            (Some(l), Some(r)) => if newer(l.updated_at, r.updated_at) {
                Some(r)
            } else {
                Some(l)
            },
            (Some(l), None) => Some(l),
            (None, Some(r)) => Some(r),
            (None, None) => None,
        },
{
    lemma_lookup_merged(local.recipes, remote.recipes, id);
    lemma_position(remote.recipes, id);
}

/// A merge never goes back to an older version.
pub proof fn law_merge_never_goes_back(local: Tables, remote: Tables, id: Seq<char>)
    requires
        local.wf(),
        remote.wf(),
        lookup(local.recipes, id) is Some,
    ensures
        lookup(local.merged(remote).recipes, id) matches Some(m) && m.updated_at >= lookup(
            local.recipes,
            id,
        )->0.updated_at,
{
    law_merge_keeps_the_newer(local, remote, id);
}

/// Where the local version of a recipe is kept, nothing of it changes, its ingredients included.
pub proof fn law_merge_leaves_what_it_keeps(local: Tables, remote: Tables, id: Seq<char>)
    requires
        local.wf(),
        remote.wf(),
        !local.takes(remote, id),
    ensures
        lookup(local.merged(remote).recipes, id) == lookup(local.recipes, id),
        local.merged(remote).get(id) == local.get(id),
        local.merged(remote).ingredients.filter(part_of(id)) == local.ingredients.filter(
            part_of(id),
        ),
{
    lemma_lookup_merged(local.recipes, remote.recipes, id);
    lemma_position(local.recipes, id);
    lemma_merged_ingredients(local, remote, id);
}

/// A recipe that is taken over and not deleted is, after the merge, the remote version, with just
/// its ingredients.
pub proof fn law_merge_takes_the_whole_recipe(local: Tables, remote: Tables, id: Seq<char>)
    requires
        local.wf(),
        remote.wf(),
        local.takes(remote, id),
        !lookup(remote.recipes, id)->0.is_deleted,
    ensures
        local.merged(remote).ingredients.filter(part_of(id)) == remote.ingredients.filter(
            part_of(id),
        ),
        local.merged(remote).get(id) == remote.get(id),
{
    lemma_lookup_merged(local.recipes, remote.recipes, id);
    lemma_position(remote.recipes, id);
    lemma_merged_ingredients(local, remote, id);
}

/// Last write wins for the whole recipe: one that is stored on both sides and not deleted after
/// the merge is, ingredients included, the remote version if it is newer, and else the local one.
pub proof fn law_merge_is_one_whole_version(local: Tables, remote: Tables, id: Seq<char>)
    requires
        local.wf(),
        remote.wf(),
        lookup(local.recipes, id) is Some,
        lookup(remote.recipes, id) is Some,
        local.merged(remote).get(id) is Some,
    ensures
        local.merged(remote).get(id) == if newer(
            lookup(local.recipes, id)->0.updated_at,
            lookup(remote.recipes, id)->0.updated_at,
        ) {
            remote.get(id)
        } else {
            local.get(id)
        },
{
    lemma_position(local.recipes, id);
    lemma_position(remote.recipes, id);
    if local.takes(remote, id) {
        law_merge_keeps_the_newer(local, remote, id);
        law_merge_takes_the_whole_recipe(local, remote, id);
    } else {
        law_merge_leaves_what_it_keeps(local, remote, id);
    }
}

/// The ingredients of a recipe after a merge are all from one side.
proof fn lemma_merged_ingredients(local: Tables, remote: Tables, id: Seq<char>)
    ensures
        local.merged(remote).ingredients.filter(part_of(id)) == if local.takes(remote, id)
            && !lookup(remote.recipes, id)->0.is_deleted {
            remote.ingredients.filter(part_of(id))
        } else {
            local.ingredients.filter(part_of(id))
        },
{
    let keep = local.keeps_ingredient(remote);
    let take = local.takes_ingredient(remote);
    let kept = local.ingredients.filter(keep);
    let new = remote.ingredients.filter(take);
    Seq::filter_distributes_over_add(kept, new, part_of(id));
    if local.takes(remote, id) && !lookup(remote.recipes, id)->0.is_deleted {
        assert forall|i: int| 0 <= i < kept.len() implies !part_of(id)(#[trigger] kept[i]) by {
            local.ingredients.lemma_filter_pred(keep, i);
        }
        lemma_filter_none(kept, part_of(id));
        lemma_filter_twice(remote.ingredients, part_of(id), take);
        assert(Seq::<IngredientView>::empty() + new.filter(part_of(id)) =~= new.filter(
            part_of(id),
        ));
    } else {
        assert forall|i: int| 0 <= i < new.len() implies !part_of(id)(#[trigger] new[i]) by {
            remote.ingredients.lemma_filter_pred(take, i);
        }
        lemma_filter_none(new, part_of(id));
        lemma_filter_twice(local.ingredients, part_of(id), keep);
        assert(kept.filter(part_of(id)) + Seq::<IngredientView>::empty() =~= kept.filter(
            part_of(id),
        ));
    }
}

/// A deletion travels: where the remote version is newer and deleted, the recipe is deleted after
/// the merge.
pub proof fn law_deletion_travels(local: Tables, remote: Tables, id: Seq<char>)
    requires
        local.wf(),
        remote.wf(),
        local.takes(remote, id),
        lookup(remote.recipes, id)->0.is_deleted,
    ensures
        lookup(local.merged(remote).recipes, id) == lookup(remote.recipes, id),
        local.merged(remote).get(id) is None,
{
    lemma_lookup_merged(local.recipes, remote.recipes, id);
}

/// Merging the same database again takes nothing over and changes nothing.
pub proof fn law_merge_is_idempotent(local: Tables, remote: Tables)
    requires
        local.wf(),
        remote.wf(),
    ensures
        local.merged(remote).merged(remote) == local.merged(remote),
        local.merged(remote).merge_count(remote) == 0,
{
    let once = local.merged(remote);
    assert forall|i: int| 0 <= i < remote.recipes.len() implies !taken(
        once.recipes,
        #[trigger] remote.recipes[i],
    ) by {
        lemma_lookup_row(remote.recipes, i);
        law_merge_keeps_the_newer(local, remote, remote.recipes[i].id);
    }
    lemma_nothing_taken(once.recipes, remote.recipes);
    lemma_filter_none(remote.recipes, once.takes_row());
    lemma_no_ingredients_taken(once, remote);
}

/// Where no recipe is taken over, the local ingredients stay as they are.
proof fn lemma_no_ingredients_taken(local: Tables, remote: Tables)
    requires
        forall|i: int|
            0 <= i < remote.recipes.len() ==> !taken(local.recipes, #[trigger] remote.recipes[i]),
    ensures
        local.merged(remote).ingredients == local.ingredients,
{
    let keep = local.keeps_ingredient(remote);
    let take = local.takes_ingredient(remote);
    assert forall|i: IngredientView| !(#[trigger] take(i)) by {
        lemma_position(remote.recipes, i.recipe_id);
        if lookup(remote.recipes, i.recipe_id) is Some {
            assert(!taken(
                local.recipes,
                remote.recipes[position(remote.recipes, i.recipe_id)],
            ));
        }
    }
    lemma_filter_none(remote.ingredients, take);
    assert forall|i: int| 0 <= i < local.ingredients.len() implies keep(
        #[trigger] local.ingredients[i],
    ) by {
        assert(!take(local.ingredients[i]));
    }
    lemma_filter_all(local.ingredients, keep);
    assert(local.ingredients + Seq::<IngredientView>::empty() =~= local.ingredients);
}

/// Merging a database into itself changes nothing.
pub proof fn law_merge_with_itself(t: Tables)
    requires
        t.wf(),
    ensures
        t.merged(t) == t,
        t.merge_count(t) == 0,
{
    assert forall|i: int| 0 <= i < t.recipes.len() implies !taken(
        t.recipes,
        #[trigger] t.recipes[i],
    ) by {
        lemma_lookup_row(t.recipes, i);
    }
    lemma_nothing_taken(t.recipes, t.recipes);
    lemma_filter_none(t.recipes, t.takes_row());
    lemma_no_ingredients_taken(t, t);
}

/// Two devices that merge each other's recipes end up with the same version of each, its
/// ingredients included, as long as no recipe was changed on both at the same second.
pub proof fn law_merge_converges(a: Tables, b: Tables, id: Seq<char>)
    requires
        a.wf(),
        b.wf(),
        lookup(a.recipes, id) matches Some(x) ==> lookup(b.recipes, id) matches Some(y)
            ==> x.updated_at == y.updated_at ==> x == y && a.ingredients.filter(part_of(id))
            == b.ingredients.filter(part_of(id)),
    ensures
        lookup(a.merged(b).recipes, id) == lookup(b.merged(a).recipes, id),
        a.merged(b).get(id) == b.merged(a).get(id),
{
    law_merge_keeps_the_newer(a, b, id);
    law_merge_keeps_the_newer(b, a, id);
    lemma_merged_ingredients(a, b, id);
    lemma_merged_ingredients(b, a, id);
    lemma_position(a.recipes, id);
    lemma_position(b.recipes, id);
}

// ---------------------------------------------------------------------------
// Links
// ---------------------------------------------------------------------------

proof fn lemma_inserted_from(ings: Seq<IngredientView>, new: Seq<IngredientView>, i: int)
    requires
        0 <= i < inserted(ings, new).len(),
    ensures
        ings.contains(inserted(ings, new)[i]) || new.contains(inserted(ings, new)[i]),
    decreases new.len(),
{
    let after = inserted(ings, new);
    if new.len() == 0 {
        assert(ings[i] == after[i]);
    } else {
        let front = new.drop_last();
        let before = inserted(ings, front);
        let kept = before.filter(other_than(new.last()));
        if i < kept.len() {
            before.lemma_filter_contains_rev(other_than(new.last()), kept[i]);
            let k = choose|k: int| 0 <= k < before.len() && before[k] == kept[i];
            lemma_inserted_from(ings, front, k);
            if front.contains(before[k]) {
                let m = choose|m: int| 0 <= m < front.len() && front[m] == before[k];
                assert(new[m] == before[k]);
            }
        } else {
            assert(new[new.len() - 1] == after[i]);
        }
    }
}

/// Storing a recipe never leaves an ingredient without its recipe.
pub proof fn law_storing_keeps_links(t: Tables, recipe: RecipeView)
    requires
        t.wf(),
        t.linked(),
    ensures
        t.with_recipe(recipe).linked(),
{
    let after = t.with_recipe(recipe);
    let rows = after.recipes;
    let base = t.ingredients.filter(not_part_of(recipe.id));
    let new = recipe.ingredients.take(storable(rows, recipe.ingredients));
    lemma_storable(rows, recipe.ingredients);
    assert forall|i: int| 0 <= i < after.ingredients.len() implies has_recipe(
        rows,
        #[trigger] after.ingredients[i],
    ) by {
        let x = after.ingredients[i];
        lemma_inserted_from(base, new, i);
        if new.contains(x) {
            let k = choose|k: int| 0 <= k < new.len() && new[k] == x;
            assert(recipe.ingredients[k] == x);
        } else {
            t.ingredients.lemma_filter_contains_rev(not_part_of(recipe.id), x);
            let k = choose|k: int| 0 <= k < t.ingredients.len() && t.ingredients[k] == x;
            assert(has_recipe(t.recipes, t.ingredients[k]));
            lemma_lookup_upserted(t.recipes, recipe.row(), x.recipe_id);
        }
    }
}

/// Deleting a recipe never leaves an ingredient without its recipe.
pub proof fn law_deleting_keeps_links(t: Tables, id: Seq<char>, now: i64)
    requires
        t.wf(),
        t.linked(),
    ensures
        t.without_recipe(id, now).linked(),
{
    let after = t.without_recipe(id, now);
    assert forall|i: int| 0 <= i < after.ingredients.len() implies has_recipe(
        after.recipes,
        #[trigger] after.ingredients[i],
    ) by {
        assert(has_recipe(t.recipes, t.ingredients[i]));
        lemma_deleted_rows(t.recipes, id, now, t.ingredients[i].recipe_id);
    }
}

/// Merging never leaves an ingredient without its recipe, whatever the remote database holds.
pub proof fn law_merging_keeps_links(local: Tables, remote: Tables)
    requires
        local.wf(),
        local.linked(),
        remote.wf(),
    ensures
        local.merged(remote).linked(),
{
    let after = local.merged(remote);
    let keep = local.keeps_ingredient(remote);
    let take = local.takes_ingredient(remote);
    let kept = local.ingredients.filter(keep);
    assert forall|i: int| 0 <= i < after.ingredients.len() implies has_recipe(
        after.recipes,
        #[trigger] after.ingredients[i],
    ) by {
        let x = after.ingredients[i];
        lemma_lookup_merged(local.recipes, remote.recipes, x.recipe_id);
        if i >= kept.len() {
            remote.ingredients.lemma_filter_pred(take, i - kept.len());
        } else {
            local.ingredients.lemma_filter_contains_rev(keep, x);
            let k = choose|k: int| 0 <= k < local.ingredients.len() && local.ingredients[k] == x;
            assert(has_recipe(local.recipes, local.ingredients[k]));
        }
    }
}

/// The time that was noted for the last merge is the time that is read.
pub proof fn law_last_sync_is_read_back(t: Tables, ts: i64)
    ensures
        (Tables { last_sync: Some(signed_decimal(ts as int)), ..t }).synced_at() == ts,
{
    law_signed_text_round_trip(ts);
}

// ---------------------------------------------------------------------------
// What is stored, row by row
// ---------------------------------------------------------------------------

/// A row is found by its id if it is there, and nothing is found by an id that no row has.
pub proof fn law_rows_are_found_by_their_ids(rows: Seq<RowView>, id: Seq<char>)
    requires
        unique_ids(rows),
    ensures
        forall|r: RowView| #[trigger] rows.contains(r) ==> lookup(rows, r.id) == Some(r),
        lookup(rows, id) matches Some(r) ==> rows.contains(r) && r.id == id,
        lookup(rows, id) is None ==> forall|i: int|
            0 <= i < rows.len() ==> (#[trigger] rows[i]).id != id,
{
    lemma_position(rows, id);
    assert forall|r: RowView| #[trigger] rows.contains(r) implies lookup(rows, r.id) == Some(r) by {
        let k = choose|k: int| 0 <= k < rows.len() && rows[k] == r;
        lemma_lookup_row(rows, k);
    }
    if lookup(rows, id) is Some {
        assert(rows[position(rows, id)] == lookup(rows, id)->0);
    }
}

/// A recipe can be read just if its row is there and not deleted, and what is read is what the row
/// holds, with all ingredients of that recipe and no others.
pub proof fn law_a_recipe_is_its_row_and_its_ingredients(t: Tables, id: Seq<char>)
    ensures
        t.get(id) is Some <==> lookup(t.recipes, id) is Some && !lookup(t.recipes, id)->0.is_deleted,
        t.get(id) matches Some(r) ==> {
            let row = lookup(t.recipes, id)->0;
            &&& r.id == id && r.title == row.title && r.source_url == row.source_url
            &&& r.instructions == row.instructions && r.substitutes_json == row.substitutes_json
            &&& r.updated_at == row.updated_at && !r.is_deleted
            &&& forall|i: IngredientView| #[trigger]
                r.ingredients.contains(i) <==> t.ingredients.contains(i) && i.recipe_id == id
        },
{
    lemma_position(t.recipes, id);
    if t.get(id) is Some {
        let p = part_of(id);
        let own = t.ingredients.filter(p);
        assert forall|i: IngredientView| #[trigger] own.contains(i) <==> t.ingredients.contains(i)
            && i.recipe_id == id by {
            if own.contains(i) {
                let k = choose|k: int| 0 <= k < own.len() && own[k] == i;
                t.ingredients.lemma_filter_pred(p, k);
                t.ingredients.lemma_filter_contains_rev(p, i);
            }
            if t.ingredients.contains(i) && i.recipe_id == id {
                let k = choose|k: int| 0 <= k < t.ingredients.len() && t.ingredients[k] == i;
                t.ingredients.lemma_filter_contains(p, k);
            }
        }
    }
}

/// The ingredients of a recipe are read in the order in which they are stored.
pub proof fn law_ingredients_are_read_in_order(t: Tables, id: Seq<char>, i: IngredientView)
    requires
        t.get(id) is Some,
    ensures
        ({
            let more = Tables { ingredients: t.ingredients.push(i), ..t };
            &&& more.get(id) is Some
            &&& more.get(id)->0.ingredients == if i.recipe_id == id {
                t.get(id)->0.ingredients.push(i)
            } else {
                t.get(id)->0.ingredients
            }
        }),
{
    lemma_position(t.recipes, id);
    lemma_filter_push(t.ingredients, i, part_of(id));
}

/// Storing a recipe stores its row just if there is none of it, or only one with an earlier time;
/// the row then holds what the recipe does.
pub proof fn law_the_later_row_is_stored(t: Tables, recipe: RecipeView)
    requires
        t.wf(),
    ensures
        ({
            let before = lookup(t.recipes, recipe.id);
            let after = lookup(t.with_recipe(recipe).recipes, recipe.id);
            &&& after is Some
            &&& before is None || before->0.updated_at < recipe.updated_at ==> {
                let row = after->0;
                &&& row.id == recipe.id && row.title == recipe.title
                &&& row.source_url == recipe.source_url && row.instructions == recipe.instructions
                &&& row.substitutes_json == recipe.substitutes_json
                &&& row.updated_at == recipe.updated_at && row.is_deleted == recipe.is_deleted
            }
            &&& before is Some && before->0.updated_at >= recipe.updated_at ==> after == before
        }),
{
    lemma_lookup_upserted(t.recipes, recipe.row(), recipe.id);
}

/// What is stored can be read back: a recipe of which there is none, or only one with an earlier
/// time, is found as it was given, whatever its ingredients and texts are.
pub proof fn law_a_later_recipe_is_read_back(t: Tables, recipe: RecipeView)
    requires
        t.wf(),
        forall|i: int|
            0 <= i < recipe.ingredients.len() ==> (#[trigger] recipe.ingredients[i]).recipe_id
                == recipe.id,
        forall|i: int, j: int|
            0 <= i < j < recipe.ingredients.len() ==> (#[trigger] recipe.ingredients[i]).name != (
            #[trigger] recipe.ingredients[j]).name,
        lookup(t.recipes, recipe.id) matches Some(r) ==> r.updated_at < recipe.updated_at,
        !recipe.is_deleted,
    ensures
        t.accepts(recipe),
        t.with_recipe(recipe).get(recipe.id) == Some(recipe),
{
    lemma_position(t.recipes, recipe.id);
    assert(owns_ingredients(recipe));
    assert(unique_keys(recipe.ingredients)) by {
        assert forall|i: int, j: int| 0 <= i < j < recipe.ingredients.len() implies !same_key(
            #[trigger] recipe.ingredients[i],
            #[trigger] recipe.ingredients[j],
        ) by {
            assert(recipe.ingredients[i].name != recipe.ingredients[j].name);
        }
    }
    assert(taken(t.recipes, recipe.row()));
    law_own_ingredients_are_accepted(t, recipe);
    law_stored_recipe_is_read_back(t, recipe);
}

/// A recipe is refused just if an ingredient of it belongs to a recipe that is not stored.
pub proof fn law_only_strange_ingredients_are_refused(t: Tables, recipe: RecipeView)
    requires
        t.wf(),
    ensures
        t.accepts(recipe) <==> forall|i: int|
            0 <= i < recipe.ingredients.len() ==> (#[trigger] recipe.ingredients[i]).recipe_id
                == recipe.id || lookup(t.recipes, recipe.ingredients[i].recipe_id) is Some,
{
    let rows = upserted(t.recipes, recipe.row());
    let new = recipe.ingredients;
    lemma_storable(rows, new);
    assert forall|i: int| 0 <= i < new.len() implies has_recipe(rows, #[trigger] new[i]) == (
    new[i].recipe_id == recipe.id || lookup(t.recipes, new[i].recipe_id) is Some) by {
        lemma_lookup_upserted(t.recipes, recipe.row(), new[i].recipe_id);
        lemma_position(t.recipes, recipe.id);
    }
}

/// Of a recipe that is refused, all that comes before the first strange ingredient is stored.
pub proof fn law_what_comes_before_a_strange_ingredient_is_stored(
    t: Tables,
    recipe: RecipeView,
    k: int,
)
    requires
        t.wf(),
        0 <= k < recipe.ingredients.len(),
        recipe.ingredients[k].recipe_id != recipe.id,
        lookup(t.recipes, recipe.ingredients[k].recipe_id) is None,
        forall|i: int|
            0 <= i < k ==> (#[trigger] recipe.ingredients[i]).recipe_id == recipe.id || lookup(
                t.recipes,
                recipe.ingredients[i].recipe_id,
            ) is Some,
    ensures
        t.with_recipe(recipe) == t.with_recipe(
            RecipeView { ingredients: recipe.ingredients.take(k), ..recipe },
        ),
{
    let rows = upserted(t.recipes, recipe.row());
    let new = recipe.ingredients;
    let part = RecipeView { ingredients: new.take(k), ..recipe };
    assert(part.row() == recipe.row());
    assert forall|i: int| 0 <= i <= k implies has_recipe(rows, #[trigger] new[i]) == (i < k) by {
        lemma_lookup_upserted(t.recipes, recipe.row(), new[i].recipe_id);
        lemma_position(t.recipes, recipe.id);
    }
    lemma_storable(rows, new);
    lemma_storable(rows, new.take(k));
    assert(storable(rows, new) == k) by {
        if storable(rows, new) < k {
            assert(!has_recipe(rows, new[storable(rows, new)]));
        } else if storable(rows, new) > k {
            assert(has_recipe(rows, new[k]));
        }
    }
    assert(storable(rows, new.take(k)) == k) by {
        if storable(rows, new.take(k)) < k {
            assert(new.take(k)[storable(rows, new.take(k))] == new[storable(rows, new.take(k))]);
        }
    }
    assert(new.take(k).take(k) =~= new.take(k));
}

/// Deleting a recipe that is not stored changes nothing.
pub proof fn law_deleting_what_is_not_there(t: Tables, id: Seq<char>, now: i64)
    requires
        lookup(t.recipes, id) is None,
    ensures
        t.without_recipe(id, now) == t,
{
    lemma_position(t.recipes, id);
}

// ---------------------------------------------------------------------------
// What is shown
// ---------------------------------------------------------------------------

/// In stock is every ingredient of every recipe that can be read, whatever its amount, and nothing
/// else.
pub proof fn law_stock_is_the_ingredients_of_what_can_be_read(t: Tables, i: IngredientView)
    ensures
        t.pantry().contains(i) <==> t.get(i.recipe_id) is Some && t.get(
            i.recipe_id,
        )->0.ingredients.contains(i),
{
    let all = t.ingredients.filter(t.in_use());
    law_pantry_is_sorted(t);
    law_a_recipe_is_its_row_and_its_ingredients(t, i.recipe_id);
    if t.pantry().contains(i) {
        let k = choose|k: int| 0 <= k < t.pantry().len() && t.pantry()[k] == i;
        lemma_same_items(t.pantry(), all, k);
        let m = choose|m: int| 0 <= m < all.len() && all[m] == i;
        t.ingredients.lemma_filter_pred(t.in_use(), m);
        t.ingredients.lemma_filter_contains_rev(t.in_use(), i);
    }
    if t.get(i.recipe_id) is Some && t.get(i.recipe_id)->0.ingredients.contains(i) {
        assert(t.ingredients.contains(i));
        let k = choose|k: int| 0 <= k < t.ingredients.len() && t.ingredients[k] == i;
        t.ingredients.lemma_filter_contains(t.in_use(), k);
        let m = choose|m: int| 0 <= m < all.len() && all[m] == i;
        lemma_same_items(all, t.pantry(), m);
    }
}

/// In stock no ingredient of a recipe stands twice, and each comes where its normalized name puts
/// it.
pub proof fn law_stock_is_sorted_by_name(t: Tables, i: int, j: int)
    requires
        t.wf(),
        0 <= i < j < t.pantry().len(),
    ensures
        text_le(t.pantry()[i].normalized_name, t.pantry()[j].normalized_name),
        t.pantry()[i].recipe_id != t.pantry()[j].recipe_id || t.pantry()[i].name
            != t.pantry()[j].name,
{
    broadcast use vstd::seq_lib::group_to_multiset_ensures;

    let p = t.in_use();
    let all = t.ingredients.filter(p);
    let stock = t.pantry();
    law_pantry_is_sorted(t);
    assert(by_normalized_name()(stock[i], stock[j]));
    crate::infra::db::tables::lemma_filter_unique(t.ingredients, p);
    assert(all.no_duplicates()) by {
        assert forall|a: int, b: int|
            0 <= a < all.len() && 0 <= b < all.len() && a != b implies all[a] != all[b] by {
            if a < b {
                assert(!same_key(all[a], all[b]));
            } else {
                assert(!same_key(all[b], all[a]));
            }
        }
    }
    all.lemma_multiset_has_no_duplicates();
    assert(stock.no_duplicates()) by {
        assert forall|x: IngredientView| stock.to_multiset().contains(x) implies stock.to_multiset().count(
            x,
        ) == 1 by {
            assert(all.to_multiset().contains(x));
        }
        stock.lemma_multiset_has_no_duplicates_conv();
    }
    lemma_same_items(stock, all, i);
    lemma_same_items(stock, all, j);
    let k = choose|k: int| 0 <= k < all.len() && all[k] == stock[i];
    let m = choose|m: int| 0 <= m < all.len() && all[m] == stock[j];
    assert(stock[i] != stock[j]);
    if k < m {
        assert(!same_key(all[k], all[m]));
    } else if m < k {
        assert(!same_key(all[m], all[k]));
    }
}

/// A search asks for nothing in particular just if it holds nothing but whitespace.
pub proof fn law_a_blank_search_is_whitespace(query: Seq<char>)
    ensures
        crate::infra::db::query::blank(query) <==> forall|i: int|
            0 <= i < query.len() ==> whitespace(#[trigger] query[i]),
{
    let r = lemma_trimmed_is_stretch(query);
    let t = trimmed(query);
    if t.len() > 0 {
        assert(query[r.0] == t[0]);
    } else {
        assert(r.0 == r.1);
    }
}

// ---------------------------------------------------------------------------
// Merging, recipe by recipe
// ---------------------------------------------------------------------------

/// After a merge each recipe reads as on the side where it was changed last, ingredients and
/// deletion included, and as on the local side if both are from the same time.
pub proof fn law_each_recipe_reads_as_where_it_changed_last(
    local: Tables,
    remote: Tables,
    id: Seq<char>,
)
    requires
        local.wf(),
        remote.wf(),
    ensures
        local.merged(remote).get(id) == match (
            lookup(local.recipes, id),
            lookup(remote.recipes, id),
        ) {
            (Some(l), Some(r)) => if l.updated_at < r.updated_at {
                remote.get(id)
            } else {
                local.get(id)
            },
            (None, Some(_)) => remote.get(id),
            (_, None) => local.get(id),
        },
{
    lemma_position(local.recipes, id);
    lemma_position(remote.recipes, id);
    law_merge_keeps_the_newer(local, remote, id);
    lemma_merged_ingredients(local, remote, id);
}

/// A merge counts each remote recipe that is not there or only with an earlier time, and no other.
pub proof fn law_merges_count_what_they_take(local: Tables, remote: Tables, row: RowView)
    ensures
        ({
            let more = Tables { recipes: remote.recipes.push(row), ..remote };
            local.merge_count(more) == local.merge_count(remote) + if lookup(
                local.recipes,
                row.id,
            ) is None || lookup(local.recipes, row.id)->0.updated_at < row.updated_at {
                1int
            } else {
                0int
            }
        }),
        local.merge_count(Tables { recipes: Seq::empty(), ..remote }) == 0,
{
    lemma_filter_push(remote.recipes, row, local.takes_row());
    lemma_filter_none(Seq::<RowView>::empty(), local.takes_row());
}

/// The time of the last merge is zero if none is noted or what is noted is no number, and else the
/// number that is noted.
pub proof fn law_the_last_merge_is_what_is_noted(t: Tables)
    ensures
        t.last_sync is None ==> t.synced_at() == 0,
        t.last_sync matches Some(s) ==> (parsed_signed(s) is None ==> t.synced_at() == 0)
            && (parsed_signed(s) matches Some(n) ==> t.synced_at() == n),
{
}

/// A merge notes nothing by itself, and storing and deleting leave what is noted.
pub proof fn law_the_noted_time_stays(
    t: Tables,
    remote: Tables,
    recipe: RecipeView,
    id: Seq<char>,
    now: i64,
)
    ensures
        t.with_recipe(recipe).last_sync == t.last_sync,
        t.without_recipe(id, now).last_sync == t.last_sync,
        t.without_recipe(id, now).ingredients == t.ingredients,
        t.merged(remote).last_sync == t.last_sync,
{
}

/// Storing a recipe replaces its ingredients, whether its row is stored or not: those that it has
/// now are stored, and no other of that recipe.
pub proof fn law_ingredients_are_replaced(t: Tables, recipe: RecipeView, x: IngredientView)
    requires
        t.wf(),
        forall|i: int|
            0 <= i < recipe.ingredients.len() ==> (#[trigger] recipe.ingredients[i]).recipe_id
                == recipe.id,
        forall|i: int, j: int|
            0 <= i < j < recipe.ingredients.len() ==> (#[trigger] recipe.ingredients[i]).name != (
            #[trigger] recipe.ingredients[j]).name,
    ensures
        t.with_recipe(recipe).ingredients.contains(x) <==> if x.recipe_id == recipe.id {
            recipe.ingredients.contains(x)
        } else {
            t.ingredients.contains(x)
        },
{
    let new = recipe.ingredients;
    let after = t.with_recipe(recipe).ingredients;
    assert(owns_ingredients(recipe));
    assert(unique_keys(new)) by {
        assert forall|i: int, j: int| 0 <= i < j < new.len() implies !same_key(
            #[trigger] new[i],
            #[trigger] new[j],
        ) by {
            assert(new[i].name != new[j].name);
        }
    }
    law_own_ingredients_are_accepted(t, recipe);
    assert(new.take(new.len() as int) =~= new);
    let base = t.ingredients.filter(not_part_of(recipe.id));
    lemma_inserted_is(base, new);
    let kept = base.filter(not_among(new));
    assert(after == kept + new);
    if after.contains(x) {
        let k = choose|k: int| 0 <= k < after.len() && after[k] == x;
        if k < kept.len() {
            base.lemma_filter_contains_rev(not_among(new), x);
            let m = choose|m: int| 0 <= m < base.len() && base[m] == x;
            t.ingredients.lemma_filter_pred(not_part_of(recipe.id), m);
            t.ingredients.lemma_filter_contains_rev(not_part_of(recipe.id), x);
        } else {
            assert(new[k - kept.len()] == x);
        }
    }
    if x.recipe_id == recipe.id && new.contains(x) {
        let k = choose|k: int| 0 <= k < new.len() && new[k] == x;
        assert(after[kept.len() + k] == x);
    }
    if x.recipe_id != recipe.id && t.ingredients.contains(x) {
        let k = choose|k: int| 0 <= k < t.ingredients.len() && t.ingredients[k] == x;
        t.ingredients.lemma_filter_contains(not_part_of(recipe.id), k);
        let m = choose|m: int| 0 <= m < base.len() && base[m] == x;
        assert(not_among(new)(base[m])) by {
            assert forall|j: int| 0 <= j < new.len() implies !same_key(x, #[trigger] new[j]) by {
                assert(new[j].recipe_id == recipe.id);
            }
        }
        base.lemma_filter_contains(not_among(new), m);
        let n = choose|n: int| 0 <= n < kept.len() && kept[n] == x;
        assert(after[n] == x);
    }
}

/// Rows can be stored together just if no two have the same id, and ingredients just if no two
/// have both the same recipe and the same name, whatever else they hold.
pub proof fn law_what_can_be_stored_together(t: Tables)
    ensures
        t.wf() <==> {
            &&& forall|i: int, j: int|
                0 <= i < t.recipes.len() && 0 <= j < t.recipes.len() && (#[trigger] t.recipes[i]).id
                    == (#[trigger] t.recipes[j]).id ==> i == j
            &&& forall|i: int, j: int|
                0 <= i < t.ingredients.len() && 0 <= j < t.ingredients.len() && (
                #[trigger] t.ingredients[i]).recipe_id == (#[trigger] t.ingredients[j]).recipe_id
                    && t.ingredients[i].name == t.ingredients[j].name ==> i == j
        },
{
}

/// The ingredients that are stored of a recipe after a merge are all from one side: the remote
/// ones if the remote version is later or the only one and not deleted, and else the local ones.
pub proof fn law_merged_ingredients_are_from_one_side(
    local: Tables,
    remote: Tables,
    x: IngredientView,
)
    requires
        local.wf(),
        remote.wf(),
    ensures
        ({
            let l = lookup(local.recipes, x.recipe_id);
            let r = lookup(remote.recipes, x.recipe_id);
            let taken_over = r is Some && !r->0.is_deleted && (l is None || l->0.updated_at
                < r->0.updated_at);
            local.merged(remote).ingredients.contains(x) <==> if taken_over {
                remote.ingredients.contains(x)
            } else {
                local.ingredients.contains(x)
            }
        }),
{
    let p = part_of(x.recipe_id);
    let all = local.merged(remote).ingredients;
    lemma_position(remote.recipes, x.recipe_id);
    lemma_merged_ingredients(local, remote, x.recipe_id);
    lemma_filter_keeps(all, p, x);
    lemma_filter_keeps(local.ingredients, p, x);
    lemma_filter_keeps(remote.ingredients, p, x);
}

proof fn lemma_filter_keeps(
    s: Seq<IngredientView>,
    p: spec_fn(IngredientView) -> bool,
    x: IngredientView,
)
    requires
        p(x),
    ensures
        s.filter(p).contains(x) <==> s.contains(x),
{
    if s.filter(p).contains(x) {
        s.lemma_filter_contains_rev(p, x);
    }
    if s.contains(x) {
        let k = choose|k: int| 0 <= k < s.len() && s[k] == x;
        s.lemma_filter_contains(p, k);
    }
}

} // verus!
