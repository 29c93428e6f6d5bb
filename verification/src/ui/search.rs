//! Searching recipes by what is in them and by what they are called.

use crate::domain::recipe::{Recipe, RecipeView};
use crate::infra::db::database::{recipe_views, Database};
use crate::infra::db::laws::{law_search_finds_what_matches, law_search_is_newest_first};
use crate::infra::db::query::blank;
use crate::infra::db::tables::Tables;
use crate::text::{same_text, texts};
use vstd::prelude::*;

verus! {

/// Whether the recipe `id` is in a list.
pub open spec fn lists_id(rs: Seq<RecipeView>, id: Seq<char>) -> bool {
    exists|i: int| 0 <= i < rs.len() && (#[trigger] rs[i]).id == id
}

/// The recipes of `first`, and behind them those of `second` that are not there yet.
pub open spec fn combined(first: Seq<RecipeView>, second: Seq<RecipeView>) -> Seq<RecipeView>
    decreases second.len(),
{
    if second.len() == 0 {
        first
    } else {
        let front = combined(first, second.drop_last());
        if lists_id(front, second.last().id) {
            front
        } else {
            front.push(second.last())
        }
    }
}

impl Tables {
    /// What a search shows, where `by_ingredient` are the recipes whose ingredients match and
    /// `by_title` those whose titles match.
    pub open spec fn shown(
        self,
        query: Seq<char>,
        by_ingredient: Seq<Seq<char>>,
        by_title: Seq<Seq<char>>,
    ) -> Seq<RecipeView> {
        combined(self.search(query, by_ingredient), self.search(query, by_title))
    }
}

fn holds_id(recipes: &Vec<Recipe>, id: &str) -> (r: bool)
    ensures
        r == lists_id(recipe_views(recipes@), id@),
{
    let mut i: usize = 0;
    while i < recipes.len()
        invariant
            i <= recipes@.len(),
            forall|j: int| 0 <= j < i ==> (#[trigger] recipe_views(recipes@)[j]).id != id@,
        decreases recipes@.len() - i,
    {
        if same_text(recipes[i].id.as_str(), id) {
            assert(recipe_views(recipes@)[i as int].id == id@);
            return true;
        }
        i += 1;
    }
    false
}

/// The recipes that `query` finds: first those with an ingredient that it names, then those in
/// whose title it stands. `by_ingredient` and `by_title` are the recipes that match.
pub fn search_recipes(
    db: &Database,
    query: &str,
    by_ingredient: &Vec<String>,
    by_title: &Vec<String>,
) -> (r: Vec<Recipe>)
    ensures
        recipe_views(r@) == db@.shown(query@, texts(by_ingredient@), texts(by_title@)),
{
    let mut results = db.search_by_ingredient(query, by_ingredient);
    let more = db.search_by_title(query, by_title);
    let ghost first = recipe_views(results@);
    let ghost second = recipe_views(more@);
    assert(second.take(0) =~= Seq::<RecipeView>::empty());
    for one in it: more
        invariant
            second == recipe_views(it.seq()),
            recipe_views(results@) == combined(first, second.take(it.index())),
    {
        let ghost k = it.index();
        proof {
            assert(second.take(k + 1).drop_last() =~= second.take(k));
            assert(second.take(k + 1).last() == one@);
            assert(recipe_views(results@.push(one)) =~= recipe_views(results@).push(one@));
        }
        if !holds_id(&results, one.id.as_str()) {
            results.push(one);
        }
    }
    assert(second.take(second.len() as int) =~= second);
    results
}

// ---------------------------------------------------------------------------
// Laws
// ---------------------------------------------------------------------------

/// No recipe stands twice.
pub open spec fn each_once(rs: Seq<RecipeView>) -> bool {
    forall|i: int, j: int| 0 <= i < j < rs.len() ==> (#[trigger] rs[i]).id != (#[trigger] rs[j]).id
}

proof fn lemma_combined(first: Seq<RecipeView>, second: Seq<RecipeView>)
    requires
        each_once(first),
    ensures
        each_once(combined(first, second)),
        first.len() <= combined(first, second).len(),
        combined(first, second).take(first.len() as int) == first,
        forall|id: Seq<char>| #[trigger]
            lists_id(combined(first, second), id) <==> lists_id(first, id) || lists_id(second, id),
        forall|r: RecipeView| #[trigger]
            combined(first, second).contains(r) ==> first.contains(r) || second.contains(r),
    decreases second.len(),
{
    let all = combined(first, second);
    if second.len() > 0 {
        let rest = second.drop_last();
        let last = second.last();
        let front = combined(first, rest);
        lemma_combined(first, rest);
        assert forall|id: Seq<char>| #[trigger] lists_id(all, id) <==> lists_id(first, id)
            || lists_id(second, id) by {
            if lists_id(all, id) {
                let i = choose|i: int| 0 <= i < all.len() && (#[trigger] all[i]).id == id;
                if i < front.len() {
                    assert(front[i].id == id);
                    assert(lists_id(front, id));
                    if lists_id(rest, id) {
                        let j = choose|j: int| 0 <= j < rest.len() && (#[trigger] rest[j]).id == id;
                        assert(second[j].id == id);
                    }
                } else {
                    assert(second[second.len() - 1].id == id);
                }
            }
            if lists_id(first, id) {
                assert(lists_id(front, id));
                let i = choose|i: int| 0 <= i < front.len() && (#[trigger] front[i]).id == id;
                assert(all[i].id == id);
            }
            if lists_id(second, id) {
                let j = choose|j: int| 0 <= j < second.len() && (#[trigger] second[j]).id == id;
                if j < rest.len() {
                    assert(rest[j].id == id);
                    assert(lists_id(rest, id));
                    assert(lists_id(front, id));
                    let i = choose|i: int| 0 <= i < front.len() && (#[trigger] front[i]).id == id;
                    assert(all[i].id == id);
                } else if !lists_id(front, id) {
                    assert(all[all.len() - 1].id == id);
                }
            }
        }
        assert forall|r: RecipeView| #[trigger] all.contains(r) implies first.contains(r)
            || second.contains(r) by {
            let i = choose|i: int| 0 <= i < all.len() && all[i] == r;
            if i < front.len() {
                assert(front[i] == r);
                assert(front.contains(r));
                if rest.contains(r) {
                    let j = choose|j: int| 0 <= j < rest.len() && rest[j] == r;
                    assert(second[j] == r);
                }
            } else {
                assert(second[second.len() - 1] == r);
            }
        }
        if !lists_id(front, last.id) {
            assert(all.take(first.len() as int) =~= front.take(first.len() as int));
        }
    } else {
        assert(all.take(first.len() as int) =~= first);
        assert forall|id: Seq<char>| !(#[trigger] lists_id(second, id)) by {}
    }
}

proof fn lemma_combined_with_itself(rs: Seq<RecipeView>, n: int)
    requires
        0 <= n <= rs.len(),
    ensures
        combined(rs, rs.take(n)) == rs,
    decreases n,
{
    if n > 0 {
        lemma_combined_with_itself(rs, n - 1);
        assert(rs.take(n).drop_last() =~= rs.take(n - 1));
        assert(rs.take(n).last() == rs[n - 1]);
        assert(lists_id(rs, rs[n - 1].id));
    }
}

/// A search shows every recipe at most once, and what was found by its ingredients first.
pub proof fn law_search_shows_each_recipe_once(
    t: Tables,
    query: Seq<char>,
    by_ingredient: Seq<Seq<char>>,
    by_title: Seq<Seq<char>>,
)
    requires
        t.wf(),
    ensures
        each_once(t.shown(query, by_ingredient, by_title)),
        t.search(query, by_ingredient).is_prefix_of(t.shown(query, by_ingredient, by_title)),
{
    law_search_is_newest_first(t, query, by_ingredient);
    let first = t.search(query, by_ingredient);
    let all = t.shown(query, by_ingredient, by_title);
    lemma_combined(first, t.search(query, by_title));
    assert(all.subrange(0, first.len() as int) =~= all.take(first.len() as int));
}

/// A search shows just those of the listed recipes that match by an ingredient or by the title,
/// and all of them.
pub proof fn law_search_shows_what_matches(
    t: Tables,
    query: Seq<char>,
    by_ingredient: Seq<Seq<char>>,
    by_title: Seq<Seq<char>>,
    recipe: RecipeView,
)
    requires
        t.wf(),
    ensures
        t.shown(query, by_ingredient, by_title).contains(recipe) <==> t.list().contains(recipe) && (
        blank(query) || by_ingredient.contains(recipe.id) || by_title.contains(recipe.id)),
{
    let first = t.search(query, by_ingredient);
    let second = t.search(query, by_title);
    let all = t.shown(query, by_ingredient, by_title);
    law_search_is_newest_first(t, query, by_ingredient);
    lemma_combined(first, second);
    law_search_finds_what_matches(t, query, by_ingredient, recipe);
    law_search_finds_what_matches(t, query, by_title, recipe);
    if first.contains(recipe) || second.contains(recipe) {
        if first.contains(recipe) {
            let i = choose|i: int| 0 <= i < first.len() && first[i] == recipe;
            assert(lists_id(first, recipe.id));
        } else {
            let i = choose|i: int| 0 <= i < second.len() && second[i] == recipe;
            assert(lists_id(second, recipe.id));
        }
        assert(lists_id(all, recipe.id));
        let k = choose|k: int| 0 <= k < all.len() && (#[trigger] all[k]).id == recipe.id;
        let other = all[k];
        assert(all.contains(other));
        law_search_finds_what_matches(t, query, by_ingredient, other);
        law_search_finds_what_matches(t, query, by_title, other);
        crate::infra::db::laws::law_list_is_what_can_be_read(t, other);
        crate::infra::db::laws::law_list_is_what_can_be_read(t, recipe);
    }
}

/// A blank search shows what the list shows.
pub proof fn law_blank_search_shows_the_list(
    t: Tables,
    query: Seq<char>,
    by_ingredient: Seq<Seq<char>>,
    by_title: Seq<Seq<char>>,
)
    requires
        blank(query),
    ensures
        t.shown(query, by_ingredient, by_title) == t.list(),
{
    let all = t.list();
    lemma_combined_with_itself(all, all.len() as int);
    assert(all.take(all.len() as int) =~= all);
}

/// What the title finds comes behind what the ingredients find, in its own order.
pub proof fn law_titles_come_behind_ingredients(
    first: Seq<RecipeView>,
    second: Seq<RecipeView>,
    last: RecipeView,
)
    ensures
        combined(first, second.push(last)) == if exists|i: int|
            0 <= i < combined(first, second).len() && (#[trigger] combined(first, second)[i]).id
                == last.id {
            combined(first, second)
        } else {
            combined(first, second).push(last)
        },
        combined(first, Seq::empty()) == first,
{
    assert(second.push(last).drop_last() =~= second);
}

} // verus!
