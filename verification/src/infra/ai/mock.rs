//! Analysing a recipe by its layout alone, for when no language model is at hand.

use crate::domain::error::DomainError;
use crate::domain::recipe::{raw_views, substitute_views, RawIngredient, RawIngredientView};
use crate::domain::recipe::{Substitute, SubstituteView};
use crate::infra::ai::amount::{amount_only, amount_parts, ingredient_parts, is_amount_only};
use crate::infra::ai::amount::{parse_ingredient_line, split_amount};
use crate::infra::ai::client::{found, AnalyzedRecipe, AnalyzedRecipeView, LlmClient, OcrClient};
use crate::infra::ai::format::{is_ingredients_heading, is_servings, is_steps_heading};
use crate::infra::ai::format::{lower_lines, lowered, opens_ingredients, opens_steps, servings};
use crate::infra::ai::lines::{clean_lines, cleaned_lines, lemma_cleaned_are_lines};
use crate::text::{contains, holds, is_line, join, joined, law_a_part_is_found};
use crate::text::{law_what_is_found_stands_there, lemma_find, lemma_lines_of_joined};
use crate::text::{lemma_texts_push, lines_of, texts};
use crate::unicode::lowercase;
use vstd::prelude::*;

verus! {

/// The part of a recipe that a line stands in.
#[derive(Clone, Copy, PartialEq, Eq, Structural)]
pub enum Section {
    Preamble,
    Ingredients,
    Instructions,
}

/// What was found so far.
pub struct MockState {
    pub title: Seq<char>,
    pub ingredients: Seq<RawIngredientView>,
    pub steps: Seq<Seq<char>>,
    pub section: Section,
}

/// A line, given in lower case, behind which the steps come.
pub open spec fn opens_mock_steps(lower: Seq<char>) -> bool {
    opens_steps(lower) || holds(lower, "step"@)
}

impl MockState {
    /// What was found behind the line `t`, which is `lower` in lower case.
    pub open spec fn step(self, t: Seq<char>, lower: Seq<char>) -> MockState {
        if t.len() == 0 {
            self
        } else if opens_ingredients(lower) {
            MockState { section: Section::Ingredients, ..self }
        } else if opens_mock_steps(lower) {
            MockState { section: Section::Instructions, ..self }
        } else {
            match self.section {
                Section::Preamble => if servings(t) || self.title.len() > 0 {
                    self
                } else {
                    MockState { title: t, ..self }
                },
                Section::Ingredients => if servings(t) {
                    self
                } else {
                    MockState { ingredients: with_ingredient_line(self.ingredients, t), ..self }
                },
                Section::Instructions => MockState { steps: self.steps.push(t), ..self },
            }
        }
    }
}

/// The ingredients behind one line more: an amount on its own goes to the last ingredient if it
/// has none yet, and anything else is an ingredient.
pub open spec fn with_ingredient_line(
    ingredients: Seq<RawIngredientView>,
    t: Seq<char>,
) -> Seq<RawIngredientView> {
    if !amount_only(t) {
        let (name, amount, unit) = ingredient_parts(t);
        ingredients.push(RawIngredientView { name, amount, unit })
    } else if ingredients.len() > 0 && ingredients.last().amount.len() == 0 {
        let (amount, unit) = amount_parts(t);
        ingredients.drop_last().push(
            RawIngredientView { name: ingredients.last().name, amount, unit },
        )
    } else {
        ingredients
    }
}

/// What was found in the given lines.
pub open spec fn mock_run(ls: Seq<Seq<char>>, lowers: Seq<Seq<char>>) -> MockState
    decreases ls.len(),
{
    if ls.len() == 0 {
        MockState {
            title: Seq::empty(),
            ingredients: Seq::empty(),
            steps: Seq::empty(),
            section: Section::Preamble,
        }
    } else {
        mock_run(ls.drop_last(), lowers.drop_last()).step(ls.last(), lowers.last())
    }
}

/// The title of a recipe that has none.
pub open spec fn untitled() -> Seq<char> {
    "名称未設定のレシピ"@
}

/// The recipe that was found: none without ingredients or steps.
pub open spec fn conclusion(st: MockState) -> Option<AnalyzedRecipeView> {
    if st.ingredients.len() == 0 && st.steps.len() == 0 {
        None
    } else {
        Some(
            AnalyzedRecipeView {
                title: if st.title.len() == 0 {
                    untitled()
                } else {
                    st.title
                },
                ingredients: if st.ingredients.len() == 0 {
                    seq![
                        RawIngredientView {
                            name: "手順参照"@,
                            amount: Seq::empty(),
                            unit: Seq::empty(),
                        },
                    ]
                } else {
                    st.ingredients
                },
                instructions: joined(st.steps, "\n"@),
                substitutes: Seq::empty(),
            },
        )
    }
}

/// The recipe that is found in a text by its layout.
pub open spec fn mock_analysis(text: Seq<char>) -> Option<AnalyzedRecipeView> {
    let ls = cleaned_lines(text);
    conclusion(mock_run(ls, lowered(ls)))
}

proof fn lemma_raw_views_push(v: Seq<RawIngredient>, i: RawIngredient)
    ensures
        raw_views(v.push(i)) == raw_views(v).push(i@),
{
    assert(raw_views(v.push(i)) =~= raw_views(v).push(i@));
}

fn add_ingredient_line(ingredients: &mut Vec<RawIngredient>, t: &str)
    ensures
        raw_views(final(ingredients)@) == with_ingredient_line(raw_views(old(ingredients)@), t@),
{
    if is_amount_only(t) {
        if let Some(last) = ingredients.pop() {
            proof {
                let before = old(ingredients)@;
                assert(raw_views(ingredients@) =~= raw_views(before).drop_last());
                assert(raw_views(before).last() == last@);
                lemma_raw_views_push(ingredients@, last);
                assert(raw_views(before).drop_last().push(last@) =~= raw_views(before));
            }
            if last.amount.as_str().is_empty() {
                let (amount, unit) = split_amount(t);
                let filled = RawIngredient { name: last.name, amount, unit };
                proof {
                    lemma_raw_views_push(ingredients@, filled);
                }
                ingredients.push(filled);
            } else {
                ingredients.push(last);
            }
        }
    } else {
        let (name, amount, unit) = parse_ingredient_line(t);
        let found = RawIngredient { name, amount, unit };
        proof {
            lemma_raw_views_push(ingredients@, found);
        }
        ingredients.push(found);
    }
}

/// Finds the recipe in the given lines by their layout, where `lowers` holds the lines in lower
/// case.
pub fn analyze_lines(ls: &Vec<String>, lowers: &Vec<String>) -> (r: Option<AnalyzedRecipe>)
    requires
        ls@.len() == lowers@.len(),
    ensures
        found(r) == conclusion(mock_run(texts(ls@), texts(lowers@))),
{
    let mut title = String::new();
    let mut ingredients: Vec<RawIngredient> = Vec::new();
    let mut steps: Vec<String> = Vec::new();
    let mut section = Section::Preamble;
    let ghost all = texts(ls@);
    let ghost all_lowers = texts(lowers@);
    let mut i: usize = 0;
    proof {
        assert(all.take(0) =~= Seq::<Seq<char>>::empty());
        assert(raw_views(ingredients@) =~= Seq::<RawIngredientView>::empty());
        assert(texts(steps@) =~= Seq::<Seq<char>>::empty());
    }
    while i < ls.len()
        invariant
            i <= ls@.len() == lowers@.len(),
            all == texts(ls@),
            all_lowers == texts(lowers@),
            ({
                let st = mock_run(all.take(i as int), all_lowers.take(i as int));
                &&& title@ == st.title
                &&& raw_views(ingredients@) == st.ingredients
                &&& texts(steps@) == st.steps
                &&& section == st.section
            }),
        decreases ls@.len() - i,
    {
        let t = ls[i].as_str();
        let lower = lowers[i].as_str();
        proof {
            assert(all.take(i + 1).drop_last() =~= all.take(i as int));
            assert(all_lowers.take(i + 1).drop_last() =~= all_lowers.take(i as int));
            assert(all.take(i + 1).last() == t@);
            assert(all_lowers.take(i + 1).last() == lower@);
        }
        if t.is_empty() {
        } else if is_ingredients_heading(lower) {
            section = Section::Ingredients;
        } else if is_steps_heading(lower) || contains(lower, "step") {
            section = Section::Instructions;
        } else {
            match section {
                Section::Preamble => {
                    if !is_servings(t) && title.as_str().is_empty() {
                        title = t.to_owned();
                    }
                },
                Section::Ingredients => {
                    if !is_servings(t) {
                        add_ingredient_line(&mut ingredients, t);
                    }
                },
                Section::Instructions => {
                    let line = t.to_owned();
                    proof {
                        lemma_texts_push(steps@, line);
                    }
                    steps.push(line);
                },
            }
        }
        i += 1;
    }
    proof {
        assert(all.take(ls@.len() as int) =~= all);
        assert(all_lowers.take(ls@.len() as int) =~= all_lowers);
    }
    if title.as_str().is_empty() {
        title = "名称未設定のレシピ".to_owned();
    }
    if ingredients.is_empty() && steps.is_empty() {
        return None;
    }
    if ingredients.is_empty() {
        let hint = RawIngredient {
            name: "手順参照".to_owned(),
            amount: String::new(),
            unit: String::new(),
        };
        proof {
            lemma_raw_views_push(ingredients@, hint);
            assert(raw_views(ingredients@).push(hint@) =~= seq![
                RawIngredientView { name: "手順参照"@, amount: Seq::empty(), unit: Seq::empty() },
            ]);
        }
        ingredients.push(hint);
    }
    let substitutes: Vec<Substitute> = Vec::new();
    assert(substitute_views(substitutes@) =~= Seq::<SubstituteView>::empty());
    Some(
        AnalyzedRecipe {
            title,
            ingredients,
            instructions: join(&steps, "\n"),
            substitutes,
        },
    )
}

/// Analyses recipes by their layout: a title, the ingredients with each amount behind the name
/// or on the next line, and the steps.
pub struct MockLlm;

impl LlmClient for MockLlm {
    fn analyze_recipe(&self, text: &str) -> (r: Result<Option<AnalyzedRecipe>, DomainError>)
        ensures
            r is Ok,
            found(r->Ok_0) == mock_analysis(text@),
    {
        let ls = clean_lines(text);
        let lowers = lower_lines(&ls);
        assert(texts(lowers@).len() == texts(ls@).len());
        Ok(analyze_lines(&ls, &lowers))
    }
}

/// Reads the same recipe in every picture.
pub struct MockOcr;

/// The text that is read in every picture.
pub open spec fn sample_text() -> Seq<char> {
    "チョコレートケーキ\n材料\n200 g 薄力粉\n100 g バター\n2 個 卵\n作り方\n材料を混ぜて180度で30分焼く"@
}

impl OcrClient for MockOcr {
    fn extract_text(&self, image_path: &str) -> (r: Result<String, DomainError>)
        ensures
            r is Ok,
            r->Ok_0@ == sample_text(),
    {
        Ok(
            "チョコレートケーキ\n材料\n200 g 薄力粉\n100 g バター\n2 個 卵\n作り方\n材料を混ぜて180度で30分焼く".to_owned(),
        )
    }
}

/// A found recipe has a title and an ingredient, and suggests no substitutes.
pub proof fn law_found_recipe_is_usable(text: Seq<char>)
    requires
        mock_analysis(text) is Some,
    ensures
        mock_analysis(text)->0.title.len() > 0,
        mock_analysis(text)->0.ingredients.len() > 0,
        mock_analysis(text)->0.substitutes.len() == 0,
{
    reveal_strlit("名称未設定のレシピ");
}

/// In the list of ingredients a name on one line and its amount on the next are one ingredient.
pub proof fn law_amount_line_completes_name(
    st: MockState,
    name: Seq<char>,
    lower_name: Seq<char>,
    amount: Seq<char>,
    lower_amount: Seq<char>,
)
    requires
        st.section == Section::Ingredients,
        name.len() > 0 && amount.len() > 0,
        !opens_ingredients(lower_name) && !opens_mock_steps(lower_name) && !servings(name),
        !opens_ingredients(lower_amount) && !opens_mock_steps(lower_amount) && !servings(amount),
        !amount_only(name) && amount_only(amount),
        forall|i: int| 0 <= i < name.len() ==> #[trigger] name[i] != ' ',
    ensures
        st.step(name, lower_name).step(amount, lower_amount) == (MockState {
            ingredients: st.ingredients.push(
                RawIngredientView {
                    name,
                    amount: amount_parts(amount).0,
                    unit: amount_parts(amount).1,
                },
            ),
            ..st
        }),
{
    lemma_find(name, ' ');
    let first = st.ingredients.push(
        RawIngredientView { name, amount: Seq::empty(), unit: Seq::empty() },
    );
    assert(first.drop_last() =~= st.ingredients);
}

/// A text in which no line stands behind a heading is no recipe.
pub proof fn law_no_heading_no_recipe(text: Seq<char>)
    requires
        forall|i: int|
            0 <= i < cleaned_lines(text).len() ==> !opens_ingredients(
                lowered(cleaned_lines(text))[i],
            ) && !opens_mock_steps(#[trigger] lowered(cleaned_lines(text))[i]),
    ensures
        mock_analysis(text) is None,
{
    let ls = cleaned_lines(text);
    lemma_no_heading_run(ls, lowered(ls));
}

proof fn lemma_no_heading_run(ls: Seq<Seq<char>>, lowers: Seq<Seq<char>>)
    requires
        ls.len() == lowers.len(),
        forall|i: int|
            0 <= i < ls.len() ==> !opens_ingredients(lowers[i]) && !opens_mock_steps(
                #[trigger] lowers[i],
            ),
    ensures
        mock_run(ls, lowers).section == Section::Preamble,
        mock_run(ls, lowers).ingredients.len() == 0,
        mock_run(ls, lowers).steps.len() == 0,
    decreases ls.len(),
{
    if ls.len() > 0 {
        lemma_no_heading_run(ls.drop_last(), lowers.drop_last());
    }
}

/// Anything in which the English word for a step stands opens the steps here, besides what opens
/// them elsewhere, and nothing else does.
pub proof fn law_a_step_opens_the_steps(before: Seq<char>, behind: Seq<char>, lower: Seq<char>)
    ensures
        opens_mock_steps(before + "step"@ + behind),
        opens_steps(lower) ==> opens_mock_steps(lower),
        opens_mock_steps(lower) ==> opens_steps(lower) || exists|a: Seq<char>, b: Seq<char>|
            lower == #[trigger] (a + "step"@ + b),
{
    law_a_part_is_found(before, "step"@, behind);
    if holds(lower, "step"@) {
        law_what_is_found_stands_there(lower, "step"@);
    }
}

/// Whether a line, given in lower case, is a heading.
pub open spec fn is_heading(lower: Seq<char>) -> bool {
    opens_ingredients(lower) || opens_mock_steps(lower)
}

/// Whether the last heading among the given lines, in lower case, opens the ingredients.
pub open spec fn behind_ingredients(lowers: Seq<Seq<char>>) -> bool {
    exists|h: int|
        0 <= h < lowers.len() && opens_ingredients(#[trigger] lowers[h]) && forall|j: int|
            h < j < lowers.len() ==> !is_heading(#[trigger] lowers[j])
}

/// Whether the last heading among the given lines, in lower case, opens the steps.
pub open spec fn behind_steps(lowers: Seq<Seq<char>>) -> bool {
    exists|h: int|
        0 <= h < lowers.len() && !opens_ingredients(#[trigger] lowers[h]) && opens_mock_steps(
            lowers[h],
        ) && forall|j: int| h < j < lowers.len() ==> !is_heading(#[trigger] lowers[j])
}

proof fn lemma_behind(lowers: Seq<Seq<char>>, lower: Seq<char>)
    ensures
        is_heading(lower) ==> behind_ingredients(lowers.push(lower)) == opens_ingredients(lower)
            && behind_steps(lowers.push(lower)) == !opens_ingredients(lower),
        !is_heading(lower) ==> behind_ingredients(lowers.push(lower)) == behind_ingredients(lowers)
            && behind_steps(lowers.push(lower)) == behind_steps(lowers),
        !behind_ingredients(Seq::empty()) && !behind_steps(Seq::empty()),
{
    let all = lowers.push(lower);
    let n = lowers.len() as int;
    assert(all[n] == lower);
    assert(forall|j: int| 0 <= j < n ==> #[trigger] all[j] == lowers[j]);
    if is_heading(lower) {
        if behind_ingredients(all) {
            let h = choose|h: int|
                0 <= h < all.len() && opens_ingredients(#[trigger] all[h]) && forall|j: int|
                    h < j < all.len() ==> !is_heading(#[trigger] all[j]);
            assert(h == n);
        }
        if behind_steps(all) {
            let h = choose|h: int|
                0 <= h < all.len() && !opens_ingredients(#[trigger] all[h]) && opens_mock_steps(
                    all[h],
                ) && forall|j: int| h < j < all.len() ==> !is_heading(#[trigger] all[j]);
            assert(h == n);
        }
    } else {
        if behind_ingredients(all) {
            let h = choose|h: int|
                0 <= h < all.len() && opens_ingredients(#[trigger] all[h]) && forall|j: int|
                    h < j < all.len() ==> !is_heading(#[trigger] all[j]);
            assert(lowers[h] == all[h]);
            assert forall|j: int| h < j < n implies !is_heading(#[trigger] lowers[j]) by {
                assert(all[j] == lowers[j]);
            }
            assert(behind_ingredients(lowers));
        }
        if behind_ingredients(lowers) {
            let h = choose|h: int|
                0 <= h < n && opens_ingredients(#[trigger] lowers[h]) && forall|j: int|
                    h < j < n ==> !is_heading(#[trigger] lowers[j]);
            assert(lowers[h] == all[h]);
            assert(behind_ingredients(all));
        }
        if behind_steps(all) {
            let h = choose|h: int|
                0 <= h < all.len() && !opens_ingredients(#[trigger] all[h]) && opens_mock_steps(
                    all[h],
                ) && forall|j: int| h < j < all.len() ==> !is_heading(#[trigger] all[j]);
            assert(lowers[h] == all[h]);
            assert forall|j: int| h < j < n implies !is_heading(#[trigger] lowers[j]) by {
                assert(all[j] == lowers[j]);
            }
            assert(behind_steps(lowers));
        }
        if behind_steps(lowers) {
            let h = choose|h: int|
                0 <= h < n && !opens_ingredients(#[trigger] lowers[h]) && opens_mock_steps(
                    lowers[h],
                ) && forall|j: int| h < j < n ==> !is_heading(#[trigger] lowers[j]);
            assert(lowers[h] == all[h]);
            assert(behind_steps(all));
        }
    }
}

proof fn lemma_section(ls: Seq<Seq<char>>, lowers: Seq<Seq<char>>)
    requires
        ls.len() == lowers.len(),
        forall|i: int| 0 <= i < ls.len() ==> (#[trigger] ls[i]).len() > 0,
    ensures
        mock_run(ls, lowers).section == Section::Ingredients <==> behind_ingredients(lowers),
        mock_run(ls, lowers).section == Section::Instructions <==> behind_steps(lowers),
    decreases ls.len(),
{
    if ls.len() == 0 {
        assert(lowers =~= Seq::<Seq<char>>::empty());
        lemma_behind(lowers, Seq::empty());
    } else {
        let front = ls.drop_last();
        assert(forall|i: int| 0 <= i < front.len() ==> #[trigger] front[i] == ls[i]);
        lemma_section(front, lowers.drop_last());
        lemma_behind(lowers.drop_last(), lowers.last());
        assert(lowers.drop_last().push(lowers.last()) =~= lowers);
        assert(ls[ls.len() - 1].len() > 0);
    }
}

/// Every line counts by the heading above it and by nothing else. Behind the heading of the steps
/// it is a step, whatever it looks like. Behind that of the ingredients it is an ingredient, or
/// the amount of the one before it if that has none, or a number of servings, which is left out.
/// Before any heading the first line that is no number of servings is the title.
pub proof fn law_every_line_counts_by_its_heading(
    ls: Seq<Seq<char>>,
    lowers: Seq<Seq<char>>,
    t: Seq<char>,
    lower: Seq<char>,
)
    requires
        ls.len() == lowers.len(),
        forall|i: int| 0 <= i < ls.len() ==> (#[trigger] ls[i]).len() > 0,
        t.len() > 0,
    ensures
        ({
            let a = mock_run(ls, lowers);
            let b = mock_run(ls.push(t), lowers.push(lower));
            let n = a.ingredients.len() as int;
            &&& b.steps == if behind_steps(lowers) && !is_heading(lower) {
                a.steps.push(t)
            } else {
                a.steps
            }
            &&& b.title == if !behind_steps(lowers) && !behind_ingredients(lowers) && !is_heading(
                lower,
            ) && !servings(t) && a.title.len() == 0 {
                t
            } else {
                a.title
            }
            &&& b.ingredients == if !behind_ingredients(lowers) || is_heading(lower) || servings(t) {
                a.ingredients
            } else if !amount_only(t) {
                a.ingredients.push(
                    RawIngredientView {
                        name: ingredient_parts(t).0,
                        amount: ingredient_parts(t).1,
                        unit: ingredient_parts(t).2,
                    },
                )
            } else if n > 0 && a.ingredients[n - 1].amount.len() == 0 {
                a.ingredients.update(
                    n - 1,
                    RawIngredientView {
                        name: a.ingredients[n - 1].name,
                        amount: amount_parts(t).0,
                        unit: amount_parts(t).1,
                    },
                )
            } else {
                a.ingredients
            }
        }),
{
    let a = mock_run(ls, lowers);
    let b = mock_run(ls.push(t), lowers.push(lower));
    assert(ls.push(t).drop_last() =~= ls);
    assert(lowers.push(lower).drop_last() =~= lowers);
    lemma_section(ls, lowers);
    let n = a.ingredients.len() as int;
    if n > 0 {
        let x = RawIngredientView {
            name: a.ingredients[n - 1].name,
            amount: amount_parts(t).0,
            unit: amount_parts(t).1,
        };
        assert(a.ingredients.drop_last().push(x) =~= a.ingredients.update(n - 1, x));
    }
}

/// Nothing is found in no lines.
pub proof fn law_no_lines_hold_nothing()
    ensures
        mock_run(Seq::empty(), Seq::empty()).title.len() == 0,
        mock_run(Seq::empty(), Seq::empty()).ingredients.len() == 0,
        mock_run(Seq::empty(), Seq::empty()).steps.len() == 0,
{
}

proof fn lemma_steps_run(
    ls: Seq<Seq<char>>,
    lowers: Seq<Seq<char>>,
    after: Seq<Seq<char>>,
    after_lowers: Seq<Seq<char>>,
)
    requires
        ls.len() == lowers.len(),
        after.len() == after_lowers.len(),
        forall|i: int| 0 <= i < ls.len() ==> (#[trigger] ls[i]).len() > 0,
        forall|i: int| 0 <= i < after.len() ==> (#[trigger] after[i]).len() > 0,
        forall|i: int| 0 <= i < after.len() ==> !is_heading(#[trigger] after_lowers[i]),
        behind_steps(lowers),
    ensures
        mock_run(ls + after, lowers + after_lowers).steps == mock_run(ls, lowers).steps + after,
        mock_run(ls + after, lowers + after_lowers).ingredients == mock_run(ls, lowers).ingredients,
        mock_run(ls + after, lowers + after_lowers).title == mock_run(ls, lowers).title,
        behind_steps(lowers + after_lowers),
    decreases after.len(),
{
    if after.len() == 0 {
        assert(ls + after =~= ls);
        assert(lowers + after_lowers =~= lowers);
        assert(mock_run(ls, lowers).steps + after =~= mock_run(ls, lowers).steps);
    } else {
        let front = after.drop_last();
        let front_lowers = after_lowers.drop_last();
        let t = after[after.len() - 1];
        let lower = after_lowers[after.len() - 1];
        assert(forall|i: int| 0 <= i < front.len() ==> #[trigger] front[i] == after[i]);
        assert(forall|i: int|
            0 <= i < front.len() ==> #[trigger] front_lowers[i] == after_lowers[i]);
        lemma_steps_run(ls, lowers, front, front_lowers);
        let done = ls + front;
        let done_lowers = lowers + front_lowers;
        assert forall|i: int| 0 <= i < done.len() implies (#[trigger] done[i]).len() > 0 by {
            if i >= ls.len() {
                assert(done[i] == front[i - ls.len()]);
            }
        }
        assert(ls + after =~= done.push(t));
        assert(lowers + after_lowers =~= done_lowers.push(lower));
        law_every_line_counts_by_its_heading(done, done_lowers, t, lower);
        lemma_behind(done_lowers, lower);
        lemma_section(done, done_lowers);
        assert((mock_run(ls, lowers).steps + front).push(t) =~= mock_run(ls, lowers).steps + after);
    }
}

proof fn lemma_no_steps_yet(ls: Seq<Seq<char>>, lowers: Seq<Seq<char>>)
    requires
        ls.len() == lowers.len(),
        forall|i: int| 0 <= i < ls.len() ==> (#[trigger] ls[i]).len() > 0,
        forall|i: int|
            0 <= i < ls.len() ==> opens_ingredients(#[trigger] lowers[i]) || !opens_mock_steps(
                lowers[i],
            ),
    ensures
        mock_run(ls, lowers).steps.len() == 0,
        !behind_steps(lowers),
    decreases ls.len(),
{
    if ls.len() > 0 {
        let front = ls.drop_last();
        let front_lowers = lowers.drop_last();
        assert(forall|i: int| 0 <= i < front.len() ==> #[trigger] front[i] == ls[i]);
        assert(forall|i: int| 0 <= i < front.len() ==> #[trigger] front_lowers[i] == lowers[i]);
        lemma_no_steps_yet(front, front_lowers);
        lemma_section(front, front_lowers);
        assert(ls[ls.len() - 1].len() > 0);
        if behind_steps(lowers) {
            let h = choose|h: int|
                0 <= h < lowers.len() && !opens_ingredients(#[trigger] lowers[h])
                    && opens_mock_steps(lowers[h]) && forall|j: int|
                    h < j < lowers.len() ==> !is_heading(#[trigger] lowers[j]);
        }
    }
}

/// The instructions are all lines behind the heading of the steps, whatever they look like, in
/// order and with a line feed between each two.
pub proof fn law_instructions_are_the_lines_behind_their_heading(
    text: Seq<char>,
    before: Seq<Seq<char>>,
    heading: Seq<char>,
    after: Seq<Seq<char>>,
)
    requires
        cleaned_lines(text) == before.push(heading) + after,
        opens_mock_steps(lowercase(heading)) && !opens_ingredients(lowercase(heading)),
        forall|i: int|
            0 <= i < before.len() ==> opens_ingredients(lowercase(#[trigger] before[i]))
                || !opens_mock_steps(lowercase(before[i])),
        forall|i: int|
            0 <= i < after.len() ==> !opens_ingredients(lowercase(#[trigger] after[i]))
                && !opens_mock_steps(lowercase(after[i])),
        after.len() > 0,
    ensures
        mock_analysis(text) is Some,
        mock_analysis(text)->0.instructions == joined(after, "\n"@),
        lines_of(mock_analysis(text)->0.instructions) == after,
{
    reveal_strlit("\n");
    assert("\n"@ =~= seq!['\n']);
    let ls = cleaned_lines(text);
    let lowers = lowered(ls);
    let done = before.push(heading);
    let done_lowers = lowered(done);
    let after_lowers = lowered(after);
    assert(lowers =~= done_lowers + after_lowers);
    assert(done_lowers =~= lowered(before).push(lowercase(heading)));
    lemma_cleaned_are_lines(text);
    assert forall|i: int| 0 <= i < before.len() implies (#[trigger] before[i]).len() > 0 by {
        assert(ls[i] == before[i]);
        assert(ls.contains(before[i]));
        assert(is_line(before[i]));
    }
    assert(ls[before.len() as int] == heading);
    assert(ls.contains(heading));
    assert(is_line(heading));
    assert forall|i: int| 0 <= i < after.len() implies is_line(#[trigger] after[i]) by {
        assert(ls[before.len() + 1 + i] == after[i]);
        assert(ls.contains(after[i]));
    }
    assert forall|i: int| 0 <= i < done.len() implies (#[trigger] done[i]).len() > 0 by {
        if i < before.len() {
            assert(done[i] == before[i]);
        }
    }
    assert forall|i: int| 0 <= i < after.len() implies !is_heading(#[trigger] after_lowers[i]) by {
        assert(after_lowers[i] == lowercase(after[i]));
    }
    assert forall|i: int| 0 <= i < before.len() implies opens_ingredients(
        #[trigger] lowered(before)[i],
    ) || !opens_mock_steps(lowered(before)[i]) by {
        assert(lowered(before)[i] == lowercase(before[i]));
    }
    lemma_no_steps_yet(before, lowered(before));
    law_every_line_counts_by_its_heading(before, lowered(before), heading, lowercase(heading));
    lemma_behind(lowered(before), lowercase(heading));
    lemma_steps_run(done, done_lowers, after, after_lowers);
    assert(mock_run(ls, lowers).steps =~= after);
    lemma_lines_of_joined(after);
}

/// What is found in a text is what its lines hold: no recipe without ingredients and steps; a
/// title if there is none; and a hint at the steps if there are no ingredients.
pub proof fn law_the_recipe_is_what_its_lines_hold(text: Seq<char>)
    ensures
        ({
            let ls = cleaned_lines(text);
            let st = mock_run(ls, ls.map_values(|l: Seq<char>| lowercase(l)));
            let r = mock_analysis(text);
            &&& r is Some <==> st.ingredients.len() > 0 || st.steps.len() > 0
            &&& r is Some ==> r->0.instructions == joined(st.steps, "\n"@)
            &&& r is Some && st.title.len() > 0 ==> r->0.title == st.title
            &&& r is Some && st.title.len() == 0 ==> r->0.title == "名称未設定のレシピ"@
            &&& st.ingredients.len() > 0 ==> r->0.ingredients == st.ingredients
            &&& r is Some && st.ingredients.len() == 0 ==> r->0.ingredients.len() == 1
                && r->0.ingredients[0].name == "手順参照"@ && r->0.ingredients[0].amount.len() == 0
                && r->0.ingredients[0].unit.len() == 0
            &&& r is Some ==> r->0.substitutes.len() == 0
        }),
{
    let ls = cleaned_lines(text);
    assert(lowered(ls) =~= ls.map_values(|l: Seq<char>| lowercase(l)));
}

} // verus!
