//! Putting each ingredient and its amount on one line.

use crate::domain::recipe::opt_text;
use crate::infra::ai::amount::{amount_only, is_amount_only};
use crate::infra::ai::lines::{clean_lines, cleaned_lines, lemma_cleaned_are_lines};
use crate::text::{contains, ends_with, holds, join, joined, lemma_texts_push, same_text};
use crate::text::{is_line, law_a_part_is_found, law_what_is_found_stands_there, lines_of};
use crate::text::{lemma_lines_of_joined, starts_with, texts};
use crate::unicode::lowercase;
use vstd::prelude::*;

verus! {

// ---------------------------------------------------------------------------
// Headings
// ---------------------------------------------------------------------------

/// A line, given in lower case, that opens the list of ingredients.
pub open spec fn opens_ingredients(lower: Seq<char>) -> bool {
    ||| lower == "材料"@
    ||| "材料（"@.is_prefix_of(lower)
    ||| "材料("@.is_prefix_of(lower)
    ||| holds(lower, "ingredient"@)
}

/// A line, given in lower case, that opens the steps.
pub open spec fn opens_steps(lower: Seq<char>) -> bool {
    ||| lower == "作り方"@
    ||| lower == "手順"@
    ||| lower == "下準備"@
    ||| holds(lower, "instruction"@)
    ||| holds(lower, "direction"@)
}

/// A line that says how many people the recipe serves.
pub open spec fn servings(t: Seq<char>) -> bool {
    "人分"@.is_suffix_of(t) || "人前"@.is_suffix_of(t)
}

/// Whether a line, given in lower case, opens the list of ingredients.
pub fn is_ingredients_heading(lower: &str) -> (r: bool)
    ensures
        r == opens_ingredients(lower@),
{
    same_text(lower, "材料") || starts_with(lower, "材料（") || starts_with(lower, "材料(")
        || contains(lower, "ingredient")
}

/// Whether a line, given in lower case, opens the steps.
pub fn is_steps_heading(lower: &str) -> (r: bool)
    ensures
        r == opens_steps(lower@),
{
    same_text(lower, "作り方") || same_text(lower, "手順") || same_text(lower, "下準備")
        || contains(lower, "instruction") || contains(lower, "direction")
}

/// Whether a line says how many people the recipe serves.
pub fn is_servings(t: &str) -> (r: bool)
    ensures
        r == servings(t@),
{
    ends_with(t, "人分") || ends_with(t, "人前")
}

/// The lines in lower case.
pub open spec fn lowered(ls: Seq<Seq<char>>) -> Seq<Seq<char>> {
    ls.map_values(|l: Seq<char>| lowercase(l))
}

/// The lines in lower case.
pub fn lower_lines(ls: &Vec<String>) -> (r: Vec<String>)
    ensures
        texts(r@) == lowered(texts(ls@)),
{
    let mut out: Vec<String> = Vec::new();
    let mut i: usize = 0;
    while i < ls.len()
        invariant
            i <= ls@.len(),
            texts(out@) == lowered(texts(ls@)).take(i as int),
        decreases ls@.len() - i,
    {
        let low = ls[i].as_str().to_lowercase();
        proof {
            lemma_texts_push(out@, low);
            assert(lowered(texts(ls@)).take(i + 1) =~= lowered(texts(ls@)).take(i as int).push(
                low@,
            ));
        }
        out.push(low);
        i += 1;
    }
    assert(lowered(texts(ls@)).take(ls@.len() as int) =~= lowered(texts(ls@)));
    out
}

// ---------------------------------------------------------------------------
// Pairing names with amounts
// ---------------------------------------------------------------------------

/// A line of the result: a line as it was, or a name and its amount.
pub enum Piece {
    Line(Seq<char>),
    Pair(Seq<char>, Seq<char>),
}

impl Piece {
    /// The piece as a line.
    pub open spec fn render(self) -> Seq<char> {
        match self {
            Piece::Line(t) => t,
            Piece::Pair(name, amount) => name + ": "@ + amount,
        }
    }

    /// The lines that the piece is made of.
    pub open spec fn sources(self) -> Seq<Seq<char>> {
        match self {
            Piece::Line(t) => seq![t],
            Piece::Pair(name, amount) => seq![name, amount],
        }
    }
}

/// The pieces as lines.
pub open spec fn rendered(pieces: Seq<Piece>) -> Seq<Seq<char>> {
    pieces.map_values(|p: Piece| p.render())
}

/// The lines that the pieces are made of, in order.
pub open spec fn all_sources(pieces: Seq<Piece>) -> Seq<Seq<char>>
    decreases pieces.len(),
{
    if pieces.len() == 0 {
        Seq::empty()
    } else {
        all_sources(pieces.drop_last()) + pieces.last().sources()
    }
}

/// Where the formatting stands: what is written, whether the list of ingredients is open, and
/// the name that waits for its amount.
pub struct FormatState {
    pub out: Seq<Piece>,
    pub in_ingredients: bool,
    pub pending: Option<Seq<char>>,
}

impl FormatState {
    /// What is written once the waiting name is written on its own.
    pub open spec fn flushed(self) -> Seq<Piece> {
        match self.pending {
            Some(name) => self.out.push(Piece::Line(name)),
            None => self.out,
        }
    }

    /// The state behind the line `t`, which is `lower` in lower case.
    pub open spec fn step(self, t: Seq<char>, lower: Seq<char>) -> FormatState {
        if opens_ingredients(lower) || opens_steps(lower) {
            FormatState {
                out: self.flushed().push(Piece::Line(t)),
                in_ingredients: opens_ingredients(lower),
                pending: None,
            }
        } else if !self.in_ingredients {
            FormatState { out: self.out.push(Piece::Line(t)), ..self }
        } else if servings(t) {
            FormatState { out: self.flushed().push(Piece::Line(t)), pending: None, ..self }
        } else if amount_only(t) {
            match self.pending {
                Some(name) => FormatState {
                    out: self.out.push(Piece::Pair(name, t)),
                    pending: None,
                    ..self
                },
                None => FormatState { out: self.out.push(Piece::Line(t)), ..self },
            }
        } else {
            FormatState { out: self.flushed(), pending: Some(t), ..self }
        }
    }
}

/// The state behind the given lines.
pub open spec fn format_run(ls: Seq<Seq<char>>, lowers: Seq<Seq<char>>) -> FormatState
    decreases ls.len(),
{
    if ls.len() == 0 {
        FormatState { out: Seq::empty(), in_ingredients: false, pending: None }
    } else {
        format_run(ls.drop_last(), lowers.drop_last()).step(ls.last(), lowers.last())
    }
}

/// The pieces that the given lines become.
pub open spec fn pieces_of(ls: Seq<Seq<char>>, lowers: Seq<Seq<char>>) -> Seq<Piece> {
    format_run(ls, lowers).flushed()
}

/// The text with each ingredient and its amount on one line.
pub open spec fn formatted(text: Seq<char>) -> Seq<char> {
    let ls = cleaned_lines(text);
    joined(rendered(pieces_of(ls, lowered(ls))), "\n"@)
}

/// Writes the waiting name on a line of its own.
pub fn flush_pending(pending: &mut Option<String>, out: &mut Vec<String>)
    ensures
        *final(pending) == None::<String>,
        texts(final(out)@) == match *old(pending) {
            Some(name) => texts(old(out)@).push(name@),
            None => texts(old(out)@),
        },
{
    if let Some(name) = pending.take() {
        proof {
            lemma_texts_push(out@, name);
        }
        out.push(name);
    }
}

proof fn lemma_rendered_push(pieces: Seq<Piece>, p: Piece)
    ensures
        rendered(pieces.push(p)) == rendered(pieces).push(p.render()),
{
    assert(rendered(pieces.push(p)) =~= rendered(pieces).push(p.render()));
}

fn push_line(out: &mut Vec<String>, line: String)
    ensures
        texts(final(out)@) == texts(old(out)@).push(line@),
{
    proof {
        lemma_texts_push(out@, line);
    }
    out.push(line);
}

/// Puts names and amounts that stand on lines of their own together as `name: amount`, where
/// `lowers` holds the lines in lower case.
pub fn format_lines(ls: &Vec<String>, lowers: &Vec<String>) -> (r: String)
    requires
        ls@.len() == lowers@.len(),
    ensures
        r@ == joined(rendered(pieces_of(texts(ls@), texts(lowers@))), "\n"@),
{
    let mut out: Vec<String> = Vec::new();
    let mut in_ingredients: bool = false;
    let mut pending: Option<String> = None;
    let ghost all = texts(ls@);
    let ghost all_lowers = texts(lowers@);
    let mut i: usize = 0;
    proof {
        assert(all.take(0) =~= Seq::<Seq<char>>::empty());
        assert(texts(out@) =~= rendered(Seq::<Piece>::empty()));
    }
    while i < ls.len()
        invariant
            i <= ls@.len() == lowers@.len(),
            all == texts(ls@),
            all_lowers == texts(lowers@),
            ({
                let st = format_run(all.take(i as int), all_lowers.take(i as int));
                &&& texts(out@) == rendered(st.out)
                &&& in_ingredients == st.in_ingredients
                &&& opt_text(pending) == st.pending
            }),
        decreases ls@.len() - i,
    {
        let t = ls[i].as_str();
        let lower = lowers[i].as_str();
        let ghost st = format_run(all.take(i as int), all_lowers.take(i as int));
        proof {
            assert(all.take(i + 1).drop_last() =~= all.take(i as int));
            assert(all_lowers.take(i + 1).drop_last() =~= all_lowers.take(i as int));
            assert(all.take(i + 1).last() == t@);
            assert(all_lowers.take(i + 1).last() == lower@);
            if st.pending is Some {
                lemma_rendered_push(st.out, Piece::Line(st.pending->0));
                lemma_rendered_push(st.out, Piece::Pair(st.pending->0, t@));
            }
            lemma_rendered_push(st.out, Piece::Line(t@));
            lemma_rendered_push(st.flushed(), Piece::Line(t@));
        }
        if is_ingredients_heading(lower) {
            in_ingredients = true;
            flush_pending(&mut pending, &mut out);
            push_line(&mut out, t.to_owned());
        } else if is_steps_heading(lower) {
            flush_pending(&mut pending, &mut out);
            in_ingredients = false;
            push_line(&mut out, t.to_owned());
        } else if in_ingredients {
            if is_servings(t) {
                flush_pending(&mut pending, &mut out);
                push_line(&mut out, t.to_owned());
            } else if is_amount_only(t) {
                if let Some(name) = pending.take() {
                    push_line(&mut out, name.concat(": ").concat(t));
                } else {
                    push_line(&mut out, t.to_owned());
                }
            } else {
                flush_pending(&mut pending, &mut out);
                pending = Some(t.to_owned());
            }
        } else {
            push_line(&mut out, t.to_owned());
        }
        i += 1;
    }
    proof {
        assert(all.take(ls@.len() as int) =~= all);
        assert(all_lowers.take(ls@.len() as int) =~= all_lowers);
        let st = format_run(all, all_lowers);
        if st.pending is Some {
            lemma_rendered_push(st.out, Piece::Line(st.pending->0));
        }
    }
    flush_pending(&mut pending, &mut out);
    join(&out, "\n")
}

/// Cleans a recipe and puts each ingredient's name and amount, where they stand on two lines,
/// on one line as `name: amount`.
pub fn format_recipe_text(text: &str) -> (r: String)
    ensures
        r@ == formatted(text@),
{
    let ls = clean_lines(text);
    let lowers = lower_lines(&ls);
    assert(texts(lowers@).len() == texts(ls@).len());
    format_lines(&ls, &lowers)
}

// ---------------------------------------------------------------------------
// Laws
// ---------------------------------------------------------------------------

proof fn lemma_all_sources_push(pieces: Seq<Piece>, p: Piece)
    ensures
        all_sources(pieces.push(p)) == all_sources(pieces) + p.sources(),
{
    assert(pieces.push(p).drop_last() =~= pieces);
}

proof fn lemma_format_run_sources(ls: Seq<Seq<char>>, lowers: Seq<Seq<char>>)
    requires
        ls.len() == lowers.len(),
    ensures
        all_sources(format_run(ls, lowers).flushed()) == ls,
        !format_run(ls, lowers).in_ingredients ==> format_run(ls, lowers).pending is None,
    decreases ls.len(),
{
    let st = format_run(ls, lowers);
    if ls.len() == 0 {
        assert(all_sources(st.flushed()) =~= ls);
    } else {
        let before = format_run(ls.drop_last(), lowers.drop_last());
        let t = ls.last();
        lemma_format_run_sources(ls.drop_last(), lowers.drop_last());
        assert(ls =~= ls.drop_last().push(t));
        lemma_all_sources_push(before.flushed(), Piece::Line(t));
        lemma_all_sources_push(before.out, Piece::Line(t));
        if before.pending is Some {
            let name = before.pending->0;
            lemma_all_sources_push(before.out, Piece::Line(name));
            lemma_all_sources_push(before.out, Piece::Pair(name, t));
            assert(all_sources(before.out) + seq![name, t] =~= (all_sources(before.out) + seq![
                name,
            ]) + seq![t]);
        }
        assert(ls.drop_last() + seq![t] =~= ls);
        assert(all_sources(st.flushed()) =~= ls);
    }
}

/// Formatting loses no line, adds none and keeps their order.
pub proof fn law_formatting_keeps_every_line(ls: Seq<Seq<char>>, lowers: Seq<Seq<char>>)
    requires
        ls.len() == lowers.len(),
    ensures
        all_sources(pieces_of(ls, lowers)) == ls,
{
    lemma_format_run_sources(ls, lowers);
}

/// A name and its amount are put together only where the second is an amount and the first is
/// not.
pub proof fn law_pairs_are_name_and_amount(ls: Seq<Seq<char>>, lowers: Seq<Seq<char>>)
    requires
        ls.len() == lowers.len(),
    ensures
        forall|i: int|
            0 <= i < pieces_of(ls, lowers).len() ==> (#[trigger] pieces_of(
                ls,
                lowers,
            )[i] matches Piece::Pair(name, amount) ==> !amount_only(name) && amount_only(amount)),
        format_run(ls, lowers).pending matches Some(name) ==> !amount_only(name),
    decreases ls.len(),
{
    if ls.len() > 0 {
        law_pairs_are_name_and_amount(ls.drop_last(), lowers.drop_last());
        let before = format_run(ls.drop_last(), lowers.drop_last());
        let early = pieces_of(ls.drop_last(), lowers.drop_last());
        assert forall|i: int| 0 <= i < pieces_of(ls, lowers).len() implies (#[trigger] pieces_of(
            ls,
            lowers,
        )[i] matches Piece::Pair(name, amount) ==> !amount_only(name) && amount_only(amount)) by {
            if i < before.out.len() {
                assert(early[i] == before.out[i]);
            }
        }
    }
}

/// What opens the list of ingredients: the word alone, the word with a bracket behind it, or
/// anything in which the English word stands.
pub proof fn law_headings_of_ingredients(before: Seq<char>, behind: Seq<char>)
    ensures
        opens_ingredients("材料"@),
        opens_ingredients("材料（"@ + behind),
        opens_ingredients("材料("@ + behind),
        opens_ingredients(before + "ingredient"@ + behind),
{
    let a = "材料（"@ + behind;
    let b = "材料("@ + behind;
    assert(a.subrange(0, "材料（"@.len() as int) =~= "材料（"@);
    assert(b.subrange(0, "材料("@.len() as int) =~= "材料("@);
    law_a_part_is_found(before, "ingredient"@, behind);
}

/// What opens the steps: one of three words alone, or anything in which one of the English words
/// stands.
pub proof fn law_headings_of_steps(before: Seq<char>, behind: Seq<char>)
    ensures
        opens_steps("作り方"@),
        opens_steps("手順"@),
        opens_steps("下準備"@),
        opens_steps(before + "instruction"@ + behind),
        opens_steps(before + "direction"@ + behind),
{
    law_a_part_is_found(before, "instruction"@, behind);
    law_a_part_is_found(before, "direction"@, behind);
}

/// No other line is a heading.
pub proof fn law_other_lines_are_no_headings(lower: Seq<char>)
    requires
        lower != "材料"@ && lower != "作り方"@ && lower != "手順"@ && lower != "下準備"@,
        forall|behind: Seq<char>| lower != #[trigger] ("材料（"@ + behind),
        forall|behind: Seq<char>| lower != #[trigger] ("材料("@ + behind),
        forall|before: Seq<char>, behind: Seq<char>|
            lower != #[trigger] (before + "ingredient"@ + behind),
        forall|before: Seq<char>, behind: Seq<char>|
            lower != #[trigger] (before + "instruction"@ + behind),
        forall|before: Seq<char>, behind: Seq<char>|
            lower != #[trigger] (before + "direction"@ + behind),
    ensures
        !opens_ingredients(lower),
        !opens_steps(lower),
{
    if "材料（"@.is_prefix_of(lower) {
        let behind = lower.skip("材料（"@.len() as int);
        assert("材料（"@ + behind =~= lower);
    }
    if "材料("@.is_prefix_of(lower) {
        let behind = lower.skip("材料("@.len() as int);
        assert("材料("@ + behind =~= lower);
    }
    if holds(lower, "ingredient"@) {
        law_what_is_found_stands_there(lower, "ingredient"@);
    }
    if holds(lower, "instruction"@) {
        law_what_is_found_stands_there(lower, "instruction"@);
    }
    if holds(lower, "direction"@) {
        law_what_is_found_stands_there(lower, "direction"@);
    }
}

/// The words of one list are no headings of the other.
pub proof fn law_headings_differ()
    ensures
        !opens_ingredients("作り方"@) && !opens_ingredients("手順"@) && !opens_ingredients(
            "下準備"@,
        ),
        !opens_steps("材料"@),
{
    reveal_strlit("材料");
    reveal_strlit("材料（");
    reveal_strlit("材料(");
    reveal_strlit("作り方");
    reveal_strlit("手順");
    reveal_strlit("下準備");
    reveal_strlit("ingredient");
    reveal_strlit("instruction");
    reveal_strlit("direction");
    assert("作り方"@[0] == '作' && "手順"@[0] == '手' && "下準備"@[0] == '下');
    assert("材料"@[0] == '材' && "材料（"@[0] == '材' && "材料("@[0] == '材');
    if "材料（"@.is_prefix_of("作り方"@) {
        assert("作り方"@.subrange(0, 3)[0] == '作');
    }
    if "材料("@.is_prefix_of("作り方"@) {
        assert("作り方"@.subrange(0, 3)[0] == '作');
    }
    if "材料（"@.is_prefix_of("下準備"@) {
        assert("下準備"@.subrange(0, 3)[0] == '下');
    }
    if "材料("@.is_prefix_of("下準備"@) {
        assert("下準備"@.subrange(0, 3)[0] == '下');
    }
}

/// A line says how many people a recipe serves just if it ends with one of two words.
pub proof fn law_servings_end_the_line(t: Seq<char>)
    ensures
        servings(t + "人分"@),
        servings(t + "人前"@),
        servings(t) ==> exists|before: Seq<char>|
            t == #[trigger] (before + "人分"@) || t == before + "人前"@,
{
    let a = t + "人分"@;
    let b = t + "人前"@;
    assert(a.subrange(a.len() - "人分"@.len(), a.len() as int) =~= "人分"@);
    assert(b.subrange(b.len() - "人前"@.len(), b.len() as int) =~= "人前"@);
    if "人分"@.is_suffix_of(t) {
        let before = t.take(t.len() - "人分"@.len());
        assert(t =~= before + "人分"@);
    } else if "人前"@.is_suffix_of(t) {
        let before = t.take(t.len() - "人前"@.len());
        assert(t =~= before + "人前"@);
        assert(before + "人分"@ == before + "人分"@);
    }
}

/// Whether the list of ingredients is open behind the given lines, in lower case: some line opened
/// it, and none behind that line opened the steps instead.
pub open spec fn list_is_open(lowers: Seq<Seq<char>>) -> bool {
    exists|h: int|
        0 <= h < lowers.len() && opens_ingredients(#[trigger] lowers[h]) && forall|j: int|
            h < j < lowers.len() ==> opens_ingredients(#[trigger] lowers[j]) || !opens_steps(
                lowers[j],
            )
}

proof fn lemma_list_is_open(lowers: Seq<Seq<char>>, lower: Seq<char>)
    ensures
        list_is_open(lowers.push(lower)) == (opens_ingredients(lower) || (!opens_steps(lower)
            && list_is_open(lowers))),
        !list_is_open(Seq::empty()),
{
    let all = lowers.push(lower);
    let n = lowers.len() as int;
    assert(all[n] == lower);
    if opens_ingredients(lower) {
        assert(list_is_open(all));
    } else if list_is_open(all) {
        let h = choose|h: int|
            0 <= h < all.len() && opens_ingredients(#[trigger] all[h]) && forall|j: int|
                h < j < all.len() ==> opens_ingredients(#[trigger] all[j]) || !opens_steps(all[j]);
        assert(h < n);
        assert(lowers[h] == all[h]);
        assert forall|j: int| h < j < n implies opens_ingredients(#[trigger] lowers[j])
            || !opens_steps(lowers[j]) by {
            assert(all[j] == lowers[j]);
        }
        assert(list_is_open(lowers));
    } else if list_is_open(lowers) && !opens_steps(lower) {
        let h = choose|h: int|
            0 <= h < lowers.len() && opens_ingredients(#[trigger] lowers[h]) && forall|j: int|
                h < j < lowers.len() ==> opens_ingredients(#[trigger] lowers[j]) || !opens_steps(
                    lowers[j],
                );
        assert(all[h] == lowers[h]);
        assert forall|j: int| h < j < all.len() implies opens_ingredients(#[trigger] all[j])
            || !opens_steps(all[j]) by {
            if j < n {
                assert(all[j] == lowers[j]);
            }
        }
        assert(list_is_open(all));
    }
}

/// Whether the last of the given lines is a name that waits for its amount: the list of
/// ingredients is open, and the line is no heading, no number of servings and no amount.
pub open spec fn name_waits(ls: Seq<Seq<char>>, lowers: Seq<Seq<char>>) -> bool {
    &&& ls.len() > 0
    &&& list_is_open(lowers)
    &&& !opens_ingredients(lowers.last())
    &&& !opens_steps(lowers.last())
    &&& !servings(ls.last())
    &&& !amount_only(ls.last())
}

proof fn lemma_format_run(ls: Seq<Seq<char>>, lowers: Seq<Seq<char>>)
    requires
        ls.len() == lowers.len(),
    ensures
        format_run(ls, lowers).in_ingredients == list_is_open(lowers),
        format_run(ls, lowers).pending == if name_waits(ls, lowers) {
            Some(ls.last())
        } else {
            None
        },
        name_waits(ls, lowers) ==> format_run(ls, lowers).out == pieces_of(
            ls.drop_last(),
            lowers.drop_last(),
        ),
    decreases ls.len(),
{
    if ls.len() == 0 {
        assert(lowers =~= Seq::<Seq<char>>::empty());
        lemma_list_is_open(lowers, Seq::empty());
    } else {
        lemma_format_run(ls.drop_last(), lowers.drop_last());
        lemma_list_is_open(lowers.drop_last(), lowers.last());
        assert(lowers.drop_last().push(lowers.last()) =~= lowers);
        lemma_format_run_sources(ls.drop_last(), lowers.drop_last());
    }
}

/// Formatting goes line by line: every line stays a line of its own, but an amount in the list of
/// ingredients goes to the name on the line before it.
pub proof fn law_formatting_goes_line_by_line(
    ls: Seq<Seq<char>>,
    lowers: Seq<Seq<char>>,
    t: Seq<char>,
    lower: Seq<char>,
)
    requires
        ls.len() == lowers.len(),
    ensures
        pieces_of(ls.push(t), lowers.push(lower)) == if name_waits(ls, lowers) && amount_only(t)
            && !servings(t) && !opens_ingredients(lower) && !opens_steps(lower) {
            pieces_of(ls.drop_last(), lowers.drop_last()).push(Piece::Pair(ls.last(), t))
        } else {
            pieces_of(ls, lowers).push(Piece::Line(t))
        },
        pieces_of(Seq::empty(), Seq::empty()) == Seq::<Piece>::empty(),
{
    lemma_format_run(ls, lowers);
    assert(ls.push(t).drop_last() =~= ls);
    assert(lowers.push(lower).drop_last() =~= lowers);
    lemma_format_run_sources(ls, lowers);
}

proof fn lemma_sources_are_lines(pieces: Seq<Piece>, i: int)
    requires
        0 <= i < pieces.len(),
    ensures
        forall|k: int|
            0 <= k < pieces[i].sources().len() ==> all_sources(pieces).contains(
                #[trigger] pieces[i].sources()[k],
            ),
    decreases pieces.len(),
{
    let all = all_sources(pieces);
    let front = all_sources(pieces.drop_last());
    assert forall|k: int| 0 <= k < pieces[i].sources().len() implies all.contains(
        #[trigger] pieces[i].sources()[k],
    ) by {
        let x = pieces[i].sources()[k];
        if i == pieces.len() - 1 {
            assert(all[front.len() + k] == x);
        } else {
            lemma_sources_are_lines(pieces.drop_last(), i);
            assert(front.contains(pieces.drop_last()[i].sources()[k]));
            let m = choose|m: int| 0 <= m < front.len() && front[m] == x;
            assert(all[m] == x);
        }
    }
}

/// The formatted text has a line for each piece: a line as it was, or a name and its amount with a
/// colon and a blank between them.
pub proof fn law_formatted_lines(text: Seq<char>)
    ensures
        ({
            let ls = cleaned_lines(text);
            let pieces = pieces_of(ls, ls.map_values(|l: Seq<char>| lowercase(l)));
            &&& lines_of(formatted(text)).len() == pieces.len()
            &&& forall|i: int|
                0 <= i < pieces.len() ==> #[trigger] lines_of(formatted(text))[i] == match pieces[i] {
                    Piece::Line(t) => t,
                    Piece::Pair(name, amount) => name + ": "@ + amount,
                }
        }),
{
    reveal_strlit("\n");
    reveal_strlit(": ");
    assert("\n"@ =~= seq!['\n']);
    let ls = cleaned_lines(text);
    let lowers = lowered(ls);
    assert(lowers =~= ls.map_values(|l: Seq<char>| lowercase(l)));
    let pieces = pieces_of(ls, lowers);
    lemma_format_run_sources(ls, lowers);
    lemma_cleaned_are_lines(text);
    let out = rendered(pieces);
    assert forall|i: int| 0 <= i < out.len() implies is_line(#[trigger] out[i]) by {
        lemma_sources_are_lines(pieces, i);
        match pieces[i] {
            Piece::Line(t) => {
                assert(pieces[i].sources()[0] == t);
                assert(ls.contains(t));
            },
            Piece::Pair(name, amount) => {
                assert(pieces[i].sources()[0] == name);
                assert(pieces[i].sources()[1] == amount);
                assert(ls.contains(name) && ls.contains(amount));
                assert(is_line(name) && is_line(amount));
                let s = name + ": "@ + amount;
                assert forall|k: int| 0 <= k < s.len() implies #[trigger] s[k] != '\n' by {
                    if k < name.len() {
                        assert(s[k] == name[k]);
                    } else if k >= name.len() + 2 {
                        assert(s[k] == amount[k - name.len() - 2]);
                    } else {
                        assert(s[k] == ": "@[k - name.len()]);
                    }
                }
                assert(s.last() == amount.last());
            },
        }
    }
    lemma_lines_of_joined(out);
}

} // verus!
