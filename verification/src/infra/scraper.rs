//! Getting the text of a recipe out of a web page.

use crate::text::{is_line, join, joined, lemma_filter_all, lemma_filter_take};
use crate::text::{find, ink, law_joining_goes_piece_by_piece, law_lines_end_at_line_feeds};
use crate::text::{lemma_find, lemma_ink, lemma_ink_of_trimmed, lemma_lines_hold_no_feed};
use crate::text::lemma_trimmed_lines;
use crate::text::{lemma_lines_of_joined, lemma_texts_push, lemma_trimmed_fixed};
use crate::text::{lemma_trimmed_is_stretch, lines, lines_of, texts, trim, trimmed, whitespace};
use vstd::prelude::*;
use vstd::utf8::encode_utf8;

verus! {

/// What `scraper` finds in a page: for each element that a CSS selector matches, in the order of
/// the page, the texts in it; nothing if the selector cannot be read.
pub uninterp spec fn selected_text(html: Seq<char>, selector: Seq<char>) -> Option<
    Seq<Seq<Seq<char>>>,
>;

/// The texts of each list.
pub open spec fn all_texts(v: Seq<Vec<String>>) -> Seq<Seq<Seq<char>>> {
    v.map_values(|t: Vec<String>| texts(t@))
}

/// The texts of the elements that a CSS selector matches, by `scraper::Html::parse_document`,
/// `scraper::Selector::parse`, `scraper::Html::select` and `scraper::ElementRef::text`. What comes
/// out depends on the page and the selector alone. `Selector::parse` calls itself for selectors
/// inside selectors, so only those without any are admitted.
#[verifier::external_body]
fn select_text(html: &str, selector: &str) -> (r: Option<Vec<Vec<String>>>)
    requires
        recipe_selectors().contains(selector@) || selector@ == "body"@,
    ensures
        match r {
            Some(found) => selected_text(html@, selector@) == Some(all_texts(found@)),
            None => selected_text(html@, selector@) is None,
        },
{
    let selector = scraper::Selector::parse(selector).ok()?;
    let document = scraper::Html::parse_document(html);
    let texts = |e: scraper::ElementRef| e.text().map(|t| t.to_string()).collect();
    Some(document.select(&selector).map(texts).collect())
}

/// The texts of all elements in one list.
pub open spec fn flat(found: Seq<Seq<Seq<char>>>) -> Seq<Seq<char>>
    decreases found.len(),
{
    if found.len() == 0 {
        Seq::empty()
    } else {
        flat(found.drop_last()) + found.last()
    }
}

/// The texts of all elements in one list, if there is anything.
pub open spec fn opt_flat(found: Option<Seq<Seq<Seq<char>>>>) -> Option<Seq<Seq<char>>> {
    match found {
        Some(f) => Some(flat(f)),
        None => None,
    }
}

/// The texts of a list, if there is one.
pub open spec fn opt_texts(o: Option<Vec<String>>) -> Option<Seq<Seq<char>>> {
    match o {
        Some(v) => Some(texts(v@)),
        None => None,
    }
}

/// Puts the texts of all elements in one list.
pub fn flatten(found: Vec<Vec<String>>) -> (r: Vec<String>)
    ensures
        texts(r@) == flat(all_texts(found@)),
{
    let ghost all = all_texts(found@);
    let mut out: Vec<String> = Vec::new();
    assert(texts(out@) =~= flat(all.take(0)));
    for one in it: found
        invariant
            all == all_texts(it.seq()),
            texts(out@) == flat(all.take(it.index())),
    {
        let ghost k = it.index();
        let ghost before = out@;
        let mut one = one;
        let ghost more = one@;
        out.append(&mut one);
        proof {
            assert(texts(before + more) =~= texts(before) + texts(more));
            assert(all.take(k + 1).drop_last() =~= all.take(k));
            assert(all.take(k + 1).last() == texts(more));
        }
    }
    assert(all.take(all.len() as int) =~= all);
    out
}

fn part_of_page(html: &str, selector: &str) -> (r: Option<Vec<String>>)
    requires
        recipe_selectors().contains(selector@) || selector@ == "body"@,
    ensures
        opt_texts(r) == opt_flat(selected_text(html@, selector@)),
{
    match select_text(html, selector) {
        Some(found) => Some(flatten(found)),
        None => None,
    }
}

/// How many bytes a part of a page must have more than to be taken for the recipe.
pub const LONG_TEXT: usize = 200;

/// The texts put below each other.
pub open spec fn stacked(pieces: Seq<Seq<char>>) -> Seq<char> {
    joined(pieces, "\n"@)
}

/// Whether the texts are long enough to be taken for the recipe.
pub open spec fn is_long(pieces: Seq<Seq<char>>) -> bool {
    encode_utf8(stacked(pieces)).len() > LONG_TEXT
}

/// The parts of a page in which a recipe is looked for, in this order.
pub open spec fn recipe_selectors() -> Seq<Seq<char>> {
    seq![
        "[class*='recipe']"@,
        "[class*='ingredient']"@,
        "[class*='instruction']"@,
        "article"@,
        "main"@,
    ]
}

/// The first of the texts that is long enough.
pub open spec fn first_long(found: Seq<Option<Seq<Seq<char>>>>) -> Option<Seq<Seq<char>>>
    decreases found.len(),
{
    if found.len() == 0 {
        None
    } else {
        match found[0] {
            Some(pieces) => if is_long(pieces) {
                Some(pieces)
            } else {
                first_long(found.drop_first())
            },
            None => first_long(found.drop_first()),
        }
    }
}

/// What is found in a page under each of the selectors.
pub open spec fn found_in(html: Seq<char>, selectors: Seq<Seq<char>>) -> Seq<
    Option<Seq<Seq<char>>>,
> {
    selectors.map_values(|s: Seq<char>| opt_flat(selected_text(html, s)))
}

/// The text of a page, where `found` is what stands in the parts in which a recipe is looked for
/// and `body` all that it shows: the first part that is long enough, or else all of it.
pub open spec fn page_text(
    found: Seq<Option<Seq<Seq<char>>>>,
    body: Option<Seq<Seq<char>>>,
) -> Seq<char> {
    match first_long(found) {
        Some(pieces) => cleaned(stacked(pieces)),
        None => match body {
            Some(pieces) => cleaned(stacked(pieces)),
            None => Seq::empty(),
        },
    }
}

// ---------------------------------------------------------------------------
// Cleaning
// ---------------------------------------------------------------------------

/// Holds of the texts that are not empty.
pub open spec fn not_empty() -> spec_fn(Seq<char>) -> bool {
    |t: Seq<char>| t.len() > 0
}

/// The lines with the whitespace at their ends cut off, but for those that are then empty.
pub open spec fn shown_lines(ls: Seq<Seq<char>>) -> Seq<Seq<char>> {
    ls.map_values(|l: Seq<char>| trimmed(l)).filter(not_empty())
}

/// A text without blank lines and without whitespace at the ends of its lines.
pub open spec fn cleaned(text: Seq<char>) -> Seq<char> {
    joined(shown_lines(lines_of(text)), "\n"@)
}

/// A text without blank lines and without whitespace at the ends of its lines.
pub fn clean_text(text: &str) -> (r: String)
    ensures
        r@ == cleaned(text@),
{
    let all = lines(text);
    let ghost ts = lines_of(text@).map_values(|l: Seq<char>| trimmed(l));
    let mut out: Vec<String> = Vec::new();
    let mut i: usize = 0;
    proof {
        reveal(Seq::filter);
        assert(texts(out@) =~= ts.take(0).filter(not_empty()));
    }
    while i < all.len()
        invariant
            i <= all@.len(),
            texts(all@) == lines_of(text@),
            ts == lines_of(text@).map_values(|l: Seq<char>| trimmed(l)),
            texts(out@) == ts.take(i as int).filter(not_empty()),
        decreases all@.len() - i,
    {
        let t = trim(all[i].as_str());
        proof {
            assert(texts(all@)[i as int] == all@[i as int]@);
            assert(ts[i as int] == t@);
            lemma_filter_take(ts, not_empty(), i as int);
            lemma_texts_push(out@, t);
        }
        if !t.as_str().is_empty() {
            out.push(t);
        }
        i += 1;
    }
    assert(ts.take(all@.len() as int) =~= ts);
    join(&out, "\n")
}

/// Cleaning a text again changes nothing.
pub proof fn law_cleaning_is_idempotent(text: Seq<char>)
    ensures
        cleaned(cleaned(text)) == cleaned(text),
{
    reveal_strlit("\n");
    assert("\n"@ =~= seq!['\n']);
    let all = lines_of(text);
    let ts = all.map_values(|l: Seq<char>| trimmed(l));
    let kept = shown_lines(all);
    lemma_lines_hold_no_feed(text);
    assert forall|i: int| 0 <= i < kept.len() implies is_line(#[trigger] kept[i]) && trimmed(
        kept[i],
    ) == kept[i] by {
        ts.lemma_filter_pred(not_empty(), i);
        ts.lemma_filter_contains_rev(not_empty(), kept[i]);
        let k = choose|k: int| 0 <= k < ts.len() && ts[k] == kept[i];
        let r = lemma_trimmed_is_stretch(all[k]);
        assert forall|j: int| 0 <= j < kept[i].len() implies #[trigger] kept[i][j] != '\n' by {
            assert(kept[i][j] == all[k][r.0 + j]);
        }
        assert(whitespace('\r'));
        lemma_trimmed_fixed(kept[i]);
    }
    lemma_lines_of_joined(kept);
    let again = kept.map_values(|l: Seq<char>| trimmed(l));
    assert(again =~= kept);
    assert forall|i: int| 0 <= i < kept.len() implies not_empty()(#[trigger] kept[i]) by {
        assert(is_line(kept[i]));
    }
    lemma_filter_all(kept, not_empty());
}

// ---------------------------------------------------------------------------
// Pages
// ---------------------------------------------------------------------------

/// The cleaned text of a part of a page, if it is long enough to be taken for the recipe.
pub fn long_text(pieces: &Vec<String>) -> (r: Option<String>)
    ensures
        match r {
            Some(t) => is_long(texts(pieces@)) && t@ == cleaned(stacked(texts(pieces@))),
            None => !is_long(texts(pieces@)),
        },
{
    let text = join(pieces, "\n");
    if text.as_str().as_bytes().len() > LONG_TEXT {
        Some(clean_text(text.as_str()))
    } else {
        None
    }
}

/// The text of a page, where `found` is what stands in the parts in which a recipe is looked for
/// and `body` all that it shows.
pub fn choose_text(found: &Vec<Option<Vec<String>>>, body: &Option<Vec<String>>) -> (r: String)
    ensures
        r@ == page_text(found@.map_values(|o: Option<Vec<String>>| opt_texts(o)), opt_texts(*body)),
{
    let ghost all = found@.map_values(|o: Option<Vec<String>>| opt_texts(o));
    let mut i: usize = 0;
    assert(all.skip(0) =~= all);
    while i < found.len()
        invariant
            i <= found@.len(),
            all == found@.map_values(|o: Option<Vec<String>>| opt_texts(o)),
            first_long(all) == first_long(all.skip(i as int)),
        decreases found@.len() - i,
    {
        proof {
            assert(all.skip(i as int)[0] == opt_texts(found@[i as int]));
            assert(all.skip(i as int).drop_first() =~= all.skip(i + 1));
        }
        if let Some(pieces) = &found[i] {
            if let Some(text) = long_text(pieces) {
                return text;
            }
        }
        i += 1;
    }
    match body {
        Some(pieces) => clean_text(join(pieces, "\n").as_str()),
        None => String::new(),
    }
}

/// The text of a web page: of the first part that looks like a recipe and is long enough, or
/// else of all of it.
pub fn extract_text_from_html(html: &str) -> (r: String)
    ensures
        r@ == page_text(
            found_in(html@, recipe_selectors()),
            opt_flat(selected_text(html@, "body"@)),
        ),
{
    let ghost all = recipe_selectors();
    proof {
        assert(all[0] == "[class*='recipe']"@);
        assert(all[1] == "[class*='ingredient']"@);
        assert(all[2] == "[class*='instruction']"@);
        assert(all[3] == "article"@);
        assert(all[4] == "main"@);
    }
    let mut found: Vec<Option<Vec<String>>> = Vec::new();
    found.push(part_of_page(html, "[class*='recipe']"));
    found.push(part_of_page(html, "[class*='ingredient']"));
    found.push(part_of_page(html, "[class*='instruction']"));
    found.push(part_of_page(html, "article"));
    found.push(part_of_page(html, "main"));
    assert(found@.map_values(|o: Option<Vec<String>>| opt_texts(o)) =~= found_in(html@, all));
    choose_text(&found, &part_of_page(html, "body"))
}

/// Cleaning goes line by line: a line that is blank goes, and every other stays, trimmed, with one
/// line feed before what follows.
pub proof fn law_cleaning_goes_line_by_line(line: Seq<char>, rest: Seq<char>)
    requires
        forall|i: int| 0 <= i < line.len() ==> #[trigger] line[i] != '\n',
    ensures
        cleaned(line + seq!['\n'] + rest) == if trimmed(line).len() == 0 {
            cleaned(rest)
        } else if cleaned(rest).len() == 0 {
            trimmed(line)
        } else {
            trimmed(line) + seq!['\n'] + cleaned(rest)
        },
        cleaned(line) == trimmed(line),
        lines_of(cleaned(line + seq!['\n'] + rest)) == if trimmed(line).len() == 0 {
            lines_of(cleaned(rest))
        } else {
            seq![trimmed(line)] + lines_of(cleaned(rest))
        },
{
    reveal_strlit("\n");
    assert("\n"@ =~= seq!['\n']);
    let t = trimmed(line);
    let all = line + seq!['\n'] + rest;
    lemma_trimmed_lines(line, rest);
    let back = lines_of(rest).map_values(|l: Seq<char>| trimmed(l));
    Seq::filter_distributes_over_add(seq![t], back, not_empty());
    crate::text::lemma_filter_one(t, not_empty());
    let more = shown_lines(lines_of(rest));
    assert(Seq::<Seq<char>>::empty() + more =~= more);
    law_lines_end_at_line_feeds(line, rest);
    if line.len() > 0 {
        assert(lines_of(line).map_values(|l: Seq<char>| trimmed(l)) =~= seq![t]);
    } else {
        assert(lines_of(line).map_values(|l: Seq<char>| trimmed(l)) =~= Seq::<Seq<char>>::empty());
        assert(shown_lines(lines_of(line)) =~= Seq::<Seq<char>>::empty()) by {
            reveal(Seq::filter);
        }
        assert(t.len() == 0) by {
            crate::text::law_trimming_cuts_the_margins(line, line, line);
            assert(line + line + line =~= line);
        }
    }
    law_joining_goes_piece_by_piece(seq![t], more, t, "\n"@);
    law_joining_goes_piece_by_piece(seq![], more, t, "\n"@);
    lemma_shown_lines(rest);
    lemma_lines_of_joined(more);
    lemma_shown_lines(all);
    lemma_lines_of_joined(shown_lines(lines_of(all)));
    if more.len() > 0 {
        assert(is_line(more[0]));
        if more.len() > 1 {
            crate::text::lemma_joined_front(more, "\n"@);
        }
        assert(cleaned(rest).len() > 0);
    } else {
        assert(seq![t] + more =~= seq![t]);
    }
}

proof fn lemma_shown_lines(text: Seq<char>)
    ensures
        forall|i: int|
            0 <= i < shown_lines(lines_of(text)).len() ==> is_line(
                #[trigger] shown_lines(lines_of(text))[i],
            ),
{
    let all = lines_of(text);
    let ts = all.map_values(|l: Seq<char>| trimmed(l));
    let kept = shown_lines(all);
    lemma_lines_hold_no_feed(text);
    assert forall|i: int| 0 <= i < kept.len() implies is_line(#[trigger] kept[i]) by {
        ts.lemma_filter_pred(not_empty(), i);
        ts.lemma_filter_contains_rev(not_empty(), kept[i]);
        let k = choose|k: int| 0 <= k < ts.len() && ts[k] == kept[i];
        let r = lemma_trimmed_is_stretch(all[k]);
        assert forall|j: int| 0 <= j < kept[i].len() implies #[trigger] kept[i][j] != '\n' by {
            assert(kept[i][j] == all[k][r.0 + j]);
        }
        assert(whitespace('\r'));
    }
}

/// Cleaning loses nothing that shows: without whitespace the cleaned text is the text.
pub proof fn law_cleaning_loses_nothing_that_shows(text: Seq<char>)
    ensures
        ink(cleaned(text)) == ink(text),
    decreases text.len(),
{
    let n = find(text, '\n');
    lemma_find(text, '\n');
    let line = text.take(n);
    assert forall|i: int| 0 <= i < line.len() implies #[trigger] line[i] != '\n' by {
        assert(text[i] != '\n');
    }
    lemma_ink_of_trimmed(line);
    if n == text.len() {
        law_cleaning_goes_line_by_line(line, Seq::empty());
        assert(line =~= text);
    } else {
        let rest = text.skip(n + 1);
        let feed = seq!['\n'];
        assert(text =~= line + feed + rest);
        law_cleaning_goes_line_by_line(line, rest);
        law_cleaning_loses_nothing_that_shows(rest);
        let none = Seq::<char>::empty();
        assert(whitespace('\n'));
        lemma_ink(feed, none);
        lemma_ink(line, feed);
        lemma_ink(line + feed, rest);
        lemma_ink(trimmed(line), feed);
        lemma_ink(trimmed(line) + feed, cleaned(rest));
        lemma_ink(none, none);
        assert(ink(text) =~= ink(line) + ink(rest));
        if trimmed(line).len() == 0 {
            assert(trimmed(line) =~= none);
            assert(none + ink(rest) =~= ink(rest));
        } else if cleaned(rest).len() == 0 {
            assert(cleaned(rest) =~= none);
            assert(ink(line) + none =~= ink(line));
        } else {
            assert(ink(line) + none =~= ink(line));
        }
    }
}

/// The texts of several elements are those of the one and then those of the other.
pub proof fn law_elements_are_read_in_order(
    a: Seq<Seq<Seq<char>>>,
    b: Seq<Seq<Seq<char>>>,
    one: Seq<Seq<char>>,
)
    ensures
        flat(a + b) == flat(a) + flat(b),
        flat(seq![one]) == one,
        flat(Seq::empty()) == Seq::<Seq<char>>::empty(),
    decreases b.len(),
{
    assert(seq![one].drop_last() =~= Seq::<Seq<Seq<char>>>::empty());
    assert(flat(Seq::<Seq<Seq<char>>>::empty()) =~= Seq::<Seq<char>>::empty());
    assert(flat(seq![one]) =~= one);
    if b.len() == 0 {
        assert(a + b =~= a);
        assert(flat(a) + flat(b) =~= flat(a));
    } else {
        law_elements_are_read_in_order(a, b.drop_last(), one);
        assert((a + b).drop_last() =~= a + b.drop_last());
        assert(flat(a + b) =~= flat(a) + flat(b));
    }
}

proof fn lemma_first_long(found: Seq<Option<Seq<Seq<char>>>>, k: int)
    requires
        0 <= k <= found.len(),
        forall|j: int| 0 <= j < k ==> (#[trigger] found[j] matches Some(p) ==> !is_long(p)),
        k < found.len() ==> found[k] is Some && is_long(found[k]->0),
    ensures
        first_long(found) == if k < found.len() {
            found[k]
        } else {
            None
        },
    decreases k,
{
    if k > 0 {
        let rest = found.drop_first();
        assert(found[0] matches Some(p) ==> !is_long(p));
        assert forall|j: int| 0 <= j < k - 1 implies (#[trigger] rest[j] matches Some(p)
            ==> !is_long(p)) by {
            assert(rest[j] == found[j + 1]);
        }
        lemma_first_long(rest, k - 1);
    }
}

/// The text of a page is that of the first part that has more than two hundred bytes, however long
/// the later parts are, and that of the whole page if no part has.
pub proof fn law_the_first_long_part_is_the_text(
    found: Seq<Option<Seq<Seq<char>>>>,
    body: Option<Seq<Seq<char>>>,
    k: int,
)
    requires
        0 <= k <= found.len(),
        forall|j: int|
            0 <= j < k ==> (#[trigger] found[j] matches Some(p) ==> encode_utf8(
                joined(p, "\n"@),
            ).len() <= 200),
        k < found.len() ==> found[k] is Some && encode_utf8(joined(found[k]->0, "\n"@)).len() > 200,
    ensures
        k < found.len() ==> page_text(found, body) == cleaned(joined(found[k]->0, "\n"@)),
        k == found.len() && body is Some ==> page_text(found, body) == cleaned(
            joined(body->0, "\n"@),
        ),
        k == found.len() && body is None ==> page_text(found, body) == Seq::<char>::empty(),
{
    assert forall|j: int| 0 <= j < k implies (#[trigger] found[j] matches Some(p) ==> !is_long(
        p,
    )) by {
        assert(found[j] matches Some(p) ==> encode_utf8(joined(p, "\n"@)).len() <= 200);
    }
    lemma_first_long(found, k);
}

/// A recipe is looked for in what a page calls one, then in what it calls ingredients or
/// instructions, then in its articles and then in its main part.
pub proof fn law_where_a_recipe_is_looked_for(html: Seq<char>)
    ensures
        ({
            let found = found_in(html, recipe_selectors());
            &&& found.len() == 5
            &&& found[0] == opt_flat(selected_text(html, "[class*='recipe']"@))
            &&& found[1] == opt_flat(selected_text(html, "[class*='ingredient']"@))
            &&& found[2] == opt_flat(selected_text(html, "[class*='instruction']"@))
            &&& found[3] == opt_flat(selected_text(html, "article"@))
            &&& found[4] == opt_flat(selected_text(html, "main"@))
        }),
{
}

/// Nothing is made up for what was not found.
pub proof fn law_what_is_not_found_stays_so(found: Option<Seq<Seq<Seq<char>>>>)
    ensures
        opt_flat(found) is Some <==> found is Some,
        found is Some ==> opt_flat(found)->0 == flat(found->0),
{
}

} // verus!
