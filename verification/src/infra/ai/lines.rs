//! Cleaning up the lines of a pasted text.

use crate::text::{chars_of, is_line, is_trimmed, join, joined, lemma_filter_all, lemma_filter_take};
use crate::text::{lemma_lines_hold_no_feed, lemma_lines_of_joined, lemma_texts_push};
use crate::text::{lemma_trimmed_fixed, lemma_trimmed_is_stretch, lines, lines_of, texts, trim};
use crate::text::{ink, law_joining_goes_piece_by_piece, law_lines_end_at_line_feeds};
use crate::text::{lemma_ink_of_trimmed, lemma_trimmed_lines, trimmed, whitespace};
use crate::unicode::alphanumeric;
use vstd::prelude::*;

verus! {

// ---------------------------------------------------------------------------
// Lines that say something
// ---------------------------------------------------------------------------

/// Whether a line holds a letter or a digit of any script.
pub open spec fn wordy(t: Seq<char>) -> bool {
    exists|i: int| 0 <= i < t.len() && alphanumeric(#[trigger] t[i])
}

/// Holds of the lines that are no noise: longer than one character, no caption of a picture,
/// and not made of symbols alone.
pub open spec fn telling_line() -> spec_fn(Seq<char>) -> bool {
    |t: Seq<char>| t.len() > 1 && t[0] != '【' && wordy(t)
}

/// The lines with the whitespace at their ends cut off.
pub open spec fn trimmed_lines(ls: Seq<Seq<char>>) -> Seq<Seq<char>> {
    ls.map_values(|l: Seq<char>| trimmed(l))
}

/// The trimmed lines of a text that are no noise.
pub open spec fn cleaned_lines(text: Seq<char>) -> Seq<Seq<char>> {
    trimmed_lines(lines_of(text)).filter(telling_line())
}

/// The text without its noise.
pub open spec fn preprocessed(text: Seq<char>) -> Seq<char> {
    joined(cleaned_lines(text), "\n"@)
}

fn is_wordy(t: &str) -> (r: bool)
    ensures
        r == wordy(t@),
{
    let cs = chars_of(t);
    let mut i: usize = 0;
    while i < cs.len()
        invariant
            i <= cs@.len(),
            cs@ == t@,
            forall|j: int| 0 <= j < i ==> !alphanumeric(#[trigger] cs@[j]),
        decreases cs@.len() - i,
    {
        if cs[i].is_alphanumeric() {
            return true;
        }
        i += 1;
    }
    false
}

/// Whether a trimmed line is kept, where `wordy` says whether it holds a letter or a digit.
pub fn keeps_line(t: &str, wordy: bool) -> (r: bool)
    ensures
        r == (t@.len() > 1 && t@[0] != '【' && wordy),
{
    let cs = chars_of(t);
    cs.len() > 1 && cs[0] != '【' && wordy
}

/// The trimmed lines of a text that are no noise, in order.
pub fn clean_lines(text: &str) -> (r: Vec<String>)
    ensures
        texts(r@) == cleaned_lines(text@),
{
    let all = lines(text);
    let ghost trimmed_all = trimmed_lines(lines_of(text@));
    let mut out: Vec<String> = Vec::new();
    let mut i: usize = 0;
    assert(trimmed_all.take(0).filter(telling_line()) =~= Seq::<Seq<char>>::empty()) by {
        reveal(Seq::filter);
    }
    assert(texts(out@) =~= Seq::<Seq<char>>::empty());
    while i < all.len()
        invariant
            i <= all@.len(),
            texts(all@) == lines_of(text@),
            trimmed_all == trimmed_lines(lines_of(text@)),
            texts(out@) == trimmed_all.take(i as int).filter(telling_line()),
        decreases all@.len() - i,
    {
        let t = trim(all[i].as_str());
        proof {
            assert(texts(all@)[i as int] == all@[i as int]@);
            assert(trimmed_all[i as int] == t@);
            lemma_filter_take(trimmed_all, telling_line(), i as int);
            lemma_texts_push(out@, t);
        }
        if keeps_line(t.as_str(), is_wordy(t.as_str())) {
            out.push(t);
        }
        i += 1;
    }
    assert(trimmed_all.take(all@.len() as int) =~= trimmed_all);
    out
}

/// Removes the noise from a text: lines of one character, captions of pictures, and lines of
/// symbols alone.
pub fn preprocess_text(text: &str) -> (r: String)
    ensures
        r@ == preprocessed(text@),
{
    join(&clean_lines(text), "\n")
}

/// The lines of a cleaned text are the lines that were kept, each trimmed and no noise.
pub proof fn law_preprocessed_lines(text: Seq<char>)
    ensures
        lines_of(preprocessed(text)) == cleaned_lines(text),
        forall|i: int|
            0 <= i < cleaned_lines(text).len() ==> is_trimmed(#[trigger] cleaned_lines(text)[i])
                && telling_line()(cleaned_lines(text)[i]),
{
    reveal_strlit("\n");
    assert("\n"@ =~= seq!['\n']);
    let all = lines_of(text);
    let ts = trimmed_lines(all);
    let kept = cleaned_lines(text);
    lemma_lines_hold_no_feed(text);
    assert forall|i: int| 0 <= i < kept.len() implies is_line(#[trigger] kept[i]) && is_trimmed(
        kept[i],
    ) && telling_line()(kept[i]) by {
        ts.lemma_filter_pred(telling_line(), i);
        ts.lemma_filter_contains_rev(telling_line(), kept[i]);
        let k = choose|k: int| 0 <= k < ts.len() && ts[k] == kept[i];
        let r = lemma_trimmed_is_stretch(all[k]);
        assert forall|j: int| 0 <= j < kept[i].len() implies #[trigger] kept[i][j] != '\n' by {
            assert(kept[i][j] == all[k][r.0 + j]);
        }
        assert(whitespace('\r'));
    }
    lemma_lines_of_joined(kept);
}

/// What is kept of a text is lines.
pub proof fn lemma_cleaned_are_lines(text: Seq<char>)
    ensures
        forall|t: Seq<char>| #[trigger] cleaned_lines(text).contains(t) ==> is_line(t),
{
    let all = lines_of(text);
    let ts = trimmed_lines(all);
    lemma_lines_hold_no_feed(text);
    assert forall|t: Seq<char>| #[trigger] cleaned_lines(text).contains(t) implies is_line(t) by {
        let i = choose|i: int| 0 <= i < cleaned_lines(text).len() && cleaned_lines(text)[i] == t;
        ts.lemma_filter_pred(telling_line(), i);
        ts.lemma_filter_contains_rev(telling_line(), t);
        let k = choose|k: int| 0 <= k < ts.len() && ts[k] == t;
        let r = lemma_trimmed_is_stretch(all[k]);
        assert forall|j: int| 0 <= j < t.len() implies #[trigger] t[j] != '\n' by {
            assert(t[j] == all[k][r.0 + j]);
        }
        assert(whitespace('\r'));
    }
}

/// Cleaning a cleaned text changes nothing.
pub proof fn law_preprocessing_is_idempotent(text: Seq<char>)
    ensures
        preprocessed(preprocessed(text)) == preprocessed(text),
{
    law_preprocessed_lines(text);
    let kept = cleaned_lines(text);
    assert forall|i: int| 0 <= i < kept.len() implies trimmed(#[trigger] kept[i]) == kept[i] by {
        lemma_trimmed_fixed(kept[i]);
    }
    assert(trimmed_lines(kept) =~= kept);
    lemma_filter_all(kept, telling_line());
}

/// Cleaning goes line by line: a line is kept, trimmed, if that leaves more than one character,
/// the first is no opening bracket of a caption, and any is a letter or a digit. No other line is
/// lost, and none comes elsewhere.
pub proof fn law_cleaning_goes_line_by_line(line: Seq<char>, rest: Seq<char>)
    requires
        forall|i: int| 0 <= i < line.len() ==> #[trigger] line[i] != '\n',
    ensures
        ({
            let t = trimmed(line);
            let kept = t.len() > 1 && t[0] != '【' && exists|i: int|
                0 <= i < t.len() && alphanumeric(#[trigger] t[i]);
            &&& cleaned_lines(line + seq!['\n'] + rest) == (if kept {
                seq![t] + cleaned_lines(rest)
            } else {
                cleaned_lines(rest)
            })
            &&& cleaned_lines(line) == (if kept {
                seq![t]
            } else {
                Seq::empty()
            })
            &&& preprocessed(line + seq!['\n'] + rest) == (if !kept {
                preprocessed(rest)
            } else if preprocessed(rest).len() == 0 {
                t
            } else {
                t + seq!['\n'] + preprocessed(rest)
            })
        }),
{
    reveal_strlit("\n");
    assert("\n"@ =~= seq!['\n']);
    let t = trimmed(line);
    let kept = telling_line()(t);
    lemma_trimmed_lines(line, rest);
    let back = trimmed_lines(lines_of(rest));
    Seq::filter_distributes_over_add(seq![t], back, telling_line());
    crate::text::lemma_filter_one(t, telling_line());
    let more = cleaned_lines(rest);
    assert(Seq::<Seq<char>>::empty() + more =~= more);
    assert(trimmed_lines(lines_of(line + seq!['\n'] + rest)) =~= seq![t] + back);
    law_lines_end_at_line_feeds(line, rest);
    if line.len() > 0 {
        assert(trimmed_lines(lines_of(line)) =~= seq![t]);
    } else {
        assert(trimmed_lines(lines_of(line)) =~= Seq::<Seq<char>>::empty());
        assert(cleaned_lines(line) =~= Seq::<Seq<char>>::empty()) by {
            reveal(Seq::filter);
        }
    }
    law_joining_goes_piece_by_piece(seq![t], more, t, "\n"@);
    law_joining_goes_piece_by_piece(seq![], more, t, "\n"@);
    if more.len() > 0 {
        law_preprocessed_lines(rest);
        assert(more[0].len() > 0);
        if more.len() > 1 {
            crate::text::lemma_joined_front(more, "\n"@);
        }
        assert(preprocessed(rest).len() > 0);
    } else {
        assert(seq![t] + more =~= seq![t]);
    }
}

/// A line that is kept loses nothing but whitespace.
pub proof fn law_kept_lines_show_all(line: Seq<char>)
    requires
        cleaned_lines(line).len() > 0,
        forall|i: int| 0 <= i < line.len() ==> #[trigger] line[i] != '\n',
    ensures
        ink(preprocessed(line)) == ink(line),
{
    law_cleaning_goes_line_by_line(line, Seq::empty());
    law_joining_goes_piece_by_piece(seq![], seq![], trimmed(line), "\n"@);
    lemma_ink_of_trimmed(line);
}

} // verus!
