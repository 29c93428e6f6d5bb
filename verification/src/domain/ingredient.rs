//! Ingredients and their normalized names.

use crate::text::{is_whitespace, join, joined, same_text, texts, whitespace, words, words_of};
use crate::text::{chars_of, is_word, lemma_filter_all, lemma_filter_take, lemma_texts_push};
use crate::text::{law_one_word_is_one_word, law_whitespace_separates_words, lemma_filter_one};
use crate::text::{lemma_words_of, lemma_words_of_joined};
use crate::unicode::{alphanumeric, lowercase};
use vstd::prelude::*;

verus! {

/// One ingredient of a recipe.
#[derive(Debug, PartialEq)]
pub struct Ingredient {
    pub recipe_id: String,
    pub name: String,
    pub amount: String,
    pub unit: String,
    pub normalized_name: String,
}

/// An ingredient as plain text.
pub struct IngredientView {
    pub recipe_id: Seq<char>,
    pub name: Seq<char>,
    pub amount: Seq<char>,
    pub unit: Seq<char>,
    pub normalized_name: Seq<char>,
}

impl View for Ingredient {
    type V = IngredientView;

    open spec fn view(&self) -> IngredientView {
        IngredientView {
            recipe_id: self.recipe_id@,
            name: self.name@,
            amount: self.amount@,
            unit: self.unit@,
            normalized_name: self.normalized_name@,
        }
    }
}

impl Clone for Ingredient {
    fn clone(&self) -> (r: Self)
        ensures
            r@ == self@,
    {
        Ingredient {
            recipe_id: self.recipe_id.clone(),
            name: self.name.clone(),
            amount: self.amount.clone(),
            unit: self.unit.clone(),
            normalized_name: self.normalized_name.clone(),
        }
    }
}

impl Ingredient {
    /// The ingredient with its normalized name filled in.
    pub fn new(recipe_id: String, name: String, amount: String, unit: String) -> (r: Self)
        ensures
            r@ == (IngredientView {
                recipe_id: recipe_id@,
                name: name@,
                amount: amount@,
                unit: unit@,
                normalized_name: normalized(name@),
            }),
    {
        let normalized_name = normalize_name(name.as_str());
        Ingredient { recipe_id, name, amount, unit, normalized_name }
    }
}

/// A word that says nothing about which ingredient it is.
pub open spec fn stop_word(w: Seq<char>) -> bool {
    ||| w == "fresh"@
    ||| w == "dried"@
    ||| w == "chopped"@
    ||| w == "sliced"@
    ||| w == "diced"@
    ||| w == "minced"@
    ||| w == "large"@
    ||| w == "small"@
    ||| w == "medium"@
}

/// Holds of the characters that a normalized name keeps: letters, digits and whitespace.
pub open spec fn name_char() -> spec_fn(char) -> bool {
    |c: char| alphanumeric(c) || whitespace(c)
}

/// Holds of the words that a normalized name keeps.
pub open spec fn telling_word() -> spec_fn(Seq<char>) -> bool {
    |w: Seq<char>| !stop_word(w)
}

/// The words of a lowercased name that are left once punctuation and filler words are gone.
pub open spec fn kept_words(lower: Seq<char>) -> Seq<Seq<char>> {
    words_of(lower.filter(name_char())).filter(telling_word())
}

/// The name under which an ingredient is indexed and searched.
pub open spec fn normalized(name: Seq<char>) -> Seq<char> {
    joined(kept_words(lowercase(name)), " "@)
}

fn is_stop_word(w: &str) -> (r: bool)
    ensures
        r == stop_word(w@),
{
    same_text(w, "fresh") || same_text(w, "dried") || same_text(w, "chopped") || same_text(
        w,
        "sliced",
    ) || same_text(w, "diced") || same_text(w, "minced") || same_text(w, "large") || same_text(
        w,
        "small",
    ) || same_text(w, "medium")
}

/// A text without what is neither a letter nor a digit nor whitespace.
pub fn strip_punctuation(text: &str) -> (r: String)
    ensures
        r@ == text@.filter(name_char()),
{
    let cs = chars_of(text);
    let mut stripped = String::new();
    let mut i: usize = 0;
    assert(cs@.take(0).filter(name_char()) =~= Seq::<char>::empty()) by {
        reveal(Seq::filter);
    }
    while i < cs.len()
        invariant
            i <= cs@.len(),
            stripped@ == cs@.take(i as int).filter(name_char()),
        decreases cs@.len() - i,
    {
        let c = cs[i];
        proof {
            lemma_filter_take(cs@, name_char(), i as int);
        }
        if c.is_alphanumeric() || is_whitespace(c) {
            stripped.push(c);
        }
        i += 1;
    }
    assert(cs@.take(cs@.len() as int) =~= cs@);
    stripped
}

/// The words of a text but for the filler words, with one blank between each two.
pub fn join_telling_words(text: &str) -> (r: String)
    ensures
        r@ == joined(words_of(text@).filter(telling_word()), " "@),
{
    let all = words(text);
    let mut tokens: Vec<String> = Vec::new();
    let mut k: usize = 0;
    assert(texts(all@).take(0).filter(telling_word()) =~= Seq::<Seq<char>>::empty()) by {
        reveal(Seq::filter);
    }
    assert(texts(tokens@) =~= Seq::<Seq<char>>::empty());
    while k < all.len()
        invariant
            k <= all@.len(),
            texts(tokens@) == texts(all@).take(k as int).filter(telling_word()),
        decreases all@.len() - k,
    {
        proof {
            lemma_filter_take(texts(all@), telling_word(), k as int);
        }
        if !is_stop_word(all[k].as_str()) {
            let w = all[k].clone();
            proof {
                lemma_texts_push(tokens@, w);
            }
            tokens.push(w);
        }
        k += 1;
    }
    assert(texts(all@).take(all@.len() as int) =~= texts(all@));
    join(&tokens, " ")
}

/// Normalizes a name that is in lower case already.
pub fn normalize_lowercase(lower: &str) -> (r: String)
    ensures
        r@ == joined(kept_words(lower@), " "@),
{
    let stripped = strip_punctuation(lower);
    join_telling_words(stripped.as_str())
}

/// The name under which an ingredient is indexed and searched: in lower case, without
/// punctuation and without common filler words.
pub fn normalize_name(name: &str) -> (r: String)
    ensures
        r@ == normalized(name@),
{
    let lower = name.to_lowercase();
    normalize_lowercase(lower.as_str())
}

/// The words of a normalized name hold just letters and digits, and none is a filler word.
pub proof fn law_normalized_words_tell(lower: Seq<char>)
    ensures
        words_of(joined(kept_words(lower), " "@)) == kept_words(lower),
        forall|i: int|
            0 <= i < kept_words(lower).len() ==> (#[trigger] kept_words(lower)[i]).len() > 0
                && !stop_word(kept_words(lower)[i]),
        forall|i: int, j: int|
            0 <= i < kept_words(lower).len() && 0 <= j < kept_words(lower)[i].len()
                ==> alphanumeric(#[trigger] kept_words(lower)[i][j]),
{
    reveal_strlit(" ");
    assert(" "@ =~= seq![' ']);
    let stripped = lower.filter(name_char());
    let all = words_of(stripped);
    let kept = kept_words(lower);
    lemma_words_of(stripped);
    assert forall|i: int| 0 <= i < kept.len() implies is_word(#[trigger] kept[i]) && !stop_word(
        kept[i],
    ) && (forall|j: int| 0 <= j < kept[i].len() ==> alphanumeric(#[trigger] kept[i][j])) by {
        all.lemma_filter_pred(telling_word(), i);
        all.lemma_filter_contains_rev(telling_word(), kept[i]);
        let k = choose|k: int| 0 <= k < all.len() && all[k] == kept[i];
        assert(is_word(all[k]));
        assert forall|j: int| 0 <= j < kept[i].len() implies alphanumeric(
            #[trigger] kept[i][j],
        ) by {
            assert(stripped.contains(all[k][j]));
            let m = choose|m: int| 0 <= m < stripped.len() && stripped[m] == all[k][j];
            lower.lemma_filter_pred(name_char(), m);
            assert(!whitespace(kept[i][j]));
        }
    }
    lemma_words_of_joined(kept);
}

/// A name that is in lower case already is normalized like the name that it came from, and
/// normalizing a normalized name changes nothing, wherever `str::to_lowercase` leaves alone what
/// is in lower case.
pub proof fn law_normalizing_is_idempotent(name: Seq<char>)
    ensures
        lowercase(lowercase(name)) == lowercase(name) ==> normalized(lowercase(name))
            == normalized(name),
        lowercase(normalized(name)) == normalized(name) ==> normalized(normalized(name))
            == normalized(name),
{
    law_kept_words_are_kept_again(lowercase(name));
}

/// Of a normalized name, normalizing again keeps every word.
pub proof fn law_kept_words_are_kept_again(lower: Seq<char>)
    ensures
        kept_words(joined(kept_words(lower), " "@)) == kept_words(lower),
{
    reveal_strlit(" ");
    assert(" "@ =~= seq![' ']);
    let kept = kept_words(lower);
    let name = joined(kept, " "@);
    law_normalized_words_tell(lower);
    assert forall|i: int| 0 <= i < name.len() implies name_char()(#[trigger] name[i]) by {
        lemma_joined_chars(kept, i);
    }
    lemma_filter_all(name, name_char());
    assert forall|i: int| 0 <= i < kept.len() implies telling_word()(#[trigger] kept[i]) by {}
    lemma_filter_all(kept, telling_word());
}

proof fn lemma_joined_chars(parts: Seq<Seq<char>>, i: int)
    requires
        0 <= i < joined(parts, seq![' ']).len(),
        forall|k: int, j: int|
            0 <= k < parts.len() && 0 <= j < parts[k].len() ==> alphanumeric(
                #[trigger] parts[k][j],
            ),
    ensures
        name_char()(joined(parts, seq![' '])[i]),
    decreases parts.len(),
{
    let all = joined(parts, seq![' ']);
    if parts.len() == 1 {
        assert(alphanumeric(parts[0][i]));
    } else {
        let front = parts.drop_last();
        let n = joined(front, seq![' ']).len();
        assert forall|k: int, j: int|
            0 <= k < front.len() && 0 <= j < front[k].len() implies alphanumeric(
            #[trigger] front[k][j],
        ) by {
            assert(alphanumeric(parts[k][j]));
        }
        if i < n {
            lemma_joined_chars(front, i);
            assert(all[i] == joined(front, seq![' '])[i]);
        } else if i == n {
            assert(whitespace(' '));
        } else {
            assert(all[i] == parts[parts.len() - 1][i - n - 1]);
            assert(alphanumeric(parts[parts.len() - 1][i - n - 1]));
        }
    }
}

/// The words of a name are kept one by one: whitespace separates them, and those before it and
/// behind it do not matter to each other.
pub proof fn law_words_are_kept_one_by_one(before: Seq<char>, c: char, behind: Seq<char>)
    requires
        whitespace(c),
    ensures
        kept_words(before + seq![c] + behind) == kept_words(before) + kept_words(behind),
{
    let p = name_char();
    Seq::filter_distributes_over_add(before, seq![c], p);
    Seq::filter_distributes_over_add(before + seq![c], behind, p);
    lemma_filter_one(c, p);
    law_whitespace_separates_words(before.filter(p), c, behind.filter(p));
    Seq::filter_distributes_over_add(
        words_of(before.filter(p)),
        words_of(behind.filter(p)),
        telling_word(),
    );
}

/// What is neither a letter nor a digit nor whitespace goes without a trace.
pub proof fn law_punctuation_goes(before: Seq<char>, c: char, behind: Seq<char>)
    requires
        !whitespace(c),
        !alphanumeric(c),
    ensures
        kept_words(before + seq![c] + behind) == kept_words(before + behind),
{
    let p = name_char();
    Seq::filter_distributes_over_add(before, seq![c], p);
    Seq::filter_distributes_over_add(before + seq![c], behind, p);
    Seq::filter_distributes_over_add(before, behind, p);
    lemma_filter_one(c, p);
    assert(before.filter(p) + Seq::<char>::empty() =~= before.filter(p));
}

/// A word of letters and digits is kept as it is, unless it is one of nine that say nothing about
/// the ingredient.
pub proof fn law_every_other_word_is_kept(word: Seq<char>)
    requires
        word.len() > 0,
        forall|i: int|
            0 <= i < word.len() ==> alphanumeric(#[trigger] word[i]) && !whitespace(word[i]),
    ensures
        kept_words(word) == if word == "fresh"@ || word == "dried"@ || word == "chopped"@ || word
            == "sliced"@ || word == "diced"@ || word == "minced"@ || word == "large"@ || word
            == "small"@ || word == "medium"@ {
            Seq::<Seq<char>>::empty()
        } else {
            seq![word]
        },
        kept_words(Seq::empty()) == Seq::<Seq<char>>::empty(),
{
    assert forall|i: int| 0 <= i < word.len() implies name_char()(#[trigger] word[i]) by {}
    lemma_filter_all(word, name_char());
    law_one_word_is_one_word(word);
    lemma_filter_one(word, telling_word());
    let none = Seq::<char>::empty();
    lemma_filter_all(none, name_char());
    law_one_word_is_one_word(none);
    lemma_filter_all(Seq::<Seq<char>>::empty(), telling_word());
}

/// A normalized name is made of the words that are kept of the name in lower case, with one blank
/// between each two.
pub proof fn law_normalized_names_are_made_of_kept_words(name: Seq<char>)
    ensures
        words_of(normalized(name)) == kept_words(lowercase(name)),
        normalized(name) == joined(kept_words(lowercase(name)), seq![' ']),
{
    reveal_strlit(" ");
    assert(" "@ =~= seq![' ']);
    law_normalized_words_tell(lowercase(name));
}

/// An ingredient is seen whole.
pub proof fn law_an_ingredient_is_seen_whole(i: Ingredient)
    ensures
        i@.recipe_id == i.recipe_id@ && i@.name == i.name@ && i@.amount == i.amount@,
        i@.unit == i.unit@ && i@.normalized_name == i.normalized_name@,
{
}

} // verus!
