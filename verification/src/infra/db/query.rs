//! What can be asked of the stored recipes.

use crate::domain::ingredient::IngredientView;
use crate::domain::recipe::RecipeView;
use crate::infra::db::tables::{lookup, part_of, RowView, Tables};
use crate::number::parsed_signed;
use crate::order::{in_order, text_le};
use crate::text::{join, joined, lemma_texts_push, remove_char, texts, trimmed, without, words};
use crate::text::words_of;
use vstd::prelude::*;

verus! {

/// Whether the row `a` comes before `b` in a list: the one that was changed last.
pub open spec fn newest_first() -> spec_fn(RowView, RowView) -> bool {
    |a: RowView, b: RowView| a.updated_at >= b.updated_at
}

/// Whether the ingredient `a` comes before `b` in a list: by their normalized names.
pub open spec fn by_normalized_name() -> spec_fn(IngredientView, IngredientView) -> bool {
    |a: IngredientView, b: IngredientView| text_le(a.normalized_name, b.normalized_name)
}

/// Holds of the recipes that are not deleted.
pub open spec fn live() -> spec_fn(RowView) -> bool {
    |r: RowView| !r.is_deleted
}

/// Holds of the recipes that are not deleted and that are among `hits`.
pub open spec fn live_hit(hits: Seq<Seq<char>>) -> spec_fn(RowView) -> bool {
    |r: RowView| !r.is_deleted && hits.contains(r.id)
}

/// Whether a search asks for nothing in particular.
pub open spec fn blank(query: Seq<char>) -> bool {
    trimmed(query).len() == 0
}

impl Tables {
    /// The recipe of a row, with its ingredients.
    pub open spec fn recipe(self, row: RowView) -> RecipeView {
        RecipeView {
            id: row.id,
            title: row.title,
            source_url: row.source_url,
            instructions: row.instructions,
            substitutes_json: row.substitutes_json,
            updated_at: row.updated_at,
            is_deleted: row.is_deleted,
            ingredients: self.ingredients.filter(part_of(row.id)),
        }
    }

    /// The recipes of the rows that `p` holds of, the one that was changed last first.
    pub open spec fn select(self, p: spec_fn(RowView) -> bool) -> Seq<RecipeView> {
        in_order(self.recipes.filter(p), newest_first()).map_values(|r: RowView| self.recipe(r))
    }

    /// The recipe `id`, unless it is not stored or deleted.
    pub open spec fn get(self, id: Seq<char>) -> Option<RecipeView> {
        match lookup(self.recipes, id) {
            Some(row) => if row.is_deleted {
                None
            } else {
                Some(self.recipe(row))
            },
            None => None,
        }
    }

    /// The recipes that are not deleted, the one that was changed last first.
    pub open spec fn list(self) -> Seq<RecipeView> {
        self.select(live())
    }

    /// What a search finds, where `hits` are the recipes that match: of these the ones that are
    /// not deleted; or all that are not deleted, if the query is blank.
    pub open spec fn search(self, query: Seq<char>, hits: Seq<Seq<char>>) -> Seq<RecipeView> {
        if blank(query) {
            self.list()
        } else {
            self.select(live_hit(hits))
        }
    }

    /// Holds of the ingredients of recipes that are not deleted.
    pub open spec fn in_use(self) -> spec_fn(IngredientView) -> bool {
        |i: IngredientView| lookup(self.recipes, i.recipe_id) matches Some(r) && !r.is_deleted
    }

    /// The ingredients of all recipes that are not deleted, by their normalized names.
    pub open spec fn pantry(self) -> Seq<IngredientView> {
        in_order(self.ingredients.filter(self.in_use()), by_normalized_name())
    }

    /// When the last merge was; zero if there was none or its time cannot be read.
    pub open spec fn synced_at(self) -> i64 {
        match self.last_sync {
            Some(t) => match parsed_signed(t) {
                Some(n) => n,
                None => 0,
            },
            None => 0,
        }
    }
}

// ---------------------------------------------------------------------------
// Full-text queries
// ---------------------------------------------------------------------------

/// A word as a full-text phrase: in quotes, without the quotes that it holds.
pub open spec fn phrase(w: Seq<char>) -> Seq<char> {
    "\""@ + without(w, '"') + "\""@
}

/// The words as full-text phrases.
pub open spec fn phrases(ws: Seq<Seq<char>>) -> Seq<Seq<char>> {
    ws.map_values(|w: Seq<char>| phrase(w))
}

/// The full-text query that matches any of the words of `query`.
pub open spec fn fts_query(query: Seq<char>) -> Seq<char> {
    joined(phrases(words_of(query)), " OR "@)
}

/// The full-text query that matches any of the words of `query`, each in quotes so that nothing
/// in it is taken for an operator.
pub fn sanitize_fts_query(query: &str) -> (r: String)
    ensures
        r@ == fts_query(query@),
{
    let ws = words(query);
    let ghost all = phrases(words_of(query@));
    let mut tokens: Vec<String> = Vec::new();
    let mut i: usize = 0;
    assert(texts(tokens@) =~= all.take(0));
    while i < ws.len()
        invariant
            i <= ws@.len(),
            texts(ws@) == words_of(query@),
            all == phrases(words_of(query@)),
            texts(tokens@) == all.take(i as int),
        decreases ws@.len() - i,
    {
        let quoted = "\"".to_owned().concat(remove_char(ws[i].as_str(), '"').as_str()).concat("\"");
        proof {
            assert(texts(ws@)[i as int] == ws@[i as int]@);
            assert(quoted@ == all[i as int]);
            lemma_texts_push(tokens@, quoted);
            assert(all.take(i + 1) =~= all.take(i as int).push(quoted@));
        }
        tokens.push(quoted);
        i += 1;
    }
    assert(texts(ws@).len() == ws@.len());
    assert(all.take(ws@.len() as int) =~= all);
    join(&tokens, " OR ")
}

/// The pattern that matches the titles in which `query` stands.
pub fn title_pattern(query: &str) -> (r: String)
    ensures
        r@ == "%"@ + query@ + "%"@,
{
    "%".to_owned().concat(query).concat("%")
}

/// Each phrase of a full-text query holds just the quotes that enclose it.
pub proof fn law_phrase_is_enclosed(w: Seq<char>)
    ensures
        phrase(w).len() >= 2,
        phrase(w)[0] == '"',
        phrase(w).last() == '"',
        forall|i: int| 0 < i < phrase(w).len() - 1 ==> #[trigger] phrase(w)[i] != '"',
{
    reveal_strlit("\"");
    let inner = without(w, '"');
    assert forall|i: int| 0 < i < phrase(w).len() - 1 implies #[trigger] phrase(w)[i] != '"' by {
        assert(phrase(w)[i] == inner[i - 1]);
        w.lemma_filter_pred(crate::text::other_than('"'), i - 1);
    }
}

/// A full-text query is made word by word: whitespace separates its words, and between any two
/// phrases stands one operator.
pub proof fn law_queries_are_made_word_by_word(before: Seq<char>, c: char, behind: Seq<char>)
    requires
        crate::text::whitespace(c),
    ensures
        ({
            let all = fts_query(before + seq![c] + behind);
            &&& words_of(before).len() > 0 && words_of(behind).len() > 0 ==> all == fts_query(before)
                + " OR "@ + fts_query(behind)
            &&& words_of(behind).len() == 0 ==> all == fts_query(before)
            &&& words_of(before).len() == 0 ==> all == fts_query(behind)
        }),
{
    crate::text::law_whitespace_separates_words(before, c, behind);
    let a = words_of(before);
    let b = words_of(behind);
    assert(phrases(a + b) =~= phrases(a) + phrases(b));
    crate::text::law_joining_goes_piece_by_piece(phrases(a), phrases(b), Seq::empty(), " OR "@);
    if b.len() == 0 {
        assert(a + b =~= a);
    }
    if a.len() == 0 {
        assert(a + b =~= b);
    }
}

/// A word stands in its phrase as it is, but for the quotes that it holds.
pub proof fn law_a_word_stands_in_its_phrase(word: Seq<char>)
    requires
        word.len() > 0,
        forall|i: int| 0 <= i < word.len() ==> !crate::text::whitespace(#[trigger] word[i]),
    ensures
        fts_query(word) == seq!['"'] + without(word, '"') + seq!['"'],
        fts_query(Seq::empty()) == Seq::<char>::empty(),
{
    reveal_strlit("\"");
    assert("\""@ =~= seq!['"']);
    crate::text::law_one_word_is_one_word(word);
    crate::text::law_one_word_is_one_word(Seq::empty());
    assert(phrases(seq![word]) =~= seq![phrase(word)]);
    assert(phrases(Seq::<Seq<char>>::empty()) =~= Seq::<Seq<char>>::empty());
    crate::text::law_joining_goes_piece_by_piece(seq![], seq![], phrase(word), " OR "@);
}

} // verus!
