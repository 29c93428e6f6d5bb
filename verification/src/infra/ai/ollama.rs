//! Asking a language model that Ollama serves, and reading its answer.

use crate::domain::error::DomainError;
use crate::domain::recipe::{opt_text, raw_views, substitute_views, RawIngredient};
use crate::domain::recipe::{RawIngredientView, Substitute, SubstituteView};
use crate::infra::ai::client::{found, AnalyzedRecipe, AnalyzedRecipeView};
use crate::infra::ai::format::{format_recipe_text, formatted};
use crate::infra::ai::json_text::{extract_json, json_part};
use crate::infra::ai::mock::untitled;
use crate::infra::json::{get_text, json_nodes, text_member};
use crate::text::{chars_of, lemma_filter_take, slice_text, texts, trim, trimmed};
use vstd::prelude::*;
use vstd::utf8::{decode_utf8, encode_utf8, encode_utf8_decode_utf8, is_char_boundary};

verus! {

// ---------------------------------------------------------------------------
// What the model answers
// ---------------------------------------------------------------------------

/// The answer of a model. What it leaves out is false, empty or missing.
pub struct LlmOutput {
    pub is_recipe: bool,
    pub title: String,
    pub ingredients: Vec<LlmIngredient>,
    pub instructions: String,
    pub substitutes: Vec<LlmSubstitute>,
}

/// An ingredient in the answer of a model.
pub struct LlmIngredient {
    pub name: String,
    pub amount: String,
    pub unit: String,
}

/// A substitute in the answer of a model.
pub struct LlmSubstitute {
    pub ingredient: String,
    pub alternatives: Vec<String>,
    pub note: Option<String>,
}

impl View for LlmIngredient {
    type V = RawIngredientView;

    open spec fn view(&self) -> RawIngredientView {
        RawIngredientView { name: self.name@, amount: self.amount@, unit: self.unit@ }
    }
}

impl View for LlmSubstitute {
    type V = SubstituteView;

    open spec fn view(&self) -> SubstituteView {
        SubstituteView {
            ingredient: self.ingredient@,
            alternatives: texts(self.alternatives@),
            note: opt_text(self.note),
        }
    }
}

/// The ingredients of an answer as plain text.
pub open spec fn llm_ingredient_views(v: Seq<LlmIngredient>) -> Seq<RawIngredientView> {
    v.map_values(|i: LlmIngredient| i@)
}

/// The substitutes of an answer as plain text.
pub open spec fn llm_substitute_views(v: Seq<LlmSubstitute>) -> Seq<SubstituteView> {
    v.map_values(|s: LlmSubstitute| s@)
}

/// Holds of the ingredients whose name is not blank.
pub open spec fn named_ingredient() -> spec_fn(RawIngredientView) -> bool {
    |i: RawIngredientView| trimmed(i.name).len() > 0
}

/// Holds of the substitutes whose ingredient is not blank.
pub open spec fn named_substitute() -> spec_fn(SubstituteView) -> bool {
    |s: SubstituteView| trimmed(s.ingredient).len() > 0
}

/// The recipe that an answer describes, if it says that there is one.
pub open spec fn answered_recipe(parsed: LlmOutput) -> Option<AnalyzedRecipeView> {
    if parsed.is_recipe {
        Some(
            AnalyzedRecipeView {
                title: if parsed.title@.len() == 0 {
                    untitled()
                } else {
                    parsed.title@
                },
                ingredients: llm_ingredient_views(parsed.ingredients@).filter(named_ingredient()),
                instructions: parsed.instructions@,
                substitutes: llm_substitute_views(parsed.substitutes@).filter(named_substitute()),
            },
        )
    } else {
        None
    }
}

fn named_ingredients(list: Vec<LlmIngredient>) -> (r: Vec<RawIngredient>)
    ensures
        raw_views(r@) == llm_ingredient_views(list@).filter(named_ingredient()),
{
    let ghost all = llm_ingredient_views(list@);
    let mut out: Vec<RawIngredient> = Vec::new();
    proof {
        reveal(Seq::filter);
        assert(raw_views(out@) =~= all.take(0).filter(named_ingredient()));
    }
    for i in it: list
        invariant
            all == llm_ingredient_views(it.seq()),
            raw_views(out@) == all.take(it.index()).filter(named_ingredient()),
    {
        let ghost k = it.index();
        proof {
            lemma_filter_take(all, named_ingredient(), k);
        }
        if !trim(i.name.as_str()).as_str().is_empty() {
            let one = RawIngredient { name: i.name, amount: i.amount, unit: i.unit };
            assert(raw_views(out@.push(one)) =~= raw_views(out@).push(one@));
            out.push(one);
        }
    }
    assert(all.take(all.len() as int) =~= all);
    out
}

fn named_substitutes(list: Vec<LlmSubstitute>) -> (r: Vec<Substitute>)
    ensures
        substitute_views(r@) == llm_substitute_views(list@).filter(named_substitute()),
{
    let ghost all = llm_substitute_views(list@);
    let mut out: Vec<Substitute> = Vec::new();
    proof {
        reveal(Seq::filter);
        assert(substitute_views(out@) =~= all.take(0).filter(named_substitute()));
    }
    for s in it: list
        invariant
            all == llm_substitute_views(it.seq()),
            substitute_views(out@) == all.take(it.index()).filter(named_substitute()),
    {
        let ghost k = it.index();
        proof {
            lemma_filter_take(all, named_substitute(), k);
        }
        if !trim(s.ingredient.as_str()).as_str().is_empty() {
            let one = Substitute {
                ingredient: s.ingredient,
                alternatives: s.alternatives,
                note: s.note,
            };
            assert(substitute_views(out@.push(one)) =~= substitute_views(out@).push(one@));
            out.push(one);
        }
    }
    assert(all.take(all.len() as int) =~= all);
    out
}

/// The recipe that an answer describes: none if it says that the text was no recipe. What has a
/// blank name is left out, and a recipe without a title gets one.
pub fn llm_output_to_result(parsed: LlmOutput) -> (r: Option<AnalyzedRecipe>)
    ensures
        found(r) == answered_recipe(parsed),
{
    if !parsed.is_recipe {
        return None;
    }
    let ingredients = named_ingredients(parsed.ingredients);
    let substitutes = named_substitutes(parsed.substitutes);
    let title = if parsed.title.as_str().is_empty() {
        "名称未設定のレシピ".to_owned()
    } else {
        parsed.title
    };
    Some(AnalyzedRecipe { title, ingredients, instructions: parsed.instructions, substitutes })
}

// ---------------------------------------------------------------------------
// Reading the answer
// ---------------------------------------------------------------------------

/// How many bytes of an unreadable answer an error quotes.
pub const QUOTED_BYTES: usize = 300;

/// How many bytes of `s` an error quotes.
pub open spec fn quoted_len(s: Seq<char>) -> int {
    if encode_utf8(s).len() < QUOTED_BYTES {
        encode_utf8(s).len() as int
    } else {
        QUOTED_BYTES as int
    }
}

/// Whether the quoted part of `s` ends between two characters.
pub open spec fn quotable(s: Seq<char>) -> bool {
    is_char_boundary(encode_utf8(s), quoted_len(s))
}

/// The part of `s` that an error quotes: its first bytes.
pub open spec fn quoted(s: Seq<char>) -> Seq<char> {
    decode_utf8(encode_utf8(s).subrange(0, quoted_len(s)))
}

/// Whether the first bytes of `s` can be quoted without cutting a character.
pub fn is_quotable(s: &str) -> (r: bool)
    ensures
        r == quotable(s@),
{
    let n: usize = s.as_bytes().len();
    s.is_char_boundary(if n < QUOTED_BYTES { n } else { QUOTED_BYTES })
}

fn quote(s: &str) -> (r: String)
    requires
        quotable(s@),
    ensures
        r@ == quoted(s@),
{
    let n: usize = s.as_bytes().len();
    let (head, _rest) = s.split_at(if n < QUOTED_BYTES { n } else { QUOTED_BYTES });
    proof {
        encode_utf8_decode_utf8(head@);
    }
    head.to_owned()
}

/// The JSON object in what a model said, or an error that quotes it if there is none.
pub fn llm_json(raw: &str) -> (r: Result<&str, DomainError>)
    requires
        json_part(raw@) is None ==> quotable(raw@),
    ensures
        match r {
            Ok(part) => json_part(raw@) == Some(part@),
            Err(e) => json_part(raw@) is None && e is AiError && e.detail()
                == "LLM が JSON を出力しませんでした。出力: "@ + quoted(raw@),
        },
{
    match extract_json(raw) {
        Some(part) => Ok(part),
        None => {
            Err(
                DomainError::AiError(
                    "LLM が JSON を出力しませんでした。出力: ".to_owned().concat(
                        quote(raw).as_str(),
                    ),
                ),
            )
        },
    }
}

/// The answer that a JSON object reads as, where `parsed` is what it reads as, or an error that
/// quotes it if it reads as none.
pub fn parse_llm_output(json: &str, parsed: Option<LlmOutput>) -> (r: Result<LlmOutput, DomainError>)
    requires
        parsed is None ==> quotable(json@),
    ensures
        match r {
            Ok(out) => parsed == Some(out),
            Err(e) => parsed is None && e is AiError && e.detail() == "JSON パース失敗: "@ + quoted(
                json@,
            ),
        },
{
    match parsed {
        Some(out) => Ok(out),
        None => Err(
            DomainError::AiError("JSON パース失敗: ".to_owned().concat(quote(json).as_str())),
        ),
    }
}

/// Whether `r` is what an answer comes to whose JSON object is `json` and reads as `parsed`.
pub open spec fn answer_result(
    json: Seq<char>,
    parsed: Option<LlmOutput>,
    r: Result<Option<AnalyzedRecipe>, DomainError>,
) -> bool {
    match parsed {
        Some(out) => r is Ok && found(r->Ok_0) == answered_recipe(out),
        None => r is Err && r->Err_0 is AiError && r->Err_0.detail() == "JSON パース失敗: "@
            + quoted(json),
    }
}

/// The recipe in what a model said, where `parse` reads the JSON object in it. It is an error if
/// there is no object or if it reads as no answer.
pub fn analyze_answer<P: Fn(&str) -> Option<LlmOutput>>(raw: &str, parse: &P) -> (r: Result<
    Option<AnalyzedRecipe>,
    DomainError,
>)
    requires
        json_part(raw@) is None ==> quotable(raw@),
        forall|json: &str| #[trigger] call_requires(*parse, (json,)),
        forall|json: &str, parsed: Option<LlmOutput>| #[trigger]
            call_ensures(*parse, (json,), parsed) && json_part(raw@) == Some(json@) && parsed is None
                ==> quotable(json@),
    ensures
        match json_part(raw@) {
            Some(part) => exists|json: &str, parsed: Option<LlmOutput>| #[trigger]
                call_ensures(*parse, (json,), parsed) && json@ == part && answer_result(
                    part,
                    parsed,
                    r,
                ),
            None => r is Err && r->Err_0 is AiError && r->Err_0.detail()
                == "LLM が JSON を出力しませんでした。出力: "@ + quoted(raw@),
        },
{
    let json = match llm_json(raw) {
        Ok(json) => json,
        Err(e) => {
            return Err(e);
        },
    };
    let parsed = parse(json);
    let ghost out = parsed;
    assert(call_ensures(*parse, (json,), out));
    let r = match parse_llm_output(json, parsed) {
        Ok(output) => Ok(llm_output_to_result(output)),
        Err(e) => Err(e),
    };
    assert(answer_result(json@, out, r));
    r
}

/// What the model said, in the reply of Ollama.
pub fn reply_text(resp: &serde_json::Value) -> (r: Result<String, DomainError>)
    ensures
        match r {
            Ok(t) => text_member(json_nodes(*resp), "response"@) == Some(t@),
            Err(e) => text_member(json_nodes(*resp), "response"@) is None && e is AiError
                && e.detail() == "Ollama レスポンスに response フィールドがありません"@,
        },
{
    match get_text(resp, "response") {
        Some(t) => Ok(t),
        None => Err(
            DomainError::AiError(
                "Ollama レスポンスに response フィールドがありません".to_owned(),
            ),
        ),
    }
}

// ---------------------------------------------------------------------------
// The question
// ---------------------------------------------------------------------------

/// What a model is told before the text that it is to analyse.
pub const PROMPT_HEAD: &'static str = r#"Analyze the text below. If it is NOT a recipe, return: {"is_recipe": false}

If it IS a recipe, return ONLY this JSON (no markdown, no explanation):
{
  "is_recipe": true,
  "title": "recipe name (keep original language)",
  "ingredients": [
    {"name": "ingredient name", "amount": "numeric quantity or empty string", "unit": "unit like g/ml/cup/tbsp/大さじ/小さじ/合 or empty string"}
  ],
  "instructions": "full cooking steps joined by \\n (keep original language)",
  "substitutes": [
    {"ingredient": "hard-to-find ingredient", "alternatives": ["substitute 1", "substitute 2"], "note": "tip or null"}
  ]
}

Rules:
- Preserve original language (Japanese, English, etc.)
- Separate number from unit: "200" + "g", NOT "200g"; "1" + "合"; amount="1" unit="大さじ"
- Use "" for missing amount/unit
- substitutes: only for ingredients hard to find at regular supermarkets; [] if none
- Ingredients may appear as "name: amount" format — split them correctly into name/amount/unit fields

Text:
"#;

/// The question that asks a model to analyse `text`.
pub fn build_prompt(text: &str) -> (r: String)
    ensures
        r@ == PROMPT_HEAD@ + text@,
{
    PROMPT_HEAD.to_owned().concat(text)
}

/// `s` without the slashes that it ends with.
pub open spec fn without_trailing_slashes(s: Seq<char>) -> Seq<char>
    decreases s.len(),
{
    if s.len() > 0 && s.last() == '/' {
        without_trailing_slashes(s.drop_last())
    } else {
        s
    }
}

/// A language model that Ollama serves at an address.
pub struct OllamaLlm {
    pub base_url: String,
    pub model: String,
}

impl OllamaLlm {
    /// The model `model` at the address `base_url`, with or without slashes at its end.
    pub fn new(base_url: &str, model: &str) -> (r: Self)
        ensures
            r.base_url@ == without_trailing_slashes(base_url@),
            r.model@ == model@,
    {
        let cs = chars_of(base_url);
        let mut end: usize = cs.len();
        assert(cs@.take(cs@.len() as int) =~= cs@);
        while end > 0 && cs[end - 1] == '/'
            invariant
                end <= cs@.len(),
                without_trailing_slashes(cs@.take(end as int)) == without_trailing_slashes(cs@),
            decreases end,
        {
            assert(cs@.take(end as int).drop_last() =~= cs@.take(end - 1));
            end -= 1;
        }
        proof {
            assert(end > 0 ==> cs@.take(end as int).last() == cs@[end - 1]);
            assert(cs@.take(end as int) =~= cs@.subrange(0, end as int));
        }
        OllamaLlm { base_url: slice_text(&cs, 0, end), model: model.to_owned() }
    }

    /// Where questions are sent.
    pub fn generate_url(&self) -> (r: String)
        ensures
            r@ == self.base_url@ + "/api/generate"@,
    {
        self.base_url.clone().concat("/api/generate")
    }

    /// The question about a text: the text is cleaned and its ingredients are put on one line
    /// each before it is asked about.
    pub fn prompt_for(&self, text: &str) -> (r: String)
        ensures
            r@ == PROMPT_HEAD@ + formatted(text@),
    {
        build_prompt(format_recipe_text(text).as_str())
    }
}

/// What an answer says of a recipe is kept, but for what has no name.
pub proof fn law_answer_keeps_named_ingredients(parsed: LlmOutput, i: int)
    requires
        parsed.is_recipe,
        0 <= i < parsed.ingredients@.len(),
        trimmed(parsed.ingredients@[i].name@).len() > 0,
    ensures
        answered_recipe(parsed)->0.ingredients.contains(parsed.ingredients@[i]@),
        answered_recipe(parsed)->0.title.len() > 0,
{
    reveal_strlit("名称未設定のレシピ");
    let all = llm_ingredient_views(parsed.ingredients@);
    assert(all[i] == parsed.ingredients@[i]@);
    all.lemma_filter_contains(named_ingredient(), i);
}

/// What an answer says is kept as it is: the title if there is one, and the instructions. An
/// answer that says that there is no recipe gives none.
pub proof fn law_answer_is_kept(parsed: LlmOutput)
    ensures
        answered_recipe(parsed) is Some <==> parsed.is_recipe,
        parsed.is_recipe ==> answered_recipe(parsed)->0.instructions == parsed.instructions@,
        parsed.is_recipe && parsed.title@.len() > 0 ==> answered_recipe(parsed)->0.title
            == parsed.title@,
        parsed.is_recipe && parsed.title@.len() == 0 ==> answered_recipe(parsed)->0.title
            == "名称未設定のレシピ"@,
{
}

/// The ingredients of an answer are read one by one: each with a name is kept as it is, each with a
/// blank name is left out, and none comes elsewhere.
pub proof fn law_answered_ingredients_are_read_one_by_one(
    shorter: LlmOutput,
    longer: LlmOutput,
    last: RawIngredientView,
)
    requires
        shorter.is_recipe && longer.is_recipe,
        longer.ingredients@.len() > 0,
        shorter.ingredients@ == longer.ingredients@.drop_last(),
        last == longer.ingredients@.last()@,
    ensures
        answered_recipe(longer)->0.ingredients == if trimmed(last.name).len() > 0 {
            answered_recipe(shorter)->0.ingredients.push(last)
        } else {
            answered_recipe(shorter)->0.ingredients
        },
        last.name == longer.ingredients@.last().name@,
        last.amount == longer.ingredients@.last().amount@,
        last.unit == longer.ingredients@.last().unit@,
{
    let all = llm_ingredient_views(longer.ingredients@);
    let n = all.len() as int;
    lemma_filter_take(all, named_ingredient(), n - 1);
    assert(all.take(n) =~= all);
    assert(all.take(n - 1) =~= llm_ingredient_views(shorter.ingredients@));
}

/// The substitutes of an answer are read one by one: each for an ingredient with a name is kept as
/// it is, each for a blank name is left out, and none comes elsewhere.
pub proof fn law_answered_substitutes_are_read_one_by_one(
    shorter: LlmOutput,
    longer: LlmOutput,
    last: SubstituteView,
)
    requires
        shorter.is_recipe && longer.is_recipe,
        longer.substitutes@.len() > 0,
        shorter.substitutes@ == longer.substitutes@.drop_last(),
        last == longer.substitutes@.last()@,
    ensures
        answered_recipe(longer)->0.substitutes == if trimmed(last.ingredient).len() > 0 {
            answered_recipe(shorter)->0.substitutes.push(last)
        } else {
            answered_recipe(shorter)->0.substitutes
        },
        last.ingredient == longer.substitutes@.last().ingredient@,
        last.alternatives == texts(longer.substitutes@.last().alternatives@),
        last.note == opt_text(longer.substitutes@.last().note),
{
    let all = llm_substitute_views(longer.substitutes@);
    let n = all.len() as int;
    lemma_filter_take(all, named_substitute(), n - 1);
    assert(all.take(n) =~= all);
    assert(all.take(n - 1) =~= llm_substitute_views(shorter.substitutes@));
}

/// An answer without ingredients or substitutes has none.
pub proof fn law_empty_lists_stay_empty(parsed: LlmOutput)
    requires
        parsed.is_recipe,
    ensures
        parsed.ingredients@.len() == 0 ==> answered_recipe(parsed)->0.ingredients.len() == 0,
        parsed.substitutes@.len() == 0 ==> answered_recipe(parsed)->0.substitutes.len() == 0,
{
    reveal(Seq::filter);
}

/// An error quotes the first bytes of an answer as they are: all of a short one, and three hundred
/// of a long one.
pub proof fn law_errors_quote_the_first_bytes(s: Seq<char>)
    requires
        quotable(s),
    ensures
        encode_utf8(s).len() <= 300 ==> quoted(s) == s,
        encode_utf8(s).len() > 300 ==> encode_utf8(quoted(s)) == encode_utf8(s).subrange(0, 300),
{
    let b = encode_utf8(s);
    if b.len() <= 300 {
        assert(b.subrange(0, b.len() as int) =~= b);
        encode_utf8_decode_utf8(s);
    } else {
        let n = quoted_len(s);
        vstd::utf8::encode_utf8_valid_utf8(s);
        vstd::utf8::valid_utf8_split(b, n);
        vstd::utf8::decode_utf8_encode_utf8(b.subrange(0, n));
    }
}

/// Slashes at the end of an address do not matter, and nothing else of it is changed.
pub proof fn law_trailing_slashes_do_not_matter(address: Seq<char>)
    ensures
        without_trailing_slashes(address.push('/')) == without_trailing_slashes(address),
        address.len() > 0 && address.last() != '/' ==> without_trailing_slashes(address) == address,
        without_trailing_slashes(Seq::empty()) == Seq::<char>::empty(),
{
    assert(address.push('/').drop_last() =~= address);
}

} // verus!
