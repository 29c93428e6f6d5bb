use stoclove::infra::ai::amount::{is_amount_only, parse_ingredient_line, split_amount};
use stoclove::infra::ai::client::{AnalyzedRecipe, LlmClient, OcrClient};
use stoclove::infra::ai::format::{
    flush_pending, format_lines, format_recipe_text, is_ingredients_heading, is_servings,
    is_steps_heading, lower_lines,
};
use stoclove::infra::ai::lines::{clean_lines, keeps_line, preprocess_text};
use stoclove::infra::ai::mock::{analyze_lines, MockLlm, MockOcr};

fn analyze(text: &str) -> Option<AnalyzedRecipe> {
    match MockLlm.analyze_recipe(text) {
        Ok(found) => found,
        Err(_) => panic!("the analysis by layout does not fail"),
    }
}

fn parts(a: &AnalyzedRecipe) -> Vec<(String, String, String)> {
    a.ingredients.iter().map(|i| (i.name.clone(), i.amount.clone(), i.unit.clone())).collect()
}

fn triple(a: &str, b: &str, c: &str) -> (String, String, String) {
    (a.to_string(), b.to_string(), c.to_string())
}

fn pair(a: &str, b: &str) -> (String, String) {
    (a.to_string(), b.to_string())
}

fn owned(v: &[&str]) -> Vec<String> {
    v.iter().map(|s| s.to_string()).collect()
}

#[test]
fn noise_lines_are_left_out() {
    let text = "  親子丼 \n\n1\n【写真】完成\n----\n★☆★\nUse 2 eggs!\n a\u{3000}\n";
    assert_eq!(preprocess_text(text), "親子丼\nUse 2 eggs!");
    assert_eq!(clean_lines(text), owned(&["親子丼", "Use 2 eggs!"]));
    assert_eq!(preprocess_text(""), "");
}

#[test]
fn cleaning_again_changes_nothing() {
    let once = preprocess_text(" a b \r\n\r\n x\n【z】\n卵 2個\n");
    assert_eq!(once, "a b\n卵 2個");
    assert_eq!(preprocess_text(&once), once);
}

#[test]
fn a_line_is_kept_by_its_form() {
    assert!(keeps_line("ab", true));
    assert!(!keeps_line("", true));
    assert!(!keeps_line("a", true));
    assert!(!keeps_line("【a】", true));
    assert!(!keeps_line("--", false));
    assert!(keeps_line("a【", true));
}

#[test]
fn headings_are_told() {
    assert!(is_ingredients_heading("材料"));
    assert!(is_ingredients_heading("材料（2人分）"));
    assert!(is_ingredients_heading("材料(2人分)"));
    assert!(is_ingredients_heading("the ingredients:"));
    assert!(!is_ingredients_heading("材料を混ぜる"));
    assert!(is_steps_heading("作り方"));
    assert!(is_steps_heading("手順"));
    assert!(is_steps_heading("下準備"));
    assert!(is_steps_heading("instructions"));
    assert!(is_steps_heading("directions"));
    assert!(!is_steps_heading("作り方のコツ"));
    assert!(is_servings("2人分"));
    assert!(is_servings("材料 4人前"));
    assert!(!is_servings("人分です"));
}

#[test]
fn amounts_are_told() {
    for s in ["大さじ1", "小さじ1/2", "1合", "200g", "適量", "少々", "少量", "カップ1"] {
        assert!(is_amount_only(s), "{}", s);
    }
    for s in ["", "卵", "約200g", "適量の塩", "１合"] {
        assert!(!is_amount_only(s), "{}", s);
    }
}

#[test]
fn amounts_are_split() {
    assert_eq!(split_amount("大さじ1"), pair("1", "大さじ"));
    assert_eq!(split_amount("小さじ 1/2 "), pair("1/2", "小さじ"));
    assert_eq!(split_amount("カップ2"), pair("2", "カップ"));
    assert_eq!(split_amount("200g"), pair("200", "g"));
    assert_eq!(split_amount("1.5 個"), pair("1.5", "個"));
    assert_eq!(split_amount("1/2本"), pair("1/2", "本"));
    assert_eq!(split_amount("3"), pair("3", ""));
    assert_eq!(split_amount("適量"), pair("適量", ""));
    assert_eq!(split_amount("少々"), pair("少々", ""));
    assert_eq!(split_amount("少量"), pair("少量", ""));
    assert_eq!(split_amount("ひとつまみ"), pair("", "ひとつまみ"));
    assert_eq!(split_amount(""), pair("", ""));
}

#[test]
fn ingredient_lines_are_split() {
    assert_eq!(parse_ingredient_line("薄力粉 200g"), triple("薄力粉", "200", "g"));
    assert_eq!(parse_ingredient_line("醤油  大さじ2"), triple("醤油", "2", "大さじ"));
    assert_eq!(parse_ingredient_line("オリーブ オイル 適量"), triple("オリーブ", "", "オイル 適量"));
    assert_eq!(parse_ingredient_line("卵"), triple("卵", "", ""));
    assert_eq!(parse_ingredient_line("卵\u{3000}2個"), triple("卵\u{3000}2個", "", ""));
}

#[test]
fn amounts_come_behind_their_names() {
    let text = "親子丼\n材料（2人分）\n鶏もも肉\n200g\n醤油\n大さじ2\n食塩\n作り方\n鶏肉を切る\n煮る";
    assert_eq!(
        format_recipe_text(text),
        "親子丼\n材料（2人分）\n鶏もも肉: 200g\n醤油: 大さじ2\n食塩\n作り方\n鶏肉を切る\n煮る"
    );
}

#[test]
fn amounts_without_a_name_stay() {
    let text = "INGREDIENTS\n200g\n食塩\n2人分\n少々\nDirections\n食塩\n200g";
    assert_eq!(format_recipe_text(text), "INGREDIENTS\n200g\n食塩\n2人分\n少々\nDirections\n食塩\n200g");
}

#[test]
fn a_name_that_waits_at_the_end_is_written() {
    assert_eq!(format_recipe_text("材料\n食塩\n胡椒"), "材料\n食塩\n胡椒");
    assert_eq!(format_recipe_text(""), "");
}

#[test]
fn a_waiting_name_is_written_once() {
    let mut pending = Some("食塩".to_string());
    let mut out = owned(&["材料"]);
    flush_pending(&mut pending, &mut out);
    flush_pending(&mut pending, &mut out);
    assert_eq!(pending, None);
    assert_eq!(out, owned(&["材料", "食塩"]));
}

#[test]
fn headings_go_by_the_lower_case() {
    let ls = owned(&["Ingredients", "卵", "2個"]);
    let lowers = lower_lines(&ls);
    assert_eq!(lowers, owned(&["ingredients", "卵", "2個"]));
    assert_eq!(format_lines(&ls, &lowers), "Ingredients\n卵: 2個");
    assert_eq!(format_lines(&ls, &ls), "Ingredients\n卵\n2個");
    assert!(analyze_lines(&ls, &ls).is_none());
    assert!(analyze_lines(&ls, &lowers).is_some());
}

#[test]
fn the_sample_picture_is_read_and_analysed() {
    let text = MockOcr.extract_text("cake.png").expect("a text");
    assert_eq!(
        text,
        "チョコレートケーキ\n材料\n200 g 薄力粉\n100 g バター\n2 個 卵\n作り方\n材料を混ぜて180度で30分焼く"
    );
    // Every ingredient line begins with a number, so each counts as an amount on its own, and
    // there is no name before it.
    let a = analyze(&text).expect("a recipe");
    assert_eq!(a.title, "チョコレートケーキ");
    assert_eq!(parts(&a), vec![triple("手順参照", "", "")]);
    assert_eq!(a.instructions, "材料を混ぜて180度で30分焼く");
    assert!(a.substitutes.is_empty());
}

#[test]
fn amounts_on_the_next_line_complete_the_name() {
    let a = analyze("2人分\n親子丼\nおいしい\n材料\n2人分\n鶏もも肉\n200g\n300g\n醤油 大さじ2\n適量\n食塩\n少々\n作り方\n切る\n煮る")
        .expect("a recipe");
    assert_eq!(a.title, "親子丼");
    assert_eq!(
        parts(&a),
        vec![triple("鶏もも肉", "200", "g"), triple("醤油", "2", "大さじ"), triple("食塩", "少々", "")]
    );
    assert_eq!(a.instructions, "切る\n煮る");
}

#[test]
fn a_recipe_in_english_is_found() {
    let a = analyze("Pancakes\nIngredients\nflour 200g\neggs 2\nStep by step\nMix.\nFry!").expect("a recipe");
    assert_eq!(a.title, "Pancakes");
    assert_eq!(parts(&a), vec![triple("flour", "200", "g"), triple("eggs", "2", "")]);
    assert_eq!(a.instructions, "Mix.\nFry!");
}

#[test]
fn without_a_title_a_recipe_is_untitled() {
    let a = analyze("材料\n玉子").expect("a recipe");
    assert_eq!(a.title, "名称未設定のレシピ");
    assert_eq!(parts(&a), vec![triple("玉子", "", "")]);
    assert_eq!(a.instructions, "");
}

#[test]
fn without_a_heading_there_is_no_recipe() {
    assert!(analyze("今日は天気がいい\n散歩に行こう").is_none());
    assert!(analyze("").is_none());
    assert!(analyze("材料\n作り方").is_none());
}
