use stoclove::domain::error::DomainError;
use stoclove::domain::ingredient::Ingredient;
use stoclove::domain::recipe::{Recipe, Substitute};
use stoclove::infra::ai::ollama::OllamaLlm;
use stoclove::infra::db::database::Database;
use stoclove::infra::model_manager::model_by_id;
use stoclove::paths::dirs_path;
use stoclove::ui::app_state::{get_llm_or_mock, Analyst, AppState, AppView};
use stoclove::ui::models::{to_ingredient_models, to_recipe_model, to_substitute_models};
use stoclove::ui::search::search_recipes;

fn ing(recipe: &str, name: &str) -> Ingredient {
    Ingredient::new(recipe.to_string(), name.to_string(), "1".to_string(), "個".to_string())
}

fn recipe(id: &str, title: &str, at: i64, names: &[&str]) -> Recipe {
    let mut r = Recipe::new_at(id.to_string(), title.to_string(), None, "焼く".to_string(), at);
    r.ingredients = names.iter().map(|n| ing(id, n)).collect();
    r
}

fn filled(recipes: Vec<Recipe>) -> Database {
    let mut db = Database::open_in_memory();
    for r in recipes {
        db.upsert_recipe(&r).expect("stored");
    }
    db
}

fn sample() -> Database {
    filled(vec![
        recipe("a", "カレー", 10, &["鶏肉", "玉ねぎ"]),
        recipe("b", "丼", 30, &["卵", "鶏肉"]),
        recipe("c", "スープ", 20, &[]),
    ])
}

fn owned(v: &[&str]) -> Vec<String> {
    v.iter().map(|s| s.to_string()).collect()
}

fn shown(s: &AppState) -> Vec<String> {
    s.recipes.iter().map(|r| r.id.clone()).collect()
}

fn stocked(s: &AppState) -> Vec<String> {
    s.stock_ingredients.iter().map(|i| i.name.clone()).collect()
}

#[test]
fn a_recipe_names_its_first_four_ingredients() {
    let mut r = recipe("a", "カレー", 10, &["1", "2", "3", "4", "5"]);
    r.source_url = Some("u".to_string());
    r.substitutes_json = Some("[]".to_string());
    let m = to_recipe_model(&r);
    assert_eq!(m.id, "a");
    assert_eq!(m.title, "カレー");
    assert_eq!(m.source_url, "u");
    assert_eq!(m.instructions, "焼く");
    assert_eq!(m.substitutes_json, "[]");
    assert_eq!(m.ingredient_names, "1, 2, 3, 4");
    assert_eq!(m.ingredient_count, 5);
}

#[test]
fn a_recipe_without_ingredients_says_so() {
    let m = to_recipe_model(&recipe("a", "カレー", 10, &[]));
    assert_eq!(m.ingredient_names, "食材なし");
    assert_eq!(m.ingredient_count, 0);
    assert_eq!(m.source_url, "");
    assert_eq!(m.substitutes_json, "");
    assert_eq!(to_recipe_model(&recipe("a", "x", 1, &["卵"])).ingredient_names, "卵");
}

#[test]
fn ingredients_and_substitutes_are_shown() {
    let ms = to_ingredient_models(&vec![ing("a", "卵")]);
    assert_eq!(ms.len(), 1);
    assert_eq!((ms[0].recipe_id.as_str(), ms[0].name.as_str()), ("a", "卵"));
    assert_eq!((ms[0].amount.as_str(), ms[0].unit.as_str()), ("1", "個"));
    let subs = vec![
        Substitute { ingredient: "ケール".into(), alternatives: owned(&["小松菜", "ほうれん草"]), note: None },
        Substitute { ingredient: "x".into(), alternatives: Vec::new(), note: Some("n".into()) },
    ];
    let ms = to_substitute_models(&subs);
    assert_eq!(ms[0].ingredient, "ケール");
    assert_eq!(ms[0].alternatives, "小松菜, ほうれん草");
    assert_eq!(ms[0].note, "");
    assert_eq!(ms[1].alternatives, "");
    assert_eq!(ms[1].note, "n");
}

#[test]
fn at_the_start_a_model_is_needed() {
    let db = sample();
    let info = model_by_id("llama32-3b");
    for s in [AppState::start(false, info, &db), AppState::start(true, None, &db), AppState::start(false, None, &db)] {
        assert_eq!(s.current_view, AppView::Setup);
        assert!(s.llm.is_none());
        assert!(s.recipes.is_empty());
        assert_eq!(s.available_models.len(), 3);
    }
    let s = AppState::start(true, info, &db);
    assert!(s.ollama_running);
    assert_eq!(s.current_view, AppView::Main);
    assert_eq!(shown(&s), owned(&["b", "c", "a"]));
    assert_eq!(stocked(&s), owned(&["卵", "玉ねぎ", "鶏肉", "鶏肉"]));
    let llm = s.llm.expect("a model");
    assert_eq!(llm.base_url, "http://localhost:11434");
    assert_eq!(llm.model, "llama3.2:3b");
}

#[test]
fn an_installation_is_shown() {
    let db = sample();
    let mut s = AppState::start(true, None, &db);
    assert!(s.download_model("unknown").is_none());
    assert_eq!(s.current_view, AppView::Setup);
    let info = s.download_model("mistral-7b").expect("a model");
    assert_eq!(s.current_view, AppView::Downloading);
    assert_eq!(s.download_model_name, "Mistral 7B");
    assert_eq!(s.download_downloaded_text, "0 MB");
    assert_eq!(s.download_total_text, "4.1 GB");
    s.download_progressed(0, 0);
    assert_eq!(s.download_downloaded_text, "---");
    assert_eq!(s.download_total_text, "4.1 GB");
    s.download_progressed(5_242_880, 2_147_483_648);
    assert_eq!(s.download_downloaded_text, "5 MB");
    assert_eq!(s.download_total_text, "2.00 GB");
    s.download_finished(&info, Err(DomainError::AiError("no space".to_string())), &db);
    assert_eq!(s.current_view, AppView::Setup);
    assert_eq!(s.status_message, "ダウンロード失敗: no space");
    assert!(s.llm.is_none());
    s.download_finished(&info, Ok(()), &db);
    assert_eq!(s.current_view, AppView::Main);
    assert_eq!(s.llm.as_ref().map(|l| l.model.as_str()), Some("mistral:7b"));
    assert_eq!(shown(&s), owned(&["b", "c", "a"]));
}

#[test]
fn ollama_can_be_asked_again() {
    let db = sample();
    let mut s = AppState::start(false, None, &db);
    s.retry_ollama(false, None, &db);
    assert_eq!(s.status_message, "Ollama がまだ起動していません");
    assert!(!s.ollama_running);
    s.retry_ollama(true, None, &db);
    assert!(s.ollama_running);
    assert_eq!(s.current_view, AppView::Setup);
    s.retry_ollama(true, model_by_id("gemma3-1b"), &db);
    assert_eq!(s.current_view, AppView::Main);
    assert_eq!(s.llm.as_ref().map(|l| l.model.as_str()), Some("gemma3:1b"));
}

#[test]
fn a_search_shows_each_recipe_once() {
    let db = sample();
    let by_ingredient = owned(&["a", "b"]);
    let by_title = owned(&["a", "c"]);
    let found = search_recipes(&db, "x", &by_ingredient, &by_title);
    let ids: Vec<String> = found.iter().map(|r| r.id.clone()).collect();
    assert_eq!(ids, owned(&["b", "a", "c"]));
    let mut s = AppState::start(false, None, &db);
    s.search_changed("x", &by_ingredient, &by_title, &db);
    assert_eq!(shown(&s), owned(&["b", "a", "c"]));
    assert_eq!(s.recipes[0].ingredient_names, "卵, 鶏肉");
    s.search_changed("x", &Vec::new(), &Vec::new(), &db);
    assert!(s.recipes.is_empty());
    s.search_changed("  ", &by_ingredient, &Vec::new(), &db);
    assert_eq!(shown(&s), owned(&["b", "c", "a"]));
}

#[test]
fn a_recipe_is_selected() {
    let mut r = recipe("d", "卵焼き", 5, &["卵"]);
    r.substitutes_json = Some("...".to_string());
    let db = filled(vec![r, recipe("e", "飯", 6, &[])]);
    let subs = || Some(vec![Substitute { ingredient: "卵".into(), alternatives: owned(&["豆腐"]), note: None }]);
    let mut s = AppState::start(false, None, &db);
    s.recipe_selected("none", subs(), &db);
    assert_eq!(s.current_view, AppView::Setup);
    assert!(s.selected_recipe.is_none());
    s.recipe_selected("d", subs(), &db);
    assert_eq!(s.current_view, AppView::Detail);
    assert_eq!(s.selected_recipe.as_ref().map(|m| m.title.as_str()), Some("卵焼き"));
    assert_eq!(s.detail_ingredients.len(), 1);
    assert_eq!(s.detail_substitutes.len(), 1);
    assert_eq!(s.detail_substitutes[0].alternatives, "豆腐");
    s.recipe_selected("d", None, &db);
    assert!(s.detail_substitutes.is_empty());
    // Without a list of substitutes there is nothing to read.
    s.recipe_selected("e", subs(), &db);
    assert_eq!(s.selected_recipe.as_ref().map(|m| m.title.as_str()), Some("飯"));
    assert!(s.detail_substitutes.is_empty());
    s.back_pressed();
    assert_eq!(s.current_view, AppView::Main);
}

#[test]
fn the_views_can_be_reached() {
    let db = sample();
    let mut s = AppState::start(false, None, &db);
    s.navigate_stock(&db);
    assert_eq!(s.current_view, AppView::Stock);
    assert_eq!(stocked(&s), owned(&["卵", "玉ねぎ", "鶏肉", "鶏肉"]));
    s.navigate_main();
    assert_eq!(s.current_view, AppView::Main);
    s.navigate_add();
    assert_eq!(s.current_view, AppView::AddRecipe);
    s.add_from_url();
    assert_eq!(s.current_view, AppView::Main);
    assert_eq!(s.status_message, "URL からレシピを取得中...");
    s.navigate_add();
    s.add_from_text();
    assert_eq!(s.current_view, AppView::Main);
    assert_eq!(s.status_message, "テキストを解析中...");
    s.sync_pressed();
    assert_eq!(s.status_message, "同期には Google Drive トークンが必要です (STOCLOVE_DRIVE_TOKEN)");
}

#[test]
fn the_end_of_an_import_is_told() {
    let db = sample();
    let mut s = AppState::start(false, None, &db);
    s.import_finished(Err(DomainError::AiError("読めません".to_string())), &db);
    assert_eq!(s.status_message, "エラー: 読めません");
    assert!(s.recipes.is_empty());
    s.import_finished(Ok(()), &db);
    assert_eq!(s.status_message, "レシピを追加しました!");
    assert_eq!(shown(&s), owned(&["b", "c", "a"]));
}

#[test]
fn a_deleted_recipe_is_not_shown() {
    let mut db = sample();
    let mut s = AppState::start(true, model_by_id("gemma3-1b"), &db);
    db.soft_delete_recipe("c");
    s.recipe_deleted(&db);
    assert_eq!(shown(&s), owned(&["b", "a"]));
    assert_eq!(s.status_message, "レシピを削除しました");
}

#[test]
fn without_a_model_the_layout_is_analysed() {
    assert!(matches!(get_llm_or_mock(&None), Analyst::Mock(_)));
    match get_llm_or_mock(&Some(OllamaLlm::new("http://h/", "m"))) {
        Analyst::Ollama(l) => {
            assert_eq!(l.base_url, "http://h");
            assert_eq!(l.model, "m");
        }
        Analyst::Mock(_) => panic!("the model was due"),
    }
}

#[test]
fn data_lies_below_the_home_directory() {
    let home = || Some("/home/u".to_string());
    let appdata = || Some("C:\\Data".to_string());
    assert_eq!(dirs_path(home(), appdata()), owned(&["/home/u", ".local", "share", "stoclove"]));
    assert_eq!(dirs_path(None, appdata()), owned(&["C:\\Data", "stoclove"]));
    assert_eq!(dirs_path(None, None), owned(&["."]));
}

#[test]
fn errors_have_a_message_and_a_detail() {
    let all = [
        (DomainError::RecipeNotFound("x".into()), "Recipe not found: x"),
        (DomainError::InvalidIngredient("x".into()), "Invalid ingredient data: x"),
        (DomainError::ParseError("x".into()), "Parse error: x"),
        (DomainError::SyncError("x".into()), "Sync error: x"),
        (DomainError::AiError("x".into()), "AI processing error: x"),
    ];
    for (e, message) in all {
        assert_eq!(e.message(), message);
        assert_eq!(e.into_detail(), "x");
    }
}
