use stoclove::domain::error::DomainError;
use stoclove::domain::recipe::{RawIngredient, Substitute};
use stoclove::infra::ai::client::{AnalyzedRecipe, LlmClient};
use stoclove::infra::ai::mock::MockLlm;
use stoclove::infra::db::database::Database;
use stoclove::ui::import::{
    build_recipe, import_analyzed, recognized, store_analyzed, store_analyzed_at,
};

fn analyzed(substitutes: Vec<Substitute>) -> AnalyzedRecipe {
    AnalyzedRecipe {
        title: "親子丼".to_string(),
        ingredients: vec![
            RawIngredient { name: "Fresh Eggs".into(), amount: "2".into(), unit: "個".into() },
            RawIngredient { name: "米".into(), amount: "1".into(), unit: "合".into() },
        ],
        instructions: "煮る".to_string(),
        substitutes,
    }
}

fn substitute() -> Substitute {
    Substitute { ingredient: "米".into(), alternatives: vec!["麦".into()], note: None }
}

/// An analysis that always comes to the same.
struct Fixed(fn() -> Result<Option<AnalyzedRecipe>, DomainError>);

impl LlmClient for Fixed {
    fn analyze_recipe(&self, _text: &str) -> Result<Option<AnalyzedRecipe>, DomainError> {
        (self.0)()
    }
}

fn encode(subs: &Vec<Substitute>) -> Option<String> {
    Some(format!("{} substitutes", subs.len()))
}

#[test]
fn a_recipe_is_built_from_what_was_found() {
    let r = build_recipe(
        "id".to_string(),
        analyzed(vec![substitute()]),
        Some("u".to_string()),
        Some("json".to_string()),
        7,
    );
    assert_eq!(r.id, "id");
    assert_eq!(r.title, "親子丼");
    assert_eq!(r.source_url, Some("u".to_string()));
    assert_eq!(r.instructions, "煮る");
    assert_eq!(r.substitutes_json, Some("json".to_string()));
    assert_eq!(r.updated_at, 7);
    assert!(!r.is_deleted);
    assert_eq!(r.ingredients.len(), 2);
    assert_eq!(r.ingredients[0].recipe_id, "id");
    assert_eq!(r.ingredients[0].name, "Fresh Eggs");
    assert_eq!(r.ingredients[0].normalized_name, "eggs");
    assert_eq!(r.ingredients[1].amount, "1");
    assert_eq!(r.ingredients[1].unit, "合");
}

#[test]
fn without_substitutes_none_are_stored() {
    let r = build_recipe("id".to_string(), analyzed(Vec::new()), None, Some("[]".to_string()), 7);
    assert_eq!(r.substitutes_json, None);
    assert_eq!(r.source_url, None);
    // A list that cannot be written down is not stored either.
    let r = build_recipe("id".to_string(), analyzed(vec![substitute()]), None, None, 7);
    assert_eq!(r.substitutes_json, None);
}

#[test]
fn an_imported_recipe_is_read_back() {
    let mut db = Database::open_in_memory();
    store_analyzed_at(&mut db, "id".to_string(), analyzed(Vec::new()), None, None, 7).expect("stored");
    let back = db.get_recipe("id").expect("a recipe");
    assert_eq!(back.title, "親子丼");
    assert_eq!(back.ingredients.len(), 2);
    store_analyzed_at(&mut db, "other".to_string(), analyzed(Vec::new()), None, None, 8).expect("stored");
    assert_eq!(db.get_recipe("id").expect("a recipe").updated_at, 7);
}

#[test]
fn what_is_no_recipe_is_not_stored() {
    let mut db = Database::open_in_memory();
    match import_analyzed("今日は天気がいい", None, &mut db, &MockLlm, &encode) {
        Err(DomainError::AiError(d)) => {
            assert_eq!(d, "レシピとして認識できませんでした。別のテキストをお試しください。")
        }
        _ => panic!("an error was due"),
    }
    assert!(db.recipe_rows().is_empty());
}

#[test]
fn a_failed_analysis_is_passed_on() {
    let mut db = Database::open_in_memory();
    let llm = Fixed(|| Err(DomainError::SyncError("offline".to_string())));
    match import_analyzed("x", None, &mut db, &llm, &encode) {
        Err(DomainError::SyncError(d)) => assert_eq!(d, "offline"),
        _ => panic!("an error was due"),
    }
    assert!(db.recipe_rows().is_empty());
    assert!(recognized(Ok(Some(analyzed(Vec::new())))).is_ok());
    assert!(recognized(Ok(None)).is_err());
}

#[test]
fn a_text_is_imported_under_a_fresh_id() {
    let mut db = Database::open_in_memory();
    let before = chrono::Utc::now().timestamp();
    let text = "親子丼\n材料\n玉子\n2個\n作り方\n煮る";
    for _ in 0..20 {
        import_analyzed(text, Some("https://e.com".to_string()), &mut db, &MockLlm, &encode).expect("stored");
    }
    let after = chrono::Utc::now().timestamp();
    assert_eq!(db.recipe_rows().len(), 20);
    for r in db.list_recipes() {
        assert_eq!(r.title, "親子丼");
        assert_eq!(r.source_url, Some("https://e.com".to_string()));
        assert_eq!(r.substitutes_json, None);
        assert!(before <= r.updated_at && r.updated_at <= after);
        assert_eq!(r.ingredients.len(), 1);
        assert_eq!(r.ingredients[0].recipe_id, r.id);
        // A random UUID: its layout, version and variant.
        let cs: Vec<char> = r.id.chars().collect();
        assert_eq!(cs.len(), 36);
        for (i, c) in cs.iter().enumerate() {
            if i == 8 || i == 13 || i == 18 || i == 23 {
                assert_eq!(*c, '-');
            } else {
                assert!(c.is_ascii_digit() || ('a'..='f').contains(c));
            }
        }
        assert_eq!(cs[14], '4');
        assert!("89ab".contains(cs[19]));
        assert_eq!(uuid::Uuid::parse_str(&r.id).expect("a UUID").get_version_num(), 4);
    }
}

#[test]
fn what_was_found_is_stored_under_a_fresh_id() {
    let mut db = Database::open_in_memory();
    store_analyzed(&mut db, analyzed(Vec::new()), None, None).expect("stored");
    store_analyzed(&mut db, analyzed(Vec::new()), None, None).expect("stored");
    let rows = db.recipe_rows();
    assert_eq!(rows.len(), 2);
    assert_ne!(rows[0].id, rows[1].id);
    assert_eq!(rows[0].title, "親子丼");
}

#[test]
fn substitutes_are_stored_as_they_are_encoded() {
    let mut db = Database::open_in_memory();
    let llm = Fixed(|| Ok(Some(analyzed(vec![substitute()]))));
    import_analyzed("x", None, &mut db, &llm, &encode).expect("stored");
    assert_eq!(db.list_recipes()[0].substitutes_json, Some("1 substitutes".to_string()));
}
