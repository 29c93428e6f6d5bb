use stoclove::domain::error::DomainError;
use stoclove::domain::ingredient::Ingredient;
use stoclove::domain::recipe::{RawIngredient, RawRecipe, Recipe, Substitute};
use stoclove::infra::db::database::{attach_statement, export_statement, Database};
use stoclove::infra::db::query::{sanitize_fts_query, title_pattern};
use stoclove::infra::db::tables::RecipeRow;

fn ing(recipe: &str, name: &str, amount: &str) -> Ingredient {
    Ingredient::new(recipe.to_string(), name.to_string(), amount.to_string(), "g".to_string())
}

fn recipe(id: &str, title: &str, at: i64, names: &[&str]) -> Recipe {
    let mut r = Recipe::new_at(id.to_string(), title.to_string(), None, "焼く".to_string(), at);
    r.ingredients = names.iter().map(|n| ing(id, n, "1")).collect();
    r
}

fn filled(recipes: &[Recipe]) -> Database {
    let mut db = Database::open_in_memory();
    for r in recipes {
        db.upsert_recipe(r).expect("stored");
    }
    db
}

fn ids(recipes: &[Recipe]) -> Vec<String> {
    recipes.iter().map(|r| r.id.clone()).collect()
}

fn names(r: &Recipe) -> Vec<String> {
    r.ingredients.iter().map(|i| i.name.clone()).collect()
}

fn owned(v: &[&str]) -> Vec<String> {
    v.iter().map(|s| s.to_string()).collect()
}

#[test]
fn what_is_stored_is_read_back() {
    let mut r = recipe("a", "カレー", 10, &["鶏肉", "玉ねぎ"]);
    r.source_url = Some("https://example.com".to_string());
    r.substitutes_json = Some("[]".to_string());
    let db = filled(&[r]);
    let back = db.get_recipe("a").expect("a recipe");
    assert_eq!(back.id, "a");
    assert_eq!(back.title, "カレー");
    assert_eq!(back.source_url, Some("https://example.com".to_string()));
    assert_eq!(back.instructions, "焼く");
    assert_eq!(back.substitutes_json, Some("[]".to_string()));
    assert_eq!(back.updated_at, 10);
    assert!(!back.is_deleted);
    assert_eq!(back.ingredients, vec![ing("a", "鶏肉", "1"), ing("a", "玉ねぎ", "1")]);
    assert!(db.get_recipe("b").is_none());
}

#[test]
fn a_newer_version_replaces_the_recipe() {
    let db = filled(&[
        recipe("a", "old", 10, &["x", "y"]),
        recipe("b", "other", 10, &["z"]),
        recipe("a", "new", 11, &["w"]),
    ]);
    let a = db.get_recipe("a").expect("a recipe");
    assert_eq!(a.title, "new");
    assert_eq!(a.updated_at, 11);
    assert_eq!(names(&a), owned(&["w"]));
    assert_eq!(names(&db.get_recipe("b").expect("a recipe")), owned(&["z"]));
}

#[test]
fn a_version_that_is_not_newer_keeps_the_row() {
    for at in [9, 10] {
        let db = filled(&[recipe("a", "first", 10, &["x"]), recipe("a", "second", at, &["y"])]);
        let a = db.get_recipe("a").expect("a recipe");
        assert_eq!(a.title, "first");
        assert_eq!(a.updated_at, 10);
        assert_eq!(names(&a), owned(&["y"]));
    }
}

#[test]
fn storing_again_reads_the_same() {
    let r = recipe("a", "カレー", 10, &["鶏肉", "玉ねぎ"]);
    let mut db = filled(&[recipe("a", "カレー", 10, &["鶏肉", "玉ねぎ"])]);
    db.upsert_recipe(&r).expect("stored");
    let back = db.get_recipe("a").expect("a recipe");
    assert_eq!(back.title, "カレー");
    assert_eq!(back.ingredients, r.ingredients);
}

#[test]
fn of_an_ingredient_named_twice_the_last_stays() {
    let mut r = recipe("a", "カレー", 10, &[]);
    r.ingredients = vec![ing("a", "塩", "1"), ing("a", "水", "2"), ing("a", "塩", "3")];
    let db = filled(&[r]);
    let back = db.get_recipe("a").expect("a recipe");
    assert_eq!(back.ingredients, vec![ing("a", "水", "2"), ing("a", "塩", "3")]);
}

#[test]
fn an_ingredient_without_a_recipe_is_refused() {
    let mut db = filled(&[recipe("a", "カレー", 10, &["鶏肉"])]);
    let mut r = recipe("b", "丼", 11, &["卵"]);
    r.ingredients.push(ing("a", "塩", "1"));
    r.ingredients.push(ing("c", "水", "1"));
    r.ingredients.push(ing("b", "米", "1"));
    match db.upsert_recipe(&r) {
        Err(DomainError::InvalidIngredient(d)) => assert_eq!(d, "FOREIGN KEY constraint failed"),
        _ => panic!("an error was due"),
    }
    // What came before the ingredient that was refused is stored.
    assert_eq!(names(&db.get_recipe("b").expect("a recipe")), owned(&["卵"]));
    assert_eq!(names(&db.get_recipe("a").expect("a recipe")), owned(&["鶏肉", "塩"]));
}

#[test]
fn a_deleted_recipe_is_gone_but_stays_stored() {
    let mut db = filled(&[recipe("a", "カレー", 10, &["鶏肉"]), recipe("b", "丼", 11, &["卵"])]);
    db.soft_delete_recipe_at("a", 20);
    assert!(db.get_recipe("a").is_none());
    assert_eq!(ids(&db.list_recipes()), owned(&["b"]));
    assert_eq!(ids(&db.search_by_title("カ", &owned(&["a", "b"]))), owned(&["b"]));
    let pantry: Vec<String> = db.all_ingredients().iter().map(|i| i.name.clone()).collect();
    assert_eq!(pantry, owned(&["卵"]));
    let row = &db.recipe_rows()[0];
    assert!(row.is_deleted);
    assert_eq!(row.updated_at, 20);
    assert_eq!(row.title, "カレー");
    assert_eq!(db.ingredient_rows().len(), 2);
    db.soft_delete_recipe_at("none", 30);
    assert_eq!(db.recipe_rows().len(), 2);
}

#[test]
fn deleting_now_takes_the_time_of_the_clock() {
    let before = chrono::Utc::now().timestamp();
    let mut db = filled(&[recipe("a", "カレー", 10, &[])]);
    db.soft_delete_recipe("a");
    let after = chrono::Utc::now().timestamp();
    let at = db.recipe_rows()[0].updated_at;
    assert!(before <= at && at <= after);
}

#[test]
fn lists_begin_with_what_was_changed_last() {
    let db = filled(&[
        recipe("a", "1", 10, &[]),
        recipe("b", "2", 30, &[]),
        recipe("c", "3", 20, &[]),
        recipe("d", "4", 30, &[]),
    ]);
    assert_eq!(ids(&db.list_recipes()), owned(&["b", "d", "c", "a"]));
}

#[test]
fn ingredients_are_listed_by_their_normalized_names() {
    let db = filled(&[recipe("a", "1", 10, &["Fresh Salt", "卵"]), recipe("b", "2", 11, &["Beans", "salt"])]);
    let pantry: Vec<String> = db.all_ingredients().iter().map(|i| i.name.clone()).collect();
    assert_eq!(pantry, owned(&["Beans", "Fresh Salt", "salt", "卵"]));
}

#[test]
fn searches_find_the_hits_that_are_not_deleted() {
    let mut db = filled(&[recipe("a", "1", 10, &[]), recipe("b", "2", 30, &[]), recipe("c", "3", 20, &[])]);
    db.soft_delete_recipe_at("c", 40);
    let hits = owned(&["a", "c", "b", "a", "none"]);
    assert_eq!(ids(&db.search_by_ingredient("塩", &hits)), owned(&["b", "a"]));
    assert_eq!(ids(&db.search_by_title("塩", &hits)), owned(&["b", "a"]));
    assert!(db.search_by_ingredient("塩", &Vec::new()).is_empty());
    assert_eq!(ids(&db.search_by_ingredient(" \u{3000}\t", &Vec::new())), owned(&["b", "a"]));
    assert_eq!(ids(&db.search_by_title("", &Vec::new())), owned(&["b", "a"]));
}

#[test]
fn rows_that_stand_twice_are_refused() {
    let rows: Vec<RecipeRow> = vec![recipe("a", "1", 1, &[]).row(), recipe("a", "2", 2, &[]).row()];
    match Database::open(rows, Vec::new(), None) {
        Err(DomainError::SyncError(d)) => assert_eq!(d, "UNIQUE constraint failed"),
        _ => panic!("an error was due"),
    }
    let rows = vec![recipe("a", "1", 1, &[]).row()];
    let twice = vec![ing("a", "塩", "1"), ing("a", "塩", "2")];
    assert!(Database::open(rows, twice, None).is_err());
}

#[test]
fn a_database_is_opened_with_its_rows() {
    let rows = vec![recipe("a", "1", 1, &[]).row(), recipe("b", "2", 2, &[]).row()];
    let ings = vec![ing("b", "塩", "1"), ing("a", "塩", "2")];
    let db = Database::open(rows, ings, Some("77".to_string())).expect("a database");
    assert_eq!(names(&db.get_recipe("b").expect("a recipe")), owned(&["塩"]));
    assert_eq!(db.last_sync_text(), Some("77"));
    assert_eq!(db.get_last_sync(), 77);
}

#[test]
fn the_time_of_the_last_merge_is_kept() {
    let mut db = Database::open_in_memory();
    assert_eq!(db.get_last_sync(), 0);
    assert_eq!(db.last_sync_text(), None);
    for ts in [1_700_000_000, 0, -5, i64::MAX, i64::MIN] {
        db.set_last_sync(ts);
        assert_eq!(db.get_last_sync(), ts);
        assert_eq!(db.last_sync_text(), Some(ts.to_string().as_str()));
    }
    let unreadable = Database::open(Vec::new(), Vec::new(), Some("yesterday".to_string()));
    assert_eq!(unreadable.expect("a database").get_last_sync(), 0);
}

#[test]
fn words_of_a_query_become_phrases() {
    assert_eq!(sanitize_fts_query("chicken"), "\"chicken\"");
    assert_eq!(sanitize_fts_query(" 鶏肉\u{3000}玉ねぎ "), "\"鶏肉\" OR \"玉ねぎ\"");
    assert_eq!(sanitize_fts_query("a\"b\" AND c*"), "\"ab\" OR \"AND\" OR \"c*\"");
    assert_eq!(sanitize_fts_query("\""), "\"\"");
    assert_eq!(sanitize_fts_query("  "), "");
    assert_eq!(title_pattern("カレー"), "%カレー%");
    assert_eq!(title_pattern(""), "%%");
}

#[test]
fn a_real_full_text_index_takes_the_phrases() {
    let conn = rusqlite::Connection::open_in_memory().expect("a connection");
    conn.execute_batch(
        "CREATE VIRTUAL TABLE t USING fts5(name); INSERT INTO t VALUES ('red onion'), ('salt');",
    )
    .expect("a table");
    for (query, n) in [("onion", 1), ("onion salt", 2), ("AND OR NOT", 0), ("on*", 0), ("\"salt", 1)] {
        let found: i64 = conn
            .query_row(
                "SELECT count(*) FROM t WHERE t MATCH ?1",
                [sanitize_fts_query(query)],
                |row| row.get(0),
            )
            .expect("a query that can be read");
        assert_eq!(found, n, "{}", query);
    }
}

#[test]
fn paths_stand_in_quotes() {
    assert_eq!(attach_statement("/tmp/a b.sqlite"), "ATTACH DATABASE '/tmp/a b.sqlite' AS remote;");
    assert_eq!(attach_statement("it's"), "ATTACH DATABASE 'it''s' AS remote;");
    assert_eq!(export_statement("o'o'"), "VACUUM INTO 'o''o''';");
}

#[test]
fn recipes_are_touched_and_deleted() {
    let mut r = recipe("a", "カレー", 10, &["塩"]);
    r.touch_at(12);
    assert_eq!(r.updated_at, 12);
    assert!(!r.is_deleted);
    r.soft_delete_at(15);
    assert_eq!(r.updated_at, 15);
    assert!(r.is_deleted);
    assert_eq!(names(&r), owned(&["塩"]));

    let before = chrono::Utc::now().timestamp();
    let mut n = Recipe::new("n".to_string(), "t".to_string(), Some("u".to_string()), "i".to_string());
    assert!(before <= n.updated_at && n.updated_at <= chrono::Utc::now().timestamp());
    assert_eq!(n.source_url, Some("u".to_string()));
    assert!(n.ingredients.is_empty() && n.substitutes_json.is_none() && !n.is_deleted);
    n.updated_at = 0;
    n.touch();
    assert!(n.updated_at >= before && !n.is_deleted);
    n.updated_at = 0;
    n.soft_delete();
    assert!(n.updated_at >= before && n.is_deleted);
}

#[test]
fn copies_are_equal() {
    let mut r = recipe("a", "カレー", 10, &["塩", "水"]);
    r.substitutes_json = Some("[]".to_string());
    let c = r.clone();
    assert_eq!(format!("{:?}", c), format!("{:?}", r));
    assert_eq!(format!("{:?}", r.row().clone()), format!("{:?}", r.row()));
    let s = Substitute { ingredient: "a".into(), alternatives: owned(&["b", "c"]), note: Some("n".into()) };
    assert_eq!(format!("{:?}", s.clone()), format!("{:?}", s));
    let raw = RawRecipe {
        title: "t".into(),
        ingredients: vec![RawIngredient { name: "n".into(), amount: "1".into(), unit: "g".into() }],
        instructions: "i".into(),
    };
    assert_eq!(format!("{:?}", raw.clone()), format!("{:?}", raw));
}
