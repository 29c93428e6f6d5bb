use stoclove::clock::LAST_TIMESTAMP;
use stoclove::domain::ingredient::Ingredient;
use stoclove::domain::merge::{validate_sync, MergePolicy, MergeReport};
use stoclove::domain::recipe::Recipe;
use stoclove::infra::db::database::Database;

fn ing(recipe: &str, name: &str, amount: &str) -> Ingredient {
    Ingredient::new(recipe.to_string(), name.to_string(), amount.to_string(), String::new())
}

fn recipe(id: &str, title: &str, at: i64, ings: &[(&str, &str)]) -> Recipe {
    let mut r = Recipe::new_at(id.to_string(), title.to_string(), None, String::new(), at);
    r.ingredients = ings.iter().map(|(n, a)| ing(id, n, a)).collect();
    r
}

fn filled(recipes: Vec<Recipe>) -> Database {
    let mut db = Database::open_in_memory();
    for r in recipes {
        db.upsert_recipe(&r).expect("stored");
    }
    db
}

fn summary(db: &Database) -> Vec<(String, String, i64, bool)> {
    let mut all: Vec<(String, String, i64, bool)> = db
        .recipe_rows()
        .iter()
        .map(|r| (r.id.clone(), r.title.clone(), r.updated_at, r.is_deleted))
        .collect();
    all.sort();
    all
}

fn entry(id: &str, title: &str, at: i64, deleted: bool) -> (String, String, i64, bool) {
    (id.to_string(), title.to_string(), at, deleted)
}

#[test]
fn the_later_version_wins() {
    let mut local = filled(vec![
        recipe("a", "local", 10, &[("塩", "1")]),
        recipe("b", "local", 20, &[("水", "1")]),
        recipe("c", "local", 30, &[("油", "1")]),
        recipe("d", "local", 40, &[]),
    ]);
    let remote = filled(vec![
        recipe("a", "remote", 11, &[("塩", "2"), ("酢", "1")]),
        recipe("b", "remote", 20, &[("水", "2")]),
        recipe("c", "remote", 29, &[("油", "2")]),
        recipe("e", "remote", 1, &[("米", "1")]),
    ]);
    let report = local.merge_at(&remote, 99);
    assert_eq!(report.upserted, 2);
    assert_eq!(report.skipped, 0);
    assert_eq!(
        summary(&local),
        vec![
            entry("a", "remote", 11, false),
            entry("b", "local", 20, false),
            entry("c", "local", 30, false),
            entry("d", "local", 40, false),
            entry("e", "remote", 1, false),
        ]
    );
    assert_eq!(local.get_recipe("a").expect("a").ingredients, vec![ing("a", "塩", "2"), ing("a", "酢", "1")]);
    assert_eq!(local.get_recipe("b").expect("b").ingredients, vec![ing("b", "水", "1")]);
    assert_eq!(local.get_recipe("c").expect("c").ingredients, vec![ing("c", "油", "1")]);
    assert_eq!(local.get_recipe("e").expect("e").ingredients, vec![ing("e", "米", "1")]);
    assert_eq!(local.get_last_sync(), 99);
}

#[test]
fn the_winning_version_brings_just_its_ingredients() {
    let local = || {
        filled(vec![
            recipe("a", "local", 10, &[("塩", "1"), ("砂糖", "1")]),
            recipe("b", "local", 10, &[("塩", "9")]),
        ])
    };
    let mut db = local();
    db.merge_at(&filled(vec![recipe("a", "remote", 11, &[("塩", "2")])]), 1);
    assert_eq!(db.get_recipe("a").expect("a").ingredients, vec![ing("a", "塩", "2")]);
    assert_eq!(db.get_recipe("b").expect("b").ingredients, vec![ing("b", "塩", "9")]);
    let mut db = local();
    db.merge_at(&filled(vec![recipe("a", "remote", 11, &[])]), 1);
    assert!(db.get_recipe("a").expect("a").ingredients.is_empty());
    for at in [9, 10] {
        let mut db = local();
        db.merge_at(&filled(vec![recipe("a", "remote", at, &[("塩", "2"), ("水", "3")])]), 1);
        assert_eq!(
            db.get_recipe("a").expect("a").ingredients,
            vec![ing("a", "塩", "1"), ing("a", "砂糖", "1")]
        );
    }
}

#[test]
fn a_deletion_travels() {
    let mut local = filled(vec![recipe("a", "x", 10, &[("塩", "1")])]);
    let mut remote = filled(vec![recipe("a", "x", 10, &[("塩", "1"), ("水", "1")])]);
    remote.soft_delete_recipe_at("a", 20);
    assert_eq!(local.merge_at(&remote, 1).upserted, 1);
    assert!(local.get_recipe("a").is_none());
    // The ingredients of a deleted recipe are not taken over.
    assert_eq!(local.ingredient_rows().len(), 1);
}

#[test]
fn a_later_change_undoes_a_deletion() {
    let mut local = filled(vec![recipe("a", "x", 10, &[])]);
    local.soft_delete_recipe_at("a", 20);
    let remote = filled(vec![recipe("a", "y", 21, &[("塩", "1")])]);
    local.merge_at(&remote, 1);
    assert_eq!(local.get_recipe("a").expect("a").title, "y");
}

#[test]
fn merging_again_changes_nothing() {
    let mut local = filled(vec![recipe("a", "local", 10, &[("塩", "1")])]);
    let remote = filled(vec![recipe("a", "remote", 11, &[("塩", "2")]), recipe("b", "remote", 1, &[])]);
    assert_eq!(local.merge_at(&remote, 5).upserted, 2);
    let once = (summary(&local), local.ingredient_rows().clone());
    assert_eq!(local.merge_at(&remote, 5).upserted, 0);
    assert_eq!((summary(&local), local.ingredient_rows().clone()), once);
}

#[test]
fn merging_with_oneself_changes_nothing() {
    let mut local = filled(vec![recipe("a", "local", 10, &[("塩", "1")]), recipe("b", "x", 3, &[])]);
    let same = filled(vec![recipe("a", "local", 10, &[("塩", "1")]), recipe("b", "x", 3, &[])]);
    let before = (summary(&local), local.ingredient_rows().clone());
    assert_eq!(local.merge_at(&same, 5).upserted, 0);
    assert_eq!((summary(&local), local.ingredient_rows().clone()), before);
}

#[test]
fn two_devices_agree_after_merging_both_ways() {
    let make_a = || {
        filled(vec![
            recipe("a", "A", 10, &[("塩", "1")]),
            recipe("b", "A", 30, &[("米", "1")]),
            recipe("d", "A", 7, &[("油", "1"), ("酢", "1")]),
        ])
    };
    let make_b = || {
        filled(vec![
            recipe("b", "B", 20, &[("水", "1"), ("米", "2")]),
            recipe("c", "B", 5, &[]),
            recipe("d", "B", 8, &[("酢", "2")]),
        ])
    };
    let mut a = make_a();
    let mut b = make_b();
    a.merge_at(&make_b(), 1);
    b.merge_at(&make_a(), 1);
    assert_eq!(summary(&a), summary(&b));
    for id in ["a", "b", "c", "d"] {
        let x = a.get_recipe(id).expect("a recipe");
        let y = b.get_recipe(id).expect("a recipe");
        assert_eq!(x.ingredients, y.ingredients, "{}", id);
    }
    assert_eq!(a.get_recipe("d").expect("d").ingredients, vec![ing("d", "酢", "2")]);
}

#[test]
fn merging_now_notes_the_time_of_the_clock() {
    let before = chrono::Utc::now().timestamp();
    let mut local = Database::open_in_memory();
    let remote = filled(vec![recipe("a", "remote", 11, &[("塩", "2")])]);
    let report = local.merge_from_file(&remote).expect("a report");
    assert_eq!(report.upserted, 1);
    assert_eq!(report.skipped, 0);
    assert_eq!(local.get_recipe("a").expect("a").title, "remote");
    let at = local.get_last_sync();
    assert!(before <= at && at <= chrono::Utc::now().timestamp());
}

#[test]
fn the_policy_is_last_write_wins() {
    assert!(MergePolicy::remote_wins(1, 2));
    assert!(!MergePolicy::remote_wins(2, 2));
    assert!(!MergePolicy::remote_wins(3, 2));
    assert!(MergePolicy::remote_wins(i64::MIN, i64::MAX));
}

#[test]
fn timestamps_are_sane_up_to_a_day_ahead() {
    assert!(MergePolicy::is_valid_timestamp_at(0, 0));
    assert!(MergePolicy::is_valid_timestamp_at(86_400, 0));
    assert!(!MergePolicy::is_valid_timestamp_at(86_401, 0));
    assert!(!MergePolicy::is_valid_timestamp_at(-1, 1_000));
    assert!(MergePolicy::is_valid_timestamp_at(i64::MAX, i64::MAX));
    let now = chrono::Utc::now().timestamp();
    assert!(MergePolicy::is_valid_timestamp(now));
    assert!(MergePolicy::is_valid_timestamp(now + 86_000));
    assert!(!MergePolicy::is_valid_timestamp(now + 90_000));
    assert!(!MergePolicy::is_valid_timestamp(-1));
    assert!(!MergePolicy::is_valid_timestamp(i64::MAX));
}

#[test]
fn the_last_timestamp_is_the_last_of_the_calendar() {
    assert_eq!(LAST_TIMESTAMP, chrono::DateTime::<chrono::Utc>::MAX_UTC.timestamp());
}

#[test]
fn reports_count() {
    let mut r = MergeReport::default();
    assert_eq!((r.upserted, r.skipped), (0, 0));
    r.record_upsert();
    r.record_upsert();
    r.record_skip();
    assert_eq!((r.upserted, r.skipped), (2, 1));
    assert!(validate_sync(&r).is_ok());
}
