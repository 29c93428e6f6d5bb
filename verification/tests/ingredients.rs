use stoclove::domain::ingredient::{
    join_telling_words, normalize_lowercase, normalize_name, strip_punctuation, Ingredient,
};

#[test]
fn test_normalize_name() {
    assert_eq!(normalize_name("Fresh Garlic"), "garlic");
    assert_eq!(normalize_name("Chopped Onion"), "onion");
    assert_eq!(normalize_name("Olive Oil"), "olive oil");
}

#[test]
fn every_filler_word_is_left_out() {
    let fillers = [
        "fresh", "dried", "chopped", "sliced", "diced", "minced", "large", "small", "medium",
    ];
    for f in fillers {
        assert_eq!(normalize_name(&format!("{} basil", f)), "basil");
        assert_eq!(normalize_name(&format!("{}ish basil", f)), format!("{}ish basil", f));
    }
}

#[test]
fn a_name_of_filler_words_alone_is_empty() {
    assert_eq!(normalize_name("Large, Fresh!"), "");
    assert_eq!(normalize_name(""), "");
    assert_eq!(normalize_name(" \t "), "");
}

#[test]
fn punctuation_goes_without_leaving_a_gap() {
    assert_eq!(normalize_name("Salt & Pepper"), "salt pepper");
    assert_eq!(normalize_name("all-purpose flour"), "allpurpose flour");
    assert_eq!(normalize_name("Tomatoes (2 cans)"), "tomatoes 2 cans");
}

#[test]
fn other_scripts_keep_their_letters() {
    assert_eq!(normalize_name("玉ねぎ（大）"), "玉ねぎ大");
    assert_eq!(normalize_name("ÉCHALOTE"), "échalote");
    // An ideographic blank separates words like any other.
    assert_eq!(normalize_name("鶏肉\u{3000}もも"), "鶏肉 もも");
}

#[test]
fn normalizing_twice_changes_nothing() {
    for name in ["Fresh Garlic", "Salt & Pepper", "玉ねぎ（大）", "  Diced   RED onion "] {
        let once = normalize_name(name);
        assert_eq!(normalize_name(&once), once);
        assert_eq!(normalize_lowercase(&once), once);
    }
}

#[test]
fn normalizing_goes_step_by_step() {
    assert_eq!(strip_punctuation("salt, & pepper"), "salt  pepper");
    assert_eq!(join_telling_words("  small  red\tonion "), "red onion");
    assert_eq!(normalize_lowercase("small, red onion!"), "red onion");
    // What is not in lower case is no filler word.
    assert_eq!(normalize_lowercase("Small red onion"), "Small red onion");
}

#[test]
fn a_new_ingredient_knows_its_normalized_name() {
    let i = Ingredient::new(
        "r1".to_string(),
        "Fresh Garlic".to_string(),
        "2".to_string(),
        "cloves".to_string(),
    );
    assert_eq!(i.recipe_id, "r1");
    assert_eq!(i.name, "Fresh Garlic");
    assert_eq!(i.amount, "2");
    assert_eq!(i.unit, "cloves");
    assert_eq!(i.normalized_name, "garlic");
    assert_eq!(i.clone(), i);
}

#[test]
fn lower_case_and_normalized_names_are_normalized_alike() {
    let mut names: Vec<String> =
        (0..=0x10ffff_u32).filter_map(char::from_u32).map(|c| c.to_string()).collect();
    for name in ["ΟΔΟΣ", "ΑΣ-ΑΣ ΣΑΣ", "İstanbul KÖFTESİ", "Fresh, DICED Onion", "STRASSE ẞ"] {
        names.push(name.to_string());
    }
    for name in names {
        let once = normalize_name(&name);
        assert_eq!(normalize_name(&once), once, "{:?}", name);
        assert_eq!(normalize_name(&name.to_lowercase()), once, "{:?}", name);
    }
}
