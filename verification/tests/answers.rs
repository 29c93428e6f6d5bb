use stoclove::domain::error::DomainError;
use stoclove::infra::ai::json_text::extract_json;
use stoclove::infra::ai::ollama::{
    analyze_answer, build_prompt, is_quotable, llm_json, llm_output_to_result, parse_llm_output, reply_text,
    LlmIngredient, LlmOutput, LlmSubstitute, OllamaLlm,
};
use stoclove::infra::json::{get_items, get_number, get_text};

fn value(text: &str) -> serde_json::Value {
    serde_json::from_str(text).expect("a JSON value")
}

fn output(is_recipe: bool, title: &str) -> LlmOutput {
    LlmOutput {
        is_recipe,
        title: title.to_string(),
        ingredients: vec![
            LlmIngredient { name: "卵".into(), amount: "2".into(), unit: "個".into() },
            LlmIngredient { name: " \u{3000}".into(), amount: "1".into(), unit: "g".into() },
            LlmIngredient { name: " 塩".into(), amount: "".into(), unit: "".into() },
        ],
        instructions: "焼く".to_string(),
        substitutes: vec![
            LlmSubstitute { ingredient: "".into(), alternatives: vec!["x".into()], note: None },
            LlmSubstitute {
                ingredient: "ケール".into(),
                alternatives: vec!["小松菜".into(), "ほうれん草".into()],
                note: Some("苦味が減る".into()),
            },
        ],
    }
}

#[test]
fn the_first_object_is_found() {
    assert_eq!(extract_json("{}"), Some("{}"));
    assert_eq!(extract_json("Sure! {\"a\": {\"b\": 1}} done }"), Some("{\"a\": {\"b\": 1}}"));
    assert_eq!(extract_json("{\"a\": \"}{\\\"}\"}x"), Some("{\"a\": \"}{\\\"}\"}"));
    assert_eq!(extract_json("前置き{\"名\": \"卵\"}後"), Some("{\"名\": \"卵\"}"));
    assert_eq!(extract_json("{\"a\": \"\\\\\"}"), Some("{\"a\": \"\\\\\"}"));
    assert_eq!(extract_json("\"{\" {} "), None);
}

#[test]
fn without_a_whole_object_nothing_is_found() {
    assert_eq!(extract_json(""), None);
    assert_eq!(extract_json("no json"), None);
    assert_eq!(extract_json("{\"a\": 1"), None);
    assert_eq!(extract_json("{\"a}"), None);
    assert_eq!(extract_json("}"), None);
}

#[test]
fn what_surrounds_the_object_does_not_matter() {
    let object = "{\"is_recipe\": true, \"title\": \"a } b\"}";
    assert_eq!(extract_json(object), Some(object));
    assert_eq!(extract_json(&format!("Here you are: {}", object)), Some(object));
    assert_eq!(extract_json(&format!("{} }} {{ \"", object)), Some(object));
}

#[test]
fn an_answer_without_an_object_is_quoted() {
    match llm_json("I cannot do that.") {
        Err(DomainError::AiError(d)) => {
            assert_eq!(d, "LLM が JSON を出力しませんでした。出力: I cannot do that.")
        }
        _ => panic!("an error was due"),
    }
    let long = "x".repeat(400);
    match llm_json(&long) {
        Err(e) => assert_eq!(
            e.into_detail(),
            format!("LLM が JSON を出力しませんでした。出力: {}", "x".repeat(300))
        ),
        Ok(_) => panic!("an error was due"),
    }
    assert_eq!(llm_json("so: {} !").expect("an object"), "{}");
}

#[test]
fn an_object_that_is_no_answer_is_quoted() {
    match parse_llm_output("{\"is_recipe\": 3}", None) {
        Err(DomainError::AiError(d)) => assert_eq!(d, "JSON パース失敗: {\"is_recipe\": 3}"),
        _ => panic!("an error was due"),
    }
    match parse_llm_output("{}", Some(output(true, "卵焼き"))) {
        Ok(out) => assert_eq!(out.title, "卵焼き"),
        Err(_) => panic!("an answer was due"),
    }
}

#[test]
fn what_a_model_said_is_analysed() {
    let parse = |json: &str| {
        if json == "{\"yes\": 1}" {
            Some(output(true, "卵焼き"))
        } else if json == "{\"no\": 1}" {
            Some(output(false, ""))
        } else {
            None
        }
    };
    match analyze_answer("Sure: {\"yes\": 1}.", &parse) {
        Ok(Some(a)) => assert_eq!(a.title, "卵焼き"),
        _ => panic!("a recipe was due"),
    }
    assert!(matches!(analyze_answer("{\"no\": 1}", &parse), Ok(None)));
    match analyze_answer("{} {}", &parse) {
        Err(DomainError::AiError(d)) => assert_eq!(d, "JSON パース失敗: {}"),
        _ => panic!("an error was due"),
    }
    match analyze_answer("nothing", &parse) {
        Err(DomainError::AiError(d)) => {
            assert_eq!(d, "LLM が JSON を出力しませんでした。出力: nothing")
        }
        _ => panic!("an error was due"),
    }
}

#[test]
fn quotes_do_not_cut_characters() {
    assert!(is_quotable(""));
    assert!(is_quotable(&"卵".repeat(100)));
    assert!(is_quotable(&"卵".repeat(200)));
    assert!(is_quotable(&format!("ab{}", "卵".repeat(10))));
    assert!(!is_quotable(&format!("ab{}", "卵".repeat(200))));
}

#[test]
fn an_answer_keeps_what_has_a_name() {
    let a = llm_output_to_result(output(true, "卵焼き")).expect("a recipe");
    assert_eq!(a.title, "卵焼き");
    assert_eq!(a.instructions, "焼く");
    assert_eq!(a.ingredients.len(), 2);
    assert_eq!(a.ingredients[0].name, "卵");
    assert_eq!(a.ingredients[0].amount, "2");
    assert_eq!(a.ingredients[0].unit, "個");
    assert_eq!(a.ingredients[1].name, " 塩");
    assert_eq!(a.substitutes.len(), 1);
    assert_eq!(a.substitutes[0].ingredient, "ケール");
    assert_eq!(a.substitutes[0].alternatives, vec!["小松菜".to_string(), "ほうれん草".to_string()]);
    assert_eq!(a.substitutes[0].note, Some("苦味が減る".to_string()));
}

#[test]
fn an_answer_without_a_title_is_untitled() {
    assert_eq!(llm_output_to_result(output(true, "")).expect("a recipe").title, "名称未設定のレシピ");
    assert_eq!(llm_output_to_result(output(true, " ")).expect("a recipe").title, " ");
}

#[test]
fn an_answer_may_say_that_there_is_no_recipe() {
    assert!(llm_output_to_result(output(false, "卵焼き")).is_none());
}

#[test]
fn the_reply_holds_the_answer() {
    assert_eq!(reply_text(&value("{\"response\": \"{}\", \"done\": true}")).expect("a text"), "{}");
    for bad in ["{}", "{\"response\": 1}", "[]", "null"] {
        match reply_text(&value(bad)) {
            Err(DomainError::AiError(d)) => {
                assert_eq!(d, "Ollama レスポンスに response フィールドがありません")
            }
            _ => panic!("an error was due"),
        }
    }
}

#[test]
fn members_are_read_by_kind() {
    let v = value("{\"t\": \"x\", \"n\": 7, \"m\": -7, \"f\": 1.5, \"a\": [1, \"b\"], \"o\": {}, \"z\": null}");
    assert_eq!(get_text(&v, "t"), Some("x".to_string()));
    assert_eq!(get_text(&v, "n"), None);
    assert_eq!(get_text(&v, "none"), None);
    assert_eq!(get_number(&v, "n"), Some(7));
    assert_eq!(get_number(&v, "m"), None);
    assert_eq!(get_number(&v, "f"), None);
    assert_eq!(get_number(&v, "t"), None);
    assert_eq!(get_items(&v, "a").map(|a| a.len()), Some(2));
    assert_eq!(get_items(&v, "a").map(|a| a[1].clone()), Some(value("\"b\"")));
    assert!(get_items(&v, "o").is_none());
    assert!(get_items(&v, "z").is_none());
    assert!(get_items(&value("[[1]]"), "0").is_none());
    let big = value("{\"n\": 18446744073709551615}");
    assert_eq!(get_number(&big, "n"), Some(u64::MAX));
}

#[test]
fn the_question_ends_with_the_text() {
    let q = build_prompt("卵を焼く");
    assert!(q.starts_with(
        "Analyze the text below. If it is NOT a recipe, return: {\"is_recipe\": false}\n\nIf it IS a recipe, return ONLY this JSON (no markdown, no explanation):\n{\n  \"is_recipe\": true,\n"
    ));
    assert!(q.contains("\"instructions\": \"full cooking steps joined by \\\\n (keep original language)\","));
    assert!(q.ends_with("fields\n\nText:\n卵を焼く"));
}

#[test]
fn a_model_is_asked_at_its_address() {
    let m = OllamaLlm::new("http://localhost:11434//", "gemma3:1b");
    assert_eq!(m.base_url, "http://localhost:11434");
    assert_eq!(m.model, "gemma3:1b");
    assert_eq!(m.generate_url(), "http://localhost:11434/api/generate");
    let q = m.prompt_for(" 材料 \n玉子\n2個\n\n-\n");
    assert_eq!(q, build_prompt("材料\n玉子: 2個"));
}
