use stoclove::infra::scraper::{
    choose_text, clean_text, extract_text_from_html, flatten, long_text,
};

fn owned(v: &[&str]) -> Vec<String> {
    v.iter().map(|s| s.to_string()).collect()
}

#[test]
fn blank_lines_and_margins_go() {
    assert_eq!(clean_text("  卵 \n\n\t\n 2個\u{3000}\r\n"), "卵\n2個");
    assert_eq!(clean_text(""), "");
    assert_eq!(clean_text(" \n "), "");
}

#[test]
fn cleaning_a_page_again_changes_nothing() {
    let once = clean_text(" a  b \n\n c\r\n");
    assert_eq!(once, "a  b\nc");
    assert_eq!(clean_text(&once), once);
}

#[test]
fn a_part_is_long_from_two_hundred_and_one_bytes_on() {
    let x = "x".repeat(200);
    assert_eq!(long_text(&vec![x.clone()]), None);
    assert_eq!(long_text(&vec![format!("{}y", x)]), Some(format!("{}y", x)));
    // The line feeds between the pieces count, and so do all bytes of a character.
    assert_eq!(long_text(&vec![x.clone(), String::new()]), Some(x));
    assert_eq!(long_text(&vec!["卵".repeat(67)]), Some("卵".repeat(67)));
    assert_eq!(long_text(&vec!["卵".repeat(66)]), None);
    assert_eq!(long_text(&Vec::new()), None);
}

#[test]
fn the_first_long_part_is_chosen() {
    let long = |c: &str| Some(vec![format!(" {} ", c.repeat(201))]);
    let short = Some(owned(&["short"]));
    assert_eq!(choose_text(&vec![None, short.clone(), long("b"), long("c")], &long("d")), "b".repeat(201));
    assert_eq!(choose_text(&vec![None, short.clone()], &Some(owned(&[" all ", "", "of it"]))), "all\nof it");
    assert_eq!(choose_text(&vec![None, short], &None), "");
    assert_eq!(choose_text(&Vec::new(), &None), "");
}

#[test]
fn the_recipe_of_a_page_is_taken() {
    let steps = "混ぜて焼く。".repeat(20);
    let html = format!(
        "<html><body><nav>menu</nav><div class=\"my-recipe-card\"><h1>卵焼き</h1><p>{}</p></div><footer>end</footer></body></html>",
        steps
    );
    assert_eq!(extract_text_from_html(&html), format!("卵焼き\n{}", steps));
}

#[test]
fn an_article_is_taken_before_the_main_part() {
    let a = "a".repeat(300);
    let m = "m".repeat(300);
    let html = format!("<body><main><p>{}</p><article>{}</article></main></body>", m, a);
    assert_eq!(extract_text_from_html(&html), a);
    let html = format!("<body><main><p>{}</p></main><p>rest</p></body>", m);
    assert_eq!(extract_text_from_html(&html), m);
}

#[test]
fn short_parts_fall_back_to_the_whole_page() {
    let html = "<html><head><title>t</title></head><body> <h1>卵焼き</h1>\n<div class='recipe'>卵 2個</div></body></html>";
    assert_eq!(extract_text_from_html(html), "卵焼き\n卵 2個");
    assert_eq!(extract_text_from_html(""), "");
}

#[test]
fn several_elements_are_read_in_order() {
    let one = "a".repeat(150);
    let two = "b".repeat(150);
    let html = format!(
        "<body><p class='ingredient'>{}<b>x</b></p><i>skip</i><p class='ingredients'>{}</p></body>",
        one, two
    );
    assert_eq!(extract_text_from_html(&html), format!("{}\nx\n{}", one, two));
    assert_eq!(flatten(vec![owned(&["a", "b"]), Vec::new(), owned(&["c"])]), owned(&["a", "b", "c"]));
    assert!(flatten(Vec::new()).is_empty());
}
