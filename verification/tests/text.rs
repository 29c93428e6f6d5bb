use stoclove::number::{parse_signed, push_decimal, signed_text};
use stoclove::order::text_before;
use stoclove::text::{
    chars_of, contains, double_char, ends_with, is_whitespace, join, lines, remove_char, same_text,
    slice_text, starts_with, trim, words,
};

fn owned(v: &[&str]) -> Vec<String> {
    v.iter().map(|s| s.to_string()).collect()
}

const SAMPLES: [&str; 14] = [
    "",
    " ",
    "\n",
    "\r\n",
    "a",
    " a b ",
    "a\nb",
    "a\r\nb\r",
    "a\n\nb\n",
    "\u{3000}材料\u{3000}\n 薄力粉 200g ",
    "x\u{85}y\u{2028}z",
    "\ttab\u{b}vt\u{c}ff",
    "a\r\r\n",
    "\u{1680}\u{2003}mixed \u{205f}blanks\u{a0}",
];

#[test]
fn whitespace_is_what_the_standard_library_says() {
    for n in 0..=0x10ffff_u32 {
        if let Some(c) = char::from_u32(n) {
            assert_eq!(is_whitespace(c), c.is_whitespace(), "U+{:04X}", n);
        }
    }
}

#[test]
fn trimming_is_what_the_standard_library_does() {
    for s in SAMPLES {
        assert_eq!(trim(s), s.trim(), "{:?}", s);
    }
}

#[test]
fn lines_are_what_the_standard_library_says() {
    for s in SAMPLES {
        let expected: Vec<String> = s.lines().map(|l| l.to_string()).collect();
        assert_eq!(lines(s), expected, "{:?}", s);
    }
}

#[test]
fn words_are_what_the_standard_library_says() {
    for s in SAMPLES {
        let expected: Vec<String> = s.split_whitespace().map(|l| l.to_string()).collect();
        assert_eq!(words(s), expected, "{:?}", s);
    }
}

#[test]
fn joining_is_what_the_standard_library_does() {
    for parts in [owned(&[]), owned(&["a"]), owned(&["a", ""]), owned(&["a", "b", "c"])] {
        for sep in ["", ", ", "\n"] {
            assert_eq!(join(&parts, sep), parts.join(sep));
        }
    }
}

#[test]
fn parts_are_found() {
    for s in SAMPLES {
        for p in ["", "a", "b", " ", "材料", "a b", "\n"] {
            assert_eq!(starts_with(s, p), s.starts_with(p), "{:?} {:?}", s, p);
            assert_eq!(ends_with(s, p), s.ends_with(p), "{:?} {:?}", s, p);
            assert_eq!(contains(s, p), s.contains(p), "{:?} {:?}", s, p);
            assert_eq!(same_text(s, p), s == p, "{:?} {:?}", s, p);
        }
    }
}

#[test]
fn characters_are_dropped_and_doubled() {
    assert_eq!(remove_char("\"a\"b\"", '"'), "ab");
    assert_eq!(double_char("it's o'clock", '\''), "it''s o''clock");
    assert_eq!(double_char("", '\''), "");
}

#[test]
fn texts_are_cut_by_characters() {
    let cs = chars_of("大さじ1");
    assert_eq!(cs.len(), 4);
    assert_eq!(slice_text(&cs, 0, 3), "大さじ");
    assert_eq!(slice_text(&cs, 3, 4), "1");
    assert_eq!(slice_text(&cs, 2, 2), "");
}

#[test]
fn texts_are_ordered_by_their_bytes() {
    let all = ["", "a", "ab", "b", "é", "ｚ", "\u{ffff}", "😀", "卵", "砂糖"];
    for a in all {
        for b in all {
            assert_eq!(text_before(a, b), a.as_bytes() <= b.as_bytes(), "{:?} {:?}", a, b);
        }
    }
}

#[test]
fn numbers_are_written_and_read_back() {
    for n in [0, 1, -1, 9, 10, -10, 1_700_000_000, i64::MAX, i64::MIN] {
        assert_eq!(signed_text(n), n.to_string());
        assert_eq!(parse_signed(&signed_text(n)), Some(n));
    }
    let mut s = "n=".to_string();
    push_decimal(&mut s, u64::MAX);
    assert_eq!(s, "n=18446744073709551615");
}

#[test]
fn numbers_are_read_as_the_standard_library_does() {
    for s in [
        "", "0", "-0", "+0", "+5", "-", "+", "007", "12a", " 1", "1 ", "1_0", "--1", "0x1",
        "9223372036854775807", "9223372036854775808", "-9223372036854775808",
        "-9223372036854775809", "99999999999999999999999", "１",
    ] {
        assert_eq!(parse_signed(s), s.parse::<i64>().ok(), "{:?}", s);
    }
}
