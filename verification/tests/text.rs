use aemo_automate::text::{
    contains, decimal_text, has_char, same_text, split_and_trim, starts_with, text_before,
    to_chars, trim, whitespace,
};

fn strings(items: &[&str]) -> Vec<String> {
    items.iter().map(|s| s.to_string()).collect()
}

#[test]
fn whitespace_is_what_std_calls_whitespace() {
    let mut code: u32 = 0;
    while code <= 0x3100 {
        if let Some(c) = char::from_u32(code) {
            assert_eq!(whitespace(c), c.is_whitespace(), "U+{:04X}", code);
        }
        code += 1;
    }
}

#[test]
fn trim_matches_std() {
    for s in ["", " ", "a", "  a  ", "\t\na b\r\n", "\u{a0}x\u{3000}", "  \u{2022} ", "x  y"] {
        assert_eq!(trim(s), s.trim());
    }
}

#[test]
fn to_chars_gives_every_character() {
    assert_eq!(to_chars("a\u{2022}c"), vec!['a', '\u{2022}', 'c']);
    assert_eq!(to_chars(""), Vec::<char>::new());
}

#[test]
fn same_text_compares_characters() {
    assert!(same_text("True", "True"));
    assert!(!same_text("True", "true"));
    assert!(!same_text("True", "True "));
    assert!(same_text("", ""));
}

#[test]
fn has_char_finds_a_character() {
    assert!(has_char("a~b", '~'));
    assert!(!has_char("ab", '~'));
    assert!(!has_char("", '~'));
    assert!(has_char("x \u{2022}", '\u{2022}'));
}

#[test]
fn starts_with_checks_the_front() {
    assert!(starts_with("Page 3 of 9", "Page"));
    assert!(starts_with("Page", "Page"));
    assert!(starts_with("Page", ""));
    assert!(!starts_with("Pag", "Page"));
    assert!(!starts_with(" Page", "Page"));
}

#[test]
fn contains_finds_a_substring() {
    assert!(contains("x True", "True"));
    assert!(contains("isFalse", "False"));
    assert!(contains("abc", ""));
    assert!(contains("", ""));
    assert!(!contains("Tru", "True"));
    assert!(!contains("T r u e", "True"));
    assert!(contains("aab", "ab"));
}

#[test]
fn text_before_stops_at_the_first_separator() {
    assert_eq!(text_before("int705_v2_detail", '_'), "int705");
    assert_eq!(text_before("nounderscore", '_'), "nounderscore");
    assert_eq!(text_before("_lead", '_'), "");
    assert_eq!(text_before("", '_'), "");
}

#[test]
fn split_and_trim_matches_std_split() {
    for s in ["r1, r2", "r3", "", ",", "a,,b", " a , b ,", "INT651,INT652 , INT653"] {
        let expected: Vec<String> = s.split(',').map(|p| p.trim().to_string()).collect();
        assert_eq!(split_and_trim(s, ','), expected, "{:?}", s);
    }
    assert_eq!(split_and_trim("a  b", ' '), strings(&["a", "", "b"]));
}

#[test]
fn decimal_text_writes_the_number() {
    assert_eq!(decimal_text(0), "0");
    assert_eq!(decimal_text(2), "2");
    assert_eq!(decimal_text(10), "10");
    assert_eq!(decimal_text(42), "42");
    assert_eq!(decimal_text(100), "100");
    assert_eq!(decimal_text(127), "127");
    assert_eq!(decimal_text(-1), "-1");
    assert_eq!(decimal_text(-100), "-100");
    assert_eq!(decimal_text(-128), "-128");
}

#[test]
fn decimal_text_matches_std_for_every_value() {
    let mut n: i8 = i8::MIN;
    loop {
        assert_eq!(decimal_text(n), format!("{}", n));
        if n == i8::MAX {
            break;
        }
        n += 1;
    }
}
