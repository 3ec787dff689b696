use aemo_automate::lines::{drop_empty, split_columns, split_flags};
use aemo_automate::{remove_lists, segment};

fn strings(items: &[&str]) -> Vec<String> {
    items.iter().map(|s| s.to_string()).collect()
}

#[test]
fn wide_gaps_separate_columns() {
    assert_eq!(segment("name   type   True"), Ok(strings(&["name", "type", "True"])));
}

#[test]
fn line_without_wide_gap_stays_whole() {
    assert_eq!(segment("INT651, INT652"), Ok(strings(&["INT651, INT652"])));
    assert_eq!(segment("single words here"), Ok(strings(&["single words here"])));
    assert_eq!(segment(""), Ok(strings(&[""])));
}

#[test]
fn gap_behind_a_comma_alone_does_not_split() {
    assert_eq!(segment("A,  B"), Ok(strings(&["A,  B"])));
}

#[test]
fn a_split_line_is_split_at_every_space() {
    assert_eq!(segment("A, B   True"), Ok(strings(&["A,", "B", "True"])));
    assert_eq!(segment("gas date  x"), Ok(strings(&["gas", "date", "x"])));
}

#[test]
fn long_gap_behind_a_comma_does_not_split_either() {
    assert_eq!(segment("a,   b"), Ok(strings(&["a,   b"])));
    assert_eq!(segment("a,     b c"), Ok(strings(&["a,     b c"])));
}

#[test]
fn wide_gap_at_the_front_counts() {
    assert_eq!(segment("  a b"), Ok(strings(&["", "a", "b"])));
}

#[test]
fn one_wide_gap_splits_the_whole_line() {
    assert_eq!(segment("a,  b  c"), Ok(strings(&["a,", "b", "c"])));
}

#[test]
fn bullet_lines_and_their_followers_are_blanked() {
    let given = strings(&["a", "\u{2022} b", "c", "d"]);
    assert_eq!(remove_lists(given), strings(&["a", "", "", "d"]));
}

#[test]
fn bullet_lookback_is_one_line() {
    let given = strings(&["\u{2022} one", "two", "three", "x \u{2022} y", "\u{2022}", "z", "w"]);
    assert_eq!(remove_lists(given), strings(&["", "", "three", "", "", "", "w"]));
}

#[test]
fn remove_lists_keeps_lines_without_bullets() {
    assert_eq!(remove_lists(strings(&["a", "b"])), strings(&["a", "b"]));
    assert_eq!(remove_lists(Vec::new()), Vec::<String>::new());
}

#[test]
fn drop_empty_keeps_order() {
    assert_eq!(drop_empty(strings(&["", "a", "", "b", " ", ""])), strings(&["a", "b", " "]));
}

#[test]
fn flag_lines_are_split_at_spaces() {
    let given = strings(&["gas_date True False", "True", "no flag here", "isTrue x", "False"]);
    assert_eq!(
        split_flags(&given),
        strings(&["gas_date", "True", "False", "True", "no flag here", "isTrue", "x", "False"])
    );
}

#[test]
fn flag_line_with_two_spaces_gives_an_empty_token() {
    assert_eq!(split_flags(&strings(&["a  True"])), strings(&["a", "", "True"]));
}

#[test]
fn collapsed_form_is_split_at_its_spaces() {
    assert_eq!(
        split_columns("name   type   True", Some("name type True".to_string())),
        strings(&["name", "type", "True"])
    );
    assert_eq!(split_columns("a  b", Some(" a\tb  c ".to_string())), strings(&["", "a\tb", "", "c", ""]));
    assert_eq!(split_columns("whole line", None), strings(&["whole line"]));
}
