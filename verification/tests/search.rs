use formula_scanner::latex_parser::chars_index_of;

fn chars_of(text: &str) -> Vec<char> {
    text.chars().collect()
}

#[test]
fn finds_the_first_occurrence() {
    let text = chars_of("ab$$cd$$ef");
    let pattern = chars_of("$$");
    assert_eq!(chars_index_of(&text, 0, &pattern), Some(2));
    assert_eq!(chars_index_of(&text, 2, &pattern), Some(2));
    assert_eq!(chars_index_of(&text, 3, &pattern), Some(6));
    assert_eq!(chars_index_of(&text, 7, &pattern), None);
}

#[test]
fn overlapping_candidates_give_the_leftmost() {
    let text = chars_of("$$$");
    let pattern = chars_of("$$");
    assert_eq!(chars_index_of(&text, 0, &pattern), Some(0));
    assert_eq!(chars_index_of(&text, 1, &pattern), Some(1));
    assert_eq!(chars_index_of(&text, 2, &pattern), None);
}

#[test]
fn pattern_at_the_very_end_is_found() {
    let text = chars_of("x\\]");
    let pattern = chars_of("\\]");
    assert_eq!(chars_index_of(&text, 0, &pattern), Some(1));
    assert_eq!(chars_index_of(&text, 1, &pattern), Some(1));
}

#[test]
fn absent_pattern_gives_none() {
    let text = chars_of("plain text");
    assert_eq!(chars_index_of(&text, 0, &chars_of("\\)")), None);
    assert_eq!(chars_index_of(&text, 0, &chars_of("txt")), None);
}

#[test]
fn partial_match_is_no_match() {
    let text = chars_of("a\\b\\]");
    assert_eq!(chars_index_of(&text, 0, &chars_of("\\]")), Some(3));
    assert_eq!(chars_index_of(&chars_of("ab\\"), 0, &chars_of("\\]")), None);
}

#[test]
fn empty_pattern_is_found_where_the_search_starts() {
    let text = chars_of("abc");
    assert_eq!(chars_index_of(&text, 0, &[]), Some(0));
    assert_eq!(chars_index_of(&text, 2, &[]), Some(2));
    assert_eq!(chars_index_of(&text, 3, &[]), Some(3));
    assert_eq!(chars_index_of(&text, 9, &[]), Some(9));
    assert_eq!(chars_index_of(&[], 0, &[]), Some(0));
}

#[test]
fn search_from_beyond_the_end_gives_none() {
    let text = chars_of("a$$");
    let pattern = chars_of("$$");
    assert_eq!(chars_index_of(&text, 3, &pattern), None);
    assert_eq!(chars_index_of(&text, 100, &pattern), None);
    assert_eq!(chars_index_of(&text, usize::MAX, &pattern), None);
}

#[test]
fn pattern_longer_than_text_gives_none() {
    assert_eq!(chars_index_of(&chars_of("$"), 0, &chars_of("$$")), None);
    assert_eq!(chars_index_of(&[], 0, &chars_of("```")), None);
    assert_eq!(chars_index_of(&chars_of("ab"), 1, &chars_of("abc")), None);
}

#[test]
fn whole_text_can_be_the_pattern() {
    let text = chars_of("```");
    assert_eq!(chars_index_of(&text, 0, &text), Some(0));
    assert_eq!(chars_index_of(&text, 1, &text), None);
}

#[test]
fn indices_count_characters() {
    let text = chars_of("ééé→→$$");
    assert_eq!(chars_index_of(&text, 0, &chars_of("$$")), Some(5));
    assert_eq!(chars_index_of(&text, 0, &chars_of("→$")), Some(4));
}
