use formula_scanner::latex_parser::{
    extract_formulas, extract_formulas_impl, DelimiterType, Formula,
};

fn chars_of(text: &str) -> Vec<char> {
    text.chars().collect()
}

fn slice_of(text: &str, start: usize, end: usize) -> String {
    chars_of(text)[start..end].iter().collect()
}

fn check_one(f: &Formula, id: &str, raw: &str, whole: &str, kind: DelimiterType, start: usize) {
    assert_eq!(f.id, id);
    assert_eq!(f.raw, raw);
    assert_eq!(f.raw_with_delimiters, whole);
    assert_eq!(f.delimiter_type, kind);
    assert_eq!(f.start_offset, start);
    assert_eq!(f.end_offset, start + whole.chars().count());
    assert!(f.is_valid);
    assert_eq!(f.error_message, None);
}

#[test]
fn empty_text_has_no_formulas() {
    assert!(extract_formulas_impl("").is_empty());
}

#[test]
fn plain_text_has_no_formulas() {
    assert!(extract_formulas_impl("no math here, just words.\nand lines").is_empty());
}

#[test]
fn inline_dollar_is_recognized() {
    let out = extract_formulas_impl("$x$");
    assert_eq!(out.len(), 1);
    check_one(&out[0], "formula-0", "x", "$x$", DelimiterType::InlineDollar, 0);
    assert_eq!(out[0].line_number, 1);
}

#[test]
fn dollar_followed_by_digit_is_currency() {
    assert!(extract_formulas_impl("$5").is_empty());
    assert!(extract_formulas_impl("$5$").is_empty());
    assert!(extract_formulas_impl("costs $5 or $6 each").is_empty());
}

#[test]
fn digit_led_span_is_consumed_whole() {
    // The span `$5 and $` is dropped, and the scan resumes after its closing
    // dollar, so `y$` has no opener left.
    assert!(extract_formulas_impl("$5 and $y$").is_empty());
    let out = extract_formulas_impl("$5 and $ then $y$");
    assert_eq!(out.len(), 1);
    check_one(&out[0], "formula-0", "y", "$y$", DelimiterType::InlineDollar, 14);
}

#[test]
fn block_dollar_is_recognized() {
    let out = extract_formulas_impl("$$x$$");
    assert_eq!(out.len(), 1);
    check_one(&out[0], "formula-0", "x", "$$x$$", DelimiterType::BlockDollar, 0);
}

#[test]
fn unterminated_block_dollar_yields_nothing() {
    assert!(extract_formulas_impl("$$x$").is_empty());
    assert!(extract_formulas_impl("$$").is_empty());
    assert!(extract_formulas_impl("$$x").is_empty());
}

#[test]
fn unterminated_block_dollar_is_consumed_pairwise() {
    // `$$` without a closer is taken as an empty inline span and dropped;
    // the scan resumes behind the pair.
    let out = extract_formulas_impl("$$ a $b$");
    assert_eq!(out.len(), 1);
    check_one(&out[0], "formula-0", "b", "$b$", DelimiterType::InlineDollar, 5);
    assert!(extract_formulas_impl("$$$").is_empty());
    let out = extract_formulas_impl("$$$$");
    assert_eq!(out.len(), 1);
    check_one(&out[0], "formula-0", "", "$$$$", DelimiterType::BlockDollar, 0);
}

#[test]
fn inline_paren_is_recognized() {
    let out = extract_formulas_impl("\\(x\\)");
    assert_eq!(out.len(), 1);
    check_one(&out[0], "formula-0", "x", "\\(x\\)", DelimiterType::InlineParen, 0);
}

#[test]
fn block_bracket_is_recognized() {
    let out = extract_formulas_impl("\\[x\\]");
    assert_eq!(out.len(), 1);
    check_one(&out[0], "formula-0", "x", "\\[x\\]", DelimiterType::BlockBracket, 0);
}

#[test]
fn unmatched_bracket_or_paren_is_an_escape() {
    assert!(extract_formulas_impl("\\[x").is_empty());
    assert!(extract_formulas_impl("\\(x\\]").is_empty());
    // The unmatched opener is skipped as an escaped pair; the rest is scanned.
    let out = extract_formulas_impl("\\[ $a$");
    assert_eq!(out.len(), 1);
    check_one(&out[0], "formula-0", "a", "$a$", DelimiterType::InlineDollar, 3);
}

#[test]
fn bracket_closes_at_first_closer() {
    let out = extract_formulas_impl("\\[a\\] b \\]");
    assert_eq!(out.len(), 1);
    check_one(&out[0], "formula-0", "a", "\\[a\\]", DelimiterType::BlockBracket, 0);
}

#[test]
fn escaped_dollar_opens_nothing() {
    assert!(extract_formulas_impl("\\$x$").is_empty());
    assert!(extract_formulas_impl("price \\$5 and \\$6").is_empty());
    let out = extract_formulas_impl("\\$ $y$");
    assert_eq!(out.len(), 1);
    check_one(&out[0], "formula-0", "y", "$y$", DelimiterType::InlineDollar, 3);
}

#[test]
fn escaped_dollar_does_not_close() {
    let out = extract_formulas_impl("$a\\$b$");
    assert_eq!(out.len(), 1);
    check_one(&out[0], "formula-0", "a\\$b", "$a\\$b$", DelimiterType::InlineDollar, 0);
    assert!(extract_formulas_impl("$a\\$").is_empty());
}

#[test]
fn escaped_backslash_frees_the_dollar() {
    let out = extract_formulas_impl("\\\\$x$");
    assert_eq!(out.len(), 1);
    check_one(&out[0], "formula-0", "x", "$x$", DelimiterType::InlineDollar, 2);
}

#[test]
fn trailing_backslash_is_plain_text() {
    assert!(extract_formulas_impl("abc\\").is_empty());
    let out = extract_formulas_impl("$x$\\");
    assert_eq!(out.len(), 1);
}

#[test]
fn fenced_code_yields_nothing() {
    assert!(extract_formulas_impl("```\n$x$\n```").is_empty());
    assert!(extract_formulas_impl("```\n$$a$$ \\(b\\) \\[c\\]\n```").is_empty());
    assert!(extract_formulas_impl("```\n$x$").is_empty());
}

#[test]
fn formulas_around_fenced_code_are_found() {
    let text = "$a$\n```\n$b$\n```\n$c$";
    let out = extract_formulas_impl(text);
    assert_eq!(out.len(), 2);
    check_one(&out[0], "formula-0", "a", "$a$", DelimiterType::InlineDollar, 0);
    check_one(&out[1], "formula-1", "c", "$c$", DelimiterType::InlineDollar, 16);
    assert_eq!(out[0].line_number, 1);
    assert_eq!(out[1].line_number, 5);
}

#[test]
fn inline_code_yields_nothing() {
    assert!(extract_formulas_impl("`$x$`").is_empty());
    assert!(extract_formulas_impl("`\\(x\\) $$y$$`").is_empty());
    assert!(extract_formulas_impl("`$x$").is_empty());
}

#[test]
fn formulas_around_inline_code_are_found() {
    let out = extract_formulas_impl("$a$ `$b$` $c$");
    assert_eq!(out.len(), 2);
    check_one(&out[0], "formula-0", "a", "$a$", DelimiterType::InlineDollar, 0);
    check_one(&out[1], "formula-1", "c", "$c$", DelimiterType::InlineDollar, 10);
}

#[test]
fn fence_inside_inline_code_is_no_fence() {
    // Inside inline code the first backtick of the run is skipped, the
    // second closes the inline code and the third opens it again.
    let out = extract_formulas_impl("`a```$x$`$y$");
    assert_eq!(out.len(), 1);
    check_one(&out[0], "formula-0", "y", "$y$", DelimiterType::InlineDollar, 9);
}

#[test]
fn fence_closes_only_with_three_backticks() {
    assert!(extract_formulas_impl("``` ` $x$ `` $y$").is_empty());
    let out = extract_formulas_impl("``` ` ```$x$");
    assert_eq!(out.len(), 1);
    check_one(&out[0], "formula-0", "x", "$x$", DelimiterType::InlineDollar, 9);
}

#[test]
fn raw_is_trimmed_and_source_is_not() {
    let out = extract_formulas_impl("$$  a + b \n$$");
    assert_eq!(out.len(), 1);
    check_one(&out[0], "formula-0", "a + b", "$$  a + b \n$$", DelimiterType::BlockDollar, 0);
    let out = extract_formulas_impl("\\( \t x\r\n \\)");
    assert_eq!(out[0].raw, "x");
}

#[test]
fn unicode_whitespace_is_trimmed() {
    let out = extract_formulas_impl("$\u{a0}x\u{3000}\u{2003}$");
    assert_eq!(out.len(), 1);
    assert_eq!(out[0].raw, "x");
    assert_eq!(out[0].raw_with_delimiters, "$\u{a0}x\u{3000}\u{2003}$");
    // A zero-width space is no whitespace and stays.
    let out = extract_formulas_impl("$\u{200b}x $");
    assert_eq!(out[0].raw, "\u{200b}x");
}

#[test]
fn whitespace_only_content_gives_empty_raw() {
    let out = extract_formulas_impl("$ $");
    assert_eq!(out.len(), 1);
    check_one(&out[0], "formula-0", "", "$ $", DelimiterType::InlineDollar, 0);
    assert!(extract_formulas_impl("$$").is_empty());
}

#[test]
fn offsets_count_characters_not_bytes() {
    let text = "é ü 数学 $α+β$ ok";
    let out = extract_formulas_impl(text);
    assert_eq!(out.len(), 1);
    check_one(&out[0], "formula-0", "α+β", "$α+β$", DelimiterType::InlineDollar, 7);
    assert_eq!(out[0].end_offset, 12);
}

#[test]
fn line_numbers_count_preceding_newlines() {
    let text = "line one\n\n$a$ and\n```\n\n$no$\n```\ntext \\[b\n\\] $$c$$\n\n\n\\(d\\)";
    let out = extract_formulas_impl(text);
    assert_eq!(out.len(), 4);
    assert_eq!(out[0].line_number, 3);
    assert_eq!(out[1].line_number, 8);
    assert_eq!(out[2].line_number, 9);
    assert_eq!(out[3].line_number, 12);
    let chars = chars_of(text);
    for f in out.iter() {
        let before = chars[..f.start_offset].iter().filter(|c| **c == '\n').count();
        assert_eq!(f.line_number, before + 1);
    }
}

#[test]
fn ids_count_emitted_formulas_only() {
    let text = "$1$ $a$ \\[ \\(b\\) `$c$` $$d$$ $$ $e$";
    let out = extract_formulas_impl(text);
    let kinds: Vec<DelimiterType> = out.iter().map(|f| f.delimiter_type).collect();
    let raws: Vec<&str> = out.iter().map(|f| f.raw.as_str()).collect();
    let ids: Vec<&str> = out.iter().map(|f| f.id.as_str()).collect();
    assert_eq!(raws, vec!["a", "b", "d", "e"]);
    assert_eq!(ids, vec!["formula-0", "formula-1", "formula-2", "formula-3"]);
    assert_eq!(
        kinds,
        vec![
            DelimiterType::InlineDollar,
            DelimiterType::InlineParen,
            DelimiterType::BlockDollar,
            DelimiterType::InlineDollar,
        ]
    );
}

#[test]
fn ids_use_plain_decimal_numbers() {
    let mut text = String::new();
    for _ in 0..123 {
        text.push_str("$x$ ");
    }
    let out = extract_formulas_impl(&text);
    assert_eq!(out.len(), 123);
    assert_eq!(out[0].id, "formula-0");
    assert_eq!(out[9].id, "formula-9");
    assert_eq!(out[10].id, "formula-10");
    assert_eq!(out[99].id, "formula-99");
    assert_eq!(out[100].id, "formula-100");
    assert_eq!(out[122].id, "formula-122");
    for (n, f) in out.iter().enumerate() {
        assert_eq!(f.id, format!("formula-{}", n));
        assert_eq!(f.start_offset, 4 * n);
    }
}

const FIXTURE: &str = "# Title\n\nInline $a+b$ and \\(c\\) then $5 dollars$.\n\n```rust\nlet s = \"$x$\";\n```\n\nBlock:\n$$\n  \\int_0^1 f\n$$\nand `code $y$` and \\[ z \\] and \\$ w $ q $ and $$ open";

#[test]
fn spans_are_sorted_and_disjoint() {
    let out = extract_formulas_impl(FIXTURE);
    assert!(out.len() >= 4);
    for f in out.iter() {
        assert!(f.start_offset < f.end_offset);
    }
    for pair in out.windows(2) {
        assert!(pair[0].start_offset < pair[1].start_offset);
        assert!(pair[0].end_offset <= pair[1].start_offset);
    }
}

#[test]
fn source_slice_reproduces_raw_with_delimiters() {
    let out = extract_formulas_impl(FIXTURE);
    for f in out.iter() {
        assert_eq!(slice_of(FIXTURE, f.start_offset, f.end_offset), f.raw_with_delimiters);
    }
}

#[test]
fn raw_is_source_without_delimiters_trimmed() {
    let out = extract_formulas_impl(FIXTURE);
    for f in out.iter() {
        let width = match f.delimiter_type {
            DelimiterType::InlineDollar => 1,
            _ => 2,
        };
        let whole = chars_of(&f.raw_with_delimiters);
        let inner: String = whole[width..whole.len() - width].iter().collect();
        assert_eq!(f.raw, inner.trim());
    }
}

#[test]
fn fixture_yields_the_expected_formulas() {
    let out = extract_formulas_impl(FIXTURE);
    let raws: Vec<&str> = out.iter().map(|f| f.raw.as_str()).collect();
    assert_eq!(raws, vec!["a+b", "c", "\\int_0^1 f", "z", "q"]);
    let lines: Vec<usize> = out.iter().map(|f| f.line_number).collect();
    assert_eq!(lines, vec![3, 3, 10, 13, 13]);
    for f in out.iter() {
        assert!(f.is_valid);
        assert!(f.error_message.is_none());
    }
}

#[test]
fn scanning_twice_gives_the_same_result() {
    let first = extract_formulas_impl(FIXTURE);
    let second = extract_formulas_impl(FIXTURE);
    assert_eq!(first.len(), second.len());
    for (a, b) in first.iter().zip(second.iter()) {
        assert_eq!(a.id, b.id);
        assert_eq!(a.raw, b.raw);
        assert_eq!(a.raw_with_delimiters, b.raw_with_delimiters);
        assert_eq!(a.delimiter_type, b.delimiter_type);
        assert_eq!(a.start_offset, b.start_offset);
        assert_eq!(a.end_offset, b.end_offset);
        assert_eq!(a.line_number, b.line_number);
        assert_eq!(a.is_valid, b.is_valid);
        assert_eq!(a.error_message, b.error_message);
    }
}

#[test]
fn owned_entry_point_agrees_with_borrowed() {
    let owned = extract_formulas(FIXTURE.to_string());
    let borrowed = extract_formulas_impl(FIXTURE);
    assert_eq!(owned.len(), borrowed.len());
    for (a, b) in owned.iter().zip(borrowed.iter()) {
        assert_eq!(a.id, b.id);
        assert_eq!(a.raw_with_delimiters, b.raw_with_delimiters);
        assert_eq!(a.start_offset, b.start_offset);
    }
}
