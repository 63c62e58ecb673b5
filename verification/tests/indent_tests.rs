use synthesizer_core::IndentStyle;

#[test]
fn two_spaces_level_zero_is_empty() {
    assert_eq!(IndentStyle::two_spaces().prefix(0), "");
}

#[test]
fn two_spaces_level_one_is_two_spaces() {
    assert_eq!(IndentStyle::two_spaces().prefix(1), "  ");
}

#[test]
fn two_spaces_level_three_is_six_spaces() {
    assert_eq!(IndentStyle::two_spaces().prefix(3), "      ");
}

#[test]
fn four_spaces_level_two_is_eight_spaces() {
    assert_eq!(IndentStyle::four_spaces().prefix(2), "        ");
}

#[test]
fn tab_level_zero_is_empty() {
    assert_eq!(IndentStyle::tab().prefix(0), "");
}

#[test]
fn tab_level_one_is_one_tab() {
    assert_eq!(IndentStyle::tab().prefix(1), "\t");
}

#[test]
fn tab_level_four_is_four_tabs() {
    assert_eq!(IndentStyle::tab().prefix(4), "\t\t\t\t");
}

#[test]
fn unit_equals_prefix_one() {
    assert_eq!(IndentStyle::two_spaces().unit(), IndentStyle::two_spaces().prefix(1));
    assert_eq!(IndentStyle::four_spaces().unit(), IndentStyle::four_spaces().prefix(1));
    assert_eq!(IndentStyle::tab().unit(), IndentStyle::tab().prefix(1));
}

#[test]
fn indent_line_combines_prefix_and_body() {
    let style = IndentStyle::two_spaces();
    assert_eq!(style.indent_line("hello", 2), "    hello");
}

#[test]
fn indent_block_per_line() {
    let style = IndentStyle::two_spaces();
    let body = "line1\nline2\nline3";
    let out = style.indent_block(body, 1);
    assert_eq!(out, "  line1\n  line2\n  line3");
}

#[test]
fn indent_block_preserves_empty_lines_without_whitespace() {
    let style = IndentStyle::two_spaces();
    let body = "line1\n\nline3";
    let out = style.indent_block(body, 1);
    assert_eq!(out, "  line1\n\n  line3");
}

#[test]
fn indent_block_single_line() {
    let style = IndentStyle::four_spaces();
    assert_eq!(style.indent_block("solo", 1), "    solo");
}

#[test]
fn indent_block_empty_input_is_empty() {
    let style = IndentStyle::tab();
    assert_eq!(style.indent_block("", 5), "");
}

#[test]
fn custom_spaces_count_works() {
    let style = IndentStyle::Spaces(3);
    assert_eq!(style.prefix(2), "      "); // 3 * 2 = 6 spaces
}

#[test]
fn zero_space_style_emits_empty_prefix() {
    let style = IndentStyle::Spaces(0);
    assert_eq!(style.prefix(5), "");
}

#[test]
fn two_spaces_prefix_len_is_twice_level() {
    for n in [0usize, 1, 7, 49] {
        assert_eq!(IndentStyle::two_spaces().prefix(n).len(), 2 * n);
    }
}

#[test]
fn tab_prefix_len_is_level() {
    for n in [0usize, 1, 7, 49] {
        assert_eq!(IndentStyle::tab().prefix(n).len(), n);
    }
}

#[test]
fn indent_line_starts_with_prefix_and_ends_with_body() {
    let style = IndentStyle::two_spaces();
    for level in [0usize, 1, 9] {
        let out = style.indent_line("abc", level);
        assert!(out.starts_with(&style.prefix(level)));
        assert!(out.ends_with("abc"));
    }
}

#[test]
fn indent_line_zero_level_is_line() {
    assert_eq!(IndentStyle::tab().indent_line("x y", 0), "x y");
}

#[test]
fn indent_block_trailing_newline_adds_no_line() {
    let style = IndentStyle::two_spaces();
    assert_eq!(style.indent_block("a\nb\n", 1), "  a\n  b");
}

#[test]
fn indent_block_crlf_line_endings_are_removed() {
    let style = IndentStyle::two_spaces();
    assert_eq!(style.indent_block("a\r\nb\r\n", 1), "  a\n  b");
}

#[test]
fn indent_block_lone_carriage_return_is_kept_at_end() {
    let style = IndentStyle::two_spaces();
    assert_eq!(style.indent_block("a\nb\r", 1), "  a\n  b\r");
}

#[test]
fn indent_block_only_newline_is_one_empty_line() {
    let style = IndentStyle::four_spaces();
    assert_eq!(style.indent_block("\n", 3), "");
    assert_eq!(style.indent_block("\n\n", 3), "\n");
}

#[test]
fn indent_block_with_tabs_at_level_two() {
    let style = IndentStyle::tab();
    assert_eq!(style.indent_block("fn x() {\n\treturn\n}", 2), "\t\tfn x() {\n\t\t\treturn\n\t\t}");
}

#[test]
fn indent_block_keeps_non_ascii_text() {
    let style = IndentStyle::Spaces(1);
    assert_eq!(style.indent_block("héllo\nwörld", 2), "  héllo\n  wörld");
}

#[test]
fn indent_block_level_zero_is_lines_rejoined() {
    let style = IndentStyle::two_spaces();
    assert_eq!(style.indent_block("a\r\n\nb\n", 0), "a\n\nb");
}

#[test]
fn nested_indent_block_adds_levels() {
    let style = IndentStyle::two_spaces();
    let body = "a\n\nb c\nd";
    let once = style.indent_block(body, 1);
    assert_eq!(style.indent_block(&once, 2), style.indent_block(body, 3));
    assert_eq!(style.indent_block(body, 3), "      a\n\n      b c\n      d");
}

#[test]
fn one_final_newline_adds_no_line() {
    let style = IndentStyle::tab();
    assert_eq!(style.indent_block("x\ny\n", 1), style.indent_block("x\ny", 1));
    assert_eq!(style.indent_block("\n", 1), style.indent_block("", 1));
}
