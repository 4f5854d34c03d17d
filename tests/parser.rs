use easymark::{parse, Item, Parser, Style};

fn styled(f: impl Fn(&mut Style)) -> Style {
    let mut s = Style::default();
    f(&mut s);
    s
}

#[test]
fn test_easy_mark_parser() {
    let items: Vec<_> = Parser::new("~strikethrough `code`~").into_items();
    assert_eq!(
        items,
        vec![
            Item::Text(
                Style {
                    strikethrough: true,
                    ..Default::default()
                },
                "strikethrough "
            ),
            Item::Text(
                Style {
                    code: true,
                    strikethrough: true,
                    ..Default::default()
                },
                "code"
            ),
        ]
    );
}

#[test]
fn strong_text() {
    assert_eq!(parse("*bold*"), vec![Item::Text(styled(|s| s.strong = true), "bold")]);
}

#[test]
fn heading_line() {
    assert_eq!(
        parse("# Title\n"),
        vec![Item::Text(styled(|s| s.heading = true), "Title"), Item::Newline]
    );
}

#[test]
fn heading_gap_of_tabs_and_spaces() {
    assert_eq!(
        parse("#\t  Title"),
        vec![Item::Text(styled(|s| s.heading = true), "Title")]
    );
}

#[test]
fn empty_heading_stops_at_line_end() {
    assert_eq!(parse("#  \nx"), vec![Item::Newline, Item::Text(Style::default(), "x")]);
}

#[test]
fn hash_without_space_is_text() {
    assert_eq!(parse("#tag"), vec![Item::Text(Style::default(), "#tag")]);
}

#[test]
fn bullet_item() {
    assert_eq!(
        parse("- item\n"),
        vec![Item::BulletPoint, Item::Text(Style::default(), "item"), Item::Newline]
    );
}

#[test]
fn numbered_items() {
    assert_eq!(
        parse("1. first\n2. second\n"),
        vec![
            Item::NumberedPoint("1"),
            Item::Text(Style::default(), "first"),
            Item::Newline,
            Item::NumberedPoint("2"),
            Item::Text(Style::default(), "second"),
            Item::Newline,
        ]
    );
}

#[test]
fn numbered_keeps_digits_verbatim() {
    assert_eq!(
        parse("007. x"),
        vec![Item::NumberedPoint("007"), Item::Text(Style::default(), "x")]
    );
}

#[test]
fn separator_swallows_newline() {
    assert_eq!(parse("---\n"), vec![Item::Separator]);
    assert_eq!(parse("-----"), vec![Item::Separator]);
}

#[test]
fn indentation_and_quotes() {
    assert_eq!(
        parse("  > > q"),
        vec![
            Item::Indentation(2),
            Item::QuoteIndent,
            Item::QuoteIndent,
            Item::Text(styled(|s| s.quoted = true), "q"),
        ]
    );
}

#[test]
fn style_resets_at_newline() {
    assert_eq!(
        parse("*a\nb"),
        vec![
            Item::Text(styled(|s| s.strong = true), "a"),
            Item::Newline,
            Item::Text(Style::default(), "b"),
        ]
    );
}

#[test]
fn every_toggle_flag() {
    let all = styled(|s| {
        s.strong = true;
        s.underline = true;
        s.strikethrough = true;
        s.italics = true;
        s.small = true;
        s.raised = true;
    });
    assert_eq!(parse("*_~/$^x"), vec![Item::Text(all, "x")]);
}

#[test]
fn toggle_twice_restores_style() {
    assert_eq!(
        parse("_a__b"),
        vec![
            Item::Text(styled(|s| s.underline = true), "a"),
            Item::Text(styled(|s| s.underline = true), "b"),
        ]
    );
    assert_eq!(parse("**x"), vec![Item::Text(Style::default(), "x")]);
}

#[test]
fn escape_yields_character() {
    assert_eq!(parse("\\*"), vec![Item::Text(Style::default(), "*")]);
    assert_eq!(
        parse("/\\é"),
        vec![Item::Text(styled(|s| s.italics = true), "é")]
    );
}

#[test]
fn escaped_newline_joins_lines() {
    assert_eq!(
        parse("a\\\nb"),
        vec![Item::Text(Style::default(), "a"), Item::Text(Style::default(), "b")]
    );
}

#[test]
fn escaped_newline_keeps_start_of_line() {
    assert_eq!(parse("\\\n- x"), vec![Item::BulletPoint, Item::Text(Style::default(), "x")]);
}

#[test]
fn trailing_backslash_is_text() {
    assert_eq!(parse("\\"), vec![Item::Text(Style::default(), "\\")]);
}

#[test]
fn unterminated_inline_code() {
    assert_eq!(
        parse("`abc"),
        vec![Item::Text(styled(|s| s.code = true), "abc")]
    );
    assert_eq!(
        parse("`abc\nd"),
        vec![
            Item::Text(styled(|s| s.code = true), "abc"),
            Item::Newline,
            Item::Text(Style::default(), "d"),
        ]
    );
}

#[test]
fn links() {
    assert_eq!(
        parse("<http://a.b>"),
        vec![Item::Hyperlink(Style::default(), "http://a.b", "http://a.b")]
    );
    assert_eq!(
        parse("[egui](http://e.g)"),
        vec![Item::Hyperlink(Style::default(), "egui", "http://e.g")]
    );
}

#[test]
fn unmatched_brackets_are_text() {
    assert_eq!(
        parse("[abc"),
        vec![Item::Text(Style::default(), "["), Item::Text(Style::default(), "abc")]
    );
    assert_eq!(
        parse("a < b\n>"),
        vec![
            Item::Text(Style::default(), "a "),
            Item::Text(Style::default(), "<"),
            Item::Text(Style::default(), " b"),
            Item::Newline,
            Item::Text(Style::default(), ">"),
        ]
    );
}

#[test]
fn code_block_fenced() {
    assert_eq!(
        parse("```rust\nfn main() {}\n```\nx"),
        vec![
            Item::CodeBlock("rust", "fn main() {}"),
            Item::Newline,
            Item::Text(Style::default(), "x"),
        ]
    );
}

#[test]
fn code_block_unterminated() {
    assert_eq!(parse("```\nabc\n"), vec![Item::CodeBlock("", "abc\n")]);
}

#[test]
fn empty_input() {
    assert_eq!(parse(""), vec![]);
    let mut p = Parser::new("");
    assert_eq!(p.next(), None);
}

#[test]
fn next_pulls_one_item_at_a_time() {
    let mut p = Parser::new("a*b");
    assert_eq!(p.next(), Some(Item::Text(Style::default(), "a")));
    assert_eq!(p.next(), Some(Item::Text(styled(|s| s.strong = true), "b")));
    assert_eq!(p.next(), None);
}

#[test]
fn code_block_trims_one_newline_each_side() {
    assert_eq!(parse("```\n\nx\n\n```"), vec![Item::CodeBlock("", "x")]);
    assert_eq!(parse("```\n\n\nx\n\n\n```"), vec![Item::CodeBlock("", "\nx\n")]);
    assert_eq!(parse("```\n\n  a\n\n  b\n\n```"), vec![Item::CodeBlock("", "  a\n\n  b")]);
}

#[test]
fn heading_gap_with_ideographic_space() {
    assert_eq!(
        parse("# \u{3000} Title\n"),
        vec![Item::Text(styled(|s| s.heading = true), "Title"), Item::Newline]
    );
}
