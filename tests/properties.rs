use easymark::{parse, Item, Style};

fn offset(input: &str, part: &str) -> usize {
    part.as_ptr() as usize - input.as_ptr() as usize
}

fn fields<'a>(item: &Item<'a>) -> Vec<&'a str> {
    match *item {
        Item::Text(_, t) => vec![t],
        Item::Hyperlink(_, t, u) => vec![t, u],
        Item::NumberedPoint(d) => vec![d],
        Item::CodeBlock(l, c) => vec![l, c],
        _ => vec![],
    }
}

const SAMPLE: &str = "# Title\n  - *a* _b_ [l](u) <v>\n12. `c` x\\*y\n> > q\n---\n```rs\nfn f() {}\n```\n\\\né $z^ [open";

#[test]
fn tokenizing_ends_within_input_length() {
    let items = parse(SAMPLE);
    assert!(!items.is_empty());
    assert!(items.len() <= SAMPLE.len());
}

#[test]
fn fields_are_in_order_inside_the_input() {
    let items = parse(SAMPLE);
    let mut last_end = 0;
    for item in &items {
        for f in fields(item) {
            let at = offset(SAMPLE, f);
            assert!(at + f.len() <= SAMPLE.len());
            assert_eq!(&SAMPLE[at..at + f.len()], f);
            if let Item::Hyperlink(_, t, u) = item {
                if t.as_ptr() == u.as_ptr() {
                    continue;
                }
            }
            assert!(at >= last_end);
            last_end = at + f.len();
        }
    }
}

#[test]
fn markup_between_fields_is_what_was_dropped() {
    let input = "a*b*\\_c`d`";
    let items = parse(input);
    let kept: String = items.iter().flat_map(fields).collect();
    assert_eq!(kept, "ab_cd");
}

#[test]
fn toggles_twice_leave_style_unchanged() {
    for c in ['*', '_', '~', '/', '$', '^'] {
        let input = format!("{c}{c}x");
        assert_eq!(parse(&input), vec![Item::Text(Style::default(), "x")]);
    }
}

#[test]
fn toggle_twice_keeps_other_flags() {
    assert_eq!(
        parse("*~~x"),
        vec![Item::Text(Style { strong: true, ..Default::default() }, "x")]
    );
}

#[test]
fn escape_of_multibyte_character() {
    let strong = Style { strong: true, ..Default::default() };
    assert_eq!(parse("*\\日本"), vec![Item::Text(strong, "日"), Item::Text(strong, "本")]);
    assert_eq!(parse("\\`x`"), vec![Item::Text(Style::default(), "`"), Item::Text(Style::default(), "x"), Item::Text(Style { code: true, ..Default::default() }, "")]);
}

#[test]
fn unterminated_code_span_covers_rest_of_line() {
    let code = Style { code: true, strikethrough: true, ..Default::default() };
    assert_eq!(
        parse("~`a *b*\nc"),
        vec![
            Item::Text(code, "a *b*"),
            Item::Newline,
            Item::Text(Style::default(), "c"),
        ]
    );
}

#[test]
fn two_backticks_give_empty_code_and_keep_style() {
    let italics = Style { italics: true, ..Default::default() };
    assert_eq!(
        parse("/a``b"),
        vec![
            Item::Text(italics, "a"),
            Item::Text(Style { code: true, ..italics }, ""),
            Item::Text(italics, "b"),
        ]
    );
}
