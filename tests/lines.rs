use easymark::{layout, parse, Block, EasyMarkEditor, Item, Line, ListMarker, Style};
use easymark::{link_look, text_look};

fn text(t: &str) -> Item<'_> {
    Item::Text(Style::default(), t)
}

#[test]
fn lines_group_items_until_newline() {
    let items = parse("  - a\n3. b\n\nc");
    assert_eq!(
        layout(&items),
        vec![
            Block::Line(Line { indent: 2, quote_depth: 0, marker: Some(ListMarker::Bullet), items: vec![text("a")] }),
            Block::Line(Line { indent: 0, quote_depth: 0, marker: Some(ListMarker::Number("3")), items: vec![text("b")] }),
            Block::Line(Line { indent: 0, quote_depth: 0, marker: None, items: vec![text("c")] }),
        ]
    );
}

#[test]
fn quote_depth_counts_markers() {
    let items = parse("> > q\n> \n");
    let quoted = Style { quoted: true, ..Default::default() };
    assert_eq!(
        layout(&items),
        vec![
            Block::Line(Line { indent: 0, quote_depth: 2, marker: None, items: vec![Item::Text(quoted, "q")] }),
            Block::Line(Line { indent: 0, quote_depth: 1, marker: None, items: vec![] }),
        ]
    );
}

#[test]
fn separator_ends_line_and_adds_rule() {
    let items = vec![text("a"), Item::Separator, text("b")];
    assert_eq!(
        layout(&items),
        vec![
            Block::Line(Line { indent: 0, quote_depth: 0, marker: None, items: vec![text("a")] }),
            Block::Separator,
            Block::Line(Line { indent: 0, quote_depth: 0, marker: None, items: vec![text("b")] }),
        ]
    );
}

#[test]
fn blank_lines_are_dropped() {
    assert_eq!(layout(&[Item::Newline, Item::Indentation(4), Item::Newline]), vec![]);
    assert_eq!(layout(&[]), vec![]);
}

#[test]
fn look_of_styles() {
    let raised = text_look(&Style { raised: true, ..Default::default() });
    assert!(raised.small && raised.raised && !raised.heading);
    let heading_small = text_look(&Style { heading: true, small: true, ..Default::default() });
    assert!(!heading_small.heading && !heading_small.small);
    let quoted = text_look(&Style { quoted: true, ..Default::default() });
    assert!(quoted.weak);
    let strong_quoted = text_look(&Style { quoted: true, strong: true, ..Default::default() });
    assert!(!strong_quoted.weak && strong_quoted.strong);
    assert!(link_look(&Style::default()).underline);
    assert!(!text_look(&Style::default()).underline);
}

#[test]
fn editor_defaults_and_equality() {
    let a = EasyMarkEditor::default();
    assert!(a.highlight_editor && a.show_rendered);
    assert!(a.code.starts_with("# EasyMark\n"));
    let mut b = EasyMarkEditor::default();
    assert!(a == b);
    b.show_rendered = false;
    assert!(a != b);
}
