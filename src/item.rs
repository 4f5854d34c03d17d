//! The items the tokenizer produces, and their mathematical model.
use vstd::prelude::*;
use vstd::string::StringSliceAdditionalSpecFns;

use crate::style::Style;

verus! {

/// One unit of tokenized markup. Text fields borrow from the input.
#[derive(Clone, Copy, Debug, PartialEq, Eq)]
pub enum Item<'a> {
    /// `\n`: the end of a logical line.
    Newline,
    /// A run of text under one style.
    Text(Style, &'a str),
    /// Title and url; both are the same text for `<url>`.
    Hyperlink(Style, &'a str, &'a str),
    /// The number of spaces at the start of a line.
    Indentation(usize),
    /// `> `: one level of quoting.
    QuoteIndent,
    /// `- `: an unordered list marker.
    BulletPoint,
    /// `1. `: an ordered list marker; the text holds the digits as written.
    NumberedPoint(&'a str),
    /// `---`: a horizontal rule.
    Separator,
    /// A fenced block: language and code.
    CodeBlock(&'a str, &'a str),
}

/// The model of an [`Item`]: every text field is the UTF-8 bytes it spans.
pub enum ItemView {
    Newline,
    Text(Style, Seq<u8>),
    Hyperlink(Style, Seq<u8>, Seq<u8>),
    Indentation(nat),
    QuoteIndent,
    BulletPoint,
    NumberedPoint(Seq<u8>),
    Separator,
    CodeBlock(Seq<u8>, Seq<u8>),
}

impl<'a> View for Item<'a> {
    type V = ItemView;

    open spec fn view(&self) -> ItemView {
        match *self {
            Item::Newline => ItemView::Newline,
            Item::Text(s, t) => ItemView::Text(s, t.spec_bytes()),
            Item::Hyperlink(s, t, u) => ItemView::Hyperlink(s, t.spec_bytes(), u.spec_bytes()),
            Item::Indentation(n) => ItemView::Indentation(n as nat),
            Item::QuoteIndent => ItemView::QuoteIndent,
            Item::BulletPoint => ItemView::BulletPoint,
            Item::NumberedPoint(d) => ItemView::NumberedPoint(d.spec_bytes()),
            Item::Separator => ItemView::Separator,
            Item::CodeBlock(l, c) => ItemView::CodeBlock(l.spec_bytes(), c.spec_bytes()),
        }
    }
}

/// The model of an optional item.
pub open spec fn option_view(r: Option<Item>) -> Option<ItemView> {
    match r {
        Some(i) => Some(i@),
        None => None,
    }
}

/// The models of a sequence of items.
pub open spec fn item_views<'a>(s: Seq<Item<'a>>) -> Seq<ItemView> {
    s.map_values(|i: Item<'a>| i@)
}

} // verus!
