//! Grouping items into display lines.
//!
//! A line gathers the text, link and code-block items up to a newline or a
//! separator, together with the indentation, quote depth and list marker
//! seen on it. Lines with nothing to show are dropped.
use vstd::prelude::*;
use vstd::string::StringSliceAdditionalSpecFns;

use crate::item::{item_views, Item, ItemView};

verus! {

/// The marker in front of a list entry.
#[derive(Clone, Copy, Debug, PartialEq, Eq)]
pub enum ListMarker<'a> {
    /// `- `
    Bullet,
    /// `1. `: the digits as written.
    Number(&'a str),
}

/// One display line.
#[derive(Debug, PartialEq, Eq)]
pub struct Line<'a> {
    /// Leading spaces.
    pub indent: usize,
    /// Levels of quoting.
    pub quote_depth: usize,
    /// The list marker, if the line is a list entry.
    pub marker: Option<ListMarker<'a>>,
    /// The text, link and code-block items, in order.
    pub items: Vec<Item<'a>>,
}

/// What a renderer draws, top to bottom.
#[derive(Debug, PartialEq, Eq)]
pub enum Block<'a> {
    Line(Line<'a>),
    /// A horizontal rule.
    Separator,
}

/// The model of a [`ListMarker`].
pub enum MarkerView {
    Bullet,
    Number(Seq<u8>),
}

/// The model of a [`Line`].
pub struct LineView {
    pub indent: nat,
    pub quote_depth: nat,
    pub marker: Option<MarkerView>,
    pub items: Seq<ItemView>,
}

/// The model of a [`Block`].
pub enum BlockView {
    Line(LineView),
    Separator,
}

impl<'a> View for ListMarker<'a> {
    type V = MarkerView;

    open spec fn view(&self) -> MarkerView {
        match *self {
            ListMarker::Bullet => MarkerView::Bullet,
            ListMarker::Number(d) => MarkerView::Number(d.spec_bytes()),
        }
    }
}

impl<'a> View for Line<'a> {
    type V = LineView;

    open spec fn view(&self) -> LineView {
        LineView {
            indent: self.indent as nat,
            quote_depth: self.quote_depth as nat,
            marker: match self.marker {
                Some(m) => Some(m@),
                None => None,
            },
            items: item_views(self.items@),
        }
    }
}

impl<'a> View for Block<'a> {
    type V = BlockView;

    open spec fn view(&self) -> BlockView {
        match self {
            Block::Line(l) => BlockView::Line(l@),
            Block::Separator => BlockView::Separator,
        }
    }
}

/// The models of a sequence of blocks.
pub open spec fn block_views<'a>(s: Seq<Block<'a>>) -> Seq<BlockView> {
    s.map_values(|b: Block<'a>| b@)
}

/// A line with no indentation, quoting, marker or items.
pub open spec fn blank_line() -> LineView {
    LineView { indent: 0, quote_depth: 0, marker: None, items: Seq::empty() }
}

/// A line is shown when it has items, a list marker or quoting.
pub open spec fn shown(l: LineView) -> bool {
    l.items.len() > 0 || l.marker is Some || l.quote_depth > 0
}

/// The blocks that ending line `l` adds: the line itself, if it is shown.
pub open spec fn flush(l: LineView) -> Seq<BlockView> {
    if shown(l) {
        seq![BlockView::Line(l)]
    } else {
        Seq::empty()
    }
}

/// The line after `item`, and the blocks `item` completes.
pub open spec fn feed(l: LineView, item: ItemView) -> (LineView, Seq<BlockView>) {
    match item {
        ItemView::Indentation(n) => (LineView { indent: n, ..l }, Seq::empty()),
        ItemView::QuoteIndent => (LineView { quote_depth: l.quote_depth + 1, ..l }, Seq::empty()),
        ItemView::BulletPoint => (LineView { marker: Some(MarkerView::Bullet), ..l }, Seq::empty()),
        ItemView::NumberedPoint(d) => (
            LineView { marker: Some(MarkerView::Number(d)), ..l },
            Seq::empty(),
        ),
        ItemView::Newline => (blank_line(), flush(l)),
        ItemView::Separator => (blank_line(), flush(l).push(BlockView::Separator)),
        _ => (LineView { items: l.items.push(item), ..l }, Seq::empty()),
    }
}

/// The blocks made from `items`, starting on line `l`; the last line is
/// ended by the end of the items.
pub open spec fn blocks_from(l: LineView, items: Seq<ItemView>) -> Seq<BlockView>
    decreases items.len(),
{
    if items.len() == 0 {
        flush(l)
    } else {
        feed(l, items[0]).1 + blocks_from(feed(l, items[0]).0, items.drop_first())
    }
}

/// Appends `line` to `out` when it is shown.
fn push_line<'a>(out: &mut Vec<Block<'a>>, line: Line<'a>)
    ensures
        block_views(final(out)@) == block_views(old(out)@) + flush(line@),
{
    if line.items.len() > 0 || line.marker.is_some() || line.quote_depth > 0 {
        let ghost v = line@;
        out.push(Block::Line(line));
        assert(block_views(final(out)@) =~= block_views(old(out)@) + flush(v));
    } else {
        assert(block_views(old(out)@) + flush(line@) =~= block_views(old(out)@));
    }
}

/// Groups `items` into display blocks: each newline ends a line, each
/// separator ends a line and adds a rule, and only shown lines are kept.
pub fn layout<'a>(items: &[Item<'a>]) -> (r: Vec<Block<'a>>)
    ensures
        block_views(r@) == blocks_from(blank_line(), item_views(items@)),
{
    let ghost all = item_views(items@);
    let mut out: Vec<Block<'a>> = Vec::new();
    let mut line = Line { indent: 0, quote_depth: 0, marker: None, items: Vec::new() };
    assert(line@ == blank_line()) by {
        assert(item_views(line.items@) =~= Seq::<ItemView>::empty());
    }
    let mut i: usize = 0;
    assert(block_views(out@) =~= Seq::<BlockView>::empty());
    assert(all.subrange(0, all.len() as int) =~= all);
    while i < items.len()
        invariant
            i <= items@.len(),
            all == item_views(items@),
            line.quote_depth <= i,
            block_views(out@) + blocks_from(line@, all.subrange(i as int, all.len() as int))
                == blocks_from(blank_line(), all),
        decreases items@.len() - i,
    {
        let item = items[i];
        let ghost before = line@;
        let ghost out_before = block_views(out@);
        let ghost rest = all.subrange(i as int, all.len() as int);
        assert(rest[0] == item@);
        assert(rest.drop_first() =~= all.subrange(i + 1, all.len() as int));
        let ghost next = feed(before, item@);
        match item {
            Item::Indentation(n) => {
                line.indent = n;
            },
            Item::QuoteIndent => {
                line.quote_depth = line.quote_depth + 1;
            },
            Item::BulletPoint => {
                line.marker = Some(ListMarker::Bullet);
            },
            Item::NumberedPoint(d) => {
                line.marker = Some(ListMarker::Number(d));
            },
            Item::Newline => {
                let done = line;
                line = Line { indent: 0, quote_depth: 0, marker: None, items: Vec::new() };
                push_line(&mut out, done);
                assert(item_views(line.items@) =~= Seq::<ItemView>::empty());
            },
            Item::Separator => {
                let done = line;
                line = Line { indent: 0, quote_depth: 0, marker: None, items: Vec::new() };
                push_line(&mut out, done);
                let ghost mid = out@;
                out.push(Block::Separator);
                assert(block_views(out@) =~= block_views(mid).push(BlockView::Separator));
                assert(item_views(line.items@) =~= Seq::<ItemView>::empty());
                assert(block_views(out@) =~= out_before + flush(before).push(BlockView::Separator));
            },
            _ => {
                let ghost old_items = line.items@;
                line.items.push(item);
                assert(item_views(line.items@) =~= item_views(old_items).push(item@));
            },
        }
        assert(line@ == next.0);
        assert(block_views(out@) == out_before + next.1);
        assert(block_views(out@) + blocks_from(line@, rest.drop_first()) =~= out_before
            + blocks_from(before, rest));
        i = i + 1;
    }
    push_line(&mut out, line);
    assert(all.subrange(i as int, all.len() as int) =~= Seq::<ItemView>::empty());
    out
}

} // verus!
