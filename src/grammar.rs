//! The tokenizer as a state machine over the bytes of the remaining input.
//!
//! [`step`] applies the first rule that matches at the cursor. A step either
//! ends the input, consumes markup without producing an item (a style toggle,
//! a heading marker, an escaped newline), or produces one item. [`next_item`]
//! takes steps until an item comes out or the input ends.
use vstd::prelude::*;

use crate::ascii::{
    BACKSLASH, BACKTICK, DOT, GREATER, HASH, HYPHEN, LEFT_BRACKET, LEFT_PAREN, LESS, NEWLINE,
    RIGHT_BRACKET, RIGHT_PAREN, SPACE, TAB,
};
use crate::item::ItemView;
use crate::scan::{
    char_end, find_fence, find_from, find_special, is_toggle_byte_at, lemma_char_end,
    lemma_find_fence, lemma_find_from, lemma_find_special, lemma_skip_ascii_white_space,
    lemma_skip_byte, lemma_skip_digits,
    line_end, skip_ascii_white_space, skip_byte, skip_digits,
};
use crate::style::{plain_style, toggled, Style};
use crate::text::white_space_prefix_len;

verus! {

/// What the tokenizer carries from one step to the next.
pub struct ParseState {
    /// The bytes not consumed yet.
    pub rest: Seq<u8>,
    /// No line content has been consumed since the last newline.
    pub start_of_line: bool,
    /// The style toggled on so far in this line.
    pub style: Style,
}

/// The outcome of one step.
pub enum Step {
    /// The input is exhausted.
    Done,
    /// Markup was consumed and no item produced.
    Skip(ParseState),
    /// One item was produced.
    Emit(ItemView, ParseState),
}

/// The state after consuming the first `k` bytes of `st.rest`.
pub open spec fn advance(st: ParseState, k: int, start_of_line: bool, style: Style) -> ParseState {
    ParseState { rest: st.rest.subrange(k, st.rest.len() as int), start_of_line, style }
}

/// A rule's outcome: item `i` and then state `s`.
pub open spec fn emit(i: ItemView, s: ParseState) -> Option<Step> {
    Some(Step::Emit(i, s))
}

/// Byte `i` of `b` is `c`.
pub open spec fn at(b: Seq<u8>, i: int, c: u8) -> bool {
    0 <= i < b.len() && b[i] == c
}

/// A newline produces [`ItemView::Newline`] and resets the style.
pub open spec fn newline_rule(st: ParseState) -> Option<Step> {
    if at(st.rest, 0, NEWLINE) {
        emit(ItemView::Newline, advance(st, 1, true, plain_style()))
    } else {
        None
    }
}

/// A backslash before a newline joins the two lines; before any other
/// character it produces that character as text.
pub open spec fn escape_rule(st: ParseState) -> Option<Step> {
    let b = st.rest;
    if b.len() >= 2 && b[0] == BACKSLASH {
        if b[1] == NEWLINE {
            Some(Step::Skip(advance(st, 2, st.start_of_line, st.style)))
        } else {
            let e = char_end(b, 2);
            emit(ItemView::Text(st.style, b.subrange(1, e)), advance(st, e, false, st.style))
        }
    } else {
        None
    }
}

/// Leading spaces produce [`ItemView::Indentation`] with their count.
pub open spec fn indentation_rule(st: ParseState) -> Option<Step> {
    let b = st.rest;
    if at(b, 0, SPACE) {
        let k = skip_byte(b, SPACE, 0);
        emit(ItemView::Indentation(k as nat), advance(st, k, true, st.style))
    } else {
        None
    }
}

/// The number of white-space bytes a heading marker consumes after its `#`:
/// the leading white space of the rest of the line, and never more than
/// that rest. A heading marker never consumes the newline that ends it.
///
/// A run of ASCII white space is counted here; where the run ends at a
/// non-ASCII character, the white space from there on is what
/// `str::trim_start` drops.
pub open spec fn heading_gap(b: Seq<u8>) -> int {
    let tail = b.subrange(1, line_end(b));
    let run = skip_ascii_white_space(tail, 0);
    if run < tail.len() && tail[run] >= 0x80 {
        let more = tail.subrange(run, tail.len() as int);
        if white_space_prefix_len(more) <= more.len() {
            run + white_space_prefix_len(more)
        } else {
            tail.len() as int
        }
    } else {
        run
    }
}

/// `#` and a space or tab turn the heading style on.
pub open spec fn heading_rule(st: ParseState) -> Option<Step> {
    let b = st.rest;
    if at(b, 0, HASH) && (at(b, 1, SPACE) || at(b, 1, TAB)) {
        let heading_style = Style { heading: true, ..st.style };
        Some(Step::Skip(advance(st, 1 + heading_gap(b), false, heading_style)))
    } else {
        None
    }
}

/// `> ` produces [`ItemView::QuoteIndent`] and turns the quoted style on.
pub open spec fn quote_rule(st: ParseState) -> Option<Step> {
    if at(st.rest, 0, GREATER) && at(st.rest, 1, SPACE) {
        emit(ItemView::QuoteIndent, advance(st, 2, true, Style { quoted: true, ..st.style }))
    } else {
        None
    }
}

/// `- ` produces [`ItemView::BulletPoint`].
pub open spec fn bullet_rule(st: ParseState) -> Option<Step> {
    if at(st.rest, 0, HYPHEN) && at(st.rest, 1, SPACE) {
        emit(ItemView::BulletPoint, advance(st, 2, false, st.style))
    } else {
        None
    }
}

/// Digits followed by `. ` produce [`ItemView::NumberedPoint`] with the digits.
pub open spec fn numbered_rule(st: ParseState) -> Option<Step> {
    let b = st.rest;
    let d = skip_digits(b, 0);
    if d > 0 && d + 2 <= b.len() && b[d] == DOT && b[d + 1] == SPACE {
        emit(ItemView::NumberedPoint(b.subrange(0, d)), advance(st, d + 2, false, st.style))
    } else {
        None
    }
}

/// Three or more hyphens, and one newline after them if there is one,
/// produce [`ItemView::Separator`].
pub open spec fn separator_rule(st: ParseState) -> Option<Step> {
    let b = st.rest;
    if at(b, 0, HYPHEN) && at(b, 1, HYPHEN) && at(b, 2, HYPHEN) {
        let h = skip_byte(b, HYPHEN, 0);
        let e = if h < b.len() && b[h] == NEWLINE { h + 1 } else { h };
        emit(ItemView::Separator, advance(st, e, false, st.style))
    } else {
        None
    }
}

/// The start of the code in the body `b[i..t]` of a closed fence: one
/// newline that opens the body is trimmed.
pub open spec fn code_start(b: Seq<u8>, i: int, t: int) -> int {
    if i < t && b[i] == NEWLINE {
        i + 1
    } else {
        i
    }
}

/// The end of the code in `b[i..t]`, where `i` is [`code_start`]: one
/// newline that closes the body is trimmed.
pub open spec fn code_end(b: Seq<u8>, i: int, t: int) -> int {
    if i < t && b[t - 1] == NEWLINE {
        t - 1
    } else {
        t
    }
}

/// Three back-ticks, a language tag up to the end of that line, and code up to
/// a newline followed by three back-ticks (or the end of the input) produce
/// [`ItemView::CodeBlock`]. The code of a closed block is trimmed of one
/// leading and one trailing newline; inside, it is kept as written. Without a
/// newline after the tag the rule does not apply.
pub open spec fn code_block_rule(st: ParseState) -> Option<Step> {
    let b = st.rest;
    if at(b, 0, BACKTICK) && at(b, 1, BACKTICK) && at(b, 2, BACKTICK) {
        let nl = find_from(b, NEWLINE, 3, b.len() as int);
        if nl < b.len() {
            let language = b.subrange(3, nl);
            let t = find_fence(b, nl + 1);
            if t < b.len() {
                let start = code_start(b, nl + 1, t);
                let code = b.subrange(start, code_end(b, start, t));
                emit(ItemView::CodeBlock(language, code), advance(st, t + 4, false, st.style))
            } else {
                let n = b.len() as int;
                let code = b.subrange(nl + 1, n);
                emit(ItemView::CodeBlock(language, code), advance(st, n, false, st.style))
            }
        } else {
            None
        }
    } else {
        None
    }
}

/// The quote and list markers: `> `, `- `, then numbered points.
pub open spec fn marker_rule(st: ParseState) -> Option<Step> {
    either(quote_rule(st), either(bullet_rule(st), numbered_rule(st)))
}

/// The rules for lines of their own: `---`, then code fences.
pub open spec fn rule_line_rule(st: ParseState) -> Option<Step> {
    either(separator_rule(st), code_block_rule(st))
}

/// The first block rule that applies; block rules apply only at the start
/// of a line: indentation, a heading marker, the quote and list markers,
/// then separators and code fences.
pub open spec fn block_rule(st: ParseState) -> Option<Step> {
    if !st.start_of_line {
        None
    } else {
        either(
            indentation_rule(st),
            either(heading_rule(st), either(marker_rule(st), rule_line_rule(st))),
        )
    }
}

/// A back-tick produces the text up to the next back-tick on the same line,
/// or up to the end of the line, in code style.
pub open spec fn inline_code_rule(st: ParseState) -> Option<Step> {
    let b = st.rest;
    if at(b, 0, BACKTICK) {
        let le = line_end(b);
        let close = find_from(b, BACKTICK, 1, le);
        let code_style = Style { code: true, ..st.style };
        if close < le {
            let code = b.subrange(1, close);
            emit(ItemView::Text(code_style, code), advance(st, close + 1, false, st.style))
        } else {
            emit(ItemView::Text(code_style, b.subrange(1, le)), advance(st, le, false, st.style))
        }
    } else {
        None
    }
}

/// One of `* _ ~ / $ ^` flips its style flag.
pub open spec fn toggle_rule(st: ParseState) -> Option<Step> {
    if is_toggle_byte_at(st.rest, 0) {
        Some(Step::Skip(advance(st, 1, false, toggled(st.style, st.rest[0]))))
    } else {
        None
    }
}

/// `<url>` or `[title](url)`, closed on the same line, produce [`ItemView::Hyperlink`].
pub open spec fn link_rule(st: ParseState) -> Option<Step> {
    let b = st.rest;
    let le = line_end(b);
    if at(b, 0, LESS) {
        let gt = find_from(b, GREATER, 1, le);
        if gt < le {
            let url = b.subrange(1, gt);
            emit(ItemView::Hyperlink(st.style, url, url), advance(st, gt + 1, false, st.style))
        } else {
            None
        }
    } else if at(b, 0, LEFT_BRACKET) {
        let rb = find_from(b, RIGHT_BRACKET, 1, le);
        if rb + 1 < le && b[rb + 1] == LEFT_PAREN {
            let rp = find_from(b, RIGHT_PAREN, rb + 2, le);
            if rp < le {
                let title = b.subrange(1, rb);
                let url = b.subrange(rb + 2, rp);
                let link = ItemView::Hyperlink(st.style, title, url);
                emit(link, advance(st, rp + 1, false, st.style))
            } else {
                None
            }
        } else {
            None
        }
    } else {
        None
    }
}

/// The text up to the next special byte; a special byte that no rule took
/// is produced as text on its own.
pub open spec fn plain_text_step(st: ParseState) -> Step {
    let b = st.rest;
    let e = find_special(b, 0);
    let k = if e == 0 { 1 } else { e };
    Step::Emit(ItemView::Text(st.style, b.subrange(0, k)), advance(st, k, false, st.style))
}

/// `a` if it holds a step, else `b`.
pub open spec fn either(a: Option<Step>, b: Option<Step>) -> Option<Step> {
    if a is Some {
        a
    } else {
        b
    }
}

/// The rules tried before any other: a newline, then an escape.
pub open spec fn line_rule(st: ParseState) -> Option<Step> {
    either(newline_rule(st), escape_rule(st))
}

/// The rules tried anywhere in a line after the block rules: inline code,
/// style toggles, then links.
pub open spec fn inline_rule(st: ParseState) -> Option<Step> {
    either(inline_code_rule(st), either(toggle_rule(st), link_rule(st)))
}

/// One step of the tokenizer: the first rule that applies at the cursor.
pub open spec fn step(st: ParseState) -> Step {
    if st.rest.len() == 0 {
        Step::Done
    } else {
        match either(line_rule(st), either(block_rule(st), inline_rule(st))) {
            Some(s) => s,
            None => plain_text_step(st),
        }
    }
}

/// The state a step leaves behind; `st` itself once the input is exhausted.
pub open spec fn after_step(st: ParseState) -> ParseState {
    match step(st) {
        Step::Done => st,
        Step::Skip(s) => s,
        Step::Emit(_, s) => s,
    }
}

/// The line-end scan stops within the input, on a newline or at the end.
pub proof fn lemma_line_end(b: Seq<u8>)
    ensures
        0 <= line_end(b) <= b.len(),
        line_end(b) < b.len() ==> b[line_end(b)] == NEWLINE,
        forall|k: int| 0 <= k < line_end(b) ==> b[k] != NEWLINE,
{
    lemma_find_from(b, NEWLINE, 0, b.len() as int);
}

/// A rule's outcome, when it has one, consumes at least one byte from the
/// front of the input.
pub open spec fn progresses(st: ParseState, r: Option<Step>) -> bool {
    match r {
        None => true,
        Some(Step::Done) => false,
        Some(Step::Skip(s)) => s.rest.len() < st.rest.len() && s.rest == st.rest.subrange(
            st.rest.len() - s.rest.len(),
            st.rest.len() as int,
        ),
        Some(Step::Emit(_, s)) => s.rest.len() < st.rest.len() && s.rest == st.rest.subrange(
            st.rest.len() - s.rest.len(),
            st.rest.len() as int,
        ),
    }
}

proof fn lemma_either_progresses(st: ParseState, a: Option<Step>, b: Option<Step>)
    requires
        progresses(st, a),
        progresses(st, b),
    ensures
        progresses(st, either(a, b)),
{
}

pub(crate) proof fn lemma_escape_progresses(st: ParseState)
    ensures
        progresses(st, escape_rule(st)),
{
    if st.rest.len() >= 2 {
        lemma_char_end(st.rest, 2);
    }
}

pub(crate) proof fn lemma_block_progresses(st: ParseState)
    ensures
        progresses(st, block_rule(st)),
{
    let b = st.rest;
    let n = b.len() as int;
    lemma_line_end(b);
    lemma_skip_byte(b, SPACE, 0);
    lemma_skip_byte(b, HYPHEN, 0);
    lemma_skip_ascii_white_space(b.subrange(1, line_end(b)), 0);
    lemma_skip_digits(b, 0);
    assert(progresses(st, indentation_rule(st)));
    assert(progresses(st, heading_rule(st)));
    assert(progresses(st, quote_rule(st)));
    assert(progresses(st, bullet_rule(st)));
    assert(progresses(st, numbered_rule(st)));
    assert(progresses(st, separator_rule(st)));
    if n >= 3 {
        lemma_find_from(b, NEWLINE, 3, n);
        let nl = find_from(b, NEWLINE, 3, n);
        if nl < n {
            lemma_find_fence(b, nl + 1);
        }
    }
    assert(progresses(st, code_block_rule(st)));
    lemma_either_progresses(st, separator_rule(st), code_block_rule(st));
    lemma_either_progresses(st, bullet_rule(st), numbered_rule(st));
    lemma_either_progresses(st, quote_rule(st), either(bullet_rule(st), numbered_rule(st)));
    lemma_either_progresses(st, marker_rule(st), rule_line_rule(st));
    lemma_either_progresses(st, heading_rule(st), either(marker_rule(st), rule_line_rule(st)));
    lemma_either_progresses(
        st,
        indentation_rule(st),
        either(heading_rule(st), either(marker_rule(st), rule_line_rule(st))),
    );
}

pub(crate) proof fn lemma_inline_progresses(st: ParseState)
    ensures
        progresses(st, inline_code_rule(st)),
        progresses(st, toggle_rule(st)),
        progresses(st, link_rule(st)),
        st.rest.len() > 0 ==> progresses(st, Some(plain_text_step(st))),
{
    let b = st.rest;
    lemma_line_end(b);
    let le = line_end(b);
    lemma_find_special(b, 0);
    if le >= 1 {
        lemma_find_from(b, BACKTICK, 1, le);
        lemma_find_from(b, GREATER, 1, le);
        lemma_find_from(b, RIGHT_BRACKET, 1, le);
        let rb = find_from(b, RIGHT_BRACKET, 1, le);
        if rb + 2 <= le {
            lemma_find_from(b, RIGHT_PAREN, rb + 2, le);
        }
    }
}

/// Every step on non-empty input consumes at least one byte from the front,
/// and none on empty input.
pub proof fn lemma_step_advances(st: ParseState)
    ensures
        st.rest.len() == 0 <==> step(st) is Done,
        st.rest.len() > 0 ==> after_step(st).rest.len() < st.rest.len(),
        after_step(st).rest.len() <= st.rest.len(),
        after_step(st).rest == st.rest.subrange(
            st.rest.len() - after_step(st).rest.len(),
            st.rest.len() as int,
        ),
{
    let b = st.rest;
    let n = b.len() as int;
    if n == 0 {
        assert(b.subrange(0, 0) =~= b);
        return;
    }
    lemma_escape_progresses(st);
    lemma_block_progresses(st);
    lemma_inline_progresses(st);
    assert(progresses(st, newline_rule(st)));
    lemma_either_progresses(st, newline_rule(st), escape_rule(st));
    lemma_either_progresses(st, toggle_rule(st), link_rule(st));
    lemma_either_progresses(st, inline_code_rule(st), either(toggle_rule(st), link_rule(st)));
    lemma_either_progresses(st, block_rule(st), inline_rule(st));
    lemma_either_progresses(st, line_rule(st), either(block_rule(st), inline_rule(st)));
}

/// Steps until one produces an item: that item and the state after it, or
/// no item and the exhausted state.
pub open spec fn next_item(st: ParseState) -> (Option<ItemView>, ParseState)
    decreases st.rest.len(),
    via next_item_decreases
{
    match step(st) {
        Step::Done => (None, st),
        Step::Emit(i, s) => (Some(i), s),
        Step::Skip(s) => next_item(s),
    }
}

#[via_fn]
proof fn next_item_decreases(st: ParseState) {
    lemma_step_advances(st);
}

/// `next_item` consumes a suffix-preserving prefix of the input: at least one
/// byte when it produces an item, and all of it when it does not.
pub proof fn lemma_next_item_advances(st: ParseState)
    ensures
        next_item(st).1.rest.len() <= st.rest.len(),
        next_item(st).1.rest == st.rest.subrange(
            st.rest.len() - next_item(st).1.rest.len(),
            st.rest.len() as int,
        ),
        next_item(st).0 is Some ==> next_item(st).1.rest.len() < st.rest.len(),
        next_item(st).0 is None ==> next_item(st).1.rest.len() == 0,
    decreases st.rest.len(),
{
    lemma_step_advances(st);
    if let Step::Skip(s) = step(st) {
        lemma_next_item_advances(s);
        let n = st.rest.len() as int;
        let r = next_item(s).1.rest.len() as int;
        assert(next_item(st).1.rest =~= st.rest.subrange(n - r, n));
    }
}

/// All items the tokenizer produces from state `st`, in order.
pub open spec fn all_items(st: ParseState) -> Seq<ItemView>
    decreases st.rest.len(),
    via all_items_decreases
{
    match next_item(st).0 {
        None => Seq::empty(),
        Some(i) => seq![i] + all_items(next_item(st).1),
    }
}

#[via_fn]
proof fn all_items_decreases(st: ParseState) {
    lemma_next_item_advances(st);
}

/// The state in which tokenizing input `b` begins.
pub open spec fn initial_state(b: Seq<u8>) -> ParseState {
    ParseState { rest: b, start_of_line: true, style: plain_style() }
}

} // verus!
