//! Properties of the whole token stream, stated over the step model and
//! proved for every input.
use vstd::prelude::*;

use vstd::utf8::{
    encode_scalar, encode_utf8, encode_utf8_first_scalar, encode_utf8_valid_utf8,
    is_char_boundary, is_char_boundary_iff_not_is_continuation_byte, is_continuation_byte,
    length_of_first_scalar, valid_utf8,
};

use crate::ascii::{
    BACKSLASH, BACKTICK, GREATER, LESS, NEWLINE, RIGHT_BRACKET, RIGHT_PAREN,
};
use crate::grammar::{
    advance, after_step, all_items, block_rule, bullet_rule, code_block_rule, code_start, either,
    escape_rule,
    heading_rule, indentation_rule, initial_state, inline_code_rule, inline_rule,
    lemma_block_progresses, lemma_escape_progresses, lemma_inline_progresses, lemma_line_end,
    lemma_step_advances, line_rule, link_rule, marker_rule, next_item, numbered_rule,
    plain_text_step, quote_rule, rule_line_rule, separator_rule, step, toggle_rule, ParseState,
    Step,
};
use crate::item::ItemView;
use crate::scan::{
    char_end, find_fence, find_from, lemma_char_end, lemma_find_fence, lemma_find_from, lemma_find_special,
    lemma_skip_digits, line_end,
};
use crate::style::{is_toggle_byte, toggled, Style};

verus! {

/// The item a step produces, if it produces one.
pub open spec fn emitted(st: ParseState) -> Option<ItemView> {
    match step(st) {
        Step::Emit(i, _) => Some(i),
        _ => None,
    }
}

/// The bytes a step consumes: the front of the input that it drops.
pub open spec fn consumed(st: ParseState) -> Seq<u8> {
    st.rest.subrange(0, st.rest.len() - after_step(st).rest.len())
}

/// One record per step taken from `st` until the input is exhausted: what
/// the step produced, and the bytes it consumed.
pub open spec fn trace(st: ParseState) -> Seq<(Option<ItemView>, Seq<u8>)>
    decreases st.rest.len(),
    via trace_decreases
{
    if st.rest.len() == 0 {
        Seq::empty()
    } else {
        seq![(emitted(st), consumed(st))] + trace(after_step(st))
    }
}

#[via_fn]
proof fn trace_decreases(st: ParseState) {
    lemma_step_advances(st);
}

/// The consumed bytes of every record, joined in order.
pub open spec fn joined(tr: Seq<(Option<ItemView>, Seq<u8>)>) -> Seq<u8>
    decreases tr.len(),
{
    if tr.len() == 0 {
        Seq::empty()
    } else {
        tr[0].1 + joined(tr.drop_first())
    }
}

/// The sum of the numbers of consumed bytes over all records.
pub open spec fn total_consumed(tr: Seq<(Option<ItemView>, Seq<u8>)>) -> nat
    decreases tr.len(),
{
    if tr.len() == 0 {
        0
    } else {
        tr[0].1.len() + total_consumed(tr.drop_first())
    }
}

/// The items produced, in order, leaving out the steps that produced none.
pub open spec fn produced(tr: Seq<(Option<ItemView>, Seq<u8>)>) -> Seq<ItemView>
    decreases tr.len(),
{
    if tr.len() == 0 {
        Seq::empty()
    } else {
        match tr[0].0 {
            Some(i) => seq![i] + produced(tr.drop_first()),
            None => produced(tr.drop_first()),
        }
    }
}

proof fn lemma_trace_covers(st: ParseState)
    ensures
        trace(st).len() <= st.rest.len(),
        all_items(st).len() <= trace(st).len(),
        forall|i: int| 0 <= i < trace(st).len() ==> #[trigger] trace(st)[i].1.len() > 0,
        joined(trace(st)) == st.rest,
        total_consumed(trace(st)) == st.rest.len(),
        produced(trace(st)) == all_items(st),
    decreases st.rest.len(),
{
    lemma_step_advances(st);
    if st.rest.len() == 0 {
        assert(next_item(st).0 is None);
        assert(all_items(st) =~= Seq::<ItemView>::empty());
    } else {
        let s = after_step(st);
        lemma_trace_covers(s);
        let tr = trace(st);
        assert(tr.drop_first() =~= trace(s));
        assert(consumed(st) + s.rest =~= st.rest);
        assert forall|i: int| 0 <= i < tr.len() implies #[trigger] tr[i].1.len() > 0 by {
            if i > 0 {
                assert(tr[i] == trace(s)[i - 1]);
            }
        }
        match step(st) {
            Step::Emit(i, s2) => {
                assert(next_item(st) == (Some(i), s2));
                assert(all_items(st) == seq![i] + all_items(s));
                assert(produced(tr) =~= seq![i] + produced(trace(s)));
            },
            Step::Skip(s2) => {
                assert(next_item(st) == next_item(s2));
                assert(all_items(st) == all_items(s));
            },
            Step::Done => {},
        }
    }
}

/// Tokenizing always ends: the steps taken and the items produced are no
/// more than the bytes of the input; every step consumes at least one byte;
/// the bytes consumed by the steps, joined in order, are the input, so their
/// counts add up to its length; and the items of the steps are exactly the
/// items the tokenizer produces.
pub proof fn lemma_tokenizing_consumes_input(b: Seq<u8>)
    ensures
        trace(initial_state(b)).len() <= b.len(),
        all_items(initial_state(b)).len() <= b.len(),
        forall|i: int|
            0 <= i < trace(initial_state(b)).len() ==> #[trigger] trace(initial_state(b))[i].1.len()
                > 0,
        joined(trace(initial_state(b))) == b,
        total_consumed(trace(initial_state(b))) == b.len(),
        produced(trace(initial_state(b))) == all_items(initial_state(b)),
{
    lemma_trace_covers(initial_state(b));
}

/// Toggling a flag twice gives back the style, and a toggle changes no
/// flag but its own.
pub proof fn lemma_toggled_twice(s: Style, c: u8)
    requires
        is_toggle_byte(c),
    ensures
        toggled(toggled(s, c), c) == s,
        toggled(s, c) != s,
        toggled(s, c).heading == s.heading,
        toggled(s, c).quoted == s.quoted,
        toggled(s, c).code == s.code,
{
}

/// A style toggle twice in a row: each occurrence is consumed without an
/// item, the first flips the flag of that byte alone, and after the second
/// every flag is as it was before the first.
pub proof fn lemma_toggle_twice_in_text(st: ParseState, c: u8)
    requires
        is_toggle_byte(c),
        st.rest.len() >= 2,
        st.rest[0] == c,
        st.rest[1] == c,
    ensures
        step(st) == Step::Skip(advance(st, 1, false, toggled(st.style, c))),
        step(after_step(st)) == Step::Skip(
            ParseState {
                rest: st.rest.subrange(2, st.rest.len() as int),
                start_of_line: false,
                style: st.style,
            },
        ),
{
    let s1 = advance(st, 1, false, toggled(st.style, c));
    assert(step(st) == Step::Skip(s1));
    assert(s1.rest[0] == c);
    assert(s1.rest.subrange(1, s1.rest.len() as int) =~= st.rest.subrange(2, st.rest.len() as int));
    lemma_toggled_twice(st.style, c);
    assert(step(s1) == Step::Skip(advance(s1, 1, false, toggled(s1.style, c))));
}

/// Two back-ticks in a row, where they do not open a code fence, produce an
/// empty text item in code style and leave the style as it was: code style
/// never outlives the span it marks.
pub proof fn lemma_backtick_twice(st: ParseState)
    requires
        st.rest.len() >= 2,
        st.rest[0] == BACKTICK,
        st.rest[1] == BACKTICK,
        !st.start_of_line || st.rest.len() < 3 || st.rest[2] != BACKTICK,
    ensures
        next_item(st) == (
            Some(ItemView::Text(Style { code: true, ..st.style }, Seq::<u8>::empty())),
            advance(st, 2, false, st.style),
        ),
{
    let b = st.rest;
    lemma_line_end(b);
    lemma_find_from(b, BACKTICK, 1, line_end(b));
    assert(find_from(b, BACKTICK, 1, line_end(b)) == 1);
    assert(b.subrange(1, 1) =~= Seq::<u8>::empty());
}

/// The first character-start index from `i` is `j` when every byte in
/// between is a continuation byte and `j` ends the bytes or starts a character.
proof fn lemma_char_end_at(b: Seq<u8>, i: int, j: int)
    requires
        0 <= i <= j <= b.len(),
        forall|k: int| i <= k < j ==> is_continuation_byte(b[k]),
        j == b.len() || !is_continuation_byte(b[j]),
    ensures
        char_end(b, i) == j,
    decreases j - i,
{
    if i < j {
        lemma_char_end_at(b, i + 1, j);
    }
}

/// A backslash and any character other than a newline produce exactly that
/// character as text, in the style in effect, and nothing else.
pub proof fn lemma_escape_yields_char(st: ParseState, x: char, more: Seq<char>)
    requires
        x != '\n',
        st.rest == encode_utf8(seq!['\\', x] + more),
    ensures
        next_item(st) == (
            Some(ItemView::Text(st.style, encode_utf8(seq![x]))),
            ParseState { rest: encode_utf8(more), start_of_line: false, style: st.style },
        ),
{
    broadcast use encode_utf8_valid_utf8, is_char_boundary_iff_not_is_continuation_byte;

    let chars = seq!['\\', x] + more;
    let tail = seq![x] + more;
    assert(chars.drop_first() =~= tail);
    assert(tail.drop_first() =~= more);
    assert(seq![x].drop_first() =~= Seq::<char>::empty());
    let e = encode_scalar(x as u32);
    let rest_bytes = encode_utf8(more);
    let b = st.rest;
    assert(encode_utf8(Seq::<char>::empty()) =~= Seq::<u8>::empty());
    assert(encode_utf8(seq![x]) == e + encode_utf8(seq![x].drop_first()));
    assert(encode_utf8(seq![x]) =~= e);
    assert(encode_utf8(tail) == e + rest_bytes);
    let bs = encode_scalar('\\' as u32);
    assert(('\\' as u32) == 0x5c);
    assert(((0x5cu32 & 0x7f) as u8) == 0x5c) by (bit_vector);
    assert(bs =~= seq![BACKSLASH]);
    assert(b == bs + encode_utf8(tail));
    assert(b =~= seq![BACKSLASH] + e + rest_bytes);
    encode_utf8_first_scalar(tail);
    let l = e.len() as int;
    assert(length_of_first_scalar(encode_utf8(tail)) == l);
    assert(1 <= l <= 4);
    let xv = x as u32;
    assert(xv != 10);
    assert(b[1] == e[0]);
    assert(e[0] != NEWLINE) by {
        if xv <= 0x7f {
            assert(xv <= 0x7f && xv != 10 ==> (xv & 0x7f) as u8 != 10) by (bit_vector);
        } else if xv <= 0x7ff {
            assert(0xC0 | ((xv >> 6) & 0x1F) as u8 != 10) by (bit_vector);
        } else if xv <= 0xffff {
            assert(0xE0 | ((xv >> 12) & 0x0F) as u8 != 10) by (bit_vector);
        } else {
            assert(0xF0 | ((xv >> 18) & 0x7) as u8 != 10) by (bit_vector);
        }
    }
    assert forall|k: int| 2 <= k < 1 + l implies is_continuation_byte(b[k]) by {
        assert(b[k] == encode_utf8(tail)[k - 1]);
    }
    if rest_bytes.len() > 0 {
        assert(valid_utf8(rest_bytes));
        assert(is_char_boundary(rest_bytes, 0));
        assert(b[1 + l] == rest_bytes[0]);
    }
    lemma_char_end_at(b, 2, 1 + l);
    assert(char_end(b, 2) == 1 + l);
    assert(b.subrange(1, 1 + l) =~= e);
    assert(b.subrange(1 + l, b.len() as int) =~= rest_bytes);
    assert(line_rule(st) == Some(
        Step::Emit(ItemView::Text(st.style, e), advance(st, 1 + l, false, st.style)),
    ));
}

/// A back-tick with no closing back-tick on its line produces the rest of
/// the line as one text item in code style; the style in effect afterwards
/// is the one before it.
pub proof fn lemma_unterminated_code_span(st: ParseState)
    requires
        st.rest.len() >= 1,
        st.rest[0] == BACKTICK,
        forall|k: int| 1 <= k < line_end(st.rest) ==> st.rest[k] != BACKTICK,
    ensures
        next_item(st) == (
            Some(
                ItemView::Text(
                    Style { code: true, ..st.style },
                    st.rest.subrange(1, line_end(st.rest)),
                ),
            ),
            advance(st, line_end(st.rest), false, st.style),
        ),
{
    let b = st.rest;
    lemma_line_end(b);
    let le = line_end(b);
    lemma_find_from(b, BACKTICK, 1, le);
    assert(find_from(b, BACKTICK, 1, le) == le);
    if b.len() >= 2 {
        assert(b[1] != BACKTICK);
    }
}

/// The text fields of an item stand in the bytes `c` that its step
/// consumed, in order, with markup bytes around and between them. Items
/// without text fields consist of markup alone.
pub open spec fn laid_out(item: Option<ItemView>, c: Seq<u8>) -> bool {
    match item {
        Some(ItemView::Text(_, t)) => exists|d0: Seq<u8>, d1: Seq<u8>|
            #[trigger] (d0 + t + d1) == c,
        Some(ItemView::NumberedPoint(t)) => exists|d0: Seq<u8>, d1: Seq<u8>|
            #[trigger] (d0 + t + d1) == c,
        Some(ItemView::Hyperlink(_, t, u)) => (t == u && exists|d0: Seq<u8>, d1: Seq<u8>|
            #[trigger] (d0 + u + d1) == c) || exists|d0: Seq<u8>, d1: Seq<u8>, d2: Seq<u8>|
            #[trigger] (d0 + t + d1 + u + d2) == c,
        Some(ItemView::CodeBlock(l, k)) => exists|d0: Seq<u8>, d1: Seq<u8>, d2: Seq<u8>|
            #[trigger] (d0 + l + d1 + k + d2) == c,
        _ => true,
    }
}

/// The outcome of a rule, when it produces an item, is laid out in the
/// bytes it consumes.
spec fn lays_out(st: ParseState, r: Option<Step>) -> bool {
    match r {
        Some(Step::Emit(i, s)) => laid_out(
            Some(i),
            st.rest.subrange(0, st.rest.len() - s.rest.len()),
        ),
        _ => true,
    }
}

proof fn lemma_either_lays_out(st: ParseState, a: Option<Step>, b: Option<Step>)
    requires
        lays_out(st, a),
        lays_out(st, b),
    ensures
        lays_out(st, either(a, b)),
{
}

/// `t` stands in `c` at index `i`, with markup before and after it.
proof fn lemma_one_field(c: Seq<u8>, t: Seq<u8>, i: int)
    requires
        0 <= i,
        i + t.len() <= c.len(),
        c.subrange(i, i + t.len()) == t,
    ensures
        exists|d0: Seq<u8>, d1: Seq<u8>| #[trigger] (d0 + t + d1) == c,
{
    let d0 = c.subrange(0, i);
    let d1 = c.subrange(i + t.len(), c.len() as int);
    assert(d0 + t + d1 =~= c);
}

/// `t` and then `u` stand in `c` at indices `i` and `j`, with markup around
/// and between them.
proof fn lemma_two_fields(c: Seq<u8>, t: Seq<u8>, i: int, u: Seq<u8>, j: int)
    requires
        0 <= i,
        i + t.len() <= j,
        j + u.len() <= c.len(),
        c.subrange(i, i + t.len()) == t,
        c.subrange(j, j + u.len()) == u,
    ensures
        exists|d0: Seq<u8>, d1: Seq<u8>, d2: Seq<u8>| #[trigger] (d0 + t + d1 + u + d2) == c,
{
    let d0 = c.subrange(0, i);
    let d1 = c.subrange(i + t.len(), j);
    let d2 = c.subrange(j + u.len(), c.len() as int);
    assert(d0 + t + d1 + u + d2 =~= c);
}

proof fn lemma_line_rule_lays_out(st: ParseState)
    ensures
        lays_out(st, line_rule(st)),
{
    let b = st.rest;
    let n = b.len() as int;
    lemma_escape_progresses(st);
    if let Some(Step::Emit(ItemView::Text(_, t), s)) = escape_rule(st) {
        lemma_char_end(b, 2);
        let c = b.subrange(0, n - s.rest.len());
        assert(c.subrange(1, 1 + t.len() as int) =~= t);
        lemma_one_field(c, t, 1);
    }
}

proof fn lemma_block_rule_lays_out(st: ParseState)
    ensures
        lays_out(st, block_rule(st)),
{
    let b = st.rest;
    let n = b.len() as int;
    lemma_block_progresses(st);
    if let Some(Step::Emit(ItemView::NumberedPoint(t), s)) = numbered_rule(st) {
        lemma_skip_digits(b, 0);
        let c = b.subrange(0, n - s.rest.len());
        assert(c.subrange(0, t.len() as int) =~= t);
        lemma_one_field(c, t, 0);
    }
    assert(lays_out(st, numbered_rule(st)));
    if let Some(Step::Emit(ItemView::CodeBlock(l, code), s)) = code_block_rule(st) {
        lemma_find_from(b, NEWLINE, 3, n);
        let nl = find_from(b, NEWLINE, 3, n);
        lemma_find_fence(b, nl + 1);
        let fence = find_fence(b, nl + 1);
        let start = if fence < n { code_start(b, nl + 1, fence) } else { nl + 1 };
        let c = b.subrange(0, n - s.rest.len());
        assert(c.subrange(3, 3 + l.len() as int) =~= l);
        assert(c.subrange(start, start + code.len() as int) =~= code);
        lemma_two_fields(c, l, 3, code, start);
    }
    assert(lays_out(st, code_block_rule(st)));
    assert(lays_out(st, indentation_rule(st)));
    assert(lays_out(st, heading_rule(st)));
    assert(lays_out(st, quote_rule(st)));
    assert(lays_out(st, bullet_rule(st)));
    assert(lays_out(st, separator_rule(st)));
    lemma_either_lays_out(st, separator_rule(st), code_block_rule(st));
    lemma_either_lays_out(st, bullet_rule(st), numbered_rule(st));
    lemma_either_lays_out(st, quote_rule(st), either(bullet_rule(st), numbered_rule(st)));
    lemma_either_lays_out(st, marker_rule(st), rule_line_rule(st));
    lemma_either_lays_out(st, heading_rule(st), either(marker_rule(st), rule_line_rule(st)));
    lemma_either_lays_out(
        st,
        indentation_rule(st),
        either(heading_rule(st), either(marker_rule(st), rule_line_rule(st))),
    );
}

proof fn lemma_inline_rule_lays_out(st: ParseState)
    ensures
        lays_out(st, inline_rule(st)),
        st.rest.len() > 0 ==> lays_out(st, Some(plain_text_step(st))),
{
    let b = st.rest;
    let n = b.len() as int;
    lemma_inline_progresses(st);
    lemma_line_end(b);
    let le = line_end(b);
    if le >= 1 {
        lemma_find_from(b, BACKTICK, 1, le);
        lemma_find_from(b, GREATER, 1, le);
        lemma_find_from(b, RIGHT_BRACKET, 1, le);
        let rb = find_from(b, RIGHT_BRACKET, 1, le);
        if rb + 2 <= le {
            lemma_find_from(b, RIGHT_PAREN, rb + 2, le);
        }
    }
    if let Some(Step::Emit(ItemView::Text(_, t), s)) = inline_code_rule(st) {
        let c = b.subrange(0, n - s.rest.len());
        assert(c.subrange(1, 1 + t.len() as int) =~= t);
        lemma_one_field(c, t, 1);
    }
    assert(lays_out(st, inline_code_rule(st)));
    if let Some(Step::Emit(ItemView::Hyperlink(_, t, u), s)) = link_rule(st) {
        let c = b.subrange(0, n - s.rest.len());
        if b[0] == LESS {
            assert(c.subrange(1, 1 + u.len() as int) =~= u);
            lemma_one_field(c, u, 1);
        } else {
            let rb = find_from(b, RIGHT_BRACKET, 1, le);
            assert(c.subrange(1, 1 + t.len() as int) =~= t);
            assert(c.subrange(rb + 2, rb + 2 + u.len() as int) =~= u);
            lemma_two_fields(c, t, 1, u, rb + 2);
        }
    }
    assert(lays_out(st, link_rule(st)));
    assert(lays_out(st, toggle_rule(st)));
    lemma_either_lays_out(st, toggle_rule(st), link_rule(st));
    lemma_either_lays_out(st, inline_code_rule(st), either(toggle_rule(st), link_rule(st)));
    if n > 0 {
        lemma_find_special(b, 0);
        if let Step::Emit(ItemView::Text(_, t), s) = plain_text_step(st) {
            let c = b.subrange(0, n - s.rest.len());
            assert(c.subrange(0, t.len() as int) =~= t);
            lemma_one_field(c, t, 0);
        }
    }
}

proof fn lemma_step_laid_out(st: ParseState)
    requires
        st.rest.len() > 0,
    ensures
        laid_out(emitted(st), consumed(st)),
{
    lemma_step_advances(st);
    lemma_line_rule_lays_out(st);
    lemma_block_rule_lays_out(st);
    lemma_inline_rule_lays_out(st);
    lemma_either_lays_out(st, block_rule(st), inline_rule(st));
    lemma_either_lays_out(st, line_rule(st), either(block_rule(st), inline_rule(st)));
}

proof fn lemma_trace_laid_out(st: ParseState)
    ensures
        forall|i: int|
            0 <= i < trace(st).len() ==> laid_out(#[trigger] trace(st)[i].0, trace(st)[i].1),
    decreases st.rest.len(),
{
    lemma_step_advances(st);
    if st.rest.len() > 0 {
        let s = after_step(st);
        lemma_trace_laid_out(s);
        lemma_step_laid_out(st);
        let tr = trace(st);
        assert forall|i: int| 0 <= i < tr.len() implies laid_out(#[trigger] tr[i].0, tr[i].1) by {
            if i > 0 {
                assert(tr[i] == trace(s)[i - 1]);
            }
        }
    }
}

/// The input is rebuilt exactly from the steps: the bytes each step consumed,
/// joined in order, are the input, and within each step the text fields of
/// the item it produced (text, link title and url, digits, code-block language
/// and code) appear in order, with only markup around and between them.
pub proof fn lemma_round_trip(b: Seq<u8>)
    ensures
        joined(trace(initial_state(b))) == b,
        forall|i: int|
            0 <= i < trace(initial_state(b)).len() ==> laid_out(
                #[trigger] trace(initial_state(b))[i].0,
                trace(initial_state(b))[i].1,
            ),
{
    lemma_trace_covers(initial_state(b));
    lemma_trace_laid_out(initial_state(b));
}

} // verus!
