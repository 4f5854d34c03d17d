//! Forward scans over the bytes of the remaining input.
//!
//! Each scan is a recursive spec function that names the index where the
//! scan stops, next to the loop that computes it.
use vstd::prelude::*;
use vstd::utf8::is_continuation_byte;

use crate::style::is_toggle_byte;
use crate::ascii::{
    BACKSLASH, BACKTICK, CARET, DIGIT_NINE, DIGIT_ZERO, DOLLAR, LEFT_BRACKET, LESS, NEWLINE,
    SLASH, STAR, TILDE, UNDERSCORE,
};

verus! {

/// The first index in `i..end` that holds `c`, or `end` when none does.
pub open spec fn find_from(b: Seq<u8>, c: u8, i: int, end: int) -> int
    decreases end - i,
{
    if i >= end {
        end
    } else if b[i] == c {
        i
    } else {
        find_from(b, c, i + 1, end)
    }
}

/// The first index from `i` on that does not hold `c`, or the length of `b`.
pub open spec fn skip_byte(b: Seq<u8>, c: u8, i: int) -> int
    decreases b.len() - i,
{
    if i >= b.len() {
        b.len() as int
    } else if b[i] != c {
        i
    } else {
        skip_byte(b, c, i + 1)
    }
}

/// An ASCII digit.
pub open spec fn is_digit(c: u8) -> bool {
    DIGIT_ZERO <= c <= DIGIT_NINE
}

/// The first index from `i` on that does not hold an ASCII digit, or the length of `b`.
pub open spec fn skip_digits(b: Seq<u8>, i: int) -> int
    decreases b.len() - i,
{
    if i >= b.len() {
        b.len() as int
    } else if !is_digit(b[i]) {
        i
    } else {
        skip_digits(b, i + 1)
    }
}

/// The ASCII bytes that are white space: tab, line feed, vertical tab, form
/// feed, carriage return and space.
pub open spec fn is_ascii_white_space(c: u8) -> bool {
    0x09 <= c <= 0x0d || c == 0x20
}

/// The first index from `i` on that does not hold ASCII white space, or the
/// length of `b`.
pub open spec fn skip_ascii_white_space(b: Seq<u8>, i: int) -> int
    decreases b.len() - i,
{
    if i >= b.len() {
        b.len() as int
    } else if !is_ascii_white_space(b[i]) {
        i
    } else {
        skip_ascii_white_space(b, i + 1)
    }
}

/// The first index from `i` on that starts a character (a byte that is not a
/// UTF-8 continuation byte), or the length of `b`.
pub open spec fn char_end(b: Seq<u8>, i: int) -> int
    decreases b.len() - i,
{
    if i >= b.len() {
        b.len() as int
    } else if !is_continuation_byte(b[i]) {
        i
    } else {
        char_end(b, i + 1)
    }
}

/// A byte that may start markup in running text: `` * ` ~ _ / $ ^ \ < [ `` or a newline.
pub open spec fn is_special(c: u8) -> bool {
    c == STAR || c == BACKTICK || c == TILDE || c == UNDERSCORE || c == SLASH || c == DOLLAR
        || c == CARET || c == BACKSLASH || c == LESS || c == LEFT_BRACKET || c == NEWLINE
}

/// The first index from `i` on that holds a special byte, or the length of `b`.
pub open spec fn find_special(b: Seq<u8>, i: int) -> int
    decreases b.len() - i,
{
    if i >= b.len() {
        b.len() as int
    } else if is_special(b[i]) {
        i
    } else {
        find_special(b, i + 1)
    }
}

/// Index `i` of `b` holds one of the style toggles `* _ ~ / $ ^`.
pub open spec fn is_toggle_byte_at(b: Seq<u8>, i: int) -> bool {
    0 <= i < b.len() && is_toggle_byte(b[i])
}

/// A closing fence, a newline followed by three back-ticks, starts at `i`.
pub open spec fn fence_at(b: Seq<u8>, i: int) -> bool {
    0 <= i && i + 4 <= b.len() && b[i] == NEWLINE && b[i + 1] == BACKTICK && b[i + 2] == BACKTICK
        && b[i + 3] == BACKTICK
}

/// The first index from `i` on where a closing fence starts, or the length of `b`.
pub open spec fn find_fence(b: Seq<u8>, i: int) -> int
    decreases b.len() - i,
{
    if i + 4 > b.len() {
        b.len() as int
    } else if fence_at(b, i) {
        i
    } else {
        find_fence(b, i + 1)
    }
}

/// The end of the current line: the index of the first newline, or the length of `b`.
pub open spec fn line_end(b: Seq<u8>) -> int {
    find_from(b, NEWLINE, 0, b.len() as int)
}

pub proof fn lemma_find_from(b: Seq<u8>, c: u8, i: int, end: int)
    requires
        0 <= i <= end <= b.len(),
    ensures
        i <= find_from(b, c, i, end) <= end,
        find_from(b, c, i, end) < end ==> b[find_from(b, c, i, end)] == c,
        forall|k: int| i <= k < find_from(b, c, i, end) ==> b[k] != c,
    decreases end - i,
{
    if i < end && b[i] != c {
        lemma_find_from(b, c, i + 1, end);
    }
}

pub proof fn lemma_skip_byte(b: Seq<u8>, c: u8, i: int)
    requires
        0 <= i <= b.len(),
    ensures
        i <= skip_byte(b, c, i) <= b.len(),
        skip_byte(b, c, i) < b.len() ==> b[skip_byte(b, c, i)] != c,
        forall|k: int| i <= k < skip_byte(b, c, i) ==> b[k] == c,
    decreases b.len() - i,
{
    if i < b.len() && b[i] == c {
        lemma_skip_byte(b, c, i + 1);
    }
}

pub proof fn lemma_skip_digits(b: Seq<u8>, i: int)
    requires
        0 <= i <= b.len(),
    ensures
        i <= skip_digits(b, i) <= b.len(),
        skip_digits(b, i) < b.len() ==> !is_digit(b[skip_digits(b, i)]),
        forall|k: int| i <= k < skip_digits(b, i) ==> is_digit(b[k]),
    decreases b.len() - i,
{
    if i < b.len() && is_digit(b[i]) {
        lemma_skip_digits(b, i + 1);
    }
}

pub proof fn lemma_skip_ascii_white_space(b: Seq<u8>, i: int)
    requires
        0 <= i <= b.len(),
    ensures
        i <= skip_ascii_white_space(b, i) <= b.len(),
        skip_ascii_white_space(b, i) < b.len() ==> !is_ascii_white_space(
            b[skip_ascii_white_space(b, i)],
        ),
        forall|k: int| i <= k < skip_ascii_white_space(b, i) ==> is_ascii_white_space(b[k]),
    decreases b.len() - i,
{
    if i < b.len() && is_ascii_white_space(b[i]) {
        lemma_skip_ascii_white_space(b, i + 1);
    }
}

pub proof fn lemma_char_end(b: Seq<u8>, i: int)
    requires
        0 <= i <= b.len(),
    ensures
        i <= char_end(b, i) <= b.len(),
        char_end(b, i) < b.len() ==> !is_continuation_byte(b[char_end(b, i)]),
        forall|k: int| i <= k < char_end(b, i) ==> is_continuation_byte(b[k]),
    decreases b.len() - i,
{
    if i < b.len() && is_continuation_byte(b[i]) {
        lemma_char_end(b, i + 1);
    }
}

pub proof fn lemma_find_special(b: Seq<u8>, i: int)
    requires
        0 <= i <= b.len(),
    ensures
        i <= find_special(b, i) <= b.len(),
        find_special(b, i) < b.len() ==> is_special(b[find_special(b, i)]),
        forall|k: int| i <= k < find_special(b, i) ==> !is_special(b[k]),
    decreases b.len() - i,
{
    if i < b.len() && !is_special(b[i]) {
        lemma_find_special(b, i + 1);
    }
}

pub proof fn lemma_find_fence(b: Seq<u8>, i: int)
    requires
        0 <= i <= b.len(),
    ensures
        i <= find_fence(b, i) <= b.len(),
        find_fence(b, i) < b.len() ==> fence_at(b, find_fence(b, i)),
        forall|k: int| i <= k < find_fence(b, i) ==> !fence_at(b, k),
    decreases b.len() - i,
{
    if i + 4 <= b.len() && !fence_at(b, i) {
        lemma_find_fence(b, i + 1);
    }
}

/// Index of the first `c` in `b[i..end]`, or `end`.
pub(crate) fn find_byte(b: &[u8], c: u8, i: usize, end: usize) -> (r: usize)
    requires
        i <= end <= b@.len(),
    ensures
        r == find_from(b@, c, i as int, end as int),
{
    let mut k = i;
    while k < end
        invariant
            i <= k <= end <= b@.len(),
            find_from(b@, c, i as int, end as int) == find_from(b@, c, k as int, end as int),
        decreases end - k,
    {
        if b[k] == c {
            return k;
        }
        k = k + 1;
    }
    k
}

/// Index of the first byte from `i` on that is not `c`, or the length of `b`.
pub(crate) fn skip_run(b: &[u8], c: u8, i: usize) -> (r: usize)
    requires
        i <= b@.len(),
    ensures
        r == skip_byte(b@, c, i as int),
{
    let mut k = i;
    while k < b.len()
        invariant
            i <= k <= b@.len(),
            skip_byte(b@, c, i as int) == skip_byte(b@, c, k as int),
        decreases b@.len() - k,
    {
        if b[k] != c {
            return k;
        }
        k = k + 1;
    }
    k
}

/// Index of the first byte from `i` on that is not an ASCII digit, or the length of `b`.
pub(crate) fn skip_digit_run(b: &[u8], i: usize) -> (r: usize)
    requires
        i <= b@.len(),
    ensures
        r == skip_digits(b@, i as int),
{
    let mut k = i;
    while k < b.len()
        invariant
            i <= k <= b@.len(),
            skip_digits(b@, i as int) == skip_digits(b@, k as int),
        decreases b@.len() - k,
    {
        if b[k] < DIGIT_ZERO || b[k] > DIGIT_NINE {
            return k;
        }
        k = k + 1;
    }
    k
}

/// Index of the first byte from `i` on that is not ASCII white space, or the
/// length of `b`.
pub(crate) fn skip_white_run(b: &[u8], i: usize) -> (r: usize)
    requires
        i <= b@.len(),
    ensures
        r == skip_ascii_white_space(b@, i as int),
{
    let mut k = i;
    while k < b.len()
        invariant
            i <= k <= b@.len(),
            skip_ascii_white_space(b@, i as int) == skip_ascii_white_space(b@, k as int),
        decreases b@.len() - k,
    {
        if !((0x09 <= b[k] && b[k] <= 0x0d) || b[k] == 0x20) {
            return k;
        }
        k = k + 1;
    }
    k
}

/// Index of the first byte from `i` on that starts a character, or the length of `b`.
pub(crate) fn next_char_start(b: &[u8], i: usize) -> (r: usize)
    requires
        i <= b@.len(),
    ensures
        r == char_end(b@, i as int),
{
    let mut k = i;
    while k < b.len()
        invariant
            i <= k <= b@.len(),
            char_end(b@, i as int) == char_end(b@, k as int),
        decreases b@.len() - k,
    {
        if b[k] < 0x80 || b[k] > 0xbf {
            return k;
        }
        k = k + 1;
    }
    k
}

/// Index of the first special byte from `i` on, or the length of `b`.
pub(crate) fn next_special(b: &[u8], i: usize) -> (r: usize)
    requires
        i <= b@.len(),
    ensures
        r == find_special(b@, i as int),
{
    let mut k = i;
    while k < b.len()
        invariant
            i <= k <= b@.len(),
            find_special(b@, i as int) == find_special(b@, k as int),
        decreases b@.len() - k,
    {
        let c = b[k];
        if c == STAR || c == BACKTICK || c == TILDE || c == UNDERSCORE || c == SLASH || c == DOLLAR
            || c == CARET || c == BACKSLASH || c == LESS || c == LEFT_BRACKET || c == NEWLINE {
            return k;
        }
        k = k + 1;
    }
    k
}

/// Index of the first closing fence from `i` on, or the length of `b`.
pub(crate) fn next_fence(b: &[u8], i: usize) -> (r: usize)
    requires
        i <= b@.len(),
    ensures
        r == find_fence(b@, i as int),
{
    let mut k = i;
    while b.len() - k >= 4
        invariant
            i <= k <= b@.len(),
            find_fence(b@, i as int) == find_fence(b@, k as int),
        decreases b@.len() - k,
    {
        if b[k] == NEWLINE && b[k + 1] == BACKTICK && b[k + 2] == BACKTICK && b[k + 3] == BACKTICK {
            return k;
        }
        k = k + 1;
    }
    b.len()
}

} // verus!
