//! Cutting the input at character starts, and the one outside scan the
//! tokenizer relies on: leading white space.
use vstd::prelude::*;
use vstd::string::StringSliceAdditionalSpecFns;
use vstd::utf8::{
    encode_utf8_valid_utf8, is_char_boundary, is_char_boundary_iff_not_is_continuation_byte,
    is_char_boundary_start_end_of_seq, is_continuation_byte, length_of_first_scalar,
    pop_first_scalar, valid_utf8, valid_utf8_split,
};

verus! {

/// Index `i` of `b` starts a character, or is the end of `b`.
pub open spec fn starts_char(b: Seq<u8>, i: int) -> bool {
    0 <= i <= b.len() && (i == b.len() || !is_continuation_byte(b[i]))
}

/// In UTF-8 text, an index that starts a character is a character boundary.
pub proof fn lemma_starts_char_is_boundary(b: Seq<u8>, i: int)
    requires
        valid_utf8(b),
        starts_char(b, i),
    ensures
        is_char_boundary(b, i),
{
    broadcast use is_char_boundary_start_end_of_seq, is_char_boundary_iff_not_is_continuation_byte;

    if i < b.len() {
        assert(is_char_boundary(b, i) <==> !is_continuation_byte(b[i]));
    } else {
        assert(is_char_boundary(b, b.len() as int));
    }
}

/// In UTF-8 text, a character starts right after an ASCII byte.
pub proof fn lemma_after_ascii(b: Seq<u8>, i: int)
    requires
        valid_utf8(b),
        0 <= i < b.len(),
        b[i] < 0x80,
    ensures
        starts_char(b, i + 1),
{
    broadcast use is_char_boundary_iff_not_is_continuation_byte;

    let n = b.len() as int;
    if i + 1 < n {
        lemma_starts_char_is_boundary(b, i);
        valid_utf8_split(b, i);
        let c = b.subrange(i, n);
        assert(valid_utf8(c));
        assert(length_of_first_scalar(c) == 1);
        let p = pop_first_scalar(c);
        assert(valid_utf8(p));
        assert(is_char_boundary(p, 0));
        assert(p[0] == b[i + 1]);
    }
}

/// In UTF-8 text, the start, the end, an ASCII byte and the byte after an
/// ASCII byte all start a character.
pub proof fn lemma_ascii_cut(b: Seq<u8>, i: int)
    requires
        valid_utf8(b),
        0 <= i <= b.len(),
        i == 0 || i == b.len() || b[i] < 0x80 || b[i - 1] < 0x80,
    ensures
        starts_char(b, i),
{
    broadcast use is_char_boundary_iff_not_is_continuation_byte;

    if i == 0 && b.len() > 0 {
        assert(is_char_boundary(b, 0));
    } else if 0 < i < b.len() && b[i] >= 0x80 {
        lemma_after_ascii(b, i - 1);
    }
}

/// In a string, the start, the end, an ASCII byte and the byte after an
/// ASCII byte all start a character.
pub proof fn lemma_cut_at(s: &str, i: int)
    requires
        0 <= i <= s.spec_bytes().len(),
        i == 0 || i == s.spec_bytes().len() || s.spec_bytes()[i] < 0x80 || s.spec_bytes()[i - 1]
            < 0x80,
    ensures
        starts_char(s.spec_bytes(), i),
{
    broadcast use encode_utf8_valid_utf8;

    lemma_ascii_cut(s.spec_bytes(), i);
}

/// The first byte of non-empty UTF-8 text starts a character.
pub proof fn lemma_first_byte_starts_char(s: &str)
    ensures
        s.spec_bytes().len() > 0 ==> !is_continuation_byte(s.spec_bytes()[0]),
{
    broadcast use encode_utf8_valid_utf8, is_char_boundary_iff_not_is_continuation_byte;

    let b = s.spec_bytes();
    if b.len() > 0 {
        assert(valid_utf8(b));
        assert(is_char_boundary(b, 0));
    }
}

/// The part of `s` between byte indices `from` and `to`, both of which start a character.
pub(crate) fn cut<'a>(s: &'a str, from: usize, to: usize) -> (r: &'a str)
    requires
        from <= to,
        starts_char(s.spec_bytes(), from as int),
        starts_char(s.spec_bytes(), to as int),
    ensures
        r.spec_bytes() == s.spec_bytes().subrange(from as int, to as int),
{
    broadcast use encode_utf8_valid_utf8;

    let ghost b = s.spec_bytes();
    proof {
        assert(valid_utf8(b));
        lemma_starts_char_is_boundary(b, to as int);
    }
    let (head, _) = s.split_at(to);
    proof {
        let h = b.subrange(0, to as int);
        assert(head.spec_bytes() =~= h);
        valid_utf8_split(b, to as int);
        if from < to {
            assert(h[from as int] == b[from as int]);
        }
        lemma_starts_char_is_boundary(h, from as int);
    }
    let (_, mid) = head.split_at(from);
    assert(mid.spec_bytes() =~= b.subrange(from as int, to as int));
    mid
}

/// The part of `s` from byte index `from` on, where `from` starts a character.
pub(crate) fn cut_from<'a>(s: &'a str, from: usize) -> (r: &'a str)
    requires
        starts_char(s.spec_bytes(), from as int),
    ensures
        r.spec_bytes() == s.spec_bytes().subrange(from as int, s.spec_bytes().len() as int),
{
    broadcast use encode_utf8_valid_utf8;

    proof {
        lemma_starts_char_is_boundary(s.spec_bytes(), from as int);
    }
    let (_, tail) = s.split_at(from);
    tail
}

/// The number of bytes of leading white space in UTF-8 text with bytes `b`,
/// as `str::trim_start` counts white space.
pub uninterp spec fn white_space_prefix_len(b: Seq<u8>) -> nat;

/// Relies on `str::trim_start`: it returns the part of `s` that follows its
/// leading white space, which is a suffix of `s`.
#[verifier::external_body]
pub(crate) fn trim_start(s: &str) -> (r: &str)
    ensures
        r.spec_bytes().len() + white_space_prefix_len(s.spec_bytes()) == s.spec_bytes().len(),
        r.spec_bytes() == s.spec_bytes().subrange(
            white_space_prefix_len(s.spec_bytes()) as int,
            s.spec_bytes().len() as int,
        ),
{
    s.trim_start()
}

} // verus!
