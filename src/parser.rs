//! The tokenizer: a forward-moving cursor over the input that produces one
//! [`Item`] per call.
use vstd::prelude::*;
use vstd::string::StringSliceAdditionalSpecFns;

use crate::ascii::{
    BACKSLASH, BACKTICK, CARET, DOLLAR, DOT, GREATER, HASH, HYPHEN, LEFT_BRACKET, LEFT_PAREN, LESS,
    NEWLINE, RIGHT_BRACKET, RIGHT_PAREN, SLASH, SPACE, STAR, TAB, TILDE, UNDERSCORE,
};
use crate::grammar::{
    all_items, at, block_rule, code_block_rule, heading_rule, initial_state, inline_code_rule,
    inline_rule, lemma_line_end, lemma_next_item_advances, lemma_step_advances, line_rule,
    link_rule, next_item, numbered_rule, plain_text_step, ParseState, Step,
};
use crate::item::{item_views, option_view, Item, ItemView};
use crate::scan::{
    find_byte, lemma_char_end, lemma_find_fence, lemma_find_from, lemma_find_special,
    lemma_skip_ascii_white_space, lemma_skip_byte, lemma_skip_digits, next_char_start, next_fence,
    next_special, skip_digit_run, skip_run, skip_white_run,
};
use crate::style::Style;
use crate::text::{cut, cut_from, lemma_cut_at, lemma_first_byte_starts_char, trim_start};

verus! {

/// Tokenizer for the markup language.
///
/// It holds the input not consumed yet, whether the cursor is at the start of
/// a line, and the style toggled on so far in the line. Each call of
/// [`Parser::next`] produces the next item; a new parser over the same input
/// produces the same items again.
pub struct Parser<'a> {
    s: &'a str,
    start_of_line: bool,
    style: Style,
}

impl<'a> View for Parser<'a> {
    type V = ParseState;

    closed spec fn view(&self) -> ParseState {
        ParseState {
            rest: self.s.spec_bytes(),
            start_of_line: self.start_of_line,
            style: self.style,
        }
    }
}

/// `r` and the state `after` are what `rule` gives from state `before`: the
/// item it produces, or no item and no change when it does not apply.
pub open spec fn follows(
    rule: Option<Step>,
    r: Option<Item>,
    before: ParseState,
    after: ParseState,
) -> bool {
    match rule {
        Some(Step::Emit(i, s)) => option_view(r) == Some(i) && after == s,
        _ => r is None && after == before,
    }
}

impl<'a> Parser<'a> {
    /// A parser at the start of `s`, at the start of a line, with no style.
    pub fn new(s: &'a str) -> (r: Self)
        ensures
            r@ == initial_state(s.spec_bytes()),
    {
        Parser { s, start_of_line: true, style: Style::default() }
    }

    /// `1. `, `42. ` and so on: digits followed by a dot and a space.
    pub fn numbered_list(&mut self) -> (r: Option<Item<'a>>)
        ensures
            follows(numbered_rule(old(self)@), r, old(self)@, final(self)@),
    {
        let s = self.s;
        let b = s.as_bytes();
        let n = b.len();
        let d = skip_digit_run(b, 0);
        proof {
            lemma_skip_digits(b@, 0);
        }
        if d > 0 && d < n && n - d >= 2 && b[d] == DOT && b[d + 1] == SPACE {
            proof {
                lemma_cut_at(s, 0);
                lemma_cut_at(s, d as int);
                lemma_cut_at(s, d + 2);
            }
            let number = cut(s, 0, d);
            self.s = cut_from(s, d + 2);
            self.start_of_line = false;
            return Some(Item::NumberedPoint(number));
        }
        None
    }

    /// A fenced code block: three back-ticks, a language tag up to the end
    /// of the line, then code up to a newline followed by three back-ticks.
    /// The code of a closed block is trimmed of one leading and one trailing
    /// newline.
    #[verifier::rlimit(30)]
    pub fn code_block(&mut self) -> (r: Option<Item<'a>>)
        ensures
            follows(code_block_rule(old(self)@), r, old(self)@, final(self)@),
    {
        let s = self.s;
        let b = s.as_bytes();
        let n = b.len();
        if n >= 3 && b[0] == BACKTICK && b[1] == BACKTICK && b[2] == BACKTICK {
            let nl = find_byte(b, NEWLINE, 3, n);
            proof {
                lemma_find_from(b@, NEWLINE, 3, n as int);
            }
            if nl < n {
                proof {
                    lemma_cut_at(s, 3);
                    lemma_cut_at(s, nl as int);
                    lemma_cut_at(s, nl + 1);
                    lemma_cut_at(s, n as int);
                    lemma_find_fence(b@, nl + 1);
                }
                let language = cut(s, 3, nl);
                let t = next_fence(b, nl + 1);
                if t < n {
                    let start = if nl + 1 < t && b[nl + 1] == NEWLINE { nl + 2 } else { nl + 1 };
                    let end = if start < t && b[t - 1] == NEWLINE { t - 1 } else { t };
                    proof {
                        lemma_cut_at(s, t as int);
                        lemma_cut_at(s, t + 4);
                        lemma_cut_at(s, start as int);
                        lemma_cut_at(s, end as int);
                    }
                    let code = cut(s, start, end);
                    self.s = cut_from(s, t + 4);
                    self.start_of_line = false;
                    return Some(Item::CodeBlock(language, code));
                } else {
                    let code = cut(s, nl + 1, n);
                    self.s = cut_from(s, n);
                    self.start_of_line = false;
                    return Some(Item::CodeBlock(language, code));
                }
            }
        }
        None
    }

    /// `` `code` ``: the text up to the next back-tick on the line, or to the
    /// end of the line, in code style.
    pub fn inline_code(&mut self) -> (r: Option<Item<'a>>)
        ensures
            follows(inline_code_rule(old(self)@), r, old(self)@, final(self)@),
    {
        let s = self.s;
        let b = s.as_bytes();
        let n = b.len();
        if n >= 1 && b[0] == BACKTICK {
            let le = find_byte(b, NEWLINE, 0, n);
            proof {
                lemma_line_end(b@);
            }
            let close = find_byte(b, BACKTICK, 1, le);
            proof {
                lemma_find_from(b@, BACKTICK, 1, le as int);
                lemma_cut_at(s, 1);
                lemma_cut_at(s, le as int);
            }
            let code_style = Style { code: true, ..self.style };
            if close < le {
                proof {
                    lemma_cut_at(s, close as int);
                    lemma_cut_at(s, close + 1);
                }
                let code = cut(s, 1, close);
                self.s = cut_from(s, close + 1);
                self.start_of_line = false;
                return Some(Item::Text(code_style, code));
            } else {
                let code = cut(s, 1, le);
                self.s = cut_from(s, le);
                self.start_of_line = false;
                return Some(Item::Text(code_style, code));
            }
        }
        None
    }

    /// `<url>` or `[title](url)`, closed on the same line.
    pub fn url(&mut self) -> (r: Option<Item<'a>>)
        ensures
            follows(link_rule(old(self)@), r, old(self)@, final(self)@),
    {
        let s = self.s;
        let b = s.as_bytes();
        let n = b.len();
        if n == 0 {
            return None;
        }
        let le = find_byte(b, NEWLINE, 0, n);
        proof {
            lemma_line_end(b@);
        }
        if b[0] == LESS {
            let gt = find_byte(b, GREATER, 1, le);
            proof {
                lemma_find_from(b@, GREATER, 1, le as int);
            }
            if gt < le {
                proof {
                    lemma_cut_at(s, 1);
                    lemma_cut_at(s, gt as int);
                    lemma_cut_at(s, gt + 1);
                }
                let url = cut(s, 1, gt);
                self.s = cut_from(s, gt + 1);
                self.start_of_line = false;
                return Some(Item::Hyperlink(self.style, url, url));
            }
            return None;
        }
        if b[0] == LEFT_BRACKET {
            let rb = find_byte(b, RIGHT_BRACKET, 1, le);
            proof {
                lemma_find_from(b@, RIGHT_BRACKET, 1, le as int);
            }
            if rb < le && le - rb > 1 && b[rb + 1] == LEFT_PAREN {
                let rp = find_byte(b, RIGHT_PAREN, rb + 2, le);
                proof {
                    lemma_find_from(b@, RIGHT_PAREN, rb + 2, le as int);
                }
                if rp < le {
                    proof {
                        lemma_cut_at(s, 1);
                        lemma_cut_at(s, rb as int);
                        lemma_cut_at(s, rb + 2);
                        lemma_cut_at(s, rp as int);
                        lemma_cut_at(s, rp + 1);
                    }
                    let title = cut(s, 1, rb);
                    let url = cut(s, rb + 2, rp);
                    self.s = cut_from(s, rp + 1);
                    self.start_of_line = false;
                    return Some(Item::Hyperlink(self.style, title, url));
                }
            }
        }
        None
    }
    /// Block markers at the start of a line: indentation, `> `, `- `,
    /// numbered points, `---` and code fences. A heading marker is left for
    /// [`Parser::heading`].
    fn block(&mut self) -> (r: Option<Item<'a>>)
        requires
            old(self)@.start_of_line,
        ensures
            follows(block_rule(old(self)@), r, old(self)@, final(self)@),
    {
        let s = self.s;
        let b = s.as_bytes();
        let n = b.len();
        if n == 0 {
            return None;
        }
        if b[0] == SPACE {
            let k = skip_run(b, SPACE, 0);
            proof {
                lemma_skip_byte(b@, SPACE, 0);
                lemma_cut_at(s, k as int);
            }
            self.s = cut_from(s, k);
            return Some(Item::Indentation(k));
        }
        if n >= 2 && b[0] == HASH && (b[1] == SPACE || b[1] == TAB) {
            return None;
        }
        if n >= 2 && b[0] == GREATER && b[1] == SPACE {
            proof {
                lemma_cut_at(s, 2);
            }
            self.s = cut_from(s, 2);
            self.style.quoted = true;
            return Some(Item::QuoteIndent);
        }
        if n >= 2 && b[0] == HYPHEN && b[1] == SPACE {
            proof {
                lemma_cut_at(s, 2);
            }
            self.s = cut_from(s, 2);
            self.start_of_line = false;
            return Some(Item::BulletPoint);
        }
        if let Some(item) = self.numbered_list() {
            return Some(item);
        }
        if n >= 3 && b[0] == HYPHEN && b[1] == HYPHEN && b[2] == HYPHEN {
            let h = skip_run(b, HYPHEN, 0);
            proof {
                lemma_skip_byte(b@, HYPHEN, 0);
            }
            let e = if h < n && b[h] == NEWLINE { h + 1 } else { h };
            proof {
                lemma_cut_at(s, e as int);
            }
            self.s = cut_from(s, e);
            self.start_of_line = false;
            return Some(Item::Separator);
        }
        self.code_block()
    }

    /// `#` and white space: turns the heading style on and consumes the
    /// white space that follows on the same line.
    fn heading(&mut self)
        requires
            at(old(self)@.rest, 0, HASH),
            at(old(self)@.rest, 1, SPACE) || at(old(self)@.rest, 1, TAB),
        ensures
            heading_rule(old(self)@) == Some(Step::Skip(final(self)@)),
    {
        let s = self.s;
        let b = s.as_bytes();
        let n = b.len();
        let le = find_byte(b, NEWLINE, 0, n);
        proof {
            lemma_line_end(b@);
            lemma_cut_at(s, 1);
            lemma_cut_at(s, le as int);
        }
        let tail = cut(s, 1, le);
        let tb = tail.as_bytes();
        let run = skip_white_run(tb, 0);
        proof {
            lemma_skip_ascii_white_space(tb@, 0);
        }
        let gap = if run < tb.len() && tb[run] >= 0x80 {
            proof {
                lemma_cut_at(tail, run as int);
            }
            let more = cut_from(tail, run);
            let trimmed = trim_start(more);
            proof {
                lemma_first_byte_starts_char(trimmed);
                if trimmed.spec_bytes().len() > 0 {
                    assert(trimmed.spec_bytes()[0] == b@[1 + run + (more.spec_bytes().len()
                        - trimmed.spec_bytes().len())]);
                }
            }
            run + (more.len() - trimmed.len())
        } else {
            proof {
                if run < tb.len() {
                    assert(b@[1 + run] == tb@[run as int]);
                }
                lemma_cut_at(s, 1 + run);
            }
            run
        };
        self.s = cut_from(s, 1 + gap);
        self.start_of_line = false;
        self.style.heading = true;
    }

    /// A newline, or a backslash and the character after it.
    fn line_start_rules(&mut self) -> (r: Outcome<'a>)
        ensures
            outcome_follows(line_rule(old(self)@), r, old(self)@, final(self)@),
    {
        let s = self.s;
        let b = s.as_bytes();
        let n = b.len();
        if n >= 1 && b[0] == NEWLINE {
            proof {
                lemma_cut_at(s, 1);
            }
            self.s = cut_from(s, 1);
            self.start_of_line = true;
            self.style = Style::default();
            return Outcome::Emitted(Item::Newline);
        }
        if n >= 2 && b[0] == BACKSLASH {
            if b[1] == NEWLINE {
                proof {
                    lemma_cut_at(s, 2);
                }
                self.s = cut_from(s, 2);
                return Outcome::Skipped;
            }
            let e = next_char_start(b, 2);
            proof {
                lemma_char_end(b@, 2);
                lemma_cut_at(s, 1);
            }
            let text = cut(s, 1, e);
            self.s = cut_from(s, e);
            self.start_of_line = false;
            return Outcome::Emitted(Item::Text(self.style, text));
        }
        Outcome::NoMatch
    }

    /// The block rules, heading included; they apply only at the start of a line.
    fn block_rules(&mut self) -> (r: Outcome<'a>)
        ensures
            outcome_follows(block_rule(old(self)@), r, old(self)@, final(self)@),
    {
        if !self.start_of_line {
            return Outcome::NoMatch;
        }
        if let Some(item) = self.block() {
            return Outcome::Emitted(item);
        }
        let s = self.s;
        let b = s.as_bytes();
        let n = b.len();
        if n >= 2 && b[0] == HASH && (b[1] == SPACE || b[1] == TAB) {
            self.heading();
            return Outcome::Skipped;
        }
        Outcome::NoMatch
    }

    /// Inline code, a style toggle, or a link.
    fn inline_rules(&mut self) -> (r: Outcome<'a>)
        ensures
            outcome_follows(inline_rule(old(self)@), r, old(self)@, final(self)@),
    {
        if let Some(item) = self.inline_code() {
            return Outcome::Emitted(item);
        }
        let s = self.s;
        let b = s.as_bytes();
        let n = b.len();
        if n >= 1 {
            let c = b[0];
            if c == STAR || c == UNDERSCORE || c == TILDE || c == SLASH || c == DOLLAR
                || c == CARET {
                proof {
                    lemma_cut_at(s, 1);
                }
                self.s = cut_from(s, 1);
                self.start_of_line = false;
                self.style.toggle(c);
                return Outcome::Skipped;
            }
        }
        if let Some(item) = self.url() {
            return Outcome::Emitted(item);
        }
        Outcome::NoMatch
    }

    /// The text up to the next special byte, or the special byte alone.
    fn plain_text(&mut self) -> (r: Item<'a>)
        requires
            old(self)@.rest.len() > 0,
        ensures
            plain_text_step(old(self)@) == Step::Emit(r@, final(self)@),
    {
        let s = self.s;
        let b = s.as_bytes();
        let e = next_special(b, 0);
        proof {
            lemma_find_special(b@, 0);
        }
        let k = if e == 0 { 1 } else { e };
        proof {
            lemma_cut_at(s, 0);
            lemma_cut_at(s, k as int);
        }
        let text = cut(s, 0, k);
        self.s = cut_from(s, k);
        self.start_of_line = false;
        Item::Text(self.style, text)
    }

    /// Produces the next item, or `None` once the input is exhausted.
    ///
    /// Style toggles, heading markers and escaped newlines are consumed
    /// without producing an item; every other rule produces one.
    pub fn next(&mut self) -> (r: Option<Item<'a>>)
        ensures
            (option_view(r), final(self)@) == next_item(old(self)@),
    {
        loop
            invariant
                next_item(self@) == next_item(old(self)@),
            decreases self@.rest.len(),
        {
            proof {
                lemma_step_advances(self@);
            }
            if self.s.as_bytes().len() == 0 {
                assert(next_item(self@) == (None::<ItemView>, self@));
                return None;
            }
            match self.line_start_rules() {
                Outcome::Emitted(item) => return Some(item),
                Outcome::Skipped => continue,
                Outcome::NoMatch => {},
            }
            match self.block_rules() {
                Outcome::Emitted(item) => return Some(item),
                Outcome::Skipped => continue,
                Outcome::NoMatch => {},
            }
            match self.inline_rules() {
                Outcome::Emitted(item) => return Some(item),
                Outcome::Skipped => continue,
                Outcome::NoMatch => {},
            }
            return Some(self.plain_text());
        }
    }

    /// All the items that remain, in order.
    pub fn into_items(self) -> (r: Vec<Item<'a>>)
        ensures
            item_views(r@) == all_items(self@),
    {
        let mut p = self;
        let mut items: Vec<Item<'a>> = Vec::new();
        loop
            invariant
                item_views(items@) + all_items(p@) == all_items(self@),
            decreases p@.rest.len(),
        {
            let ghost before = p@;
            proof {
                lemma_next_item_advances(before);
            }
            match p.next() {
                None => {
                    assert(all_items(before) =~= Seq::<ItemView>::empty());
                    assert(item_views(items@) + all_items(before) =~= item_views(items@));
                    return items;
                },
                Some(item) => {
                    let ghost old_items = items@;
                    items.push(item);
                    assert(item_views(items@) =~= item_views(old_items).push(item@));
                    assert(all_items(before) == seq![item@] + all_items(p@));
                    assert(item_views(items@) + all_items(p@) =~= item_views(old_items) + all_items(
                        before,
                    ));
                },
            }
        }
    }
}

/// The items of markup text `s`, in order.
pub fn parse<'a>(s: &'a str) -> (r: Vec<Item<'a>>)
    ensures
        item_views(r@) == all_items(initial_state(s.spec_bytes())),
{
    Parser::new(s).into_items()
}

/// What one group of rules did at the cursor.
enum Outcome<'a> {
    /// No rule of the group applies.
    NoMatch,
    /// Markup was consumed and no item produced.
    Skipped,
    /// An item was produced.
    Emitted(Item<'a>),
}

/// `r` and the state `after` are what `rule` gives from state `before`.
spec fn outcome_follows(
    rule: Option<Step>,
    r: Outcome,
    before: ParseState,
    after: ParseState,
) -> bool {
    match rule {
        None => r is NoMatch && after == before,
        Some(Step::Skip(s)) => r is Skipped && after == s,
        Some(Step::Emit(i, s)) => (match r {
            Outcome::Emitted(x) => x@ == i,
            _ => false,
        }) && after == s,
        Some(Step::Done) => false,
    }
}

} // verus!
