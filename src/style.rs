//! Inline style flags carried by text and link items.
use vstd::prelude::*;

use crate::ascii::{CARET, DOLLAR, SLASH, STAR, TILDE, UNDERSCORE};

verus! {

/// The inline style in effect for a text run or a link.
///
/// The nine flags are independent: any combination may be set at once.
#[derive(Clone, Copy, Debug, PartialEq, Eq, Structural)]
pub struct Style {
    /// `# heading` (large text)
    pub heading: bool,
    /// `> quoted` (dimmer text)
    pub quoted: bool,
    /// `` `code` `` (monospace)
    pub code: bool,
    /// `*strong*`
    pub strong: bool,
    /// `_underline_`
    pub underline: bool,
    /// `~strikethrough~`
    pub strikethrough: bool,
    /// `/italics/`
    pub italics: bool,
    /// `$small$`
    pub small: bool,
    /// `^raised^`
    pub raised: bool,
}

/// The style with every flag off.
pub open spec fn plain_style() -> Style {
    Style {
        heading: false,
        quoted: false,
        code: false,
        strong: false,
        underline: false,
        strikethrough: false,
        italics: false,
        small: false,
        raised: false,
    }
}

/// The bytes `* _ ~ / $ ^`, each of which flips one inline flag.
pub open spec fn is_toggle_byte(c: u8) -> bool {
    c == STAR || c == UNDERSCORE || c == TILDE || c == SLASH || c == DOLLAR || c == CARET
}

/// `s` with the flag of toggle byte `c` flipped; `s` itself for any other byte.
pub open spec fn toggled(s: Style, c: u8) -> Style {
    if c == STAR {
        Style { strong: !s.strong, ..s }
    } else if c == UNDERSCORE {
        Style { underline: !s.underline, ..s }
    } else if c == TILDE {
        Style { strikethrough: !s.strikethrough, ..s }
    } else if c == SLASH {
        Style { italics: !s.italics, ..s }
    } else if c == DOLLAR {
        Style { small: !s.small, ..s }
    } else if c == CARET {
        Style { raised: !s.raised, ..s }
    } else {
        s
    }
}

impl Default for Style {
    fn default() -> (r: Style)
        ensures
            r == plain_style(),
    {
        Style {
            heading: false,
            quoted: false,
            code: false,
            strong: false,
            underline: false,
            strikethrough: false,
            italics: false,
            small: false,
            raised: false,
        }
    }
}

impl Style {
    /// Flips the flag that toggle byte `c` stands for.
    pub fn toggle(&mut self, c: u8)
        requires
            is_toggle_byte(c),
        ensures
            *final(self) == toggled(*old(self), c),
    {
        if c == STAR {
            self.strong = !self.strong;
        } else if c == UNDERSCORE {
            self.underline = !self.underline;
        } else if c == TILDE {
            self.strikethrough = !self.strikethrough;
        } else if c == SLASH {
            self.italics = !self.italics;
        } else if c == DOLLAR {
            self.small = !self.small;
        } else {
            self.raised = !self.raised;
        }
    }
}

} // verus!
