//! How a style is shown: which text attributes a renderer applies.
use vstd::prelude::*;

use crate::style::Style;

verus! {

/// The text attributes a renderer applies to a run of text.
#[derive(Clone, Copy, Debug, PartialEq, Eq, Structural)]
pub struct TextLook {
    /// Heading size, shown strong.
    pub heading: bool,
    /// Small size.
    pub small: bool,
    /// Monospace code font.
    pub code: bool,
    /// Strong weight.
    pub strong: bool,
    /// Dimmed colour.
    pub weak: bool,
    pub underline: bool,
    pub strikethrough: bool,
    pub italics: bool,
    /// Raised above the baseline.
    pub raised: bool,
}

/// The look of text in style `s`. Raised text is also small; heading and
/// small size exclude each other; quoted text is dimmed unless it is strong.
pub open spec fn look_of(s: Style) -> TextLook {
    let small = s.small || s.raised;
    TextLook {
        heading: s.heading && !small,
        small: small && !s.heading,
        code: s.code,
        strong: s.strong,
        weak: !s.strong && s.quoted,
        underline: s.underline,
        strikethrough: s.strikethrough,
        italics: s.italics,
        raised: s.raised,
    }
}

/// The look of text in style `s`.
pub fn text_look(s: &Style) -> (r: TextLook)
    ensures
        r == look_of(*s),
{
    let small = s.small || s.raised;
    TextLook {
        heading: s.heading && !small,
        small: small && !s.heading,
        code: s.code,
        strong: s.strong,
        weak: !s.strong && s.quoted,
        underline: s.underline,
        strikethrough: s.strikethrough,
        italics: s.italics,
        raised: s.raised,
    }
}

/// The look of a link title in style `s`: as text, and always underlined.
pub fn link_look(s: &Style) -> (r: TextLook)
    ensures
        r == (TextLook { underline: true, ..look_of(*s) }),
{
    let look = text_look(s);
    TextLook { underline: true, ..look }
}

} // verus!
