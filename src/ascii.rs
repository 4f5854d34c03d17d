//! The ASCII bytes that carry meaning in markup.
use vstd::prelude::*;

verus! {

pub const NEWLINE: u8 = 0x0a;
pub const TAB: u8 = 0x09;
pub const SPACE: u8 = 0x20;
pub const HASH: u8 = 0x23;
pub const DOLLAR: u8 = 0x24;
pub const LEFT_PAREN: u8 = 0x28;
pub const RIGHT_PAREN: u8 = 0x29;
pub const STAR: u8 = 0x2a;
pub const HYPHEN: u8 = 0x2d;
pub const DOT: u8 = 0x2e;
pub const SLASH: u8 = 0x2f;
pub const DIGIT_ZERO: u8 = 0x30;
pub const DIGIT_NINE: u8 = 0x39;
pub const LESS: u8 = 0x3c;
pub const GREATER: u8 = 0x3e;
pub const LEFT_BRACKET: u8 = 0x5b;
pub const BACKSLASH: u8 = 0x5c;
pub const RIGHT_BRACKET: u8 = 0x5d;
pub const CARET: u8 = 0x5e;
pub const UNDERSCORE: u8 = 0x5f;
pub const BACKTICK: u8 = 0x60;
pub const TILDE: u8 = 0x7e;

} // verus!
