//! `easymark`: a single-pass tokenizer for a small markup language, with
//! the grouping of its tokens into display lines.
//!
//! [`Parser`] turns markup text into a flat sequence of [`Item`]s: styled
//! text runs, links, list markers, quotes, separators and fenced code
//! blocks. Every item borrows its text from the input. [`layout`] groups
//! items into lines for a renderer, and [`text_look`] says how a style is
//! shown.
//!
//! The tokenizer's behaviour is the state machine of [`grammar`], over the
//! UTF-8 bytes of the input; [`laws`] proves properties of the whole token
//! stream for every input.

pub mod ascii;
pub mod editor;
pub mod grammar;
pub mod ime;
pub mod item;
pub mod laws;
pub mod lines;
pub mod look;
pub mod parser;
pub mod scan;
pub mod style;
pub mod text;

pub use editor::EasyMarkEditor;
pub use ime::{splice, split_chars, EditType, ImeEvent, ImeManager, ImeText};
pub use item::{Item, ItemView};
pub use lines::{layout, Block, Line, ListMarker};
pub use look::{link_look, text_look, TextLook};
pub use parser::{parse, Parser};
pub use style::Style;
