//! The state of a markup editor: the document and two display switches.
use vstd::prelude::*;

verus! {

/// The document a new editor starts with: a tour of the markup language.
pub const DEFAULT_CODE: &'static str = r#"# EasyMark
EasyMark is a markup language, designed for extreme simplicity.
```
WARNING: EasyMark is still an evolving specification,
and is also missing some features.
```
----------------

# At a glance
- inline text:
  - normal, `code`, *strong*, ~strikethrough~, _underline_, /italics/, ^raised^, $small$
  - `\` escapes the next character
  - [hyperlink](https://github.com/emilk/egui)
  - Embedded URL: <https://github.com/emilk/egui>
- `# ` header
- `---` separator (horizontal line)
- `> ` quote
- `- ` bullet list
- `1. ` numbered list
- ``` code fence
- a^2^ + b^2^ = c^2^
- $Remember to read the small print$
# Design
> /"Why do what everyone else is doing, when everyone else is already doing it?"
>   \- Emil
Goals:
1. easy to parse
2. easy to learn
3. similar to markdown
[The reference parser](https://github.com/emilk/egui/blob/main/crates/egui_demo_lib/src/easy_mark/easy_mark_parser.rs) is \~250 lines of code, using only the Rust standard library. The parser uses no look-ahead or recursion.
There is never more than one way to accomplish the same thing, and each special character is only used for one thing. For instance `*` is used for *strong* and `-` is used for bullet lists. There is no alternative way to specify the *strong * style or getting a bullet list.
Similarity to markdown is kept when possible, but with much less ambiguity and s ome improvements (like _underlining_).
# Details
All style changes are single characters, so it is `*strong*`, NOT `**strong**`. Style is reset by a matching character, or at the end of the line.
Style change characters and escapes (`\`) work everywhere except for in inline code, code blocks and in URLs.
You can mix styles. For instance: /italics _underline_/ and *strong `code`*.
You can use styles on URLs: ~my webpage is at <http://www.example.com>~.
Newlines are preserved. If you want to continue text on the same line, just do so. Alternatively, escape the newline by ending the line with a backslash (`\`). Escaping the newline effectively ignores it.
The style characters are chosen to be similar to what they are representing:
  `_` = _underline_
  `~` = ~strikethrough~ (`-` is used for bullet points)
  `/` = /italics/
  `*` = *strong*
  `$` = $small$
  `^` = ^raised^
# To do
- Sub-headers (`## h2`, `### h3` etc)
- Hotkey Editor
- International keyboard algorithm for non-letter keys
- ALT+SHIFT+Num1 is not a functioning hotkey
- Tab Indent Increment/Decrement CTRL+], CTRL+[
- Images
  - we want to be able to optionally specify size (width and\/or height)
  - centering of images is very desirable
  - captioning (image with a text underneath it)
  - `![caption=My image][width=200][center](url)` ?
- Nicer URL:s
  - `<url>` and `[url](url)` do the same thing yet look completely different.
  - let's keep similarity with images
- Tables
- Inspiration: <https://mycorrhiza.wiki/help/en/mycomarkup>"#;

/// What a markup editor shows: the document being edited, whether the
/// editor highlights markup, and whether the rendered view is shown.
pub struct EasyMarkEditor {
    pub code: String,
    pub highlight_editor: bool,
    pub show_rendered: bool,
}

impl PartialEq for EasyMarkEditor {
    fn eq(&self, other: &EasyMarkEditor) -> (r: bool) {
        self.code == other.code && self.highlight_editor == other.highlight_editor
            && self.show_rendered == other.show_rendered
    }
}

impl vstd::std_specs::cmp::PartialEqSpecImpl for EasyMarkEditor {
    open spec fn obeys_eq_spec() -> bool {
        true
    }

    open spec fn eq_spec(&self, other: &EasyMarkEditor) -> bool {
        self.code@ == other.code@ && self.highlight_editor == other.highlight_editor
            && self.show_rendered == other.show_rendered
    }
}

impl Default for EasyMarkEditor {
    fn default() -> (r: EasyMarkEditor)
        ensures
            r.code@ == DEFAULT_CODE@,
            r.highlight_editor,
            r.show_rendered,
    {
        EasyMarkEditor {
            code: DEFAULT_CODE.to_owned(),
            highlight_editor: true,
            show_rendered: true,
        }
    }
}

} // verus!
