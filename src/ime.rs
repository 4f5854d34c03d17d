//! Input-method composition for text fields.
//!
//! An input method first shows a pre-edit string at the cursor and then
//! commits text, which is spliced into the field at the cursor. The windowing
//! layer reports these as [`ImeEvent`]s; [`ImeText`] keeps the state of one
//! field and [`ImeManager`] hands every event to all fields.
use vstd::prelude::*;
use vstd::string::{StrSliceExecFns, StringExecFns};

verus! {

/// Whether a text field holds one line or many.
#[derive(Clone, Copy, Debug, PartialEq, Eq, Structural)]
pub enum EditType {
    SingleLine,
    MultiLine,
}

/// An input-method event.
#[derive(Debug)]
pub enum ImeEvent {
    /// The text being composed; `cursor` is its selection, if the input
    /// method shows one.
    Preedit { value: String, cursor: Option<(usize, usize)> },
    /// Text the input method has finished composing.
    Commit { value: String },
    /// The input method was switched on.
    Enabled,
    /// The input method was switched off.
    Disabled,
}

/// `text` with `insert` spliced in before character `at`, or appended when
/// `at` is past the end.
pub open spec fn spliced(text: Seq<char>, at: int, insert: Seq<char>) -> Seq<char> {
    text.subrange(0, clamp(text, at)) + insert + text.subrange(clamp(text, at), text.len() as int)
}

/// `text` with `insert` spliced in before character `at`, or appended when
/// `at` is past the end.
pub fn splice(text: &str, at: usize, insert: &str) -> (r: String)
    ensures
        r@ == spliced(text@, at as int, insert@),
{
    let n = text.unicode_len();
    let k = if at < n { at } else { n };
    let mut r = String::from_str(text.substring_char(0, k));
    r.append(insert);
    r.append(text.substring_char(k, n));
    r
}

/// `i`, or the length of `s` when `i` is past its end.
pub open spec fn clamp(s: Seq<char>, i: int) -> int {
    if i < s.len() {
        i
    } else {
        s.len() as int
    }
}

/// The parts of `s` before character `a`, from character `a` to character
/// `b`, and from character `b` on; an index past the end stands for the end.
pub fn split_chars(s: &str, a: usize, b: usize) -> (r: (&str, &str, &str))
    requires
        a <= b,
    ensures
        r.0@ == s@.subrange(0, clamp(s@, a as int)),
        r.1@ == s@.subrange(clamp(s@, a as int), clamp(s@, b as int)),
        r.2@ == s@.subrange(clamp(s@, b as int), s@.len() as int),
{
    let n = s.unicode_len();
    let ka = if a < n { a } else { n };
    let kb = if b < n { b } else { n };
    (s.substring_char(0, ka), s.substring_char(ka, kb), s.substring_char(kb, n))
}

/// The composition state of one text field.
#[derive(Debug)]
pub struct ImeText {
    /// The id of the field's widget.
    pub id: String,
    /// The committed text.
    pub text: String,
    /// The pre-edit string being composed.
    pub ime_string: String,
    /// The number of characters of the pre-edit string.
    pub ime_string_index: usize,
    /// The cursor, in characters of the committed text.
    pub cursor_index: usize,
    /// Text was committed since the field was last drawn.
    pub is_ime_input: bool,
    /// The field has the keyboard focus.
    pub is_focus: bool,
    /// The input method is on.
    pub is_ime: bool,
    /// The cursor moves past committed text when the field is next drawn.
    pub is_cursor_move: bool,
    pub edit_type: EditType,
    /// The field was drawn in this frame.
    pub is_used: bool,
}

/// The model of an [`ImeText`].
pub struct ImeTextView {
    pub id: Seq<char>,
    pub text: Seq<char>,
    pub ime_string: Seq<char>,
    pub ime_string_index: nat,
    pub cursor_index: nat,
    pub is_ime_input: bool,
    pub is_focus: bool,
    pub is_ime: bool,
    pub is_cursor_move: bool,
    pub edit_type: EditType,
    pub is_used: bool,
}

impl View for ImeText {
    type V = ImeTextView;

    open spec fn view(&self) -> ImeTextView {
        ImeTextView {
            id: self.id@,
            text: self.text@,
            ime_string: self.ime_string@,
            ime_string_index: self.ime_string_index as nat,
            cursor_index: self.cursor_index as nat,
            is_ime_input: self.is_ime_input,
            is_focus: self.is_focus,
            is_ime: self.is_ime,
            is_cursor_move: self.is_cursor_move,
            edit_type: self.edit_type,
            is_used: self.is_used,
        }
    }
}

/// The state of a field after event `e`. A field without focus ignores
/// events; a pre-edit with a cursor replaces the pre-edit string; a commit
/// splices its text in at the cursor and clears the pre-edit string (and an
/// empty commit keeps the cursor where it is); the input method's switches
/// set whether it is on.
pub open spec fn listened(t: ImeTextView, e: ImeEvent) -> ImeTextView {
    if !t.is_focus {
        t
    } else {
        match e {
            ImeEvent::Preedit { value, cursor } => if cursor is Some {
                ImeTextView { ime_string: value@, ime_string_index: value@.len(), ..t }
            } else {
                t
            },
            ImeEvent::Commit { value } => ImeTextView {
                text: spliced(t.text, t.cursor_index as int, value@),
                is_cursor_move: value@.len() != 0 && t.is_cursor_move,
                is_ime_input: true,
                ime_string: Seq::empty(),
                ..t
            },
            ImeEvent::Enabled => ImeTextView { is_ime: true, ..t },
            ImeEvent::Disabled => ImeTextView { is_ime: false, ..t },
        }
    }
}

/// A field with no id or text, not composing, without focus, with the input
/// method off, single-line and not drawn yet.
pub open spec fn fresh(t: ImeTextView) -> bool {
    &&& t.id.len() == 0
    &&& t.text.len() == 0
    &&& t.ime_string.len() == 0
    &&& t.ime_string_index == 0
    &&& t.cursor_index == 0
    &&& !t.is_ime_input
    &&& !t.is_focus
    &&& !t.is_ime
    &&& t.is_cursor_move
    &&& t.edit_type == EditType::SingleLine
    &&& !t.is_used
}

impl Default for ImeText {
    fn default() -> (r: ImeText)
        ensures
            fresh(r@),
    {
        ImeText {
            id: String::new(),
            text: String::new(),
            ime_string: String::new(),
            ime_string_index: 0,
            cursor_index: 0,
            is_ime_input: false,
            is_focus: false,
            is_ime: false,
            is_cursor_move: true,
            edit_type: EditType::SingleLine,
            is_used: false,
        }
    }
}

impl ImeText {
    /// A field with no text, no focus and the input method off.
    pub fn new() -> (r: ImeText)
        ensures
            fresh(r@),
    {
        ImeText::default()
    }

    /// The text the field shows: the pre-edit string spliced in at the cursor.
    pub fn composed_text(&self) -> (r: String)
        ensures
            r@ == spliced(self.text@, self.cursor_index as int, self.ime_string@),
    {
        splice(self.text.as_str(), self.cursor_index, self.ime_string.as_str())
    }

    /// Applies one input-method event to the field.
    pub fn listen_ime_event(&mut self, event: &ImeEvent)
        ensures
            final(self)@ == listened(old(self)@, *event),
    {
        if !self.is_focus {
            return;
        }
        match event {
            ImeEvent::Preedit { value, cursor } => {
                if cursor.is_some() {
                    self.ime_string = value.clone();
                    self.ime_string_index = value.as_str().unicode_len();
                }
            },
            ImeEvent::Commit { value } => {
                if value.as_str().unicode_len() == 0 {
                    self.is_cursor_move = false;
                }
                self.text = splice(self.text.as_str(), self.cursor_index, value.as_str());
                self.is_ime_input = true;
                self.ime_string = String::new();
            },
            ImeEvent::Enabled => {
                self.is_ime = true;
            },
            ImeEvent::Disabled => {
                self.is_ime = false;
            },
        }
    }
}

/// The composition state of every text field drawn so far in this frame.
#[derive(Debug)]
pub struct ImeManager {
    /// The number of fields drawn so far in this frame.
    pub count: usize,
    pub ime_texts: Vec<ImeText>,
}

impl Default for ImeManager {
    fn default() -> (r: ImeManager)
        ensures
            r.count == 0,
            r.ime_texts@.len() == 0,
    {
        ImeManager { count: 0, ime_texts: Vec::new() }
    }
}

impl ImeManager {
    /// Adds the state of a new field.
    pub fn add(&mut self)
        ensures
            final(self).count == old(self).count,
            final(self).ime_texts@.len() == old(self).ime_texts@.len() + 1,
            forall|i: int|
                0 <= i < old(self).ime_texts@.len() ==> final(self).ime_texts@[i]
                    == old(self).ime_texts@[i],
            fresh(final(self).ime_texts@.last()@),
    {
        let it = ImeText::new();
        self.ime_texts.push(it);
    }

    /// Hands an input-method event to every field.
    pub fn listen_ime_event(&mut self, event: &ImeEvent)
        ensures
            final(self).count == old(self).count,
            final(self).ime_texts@.len() == old(self).ime_texts@.len(),
            forall|i: int|
                0 <= i < old(self).ime_texts@.len() ==> #[trigger] final(self).ime_texts@[i]@
                    == listened(old(self).ime_texts@[i]@, *event),
    {
        let n = self.ime_texts.len();
        let mut i: usize = 0;
        while i < n
            invariant
                n == old(self).ime_texts@.len(),
                i <= n,
                self.count == old(self).count,
                self.ime_texts@.len() == n,
                forall|j: int|
                    0 <= j < i ==> #[trigger] self.ime_texts@[j]@ == listened(
                        old(self).ime_texts@[j]@,
                        *event,
                    ),
                forall|j: int| i <= j < n ==> #[trigger] self.ime_texts@[j] == old(self).ime_texts@[j],
            decreases n - i,
        {
            self.ime_texts[i].listen_ime_event(event);
            i = i + 1;
        }
    }
}

} // verus!
