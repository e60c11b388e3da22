//! Editing state of a text input field: text, cursor, selection and
//! autocompletion.
//!
//! Positions are byte indices into the UTF-8 text. Glyph layout and visual
//! cursor motion are left to the renderer, which reports cursor moves back
//! through [`TextInput::set_cursor`].

use vstd::prelude::*;
use vstd::string::{StringExecFns, StringSliceAdditionalSpecFns};
use vstd::utf8::{encode_utf8, is_char_boundary, valid_utf8};

use crate::ime::boundary_at_or_after;
use crate::text::{chars_of, string_from_chars};

verus! {

broadcast use vstd::string::group_string_axioms;

/// Bytes of `a` followed by `b` are the bytes of `a` followed by those of `b`.
pub proof fn lemma_encode_concat(a: Seq<char>, b: Seq<char>)
    ensures
        encode_utf8(a + b) == encode_utf8(a) + encode_utf8(b),
    decreases a.len(),
{
    if a.len() == 0 {
        assert(a + b =~= b);
        assert(encode_utf8(a) + encode_utf8(b) =~= encode_utf8(b));
    } else {
        lemma_encode_concat(a.drop_first(), b);
        assert((a + b).drop_first() =~= a.drop_first() + b);
        assert((a + b)[0] == a[0]);
        assert(encode_utf8(a + b) =~= encode_utf8(a) + encode_utf8(b));
    }
}

/// The end of a text's first part is a character boundary of the whole.
pub proof fn lemma_concat_boundary(a: Seq<char>, b: Seq<char>)
    ensures
        valid_utf8(encode_utf8(a + b)),
        is_char_boundary(encode_utf8(a + b), encode_utf8(a).len() as int),
    decreases a.len(),
{
    vstd::utf8::encode_utf8_valid_utf8(a + b);
    lemma_encode_concat(a, b);
    if a.len() > 0 {
        let s = a + b;
        let bytes = encode_utf8(s);
        vstd::utf8::encode_utf8_first_scalar(s);
        assert(vstd::utf8::pop_first_scalar(bytes) =~= encode_utf8(s.drop_first()));
        assert(s.drop_first() =~= a.drop_first() + b);
        assert(s[0] == a[0]);
        lemma_concat_boundary(a.drop_first(), b);
        assert(encode_utf8(a).len() == vstd::utf8::encode_scalar(a[0] as u32).len() + encode_utf8(
            a.drop_first(),
        ).len());
    }
}

/// Text with the bytes `start..end` removed.
fn remove_range(text: &str, start: usize, end: usize) -> (r: String)
    requires
        start <= end <= text.spec_bytes().len(),
        is_char_boundary(text.spec_bytes(), start as int),
        is_char_boundary(text.spec_bytes(), end as int),
    ensures
        encode_utf8(r@) == text.spec_bytes().subrange(0, start as int) + text.spec_bytes().subrange(
            end as int,
            text.spec_bytes().len() as int,
        ),
        is_char_boundary(encode_utf8(r@), start as int),
{
    let (head, _) = text.split_at(start);
    let (_, tail) = text.split_at(end);
    let mut r = String::from_str(head);
    r.append(tail);
    proof {
        lemma_encode_concat(head@, tail@);
        lemma_concat_boundary(head@, tail@);
    }
    r
}

/// Text with `insertion` put in at byte `index`.
fn insert_at(text: &str, index: usize, insertion: &str) -> (r: String)
    requires
        index <= text.spec_bytes().len(),
        is_char_boundary(text.spec_bytes(), index as int),
    ensures
        encode_utf8(r@) == text.spec_bytes().subrange(0, index as int) + insertion.spec_bytes()
            + text.spec_bytes().subrange(index as int, text.spec_bytes().len() as int),
        is_char_boundary(encode_utf8(r@), index + insertion.spec_bytes().len()),
        is_char_boundary(encode_utf8(r@), index as int),
{
    let (head, tail) = text.split_at(index);
    let mut r = String::from_str(head);
    r.append(insertion);
    let ghost front = r@;
    r.append(tail);
    proof {
        lemma_encode_concat(head@, insertion@);
        lemma_encode_concat(front, tail@);
        lemma_concat_boundary(front, tail@);
        assert(r@ =~= head@ + (insertion@ + tail@));
        lemma_concat_boundary(head@, insertion@ + tail@);
    }
    r
}

/// Separator characters for tab completion.
pub open spec fn is_completion_separator(c: char) -> bool {
    c == '/' || c == ':' || c == ' ' || c == '?' || c == '&'
}

/// Index of the first non-separator at or after `i`.
pub open spec fn after_separators(a: Seq<char>, i: int) -> int
    decreases a.len() - i,
{
    if i >= a.len() || !is_completion_separator(a[i]) {
        i
    } else {
        after_separators(a, i + 1)
    }
}

/// Length of the completion chunk taken from `a` at or after `i`: up to and
/// including the first run of separators.
pub open spec fn completion_end(a: Seq<char>, i: int) -> int
    decreases a.len() - i,
{
    if i >= a.len() {
        a.len() as int
    } else if is_completion_separator(a[i]) {
        after_separators(a, i)
    } else {
        completion_end(a, i + 1)
    }
}

/// Text added by one tab completion: all of the suggestion up to and
/// including its next separator characters.
pub open spec fn completion_chunk(a: Seq<char>) -> Seq<char> {
    a.take(completion_end(a, 0))
}

/// Abstract state of a text input.
pub struct TextInputView {
    pub text: Seq<char>,
    pub cursor_index: int,
    pub cursor_offset: int,
    pub selection: Option<(int, int)>,
    pub autocomplete: Seq<char>,
    pub focused: bool,
}

/// Bytes of the text of an input.
pub open spec fn input_bytes(v: TextInputView) -> Seq<u8> {
    encode_utf8(v.text)
}

/// Byte position of the cursor: a trailing offset moves it to the end of the
/// character it lies in.
pub open spec fn cursor_byte(v: TextInputView) -> int {
    if v.cursor_offset > 0 {
        boundary_at_or_after(input_bytes(v), v.cursor_index + v.cursor_offset)
    } else {
        v.cursor_index
    }
}

/// Whether a byte range lies in the text, on character boundaries.
pub open spec fn valid_range(bytes: Seq<u8>, start: int, end: int) -> bool {
    &&& 0 <= start <= end <= bytes.len()
    &&& is_char_boundary(bytes, start)
    &&& is_char_boundary(bytes, end)
}

/// Cursor and offset for a text: at its last byte with a trailing offset, or
/// at the start of an empty text.
pub open spec fn end_cursor(len: int) -> (int, int) {
    if len == 0 {
        (0, 0)
    } else {
        (len - 1, 1)
    }
}

/// Selection for the half-open range `start..end`, clamped to the text.
pub open spec fn clamped_selection(start: int, end: int, len: int) -> Option<(int, int)> {
    let s = if start < 0 {
        0
    } else {
        start
    };
    let e = if end > len {
        len
    } else {
        end
    };
    if s < e {
        Some((s, e))
    } else {
        None
    }
}

/// State after a tab completion, or `None` when it changes nothing: with
/// the cursor at the end, the suggestion up to and including its next
/// separators is appended, or `/` when there is no suggestion; the cursor
/// then trails the new text and the selection is cleared.
pub open spec fn tab_completion(v: TextInputView) -> Option<TextInputView> {
    let at_end = cursor_byte(v) >= input_bytes(v).len();
    let appended = if v.autocomplete.len() == 0 || !at_end {
        if at_end {
            Some(seq!['/'])
        } else {
            None
        }
    } else {
        Some(completion_chunk(v.autocomplete))
    };
    match appended {
        Some(extra) => {
            let text = v.text + extra;
            Some(
                TextInputView {
                    text,
                    cursor_index: end_cursor(encode_utf8(text).len() as int).0,
                    cursor_offset: end_cursor(encode_utf8(text).len() as int).1,
                    selection: None,
                    ..v
                },
            )
        },
        None => None,
    }
}

/// Whether `new` is `old` with its selection `a..b` deleted: the bytes of
/// the range removed, the cursor at its start (trailing the last byte when
/// that is the new end of a non-empty text), no selection, the rest kept.
pub open spec fn deleted_selection(old: TextInputView, new: TextInputView, a: int, b: int) -> bool {
    let bytes = input_bytes(old);
    &&& input_bytes(new) == bytes.subrange(0, a) + bytes.subrange(b, bytes.len() as int)
    &&& (new.cursor_index, new.cursor_offset) == (if a > 0 && a == input_bytes(new).len() {
        (a - 1, 1int)
    } else {
        (a, 0int)
    })
    &&& new.selection is None
    &&& new.autocomplete == old.autocomplete
    &&& new.focused == old.focused
}

/// Whether `new` is `old` with its selection, if any, deleted.
pub open spec fn selection_replaced(old: TextInputView, new: TextInputView) -> bool {
    match old.selection {
        Some((a, b)) => deleted_selection(old, new, a, b),
        None => new == old,
    }
}

/// Whether `new` is `old` with the character `c` put in at the cursor, the
/// cursor's index and offset as they were.
pub open spec fn inserted_char(old: TextInputView, new: TextInputView, c: char) -> bool {
    let bytes = input_bytes(old);
    let at = cursor_byte(old);
    &&& input_bytes(new) == bytes.subrange(0, at) + encode_utf8(seq![c]) + bytes.subrange(at, bytes.len() as int)
    &&& new == (TextInputView { text: new.text, ..old })
}

/// Key of a key press, as far as text editing tells keys apart: `C` and `V`
/// are the keys of those capital letters, `Copy` and `Paste` the dedicated
/// clipboard keys.
#[derive(PartialEq, Eq, Structural, Copy, Clone, Debug)]
pub enum EditKey {
    Return,
    Left,
    Right,
    BackSpace,
    Delete,
    Tab,
    Copy,
    Paste,
    C,
    V,
    Other,
}

/// A key press: the key, the character that it types if any, and the
/// modifiers held.
#[derive(Copy, Clone, Debug)]
pub struct KeyPress {
    pub key: EditKey,
    pub key_char: Option<char>,
    pub shift: bool,
    pub ctrl: bool,
    pub alt: bool,
    pub logo: bool,
}

/// Editing command of a key press.
#[derive(PartialEq, Eq, Structural, Copy, Clone, Debug)]
pub enum KeyCommand {
    /// No editing command.
    Ignore,
    /// Submit the text.
    Submit,
    /// Collapse the selection to its start, or move the cursor left.
    Left,
    /// Collapse the selection to its end, or move the cursor right.
    Right,
    /// Delete the selection or the character before the cursor.
    BackSpace,
    /// Delete the selection or the character after the cursor.
    Delete,
    /// Tab completion.
    Tab,
    /// Copy the selection to the clipboard.
    Copy,
    /// Paste from the clipboard.
    Paste,
    /// Replace the selection by the typed character.
    Type,
}

/// Command of a key press. Presses with the logo or alt key held are
/// ignored; the plain editing keys act only without shift and ctrl; copy and
/// paste are their own keys, or ctrl and shift with `C` or `V`; any other
/// press without ctrl types.
pub open spec fn key_command(k: KeyPress) -> KeyCommand {
    let plain = !k.shift && !k.ctrl;
    if k.logo || k.alt {
        KeyCommand::Ignore
    } else if plain && k.key == EditKey::Return {
        KeyCommand::Submit
    } else if plain && k.key == EditKey::Left {
        KeyCommand::Left
    } else if plain && k.key == EditKey::Right {
        KeyCommand::Right
    } else if plain && k.key == EditKey::BackSpace {
        KeyCommand::BackSpace
    } else if plain && k.key == EditKey::Delete {
        KeyCommand::Delete
    } else if plain && k.key == EditKey::Tab {
        KeyCommand::Tab
    } else if k.key == EditKey::Copy || (k.key == EditKey::C && k.shift && k.ctrl) {
        KeyCommand::Copy
    } else if k.key == EditKey::Paste || (k.key == EditKey::V && k.shift && k.ctrl) {
        KeyCommand::Paste
    } else if !k.ctrl {
        KeyCommand::Type
    } else {
        KeyCommand::Ignore
    }
}

impl KeyPress {
    /// Editing command of this key press.
    pub fn command(&self) -> (c: KeyCommand)
        ensures
            c == key_command(*self),
    {
        let plain = !self.shift && !self.ctrl;
        if self.logo || self.alt {
            KeyCommand::Ignore
        } else if plain && self.key == EditKey::Return {
            KeyCommand::Submit
        } else if plain && self.key == EditKey::Left {
            KeyCommand::Left
        } else if plain && self.key == EditKey::Right {
            KeyCommand::Right
        } else if plain && self.key == EditKey::BackSpace {
            KeyCommand::BackSpace
        } else if plain && self.key == EditKey::Delete {
            KeyCommand::Delete
        } else if plain && self.key == EditKey::Tab {
            KeyCommand::Tab
        } else if self.key == EditKey::Copy || (self.key == EditKey::C && self.shift && self.ctrl) {
            KeyCommand::Copy
        } else if self.key == EditKey::Paste || (self.key == EditKey::V && self.shift && self.ctrl) {
            KeyCommand::Paste
        } else if !self.ctrl {
            KeyCommand::Type
        } else {
            KeyCommand::Ignore
        }
    }
}

/// What is left to do after a key press, outside the input's own state.
#[derive(PartialEq, Eq, Debug)]
pub enum KeyAction {
    /// Nothing.
    Ignored,
    /// Hand this text to the submit handler; the input has lost focus.
    Submit(String),
    /// Only the cursor or the selection changed.
    Moved,
    /// Move the cursor by this many positions through the text's layout.
    MoveCursor(i32),
    /// Delete the character before the cursor, found by moving the cursor
    /// back one position through the layout.
    DeleteBackward,
    /// Delete the character after the cursor, found by moving the cursor
    /// forward one position through the layout.
    DeleteForward,
    /// The text changed.
    TextChanged,
    /// A character was put in at the cursor: move the cursor forward one
    /// position through the layout; the text changed.
    Inserted,
    /// Put this text on the clipboard.
    SetClipboard(String),
    /// Ask for the clipboard's text, to paste it.
    RequestPaste,
}

/// Effect of a key press on an input `old`: the new state `new` and what is
/// left to do.
pub open spec fn key_press_effect(old: TextInputView, key: KeyPress, new: TextInputView, action: KeyAction) -> bool {
    let bytes = input_bytes(old);
    match key_command(key) {
        KeyCommand::Ignore => new == old && action is Ignored,
        KeyCommand::Submit => {
            &&& new == (TextInputView {
                focused: false,
                selection: if old.focused {
                    None
                } else {
                    old.selection
                },
                ..old
            })
            &&& action matches KeyAction::Submit(t) && t@ == old.text
        },
        KeyCommand::Left => match old.selection {
            Some((a, _)) => new == (TextInputView {
                selection: None,
                cursor_index: a,
                cursor_offset: 0,
                ..old
            }) && action is Moved,
            None => new == old && action == KeyAction::MoveCursor(-1i32),
        },
        KeyCommand::Right => match old.selection {
            Some((_, b)) => new == (TextInputView {
                selection: None,
                cursor_index: if b >= bytes.len() {
                    bytes.len() - 1
                } else {
                    b
                },
                cursor_offset: if b >= bytes.len() {
                    1
                } else {
                    0
                },
                ..old
            }) && action is Moved,
            None => new == old && action == KeyAction::MoveCursor(1i32),
        },
        KeyCommand::BackSpace => match old.selection {
            Some((a, b)) => deleted_selection(old, new, a, b) && action is TextChanged,
            None => new == old && action is DeleteBackward,
        },
        KeyCommand::Delete => match old.selection {
            Some((a, b)) => deleted_selection(old, new, a, b) && action is TextChanged,
            None => new == old && if bytes.len() == old.cursor_index + old.cursor_offset {
                action is Ignored
            } else {
                action is DeleteForward
            },
        },
        KeyCommand::Tab => match tab_completion(old) {
            Some(v) => new == v && action is TextChanged,
            None => new == old && action is Ignored,
        },
        KeyCommand::Copy => new == old && match old.selection {
            Some((a, b)) => action matches KeyAction::SetClipboard(t) && encode_utf8(t@) == bytes.subrange(a, b),
            None => action is Ignored,
        },
        KeyCommand::Paste => new == old && action is RequestPaste,
        KeyCommand::Type => exists|mid: TextInputView|
            {
                &&& #[trigger] selection_replaced(old, mid)
                &&& match key.key_char {
                    Some(c) => inserted_char(mid, new, c) && action is Inserted,
                    None => new == mid && if old.selection is Some {
                        action is TextChanged
                    } else {
                        action is Ignored
                    },
                }
            },
    }
}

/// Text input field state.
pub struct TextInput {
    text: String,
    cursor_index: i32,
    cursor_offset: i32,
    selection: Option<(i32, i32)>,
    autocomplete: String,
    focused: bool,
}

impl View for TextInput {
    type V = TextInputView;

    closed spec fn view(&self) -> TextInputView {
        TextInputView {
            text: self.text@,
            cursor_index: self.cursor_index as int,
            cursor_offset: self.cursor_offset as int,
            selection: match self.selection {
                Some((s, e)) => Some((s as int, e as int)),
                None => None,
            },
            autocomplete: self.autocomplete@,
            focused: self.focused,
        }
    }
}

/// Well-formedness: the text fits `i32` positions, the cursor lies in it and
/// on a boundary unless it has a trailing offset, and a selection is a
/// non-empty range within the text.
pub open spec fn input_wf(v: TextInputView) -> bool {
    let len = input_bytes(v).len();
    &&& len <= i32::MAX
    &&& 0 <= v.cursor_index
    &&& 0 <= v.cursor_offset
    &&& v.cursor_index + v.cursor_offset <= len
    &&& v.cursor_offset == 0 ==> is_char_boundary(input_bytes(v), v.cursor_index)
    &&& v.selection matches Some((s, e)) ==> 0 <= s < e <= len
}

impl TextInput {
    /// Empty, unfocused input.
    pub fn new() -> (t: Self)
        ensures
            input_wf(t@),
            t@ == (TextInputView {
                text: Seq::empty(),
                cursor_index: 0,
                cursor_offset: 0,
                selection: None,
                autocomplete: Seq::empty(),
                focused: false,
            }),
    {
        let t = TextInput {
            text: String::new(),
            cursor_index: 0,
            cursor_offset: 0,
            selection: None,
            autocomplete: String::new(),
            focused: false,
        };
        proof {
            vstd::utf8::is_char_boundary_start_end_of_seq(encode_utf8(t@.text));
        }
        t
    }

    /// Current text content.
    pub fn text(&self) -> (s: &str)
        ensures
            s@ == self@.text,
    {
        self.text.as_str()
    }

    /// Whether the text is empty.
    pub fn is_empty(&self) -> (r: bool)
        ensures
            r == (self@.text.len() == 0),
    {
        self.text.as_str().is_empty()
    }

    /// Replace the text, placing the cursor at its end and clearing the
    /// selection.
    pub fn set_text(&mut self, text: &str)
        requires
            input_wf(old(self)@),
            text.spec_bytes().len() <= i32::MAX,
        ensures
            input_wf(final(self)@),
            final(self)@ == (TextInputView {
                text: text@,
                cursor_index: end_cursor(text.spec_bytes().len() as int).0,
                cursor_offset: end_cursor(text.spec_bytes().len() as int).1,
                selection: None,
                ..old(self)@
            }),
    {
        let len = text.len();
        self.text = String::from_str(text);
        if len == 0 {
            self.cursor_index = 0;
            self.cursor_offset = 0;
        } else {
            self.cursor_index = len as i32 - 1;
            self.cursor_offset = 1;
        }
        self.selection = None;
        proof {
            vstd::utf8::encode_utf8_valid_utf8(text@);
            vstd::utf8::is_char_boundary_start_end_of_seq(text.spec_bytes());
        }
    }

    /// Byte index of the cursor.
    pub fn cursor_index(&self) -> (i: i32)
        requires
            input_wf(self@),
        ensures
            i == cursor_byte(self@),
            0 <= i <= input_bytes(self@).len(),
            is_char_boundary(input_bytes(self@), i as int),
    {
        let ghost bytes = input_bytes(self@);
        proof {
            vstd::utf8::encode_utf8_valid_utf8(self@.text);
        }
        if self.cursor_offset > 0 {
            let text = self.text.as_str();
            let len = text.len();
            let mut b: usize = (self.cursor_index + self.cursor_offset) as usize;
            proof {
                crate::ime::lemma_after(bytes, b as int);
            }
            while b < len && !text.is_char_boundary(b)
                invariant
                    b <= len,
                    len == bytes.len(),
                    bytes == text.spec_bytes(),
                    boundary_at_or_after(bytes, b as int) == boundary_at_or_after(
                        bytes,
                        self.cursor_index + self.cursor_offset,
                    ),
                decreases len - b,
            {
                b = b + 1;
            }
            proof {
                vstd::utf8::is_char_boundary_start_end_of_seq(bytes);
            }
            b as i32
        } else {
            self.cursor_index
        }
    }

    /// Move the cursor to `index` with a trailing character offset.
    pub fn set_cursor(&mut self, index: i32, offset: i32)
        requires
            input_wf(old(self)@),
            0 <= index,
            0 <= offset,
            index + offset <= input_bytes(old(self)@).len(),
            offset == 0 ==> is_char_boundary(input_bytes(old(self)@), index as int),
        ensures
            input_wf(final(self)@),
            final(self)@ == (TextInputView { cursor_index: index as int, cursor_offset: offset as int, ..old(self)@ }),
    {
        self.cursor_index = index;
        self.cursor_offset = offset;
    }

    /// Current selection range.
    pub fn selection(&self) -> (s: Option<(i32, i32)>)
        ensures
            match s {
                Some((a, b)) => self@.selection == Some((a as int, b as int)),
                None => self@.selection is None,
            },
    {
        self.selection
    }

    /// Select the half-open byte range `start..end`, clamped to the text; an
    /// empty range clears the selection.
    pub fn select(&mut self, start: i32, end: i32)
        requires
            input_wf(old(self)@),
        ensures
            input_wf(final(self)@),
            final(self)@ == (TextInputView {
                selection: clamped_selection(start as int, end as int, input_bytes(old(self)@).len() as int),
                ..old(self)@
            }),
    {
        let len = self.text.as_str().len() as i32;
        let s = if start < 0 {
            0
        } else {
            start
        };
        let e = if end > len {
            len
        } else {
            end
        };
        if s < e {
            self.selection = Some((s, e));
        } else {
            self.selection = None;
        }
    }

    /// Clear text selection.
    pub fn clear_selection(&mut self)
        requires
            input_wf(old(self)@),
        ensures
            input_wf(final(self)@),
            final(self)@ == (TextInputView { selection: None, ..old(self)@ }),
    {
        self.selection = None;
    }

    /// Text of the selection.
    pub fn selection_text(&self) -> (s: Option<String>)
        requires
            input_wf(self@),
            self@.selection matches Some((a, b)) ==> valid_range(input_bytes(self@), a, b),
        ensures
            match self@.selection {
                Some((a, b)) => s matches Some(t) && encode_utf8(t@) == input_bytes(self@).subrange(a, b),
                None => s is None,
            },
    {
        match self.selection {
            Some((a, b)) => {
                let text = self.text.as_str();
                let (head, _) = text.split_at(b as usize);
                proof {
                    vstd::utf8::encode_utf8_valid_utf8(self@.text);
                    crate::ime::lemma_boundary_in_prefix(input_bytes(self@), a as int, b as int);
                }
                let (_, part) = head.split_at(a as usize);
                Some(String::from_str(part))
            },
            None => None,
        }
    }

    /// Delete the selected text, if any, placing the cursor at the start of
    /// the selection; when that is the new end of a non-empty text, the cursor
    /// trails its last byte. Returns whether there was a selection.
    pub fn delete_selection(&mut self) -> (deleted: bool)
        requires
            input_wf(old(self)@),
            old(self)@.selection matches Some((a, b)) ==> valid_range(input_bytes(old(self)@), a, b),
        ensures
            input_wf(final(self)@),
            deleted == old(self)@.selection is Some,
            final(self)@.selection is None,
            final(self)@.autocomplete == old(self)@.autocomplete,
            final(self)@.focused == old(self)@.focused,
            match old(self)@.selection {
                Some((a, b)) => {
                    &&& input_bytes(final(self)@) == input_bytes(old(self)@).subrange(0, a)
                        + input_bytes(old(self)@).subrange(b, input_bytes(old(self)@).len() as int)
                    &&& (final(self)@.cursor_index, final(self)@.cursor_offset) == (if a > 0 && a
                        == input_bytes(final(self)@).len() {
                        (a - 1, 1int)
                    } else {
                        (a, 0int)
                    })
                },
                None => final(self)@ == old(self)@,
            },
    {
        let (start, end) = match self.selection {
            Some(range) => range,
            None => return false,
        };
        self.selection = None;
        let text = remove_range(self.text.as_str(), start as usize, end as usize);
        let new_len = text.as_str().len();
        self.text = text;
        if start > 0 && start as usize == new_len {
            self.cursor_index = start - 1;
            self.cursor_offset = 1;
        } else {
            self.cursor_index = start;
            self.cursor_offset = 0;
        }
        true
    }

    /// Delete up to `before_length` bytes before and `after_length` bytes
    /// after the cursor, leaving the cursor at the start of the deleted range.
    /// A selection is kept as far as it still lies in the shorter text.
    pub fn delete_surrounding_text(&mut self, before_length: u32, after_length: u32)
        requires
            input_wf(old(self)@),
            valid_range(
                input_bytes(old(self)@),
                surrounding_start(cursor_byte(old(self)@), before_length as int),
                surrounding_end(cursor_byte(old(self)@), after_length as int, input_bytes(old(self)@).len() as int),
            ),
        ensures
            input_wf(final(self)@),
            ({
                let bytes = input_bytes(old(self)@);
                let start = surrounding_start(cursor_byte(old(self)@), before_length as int);
                let end = surrounding_end(cursor_byte(old(self)@), after_length as int, bytes.len() as int);
                &&& input_bytes(final(self)@) == bytes.subrange(0, start) + bytes.subrange(end, bytes.len() as int)
                &&& final(self)@ == (TextInputView {
                    text: final(self)@.text,
                    cursor_index: start,
                    cursor_offset: 0,
                    selection: match old(self)@.selection {
                        Some((a, b)) => clamped_selection(a, b, input_bytes(final(self)@).len() as int),
                        None => None,
                    },
                    ..old(self)@
                })
            }),
    {
        let index = self.cursor_index() as usize;
        let len = self.text.as_str().len();
        let end = if (after_length as usize) < len - index {
            index + after_length as usize
        } else {
            len
        };
        let start = index.saturating_sub(before_length as usize);
        let text = remove_range(self.text.as_str(), start, end);
        self.text = text;
        self.cursor_index = start as i32;
        self.cursor_offset = 0;

        // Keep what of the selection still lies in the text.
        let new_len = self.text.as_str().len() as i32;
        self.selection = match self.selection {
            Some((a, b)) => {
                let e = if b > new_len {
                    new_len
                } else {
                    b
                };
                if a < e {
                    Some((a, e))
                } else {
                    None
                }
            },
            None => None,
        };
    }

    /// Insert text at the cursor, replacing the selection, and move the cursor
    /// behind it.
    pub fn paste(&mut self, text: &str)
        requires
            input_wf(old(self)@),
            old(self)@.selection matches Some((a, b)) ==> valid_range(input_bytes(old(self)@), a, b),
            input_bytes(old(self)@).len() + text.spec_bytes().len() <= i32::MAX,
        ensures
            input_wf(final(self)@),
            final(self)@.selection is None,
            final(self)@.autocomplete == old(self)@.autocomplete,
            final(self)@.focused == old(self)@.focused,
            ({
                let (bytes, cursor) = match old(self)@.selection {
                    Some((a, b)) => {
                        let bytes = input_bytes(old(self)@).subrange(0, a) + input_bytes(old(self)@).subrange(
                            b,
                            input_bytes(old(self)@).len() as int,
                        );
                        (bytes, a)
                    },
                    None => (input_bytes(old(self)@), cursor_byte(old(self)@)),
                };
                &&& input_bytes(final(self)@) == bytes.subrange(0, cursor) + text.spec_bytes() + bytes.subrange(
                    cursor,
                    bytes.len() as int,
                )
                &&& cursor_byte(final(self)@) == cursor + text.spec_bytes().len()
            }),
    {
        self.delete_selection();
        let index = self.cursor_index() as usize;
        let new_text = insert_at(self.text.as_str(), index, text);
        self.text = new_text;
        self.cursor_index = (index + text.len()) as i32;
        self.cursor_offset = 0;
    }

    /// Set the autocomplete suggestion, which is expected to have the typed
    /// prefix removed already.
    pub fn set_autocomplete(&mut self, autocomplete: String)
        requires
            input_wf(old(self)@),
        ensures
            input_wf(final(self)@),
            final(self)@ == (TextInputView { autocomplete: autocomplete@, ..old(self)@ }),
    {
        self.autocomplete = autocomplete;
    }

    /// Text appended behind the cursor as a suggestion: shown only while
    /// focused and without a selection.
    pub fn autocomplete(&self) -> (s: &str)
        ensures
            s@ == (if self@.focused && self@.selection is None {
                self@.autocomplete
            } else {
                Seq::empty()
            }),
    {
        proof {
            reveal_strlit("");
        }
        if self.focused && self.selection.is_none() {
            self.autocomplete.as_str()
        } else {
            ""
        }
    }

    /// Whether the input is focused.
    pub fn is_focused(&self) -> (f: bool)
        ensures
            f == self@.focused,
    {
        self.focused
    }

    /// Set input focus: gaining focus selects all text, losing it clears the
    /// selection.
    pub fn set_focus(&mut self, focused: bool)
        requires
            input_wf(old(self)@),
        ensures
            input_wf(final(self)@),
            final(self)@ == (TextInputView {
                focused,
                selection: if focused && !old(self)@.focused {
                    clamped_selection(0, i32::MAX as int, input_bytes(old(self)@).len() as int)
                } else if !focused && old(self)@.focused {
                    None
                } else {
                    old(self)@.selection
                },
                ..old(self)@
            }),
    {
        if focused && !self.focused {
            self.select(0, i32::MAX);
        } else if !focused && self.focused {
            self.clear_selection();
        }
        self.focused = focused;
    }

    /// Collapse the selection to its start, returning whether there was one.
    pub fn collapse_selection_left(&mut self) -> (had_selection: bool)
        requires
            input_wf(old(self)@),
            old(self)@.selection matches Some((a, b)) ==> is_char_boundary(input_bytes(old(self)@), a),
        ensures
            input_wf(final(self)@),
            had_selection == old(self)@.selection is Some,
            match old(self)@.selection {
                Some((a, b)) => final(self)@ == (TextInputView {
                    selection: None,
                    cursor_index: a,
                    cursor_offset: 0,
                    ..old(self)@
                }),
                None => final(self)@ == old(self)@,
            },
    {
        match self.selection {
            Some((start, _)) => {
                self.selection = None;
                self.cursor_index = start;
                self.cursor_offset = 0;
                true
            },
            None => false,
        }
    }

    /// Collapse the selection to its end, trailing the last byte at the end
    /// of the text, returning whether there was one.
    pub fn collapse_selection_right(&mut self) -> (had_selection: bool)
        requires
            input_wf(old(self)@),
            old(self)@.selection matches Some((a, b)) ==> is_char_boundary(input_bytes(old(self)@), b),
        ensures
            input_wf(final(self)@),
            had_selection == old(self)@.selection is Some,
            match old(self)@.selection {
                Some((a, b)) => final(self)@ == (TextInputView {
                    selection: None,
                    cursor_index: if b >= input_bytes(old(self)@).len() {
                        input_bytes(old(self)@).len() - 1
                    } else {
                        b
                    },
                    cursor_offset: if b >= input_bytes(old(self)@).len() {
                        1
                    } else {
                        0
                    },
                    ..old(self)@
                }),
                None => final(self)@ == old(self)@,
            },
    {
        match self.selection {
            Some((_, end)) => {
                let len = self.text.as_str().len() as i32;
                self.selection = None;
                if end >= len {
                    self.cursor_index = len - 1;
                    self.cursor_offset = 1;
                } else {
                    self.cursor_index = end;
                    self.cursor_offset = 0;
                }
                true
            },
            None => false,
        }
    }

    /// Tab completion: append the suggestion up to and including its next
    /// separators when the cursor is at the end; without a suggestion, a
    /// cursor at the end of the text appends `/`. Returns whether the text
    /// changed.
    pub fn tab_complete(&mut self) -> (changed: bool)
        requires
            input_wf(old(self)@),
            input_bytes(old(self)@).len() + encode_utf8(old(self)@.autocomplete).len() + 1 <= i32::MAX,
        ensures
            input_wf(final(self)@),
            match tab_completion(old(self)@) {
                Some(v) => changed && final(self)@ == v,
                None => !changed && final(self)@ == old(self)@,
            },
    {
        let len = self.text.as_str().len();
        let cursor = self.cursor_index() as usize;
        let extra: Vec<char> = if self.autocomplete.as_str().is_empty() || cursor < len {
            if cursor < len {
                return false;
            }
            let mut slash: Vec<char> = Vec::new();
            slash.push('/');
            proof {
                assert(encode_utf8(slash@) =~= vstd::utf8::encode_scalar('/' as u32) + encode_utf8(
                    slash@.drop_first(),
                ));
                assert(encode_utf8(slash@.drop_first()) =~= Seq::<u8>::empty());
            }
            slash
        } else {
            let chunk = completion_chars(&chars_of(self.autocomplete.as_str()));
            proof {
                lemma_completion_end_bound(old(self)@.autocomplete, 0);
                lemma_take_encode_bound(old(self)@.autocomplete, chunk@.len() as int);
            }
            chunk
        };
        let extra_text = string_from_chars(&extra);
        let mut text = self.text.clone();
        text.append(extra_text.as_str());
        proof {
            lemma_encode_concat(self@.text, extra@);
        }
        self.set_text(text.as_str());
        true
    }
}

impl TextInput {
    /// Put a character in at the cursor, keeping the cursor's index and
    /// offset.
    fn insert_char(&mut self, c: char)
        requires
            input_wf(old(self)@),
            old(self)@.selection is None,
            input_bytes(old(self)@).len() + 4 <= i32::MAX,
        ensures
            input_wf(final(self)@),
            inserted_char(old(self)@, final(self)@, c),
    {
        let index = self.cursor_index() as usize;
        let mut chars: Vec<char> = Vec::new();
        chars.push(c);
        let typed = string_from_chars(&chars);
        proof {
            assert(encode_utf8(chars@) =~= vstd::utf8::encode_scalar(c as u32) + encode_utf8(
                chars@.drop_first(),
            ));
            assert(encode_utf8(chars@.drop_first()) =~= Seq::<u8>::empty());
            assert(chars@ =~= seq![c]);
        }
        let new_text = insert_at(self.text.as_str(), index, typed.as_str());
        self.text = new_text;
    }

    /// Handle a key press: apply its editing command to the input and say
    /// what is left to do.
    pub fn press_key(&mut self, key: KeyPress) -> (action: KeyAction)
        requires
            input_wf(old(self)@),
            old(self)@.selection matches Some((a, b)) ==> valid_range(input_bytes(old(self)@), a, b),
            input_bytes(old(self)@).len() + 4 <= i32::MAX,
            input_bytes(old(self)@).len() + encode_utf8(old(self)@.autocomplete).len() + 1 <= i32::MAX,
        ensures
            input_wf(final(self)@),
            key_press_effect(old(self)@, key, final(self)@, action),
    {
        match key.command() {
            KeyCommand::Ignore => KeyAction::Ignored,
            KeyCommand::Submit => {
                let text = String::from_str(self.text.as_str());
                self.set_focus(false);
                KeyAction::Submit(text)
            },
            KeyCommand::Left => {
                if self.collapse_selection_left() {
                    KeyAction::Moved
                } else {
                    KeyAction::MoveCursor(-1)
                }
            },
            KeyCommand::Right => {
                if self.collapse_selection_right() {
                    KeyAction::Moved
                } else {
                    KeyAction::MoveCursor(1)
                }
            },
            KeyCommand::BackSpace => {
                if self.delete_selection() {
                    KeyAction::TextChanged
                } else {
                    KeyAction::DeleteBackward
                }
            },
            KeyCommand::Delete => {
                if self.delete_selection() {
                    KeyAction::TextChanged
                } else if self.text.as_str().len() as i32 == self.cursor_index + self.cursor_offset {
                    // Nothing follows the cursor.
                    KeyAction::Ignored
                } else {
                    KeyAction::DeleteForward
                }
            },
            KeyCommand::Tab => {
                if self.tab_complete() {
                    KeyAction::TextChanged
                } else {
                    KeyAction::Ignored
                }
            },
            KeyCommand::Copy => match self.selection_text() {
                Some(text) => KeyAction::SetClipboard(text),
                None => KeyAction::Ignored,
            },
            KeyCommand::Paste => KeyAction::RequestPaste,
            KeyCommand::Type => {
                // Typing replaces the selection.
                let deleted = self.delete_selection();
                let ghost mid = self@;
                let action = match key.key_char {
                    Some(c) => {
                        self.insert_char(c);
                        KeyAction::Inserted
                    },
                    None => if deleted {
                        KeyAction::TextChanged
                    } else {
                        KeyAction::Ignored
                    },
                };
                proof {
                    assert(selection_replaced(old(self)@, mid));
                }
                action
            },
        }
    }
}

/// Start of the range removed around the cursor.
pub open spec fn surrounding_start(cursor: int, before: int) -> int {
    if cursor >= before {
        cursor - before
    } else {
        0
    }
}

/// End of the range removed around the cursor.
pub open spec fn surrounding_end(cursor: int, after: int, len: int) -> int {
    if cursor + after < len {
        cursor + after
    } else {
        len
    }
}

/// The completion chunk ends within the suggestion.
proof fn lemma_completion_end_bound(a: Seq<char>, i: int)
    requires
        0 <= i <= a.len(),
    ensures
        i <= completion_end(a, i) <= a.len(),
    decreases a.len() - i,
{
    if i < a.len() {
        if is_completion_separator(a[i]) {
            lemma_after_separators_bound(a, i);
        } else {
            lemma_completion_end_bound(a, i + 1);
        }
    }
}

/// The separator run ends within the suggestion.
proof fn lemma_after_separators_bound(a: Seq<char>, i: int)
    requires
        0 <= i <= a.len(),
    ensures
        i <= after_separators(a, i) <= a.len(),
    decreases a.len() - i,
{
    if i < a.len() && is_completion_separator(a[i]) {
        lemma_after_separators_bound(a, i + 1);
    }
}

/// Bytes of a prefix are no more than those of the whole text.
proof fn lemma_take_encode_bound(a: Seq<char>, k: int)
    requires
        0 <= k <= a.len(),
    ensures
        encode_utf8(a.take(k)).len() <= encode_utf8(a).len(),
{
    lemma_encode_concat(a.take(k), a.skip(k));
    assert(a.take(k) + a.skip(k) =~= a);
}

/// The completion chunk of a suggestion.
fn completion_chars(a: &Vec<char>) -> (r: Vec<char>)
    ensures
        r@ == completion_chunk(a@),
{
    let mut i: usize = 0;
    while i < a.len() && !(a[i] == '/' || a[i] == ':' || a[i] == ' ' || a[i] == '?' || a[i] == '&')
        invariant
            i <= a.len(),
            completion_end(a@, i as int) == completion_end(a@, 0),
        decreases a.len() - i,
    {
        i = i + 1;
    }
    if i < a.len() {
        assert(completion_end(a@, i as int) == after_separators(a@, i as int));
        while i < a.len() && (a[i] == '/' || a[i] == ':' || a[i] == ' ' || a[i] == '?' || a[i] == '&')
            invariant
                i <= a.len(),
                after_separators(a@, i as int) == completion_end(a@, 0),
            decreases a.len() - i,
        {
            i = i + 1;
        }
    }
    let mut r: Vec<char> = Vec::new();
    let mut j: usize = 0;
    while j < i
        invariant
            j <= i <= a.len(),
            i as int == completion_end(a@, 0),
            r@ == a@.take(j as int),
        decreases i - j,
    {
        r.push(a[j]);
        j = j + 1;
        assert(r@ =~= a@.take(j as int));
    }
    r
}

/// Deleting as many bytes before the cursor as were just pasted at it, with
/// no selection, gives back the text and cursor from before the paste.
pub proof fn law_paste_then_delete_restores(bytes: Seq<u8>, cursor: int, pasted: Seq<u8>)
    requires
        0 <= cursor <= bytes.len(),
    ensures
        ({
            let after_paste = bytes.subrange(0, cursor) + pasted + bytes.subrange(cursor, bytes.len() as int);
            let new_cursor = cursor + pasted.len();
            let start = surrounding_start(new_cursor, pasted.len() as int);
            let end = surrounding_end(new_cursor, 0, after_paste.len() as int);
            &&& start == cursor
            &&& after_paste.subrange(0, start) + after_paste.subrange(end, after_paste.len() as int) == bytes
        }),
{
    let after_paste = bytes.subrange(0, cursor) + pasted + bytes.subrange(cursor, bytes.len() as int);
    let new_cursor = cursor + pasted.len();
    assert(after_paste.subrange(0, cursor) =~= bytes.subrange(0, cursor));
    assert(after_paste.subrange(new_cursor, after_paste.len() as int) =~= bytes.subrange(
        cursor,
        bytes.len() as int,
    ));
    assert(bytes.subrange(0, cursor) + bytes.subrange(cursor, bytes.len() as int) =~= bytes);
}

/// A tab completion takes a prefix of the suggestion: the whole suggestion
/// when it has no separator, and otherwise everything up to the end of its
/// first run of separators.
pub proof fn law_completion_chunk_is_prefix(a: Seq<char>)
    ensures
        completion_chunk(a).is_prefix_of(a),
        (forall|i: int| 0 <= i < a.len() ==> !is_completion_separator(#[trigger] a[i])) ==> completion_chunk(a) == a,
        (exists|i: int| 0 <= i < a.len() && is_completion_separator(#[trigger] a[i])) ==> {
            let k = completion_chunk(a).len();
            &&& 0 < k
            &&& is_completion_separator(a[k - 1])
            &&& (k < a.len() ==> !is_completion_separator(a[k as int]))
        },
{
    lemma_completion_end_bound(a, 0);
    lemma_completion_end_shape(a, 0);
    assert(a.take(a.len() as int) =~= a);
}

/// Shape of the completion end reached from `i`.
proof fn lemma_completion_end_shape(a: Seq<char>, i: int)
    requires
        0 <= i <= a.len(),
    ensures
        (forall|j: int| i <= j < a.len() ==> !is_completion_separator(#[trigger] a[j])) ==> completion_end(a, i)
            == a.len(),
        (exists|j: int| i <= j < a.len() && is_completion_separator(#[trigger] a[j])) ==> {
            let k = completion_end(a, i);
            &&& i < k <= a.len()
            &&& is_completion_separator(a[k - 1])
            &&& (k < a.len() ==> !is_completion_separator(a[k]))
        },
    decreases a.len() - i,
{
    if i < a.len() {
        if is_completion_separator(a[i]) {
            lemma_after_separators_shape(a, i);
        } else {
            lemma_completion_end_shape(a, i + 1);
            if exists|j: int| i <= j < a.len() && is_completion_separator(#[trigger] a[j]) {
                let j = choose|j: int| i <= j < a.len() && is_completion_separator(#[trigger] a[j]);
                assert(j != i);
                assert(i + 1 <= j);
            }
        }
    }
}

/// A separator run starting at a separator ends after it, on a
/// non-separator or the end.
proof fn lemma_after_separators_shape(a: Seq<char>, i: int)
    requires
        0 <= i < a.len(),
        is_completion_separator(a[i]),
    ensures
        i < after_separators(a, i) <= a.len(),
        is_completion_separator(a[after_separators(a, i) - 1]),
        after_separators(a, i) < a.len() ==> !is_completion_separator(a[after_separators(a, i)]),
    decreases a.len() - i,
{
    assert(after_separators(a, i) == after_separators(a, i + 1));
    if i + 1 < a.len() && is_completion_separator(a[i + 1]) {
        lemma_after_separators_shape(a, i + 1);
    } else {
        assert(after_separators(a, i + 1) == i + 1);
    }
}

/// Which command a key press gives: presses with logo or alt held do
/// nothing; without shift and ctrl the editing keys give their own commands;
/// the clipboard keys copy and paste whatever else is held; and every other
/// press without ctrl types, shifted or not.
pub proof fn law_key_commands(k: KeyPress)
    ensures
        k.logo || k.alt ==> key_command(k) == KeyCommand::Ignore,
        !k.logo && !k.alt && !k.shift && !k.ctrl ==> {
            &&& (k.key == EditKey::Return <==> key_command(k) == KeyCommand::Submit)
            &&& (k.key == EditKey::Left <==> key_command(k) == KeyCommand::Left)
            &&& (k.key == EditKey::Right <==> key_command(k) == KeyCommand::Right)
            &&& (k.key == EditKey::BackSpace <==> key_command(k) == KeyCommand::BackSpace)
            &&& (k.key == EditKey::Delete <==> key_command(k) == KeyCommand::Delete)
            &&& (k.key == EditKey::Tab <==> key_command(k) == KeyCommand::Tab)
        },
        !k.logo && !k.alt && k.key == EditKey::Copy ==> key_command(k) == KeyCommand::Copy,
        !k.logo && !k.alt && k.key == EditKey::Paste ==> key_command(k) == KeyCommand::Paste,
        !k.logo && !k.alt && !k.ctrl && k.key != EditKey::Copy && k.key != EditKey::Paste && (k.shift
            || k.key == EditKey::Other || k.key == EditKey::C || k.key == EditKey::V) ==> key_command(k)
            == KeyCommand::Type,
{
}

/// A press that types a character, with nothing selected, puts exactly that
/// character in at the cursor and keeps the rest of the text around it.
pub proof fn law_typing_inserts_char(
    old: TextInputView,
    k: KeyPress,
    new: TextInputView,
    action: KeyAction,
    c: char,
)
    requires
        !k.logo,
        !k.alt,
        !k.ctrl,
        k.shift || k.key == EditKey::Other,
        k.key != EditKey::Copy && k.key != EditKey::Paste,
        k.key_char == Some(c),
        old.selection is None,
        key_press_effect(old, k, new, action),
    ensures
        action is Inserted,
        input_bytes(new) == input_bytes(old).subrange(0, cursor_byte(old)) + encode_utf8(seq![c])
            + input_bytes(old).subrange(cursor_byte(old), input_bytes(old).len() as int),
        new.cursor_index == old.cursor_index && new.cursor_offset == old.cursor_offset,
        new.selection is None,
{
    law_key_commands(k);
    let mid = choose|mid: TextInputView| #[trigger] selection_replaced(old, mid) && match k.key_char {
        Some(c) => inserted_char(mid, new, c) && action is Inserted,
        None => new == mid && if old.selection is Some {
            action is TextChanged
        } else {
            action is Ignored
        },
    };
    assert(mid == old);
}

/// A tab completion that changes anything happens only with the cursor at
/// the end of the text, extends the text, and leaves the cursor at the end
/// of the new text with nothing selected and the suggestion kept.
pub proof fn law_tab_completion_extends_to_end(v: TextInputView)
    requires
        input_wf(v),
    ensures
        tab_completion(v) matches Some(w) ==> {
            &&& cursor_byte(v) >= input_bytes(v).len()
            &&& v.text.is_prefix_of(w.text)
            &&& w.text.len() > v.text.len()
            &&& cursor_byte(w) == input_bytes(w).len()
            &&& w.selection is None
            &&& w.autocomplete == v.autocomplete
            &&& w.focused == v.focused
        },
{
    if let Some(w) = tab_completion(v) {
        let at_end = cursor_byte(v) >= input_bytes(v).len();
        let extra = if v.autocomplete.len() == 0 || !at_end {
            seq!['/']
        } else {
            completion_chunk(v.autocomplete)
        };
        if !(v.autocomplete.len() == 0 || !at_end) {
            let a = v.autocomplete;
            if is_completion_separator(a[0]) {
                lemma_after_separators_bound(a, 0);
                assert(after_separators(a, 0) == after_separators(a, 1));
                lemma_after_separators_bound(a, 1);
            } else {
                lemma_completion_end_bound(a, 1);
            }
            lemma_completion_end_bound(a, 0);
        }
        assert(w.text == v.text + extra);
        assert(v.text =~= w.text.subrange(0, v.text.len() as int));
        let len = input_bytes(w).len() as int;
        assert(cursor_byte(w) == len);
    }
}

} // verus!
