//! Surrounding text submitted to input methods.

use vstd::prelude::*;
use vstd::string::StringSliceAdditionalSpecFns;
use vstd::utf8::{encode_utf8, is_char_boundary, valid_utf8};

verus! {

broadcast use vstd::string::group_string_axioms;

/// Maximum number of surrounding bytes submitted to IME.
///
/// The value `4000` is chosen to match the maximum Wayland protocol message
/// size, a higher value will lead to errors.
pub const MAX_SURROUNDING_BYTES: usize = 4000;

/// Nearest character boundary at or before `i`.
pub open spec fn boundary_at_or_before(bytes: Seq<u8>, i: int) -> int
    decreases i,
{
    if i <= 0 {
        0
    } else if is_char_boundary(bytes, i) {
        i
    } else {
        boundary_at_or_before(bytes, i - 1)
    }
}

/// Nearest character boundary at or after `i`, or the end of the text.
pub open spec fn boundary_at_or_after(bytes: Seq<u8>, i: int) -> int
    decreases bytes.len() - i,
{
    if i >= bytes.len() || is_char_boundary(bytes, i) {
        i
    } else {
        boundary_at_or_after(bytes, i + 1)
    }
}

/// Byte range `(start, end)` of the surrounding text kept around the cursor
/// range `lo..hi`: up to half of the budget left after the cursor range goes
/// behind it, the rest before it, both ends moved onto character boundaries.
/// A cursor range longer than the budget is replaced by its end.
pub open spec fn surrounding_range(bytes: Seq<u8>, lo: int, hi: int, max_bytes: int) -> (int, int) {
    let start_cursor = if hi - lo > max_bytes {
        hi
    } else {
        lo
    };
    let available = max_bytes - (hi - start_cursor);
    let wanted_end = hi + available / 2;
    let end = if wanted_end >= bytes.len() {
        bytes.len() as int
    } else {
        boundary_at_or_before(bytes, wanted_end)
    };
    let remaining = available - (end - hi);
    let wanted_start = if start_cursor >= remaining {
        start_cursor - remaining
    } else {
        0
    };
    (boundary_at_or_after(bytes, wanted_start), end)
}

/// The boundary search backwards lands on the nearest boundary at or before
/// `i`.
proof fn lemma_before(bytes: Seq<u8>, i: int)
    requires
        valid_utf8(bytes),
        0 <= i <= bytes.len(),
    ensures
        0 <= boundary_at_or_before(bytes, i) <= i,
        is_char_boundary(bytes, boundary_at_or_before(bytes, i)),
        forall|j: int|
            boundary_at_or_before(bytes, i) < j <= i ==> !#[trigger] is_char_boundary(bytes, j),
    decreases i,
{
    vstd::utf8::is_char_boundary_start_end_of_seq(bytes);
    if i > 0 && !is_char_boundary(bytes, i) {
        lemma_before(bytes, i - 1);
    }
}

/// The boundary search forwards lands on the nearest boundary at or after
/// `i`, or the end of the text.
pub(crate) proof fn lemma_after(bytes: Seq<u8>, i: int)
    requires
        valid_utf8(bytes),
        0 <= i <= bytes.len(),
    ensures
        i <= boundary_at_or_after(bytes, i) <= bytes.len(),
        is_char_boundary(bytes, boundary_at_or_after(bytes, i)),
        forall|j: int|
            i <= j < boundary_at_or_after(bytes, i) ==> !#[trigger] is_char_boundary(bytes, j),
    decreases bytes.len() - i,
{
    vstd::utf8::is_char_boundary_start_end_of_seq(bytes);
    if i < bytes.len() && !is_char_boundary(bytes, i) {
        lemma_after(bytes, i + 1);
    }
}

/// A boundary of a text is a boundary of a prefix ending on a later boundary.
pub(crate) proof fn lemma_boundary_in_prefix(bytes: Seq<u8>, start: int, end: int)
    requires
        valid_utf8(bytes),
        0 <= start <= end <= bytes.len(),
        is_char_boundary(bytes, start),
        is_char_boundary(bytes, end),
    ensures
        valid_utf8(bytes.subrange(0, end)),
        is_char_boundary(bytes.subrange(0, end), start),
{
    vstd::utf8::valid_utf8_split(bytes, end);
    let prefix = bytes.subrange(0, end);
    vstd::utf8::is_char_boundary_start_end_of_seq(prefix);
    if start < end {
        vstd::utf8::is_char_boundary_iff_not_is_continuation_byte(bytes, start);
        vstd::utf8::is_char_boundary_iff_not_is_continuation_byte(prefix, start);
    }
}

/// Nearest character boundary at or before `i`.
fn boundary_before(text: &str, i: usize) -> (b: usize)
    requires
        i <= text.spec_bytes().len(),
    ensures
        b as int == boundary_at_or_before(text.spec_bytes(), i as int),
        b <= i,
        is_char_boundary(text.spec_bytes(), b as int),
        forall|j: int| b < j <= i ==> !#[trigger] is_char_boundary(text.spec_bytes(), j),
{
    let ghost bytes = text.spec_bytes();
    proof {
        vstd::utf8::encode_utf8_valid_utf8(text@);
        lemma_before(bytes, i as int);
    }
    let mut b = i;
    while b > 0 && !text.is_char_boundary(b)
        invariant
            b <= i <= bytes.len(),
            bytes == text.spec_bytes(),
            boundary_at_or_before(bytes, b as int) == boundary_at_or_before(bytes, i as int),
        decreases b,
    {
        b = b - 1;
    }
    b
}

/// Nearest character boundary at or after `i`, or the end of the text.
fn boundary_after(text: &str, i: usize) -> (b: usize)
    requires
        i <= text.spec_bytes().len() <= usize::MAX,
    ensures
        b as int == boundary_at_or_after(text.spec_bytes(), i as int),
        i <= b <= text.spec_bytes().len(),
        is_char_boundary(text.spec_bytes(), b as int),
        forall|j: int| i <= j < b ==> !#[trigger] is_char_boundary(text.spec_bytes(), j),
{
    let ghost bytes = text.spec_bytes();
    proof {
        vstd::utf8::encode_utf8_valid_utf8(text@);
        lemma_after(bytes, i as int);
    }
    let len = text.len();
    let mut b = i;
    while b < len && !text.is_char_boundary(b)
        invariant
            i <= b <= len,
            len == bytes.len(),
            bytes == text.spec_bytes(),
            boundary_at_or_after(bytes, b as int) == boundary_at_or_after(bytes, i as int),
        decreases len - b,
    {
        b = b + 1;
    }
    b
}

/// Clamp surrounding text to at most `max_bytes`.
///
/// Returns the kept text and the cursor range relative to it; the cursor
/// start is the lower of the two given indices, and may lie before the kept
/// text when the cursor range does not fit.
pub fn clamp_surrounding_text(
    text: &str,
    cursor_start: usize,
    cursor_end: usize,
    max_bytes: usize,
) -> (r: (String, i32, i32))
    requires
        text.spec_bytes().len() <= i32::MAX,
        cursor_start <= text.spec_bytes().len(),
        cursor_end <= text.spec_bytes().len(),
        is_char_boundary(text.spec_bytes(), cursor_start as int),
        is_char_boundary(text.spec_bytes(), cursor_end as int),
    ensures
        ({
            let lo = if cursor_start <= cursor_end { cursor_start as int } else { cursor_end as int };
            let hi = if cursor_start <= cursor_end { cursor_end as int } else { cursor_start as int };
            let (start, end) = surrounding_range(text.spec_bytes(), lo, hi, max_bytes as int);
            &&& encode_utf8(r.0@) == text.spec_bytes().subrange(start, end)
            &&& r.1 == lo - start
            &&& r.2 == hi - start
        }),
{
    let ghost bytes = text.spec_bytes();
    proof {
        vstd::utf8::encode_utf8_valid_utf8(text@);
    }
    let len = text.len();

    // Ensure start/end are in the right order.
    let (mut cursor_start, cursor_end) = if cursor_start > cursor_end {
        (cursor_end, cursor_start)
    } else {
        (cursor_start, cursor_end)
    };
    assert(is_char_boundary(bytes, cursor_start as int));

    // If the cursor range is longer than the maximum allowed bytes, we ignore the
    // start and just return the bytes surrounding the end.
    let lower_cursor = cursor_start as i32;
    if cursor_end - cursor_start > max_bytes {
        cursor_start = cursor_end;
    }

    // Calculate available bytes outside the cursor range.
    let max_bytes = max_bytes - (cursor_end - cursor_start);

    // Get up to half of the available bytes after the cursor end.
    let mut end = cursor_end + max_bytes / 2;
    if end >= len {
        end = len;
    } else {
        end = boundary_before(text, end);
        // The end never moves before the cursor end, which is a boundary.
        assert(is_char_boundary(bytes, cursor_end as int));
    }
    assert(end >= cursor_end);

    // Get as many bytes as available before the cursor.
    let remaining = max_bytes - (end - cursor_end);
    let start = boundary_after(text, cursor_start.saturating_sub(remaining));
    assert(is_char_boundary(bytes, cursor_start as int));
    assert(start <= cursor_start);

    // Calculate cursor indices relative to surrounding text.
    let relative_start = lower_cursor - start as i32;
    let relative_end = cursor_end as i32 - start as i32;

    proof {
        vstd::utf8::is_char_boundary_start_end_of_seq(bytes);
        lemma_boundary_in_prefix(bytes, start as int, end as int);
    }
    let (head, _) = text.split_at(end);
    let (_, kept) = head.split_at(start);
    let kept_text = kept.to_owned();
    assert(kept.spec_bytes() =~= bytes.subrange(start as int, end as int));
    (kept_text, relative_start, relative_end)
}

/// The kept surrounding text never exceeds the byte budget, always contains
/// the cursor end, and starts at or before the start of the cursor range that
/// is kept.
pub proof fn law_surrounding_text_within_budget(bytes: Seq<u8>, lo: int, hi: int, max_bytes: int)
    requires
        valid_utf8(bytes),
        0 <= lo <= hi <= bytes.len(),
        0 <= max_bytes,
        is_char_boundary(bytes, lo),
        is_char_boundary(bytes, hi),
    ensures
        ({
            let (start, end) = surrounding_range(bytes, lo, hi, max_bytes);
            &&& 0 <= start <= hi <= end <= bytes.len()
            &&& end - start <= max_bytes
            &&& hi - lo <= max_bytes ==> start <= lo
        }),
{
    let start_cursor = if hi - lo > max_bytes {
        hi
    } else {
        lo
    };
    let available = max_bytes - (hi - start_cursor);
    let wanted_end = hi + available / 2;
    vstd::utf8::is_char_boundary_start_end_of_seq(bytes);
    if wanted_end < bytes.len() {
        lemma_before(bytes, wanted_end);
    }
    let end = surrounding_range(bytes, lo, hi, max_bytes).1;
    let remaining = available - (end - hi);
    let wanted_start = if start_cursor >= remaining {
        start_cursor - remaining
    } else {
        0
    };
    lemma_after(bytes, wanted_start);
    assert(is_char_boundary(bytes, start_cursor));
}

/// Text input state submitted to the compositor's input method.
#[derive(Debug)]
pub struct TextInputState {
    pub surrounding_text: String,
    pub cursor_index: i32,
    pub selection: Option<(i32, i32)>,
    pub cursor_rect: (i32, i32, i32, i32),
}

/// Abstract form of a text input state.
pub struct TextInputStateView {
    pub surrounding_text: Seq<char>,
    pub cursor_index: i32,
    pub selection: Option<(i32, i32)>,
    pub cursor_rect: (i32, i32, i32, i32),
}

impl View for TextInputState {
    type V = TextInputStateView;

    open spec fn view(&self) -> TextInputStateView {
        TextInputStateView {
            surrounding_text: self.surrounding_text@,
            cursor_index: self.cursor_index,
            selection: self.selection,
            cursor_rect: self.cursor_rect,
        }
    }
}

impl TextInputState {
    /// State of a freshly focused input.
    pub fn empty() -> (s: Self)
        ensures
            s@ == fresh_state(),
    {
        TextInputState { surrounding_text: String::new(), cursor_index: 0, selection: None, cursor_rect: (0, 0, 0, 0) }
    }

    /// Copy of the state.
    pub fn duplicate(&self) -> (s: Self)
        ensures
            s@ == self@,
    {
        TextInputState {
            surrounding_text: self.surrounding_text.clone(),
            cursor_index: self.cursor_index,
            selection: self.selection,
            cursor_rect: self.cursor_rect,
        }
    }
}

/// State of a freshly focused input: no text, cursor or selection.
pub open spec fn fresh_state() -> TextInputStateView {
    TextInputStateView { surrounding_text: Seq::empty(), cursor_index: 0, selection: None, cursor_rect: (0, 0, 0, 0) }
}

/// Change of the text input state since it was last submitted.
pub enum TextInputChange {
    /// Nothing changed.
    Unchanged,
    /// Text input is disabled.
    Disabled,
    /// The new state.
    Dirty(TextInputState),
}

/// Abstract state of an input method context: the current text input state,
/// if an input is focused, and whether it changed since it was submitted.
pub struct InputMethodView {
    pub state: Option<TextInputStateView>,
    pub dirty: bool,
}

/// Input method context of a web view.
pub struct InputMethodContext {
    state: Option<TextInputState>,
    dirty: bool,
}

impl View for InputMethodContext {
    type V = InputMethodView;

    closed spec fn view(&self) -> InputMethodView {
        InputMethodView {
            state: match self.state {
                Some(s) => Some(s@),
                None => None,
            },
            dirty: self.dirty,
        }
    }
}

/// State after the page reported its surrounding text: the text clamped to
/// the byte budget around the cursor and selection bound, with a selection
/// when the two differ.
pub open spec fn with_surrounding(
    state: TextInputStateView,
    bytes: Seq<u8>,
    cursor_index: int,
    selection_index: int,
) -> TextInputStateView {
    let lo = if cursor_index <= selection_index { cursor_index } else { selection_index };
    let hi = if cursor_index <= selection_index { selection_index } else { cursor_index };
    let (start, end) = surrounding_range(bytes, lo, hi, MAX_SURROUNDING_BYTES as int);
    TextInputStateView {
        surrounding_text: vstd::utf8::decode_utf8(bytes.subrange(start, end)),
        cursor_index: (lo - start) as i32,
        selection: if lo != hi {
            Some(((lo - start) as i32, (hi - start) as i32))
        } else {
            state.selection
        },
        ..state
    }
}

impl InputMethodContext {
    /// Context without a focused input.
    pub fn new() -> (c: Self)
        ensures
            c@.state is None,
            !c@.dirty,
    {
        InputMethodContext { state: None, dirty: false }
    }

    /// An input gained focus.
    pub fn focus_in(&mut self)
        ensures
            final(self)@.state == Some(fresh_state()),
            final(self)@.dirty,
    {
        self.state = Some(TextInputState::empty());
        self.dirty = true;
    }

    /// The input lost focus.
    pub fn focus_out(&mut self)
        ensures
            final(self)@.state is None,
            final(self)@.dirty,
    {
        self.state = None;
        self.dirty = true;
    }

    /// Mark text input state as dirty, forcing it to be submitted again.
    pub fn mark_dirty(&mut self)
        ensures
            final(self)@.state == old(self)@.state,
            final(self)@.dirty,
    {
        self.dirty = true;
    }

    /// Update the cursor rectangle of a focused input.
    pub fn set_cursor_area(&mut self, x: i32, y: i32, width: i32, height: i32)
        ensures
            match old(self)@.state {
                Some(s) => final(self)@.state == Some(TextInputStateView { cursor_rect: (x, y, width, height), ..s })
                    && final(self)@.dirty,
                None => final(self)@ == old(self)@,
            },
    {
        if let Some(state) = &mut self.state {
            state.cursor_rect = (x, y, width, height);
            self.dirty = true;
        }
    }

    /// Update the surrounding text of a focused input; positions are byte
    /// indices into `text`.
    pub fn set_surrounding(&mut self, text: &str, cursor_index: u32, selection_index: u32)
        requires
            text.spec_bytes().len() <= i32::MAX,
            cursor_index <= text.spec_bytes().len(),
            selection_index <= text.spec_bytes().len(),
            is_char_boundary(text.spec_bytes(), cursor_index as int),
            is_char_boundary(text.spec_bytes(), selection_index as int),
        ensures
            match old(self)@.state {
                Some(s) => final(self)@.state == Some(
                    with_surrounding(s, text.spec_bytes(), cursor_index as int, selection_index as int),
                ) && final(self)@.dirty,
                None => final(self)@ == old(self)@,
            },
    {
        if let Some(state) = &mut self.state {
            let (surrounding, start, end) = clamp_surrounding_text(
                text,
                cursor_index as usize,
                selection_index as usize,
                MAX_SURROUNDING_BYTES,
            );
            proof {
                vstd::utf8::encode_utf8_decode_utf8(surrounding@);
            }
            state.surrounding_text = surrounding;
            state.cursor_index = start;
            if start != end {
                state.selection = Some((start, end));
            }
            self.dirty = true;
        }
    }

    /// Forget the input's state, as after a new focus, if an input is
    /// focused.
    pub fn reset(&mut self)
        ensures
            match old(self)@.state {
                Some(_) => final(self)@.state == Some(fresh_state()) && final(self)@.dirty,
                None => final(self)@ == old(self)@,
            },
    {
        if self.state.is_some() {
            self.focus_in();
        }
    }

    /// Text input change to submit: nothing without changes, disabled
    /// without a focused input, else the current state; the change is then
    /// considered submitted.
    pub fn text_input_state(&mut self) -> (change: TextInputChange)
        ensures
            final(self)@.state == old(self)@.state,
            !final(self)@.dirty,
            !old(self)@.dirty ==> change is Unchanged,
            old(self)@.dirty ==> match old(self)@.state {
                Some(s) => change matches TextInputChange::Dirty(t) && t@ == s,
                None => change is Disabled,
            },
    {
        if !self.dirty {
            return TextInputChange::Unchanged;
        }
        self.dirty = false;
        match &self.state {
            Some(state) => TextInputChange::Dirty(state.duplicate()),
            None => TextInputChange::Disabled,
        }
    }
}

} // verus!
