//! The chat overlay's keyboard and mouse handling: editing the input line,
//! what each key does, and the mouse wheel and text selection.

use vstd::prelude::*;
use crate::layout::{next_word_index, prev_word_index, spec_next_word_pos, spec_prev_word_pos};

verus! {

// ---------------------------------------------------------------------------
// The input line.
// ---------------------------------------------------------------------------

/// The input line: its characters, the cursor (a character index, at most
/// the length) and the attachment picker's selection.
pub struct InputLineView {
    pub text: Seq<char>,
    pub cursor: nat,
    pub picker_index: nat,
}

/// The text the user is typing.
pub struct InputLine {
    text: Vec<char>,
    cursor: usize,
    picker_index: usize,
}

impl View for InputLine {
    type V = InputLineView;

    closed spec fn view(&self) -> InputLineView {
        InputLineView {
            text: self.text@,
            cursor: self.cursor as nat,
            picker_index: self.picker_index as nat,
        }
    }
}

/// An edit of the input line.
#[derive(Debug, Clone, Copy, PartialEq, Eq, Structural)]
pub enum InputEdit {
    /// Clear the whole line (Cmd+Backspace, Ctrl+U).
    ClearLine,
    /// Delete the word before the cursor (Option+Backspace).
    DeleteWordBack,
    /// Delete the character before the cursor.
    Backspace,
    /// Cursor to the start (Ctrl+A, Cmd+Left).
    Home,
    /// Cursor to the end (Ctrl+E, Cmd+Right).
    End,
    /// Cursor to the previous word boundary (Option+Left).
    WordLeft,
    /// Cursor to the next word boundary (Option+Right).
    WordRight,
    Left,
    Right,
    /// Type a character at the cursor.
    Insert(char),
}

/// The input line after an edit. Every edit but a backspace with nothing
/// before the cursor resets the picker selection.
pub open spec fn after_edit(s: InputLineView, e: InputEdit) -> InputLineView {
    let len = s.text.len();
    match e {
        InputEdit::ClearLine => InputLineView { text: Seq::empty(), cursor: 0, picker_index: 0 },
        InputEdit::DeleteWordBack => if s.cursor > 0 {
            let t = spec_prev_word_pos(s.text, s.cursor as int);
            InputLineView {
                text: s.text.take(t) + s.text.skip(s.cursor as int),
                cursor: t as nat,
                picker_index: 0,
            }
        } else {
            s
        },
        InputEdit::Backspace => if s.cursor > 0 {
            InputLineView {
                text: s.text.take(s.cursor - 1) + s.text.skip(s.cursor as int),
                cursor: (s.cursor - 1) as nat,
                picker_index: 0,
            }
        } else {
            s
        },
        InputEdit::Home => InputLineView { cursor: 0, picker_index: 0, ..s },
        InputEdit::End => InputLineView { cursor: len, picker_index: 0, ..s },
        InputEdit::WordLeft => InputLineView {
            cursor: spec_prev_word_pos(s.text, s.cursor as int) as nat,
            picker_index: 0,
            ..s
        },
        InputEdit::WordRight => InputLineView {
            cursor: spec_next_word_pos(s.text, s.cursor as int) as nat,
            picker_index: 0,
            ..s
        },
        InputEdit::Left => InputLineView {
            cursor: if s.cursor > 0 {
                (s.cursor - 1) as nat
            } else {
                s.cursor
            },
            picker_index: 0,
            ..s
        },
        InputEdit::Right => InputLineView {
            cursor: if s.cursor < len {
                s.cursor + 1
            } else {
                s.cursor
            },
            picker_index: 0,
            ..s
        },
        InputEdit::Insert(c) => InputLineView {
            text: s.text.insert(s.cursor as int, c),
            cursor: s.cursor + 1,
            picker_index: 0,
        },
    }
}

impl InputLine {
    /// The cursor lies within the text.
    pub closed spec fn wf(&self) -> bool {
        self.cursor <= self.text@.len()
    }

    /// An input line holding `text` with the cursor at character `cursor`
    /// (at the end when the text is shorter).
    pub fn new(text: &str, cursor: usize) -> (line: InputLine)
        ensures
            line.wf(),
            line@.text == text@,
            line@.cursor == (if cursor < text@.len() {
                cursor as nat
            } else {
                text@.len()
            }),
            line@.picker_index == 0,
    {
        let chars = crate::text::str_to_chars(text);
        let c = if cursor < chars.len() {
            cursor
        } else {
            chars.len()
        };
        InputLine { text: chars, cursor: c, picker_index: 0 }
    }

    /// The text.
    pub fn text(&self) -> (s: String)
        ensures
            s@ == self@.text,
    {
        crate::text::chars_to_string(self.text.as_slice())
    }

    /// The cursor, as a character index.
    pub fn cursor(&self) -> (c: usize)
        ensures
            c == self@.cursor,
    {
        self.cursor
    }

    /// The attachment picker's selection.
    pub fn picker_index(&self) -> (i: usize)
        ensures
            i == self@.picker_index,
    {
        self.picker_index
    }

    /// Whether the edit changes the text enough to be undoable: clearing,
    /// and deleting a word when there is one before the cursor.
    pub fn wants_undo_snapshot(&self, e: InputEdit) -> (b: bool)
        ensures
            b == (e == InputEdit::ClearLine || (e == InputEdit::DeleteWordBack && self@.cursor > 0)),
    {
        match e {
            InputEdit::ClearLine => true,
            InputEdit::DeleteWordBack => self.cursor > 0,
            _ => false,
        }
    }

    /// Applies an edit.
    pub fn apply(&mut self, e: InputEdit)
        requires
            old(self).wf(),
            e is Insert ==> old(self)@.text.len() < usize::MAX,
        ensures
            final(self).wf(),
            final(self)@ == after_edit(old(self)@, e),
    {
        match e {
            InputEdit::ClearLine => {
                self.text = Vec::new();
                self.cursor = 0;
                self.picker_index = 0;
            },
            InputEdit::DeleteWordBack => {
                if self.cursor > 0 {
                    let t = prev_word_index(self.text.as_slice(), self.cursor);
                    let mut kept = crate::text::sub_vec(self.text.as_slice(), 0, t);
                    let tail = crate::text::sub_vec(self.text.as_slice(), self.cursor, self.text.len());
                    crate::text::push_all(&mut kept, tail.as_slice());
                    self.text = kept;
                    self.cursor = t;
                    self.picker_index = 0;
                }
            },
            InputEdit::Backspace => {
                if self.cursor > 0 {
                    let mut kept = crate::text::sub_vec(self.text.as_slice(), 0, self.cursor - 1);
                    let tail = crate::text::sub_vec(self.text.as_slice(), self.cursor, self.text.len());
                    crate::text::push_all(&mut kept, tail.as_slice());
                    self.text = kept;
                    self.cursor = self.cursor - 1;
                    self.picker_index = 0;
                }
            },
            InputEdit::Home => {
                self.cursor = 0;
                self.picker_index = 0;
            },
            InputEdit::End => {
                self.cursor = self.text.len();
                self.picker_index = 0;
            },
            InputEdit::WordLeft => {
                self.cursor = prev_word_index(self.text.as_slice(), self.cursor);
                self.picker_index = 0;
            },
            InputEdit::WordRight => {
                self.cursor = next_word_index(self.text.as_slice(), self.cursor);
                self.picker_index = 0;
            },
            InputEdit::Left => {
                if self.cursor > 0 {
                    self.cursor = self.cursor - 1;
                }
                self.picker_index = 0;
            },
            InputEdit::Right => {
                if self.cursor < self.text.len() {
                    self.cursor = self.cursor + 1;
                }
                self.picker_index = 0;
            },
            InputEdit::Insert(c) => {
                self.text.insert(self.cursor, c);
                self.cursor = self.cursor + 1;
                self.picker_index = 0;
            },
        }
    }
}

/// Typing a character and deleting it again with Backspace gives back the
/// text and the cursor.
pub proof fn law_insert_then_backspace(s: InputLineView, c: char)
    requires
        s.cursor <= s.text.len(),
    ensures
        after_edit(after_edit(s, InputEdit::Insert(c)), InputEdit::Backspace).text == s.text,
        after_edit(after_edit(s, InputEdit::Insert(c)), InputEdit::Backspace).cursor == s.cursor,
{
    let t = s.text.insert(s.cursor as int, c);
    assert(t.take(s.cursor as int) + t.skip(s.cursor + 1int) =~= s.text);
}

/// Every edit keeps the cursor within the text.
pub proof fn law_edit_keeps_cursor_in_text(s: InputLineView, e: InputEdit)
    requires
        s.cursor <= s.text.len(),
    ensures
        after_edit(s, e).cursor <= after_edit(s, e).text.len(),
{
    crate::layout::lemma_prev_word_pos_bounds(s.text, s.cursor as int);
    crate::layout::lemma_next_word_pos_bounds(s.text, s.cursor as int);
}

// ---------------------------------------------------------------------------
// Keys.
// ---------------------------------------------------------------------------

/// A key of the keyboard as the overlay tells them apart.
#[derive(Debug, Clone, Copy, PartialEq, Eq, Structural)]
pub enum Key {
    Char(char),
    Enter,
    Escape,
    Backspace,
    Tab,
    Up,
    Down,
    Left,
    Right,
    PageUp,
    PageDown,
    Other,
}

/// The modifiers held with a key: exactly one of them, none, or another
/// combination.
#[derive(Debug, Clone, Copy, PartialEq, Eq, Structural)]
pub enum Mods {
    Bare,
    Shift,
    Ctrl,
    Alt,
    Super,
    Other,
}

/// Where fetching the model list stands.
#[derive(Debug, Clone, Copy, PartialEq, Eq, Structural)]
pub enum ModelFetch {
    Loading,
    Failed,
    Loaded,
}

/// What a key's meaning depends on in the chat.
#[derive(Debug, Clone, Copy, PartialEq, Eq, Structural)]
pub struct KeyContext {
    /// A tool call waits for the user's approval.
    pub pending_approval: bool,
    /// A reply is streaming in.
    pub is_streaming: bool,
    /// No streamed text is still queued for display.
    pub queue_empty: bool,
    /// The slash-command picker has options (while not streaming).
    pub slash_options: bool,
    /// The slash command selected runs as soon as it is picked.
    pub slash_submits_immediately: bool,
    /// The attachment picker has options (while not streaming).
    pub picker_options: bool,
    /// The token being typed is exactly one of the attachment options.
    pub picker_exact_match: bool,
    /// The input is blank.
    pub input_blank: bool,
    pub scroll_offset: usize,
    /// How many display lines the conversation has.
    pub total_lines: usize,
    /// How many of them the message area shows.
    pub area_height: usize,
    pub model_fetch: ModelFetch,
    pub model_count: usize,
    pub model_index: usize,
}

/// What a key does in the chat.
#[derive(Debug, Clone, Copy, PartialEq, Eq, Structural)]
pub enum KeyAction {
    Nothing,
    Quit,
    CancelStream,
    /// Answer the pending approval.
    Approve,
    Reject,
    /// Leave the approval pending and ignore the key.
    KeepApproval,
    /// Take the selected slash command, and run it when `submit`.
    AcceptSlash { submit: bool },
    AcceptAttachment,
    Submit,
    /// Stop the reply that is streaming, mark it complete, scroll to the
    /// bottom and send the input.
    InterruptAndSubmit,
    ScrollTo(usize),
    Edit(InputEdit),
    Undo,
    Copy,
    /// Move the slash picker's selection by one (down when true).
    MoveSlash(bool),
    /// Move the attachment picker's selection by one (down when true).
    MovePicker(bool),
    /// Tell the user the model list is still loading.
    FlashLoadingModels,
    /// Tell the user fetching the model list failed.
    FlashFetchFailed,
    /// Switch to the next model (and remember it).
    NextModel,
}

/// A key's effect: whether the selection is dismissed, and the action.
#[derive(Debug, Clone, Copy, PartialEq, Eq, Structural)]
pub struct KeyOutcome {
    pub clear_selection: bool,
    pub action: KeyAction,
}

/// A control character (`char::is_control`: general category Cc).
pub open spec fn is_control_char(c: char) -> bool {
    c <= '\u{1f}' || ('\u{7f}' <= c && c <= '\u{9f}')
}

/// `a + b`, saturating at `usize::MAX`.
pub open spec fn sat_add(a: int, b: int) -> int {
    if a + b > usize::MAX {
        usize::MAX as int
    } else {
        a + b
    }
}

/// `a - b`, saturating at 0.
pub open spec fn sat_sub(a: int, b: int) -> int {
    if a >= b {
        a - b
    } else {
        0
    }
}

/// The farthest the conversation scrolls back.
pub open spec fn max_scroll(ctx: KeyContext) -> int {
    sat_sub(ctx.total_lines as int, ctx.area_height as int)
}

/// Whether the key is Tab (or a tab character).
pub open spec fn is_tab(key: Key) -> bool {
    key == Key::Tab || key == Key::Char('\t')
}

/// What a key does in the chat (outside the resume picker). Keys answer a
/// pending approval first; Escape cancels a streaming reply or leaves;
/// Enter runs or completes pickers, submits, or interrupts a streaming
/// reply; the rest edit the input, scroll, copy, undo or switch models.
pub open spec fn spec_key_action(key: Key, mods: Mods, ctx: KeyContext) -> KeyAction {
    let slash = !ctx.is_streaming && ctx.slash_options;
    let picker = !ctx.is_streaming && ctx.picker_options;
    let exact = picker && ctx.picker_exact_match;
    if ctx.pending_approval {
        if key == Key::Enter && mods == Mods::Bare {
            KeyAction::Approve
        } else if key == Key::Escape {
            KeyAction::Reject
        } else {
            KeyAction::KeepApproval
        }
    } else if key == Key::Escape || (key == Key::Char('C') && mods == Mods::Ctrl) {
        if ctx.is_streaming || !ctx.queue_empty {
            KeyAction::CancelStream
        } else {
            KeyAction::Quit
        }
    } else if key == Key::Enter && mods == Mods::Bare && slash {
        KeyAction::AcceptSlash { submit: ctx.slash_submits_immediately }
    } else if key == Key::Enter && mods == Mods::Bare && picker && !exact {
        KeyAction::AcceptAttachment
    } else if key == Key::Enter && mods == Mods::Bare && !ctx.is_streaming {
        KeyAction::Submit
    } else if key == Key::Enter && mods == Mods::Bare {
        if !ctx.input_blank {
            KeyAction::InterruptAndSubmit
        } else if ctx.scroll_offset > 0 {
            KeyAction::ScrollTo(0)
        } else {
            KeyAction::Nothing
        }
    } else if key == Key::Enter {
        KeyAction::Nothing
    } else if key == Key::Backspace && mods == Mods::Super {
        KeyAction::Edit(InputEdit::ClearLine)
    } else if key == Key::Backspace && mods == Mods::Alt {
        KeyAction::Edit(InputEdit::DeleteWordBack)
    } else if key == Key::Backspace {
        KeyAction::Edit(InputEdit::Backspace)
    } else if key == Key::Char('U') && mods == Mods::Ctrl {
        KeyAction::Edit(InputEdit::ClearLine)
    } else if (key == Key::Char('z') || key == Key::Char('Z')) && mods == Mods::Super {
        KeyAction::Undo
    } else if key == Key::Char('A') && mods == Mods::Ctrl {
        KeyAction::Edit(InputEdit::Home)
    } else if key == Key::Char('E') && mods == Mods::Ctrl {
        KeyAction::Edit(InputEdit::End)
    } else if (key == Key::Char('w') || key == Key::Char('W')) && mods == Mods::Super {
        KeyAction::Quit
    } else if (key == Key::Char('c') || key == Key::Char('C')) && mods == Mods::Super {
        KeyAction::Copy
    } else if key == Key::Up && slash {
        KeyAction::MoveSlash(false)
    } else if key == Key::Down && slash {
        KeyAction::MoveSlash(true)
    } else if key == Key::Up && picker {
        KeyAction::MovePicker(false)
    } else if key == Key::Down && picker {
        KeyAction::MovePicker(true)
    } else if key == Key::Up || key == Key::PageUp {
        let up = sat_add(ctx.scroll_offset as int, 3);
        KeyAction::ScrollTo(
            (if up < max_scroll(ctx) {
                up
            } else {
                max_scroll(ctx)
            }) as usize,
        )
    } else if key == Key::Down || key == Key::PageDown {
        KeyAction::ScrollTo(sat_sub(ctx.scroll_offset as int, 3) as usize)
    } else if key == Key::Left && mods == Mods::Super {
        KeyAction::Edit(InputEdit::Home)
    } else if key == Key::Right && mods == Mods::Super {
        KeyAction::Edit(InputEdit::End)
    } else if key == Key::Left && mods == Mods::Alt {
        KeyAction::Edit(InputEdit::WordLeft)
    } else if key == Key::Right && mods == Mods::Alt {
        KeyAction::Edit(InputEdit::WordRight)
    } else if key == Key::Left {
        KeyAction::Edit(InputEdit::Left)
    } else if key == Key::Right {
        KeyAction::Edit(InputEdit::Right)
    } else if is_tab(key) && mods == Mods::Bare && slash {
        KeyAction::AcceptSlash { submit: false }
    } else if is_tab(key) && mods == Mods::Bare && picker {
        KeyAction::AcceptAttachment
    } else if is_tab(key) && mods == Mods::Shift {
        if ctx.is_streaming {
            KeyAction::Nothing
        } else {
            match ctx.model_fetch {
                ModelFetch::Loading => KeyAction::FlashLoadingModels,
                ModelFetch::Failed => KeyAction::FlashFetchFailed,
                ModelFetch::Loaded => if ctx.model_count > 1 && ctx.model_index + 1
                    < ctx.model_count {
                    KeyAction::NextModel
                } else {
                    KeyAction::Nothing
                },
            }
        }
    } else {
        match key {
            Key::Char(c) => if (mods == Mods::Bare || mods == Mods::Shift) && !is_control_char(c) {
                KeyAction::Edit(InputEdit::Insert(c))
            } else {
                KeyAction::Nothing
            },
            _ => KeyAction::Nothing,
        }
    }
}

/// The key copies the selection (Cmd+C).
pub open spec fn is_copy_key(key: Key, mods: Mods) -> bool {
    (key == Key::Char('c') || key == Key::Char('C')) && mods == Mods::Super
}

/// A key's effect in the chat: any key but Cmd+C dismisses the selection.
pub open spec fn spec_key_outcome(key: Key, mods: Mods, ctx: KeyContext, has_selection: bool) -> KeyOutcome {
    KeyOutcome {
        clear_selection: has_selection && !is_copy_key(key, mods),
        action: spec_key_action(key, mods, ctx),
    }
}

/// The arrow and page keys scroll the conversation by three lines, unless
/// an approval is pending or a picker takes the arrow: Down and PageDown
/// toward the newest line (not past it, offset 0), Up and PageUp toward the
/// oldest (not past the top, where the message area shows the first line).
pub proof fn law_scroll_keys_move_three_lines(key: Key, mods: Mods, ctx: KeyContext, has_selection: bool)
    requires
        !ctx.pending_approval,
        key == Key::Down || key == Key::PageDown || key == Key::Up || key == Key::PageUp,
        key == Key::Down || key == Key::Up ==> ctx.is_streaming || (!ctx.slash_options
            && !ctx.picker_options),
    ensures
        key == Key::Down || key == Key::PageDown ==> spec_key_outcome(key, mods, ctx, has_selection).action
            == KeyAction::ScrollTo(
            (if ctx.scroll_offset >= 3 {
                ctx.scroll_offset - 3
            } else {
                0
            }) as usize,
        ),
        key == Key::Up || key == Key::PageUp ==> ({
            let top: int = if ctx.total_lines >= ctx.area_height {
                ctx.total_lines - ctx.area_height
            } else {
                0
            };
            let up: int = if ctx.scroll_offset + 3 <= usize::MAX {
                ctx.scroll_offset + 3
            } else {
                usize::MAX as int
            };
            spec_key_outcome(key, mods, ctx, has_selection).action == KeyAction::ScrollTo(
                (if up < top {
                    up
                } else {
                    top
                }) as usize,
            )
        }),
{
}

fn is_control(c: char) -> (b: bool)
    ensures
        b == is_control_char(c),
{
    c <= '\u{1f}' || ('\u{7f}' <= c && c <= '\u{9f}')
}

/// What a key does in the chat.
pub fn key_outcome(key: Key, mods: Mods, ctx: &KeyContext, has_selection: bool) -> (out: KeyOutcome)
    ensures
        out == spec_key_outcome(key, mods, *ctx, has_selection),
{
    let is_copy = (key == Key::Char('c') || key == Key::Char('C')) && mods == Mods::Super;
    let clear_selection = has_selection && !is_copy;
    let slash = !ctx.is_streaming && ctx.slash_options;
    let picker = !ctx.is_streaming && ctx.picker_options;
    let exact = picker && ctx.picker_exact_match;
    let tab = key == Key::Tab || key == Key::Char('\t');
    let action = if ctx.pending_approval {
        if key == Key::Enter && mods == Mods::Bare {
            KeyAction::Approve
        } else if key == Key::Escape {
            KeyAction::Reject
        } else {
            KeyAction::KeepApproval
        }
    } else if key == Key::Escape || (key == Key::Char('C') && mods == Mods::Ctrl) {
        if ctx.is_streaming || !ctx.queue_empty {
            KeyAction::CancelStream
        } else {
            KeyAction::Quit
        }
    } else if key == Key::Enter && mods == Mods::Bare && slash {
        KeyAction::AcceptSlash { submit: ctx.slash_submits_immediately }
    } else if key == Key::Enter && mods == Mods::Bare && picker && !exact {
        KeyAction::AcceptAttachment
    } else if key == Key::Enter && mods == Mods::Bare && !ctx.is_streaming {
        KeyAction::Submit
    } else if key == Key::Enter && mods == Mods::Bare {
        if !ctx.input_blank {
            KeyAction::InterruptAndSubmit
        } else if ctx.scroll_offset > 0 {
            KeyAction::ScrollTo(0)
        } else {
            KeyAction::Nothing
        }
    } else if key == Key::Enter {
        KeyAction::Nothing
    } else if key == Key::Backspace && mods == Mods::Super {
        KeyAction::Edit(InputEdit::ClearLine)
    } else if key == Key::Backspace && mods == Mods::Alt {
        KeyAction::Edit(InputEdit::DeleteWordBack)
    } else if key == Key::Backspace {
        KeyAction::Edit(InputEdit::Backspace)
    } else if key == Key::Char('U') && mods == Mods::Ctrl {
        KeyAction::Edit(InputEdit::ClearLine)
    } else if (key == Key::Char('z') || key == Key::Char('Z')) && mods == Mods::Super {
        KeyAction::Undo
    } else if key == Key::Char('A') && mods == Mods::Ctrl {
        KeyAction::Edit(InputEdit::Home)
    } else if key == Key::Char('E') && mods == Mods::Ctrl {
        KeyAction::Edit(InputEdit::End)
    } else if (key == Key::Char('w') || key == Key::Char('W')) && mods == Mods::Super {
        KeyAction::Quit
    } else if is_copy {
        KeyAction::Copy
    } else if key == Key::Up && slash {
        KeyAction::MoveSlash(false)
    } else if key == Key::Down && slash {
        KeyAction::MoveSlash(true)
    } else if key == Key::Up && picker {
        KeyAction::MovePicker(false)
    } else if key == Key::Down && picker {
        KeyAction::MovePicker(true)
    } else if key == Key::Up || key == Key::PageUp {
        let max_offset = ctx.total_lines.saturating_sub(ctx.area_height);
        let up = ctx.scroll_offset.saturating_add(3);
        KeyAction::ScrollTo(
            if up < max_offset {
                up
            } else {
                max_offset
            },
        )
    } else if key == Key::Down || key == Key::PageDown {
        KeyAction::ScrollTo(ctx.scroll_offset.saturating_sub(3))
    } else if key == Key::Left && mods == Mods::Super {
        KeyAction::Edit(InputEdit::Home)
    } else if key == Key::Right && mods == Mods::Super {
        KeyAction::Edit(InputEdit::End)
    } else if key == Key::Left && mods == Mods::Alt {
        KeyAction::Edit(InputEdit::WordLeft)
    } else if key == Key::Right && mods == Mods::Alt {
        KeyAction::Edit(InputEdit::WordRight)
    } else if key == Key::Left {
        KeyAction::Edit(InputEdit::Left)
    } else if key == Key::Right {
        KeyAction::Edit(InputEdit::Right)
    } else if tab && mods == Mods::Bare && slash {
        KeyAction::AcceptSlash { submit: false }
    } else if tab && mods == Mods::Bare && picker {
        KeyAction::AcceptAttachment
    } else if tab && mods == Mods::Shift {
        if ctx.is_streaming {
            KeyAction::Nothing
        } else {
            match ctx.model_fetch {
                ModelFetch::Loading => KeyAction::FlashLoadingModels,
                ModelFetch::Failed => KeyAction::FlashFetchFailed,
                ModelFetch::Loaded => if ctx.model_count > 1 && ctx.model_index < ctx.model_count - 1 {
                    KeyAction::NextModel
                } else {
                    KeyAction::Nothing
                },
            }
        }
    } else {
        match key {
            Key::Char(c) => if (mods == Mods::Bare || mods == Mods::Shift) && !is_control(c) {
                KeyAction::Edit(InputEdit::Insert(c))
            } else {
                KeyAction::Nothing
            },
            _ => KeyAction::Nothing,
        }
    };
    KeyOutcome { clear_selection, action }
}

/// What a key does in the resume picker.
#[derive(Debug, Clone, Copy, PartialEq, Eq, Structural)]
pub enum PickerAction {
    Nothing,
    /// Back to the chat.
    Close,
    /// Move the picker's cursor.
    MoveTo(usize),
    /// Load the conversation under the cursor.
    Load(usize),
}

/// A key in the resume picker (`cursor` over `count` conversations):
/// Escape closes it, the arrows move within it, Enter loads.
pub open spec fn spec_picker_action(key: Key, cursor: usize, count: usize) -> PickerAction {
    if key == Key::Escape {
        PickerAction::Close
    } else if key == Key::Up {
        if cursor > 0 {
            PickerAction::MoveTo((cursor - 1) as usize)
        } else {
            PickerAction::Nothing
        }
    } else if key == Key::Down {
        if cursor + 1 < count {
            PickerAction::MoveTo((cursor + 1) as usize)
        } else {
            PickerAction::Nothing
        }
    } else if key == Key::Enter {
        PickerAction::Load(cursor)
    } else {
        PickerAction::Nothing
    }
}

/// What a key does in the resume picker.
pub fn picker_action(key: Key, cursor: usize, count: usize) -> (a: PickerAction)
    ensures
        a == spec_picker_action(key, cursor, count),
{
    if key == Key::Escape {
        PickerAction::Close
    } else if key == Key::Up {
        if cursor > 0 {
            PickerAction::MoveTo(cursor - 1)
        } else {
            PickerAction::Nothing
        }
    } else if key == Key::Down {
        if count > 0 && cursor < count - 1 {
            PickerAction::MoveTo(cursor + 1)
        } else {
            PickerAction::Nothing
        }
    } else if key == Key::Enter {
        PickerAction::Load(cursor)
    } else {
        PickerAction::Nothing
    }
}

/// What a key does: in the resume picker (with its cursor and item count)
/// or in the chat.
#[derive(Debug, Clone, Copy, PartialEq, Eq, Structural)]
pub enum KeyResponse {
    Picker(PickerAction),
    Chat(KeyOutcome),
}

/// Handles a key: the resume picker takes every key while it is open.
pub fn handle_key(
    key: Key,
    mods: Mods,
    ctx: &KeyContext,
    has_selection: bool,
    picker: Option<(usize, usize)>,
) -> (r: KeyResponse)
    ensures
        r == (match picker {
            Some((cursor, count)) => KeyResponse::Picker(spec_picker_action(key, cursor, count)),
            None => KeyResponse::Chat(spec_key_outcome(key, mods, *ctx, has_selection)),
        }),
{
    match picker {
        Some((cursor, count)) => KeyResponse::Picker(picker_action(key, cursor, count)),
        None => KeyResponse::Chat(key_outcome(key, mods, ctx, has_selection)),
    }
}

// ---------------------------------------------------------------------------
// Mouse.
// ---------------------------------------------------------------------------

/// A mouse event: position, wheel (up when true), left button held.
#[derive(Debug, Clone, Copy, PartialEq, Eq, Structural)]
pub struct MouseInput {
    pub x: usize,
    pub y: usize,
    pub wheel: Option<bool>,
    pub left: bool,
}

/// The overlay's geometry and scroll state as the mouse sees them.
#[derive(Debug, Clone, Copy, PartialEq, Eq, Structural)]
pub struct MouseContext {
    /// Rows of the overlay.
    pub rows: usize,
    /// Rows the input box takes.
    pub input_rows: usize,
    /// Display lines of the conversation.
    pub total_lines: usize,
    /// Lines the message area shows.
    pub area_height: usize,
    pub scroll_offset: usize,
    pub is_streaming: bool,
}

/// Text selection state: the button as last seen, the selection (anchor
/// line and column, end line and column), whether a drag is extending it,
/// and where the button went down in the message area.
#[derive(Debug, Clone, Copy, PartialEq, Eq)]
pub struct SelectionState {
    pub left_was_pressed: bool,
    pub selection: Option<(usize, usize, usize, usize)>,
    pub selecting: bool,
    pub drag_origin: Option<(usize, usize)>,
}

/// What a mouse event does: the new selection state, the scroll offset,
/// whether a click on the input box shows its cursor while a reply
/// streams, and whether the finished selection is to be copied.
#[derive(Debug, Clone, Copy, PartialEq, Eq)]
pub struct MouseOutcome {
    pub state: SelectionState,
    pub scroll_offset: usize,
    pub reveal_input_cursor: bool,
    pub copy_selection: bool,
}

/// The first display line the message area shows.
pub open spec fn visible_start(ctx: MouseContext) -> int {
    if ctx.total_lines <= ctx.area_height {
        0
    } else {
        sat_sub(ctx.total_lines - ctx.area_height, ctx.scroll_offset as int)
    }
}

/// The row just below the message area (row 0 is the border).
pub open spec fn msg_row_end(ctx: MouseContext) -> int {
    sat_sub(ctx.rows as int, 2 + ctx.input_rows)
}

/// The event is over the message area.
pub open spec fn in_msg_area(ev: MouseInput, ctx: MouseContext) -> bool {
    ev.y >= 1 && ev.y < msg_row_end(ctx)
}

/// The display line under row `row`.
pub open spec fn line_at_row(ctx: MouseContext, row: int) -> int {
    visible_start(ctx) + sat_sub(row, 1)
}

/// A mouse event: the wheel scrolls two lines; otherwise pressing starts a
/// new selection (dropping the old one), dragging away from the press
/// point selects up to the pointer, and releasing ends the selection and
/// asks for it to be copied.
pub open spec fn spec_mouse_event(st: SelectionState, ev: MouseInput, ctx: MouseContext) -> MouseOutcome {
    match ev.wheel {
        Some(up) => MouseOutcome {
            state: st,
            scroll_offset: (if up {
                let s = sat_add(ctx.scroll_offset as int, 2);
                let m = sat_sub(ctx.total_lines as int, ctx.area_height as int);
                if s < m {
                    s
                } else {
                    m
                }
            } else {
                sat_sub(ctx.scroll_offset as int, 2)
            }) as usize,
            reveal_input_cursor: false,
            copy_selection: false,
        },
        None => {
            let in_area = in_msg_area(ev, ctx);
            let input_top = sat_sub(ctx.rows as int, 1 + ctx.input_rows);
            let bot_row = sat_sub(ctx.rows as int, 1);
            let st1 = SelectionState { left_was_pressed: ev.left, ..st };
            if !st.left_was_pressed && ev.left {
                MouseOutcome {
                    state: SelectionState {
                        selection: None,
                        selecting: false,
                        drag_origin: if in_area {
                            Some((line_at_row(ctx, ev.y as int) as usize, ev.x))
                        } else {
                            None
                        },
                        ..st1
                    },
                    scroll_offset: ctx.scroll_offset,
                    reveal_input_cursor: ev.y >= input_top && ev.y < bot_row && ctx.is_streaming,
                    copy_selection: false,
                }
            } else if st.left_was_pressed && ev.left {
                let line = line_at_row(ctx, ev.y as int) as usize;
                let state = match st.drag_origin {
                    Some((orow, ocol)) => if !in_area {
                        st1
                    } else if st.selecting {
                        match st.selection {
                            Some((r0, c0, _, _)) => SelectionState {
                                selection: Some((r0, c0, line, ev.x)),
                                ..st1
                            },
                            None => st1,
                        }
                    } else if line != orow || ev.x != ocol {
                        SelectionState {
                            selection: Some((orow, ocol, line, ev.x)),
                            selecting: true,
                            ..st1
                        }
                    } else {
                        st1
                    },
                    None => st1,
                };
                MouseOutcome {
                    state,
                    scroll_offset: ctx.scroll_offset,
                    reveal_input_cursor: false,
                    copy_selection: false,
                }
            } else if st.left_was_pressed && !ev.left {
                MouseOutcome {
                    state: SelectionState { selecting: false, ..st1 },
                    scroll_offset: ctx.scroll_offset,
                    reveal_input_cursor: false,
                    copy_selection: st.selection is Some,
                }
            } else {
                MouseOutcome {
                    state: st1,
                    scroll_offset: ctx.scroll_offset,
                    reveal_input_cursor: false,
                    copy_selection: false,
                }
            }
        },
    }
}

/// Handles a mouse event. The line under the pointer must be a line
/// number (as the overlay's line count guarantees).
pub fn mouse_event(st: SelectionState, ev: MouseInput, ctx: &MouseContext) -> (out: MouseOutcome)
    requires
        ctx.input_rows + 2 <= usize::MAX,
        ev.wheel is None && ev.left && in_msg_area(ev, *ctx) ==> line_at_row(*ctx, ev.y as int)
            <= usize::MAX,
    ensures
        out == spec_mouse_event(st, ev, *ctx),
{
    match ev.wheel {
        Some(up) => {
            let offset = if up {
                let s = ctx.scroll_offset.saturating_add(2);
                let m = ctx.total_lines.saturating_sub(ctx.area_height);
                if s < m {
                    s
                } else {
                    m
                }
            } else {
                ctx.scroll_offset.saturating_sub(2)
            };
            MouseOutcome { state: st, scroll_offset: offset, reveal_input_cursor: false, copy_selection: false }
        },
        None => {
            let row_end = ctx.rows.saturating_sub(2 + ctx.input_rows);
            let in_area = ev.y >= 1 && ev.y < row_end;
            let input_top = ctx.rows.saturating_sub(1 + ctx.input_rows);
            let bot_row = ctx.rows.saturating_sub(1);
            let start = if ctx.total_lines <= ctx.area_height {
                0
            } else {
                (ctx.total_lines - ctx.area_height).saturating_sub(ctx.scroll_offset)
            };
            let st1 = SelectionState { left_was_pressed: ev.left, ..st };
            if !st.left_was_pressed && ev.left {
                let origin = if in_area {
                    Some((start + ev.y.saturating_sub(1), ev.x))
                } else {
                    None
                };
                MouseOutcome {
                    state: SelectionState { selection: None, selecting: false, drag_origin: origin, ..st1 },
                    scroll_offset: ctx.scroll_offset,
                    reveal_input_cursor: ev.y >= input_top && ev.y < bot_row && ctx.is_streaming,
                    copy_selection: false,
                }
            } else if st.left_was_pressed && ev.left {
                let state = match st.drag_origin {
                    Some((orow, ocol)) => if !in_area {
                        st1
                    } else {
                        let line = start + ev.y.saturating_sub(1);
                        if st.selecting {
                            match st.selection {
                                Some((r0, c0, _, _)) => SelectionState {
                                    selection: Some((r0, c0, line, ev.x)),
                                    ..st1
                                },
                                None => st1,
                            }
                        } else if line != orow || ev.x != ocol {
                            SelectionState { selection: Some((orow, ocol, line, ev.x)), selecting: true, ..st1 }
                        } else {
                            st1
                        }
                    },
                    None => st1,
                };
                MouseOutcome { state, scroll_offset: ctx.scroll_offset, reveal_input_cursor: false, copy_selection: false }
            } else if st.left_was_pressed && !ev.left {
                MouseOutcome {
                    state: SelectionState { selecting: false, ..st1 },
                    scroll_offset: ctx.scroll_offset,
                    reveal_input_cursor: false,
                    copy_selection: st.selection.is_some(),
                }
            } else {
                MouseOutcome { state: st1, scroll_offset: ctx.scroll_offset, reveal_input_cursor: false, copy_selection: false }
            }
        },
    }
}

/// The number of whitespace-separated words of `s`.
pub open spec fn word_count(s: Seq<char>) -> nat
    decreases s.len(),
{
    if s.len() == 0 {
        0
    } else {
        word_count(s.drop_last()) + if !crate::text::is_whitespace(s.last()) && (s.len() == 1
            || crate::text::is_whitespace(s[s.len() - 2])) {
            1nat
        } else {
            0nat
        }
    }
}

/// A finished selection is copied when it holds at least five characters
/// or more than one word, so a stray click does not clobber the clipboard.
pub open spec fn spec_worth_copying(text: Seq<char>) -> bool {
    text.len() >= 5 || word_count(text) >= 2
}

/// Whether the selected text is worth copying.
pub fn worth_copying(text: &str) -> (b: bool)
    ensures
        b == spec_worth_copying(text@),
{
    let chars = crate::text::str_to_chars(text);
    if chars.len() >= 5 {
        return true;
    }
    let mut words: usize = 0;
    let mut i: usize = 0;
    while i < chars.len()
        invariant
            i <= chars@.len(),
            chars@ == text@,
            words <= i,
            words == word_count(text@.take(i as int)),
        decreases chars@.len() - i,
    {
        assert(text@.take(i + 1).drop_last() =~= text@.take(i as int));
        let starts = !crate::text::char_is_whitespace(chars[i]) && (i == 0
            || crate::text::char_is_whitespace(chars[i - 1]));
        if starts {
            words = words + 1;
        }
        i = i + 1;
    }
    assert(text@.take(chars@.len() as int) =~= text@);
    words >= 2
}


// ---------------------------------------------------------------------------
// The text of a selection.
// ---------------------------------------------------------------------------

/// A display line as the overlay draws it, and the indent its drawing adds
/// in front of the content.
pub struct RenderedRow {
    pub text: String,
    pub prefix: String,
}

/// Rows as (text, prefix) pairs.
pub open spec fn rows_view(rows: Seq<RenderedRow>) -> Seq<(Seq<char>, Seq<char>)> {
    rows.map_values(|r: RenderedRow| (r.text@, r.prefix@))
}

/// The selection with its start before its end.
pub open spec fn ordered_selection(sel: (usize, usize, usize, usize)) -> (usize, usize, usize, usize) {
    let (r0, c0, r1, c1) = sel;
    if r0 > r1 || (r0 == r1 && c0 > c1) {
        (r1, c1, r0, c0)
    } else {
        sel
    }
}

/// The ordered selection, its end clamped to the last row; none without a
/// selection or when it starts below the last row.
pub open spec fn clamped_selection(row_count: nat, sel: Option<(usize, usize, usize, usize)>) -> Option<
    (int, int, int, int),
> {
    match sel {
        None => None,
        Some(s) => {
            let (r0, c0, r1, c1) = ordered_selection(s);
            if r0 >= row_count {
                None
            } else {
                Some(
                    (
                        r0 as int,
                        c0 as int,
                        if r1 < row_count - 1 {
                            r1 as int
                        } else {
                            row_count - 1
                        },
                        c1 as int,
                    ),
                )
            }
        },
    }
}

/// The character range of row `i` under the selection: from the start
/// column on the first row (else the row's start) to the end column on the
/// last row (else the row's end). Terminal column 0 is the border, so
/// content columns are one less.
pub open spec fn row_span(text: Seq<char>, i: int, r0: int, c0: int, r1: int, c1: int) -> (int, int) {
    let sc = if i == r0 {
        sat_sub(c0, 1)
    } else {
        0
    };
    let ec = if i == r1 {
        sat_sub(c1, 1)
    } else {
        crate::width::column_width(text) as int
    };
    (
        crate::layout::first_index_at_col(text, sc, 0),
        crate::layout::first_index_at_col(text, ec, 0),
    )
}

/// The selected text of one row, without the indent its drawing added.
pub open spec fn row_piece(row: (Seq<char>, Seq<char>), i: int, r0: int, c0: int, r1: int, c1: int) -> Seq<
    char,
> {
    let (ks, ke) = row_span(row.0, i, r0, c0, r1, c1);
    let slice = row.0.subrange(ks, ke);
    if crate::text::starts_with(slice, row.1) {
        slice.skip(row.1.len() as int)
    } else {
        slice
    }
}

/// The selected text of rows `r0` up to (not including) `k`, a newline
/// after each row but the last of the selection.
pub open spec fn selection_upto(
    rows: Seq<(Seq<char>, Seq<char>)>,
    r0: int,
    c0: int,
    r1: int,
    c1: int,
    k: int,
) -> Seq<char>
    decreases k - r0,
{
    if k <= r0 {
        Seq::empty()
    } else {
        selection_upto(rows, r0, c0, r1, c1, k - 1) + row_piece(rows[k - 1], k - 1, r0, c0, r1, c1) + (
        if k - 1 < r1 {
            "\n"@
        } else {
            Seq::empty()
        })
    }
}

/// The text a selection copies.
pub open spec fn spec_selection_text(
    rows: Seq<(Seq<char>, Seq<char>)>,
    sel: Option<(usize, usize, usize, usize)>,
) -> Option<Seq<char>> {
    match clamped_selection(rows.len(), sel) {
        None => None,
        Some((r0, c0, r1, c1)) => Some(selection_upto(rows, r0, c0, r1, c1, r1 + 1)),
    }
}

/// No selected row's range runs backwards.
pub open spec fn rows_in_order(rows: Seq<(Seq<char>, Seq<char>)>, r0: int, c0: int, r1: int, c1: int) -> bool {
    forall|i: int|
        r0 <= i <= r1 ==> #[trigger] row_span(rows[i].0, i, r0, c0, r1, c1).0 <= row_span(
            rows[i].0,
            i,
            r0,
            c0,
            r1,
            c1,
        ).1
}

/// No row's selected range runs backwards (which would happen only when
/// the first row is narrower, measured as a whole, than its characters'
/// widths add up to).
pub open spec fn selection_in_order(
    rows: Seq<(Seq<char>, Seq<char>)>,
    sel: Option<(usize, usize, usize, usize)>,
) -> bool {
    match clamped_selection(rows.len(), sel) {
        None => true,
        Some(t) => rows_in_order(rows, t.0, t.1, t.2, t.3),
    }
}

proof fn lemma_in_order_at(
    rows: Seq<(Seq<char>, Seq<char>)>,
    sel: Option<(usize, usize, usize, usize)>,
    r0: int,
    c0: int,
    r1: int,
    c1: int,
    i: int,
)
    requires
        clamped_selection(rows.len(), sel) == Some((r0, c0, r1, c1)),
        r0 <= i <= r1,
    ensures
        selection_in_order(rows, sel) ==> row_span(rows[i].0, i, r0, c0, r1, c1).0 <= row_span(
            rows[i].0,
            i,
            r0,
            c0,
            r1,
            c1,
        ).1,
{
}

/// The character range of row `i` under the selection.
fn row_span_of(text: &str, i: usize, r0: usize, c0: usize, r1: usize, c1: usize) -> (span: (usize, usize))
    ensures
        span.0 as int == row_span(text@, i as int, r0 as int, c0 as int, r1 as int, c1 as int).0,
        span.1 as int == row_span(text@, i as int, r0 as int, c0 as int, r1 as int, c1 as int).1,
        span.0 <= text@.len(),
        span.1 <= text@.len(),
{
    let chars = crate::text::str_to_chars(text);
    let sc = if i == r0 {
        c0.saturating_sub(1)
    } else {
        0
    };
    let ec = if i == r1 {
        c1.saturating_sub(1)
    } else {
        crate::width::unicode_column_width(text)
    };
    let ks = crate::layout::visual_col_index(chars.as_slice(), sc);
    let ke = crate::layout::visual_col_index(chars.as_slice(), ec);
    (ks, ke)
}

/// The ordered selection with its end clamped to the last row.
fn clamp_selection(row_count: usize, selection: Option<(usize, usize, usize, usize)>) -> (c: Option<
    (usize, usize, usize, usize),
>)
    ensures
        c is None <==> clamped_selection(row_count as nat, selection) is None,
        c matches Some((r0, c0, r1, c1)) ==> clamped_selection(row_count as nat, selection) == Some(
            (r0 as int, c0 as int, r1 as int, c1 as int),
        ) && r0 <= r1 < row_count,
{
    let (a0, b0, a1, b1) = match selection {
        None => {
            return None;
        },
        Some(s) => s,
    };
    let (r0, c0, r1u, c1) = if a0 > a1 || (a0 == a1 && b0 > b1) {
        (a1, b1, a0, b0)
    } else {
        (a0, b0, a1, b1)
    };
    if r0 >= row_count {
        return None;
    }
    let r1 = if r1u < row_count - 1 {
        r1u
    } else {
        row_count - 1
    };
    Some((r0, c0, r1, c1))
}

/// The text a selection copies: each selected row's part, its drawn indent
/// removed, joined by newlines; none without a selection or when it starts
/// below the last row.
pub fn extract_selection_text(rows: &[RenderedRow], selection: Option<(usize, usize, usize, usize)>) -> (text:
    Option<String>)
    requires
        selection_in_order(rows_view(rows@), selection),
    ensures
        crate::text::opt_string_view(text) == spec_selection_text(rows_view(rows@), selection),
{
    let ghost rv = rows_view(rows@);
    let (r0, c0, r1, c1) = match clamp_selection(rows.len(), selection) {
        None => {
            return None;
        },
        Some(c) => c,
    };
    let mut out = String::new();
    let mut i = r0;
    while i <= r1
        invariant
            r0 <= i <= r1 + 1,
            r1 < rows@.len(),
            rv == rows_view(rows@),
            clamped_selection(rv.len(), selection) == Some((r0 as int, c0 as int, r1 as int, c1 as int)),
            selection_in_order(rv, selection),
            out@ == selection_upto(rv, r0 as int, c0 as int, r1 as int, c1 as int, i as int),
        decreases r1 + 1 - i,
    {
        let row = &rows[i];
        assert(rv[i as int] == (row.text@, row.prefix@));
        let (ks, ke) = row_span_of(row.text.as_str(), i, r0, c0, r1, c1);
        proof {
            lemma_in_order_at(rv, selection, r0 as int, c0 as int, r1 as int, c1 as int, i as int);
        }
        assert(row_span(rv[i as int].0, i as int, r0 as int, c0 as int, r1 as int, c1 as int).0 <= row_span(
            rv[i as int].0,
            i as int,
            r0 as int,
            c0 as int,
            r1 as int,
            c1 as int,
        ).1);
        let chars = crate::text::str_to_chars(row.text.as_str());
        let slice = crate::text::sub_vec(chars.as_slice(), ks, ke);
        let pre = crate::text::str_to_chars(row.prefix.as_str());
        let piece = if crate::text::has_prefix(slice.as_slice(), pre.as_slice()) {
            crate::text::sub_vec(slice.as_slice(), pre.len(), slice.len())
        } else {
            slice
        };
        assert(piece@ =~= row_piece(rv[i as int], i as int, r0 as int, c0 as int, r1 as int, c1 as int));
        let ghost before = out@;
        out.append(crate::text::chars_to_string(piece.as_slice()).as_str());
        if i < r1 {
            out.append("\n");
        } else {
            assert(out@ =~= out@ + Seq::<char>::empty());
        }
        assert(out@ =~= selection_upto(rv, r0 as int, c0 as int, r1 as int, c1 as int, i + 1));
        i = i + 1;
    }
    Some(out)
}

/// The text a selection copies, when no row's range runs backwards (else
/// none: that text is not defined).
pub fn checked_selection_text(rows: &[RenderedRow], selection: Option<(usize, usize, usize, usize)>) -> (text:
    Option<Option<String>>)
    ensures
        text is None <==> !selection_in_order(rows_view(rows@), selection),
        text matches Some(t) ==> crate::text::opt_string_view(t) == spec_selection_text(
            rows_view(rows@),
            selection,
        ),
{
    let ghost rv = rows_view(rows@);
    match clamp_selection(rows.len(), selection) {
        None => Some(extract_selection_text(rows, selection)),
        Some((r0, c0, r1, c1)) => {
            let mut i = r0;
            while i <= r1
                invariant
                    r0 <= i <= r1 + 1,
                    r1 < rows@.len(),
                    rv == rows_view(rows@),
                    clamped_selection(rv.len(), selection) == Some((r0 as int, c0 as int, r1 as int, c1 as int)),
                    forall|k: int|
                        r0 <= k < i ==> #[trigger] row_span(rv[k].0, k, r0 as int, c0 as int, r1 as int, c1 as int).0
                            <= row_span(rv[k].0, k, r0 as int, c0 as int, r1 as int, c1 as int).1,
                decreases r1 + 1 - i,
            {
                assert(rv[i as int].0 == rows@[i as int].text@);
                let (ks, ke) = row_span_of(rows[i].text.as_str(), i, r0, c0, r1, c1);
                if ks > ke {
                    proof {
                        lemma_in_order_at(rv, selection, r0 as int, c0 as int, r1 as int, c1 as int, i as int);
                    }
                    return None;
                }
                i = i + 1;
            }
            assert(rows_in_order(rv, r0 as int, c0 as int, r1 as int, c1 as int));
            Some(extract_selection_text(rows, selection))
        },
    }
}

} // verus!
