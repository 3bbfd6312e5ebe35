//! The editor of one open note: it waits for the note's text, then holds the
//! text with a cursor, a selection and the preview rendered from the text.
//!
//! Positions are character offsets into the text. The selection lies between
//! the anchor and the cursor and is empty when the two coincide.

use vstd::prelude::*;
use vstd::string::StrSliceExecFns;
use vstd::string::StringExecFns;

use crate::format::is_bold;
use crate::format::lemma_toggle_twice;
use crate::format::toggle_bold;
use crate::format::toggled;
use crate::format::unwrapped;
use crate::format::wrapped;
use crate::format::MARKER;
use crate::markdown::markdown_items;
use crate::markdown::parse;
use crate::text::chars_of;
use crate::text::splice;
use crate::text::spliced;
use crate::util::IoErrorKind;
use crate::util::Query;

verus! {

/// Whether the note is shown as editable text or as rendered preview.
#[derive(Clone, Copy, Debug, PartialEq, Eq, Structural)]
pub enum ViewMode {
    Edit,
    Preview,
}

/// A change to the text at the cursor.
#[derive(Clone, Debug)]
pub enum Edit {
    /// Replace the selection by a character.
    Insert(char),
    /// Replace the selection by a text.
    Paste(String),
    /// Replace the selection by a line break.
    Enter,
    /// Delete the selection, or else the character before the cursor.
    Backspace,
    /// Delete the selection, or else the character after the cursor.
    Delete,
}

/// A place to move the cursor to, relative to where it is.
#[derive(Clone, Copy, Debug, PartialEq, Eq, Structural)]
pub enum Motion {
    Left,
    Right,
    /// The start of the cursor's line.
    Home,
    /// The end of the cursor's line.
    End,
    DocumentStart,
    DocumentEnd,
}

/// Something the user does in the editor.
#[derive(Clone, Debug)]
pub enum Action {
    /// Move the cursor and drop the selection.
    Move(Motion),
    /// Move the cursor and keep the anchor, which extends the selection.
    Select(Motion),
    SelectAll,
    /// Put the cursor and the anchor at given offsets.
    Place { cursor: usize, anchor: usize },
    /// Put the cursor at a row and a column, with the `selected` characters
    /// before it selected.
    Locate { row: usize, column: usize, selected: usize },
    Edit(Edit),
}

/// The start of the line that holds position `at`.
pub open spec fn line_start(text: Seq<char>, at: int) -> int
    decreases at,
{
    if at <= 0 {
        0
    } else if text[at - 1] == '\n' {
        at
    } else {
        line_start(text, at - 1)
    }
}

/// The end of the line that holds position `at`: the position of the next
/// line break, or the end of the text.
pub open spec fn line_end(text: Seq<char>, at: int) -> int
    decreases text.len() - at,
{
    if at >= text.len() {
        text.len() as int
    } else if text[at] == '\n' {
        at
    } else {
        line_end(text, at + 1)
    }
}

/// The number of line breaks before position `at`.
pub open spec fn row_of(text: Seq<char>, at: int) -> int
    decreases at,
{
    if at <= 0 {
        0
    } else if text[at - 1] == '\n' {
        row_of(text, at - 1) + 1
    } else {
        row_of(text, at - 1)
    }
}

/// The position that lies `column` characters into the `row`-th line counted
/// from position `from`; the end of that line where the line is shorter,
/// and the end of the text where the lines are fewer.
pub open spec fn offset_from(text: Seq<char>, from: int, row: int, column: int) -> int
    decreases text.len() - from,
{
    if from >= text.len() {
        text.len() as int
    } else if row <= 0 {
        if column <= 0 || text[from] == '\n' {
            from
        } else {
            offset_from(text, from + 1, 0, column - 1)
        }
    } else if text[from] == '\n' {
        offset_from(text, from + 1, row - 1, column)
    } else {
        offset_from(text, from + 1, row, column)
    }
}

proof fn lemma_line_start_bounds(text: Seq<char>, at: int)
    requires
        0 <= at,
    ensures
        0 <= line_start(text, at) <= at,
    decreases at,
{
    if at > 0 && text[at - 1] != '\n' {
        lemma_line_start_bounds(text, at - 1);
    }
}

proof fn lemma_rows_grow(text: Seq<char>, from: int, to: int)
    requires
        0 <= from <= to,
    ensures
        0 <= row_of(text, from) <= row_of(text, to),
    decreases to,
{
    if from < to {
        lemma_rows_grow(text, from, to - 1);
    } else if from > 0 {
        lemma_rows_grow(text, from - 1, from - 1);
    }
}

/// A position in the same row as an earlier one has its line start at or
/// before that one; a position in a later row has it after.
proof fn lemma_line_start_by_rows(text: Seq<char>, from: int, to: int)
    requires
        0 <= from <= to,
    ensures
        row_of(text, to) == row_of(text, from) ==> line_start(text, to) <= from,
        row_of(text, to) > row_of(text, from) ==> line_start(text, to) > from,
    decreases to,
{
    lemma_line_start_bounds(text, to);
    if from < to {
        lemma_rows_grow(text, from, to - 1);
        lemma_line_start_by_rows(text, from, to - 1);
    }
}

proof fn lemma_offset_from_reaches(text: Seq<char>, from: int, to: int)
    requires
        0 <= from <= to <= text.len(),
    ensures
        offset_from(
            text,
            from,
            row_of(text, to) - row_of(text, from),
            if line_start(text, to) <= from {
                to - from
            } else {
                to - line_start(text, to)
            },
        ) == to,
    decreases to - from,
{
    lemma_line_start_bounds(text, to);
    if from < to {
        lemma_rows_grow(text, from + 1, to);
        lemma_line_start_by_rows(text, from, to);
        lemma_line_start_by_rows(text, from + 1, to);
        lemma_offset_from_reaches(text, from + 1, to);
    }
}

/// The row and the column of a position lead back to the position.
pub proof fn lemma_row_and_column_locate(text: Seq<char>, at: int)
    requires
        0 <= at <= text.len(),
    ensures
        offset_from(text, 0, row_of(text, at), at - line_start(text, at)) == at,
{
    lemma_line_start_bounds(text, at);
    lemma_offset_from_reaches(text, 0, at);
}

/// What a loaded editor holds, as plain values.
pub struct EditorView {
    pub view_mode: ViewMode,
    pub text: Seq<char>,
    pub cursor: int,
    pub anchor: int,
    pub preview: Seq<iced::widget::markdown::Item>,
}

impl EditorView {
    /// The cursor and the anchor lie within the text, and the preview is the
    /// rendering of the text.
    pub open spec fn well_formed(self) -> bool {
        &&& 0 <= self.cursor <= self.text.len()
        &&& 0 <= self.anchor <= self.text.len()
        &&& self.preview == markdown_items(self.text)
    }

    /// The editor as it is right after `text` was loaded.
    pub open spec fn loaded(text: Seq<char>) -> EditorView {
        EditorView {
            view_mode: ViewMode::Edit,
            text,
            cursor: 0,
            anchor: 0,
            preview: markdown_items(text),
        }
    }

    pub open spec fn selection_start(self) -> int {
        if self.cursor <= self.anchor {
            self.cursor
        } else {
            self.anchor
        }
    }

    pub open spec fn selection_end(self) -> int {
        if self.cursor <= self.anchor {
            self.anchor
        } else {
            self.cursor
        }
    }

    /// The selected text; empty when nothing is selected.
    pub open spec fn selection(self) -> Seq<char> {
        self.text.subrange(self.selection_start(), self.selection_end())
    }

    /// The editor with the characters `start..end` replaced by `insertion`,
    /// the cursor after the insertion, nothing selected, and the preview
    /// rendered anew.
    pub open spec fn replaced(self, start: int, end: int, insertion: Seq<char>) -> EditorView {
        let text = spliced(self.text, start, end, insertion);
        EditorView {
            text,
            cursor: start + insertion.len(),
            anchor: start + insertion.len(),
            preview: markdown_items(text),
            ..self
        }
    }

    /// The editor after an edit.
    pub open spec fn edited(self, edit: Edit) -> EditorView {
        let start = self.selection_start();
        let end = self.selection_end();
        match edit {
            Edit::Insert(c) => self.replaced(start, end, seq![c]),
            Edit::Paste(pasted) => self.replaced(start, end, pasted@),
            Edit::Enter => self.replaced(start, end, seq!['\n']),
            Edit::Backspace => if start < end {
                self.replaced(start, end, Seq::empty())
            } else if self.cursor > 0 {
                self.replaced(self.cursor - 1, self.cursor, Seq::empty())
            } else {
                self
            },
            Edit::Delete => if start < end {
                self.replaced(start, end, Seq::empty())
            } else if self.cursor < self.text.len() {
                self.replaced(self.cursor, self.cursor + 1, Seq::empty())
            } else {
                self
            },
        }
    }

    /// Where a motion takes the cursor.
    pub open spec fn target(self, motion: Motion) -> int {
        match motion {
            Motion::Left => if self.cursor > 0 {
                self.cursor - 1
            } else {
                0
            },
            Motion::Right => if self.cursor < self.text.len() {
                self.cursor + 1
            } else {
                self.text.len() as int
            },
            Motion::Home => line_start(self.text, self.cursor),
            Motion::End => line_end(self.text, self.cursor),
            Motion::DocumentStart => 0,
            Motion::DocumentEnd => self.text.len() as int,
        }
    }

    /// The editor after an action. Placing the cursor or the anchor outside
    /// the text does nothing; a row or a column outside the text is taken
    /// for the nearest place inside.
    pub open spec fn applied(self, action: Action) -> EditorView {
        match action {
            Action::Move(motion) => {
                let to = self.target(motion);
                EditorView { cursor: to, anchor: to, ..self }
            },
            Action::Select(motion) => EditorView { cursor: self.target(motion), ..self },
            Action::SelectAll => EditorView { cursor: self.text.len() as int, anchor: 0, ..self },
            Action::Place { cursor, anchor } => if cursor <= self.text.len() && anchor
                <= self.text.len() {
                EditorView { cursor: cursor as int, anchor: anchor as int, ..self }
            } else {
                self
            },
            Action::Locate { row, column, selected } => {
                let cursor = offset_from(self.text, 0, row as int, column as int);
                EditorView {
                    cursor,
                    anchor: if selected <= cursor {
                        cursor - selected
                    } else {
                        0
                    },
                    ..self
                }
            },
            Action::Edit(edit) => self.edited(edit),
        }
    }

    /// The editor after the bold toggle on its selection. The same characters
    /// stay selected, the same way round.
    pub open spec fn bold_toggled(self) -> EditorView {
        let (text, start, end) = toggled(self.text, self.selection_start(), self.selection_end());
        EditorView {
            text,
            cursor: if self.cursor <= self.anchor {
                start
            } else {
                end
            },
            anchor: if self.cursor <= self.anchor {
                end
            } else {
                start
            },
            preview: markdown_items(text),
            ..self
        }
    }

    /// The editor with the other view mode.
    pub open spec fn mode_switched(self) -> EditorView {
        EditorView {
            view_mode: match self.view_mode {
                ViewMode::Edit => ViewMode::Preview,
                ViewMode::Preview => ViewMode::Edit,
            },
            ..self
        }
    }
}

/// The text of a loaded note with its cursor, selection and preview.
pub struct EditorState {
    view_mode: ViewMode,
    text: String,
    cursor: usize,
    anchor: usize,
    preview: Vec<iced::widget::markdown::Item>,
}

impl View for EditorState {
    type V = EditorView;

    closed spec fn view(&self) -> EditorView {
        EditorView {
            view_mode: self.view_mode,
            text: self.text@,
            cursor: self.cursor as int,
            anchor: self.anchor as int,
            preview: self.preview@,
        }
    }
}

impl EditorState {
    #[verifier::type_invariant]
    spec fn valid(self) -> bool {
        self@.well_formed()
    }

    /// The editor of a note whose text was just loaded: in edit mode, the
    /// cursor at the start, nothing selected.
    pub fn new(text: String) -> (state: EditorState)
        ensures
            state@ == EditorView::loaded(text@),
            state@.well_formed(),
    {
        let preview = parse(text.as_str());
        EditorState { view_mode: ViewMode::Edit, text, cursor: 0, anchor: 0, preview }
    }

    pub fn view_mode(&self) -> (mode: ViewMode)
        ensures
            mode == self@.view_mode,
    {
        self.view_mode
    }

    /// The text of the note as it stands.
    pub fn text(&self) -> (text: &String)
        ensures
            text@ == self@.text,
    {
        &self.text
    }

    pub fn cursor(&self) -> (cursor: usize)
        ensures
            cursor == self@.cursor,
            self@.well_formed(),
    {
        proof {
            use_type_invariant(self);
        }
        self.cursor
    }

    pub fn anchor(&self) -> (anchor: usize)
        ensures
            anchor == self@.anchor,
            self@.well_formed(),
    {
        proof {
            use_type_invariant(self);
        }
        self.anchor
    }

    /// The blocks of the preview, rendered from the text as it stands.
    pub fn preview(&self) -> (preview: &Vec<iced::widget::markdown::Item>)
        ensures
            preview@ == self@.preview,
            preview@ == markdown_items(self@.text),
    {
        proof {
            use_type_invariant(self);
        }
        &self.preview
    }

    /// The range of the selection, start before end.
    pub fn selection_range(&self) -> (range: (usize, usize))
        ensures
            range.0 == self@.selection_start(),
            range.1 == self@.selection_end(),
            range.0 <= range.1 <= self@.text.len(),
    {
        proof {
            use_type_invariant(self);
        }
        if self.cursor <= self.anchor {
            (self.cursor, self.anchor)
        } else {
            (self.anchor, self.cursor)
        }
    }

    /// The selected text, if any is selected.
    pub fn selection(&self) -> (selected: Option<String>)
        ensures
            self@.cursor == self@.anchor ==> selected is None,
            self@.cursor != self@.anchor ==> (selected matches Some(s) && s@ == self@.selection()),
    {
        let (start, end) = self.selection_range();
        if start == end {
            None
        } else {
            Some(String::from_str(self.text.as_str().substring_char(start, end)))
        }
    }

    /// The cursor as a row and a column: the number of line breaks before
    /// it, and its distance from the start of its line.
    pub fn cursor_position(&self) -> (position: (usize, usize))
        ensures
            position.0 == row_of(self@.text, self@.cursor),
            position.1 == self@.cursor - line_start(self@.text, self@.cursor),
    {
        proof {
            use_type_invariant(self);
        }
        let chars = chars_of(self.text.as_str());
        let mut row: usize = 0;
        let mut start: usize = 0;
        let mut i: usize = 0;
        while i < self.cursor
            invariant
                i <= self.cursor <= chars.len(),
                chars@ == self@.text,
                row == row_of(chars@, i as int),
                start == line_start(chars@, i as int),
                row <= i,
                start <= i,
            decreases self.cursor - i,
        {
            if chars[i] == '\n' {
                row += 1;
                start = i + 1;
            }
            i += 1;
        }
        (row, self.cursor - start)
    }

    /// The position that lies `column` characters into row `row`; the end of
    /// the row where it is shorter, the end of the text where the rows are
    /// fewer.
    pub fn offset_at(&self, row: usize, column: usize) -> (offset: usize)
        ensures
            offset == offset_from(self@.text, 0, row as int, column as int),
            offset <= self@.text.len(),
    {
        let chars = chars_of(self.text.as_str());
        let mut at: usize = 0;
        let mut rows: usize = row;
        let mut columns: usize = column;
        while at < chars.len() && (rows > 0 || (columns > 0 && chars[at] != '\n'))
            invariant
                at <= chars.len(),
                chars@ == self@.text,
                offset_from(chars@, at as int, rows as int, columns as int) == offset_from(
                    chars@,
                    0,
                    row as int,
                    column as int,
                ),
            decreases chars.len() - at,
        {
            if rows > 0 {
                if chars[at] == '\n' {
                    rows -= 1;
                }
            } else {
                columns -= 1;
            }
            at += 1;
        }
        at
    }

    fn replace(&mut self, start: usize, end: usize, insertion: &str)
        requires
            start <= end <= old(self)@.text.len(),
        ensures
            final(self)@ == old(self)@.replaced(start as int, end as int, insertion@),
            final(self)@.well_formed(),
    {
        let len = self.text.as_str().unicode_len();
        let text = splice(self.text.as_str(), start, end, insertion);
        let grown = text.as_str().unicode_len();
        let cursor = grown - (len - end);
        let preview = parse(text.as_str());
        *self = EditorState { view_mode: self.view_mode, text, cursor, anchor: cursor, preview };
    }

    fn edit(&mut self, edit: Edit)
        ensures
            final(self)@ == old(self)@.edited(edit),
            final(self)@.well_formed(),
    {
        proof {
            use_type_invariant(&*self);
        }
        let (start, end) = self.selection_range();
        match edit {
            Edit::Insert(c) => {
                let mut insertion = String::new();
                insertion.push(c);
                assert(insertion@ =~= seq![c]);
                self.replace(start, end, insertion.as_str());
            },
            Edit::Paste(pasted) => {
                self.replace(start, end, pasted.as_str());
            },
            Edit::Enter => {
                let mut insertion = String::new();
                insertion.push('\n');
                assert(insertion@ =~= seq!['\n']);
                self.replace(start, end, insertion.as_str());
            },
            Edit::Backspace => {
                let nothing = String::new();
                if start < end {
                    self.replace(start, end, nothing.as_str());
                } else if self.cursor > 0 {
                    self.replace(self.cursor - 1, self.cursor, nothing.as_str());
                }
            },
            Edit::Delete => {
                let nothing = String::new();
                let len = self.text.as_str().unicode_len();
                if start < end {
                    self.replace(start, end, nothing.as_str());
                } else if self.cursor < len {
                    self.replace(self.cursor, self.cursor + 1, nothing.as_str());
                }
            },
        }
    }

    fn target(&self, motion: Motion) -> (to: usize)
        ensures
            to == self@.target(motion),
            to <= self@.text.len(),
    {
        proof {
            use_type_invariant(self);
        }
        match motion {
            Motion::Left => if self.cursor > 0 {
                self.cursor - 1
            } else {
                0
            },
            Motion::Right => {
                let len = self.text.as_str().unicode_len();
                if self.cursor < len {
                    self.cursor + 1
                } else {
                    len
                }
            },
            Motion::Home => {
                let chars = chars_of(self.text.as_str());
                let mut at: usize = self.cursor;
                while at > 0 && chars[at - 1] != '\n'
                    invariant
                        at <= self.cursor <= chars.len(),
                        line_start(chars@, self.cursor as int) == line_start(chars@, at as int),
                    decreases at,
                {
                    at -= 1;
                }
                at
            },
            Motion::End => {
                let chars = chars_of(self.text.as_str());
                let mut at: usize = self.cursor;
                while at < chars.len() && chars[at] != '\n'
                    invariant
                        self.cursor <= at <= chars.len(),
                        line_end(chars@, self.cursor as int) == line_end(chars@, at as int),
                    decreases chars.len() - at,
                {
                    at += 1;
                }
                at
            },
            Motion::DocumentStart => 0,
            Motion::DocumentEnd => self.text.as_str().unicode_len(),
        }
    }

    /// Applies an action of the user.
    pub fn apply(&mut self, action: Action)
        ensures
            final(self)@ == old(self)@.applied(action),
            final(self)@.well_formed(),
    {
        proof {
            use_type_invariant(&*self);
        }
        match action {
            Action::Move(motion) => {
                let to = self.target(motion);
                self.place(to, to);
            },
            Action::Select(motion) => {
                let to = self.target(motion);
                let anchor = self.anchor;
                self.place(to, anchor);
            },
            Action::SelectAll => {
                let len = self.text.as_str().unicode_len();
                self.place(len, 0);
            },
            Action::Place { cursor, anchor } => {
                let len = self.text.as_str().unicode_len();
                if cursor <= len && anchor <= len {
                    self.place(cursor, anchor);
                }
            },
            Action::Locate { row, column, selected } => {
                let cursor = self.offset_at(row, column);
                let anchor = if selected <= cursor {
                    cursor - selected
                } else {
                    0
                };
                self.place(cursor, anchor);
            },
            Action::Edit(edit) => {
                self.edit(edit);
            },
        }
    }

    fn place(&mut self, cursor: usize, anchor: usize)
        requires
            cursor <= old(self)@.text.len(),
            anchor <= old(self)@.text.len(),
        ensures
            final(self)@ == (EditorView { cursor: cursor as int, anchor: anchor as int, ..old(self)@ }),
            final(self)@.well_formed(),
    {
        proof {
            use_type_invariant(&*self);
        }
        self.cursor = cursor;
        self.anchor = anchor;
    }

    /// Toggles bold on the selection and renders the preview anew.
    pub fn toggle_bold(&mut self)
        ensures
            final(self)@ == old(self)@.bold_toggled(),
            final(self)@.well_formed(),
    {
        proof {
            use_type_invariant(&*self);
        }
        let (start, end) = self.selection_range();
        let forward = self.cursor <= self.anchor;
        let (text, new_start, new_end) = toggle_bold(self.text.as_str(), start, end);
        let preview = parse(text.as_str());
        let (cursor, anchor) = if forward {
            (new_start, new_end)
        } else {
            (new_end, new_start)
        };
        *self = EditorState { view_mode: self.view_mode, text, cursor, anchor, preview };
    }

    /// Switches between editing and preview.
    pub fn switch_mode(&mut self)
        ensures
            final(self)@ == old(self)@.mode_switched(),
            final(self)@.well_formed(),
    {
        proof {
            use_type_invariant(&*self);
        }
        self.view_mode = match self.view_mode {
            ViewMode::Edit => ViewMode::Preview,
            ViewMode::Preview => ViewMode::Edit,
        };
    }
}

/// What the editor hears of: the user's actions and the arrival of its text.
#[derive(Debug)]
pub enum Message {
    /// A link in the preview was followed.
    LinkClicked(String),
    Edit(Action),
    /// The read that was started under the given ticket has ended.
    Loaded(u64, Result<String, IoErrorKind>),
    SwitchMode,
    ToggleBold,
}

/// What the editor asks its host to do.
pub enum Command {
    Nothing,
    /// Read the file at `path` and answer with `Message::Loaded` under `ticket`.
    ReadFile { path: String, ticket: u64 },
    /// Show the text to the user.
    Print(String),
}

/// What a [`Command`] is, as plain values.
pub enum CommandView {
    Nothing,
    ReadFile { path: Seq<char>, ticket: u64 },
    Print(Seq<char>),
}

impl View for Command {
    type V = CommandView;

    open spec fn view(&self) -> CommandView {
        match *self {
            Command::Nothing => CommandView::Nothing,
            Command::ReadFile { path, ticket } => CommandView::ReadFile { path: path@, ticket },
            Command::Print(text) => CommandView::Print(text@),
        }
    }
}

/// The editor of one note: where the note is, under which ticket its text
/// was asked for, and the text once it has arrived.
pub struct NoteEditor {
    path: String,
    display_name: String,
    ticket: u64,
    state: Query<EditorState, String>,
}

/// What a [`NoteEditor`] is, as plain values.
pub struct NoteEditorView {
    pub path: Seq<char>,
    pub display_name: Seq<char>,
    pub ticket: u64,
    pub state: Query<EditorView, Seq<char>>,
}

/// The message that an editor shows when its note could not be read.
pub open spec fn failure_message(kind: IoErrorKind) -> Seq<char> {
    "Failed to load file: "@ + kind.spec_name()
}

/// What an editor that waits for its text holds once the read has ended: the
/// text, or a message that names the kind of failure.
pub open spec fn settled(outcome: Result<String, IoErrorKind>) -> Query<EditorView, Seq<char>> {
    match outcome {
        Ok(text) => Query::Loaded(EditorView::loaded(text@)),
        Err(kind) => Query::Error(failure_message(kind)),
    }
}

impl NoteEditorView {
    /// A loaded editor is well formed.
    pub open spec fn well_formed(self) -> bool {
        self.state matches Query::Loaded(editor) ==> editor.well_formed()
    }

    /// The editor of a note that was just opened: its text is awaited.
    pub open spec fn opened(path: Seq<char>, display_name: Seq<char>, ticket: u64) -> NoteEditorView {
        NoteEditorView { path, display_name, ticket, state: Query::Pending }
    }

    /// Whether the message changes nothing because of the state it arrives
    /// in: an action on an editor that is not loaded, or the end of a read
    /// that this editor does not wait for.
    pub open spec fn ignores(self, message: Message) -> bool {
        match message {
            Message::LinkClicked(_) => true,
            Message::Loaded(ticket, _) => ticket != self.ticket || !(self.state is Pending),
            _ => !(self.state is Loaded),
        }
    }

    /// The editor after a message.
    pub open spec fn updated(self, message: Message) -> NoteEditorView {
        if self.ignores(message) {
            self
        } else {
            NoteEditorView {
                state: match message {
                    Message::Edit(action) => Query::Loaded(self.state->Loaded_0.applied(action)),
                    Message::Loaded(_, outcome) => settled(outcome),
                    Message::SwitchMode => Query::Loaded(self.state->Loaded_0.mode_switched()),
                    Message::ToggleBold => Query::Loaded(self.state->Loaded_0.bold_toggled()),
                    Message::LinkClicked(_) => self.state,
                },
                ..self
            }
        }
    }

    /// What the editor asks of its host in answer to a message.
    pub open spec fn command_for(message: Message) -> CommandView {
        match message {
            Message::LinkClicked(link) => CommandView::Print(link@),
            _ => CommandView::Nothing,
        }
    }

    /// The message that a key press stands for, if any.
    pub open spec fn shortcut(self, key: char, control: bool) -> Option<Message> {
        if !(self.state is Loaded) || !control {
            None
        } else if key == 'b' {
            Some(Message::ToggleBold)
        } else if key == 'p' {
            Some(Message::SwitchMode)
        } else {
            None
        }
    }
}

/// Toggling bold twice on a selection that was not bold gives back the
/// editor: the text, the selection and the preview.
pub proof fn lemma_bold_toggle_twice(editor: EditorView)
    requires
        editor.well_formed(),
        !is_bold(editor.text, editor.selection_start(), editor.selection_end()),
    ensures
        editor.bold_toggled().bold_toggled() == editor,
{
    lemma_toggle_twice(editor.text, editor.selection_start(), editor.selection_end());
}

/// The editor after the selected text is deleted, if any is selected.
pub open spec fn selection_deleted(editor: EditorView) -> EditorView {
    if editor.cursor == editor.anchor {
        editor
    } else {
        editor.edited(Edit::Delete)
    }
}

/// An edit that puts text in where nothing is selected puts it at the
/// cursor and leaves the cursor after it.
proof fn lemma_put_in(editor: EditorView, edit: Edit, insertion: Seq<char>)
    requires
        editor.cursor == editor.anchor,
        0 <= editor.cursor <= editor.text.len(),
        match edit {
            Edit::Insert(c) => insertion == seq![c],
            Edit::Paste(pasted) => insertion == pasted@,
            _ => false,
        },
    ensures
        editor.edited(edit).text == editor.text.subrange(0, editor.cursor) + insertion
            + editor.text.subrange(editor.cursor, editor.text.len() as int),
        editor.edited(edit).cursor == editor.cursor + insertion.len(),
        editor.edited(edit).anchor == editor.cursor + insertion.len(),
{
}

/// An edit that deletes one character where nothing is selected: the one
/// before the cursor, or the one after it.
proof fn lemma_take_out(editor: EditorView, edit: Edit)
    requires
        editor.cursor == editor.anchor,
        0 <= editor.cursor <= editor.text.len(),
        edit is Backspace || edit is Delete,
    ensures
        edit is Backspace && editor.cursor > 0 ==> editor.edited(edit).text
            == editor.text.subrange(0, editor.cursor - 1) + editor.text.subrange(
            editor.cursor,
            editor.text.len() as int,
        ) && editor.edited(edit).cursor == editor.cursor - 1 && editor.edited(edit).anchor
            == editor.cursor - 1,
        edit is Delete && editor.cursor < editor.text.len() ==> editor.edited(edit).text
            == editor.text.subrange(0, editor.cursor) + editor.text.subrange(
            editor.cursor + 1,
            editor.text.len() as int,
        ) && editor.edited(edit).cursor == editor.cursor && editor.edited(edit).anchor
            == editor.cursor,
        edit is Delete && editor.cursor == editor.text.len() ==> editor.edited(edit) == editor,
{
    if edit is Backspace && editor.cursor > 0 {
        assert(editor.edited(edit).text =~= editor.text.subrange(0, editor.cursor - 1)
            + editor.text.subrange(editor.cursor, editor.text.len() as int));
    }
    if edit is Delete && editor.cursor < editor.text.len() {
        assert(editor.edited(edit).text =~= editor.text.subrange(0, editor.cursor)
            + editor.text.subrange(editor.cursor + 1, editor.text.len() as int));
    }
}

/// Deleting the selection leaves what was before it and what was after it,
/// with the cursor in between.
proof fn lemma_selection_deleted(editor: EditorView)
    requires
        editor.well_formed(),
    ensures
        selection_deleted(editor).text == editor.text.subrange(0, editor.selection_start())
            + editor.text.subrange(editor.selection_end(), editor.text.len() as int),
        selection_deleted(editor).cursor == editor.selection_start(),
        selection_deleted(editor).anchor == editor.selection_start(),
{
    let start = editor.selection_start();
    let end = editor.selection_end();
    assert(selection_deleted(editor).text =~= editor.text.subrange(0, start)
        + editor.text.subrange(end, editor.text.len() as int));
}

/// The text that the bold toggle makes of a range that is not bold is the
/// text that these edits make: delete the selection, insert two markers,
/// paste the selection back, insert two markers.
pub proof fn lemma_wrap_as_edits(editor: EditorView, selected: String)
    requires
        editor.well_formed(),
        selected@ == editor.selection(),
        !is_bold(editor.text, editor.selection_start(), editor.selection_end()),
    ensures
        editor.bold_toggled().text == selection_deleted(editor).edited(Edit::Insert(MARKER)).edited(
            Edit::Insert(MARKER),
        ).edited(Edit::Paste(selected)).edited(Edit::Insert(MARKER)).edited(
            Edit::Insert(MARKER),
        ).text,
{
    let text = editor.text;
    let len = text.len() as int;
    let start = editor.selection_start();
    let end = editor.selection_end();
    let before = text.subrange(0, start);
    let after = text.subrange(end, len);
    let marker = seq![MARKER];
    let emptied = selection_deleted(editor);
    lemma_selection_deleted(editor);
    let one = emptied.edited(Edit::Insert(MARKER));
    lemma_put_in(emptied, Edit::Insert(MARKER), marker);
    assert(one.text =~= before + marker + after);
    let two = one.edited(Edit::Insert(MARKER));
    lemma_put_in(one, Edit::Insert(MARKER), marker);
    assert(two.text =~= before + marker + marker + after);
    let pasted = two.edited(Edit::Paste(selected));
    lemma_put_in(two, Edit::Paste(selected), selected@);
    assert(pasted.text =~= before + marker + marker + selected@ + after);
    let three = pasted.edited(Edit::Insert(MARKER));
    lemma_put_in(pasted, Edit::Insert(MARKER), marker);
    assert(three.text =~= before + marker + marker + selected@ + marker + after);
    let four = three.edited(Edit::Insert(MARKER));
    lemma_put_in(three, Edit::Insert(MARKER), marker);
    assert(four.text =~= before + marker + marker + selected@ + marker + marker + after);
    assert(four.text =~= wrapped(text, start, end));
}

/// The text that the bold toggle makes of a range that is bold is the text
/// that these edits make: delete the selection, delete backwards twice,
/// paste the selection back, delete forwards twice.
pub proof fn lemma_unwrap_as_edits(editor: EditorView, selected: String)
    requires
        editor.well_formed(),
        selected@ == editor.selection(),
        is_bold(editor.text, editor.selection_start(), editor.selection_end()),
    ensures
        editor.bold_toggled().text == selection_deleted(editor).edited(Edit::Backspace).edited(
            Edit::Backspace,
        ).edited(Edit::Paste(selected)).edited(Edit::Delete).edited(Edit::Delete).text,
{
    let text = editor.text;
    let len = text.len() as int;
    let start = editor.selection_start();
    let end = editor.selection_end();
    let after = text.subrange(end, len);
    let emptied = selection_deleted(editor);
    lemma_selection_deleted(editor);
    let one = emptied.edited(Edit::Backspace);
    lemma_take_out(emptied, Edit::Backspace);
    assert(one.text =~= text.subrange(0, start - 1) + after);
    let two = one.edited(Edit::Backspace);
    lemma_take_out(one, Edit::Backspace);
    assert(two.text =~= text.subrange(0, start - 2) + after);
    let pasted = two.edited(Edit::Paste(selected));
    lemma_put_in(two, Edit::Paste(selected), selected@);
    assert(pasted.text =~= text.subrange(0, start - 2) + selected@ + after);
    assert(pasted.cursor == end - 2);
    let three = pasted.edited(Edit::Delete);
    lemma_take_out(pasted, Edit::Delete);
    let four = three.edited(Edit::Delete);
    lemma_take_out(three, Edit::Delete);
    if end + 2 <= len {
        assert(three.text =~= text.subrange(0, start - 2) + selected@ + text.subrange(end + 1, len));
        assert(four.text =~= text.subrange(0, start - 2) + selected@ + text.subrange(end + 2, len));
    } else if end + 1 == len {
        assert(three.text =~= text.subrange(0, start - 2) + selected@);
        assert(four.text =~= text.subrange(0, start - 2) + selected@ + text.subrange(len, len));
    } else {
        assert(four.text =~= text.subrange(0, start - 2) + selected@ + text.subrange(len, len));
    }
    assert(four.text =~= unwrapped(text, start, end));
}

/// The same, said of the messages: two bold toggles in a row leave a loaded
/// note as it was, where its selection was not bold.
pub proof fn lemma_toggle_bold_messages(session: NoteEditorView)
    requires
        session.well_formed(),
        session.state matches Query::Loaded(editor) && !is_bold(
            editor.text,
            editor.selection_start(),
            editor.selection_end(),
        ),
    ensures
        session.updated(Message::ToggleBold).updated(Message::ToggleBold) == session,
{
    lemma_bold_toggle_twice(session.state->Loaded_0);
}

/// An editor whose note could not be read shows the failure, and nothing
/// that the user does changes it after that.
pub proof fn lemma_failed_load_is_final(
    session: NoteEditorView,
    kind: IoErrorKind,
    action: Action,
)
    requires
        session.state is Pending,
    ensures
        ({
            let failed = session.updated(Message::Loaded(session.ticket, Err(kind)));
            &&& failed.state == Query::<EditorView, Seq<char>>::Error(failure_message(kind))
            &&& failed.updated(Message::Edit(action)) == failed
            &&& failed.updated(Message::ToggleBold) == failed
            &&& failed.updated(Message::SwitchMode) == failed
        }),
{
}

/// An action of the user changes nothing unless the note is loaded.
pub proof fn lemma_actions_need_text(session: NoteEditorView, action: Action)
    requires
        !(session.state is Loaded),
    ensures
        session.updated(Message::Edit(action)) == session,
        session.updated(Message::ToggleBold) == session,
        session.updated(Message::SwitchMode) == session,
{
}

/// The end of a read changes nothing in an editor that does not wait, or
/// that waits under another ticket.
pub proof fn lemma_foreign_load_ignored(
    session: NoteEditorView,
    ticket: u64,
    outcome: Result<String, IoErrorKind>,
)
    requires
        ticket != session.ticket || !(session.state is Pending),
    ensures
        session.updated(Message::Loaded(ticket, outcome)) == session,
{
}

impl View for NoteEditor {
    type V = NoteEditorView;

    closed spec fn view(&self) -> NoteEditorView {
        NoteEditorView {
            path: self.path@,
            display_name: self.display_name@,
            ticket: self.ticket,
            state: match self.state {
                Query::Pending => Query::Pending,
                Query::Loaded(editor) => Query::Loaded(editor@),
                Query::Error(message) => Query::Error(message@),
            },
        }
    }
}

impl NoteEditor {
    /// Opens the note at `path`: the editor waits for the text, which the
    /// host is asked to read under `ticket`.
    pub fn from_path(path: String, display_name: String, ticket: u64) -> (opened: (Self, Command))
        ensures
            opened.0@ == NoteEditorView::opened(path@, display_name@, ticket),
            opened.1@ == (CommandView::ReadFile { path: path@, ticket }),
    {
        let command = Command::ReadFile { path: path.clone(), ticket };
        (NoteEditor { path, display_name, ticket, state: Query::Pending }, command)
    }

    pub fn path(&self) -> (path: &String)
        ensures
            path@ == self@.path,
    {
        &self.path
    }

    pub fn display_name(&self) -> (name: &String)
        ensures
            name@ == self@.display_name,
    {
        &self.display_name
    }

    /// The ticket under which this editor's text was asked for.
    pub fn ticket(&self) -> (ticket: u64)
        ensures
            ticket == self@.ticket,
    {
        self.ticket
    }

    /// The editor's state: waiting, loaded, or failed with a message.
    pub fn state(&self) -> (state: &Query<EditorState, String>)
        ensures
            match *state {
                Query::Pending => self@.state is Pending,
                Query::Loaded(editor) => self@.state == Query::<EditorView, Seq<char>>::Loaded(
                    editor@,
                ),
                Query::Error(message) => self@.state == Query::<EditorView, Seq<char>>::Error(
                    message@,
                ),
            },
    {
        &self.state
    }

    /// Takes a message: an action of the user, or the end of a read.
    ///
    /// Actions reach the text only once it is loaded. The end of a read counts
    /// only under this editor's ticket and only while the editor waits.
    pub fn update(&mut self, message: Message) -> (command: Command)
        ensures
            final(self)@ == old(self)@.updated(message),
            final(self)@.well_formed(),
            command@ == NoteEditorView::command_for(message),
    {
        proof {
            match &self.state {
                Query::Loaded(editor) => {
                    use_type_invariant(editor);
                },
                _ => {},
            }
        }
        match message {
            Message::LinkClicked(link) => Command::Print(link),
            Message::Edit(action) => {
                match &mut self.state {
                    Query::Loaded(editor) => {
                        editor.apply(action);
                    },
                    _ => {},
                }
                Command::Nothing
            },
            Message::Loaded(ticket, outcome) => {
                if ticket == self.ticket && self.state.is_pending() {
                    self.state = match outcome {
                        Ok(text) => Query::Loaded(EditorState::new(text)),
                        Err(kind) => {
                            let mut message = String::from_str("Failed to load file: ");
                            message.append(kind.name().as_str());
                            Query::Error(message)
                        },
                    };
                }
                Command::Nothing
            },
            Message::SwitchMode => {
                match &mut self.state {
                    Query::Loaded(editor) => {
                        editor.switch_mode();
                    },
                    _ => {},
                }
                Command::Nothing
            },
            Message::ToggleBold => {
                match &mut self.state {
                    Query::Loaded(editor) => {
                        editor.toggle_bold();
                    },
                    _ => {},
                }
                Command::Nothing
            },
        }
    }

    /// The message that a key press stands for, if any: with the control key,
    /// `b` toggles bold and `p` switches the view mode. Keys mean nothing
    /// until the note is loaded.
    pub fn shortcut(&self, key: char, control: bool) -> (message: Option<Message>)
        ensures
            message == self@.shortcut(key, control),
    {
        if !self.state.is_loaded() || !control {
            None
        } else if key == 'b' {
            Some(Message::ToggleBold)
        } else if key == 'p' {
            Some(Message::SwitchMode)
        } else {
            None
        }
    }
}

} // verus!
