use darkstone::note_editor::Action;
use darkstone::note_editor::Command;
use darkstone::note_editor::Edit;
use darkstone::note_editor::EditorState;
use darkstone::note_editor::Message;
use darkstone::note_editor::Motion;
use darkstone::note_editor::NoteEditor;
use darkstone::note_editor::ViewMode;
use darkstone::util::IoErrorKind;
use darkstone::util::Query;
use iced::widget::markdown::Item;

fn loaded(text: &str) -> NoteEditor {
    let (mut editor, _) = NoteEditor::from_path(String::from("/notes/a.md"), String::from("a.md"), 3);
    editor.update(Message::Loaded(3, Ok(String::from(text))));
    editor
}

fn text_of(editor: &NoteEditor) -> String {
    match editor.state() {
        Query::Loaded(state) => state.text().clone(),
        _ => panic!("the note is not loaded"),
    }
}

fn caret_of(editor: &NoteEditor) -> (usize, usize) {
    match editor.state() {
        Query::Loaded(state) => (state.cursor(), state.anchor()),
        _ => panic!("the note is not loaded"),
    }
}

#[test]
fn opening_a_note_waits_and_asks_for_the_read() {
    let (editor, command) = NoteEditor::from_path(String::from("/notes/a.md"), String::from("a.md"), 9);
    assert!(editor.state().is_pending());
    assert_eq!(editor.path(), "/notes/a.md");
    assert_eq!(editor.display_name(), "a.md");
    assert_eq!(editor.ticket(), 9);
    assert!(matches!(command, Command::ReadFile { path, ticket: 9 } if path == "/notes/a.md"));
}

#[test]
fn loaded_text_is_shown_in_edit_mode_with_its_preview() {
    let editor = loaded("# Title\n\nSome *text*.\n");
    match editor.state() {
        Query::Loaded(state) => {
            assert_eq!(state.text(), "# Title\n\nSome *text*.\n");
            assert_eq!(state.view_mode(), ViewMode::Edit);
            assert_eq!((state.cursor(), state.anchor()), (0, 0));
            assert!(state.selection().is_none());
            assert_eq!(state.preview().len(), 2);
            assert!(matches!(state.preview()[0], Item::Heading(..)));
            assert!(matches!(state.preview()[1], Item::Paragraph(..)));
        }
        _ => panic!("the note is not loaded"),
    }
}

#[test]
fn empty_text_has_an_empty_preview() {
    let state = EditorState::new(String::new());
    assert_eq!(state.text(), "");
    assert!(state.preview().is_empty());
}

#[test]
fn missing_file_ends_in_an_error_that_names_the_kind() {
    let (mut editor, _) = NoteEditor::from_path(String::from("/notes/gone.md"), String::from("gone.md"), 0);
    editor.update(Message::Loaded(0, Err(IoErrorKind::NotFound)));
    assert!(matches!(editor.state(), Query::Error(message) if message == "Failed to load file: NotFound"));
}

#[test]
fn edits_in_the_error_state_change_nothing() {
    let (mut editor, _) = NoteEditor::from_path(String::from("/notes/gone.md"), String::from("gone.md"), 0);
    editor.update(Message::Loaded(0, Err(IoErrorKind::NotFound)));
    editor.update(Message::Edit(Action::Edit(Edit::Insert('x'))));
    editor.update(Message::ToggleBold);
    editor.update(Message::SwitchMode);
    editor.update(Message::Loaded(0, Ok(String::from("late"))));
    assert!(matches!(editor.state(), Query::Error(message) if message == "Failed to load file: NotFound"));
}

#[test]
fn edits_while_pending_change_nothing() {
    let (mut editor, _) = NoteEditor::from_path(String::from("/notes/a.md"), String::from("a.md"), 0);
    editor.update(Message::Edit(Action::Edit(Edit::Insert('x'))));
    editor.update(Message::SwitchMode);
    editor.update(Message::ToggleBold);
    assert!(editor.state().is_pending());
}

#[test]
fn read_under_another_ticket_is_discarded() {
    let (mut editor, _) = NoteEditor::from_path(String::from("/notes/b.md"), String::from("b.md"), 5);
    editor.update(Message::Loaded(4, Ok(String::from("text of a"))));
    assert!(editor.state().is_pending());
    editor.update(Message::Loaded(5, Ok(String::from("text of b"))));
    assert_eq!(text_of(&editor), "text of b");
    editor.update(Message::Loaded(4, Ok(String::from("text of a"))));
    editor.update(Message::Loaded(5, Ok(String::from("again"))));
    assert_eq!(text_of(&editor), "text of b");
}

#[test]
fn bold_toggle_on_a_selection_round_trips() {
    let mut editor = loaded("hello world");
    editor.update(Message::Edit(Action::Place { cursor: 11, anchor: 6 }));
    editor.update(Message::ToggleBold);
    assert_eq!(text_of(&editor), "hello **world**");
    assert_eq!(caret_of(&editor), (13, 8));
    editor.update(Message::ToggleBold);
    assert_eq!(text_of(&editor), "hello world");
    assert_eq!(caret_of(&editor), (11, 6));
}

#[test]
fn bold_toggle_keeps_a_backward_selection_backward() {
    let mut editor = loaded("hello world");
    editor.update(Message::Edit(Action::Place { cursor: 6, anchor: 11 }));
    editor.update(Message::ToggleBold);
    assert_eq!(text_of(&editor), "hello **world**");
    assert_eq!(caret_of(&editor), (8, 13));
}

#[test]
fn bold_toggle_renders_the_preview_anew() {
    let mut editor = loaded("hello world");
    editor.update(Message::Edit(Action::Place { cursor: 11, anchor: 0 }));
    editor.update(Message::Edit(Action::Edit(Edit::Paste(String::from("one\n\ntwo\n\nthree")))));
    match editor.state() {
        Query::Loaded(state) => assert_eq!(state.preview().len(), 3),
        _ => panic!("the note is not loaded"),
    }
}

#[test]
fn insert_replaces_the_selection() {
    let mut editor = loaded("hello world");
    editor.update(Message::Edit(Action::Place { cursor: 5, anchor: 0 }));
    editor.update(Message::Edit(Action::Edit(Edit::Insert('J'))));
    assert_eq!(text_of(&editor), "J world");
    assert_eq!(caret_of(&editor), (1, 1));
    editor.update(Message::Edit(Action::Edit(Edit::Insert('o'))));
    assert_eq!(text_of(&editor), "Jo world");
    assert_eq!(caret_of(&editor), (2, 2));
}

#[test]
fn paste_puts_the_cursor_after_the_pasted_text() {
    let mut editor = loaded("ab");
    editor.update(Message::Edit(Action::Place { cursor: 1, anchor: 1 }));
    editor.update(Message::Edit(Action::Edit(Edit::Paste(String::from("XYZ")))));
    assert_eq!(text_of(&editor), "aXYZb");
    assert_eq!(caret_of(&editor), (4, 4));
}

#[test]
fn enter_breaks_the_line() {
    let mut editor = loaded("ab");
    editor.update(Message::Edit(Action::Place { cursor: 1, anchor: 1 }));
    editor.update(Message::Edit(Action::Edit(Edit::Enter)));
    assert_eq!(text_of(&editor), "a\nb");
    match editor.state() {
        Query::Loaded(state) => assert_eq!(state.cursor_position(), (1, 0)),
        _ => panic!("the note is not loaded"),
    }
}

#[test]
fn backspace_and_delete_take_one_character_or_the_selection() {
    let mut editor = loaded("abcdef");
    editor.update(Message::Edit(Action::Place { cursor: 3, anchor: 3 }));
    editor.update(Message::Edit(Action::Edit(Edit::Backspace)));
    assert_eq!(text_of(&editor), "abdef");
    assert_eq!(caret_of(&editor), (2, 2));
    editor.update(Message::Edit(Action::Edit(Edit::Delete)));
    assert_eq!(text_of(&editor), "abef");
    assert_eq!(caret_of(&editor), (2, 2));
    editor.update(Message::Edit(Action::Place { cursor: 1, anchor: 3 }));
    editor.update(Message::Edit(Action::Edit(Edit::Backspace)));
    assert_eq!(text_of(&editor), "af");
    assert_eq!(caret_of(&editor), (1, 1));
    editor.update(Message::Edit(Action::SelectAll));
    editor.update(Message::Edit(Action::Edit(Edit::Delete)));
    assert_eq!(text_of(&editor), "");
    assert_eq!(caret_of(&editor), (0, 0));
}

#[test]
fn backspace_at_the_start_and_delete_at_the_end_do_nothing() {
    let mut editor = loaded("ab");
    editor.update(Message::Edit(Action::Edit(Edit::Backspace)));
    assert_eq!(text_of(&editor), "ab");
    editor.update(Message::Edit(Action::Move(Motion::DocumentEnd)));
    editor.update(Message::Edit(Action::Edit(Edit::Delete)));
    assert_eq!(text_of(&editor), "ab");
    assert_eq!(caret_of(&editor), (2, 2));
}

#[test]
fn motions_move_the_cursor_within_the_text() {
    let mut state = EditorState::new(String::from("one\ntwo three\nfour"));
    state.apply(Action::Place { cursor: 7, anchor: 7 });
    assert_eq!(state.cursor_position(), (1, 3));
    state.apply(Action::Move(Motion::Home));
    assert_eq!((state.cursor(), state.anchor()), (4, 4));
    state.apply(Action::Move(Motion::End));
    assert_eq!((state.cursor(), state.anchor()), (13, 13));
    state.apply(Action::Move(Motion::Right));
    assert_eq!(state.cursor(), 14);
    assert_eq!(state.cursor_position(), (2, 0));
    state.apply(Action::Move(Motion::Left));
    assert_eq!(state.cursor(), 13);
    state.apply(Action::Move(Motion::DocumentStart));
    assert_eq!(state.cursor(), 0);
    state.apply(Action::Move(Motion::Left));
    assert_eq!(state.cursor(), 0);
    state.apply(Action::Move(Motion::DocumentEnd));
    assert_eq!(state.cursor(), 18);
    state.apply(Action::Move(Motion::Right));
    assert_eq!(state.cursor(), 18);
    state.apply(Action::Move(Motion::End));
    assert_eq!(state.cursor(), 18);
    state.apply(Action::Move(Motion::Home));
    assert_eq!(state.cursor(), 14);
}

#[test]
fn select_extends_from_the_anchor() {
    let mut state = EditorState::new(String::from("one two"));
    state.apply(Action::Place { cursor: 4, anchor: 4 });
    state.apply(Action::Select(Motion::End));
    assert_eq!((state.cursor(), state.anchor()), (7, 4));
    assert_eq!(state.selection_range(), (4, 7));
    assert_eq!(state.selection(), Some(String::from("two")));
    state.apply(Action::Select(Motion::Home));
    assert_eq!(state.selection_range(), (0, 4));
    assert_eq!(state.selection(), Some(String::from("one ")));
    state.apply(Action::Move(Motion::Right));
    assert!(state.selection().is_none());
}

#[test]
fn placing_the_cursor_outside_the_text_does_nothing() {
    let mut state = EditorState::new(String::from("abc"));
    state.apply(Action::Place { cursor: 2, anchor: 1 });
    state.apply(Action::Place { cursor: 4, anchor: 0 });
    state.apply(Action::Place { cursor: 0, anchor: 9 });
    assert_eq!((state.cursor(), state.anchor()), (2, 1));
}

#[test]
fn switching_modes_goes_back_and_forth() {
    let mut editor = loaded("text");
    editor.update(Message::SwitchMode);
    assert!(matches!(editor.state(), Query::Loaded(state) if state.view_mode() == ViewMode::Preview));
    editor.update(Message::SwitchMode);
    assert!(matches!(editor.state(), Query::Loaded(state) if state.view_mode() == ViewMode::Edit));
    assert_eq!(text_of(&editor), "text");
}

#[test]
fn followed_link_is_handed_to_the_host() {
    let mut editor = loaded("text");
    let command = editor.update(Message::LinkClicked(String::from("https://example.org/")));
    assert!(matches!(command, Command::Print(link) if link == "https://example.org/"));
    assert_eq!(text_of(&editor), "text");
}

#[test]
fn shortcuts_need_control_and_a_loaded_note() {
    let editor = loaded("text");
    assert!(matches!(editor.shortcut('b', true), Some(Message::ToggleBold)));
    assert!(matches!(editor.shortcut('p', true), Some(Message::SwitchMode)));
    assert!(editor.shortcut('b', false).is_none());
    assert!(editor.shortcut('i', true).is_none());
    let (pending, _) = NoteEditor::from_path(String::from("/n/a"), String::from("a"), 0);
    assert!(pending.shortcut('b', true).is_none());
}

#[test]
fn rows_and_columns_lead_to_offsets_and_back() {
    let state = EditorState::new(String::from("one\ntwo three\n\nfour"));
    assert_eq!(state.offset_at(0, 0), 0);
    assert_eq!(state.offset_at(0, 2), 2);
    assert_eq!(state.offset_at(1, 0), 4);
    assert_eq!(state.offset_at(1, 4), 8);
    assert_eq!(state.offset_at(2, 0), 14);
    assert_eq!(state.offset_at(3, 4), 19);
    let mut state = state;
    for offset in 0..=19 {
        state.apply(Action::Place { cursor: offset, anchor: offset });
        let (row, column) = state.cursor_position();
        assert_eq!(state.offset_at(row, column), offset);
    }
}

#[test]
fn rows_and_columns_outside_the_text_are_clamped() {
    let state = EditorState::new(String::from("one\ntwo"));
    assert_eq!(state.offset_at(0, 9), 3);
    assert_eq!(state.offset_at(1, 9), 7);
    assert_eq!(state.offset_at(5, 0), 7);
    let empty = EditorState::new(String::new());
    assert_eq!(empty.offset_at(0, 0), 0);
    assert_eq!(empty.offset_at(3, 3), 0);
}

#[test]
fn locate_puts_the_selection_before_the_cursor() {
    let mut state = EditorState::new(String::from("hello\nbig world"));
    state.apply(Action::Locate { row: 1, column: 9, selected: 5 });
    assert_eq!((state.cursor(), state.anchor()), (15, 10));
    assert_eq!(state.selection(), Some(String::from("world")));
    state.apply(Action::Locate { row: 0, column: 2, selected: 0 });
    assert_eq!((state.cursor(), state.anchor()), (2, 2));
    state.apply(Action::Locate { row: 0, column: 2, selected: 7 });
    assert_eq!((state.cursor(), state.anchor()), (2, 0));
}
