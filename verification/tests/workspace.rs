use darkstone::note_editor::Action;
use darkstone::note_editor::Edit;
use darkstone::notes::Command;
use darkstone::notes::Directory;
use darkstone::notes::File;
use darkstone::notes::Message;
use darkstone::notes::Notes;
use darkstone::util::IoErrorKind;
use darkstone::util::Query;

fn tree() -> Directory {
    let mut root = Directory::new(String::from("/notes"));
    root.push_file(File::new(String::from("/notes/a.md")));
    let mut work = Directory::new(String::from("/notes/work"));
    work.push_file(File::new(String::from("/notes/work/todo.md")));
    root.push_directory(work);
    root
}

fn scanned() -> Notes {
    let (mut notes, _) = Notes::new(String::from("/notes"));
    notes.update(Message::LoadFiles(Ok(tree())));
    notes
}

fn root_of(notes: &Notes) -> &Directory {
    match notes.notes() {
        Query::Loaded(root) => root,
        _ => panic!("the tree is not there"),
    }
}

fn open_text(notes: &Notes) -> Option<String> {
    match notes.current()?.state() {
        Query::Loaded(state) => Some(state.text().clone()),
        _ => None,
    }
}

fn ticket_of(command: Command) -> u64 {
    match command {
        Command::Editor(darkstone::note_editor::Command::ReadFile { ticket, .. }) => ticket,
        _ => panic!("no read was asked for"),
    }
}

fn loaded(ticket: u64, text: &str) -> Message {
    Message::NoteEditorMessage(darkstone::note_editor::Message::Loaded(ticket, Ok(String::from(text))))
}

#[test]
fn workspace_starts_by_asking_for_the_scan() {
    let (notes, command) = Notes::new(String::from("/notes"));
    assert!(notes.notes().is_pending());
    assert!(notes.current().is_none());
    assert!(notes.failure().is_none());
    assert!(matches!(command, Command::LoadFiles(path) if path == "/notes"));
}

#[test]
fn scan_outcome_counts_once() {
    let mut notes = scanned();
    assert_eq!(root_of(&notes).files().len(), 1);
    notes.update(Message::LoadFiles(Err(IoErrorKind::NotFound)));
    notes.update(Message::LoadFiles(Ok(Directory::new(String::from("/other")))));
    assert_eq!(root_of(&notes).path(), "/notes");
    assert_eq!(root_of(&notes).files().len(), 1);
}

#[test]
fn failed_scan_shows_its_kind() {
    let (mut notes, _) = Notes::new(String::from("/notes"));
    notes.update(Message::LoadFiles(Err(IoErrorKind::PermissionDenied)));
    assert!(matches!(notes.notes(), Query::Error(IoErrorKind::PermissionDenied)));
    assert!(matches!(notes.update(Message::Create), Command::Nothing));
    assert!(matches!(notes.update(Message::Delete(String::from("/notes/a.md"))), Command::Nothing));
}

#[test]
fn create_is_asked_of_the_host_in_the_root() {
    let mut notes = scanned();
    assert!(matches!(notes.update(Message::Create), Command::CreateNote(path) if path == "/notes"));
    assert_eq!(root_of(&notes).files().len(), 1);
}

#[test]
fn create_before_the_scan_does_nothing() {
    let (mut notes, _) = Notes::new(String::from("/notes"));
    assert!(matches!(notes.update(Message::Create), Command::Nothing));
    let file = File::new(String::from("/notes/Untitled"));
    assert!(matches!(notes.update(Message::Created(Ok(file))), Command::Nothing));
    assert!(notes.current().is_none());
}

#[test]
fn created_note_joins_the_tree_and_is_opened() {
    let mut notes = scanned();
    let file = File::in_directory(&String::from("/notes"), String::from("Untitled"));
    let command = notes.update(Message::Created(Ok(file)));
    assert!(matches!(
        command,
        Command::Editor(darkstone::note_editor::Command::ReadFile { path, ticket: 0 }) if path == "/notes/Untitled"
    ));
    let root = root_of(&notes);
    assert_eq!(root.files().len(), 2);
    assert_eq!(root.files()[1].path(), "/notes/Untitled");
    assert_eq!(root.files()[1].display_name(), "Untitled");
    let editor = notes.current().expect("the new note is open");
    assert_eq!(editor.path(), "/notes/Untitled");
    assert_eq!(editor.display_name(), "Untitled");
    assert!(editor.state().is_pending());
}

#[test]
fn failed_create_leaves_the_tree_alone() {
    let mut notes = scanned();
    let command = notes.update(Message::Created(Err(IoErrorKind::PermissionDenied)));
    assert!(matches!(command, Command::Nothing));
    assert_eq!(notes.failure(), Some(IoErrorKind::PermissionDenied));
    assert_eq!(root_of(&notes).files().len(), 1);
    assert!(notes.current().is_none());
    let file = File::in_directory(&String::from("/notes"), String::from("Untitled"));
    notes.update(Message::Created(Ok(file)));
    assert!(notes.failure().is_none());
}

#[test]
fn delete_is_asked_of_the_host_and_waits_for_its_end() {
    let mut notes = scanned();
    let command = notes.update(Message::Delete(String::from("/notes/a.md")));
    assert!(matches!(command, Command::Remove { path, directory: false } if path == "/notes/a.md"));
    let command = notes.update(Message::Delete(String::from("/notes/work")));
    assert!(matches!(command, Command::Remove { path, directory: true } if path == "/notes/work"));
    assert_eq!(root_of(&notes).files().len(), 1);
    assert_eq!(root_of(&notes).directories().len(), 1);
}

#[test]
fn finished_delete_takes_the_entry_out_of_the_tree() {
    let mut notes = scanned();
    notes.update(Message::Deleted(String::from("/notes/work/todo.md"), Ok(())));
    assert!(root_of(&notes).directories()[0].files().is_empty());
    notes.update(Message::Deleted(String::from("/notes/work"), Ok(())));
    assert!(root_of(&notes).directories().is_empty());
    assert_eq!(root_of(&notes).files().len(), 1);
}

#[test]
fn failed_delete_leaves_the_tree_alone() {
    let mut notes = scanned();
    notes.update(Message::Deleted(String::from("/notes/a.md"), Err(IoErrorKind::PermissionDenied)));
    assert_eq!(notes.failure(), Some(IoErrorKind::PermissionDenied));
    assert_eq!(root_of(&notes).files().len(), 1);
    assert_eq!(root_of(&notes).files()[0].path(), "/notes/a.md");
}

#[test]
fn expand_message_reaches_the_tree() {
    let mut notes = scanned();
    notes.update(Message::Expand(String::from("/notes/work"), false));
    assert!(!root_of(&notes).directories()[0].is_expanded());
    assert!(root_of(&notes).is_expanded());
    notes.update(Message::Expand(String::from("/notes/work"), true));
    assert!(root_of(&notes).directories()[0].is_expanded());
    notes.update(Message::Expand(String::from("/notes/nowhere"), false));
    assert!(root_of(&notes).directories()[0].is_expanded());
    assert!(root_of(&notes).is_expanded());
}

#[test]
fn second_open_wins_whatever_order_the_reads_end_in() {
    let mut notes = scanned();
    let a = ticket_of(notes.update(Message::SetCurrent(String::from("/notes/a.md"), String::from("a.md"))));
    let b = ticket_of(notes.update(Message::SetCurrent(
        String::from("/notes/work/todo.md"),
        String::from("todo.md"),
    )));
    assert_ne!(a, b);
    notes.update(loaded(a, "text of a"));
    assert_eq!(open_text(&notes), None);
    notes.update(loaded(b, "text of todo"));
    assert_eq!(open_text(&notes), Some(String::from("text of todo")));

    let mut notes = scanned();
    let a = ticket_of(notes.update(Message::SetCurrent(String::from("/notes/a.md"), String::from("a.md"))));
    let b = ticket_of(notes.update(Message::SetCurrent(
        String::from("/notes/work/todo.md"),
        String::from("todo.md"),
    )));
    notes.update(loaded(b, "text of todo"));
    notes.update(loaded(a, "text of a"));
    assert_eq!(open_text(&notes), Some(String::from("text of todo")));
    assert_eq!(notes.current().map(|e| e.path().clone()), Some(String::from("/notes/work/todo.md")));
}

#[test]
fn reopening_the_same_note_discards_the_older_read() {
    let mut notes = scanned();
    let first = ticket_of(notes.update(Message::SetCurrent(String::from("/notes/a.md"), String::from("a.md"))));
    let second = ticket_of(notes.update(Message::SetCurrent(String::from("/notes/a.md"), String::from("a.md"))));
    notes.update(loaded(first, "old"));
    assert_eq!(open_text(&notes), None);
    notes.update(loaded(second, "new"));
    assert_eq!(open_text(&notes), Some(String::from("new")));
}

#[test]
fn editor_messages_without_an_open_note_do_nothing() {
    let mut notes = scanned();
    let command = notes.update(loaded(0, "text"));
    assert!(matches!(command, Command::Nothing));
    assert!(notes.current().is_none());
}

#[test]
fn edits_reach_the_open_note() {
    let mut notes = scanned();
    let ticket = ticket_of(notes.update(Message::SetCurrent(String::from("/notes/a.md"), String::from("a.md"))));
    notes.update(loaded(ticket, "bc"));
    notes.update(Message::NoteEditorMessage(darkstone::note_editor::Message::Edit(Action::Edit(
        Edit::Insert('a'),
    ))));
    assert_eq!(open_text(&notes), Some(String::from("abc")));
}

#[test]
fn control_n_creates_and_other_keys_go_to_the_editor() {
    let mut notes = scanned();
    assert!(matches!(notes.shortcut('n', true), Some(Message::Create)));
    assert!(notes.shortcut('n', false).is_none());
    assert!(notes.shortcut('b', true).is_none());
    let ticket = ticket_of(notes.update(Message::SetCurrent(String::from("/notes/a.md"), String::from("a.md"))));
    notes.update(loaded(ticket, "text"));
    assert!(matches!(
        notes.shortcut('b', true),
        Some(Message::NoteEditorMessage(darkstone::note_editor::Message::ToggleBold))
    ));
    assert!(matches!(
        notes.shortcut('p', true),
        Some(Message::NoteEditorMessage(darkstone::note_editor::Message::SwitchMode))
    ));
}
