use darkstone::notes::Directory;
use darkstone::scan::Entry;
use darkstone::scan::Scan;
use darkstone::scan::Step;
use darkstone::util::IoErrorKind;

fn file(path: &str) -> Entry {
    Entry { path: String::from(path), is_directory: false }
}

fn directory(path: &str) -> Entry {
    Entry { path: String::from(path), is_directory: true }
}

fn listing_of(path: &str) -> Result<Vec<Entry>, IoErrorKind> {
    match path {
        "/notes" => Ok(vec![
            file("/notes/a.md"),
            directory("/notes/work"),
            file("/notes/b.md"),
            directory("/notes/empty"),
        ]),
        "/notes/work" => Ok(vec![directory("/notes/work/old"), file("/notes/work/todo.md")]),
        "/notes/work/old" => Ok(vec![file("/notes/work/old/2019.md")]),
        "/notes/empty" => Ok(vec![]),
        "/locked" => Ok(vec![file("/locked/a.md"), directory("/locked/secret")]),
        "/locked/secret" => Err(IoErrorKind::PermissionDenied),
        _ => Err(IoErrorKind::NotFound),
    }
}

fn run(root: &str) -> (Result<Directory, IoErrorKind>, Vec<String>) {
    let mut asked = Vec::new();
    let mut scan = Scan::new(String::from(root));
    loop {
        asked.push(scan.awaited().clone());
        let outcome = listing_of(scan.awaited());
        match scan.listed(outcome) {
            Step::Next(next) => scan = next,
            Step::Done(tree) => return (Ok(tree), asked),
            Step::Failed(kind) => return (Err(kind), asked),
        }
    }
}

fn flatten(directory: &Directory, depth: usize, out: &mut Vec<(usize, String, bool)>) {
    for file in directory.files() {
        out.push((depth, file.path().clone(), false));
    }
    for child in directory.directories() {
        out.push((depth, child.path().clone(), true));
        flatten(child, depth + 1, out);
    }
}

#[test]
fn scan_waits_for_the_root_first() {
    let scan = Scan::new(String::from("/notes"));
    assert_eq!(scan.awaited(), "/notes");
}

#[test]
fn scan_of_an_empty_directory_is_done_at_once() {
    let scan = Scan::new(String::from("/notes/empty"));
    match scan.listed(Ok(vec![])) {
        Step::Done(tree) => {
            assert_eq!(tree.path(), "/notes/empty");
            assert_eq!(tree.display_name(), "empty");
            assert!(tree.is_expanded());
            assert!(tree.files().is_empty());
            assert!(tree.directories().is_empty());
        }
        _ => panic!("the scan should have ended"),
    }
}

#[test]
fn scan_lists_every_directory_once_depth_first() {
    let (_, asked) = run("/notes");
    assert_eq!(asked, vec!["/notes", "/notes/work", "/notes/work/old", "/notes/empty"]);
}

#[test]
fn scanned_tree_holds_every_entry_in_its_directory() {
    let (tree, _) = run("/notes");
    let tree = tree.expect("the scan succeeds");
    assert_eq!(tree.path(), "/notes");
    assert_eq!(tree.display_name(), "notes");
    let mut entries = Vec::new();
    flatten(&tree, 0, &mut entries);
    assert_eq!(
        entries,
        vec![
            (0, String::from("/notes/a.md"), false),
            (0, String::from("/notes/b.md"), false),
            (0, String::from("/notes/work"), true),
            (1, String::from("/notes/work/todo.md"), false),
            (1, String::from("/notes/work/old"), true),
            (2, String::from("/notes/work/old/2019.md"), false),
            (0, String::from("/notes/empty"), true),
        ]
    );
}

#[test]
fn scanned_directories_are_expanded_and_named_after_their_paths() {
    let (tree, _) = run("/notes");
    let tree = tree.expect("the scan succeeds");
    let work = &tree.directories()[0];
    assert!(work.is_expanded());
    assert_eq!(work.display_name(), "work");
    assert_eq!(work.files()[0].display_name(), "todo.md");
    assert!(work.directories()[0].is_expanded());
    assert_eq!(work.directories()[0].display_name(), "old");
}

#[test]
fn failed_listing_of_the_root_fails_the_scan() {
    let (tree, asked) = run("/missing");
    assert!(matches!(tree, Err(IoErrorKind::NotFound)));
    assert_eq!(asked, vec!["/missing"]);
}

#[test]
fn failed_listing_below_the_root_fails_the_scan() {
    let (tree, asked) = run("/locked");
    assert!(matches!(tree, Err(IoErrorKind::PermissionDenied)));
    assert_eq!(asked, vec!["/locked", "/locked/secret"]);
}
