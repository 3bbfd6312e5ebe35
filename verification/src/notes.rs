//! The workspace of notes: the directory tree with the operations that
//! address it by path, and the state machine that takes the user's intents
//! and the ends of filesystem operations.
//!
//! The workspace does no filesystem work itself. It answers each message with
//! a command for its host, and the host reports back with another message.
//! The tree changes only when the host reports that an operation succeeded.

use vstd::prelude::*;

use crate::note_editor::NoteEditor;
use crate::note_editor::NoteEditorView;
use crate::path::final_segment;
use crate::path::is_name;
use crate::path::join;
use crate::path::joined;
use crate::path::last_segment;
use crate::path::lemma_final_segment_of_joined;
use crate::util::IoErrorKind;
use crate::util::Query;

verus! {

/// A note file inside a directory.
#[derive(Clone, Debug)]
pub struct File {
    display_name: String,
    path: String,
}

/// A directory of notes: its files, its subdirectories, and whether it is
/// shown expanded.
#[derive(Debug)]
pub struct Directory {
    display_name: String,
    path: String,
    expanded: bool,
    files: Vec<File>,
    directories: Vec<Directory>,
}

/// What a [`File`] is, as plain values.
pub struct FileView {
    pub display_name: Seq<char>,
    pub path: Seq<char>,
}

/// What a [`Directory`] is, as plain values.
pub struct DirectoryView {
    pub display_name: Seq<char>,
    pub path: Seq<char>,
    pub expanded: bool,
    pub files: Seq<FileView>,
    pub directories: Seq<DirectoryView>,
}

impl View for File {
    type V = FileView;

    closed spec fn view(&self) -> FileView {
        FileView { display_name: self.display_name@, path: self.path@ }
    }
}

impl File {
    /// The file at `path`, named after the path's final segment.
    pub fn new(path: String) -> (file: File)
        ensures
            file@.path == path@,
            file@.display_name == final_segment(path@),
            file@.well_formed(),
    {
        let display_name = last_segment(path.as_str());
        File { display_name, path }
    }

    /// The file called `name` inside the directory at `parent`.
    pub fn in_directory(parent: &String, name: String) -> (file: File)
        ensures
            file@ == (FileView { display_name: name@, path: joined(parent@, name@) }),
            is_name(name@) ==> file@.well_formed(),
    {
        proof {
            if is_name(name@) {
                lemma_final_segment_of_joined(parent@, name@);
            }
        }
        let path = join(parent.as_str(), name.as_str());
        File { display_name: name, path }
    }

    pub fn display_name(&self) -> (name: &String)
        ensures
            name@ == self@.display_name,
    {
        &self.display_name
    }

    pub fn path(&self) -> (path: &String)
        ensures
            path@ == self@.path,
    {
        &self.path
    }
}

impl FileView {
    /// The display name is the final segment of the path.
    pub open spec fn well_formed(self) -> bool {
        self.display_name == final_segment(self.path)
    }
}

/// Holds of the files whose path is not `path`.
pub open spec fn file_elsewhere(path: Seq<char>) -> spec_fn(FileView) -> bool {
    |file: FileView| file.path != path
}

/// Holds of the directories whose path is not `path`.
pub open spec fn directory_elsewhere(path: Seq<char>) -> spec_fn(DirectoryView) -> bool {
    |directory: DirectoryView| directory.path != path
}

impl DirectoryView {
    /// An expanded directory at `path` with nothing in it.
    pub open spec fn empty(path: Seq<char>) -> DirectoryView {
        DirectoryView {
            display_name: final_segment(path),
            path,
            expanded: true,
            files: Seq::empty(),
            directories: Seq::empty(),
        }
    }

    /// Whether a file or a subdirectory directly inside has the path `path`.
    pub open spec fn has_child(self, path: Seq<char>) -> bool {
        ||| exists|i: int| 0 <= i < self.files.len() && (#[trigger] self.files[i]).path == path
        ||| exists|i: int|
            0 <= i < self.directories.len() && (#[trigger] self.directories[i]).path == path
    }

    /// The directory with `file` added as its last file, unless something
    /// directly inside already has the file's path.
    pub open spec fn with_file(self, file: FileView) -> DirectoryView {
        if self.has_child(file.path) {
            self
        } else {
            DirectoryView { files: self.files.push(file), ..self }
        }
    }

    /// The directory with `child` added as its last subdirectory, unless
    /// something directly inside already has the child's path.
    pub open spec fn with_directory(self, child: DirectoryView) -> DirectoryView {
        if self.has_child(child.path) {
            self
        } else {
            DirectoryView { directories: self.directories.push(child), ..self }
        }
    }

    /// Whether a directory below this one, at any depth, has the path `path`.
    pub open spec fn has_directory(self, path: Seq<char>) -> bool
        decreases self,
    {
        exists|i: int|
            0 <= i < self.directories.len() && ((#[trigger] self.directories[i]).path == path
                || self.directories[i].has_directory(path))
    }

    /// Whether a file or a directory below this one, at any depth, has the
    /// path `path`.
    pub open spec fn has_entry(self, path: Seq<char>) -> bool
        decreases self,
    {
        ||| exists|i: int| 0 <= i < self.files.len() && (#[trigger] self.files[i]).path == path
        ||| exists|i: int|
            0 <= i < self.directories.len() && ((#[trigger] self.directories[i]).path == path
                || self.directories[i].has_entry(path))
    }

    /// Whether every directory at `path`, this one included, has its
    /// `expanded` flag at `open`. True when no directory is at `path`.
    pub open spec fn all_expanded_as(self, path: Seq<char>, open: bool) -> bool
        decreases self,
    {
        &&& self.path == path ==> self.expanded == open
        &&& forall|i: int|
            0 <= i < self.directories.len() ==> (#[trigger] self.directories[i]).all_expanded_as(
                path,
                open,
            )
    }

    /// No two entries directly inside share a path.
    pub open spec fn distinct_children(self) -> bool {
        &&& forall|i: int, j: int|
            0 <= i < j < self.files.len() ==> (#[trigger] self.files[i]).path != (
            #[trigger] self.files[j]).path
        &&& forall|i: int, j: int|
            0 <= i < j < self.directories.len() ==> (#[trigger] self.directories[i]).path != (
            #[trigger] self.directories[j]).path
        &&& forall|i: int, j: int|
            0 <= i < self.files.len() && 0 <= j < self.directories.len() ==> (
            #[trigger] self.files[i]).path != (#[trigger] self.directories[j]).path
    }

    /// Throughout the tree, display names are the final segments of paths and
    /// no two entries of one directory share a path.
    pub open spec fn well_formed(self) -> bool
        decreases self,
    {
        &&& self.display_name == final_segment(self.path)
        &&& forall|i: int| 0 <= i < self.files.len() ==> (#[trigger] self.files[i]).well_formed()
        &&& self.distinct_children()
        &&& forall|i: int|
            0 <= i < self.directories.len() ==> (#[trigger] self.directories[i]).well_formed()
    }

    /// The tree without the files and subdirectories at `path`, at any depth.
    /// A subdirectory leaves with everything below it. The root stays.
    pub open spec fn without(self, path: Seq<char>) -> DirectoryView
        decreases self, 1int,
    {
        DirectoryView {
            files: self.files.filter(file_elsewhere(path)),
            directories: self.without_below(path).filter(directory_elsewhere(path)),
            ..self
        }
    }

    /// The subdirectories, each without the files and subdirectories at
    /// `path` below it.
    pub open spec fn without_below(self, path: Seq<char>) -> Seq<DirectoryView>
        decreases self, 0int,
    {
        Seq::new(
            self.directories.len(),
            |i: int|
                if 0 <= i < self.directories.len() {
                    self.directories[i].without(path)
                } else {
                    arbitrary()
                },
        )
    }

    /// The tree with the `expanded` flag of every directory at `path` set to
    /// `open`, and nothing else changed.
    pub open spec fn with_expanded(self, path: Seq<char>, open: bool) -> DirectoryView
        decreases self,
    {
        DirectoryView {
            expanded: if self.path == path {
                open
            } else {
                self.expanded
            },
            directories: Seq::new(
                self.directories.len(),
                |i: int|
                    if 0 <= i < self.directories.len() {
                        self.directories[i].with_expanded(path, open)
                    } else {
                        arbitrary()
                    },
            ),
            ..self
        }
    }
}

/// One line of the list that shows the tree: a directory or a file, and how
/// deep below the root it lies.
#[derive(Debug)]
pub struct Row {
    pub depth: usize,
    pub display_name: String,
    pub path: String,
    pub kind: RowKind,
}

/// What a line of the list shows.
#[derive(Clone, Copy, Debug, PartialEq, Eq, Structural)]
pub enum RowKind {
    /// A directory, shown expanded or collapsed.
    Directory { expanded: bool },
    /// A file, which is the open note or is not.
    File { open: bool },
}

/// What a [`Row`] is, as plain values.
pub struct RowView {
    pub depth: usize,
    pub display_name: Seq<char>,
    pub path: Seq<char>,
    pub kind: RowKind,
}

impl View for Row {
    type V = RowView;

    open spec fn view(&self) -> RowView {
        RowView {
            depth: self.depth,
            display_name: self.display_name@,
            path: self.path@,
            kind: self.kind,
        }
    }
}

/// The views of rows.
pub open spec fn row_views(rows: Seq<Row>) -> Seq<RowView> {
    Seq::new(rows.len(), |i: int| rows[i]@)
}

/// The depth one below `depth`.
pub open spec fn deeper(depth: usize) -> usize {
    if depth < usize::MAX {
        (depth + 1) as usize
    } else {
        depth
    }
}

impl DirectoryView {
    /// The line that shows this directory at `depth`.
    pub open spec fn row(self, depth: usize) -> RowView {
        RowView {
            depth,
            display_name: self.display_name,
            path: self.path,
            kind: RowKind::Directory { expanded: self.expanded },
        }
    }

    /// The lines that show what is inside this directory, for a list that
    /// starts at `depth`: each subdirectory, followed by what is inside it
    /// if it is expanded, and then the files. The file at `open` is marked
    /// as the open note.
    pub open spec fn rows(self, depth: usize, open: Option<Seq<char>>) -> Seq<RowView>
        decreases self, self.directories.len() + 1,
    {
        self.directory_rows(self.directories.len(), depth, open) + Seq::new(
            self.files.len(),
            |i: int| self.files[i].row(depth, open),
        )
    }

    /// The lines that show the first `count` subdirectories.
    pub open spec fn directory_rows(
        self,
        count: nat,
        depth: usize,
        open: Option<Seq<char>>,
    ) -> Seq<RowView>
        decreases self, count,
    {
        if count == 0 || count > self.directories.len() {
            Seq::empty()
        } else {
            let child = self.directories[count - 1];
            self.directory_rows((count - 1) as nat, depth, open) + seq![child.row(depth)] + (
            if child.expanded {
                child.rows(deeper(depth), open)
            } else {
                Seq::empty()
            })
        }
    }
}

impl FileView {
    /// The line that shows this file at `depth`.
    pub open spec fn row(self, depth: usize, open: Option<Seq<char>>) -> RowView {
        RowView {
            depth,
            display_name: self.display_name,
            path: self.path,
            kind: RowKind::File { open: open == Some(self.path) },
        }
    }
}

impl Directory {
    /// The tree below this directory, as plain values.
    pub closed spec fn model(&self) -> DirectoryView
        decreases self,
    {
        DirectoryView {
            display_name: self.display_name@,
            path: self.path@,
            expanded: self.expanded,
            files: Seq::new(self.files.len() as nat, |i: int| self.files[i]@),
            directories: Seq::new(
                self.directories.len() as nat,
                |i: int|
                    if 0 <= i < self.directories.len() {
                        self.directories[i].model()
                    } else {
                        arbitrary()
                    },
            ),
        }
    }
}

impl View for Directory {
    type V = DirectoryView;

    open spec fn view(&self) -> DirectoryView {
        self.model()
    }
}

impl Clone for Directory {
    /// A copy of the whole tree below this directory.
    fn clone(&self) -> (copy: Directory)
        ensures
            copy@ == self@,
        decreases self@,
    {
        let mut files: Vec<File> = Vec::new();
        let mut i: usize = 0;
        while i < self.files.len()
            invariant
                i <= self.files.len(),
                files@.len() == i,
                forall|j: int| 0 <= j < i ==> (#[trigger] files@[j])@ == self@.files[j],
            decreases self.files.len() - i,
        {
            files.push(
                File {
                    display_name: self.files[i].display_name.clone(),
                    path: self.files[i].path.clone(),
                },
            );
            i += 1;
        }
        let mut directories: Vec<Directory> = Vec::new();
        let mut k: usize = 0;
        while k < self.directories.len()
            invariant
                k <= self.directories.len(),
                directories@.len() == k,
                forall|j: int| 0 <= j < k ==> (#[trigger] directories@[j])@ == self@.directories[j],
            decreases self.directories.len() - k,
        {
            assert(self@.directories[k as int] == self.directories[k as int]@);
            directories.push(self.directories[k].clone());
            k += 1;
        }
        let copy = Directory {
            display_name: self.display_name.clone(),
            path: self.path.clone(),
            expanded: self.expanded,
            files,
            directories,
        };
        assert(copy@.files =~= self@.files);
        assert(copy@.directories =~= self@.directories);
        copy
    }
}

impl Directory {
    /// An expanded directory at `path` with nothing in it, named after the
    /// path's final segment.
    pub fn new(path: String) -> (directory: Directory)
        ensures
            directory@ == DirectoryView::empty(path@),
            directory@.well_formed(),
    {
        let display_name = last_segment(path.as_str());
        let directory = Directory {
            display_name,
            path,
            expanded: true,
            files: Vec::new(),
            directories: Vec::new(),
        };
        assert(directory@.files =~= Seq::empty());
        assert(directory@.directories =~= Seq::empty());
        directory
    }

    /// An expanded directory at `path` that holds `files` and no
    /// subdirectory yet.
    pub(crate) fn listed(path: String, files: Vec<File>) -> (directory: Directory)
        ensures
            directory@ == (DirectoryView {
                files: directory@.files,
                ..DirectoryView::empty(path@)
            }),
            directory@.files.len() == files@.len(),
            forall|i: int| 0 <= i < files@.len() ==> directory@.files[i] == (#[trigger] files@[i])@,
    {
        let display_name = last_segment(path.as_str());
        let directory = Directory {
            display_name,
            path,
            expanded: true,
            files,
            directories: Vec::new(),
        };
        assert(directory@.directories =~= Seq::empty());
        directory
    }

    /// Adds `child` as the last subdirectory.
    pub(crate) fn adopt(&mut self, child: Directory)
        ensures
            final(self)@ == (DirectoryView {
                directories: old(self)@.directories.push(child@),
                ..old(self)@
            }),
    {
        let ghost adopted = child@;
        self.directories.push(child);
        assert(self@.files =~= old(self)@.files);
        assert(self@.directories =~= old(self)@.directories.push(adopted));
    }

    pub fn display_name(&self) -> (name: &String)
        ensures
            name@ == self@.display_name,
    {
        &self.display_name
    }

    pub fn path(&self) -> (path: &String)
        ensures
            path@ == self@.path,
    {
        &self.path
    }

    pub fn is_expanded(&self) -> (expanded: bool)
        ensures
            expanded == self@.expanded,
    {
        self.expanded
    }

    /// The files directly inside, in order.
    pub fn files(&self) -> (files: &Vec<File>)
        ensures
            files@.len() == self@.files.len(),
            forall|i: int| 0 <= i < files@.len() ==> (#[trigger] files@[i])@ == self@.files[i],
    {
        &self.files
    }

    /// The subdirectories directly inside, in order.
    pub fn directories(&self) -> (directories: &Vec<Directory>)
        ensures
            directories@.len() == self@.directories.len(),
            forall|i: int|
                0 <= i < directories@.len() ==> (#[trigger] directories@[i])@
                    == self@.directories[i],
    {
        &self.directories
    }

    /// Whether a file or a subdirectory directly inside has the path `path`.
    pub fn has_child(&self, path: &String) -> (found: bool)
        ensures
            found == self@.has_child(path@),
    {
        let mut i: usize = 0;
        while i < self.files.len()
            invariant
                i <= self.files.len(),
                forall|j: int| 0 <= j < i ==> (#[trigger] self@.files[j]).path != path@,
            decreases self.files.len() - i,
        {
            if self.files[i].path == *path {
                assert(self@.files[i as int].path == path@);
                return true;
            }
            i += 1;
        }
        let mut k: usize = 0;
        while k < self.directories.len()
            invariant
                k <= self.directories.len(),
                forall|j: int| 0 <= j < self@.files.len() ==> (#[trigger] self@.files[j]).path != path@,
                forall|j: int| 0 <= j < k ==> (#[trigger] self@.directories[j]).path != path@,
            decreases self.directories.len() - k,
        {
            assert(self.directories[k as int]@.path == self.directories[k as int].path@);
            if self.directories[k].path == *path {
                assert(self@.directories[k as int].path == path@);
                return true;
            }
            k += 1;
        }
        false
    }

    /// Adds `file` as the last file, unless something directly inside already
    /// has its path. Says whether the file was added.
    pub fn push_file(&mut self, file: File) -> (added: bool)
        ensures
            added == !old(self)@.has_child(file@.path),
            final(self)@ == old(self)@.with_file(file@),
            old(self)@.well_formed() && file@.well_formed() ==> final(self)@.well_formed(),
    {
        proof {
            if self@.well_formed() && file@.well_formed() {
                lemma_with_file_well_formed(self@, file@);
            }
        }
        if self.has_child(&file.path) {
            false
        } else {
            self.files.push(file);
            assert(self@.files =~= old(self)@.files.push(file@));
            assert(self@.directories =~= old(self)@.directories);
            true
        }
    }

    /// Adds `child` as the last subdirectory, unless something directly inside
    /// already has its path. Says whether the subdirectory was added.
    pub fn push_directory(&mut self, child: Directory) -> (added: bool)
        ensures
            added == !old(self)@.has_child(child@.path),
            final(self)@ == old(self)@.with_directory(child@),
            old(self)@.well_formed() && child@.well_formed() ==> final(self)@.well_formed(),
    {
        proof {
            if self@.well_formed() && child@.well_formed() {
                lemma_with_directory_well_formed(self@, child@);
            }
        }
        if self.has_child(&child.path) {
            false
        } else {
            let ghost pushed = child@;
            self.directories.push(child);
            assert(self@.files =~= old(self)@.files);
            assert(self@.directories =~= old(self)@.directories.push(pushed));
            true
        }
    }

    /// Whether a directory below this one, at any depth, has the path `path`.
    pub fn has_directory(&self, path: &String) -> (found: bool)
        ensures
            found == self@.has_directory(path@),
        decreases self@,
    {
        let mut i: usize = 0;
        while i < self.directories.len()
            invariant
                i <= self.directories.len(),
                forall|j: int|
                    0 <= j < i ==> (#[trigger] self@.directories[j]).path != path@
                        && !self@.directories[j].has_directory(path@),
            decreases self.directories.len() - i,
        {
            assert(self.directories[i as int]@.path == self.directories[i as int].path@);
            assert(self@.directories[i as int] == self.directories[i as int]@);
            if self.directories[i].path == *path || self.directories[i].has_directory(path) {
                return true;
            }
            i += 1;
        }
        false
    }

    /// The lines that show what is inside this directory: each
    /// subdirectory, followed by what is inside it if it is expanded, and
    /// then the files. `open` is the path of the open note, if one is open.
    pub fn rows(&self, open: Option<&String>) -> (rows: Vec<Row>)
        ensures
            row_views(rows@) == self@.rows(
                0,
                match open {
                    Some(path) => Some(path@),
                    None => None,
                },
            ),
    {
        let mut rows: Vec<Row> = Vec::new();
        self.push_rows(0, open, &mut rows);
        assert(row_views(rows@) =~= Seq::<RowView>::empty() + self@.rows(
            0,
            match open {
                Some(path) => Some(path@),
                None => None,
            },
        ));
        rows
    }

    fn push_rows(&self, depth: usize, open: Option<&String>, rows: &mut Vec<Row>)
        ensures
            row_views(final(rows)@) == row_views(old(rows)@) + self@.rows(
                depth,
                match open {
                    Some(path) => Some(path@),
                    None => None,
                },
            ),
        decreases self@,
    {
        let ghost open_path = match open {
            Some(path) => Some(path@),
            None => None,
        };
        let ghost before = row_views(rows@);
        let mut i: usize = 0;
        assert(row_views(rows@) =~= before + self@.directory_rows(0, depth, open_path));
        while i < self.directories.len()
            invariant
                i <= self.directories.len(),
                open_path == (match open {
                    Some(path) => Some(path@),
                    None => None,
                }),
                row_views(rows@) == before + self@.directory_rows(i as nat, depth, open_path),
            decreases self.directories.len() - i,
        {
            let child = &self.directories[i];
            let ghost shown = row_views(rows@);
            assert(self@.directories[i as int] == child@);
            assert(child@.path == child.path@ && child@.display_name == child.display_name@
                && child@.expanded == child.expanded);
            rows.push(
                Row {
                    depth,
                    display_name: child.display_name.clone(),
                    path: child.path.clone(),
                    kind: RowKind::Directory { expanded: child.expanded },
                },
            );
            assert(row_views(rows@) =~= shown + seq![child@.row(depth)]);
            if child.expanded {
                let below = if depth < usize::MAX {
                    depth + 1
                } else {
                    depth
                };
                child.push_rows(below, open, rows);
            }
            assert(row_views(rows@) =~= before + self@.directory_rows((i + 1) as nat, depth, open_path));
            i += 1;
        }
        let ghost listed = row_views(rows@);
        let mut k: usize = 0;
        while k < self.files.len()
            invariant
                k <= self.files.len(),
                open_path == (match open {
                    Some(path) => Some(path@),
                    None => None,
                }),
                listed == before + self@.directory_rows(
                    self.directories.len() as nat,
                    depth,
                    open_path,
                ),
                row_views(rows@).len() == listed.len() + k,
                forall|j: int| 0 <= j < listed.len() ==> row_views(rows@)[j] == listed[j],
                forall|j: int|
                    0 <= j < k ==> row_views(rows@)[listed.len() + j] == self@.files[j].row(
                        depth,
                        open_path,
                    ),
            decreases self.files.len() - k,
        {
            let file = &self.files[k];
            let is_open = match open {
                Some(path) => *path == file.path,
                None => false,
            };
            rows.push(
                Row {
                    depth,
                    display_name: file.display_name.clone(),
                    path: file.path.clone(),
                    kind: RowKind::File { open: is_open },
                },
            );
            k += 1;
        }
        proof {
            let files = Seq::new(self@.files.len(), |i: int| self@.files[i].row(depth, open_path));
            assert(self@.rows(depth, open_path) == self@.directory_rows(
                self@.directories.len(),
                depth,
                open_path,
            ) + files);
            assert(row_views(rows@) =~= listed + files);
            assert(listed + files =~= before + self@.rows(depth, open_path));
        }
    }

    /// Removes the files and subdirectories at `path`, at any depth. A
    /// subdirectory leaves with everything below it. A path that names nothing
    /// below this directory changes nothing.
    pub fn remove(&mut self, path: &String)
        ensures
            final(self)@ == old(self)@.without(path@),
            old(self)@.well_formed() ==> final(self)@.well_formed(),
        decreases old(self)@,
    {
        let ghost before = self@;
        proof {
            if before.well_formed() {
                lemma_without_well_formed(before, path@);
            }
        }
        let ghost keep_file = file_elsewhere(path@);
        let ghost keep_directory = directory_elsewhere(path@);
        let ghost mut seen: int = 0;
        let mut i: usize = 0;
        proof {
            reveal(Seq::filter);
            assert(before.files.take(0).filter(keep_file) =~= Seq::empty());
        }
        while i < self.files.len()
            invariant
                before == old(self)@,
                keep_file == file_elsewhere(path@),
                0 <= seen <= before.files.len(),
                i <= self.files.len(),
                self.files.len() - i == before.files.len() - seen,
                self.display_name@ == before.display_name,
                self.path@ == before.path,
                self.expanded == before.expanded,
                self@.directories == before.directories,
                before.files.take(seen).filter(keep_file).len() == i,
                forall|j: int|
                    0 <= j < i ==> (#[trigger] self.files[j])@ == before.files.take(seen).filter(
                        keep_file,
                    )[j],
                forall|j: int|
                    i <= j < self.files.len() ==> (#[trigger] self.files[j])@ == before.files[j - i
                        + seen],
            decreases self.files.len() - i,
        {
            proof {
                reveal(Seq::filter);
                assert(before.files.take(seen + 1).drop_last() =~= before.files.take(seen));
                assert(before.files.take(seen + 1).last() == before.files[seen]);
            }
            if self.files[i].path == *path {
                self.files.remove(i);
            } else {
                i += 1;
            }
            proof {
                seen = seen + 1;
            }
        }
        assert(before.files.take(seen) =~= before.files);
        assert(self@.files =~= before.without(path@).files);
        let ghost children = before.without_below(path@);
        let ghost mut done: int = 0;
        let mut k: usize = 0;
        proof {
            assert(children.take(0).filter(keep_directory) =~= Seq::empty());
        }
        while k < self.directories.len()
            invariant
                before == old(self)@,
                children == before.without_below(path@),
                keep_directory == directory_elsewhere(path@),
                0 <= done <= before.directories.len(),
                k <= self.directories.len(),
                self.directories.len() - k == before.directories.len() - done,
                self.display_name@ == before.display_name,
                self.path@ == before.path,
                self.expanded == before.expanded,
                self@.files == before.without(path@).files,
                children.take(done).filter(keep_directory).len() == k,
                forall|j: int|
                    0 <= j < k ==> (#[trigger] self.directories[j])@ == children.take(done).filter(
                        keep_directory,
                    )[j],
                forall|j: int|
                    k <= j < self.directories.len() ==> (#[trigger] self.directories[j])@
                        == before.directories[j - k + done],
            decreases self.directories.len() - k,
        {
            proof {
                reveal(Seq::filter);
                assert(children.take(done + 1).drop_last() =~= children.take(done));
                assert(children.take(done + 1).last() == children[done]);
                assert(children[done].path == before.directories[done].path);
                assert(self.directories[k as int]@.path == self.directories[k as int].path@);
            }
            if self.directories[k].path == *path {
                self.directories.remove(k);
            } else {
                self.directories[k].remove(path);
                k += 1;
            }
            proof {
                done = done + 1;
            }
        }
        assert(children.take(done) =~= children);
        assert(self@.directories =~= before.without(path@).directories);
    }
}

/// Sets the `expanded` flag of every directory in the tree whose path is
/// `path`. A path that names no directory changes nothing.
pub fn expand(directory: &mut Directory, path: &String, open: bool)
    ensures
        final(directory)@ == old(directory)@.with_expanded(path@, open),
        old(directory)@.well_formed() ==> final(directory)@.well_formed(),
    decreases old(directory)@,
{
    let ghost before = directory@;
    proof {
        if before.well_formed() {
            lemma_with_expanded_well_formed(before, path@, open);
        }
    }
    if directory.path == *path {
        directory.expanded = open;
    }
    let n = directory.directories.len();
    let mut i: usize = 0;
    while i < n
        invariant
            i <= n,
            n == directory.directories.len(),
            before == old(directory)@,
            before.directories.len() == n,
            directory.display_name@ == before.display_name,
            directory.path@ == before.path,
            directory.expanded == before.with_expanded(path@, open).expanded,
            directory@.files == before.files,
            forall|j: int|
                0 <= j < i ==> (#[trigger] directory.directories[j])@
                    == before.directories[j].with_expanded(path@, open),
            forall|j: int|
                i <= j < n ==> (#[trigger] directory.directories[j])@ == before.directories[j],
        decreases n - i,
    {
        expand(&mut directory.directories[i], path, open);
        i += 1;
    }
    assert(directory@.directories =~= before.with_expanded(path@, open).directories);
}

proof fn lemma_collapsed_directory_rows(
    tree: DirectoryView,
    count: nat,
    depth: usize,
    open: Option<Seq<char>>,
)
    requires
        count <= tree.directories.len(),
        forall|i: int| 0 <= i < tree.directories.len() ==> !(#[trigger] tree.directories[i]).expanded,
    ensures
        tree.directory_rows(count, depth, open).len() == count,
        forall|i: int|
            0 <= i < count ==> tree.directory_rows(count, depth, open)[i]
                == tree.directories[i].row(depth),
    decreases count,
{
    if count > 0 {
        lemma_collapsed_directory_rows(tree, (count - 1) as nat, depth, open);
    }
}

/// Where every subdirectory is collapsed, the list shows one line for each
/// entry directly inside and nothing else: the subdirectories first, then
/// the files.
pub proof fn lemma_collapsed_rows(tree: DirectoryView, depth: usize, open: Option<Seq<char>>)
    requires
        forall|i: int| 0 <= i < tree.directories.len() ==> !(#[trigger] tree.directories[i]).expanded,
    ensures
        tree.rows(depth, open).len() == tree.directories.len() + tree.files.len(),
        forall|i: int|
            0 <= i < tree.directories.len() ==> tree.rows(depth, open)[i]
                == tree.directories[i].row(depth),
        forall|i: int|
            0 <= i < tree.files.len() ==> tree.rows(depth, open)[tree.directories.len() + i]
                == tree.files[i].row(depth, open),
{
    lemma_collapsed_directory_rows(tree, tree.directories.len(), depth, open);
}

/// Setting the flag to what it is at every directory at `path` changes
/// nothing.
pub proof fn lemma_expand_settled(tree: DirectoryView, path: Seq<char>, open: bool)
    requires
        tree.all_expanded_as(path, open),
    ensures
        tree.with_expanded(path, open) == tree,
    decreases tree,
{
    let after = tree.with_expanded(path, open);
    assert forall|i: int| 0 <= i < tree.directories.len() implies after.directories[i]
        == tree.directories[i] by {
        lemma_expand_settled(tree.directories[i], path, open);
    }
    assert(after.directories =~= tree.directories);
}

/// Toggling a path that names no directory of the tree changes nothing.
pub proof fn lemma_expand_absent(tree: DirectoryView, path: Seq<char>, open: bool)
    requires
        tree.path != path,
        !tree.has_directory(path),
    ensures
        tree.with_expanded(path, open) == tree,
    decreases tree,
{
    let after = tree.with_expanded(path, open);
    assert forall|i: int| 0 <= i < tree.directories.len() implies after.directories[i]
        == tree.directories[i] by {
        lemma_expand_absent(tree.directories[i], path, open);
    }
    assert(after.directories =~= tree.directories);
}

/// After the flag is set, every directory at `path` has it.
pub proof fn lemma_expand_sets(tree: DirectoryView, path: Seq<char>, open: bool)
    ensures
        tree.with_expanded(path, open).all_expanded_as(path, open),
    decreases tree,
{
    let after = tree.with_expanded(path, open);
    assert forall|i: int| 0 <= i < after.directories.len() implies (
    #[trigger] after.directories[i]).all_expanded_as(path, open) by {
        lemma_expand_sets(tree.directories[i], path, open);
    }
}

/// Of two settings of the flag at one path, the second one stands.
pub proof fn lemma_expand_last_wins(tree: DirectoryView, path: Seq<char>, first: bool, second: bool)
    ensures
        tree.with_expanded(path, first).with_expanded(path, second) == tree.with_expanded(
            path,
            second,
        ),
    decreases tree,
{
    let twice = tree.with_expanded(path, first).with_expanded(path, second);
    let once = tree.with_expanded(path, second);
    assert forall|i: int| 0 <= i < tree.directories.len() implies twice.directories[i]
        == once.directories[i] by {
        lemma_expand_last_wins(tree.directories[i], path, first, second);
    }
    assert(twice.directories =~= once.directories);
}

/// Expanding the directories at a path and collapsing them again gives back
/// the tree, where they were collapsed to begin with.
pub proof fn lemma_expand_then_collapse(tree: DirectoryView, path: Seq<char>)
    requires
        tree.all_expanded_as(path, false),
    ensures
        tree.with_expanded(path, true).with_expanded(path, false) == tree,
{
    lemma_expand_last_wins(tree, path, true, false);
    lemma_expand_settled(tree, path, false);
}

/// Setting the flag at one path leaves the flags at every other path as they
/// were.
pub proof fn lemma_expand_leaves_others(
    tree: DirectoryView,
    path: Seq<char>,
    open: bool,
    other: Seq<char>,
    value: bool,
)
    requires
        other != path,
    ensures
        tree.with_expanded(path, open).all_expanded_as(other, value) == tree.all_expanded_as(
            other,
            value,
        ),
    decreases tree,
{
    let after = tree.with_expanded(path, open);
    assert forall|i: int| 0 <= i < tree.directories.len() implies (
    #[trigger] after.directories[i]).all_expanded_as(other, value)
        == tree.directories[i].all_expanded_as(other, value) by {
        lemma_expand_leaves_others(tree.directories[i], path, open, other, value);
    }
    if tree.all_expanded_as(other, value) {
        assert forall|i: int| 0 <= i < after.directories.len() implies (
        #[trigger] after.directories[i]).all_expanded_as(other, value) by {
            assert(tree.directories[i].all_expanded_as(other, value));
        }
    }
    if after.all_expanded_as(other, value) {
        assert forall|i: int| 0 <= i < tree.directories.len() implies (
        #[trigger] tree.directories[i]).all_expanded_as(other, value) by {
            assert(after.directories[i].all_expanded_as(other, value));
        }
    }
}

/// A filter that every item passes keeps the sequence as it is.
proof fn lemma_filter_keeps_all<A>(items: Seq<A>, keep: spec_fn(A) -> bool)
    requires
        forall|i: int| 0 <= i < items.len() ==> keep(#[trigger] items[i]),
    ensures
        items.filter(keep) == items,
    decreases items.len(),
{
    reveal(Seq::filter);
    if items.len() > 0 {
        lemma_filter_keeps_all(items.drop_last(), keep);
        assert(items.drop_last().push(items.last()) =~= items);
    }
}

/// Removing a path that names nothing below the root changes nothing.
pub proof fn lemma_remove_absent(tree: DirectoryView, path: Seq<char>)
    requires
        !tree.has_entry(path),
    ensures
        tree.without(path) == tree,
    decreases tree,
{
    let below = tree.without_below(path);
    assert forall|i: int| 0 <= i < tree.directories.len() implies below[i]
        == tree.directories[i] by {
        lemma_remove_absent(tree.directories[i], path);
    }
    assert(below =~= tree.directories);
    lemma_filter_keeps_all(tree.files, file_elsewhere(path));
    lemma_filter_keeps_all(below, directory_elsewhere(path));
}

/// After a removal nothing below the root has the removed path.
pub proof fn lemma_remove_clears(tree: DirectoryView, path: Seq<char>)
    ensures
        !tree.without(path).has_entry(path),
    decreases tree,
{
    let after = tree.without(path);
    let below = tree.without_below(path);
    broadcast use Seq::lemma_filter_pred;
    assert forall|i: int| 0 <= i < after.files.len() implies (#[trigger] after.files[i]).path
        != path by {
        assert(file_elsewhere(path)(after.files[i]));
    }
    assert forall|i: int| 0 <= i < after.directories.len() implies (
    #[trigger] after.directories[i]).path != path && !after.directories[i].has_entry(path) by {
        assert(directory_elsewhere(path)(after.directories[i]));
        assert(after.directories.contains(after.directories[i]));
        below.lemma_filter_contains_rev(directory_elsewhere(path), after.directories[i]);
        let at = choose|at: int| 0 <= at < below.len() && below[at] == after.directories[i];
        lemma_remove_clears(tree.directories[at], path);
    }
}

/// Expanding or collapsing changes no path and no name, so a well-formed
/// tree stays well formed.
pub proof fn lemma_with_expanded_well_formed(tree: DirectoryView, path: Seq<char>, open: bool)
    requires
        tree.well_formed(),
    ensures
        tree.with_expanded(path, open).well_formed(),
    decreases tree,
{
    let after = tree.with_expanded(path, open);
    assert forall|i: int| 0 <= i < after.directories.len() implies (
    #[trigger] after.directories[i]).well_formed() && after.directories[i].path
        == tree.directories[i].path by {
        lemma_with_expanded_well_formed(tree.directories[i], path, open);
    }
}

/// What a filter keeps are items of the sequence, and if no two items of the
/// sequence share a key, no two kept items do.
proof fn lemma_filter_keeps_distinct<A>(
    items: Seq<A>,
    keep: spec_fn(A) -> bool,
    key: spec_fn(A) -> Seq<char>,
)
    requires
        forall|i: int, j: int| 0 <= i < j < items.len() ==> key(items[i]) != key(items[j]),
    ensures
        forall|i: int|
            0 <= i < items.filter(keep).len() ==> items.contains(#[trigger] items.filter(keep)[i]),
        forall|i: int, j: int|
            0 <= i < j < items.filter(keep).len() ==> key(items.filter(keep)[i]) != key(
                items.filter(keep)[j],
            ),
    decreases items.len(),
{
    reveal(Seq::filter);
    if items.len() > 0 {
        let front = items.drop_last();
        lemma_filter_keeps_distinct(front, keep, key);
        let kept = items.filter(keep);
        assert forall|i: int| 0 <= i < kept.len() implies items.contains(#[trigger] kept[i]) by {
            if i < front.filter(keep).len() {
                let at = choose|at: int| 0 <= at < front.len() && front[at] == front.filter(keep)[i];
                assert(items[at] == kept[i]);
            } else {
                assert(items[items.len() - 1] == kept[i]);
            }
        }
        assert forall|i: int, j: int| 0 <= i < j < kept.len() implies key(kept[i]) != key(
            kept[j],
        ) by {
            if j == front.filter(keep).len() {
                let at = choose|at: int| 0 <= at < front.len() && front[at] == front.filter(keep)[i];
                assert(key(items[at]) != key(items[items.len() - 1]));
            }
        }
    }
}

/// Removing entries keeps a well-formed tree well formed.
pub proof fn lemma_without_well_formed(tree: DirectoryView, path: Seq<char>)
    requires
        tree.well_formed(),
    ensures
        tree.without(path).well_formed(),
    decreases tree,
{
    let after = tree.without(path);
    let below = tree.without_below(path);
    let file_key = |file: FileView| file.path;
    let directory_key = |directory: DirectoryView| directory.path;
    assert forall|i: int| 0 <= i < below.len() implies (#[trigger] below[i]).well_formed()
        && below[i].path == tree.directories[i].path by {
        lemma_without_well_formed(tree.directories[i], path);
    }
    lemma_filter_keeps_distinct(tree.files, file_elsewhere(path), file_key);
    lemma_filter_keeps_distinct(below, directory_elsewhere(path), directory_key);
    assert forall|i: int| 0 <= i < after.files.len() implies (#[trigger] after.files[i]).well_formed() by {
        let at = choose|at: int| 0 <= at < tree.files.len() && tree.files[at] == after.files[i];
        assert(tree.files[at].well_formed());
    }
    assert forall|i: int| 0 <= i < after.directories.len() implies (
    #[trigger] after.directories[i]).well_formed() by {
        let at = choose|at: int| 0 <= at < below.len() && below[at] == after.directories[i];
        assert(below[at].well_formed());
    }
    assert forall|i: int, j: int|
        0 <= i < j < after.files.len() implies (#[trigger] after.files[i]).path != (
    #[trigger] after.files[j]).path by {
        assert(file_key(after.files[i]) != file_key(after.files[j]));
    }
    assert forall|i: int, j: int|
        0 <= i < j < after.directories.len() implies (#[trigger] after.directories[i]).path != (
    #[trigger] after.directories[j]).path by {
        assert(directory_key(after.directories[i]) != directory_key(after.directories[j]));
    }
    assert forall|i: int, j: int|
        0 <= i < after.files.len() && 0 <= j < after.directories.len() implies (
    #[trigger] after.files[i]).path != (#[trigger] after.directories[j]).path by {
        let at = choose|at: int| 0 <= at < tree.files.len() && tree.files[at] == after.files[i];
        let bt = choose|bt: int| 0 <= bt < below.len() && below[bt] == after.directories[j];
        assert(tree.files[at].path != tree.directories[bt].path);
    }
}

/// Adding a well-formed file keeps a well-formed directory well formed.
pub proof fn lemma_with_file_well_formed(tree: DirectoryView, file: FileView)
    requires
        tree.well_formed(),
        file.well_formed(),
    ensures
        tree.with_file(file).well_formed(),
{
    let after = tree.with_file(file);
    if !tree.has_child(file.path) {
        assert forall|i: int| 0 <= i < after.files.len() implies (#[trigger] after.files[i]).well_formed() by {
            if i < tree.files.len() {
                assert(after.files[i] == tree.files[i]);
            }
        }
    }
}

/// Adding a well-formed subdirectory keeps a well-formed directory well
/// formed.
pub proof fn lemma_with_directory_well_formed(tree: DirectoryView, child: DirectoryView)
    requires
        tree.well_formed(),
        child.well_formed(),
    ensures
        tree.with_directory(child).well_formed(),
{
    let after = tree.with_directory(child);
    if !tree.has_child(child.path) {
        assert forall|i: int| 0 <= i < after.directories.len() implies (
        #[trigger] after.directories[i]).well_formed() by {
            if i < tree.directories.len() {
                assert(after.directories[i] == tree.directories[i]);
            }
        }
    }
}

/// What the workspace hears of: the user's intents and the ends of the
/// filesystem operations that it asked for.
#[derive(Debug)]
pub enum Message {
    /// Create a new note in the root directory.
    Create,
    /// Delete the entry at a path.
    Delete(String),
    /// Open the note at a path, under a display name.
    SetCurrent(String, String),
    NoteEditorMessage(crate::note_editor::Message),
    /// The scan of the root directory has ended.
    LoadFiles(Result<Directory, IoErrorKind>),
    /// Show the directory at a path expanded, or collapsed.
    Expand(String, bool),
    /// The creation of a note has ended, with the file that now exists.
    Created(Result<File, IoErrorKind>),
    /// The deletion of the entry at a path has ended.
    Deleted(String, Result<(), IoErrorKind>),
}

/// What the workspace asks its host to do.
pub enum Command {
    Nothing,
    /// Scan the directory at the path and answer with `Message::LoadFiles`.
    LoadFiles(String),
    /// Create a fresh note in the directory at the path and answer with
    /// `Message::Created`.
    CreateNote(String),
    /// Delete the entry at `path`, a directory if `directory` says so, and
    /// answer with `Message::Deleted`.
    Remove { path: String, directory: bool },
    /// Do what the open editor asks; its answers come back inside
    /// `Message::NoteEditorMessage`.
    Editor(crate::note_editor::Command),
}

/// What a [`Command`] is, as plain values.
pub enum CommandView {
    Nothing,
    LoadFiles(Seq<char>),
    CreateNote(Seq<char>),
    Remove { path: Seq<char>, directory: bool },
    Editor(crate::note_editor::CommandView),
}

impl View for Command {
    type V = CommandView;

    open spec fn view(&self) -> CommandView {
        match *self {
            Command::Nothing => CommandView::Nothing,
            Command::LoadFiles(path) => CommandView::LoadFiles(path@),
            Command::CreateNote(path) => CommandView::CreateNote(path@),
            Command::Remove { path, directory } => CommandView::Remove { path: path@, directory },
            Command::Editor(inner) => CommandView::Editor(inner@),
        }
    }
}

/// The workspace: the tree of notes once it is scanned, the editor of the
/// note that is open, and the failure of the last creation or deletion.
pub struct Notes {
    notes: Query<Directory, IoErrorKind>,
    current: Option<NoteEditor>,
    next_ticket: u64,
    failure: Option<IoErrorKind>,
}

/// What a [`Notes`] is, as plain values.
pub struct NotesView {
    pub notes: Query<DirectoryView, IoErrorKind>,
    pub current: Option<NoteEditorView>,
    pub next_ticket: u64,
    pub failure: Option<IoErrorKind>,
}

/// The ticket that follows `ticket`. It differs from `ticket`.
pub open spec fn ticket_after(ticket: u64) -> u64 {
    if ticket == u64::MAX {
        0
    } else {
        (ticket + 1) as u64
    }
}

/// Whether the tree or the file that a message brings is well formed.
pub open spec fn message_well_formed(message: Message) -> bool {
    match message {
        Message::LoadFiles(Ok(tree)) => tree@.well_formed(),
        Message::Created(Ok(file)) => file@.well_formed(),
        _ => true,
    }
}

impl NotesView {
    /// The tree, if there is one, and the open editor, if there is one, are
    /// well formed.
    pub open spec fn well_formed(self) -> bool {
        &&& self.notes matches Query::Loaded(tree) ==> tree.well_formed()
        &&& self.current matches Some(editor) ==> editor.well_formed()
    }

    /// The workspace at its start: the scan is awaited, no note is open.
    pub open spec fn started() -> NotesView {
        NotesView { notes: Query::Pending, current: None, next_ticket: 0, failure: None }
    }

    /// The workspace with a fresh editor for the note at `path`, which
    /// replaces the open one and takes the next ticket.
    pub open spec fn opening(self, path: Seq<char>, display_name: Seq<char>) -> NotesView {
        NotesView {
            current: Some(NoteEditorView::opened(path, display_name, self.next_ticket)),
            next_ticket: ticket_after(self.next_ticket),
            ..self
        }
    }

    /// The workspace after a message.
    ///
    /// The outcome of the scan counts only while the tree is awaited. A
    /// failed creation or deletion leaves the tree as it is and is recorded.
    pub open spec fn updated(self, message: Message) -> NotesView {
        match message {
            Message::Create => self,
            Message::Delete(_) => self,
            Message::SetCurrent(path, display_name) => self.opening(path@, display_name@),
            Message::NoteEditorMessage(inner) => match self.current {
                Some(editor) => NotesView { current: Some(editor.updated(inner)), ..self },
                None => self,
            },
            Message::LoadFiles(outcome) => if self.notes is Pending {
                NotesView {
                    notes: match outcome {
                        Ok(tree) => Query::Loaded(tree@),
                        Err(kind) => Query::Error(kind),
                    },
                    ..self
                }
            } else {
                self
            },
            Message::Expand(path, open) => match self.notes {
                Query::Loaded(tree) => NotesView {
                    notes: Query::Loaded(tree.with_expanded(path@, open)),
                    ..self
                },
                _ => self,
            },
            Message::Created(Ok(file)) => match self.notes {
                Query::Loaded(tree) => NotesView {
                    notes: Query::Loaded(tree.with_file(file@)),
                    failure: None,
                    ..self
                }.opening(file@.path, file@.display_name),
                _ => self,
            },
            Message::Created(Err(kind)) => NotesView { failure: Some(kind), ..self },
            Message::Deleted(path, Ok(_)) => match self.notes {
                Query::Loaded(tree) => NotesView {
                    notes: Query::Loaded(tree.without(path@)),
                    failure: None,
                    ..self
                },
                _ => self,
            },
            Message::Deleted(_, Err(kind)) => NotesView { failure: Some(kind), ..self },
        }
    }

    /// The message that a key press stands for, if any.
    pub open spec fn shortcut(self, key: char, control: bool) -> Option<Message> {
        if control && key == 'n' {
            Some(Message::Create)
        } else {
            match self.current {
                Some(editor) => match editor.shortcut(key, control) {
                    Some(inner) => Some(Message::NoteEditorMessage(inner)),
                    None => None,
                },
                None => None,
            }
        }
    }

    /// What the workspace asks of its host in answer to a message.
    pub open spec fn command_for(self, message: Message) -> CommandView {
        match message {
            Message::Create => match self.notes {
                Query::Loaded(tree) => CommandView::CreateNote(tree.path),
                _ => CommandView::Nothing,
            },
            Message::Delete(path) => match self.notes {
                Query::Loaded(tree) => CommandView::Remove {
                    path: path@,
                    directory: tree.has_directory(path@),
                },
                _ => CommandView::Nothing,
            },
            Message::SetCurrent(path, _) => CommandView::Editor(
                crate::note_editor::CommandView::ReadFile { path: path@, ticket: self.next_ticket },
            ),
            Message::NoteEditorMessage(inner) => match self.current {
                Some(_) => CommandView::Editor(NoteEditorView::command_for(inner)),
                None => CommandView::Nothing,
            },
            Message::Created(Ok(file)) => match self.notes {
                Query::Loaded(_) => CommandView::Editor(
                    crate::note_editor::CommandView::ReadFile {
                        path: file@.path,
                        ticket: self.next_ticket,
                    },
                ),
                _ => CommandView::Nothing,
            },
            _ => CommandView::Nothing,
        }
    }
}

impl View for Notes {
    type V = NotesView;

    closed spec fn view(&self) -> NotesView {
        NotesView {
            notes: match self.notes {
                Query::Pending => Query::Pending,
                Query::Loaded(tree) => Query::Loaded(tree@),
                Query::Error(kind) => Query::Error(kind),
            },
            current: match self.current {
                Some(editor) => Some(editor@),
                None => None,
            },
            next_ticket: self.next_ticket,
            failure: self.failure,
        }
    }
}

impl Notes {
    /// The workspace over the directory at `location`: the tree is awaited,
    /// and the host is asked to scan the directory.
    pub fn new(location: String) -> (started: (Self, Command))
        ensures
            started.0@ == NotesView::started(),
            started.0@.well_formed(),
            started.1@ == CommandView::LoadFiles(location@),
    {
        (
            Notes { notes: Query::Pending, current: None, next_ticket: 0, failure: None },
            Command::LoadFiles(location),
        )
    }

    /// The tree of notes: awaited, scanned, or failed.
    pub fn notes(&self) -> (notes: &Query<Directory, IoErrorKind>)
        ensures
            match *notes {
                Query::Pending => self@.notes is Pending,
                Query::Loaded(tree) => self@.notes == Query::<DirectoryView, IoErrorKind>::Loaded(
                    tree@,
                ),
                Query::Error(kind) => self@.notes == Query::<DirectoryView, IoErrorKind>::Error(
                    kind,
                ),
            },
    {
        &self.notes
    }

    /// The editor of the open note, if one is open.
    pub fn current(&self) -> (current: Option<&NoteEditor>)
        ensures
            match current {
                Some(editor) => self@.current == Some(editor@),
                None => self@.current is None,
            },
    {
        self.current.as_ref()
    }

    /// Why the last creation or deletion failed, if it did.
    pub fn failure(&self) -> (failure: Option<IoErrorKind>)
        ensures
            failure == self@.failure,
    {
        self.failure
    }

    fn open(&mut self, path: String, display_name: String) -> (command: Command)
        ensures
            final(self)@ == old(self)@.opening(path@, display_name@),
            command@ == CommandView::Editor(
                crate::note_editor::CommandView::ReadFile {
                    path: path@,
                    ticket: old(self)@.next_ticket,
                },
            ),
    {
        let ticket = self.next_ticket;
        let (editor, command) = NoteEditor::from_path(path, display_name, ticket);
        self.current = Some(editor);
        self.next_ticket = if ticket == u64::MAX {
            0
        } else {
            ticket + 1
        };
        Command::Editor(command)
    }

    /// Takes a message: an intent of the user, or the end of a filesystem
    /// operation.
    pub fn update(&mut self, message: Message) -> (command: Command)
        ensures
            final(self)@ == old(self)@.updated(message),
            command@ == old(self)@.command_for(message),
            old(self)@.well_formed() && message_well_formed(message) ==> final(self)@.well_formed(),
    {
        match message {
            Message::Create => match &self.notes {
                Query::Loaded(tree) => Command::CreateNote(tree.path().clone()),
                _ => Command::Nothing,
            },
            Message::Delete(path) => match &self.notes {
                Query::Loaded(tree) => {
                    let directory = tree.has_directory(&path);
                    Command::Remove { path, directory }
                },
                _ => Command::Nothing,
            },
            Message::SetCurrent(path, display_name) => self.open(path, display_name),
            Message::NoteEditorMessage(inner) => match &mut self.current {
                Some(editor) => Command::Editor(editor.update(inner)),
                None => Command::Nothing,
            },
            Message::LoadFiles(outcome) => {
                self.notes.settle(outcome);
                Command::Nothing
            },
            Message::Expand(path, open) => {
                match &mut self.notes {
                    Query::Loaded(tree) => {
                        expand(tree, &path, open);
                    },
                    _ => {},
                }
                Command::Nothing
            },
            Message::Created(Ok(file)) => {
                let path = file.path().clone();
                let display_name = file.display_name().clone();
                let added = match &mut self.notes {
                    Query::Loaded(tree) => {
                        tree.push_file(file);
                        true
                    },
                    _ => false,
                };
                if added {
                    self.failure = None;
                    self.open(path, display_name)
                } else {
                    Command::Nothing
                }
            },
            Message::Created(Err(kind)) => {
                self.failure = Some(kind);
                Command::Nothing
            },
            Message::Deleted(path, Ok(_)) => {
                match &mut self.notes {
                    Query::Loaded(tree) => {
                        tree.remove(&path);
                        self.failure = None;
                    },
                    _ => {},
                }
                Command::Nothing
            },
            Message::Deleted(_, Err(kind)) => {
                self.failure = Some(kind);
                Command::Nothing
            },
        }
    }

    /// The message that a key press stands for, if any: with the control key,
    /// `n` creates a note; other keys go to the open editor.
    pub fn shortcut(&self, key: char, control: bool) -> (message: Option<Message>)
        ensures
            message == self@.shortcut(key, control),
    {
        if control && key == 'n' {
            Some(Message::Create)
        } else {
            match &self.current {
                Some(editor) => match editor.shortcut(key, control) {
                    Some(inner) => Some(Message::NoteEditorMessage(inner)),
                    None => None,
                },
                None => None,
            }
        }
    }
}

/// A creation or a deletion that failed leaves the tree and the open note as
/// they are; only the failure is recorded.
pub proof fn lemma_failure_keeps_tree(notes: NotesView, path: String, kind: IoErrorKind)
    ensures
        notes.updated(Message::Created(Err(kind))) == (NotesView { failure: Some(kind), ..notes }),
        notes.updated(Message::Deleted(path, Err(kind))) == (NotesView {
            failure: Some(kind),
            ..notes
        }),
{
}

/// Asking for a creation or a deletion changes nothing yet: the tree waits
/// for the host to report the end of the operation.
pub proof fn lemma_requests_change_nothing(notes: NotesView, path: String)
    ensures
        notes.updated(Message::Create) == notes,
        notes.updated(Message::Delete(path)) == notes,
{
}

/// Of two notes opened one right after the other, only the second one's
/// text ever shows: the end of the first read changes nothing, whether it
/// comes before or after the end of the second.
pub proof fn lemma_stale_load_ignored(
    notes: NotesView,
    first: Message,
    second: Message,
    stale: Result<String, IoErrorKind>,
    fresh: Result<String, IoErrorKind>,
)
    requires
        first is SetCurrent,
        second is SetCurrent,
    ensures
        ({
            let opened = notes.updated(first).updated(second);
            let stale_end = Message::NoteEditorMessage(
                crate::note_editor::Message::Loaded(notes.next_ticket, stale),
            );
            let fresh_end = Message::NoteEditorMessage(
                crate::note_editor::Message::Loaded(notes.updated(first).next_ticket, fresh),
            );
            &&& opened.updated(stale_end) == opened
            &&& opened.updated(fresh_end).updated(stale_end) == opened.updated(fresh_end)
            &&& opened.updated(fresh_end).current matches Some(editor) && editor.path
                == second->SetCurrent_0@ && editor.state == crate::note_editor::settled(fresh)
        }),
{
}

} // verus!
