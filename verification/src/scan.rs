//! The scan of a directory tree, one listing at a time.
//!
//! The scan does no reading itself. It says which directory it wants listed
//! next; its host lists that directory and hands the entries over. When no
//! directory is left, the scan hands out the tree. A listing that fails ends
//! the scan.

use vstd::prelude::*;

use crate::notes::Directory;
use crate::notes::DirectoryView;
use crate::notes::File;
use crate::notes::FileView;
use crate::path::final_segment;
use crate::util::IoErrorKind;

verus! {

/// One entry of a directory listing.
#[derive(Clone, Debug)]
pub struct Entry {
    pub path: String,
    pub is_directory: bool,
}

/// What an [`Entry`] is, as plain values.
pub struct EntryView {
    pub path: Seq<char>,
    pub is_directory: bool,
}

impl View for Entry {
    type V = EntryView;

    open spec fn view(&self) -> EntryView {
        EntryView { path: self.path@, is_directory: self.is_directory }
    }
}

/// The views of a listing's entries.
pub open spec fn listing(entries: Seq<Entry>) -> Seq<EntryView> {
    Seq::new(entries.len(), |i: int| entries[i]@)
}

/// The file at `path`, named after the path's final segment.
pub open spec fn file_at(path: Seq<char>) -> FileView {
    FileView { display_name: final_segment(path), path }
}

/// The files among the entries, in the order of the listing.
pub open spec fn files_of(entries: Seq<EntryView>) -> Seq<FileView>
    decreases entries.len(),
{
    if entries.len() == 0 {
        Seq::empty()
    } else if entries.last().is_directory {
        files_of(entries.drop_last())
    } else {
        files_of(entries.drop_last()).push(file_at(entries.last().path))
    }
}

/// The paths of the directories among the entries, in the order of the
/// listing.
pub open spec fn subdirectories(entries: Seq<EntryView>) -> Seq<Seq<char>>
    decreases entries.len(),
{
    if entries.len() == 0 {
        Seq::empty()
    } else if entries.last().is_directory {
        subdirectories(entries.drop_last()).push(entries.last().path)
    } else {
        subdirectories(entries.drop_last())
    }
}

/// A directory whose listing has arrived: what is known of it so far, and
/// the subdirectories that are still to be listed, next first.
struct Frame {
    directory: Directory,
    pending: Vec<String>,
}

/// What a frame of the scan is, as plain values.
pub struct FrameView {
    pub directory: DirectoryView,
    pub pending: Seq<Seq<char>>,
}

impl View for Frame {
    type V = FrameView;

    closed spec fn view(&self) -> FrameView {
        FrameView {
            directory: self.directory@,
            pending: Seq::new(self.pending.len() as nat, |i: int| self.pending[i]@),
        }
    }
}

/// A scan in progress: the directories that are open, outermost first, and
/// the path whose listing is awaited.
pub struct Scan {
    stack: Vec<Frame>,
    awaited: String,
}

/// What a [`Scan`] is, as plain values.
pub struct ScanView {
    pub stack: Seq<FrameView>,
    pub awaited: Seq<char>,
}

impl View for Scan {
    type V = ScanView;

    closed spec fn view(&self) -> ScanView {
        ScanView {
            stack: Seq::new(self.stack.len() as nat, |i: int| self.stack[i]@),
            awaited: self.awaited@,
        }
    }
}

/// How a scan goes on after a listing.
pub enum Step {
    /// Another directory is to be listed.
    Next(Scan),
    /// Every directory was listed; this is the tree.
    Done(Directory),
    /// A listing failed, and the scan with it.
    Failed(IoErrorKind),
}

/// What a [`Step`] is, as plain values.
pub enum StepView {
    Next(ScanView),
    Done(DirectoryView),
    Failed(IoErrorKind),
}

impl View for Step {
    type V = StepView;

    open spec fn view(&self) -> StepView {
        match *self {
            Step::Next(scan) => StepView::Next(scan@),
            Step::Done(tree) => StepView::Done(tree@),
            Step::Failed(kind) => StepView::Failed(kind),
        }
    }
}

/// How the scan goes on once the innermost open directory has its listing:
/// its next pending subdirectory is listed; a directory with none left is
/// closed and becomes the last subdirectory of the one around it; the
/// outermost directory, closed, is the tree. There is always an open
/// directory to settle: the one whose listing has just arrived.
pub open spec fn settled(stack: Seq<FrameView>) -> StepView
    recommends
        stack.len() > 0,
    decreases stack.len(),
{
    if stack.len() == 0 {
        StepView::Failed(IoErrorKind::Other)
    } else {
        let top = stack.last();
        if top.pending.len() > 0 {
            StepView::Next(
                ScanView {
                    stack: stack.drop_last().push(
                        FrameView { pending: top.pending.drop_first(), ..top },
                    ),
                    awaited: top.pending.first(),
                },
            )
        } else if stack.len() == 1 {
            StepView::Done(top.directory)
        } else {
            let parent = stack[stack.len() - 2];
            settled(
                stack.drop_last().drop_last().push(
                    FrameView {
                        directory: DirectoryView {
                            directories: parent.directory.directories.push(top.directory),
                            ..parent.directory
                        },
                        ..parent
                    },
                ),
            )
        }
    }
}

impl ScanView {
    /// The scan of the tree at `root`, before any listing.
    pub open spec fn started(root: Seq<char>) -> ScanView {
        ScanView { stack: Seq::empty(), awaited: root }
    }

    /// The directory that the awaited listing opens: expanded, with the
    /// files of the listing; and the listing's subdirectories, pending.
    pub open spec fn opened(self, entries: Seq<EntryView>) -> FrameView {
        FrameView {
            directory: DirectoryView {
                files: files_of(entries),
                ..DirectoryView::empty(self.awaited)
            },
            pending: subdirectories(entries),
        }
    }

    /// How the scan goes on after the awaited listing.
    pub open spec fn listed(self, outcome: Result<Seq<EntryView>, IoErrorKind>) -> StepView {
        match outcome {
            Err(kind) => StepView::Failed(kind),
            Ok(entries) => settled(self.stack.push(self.opened(entries))),
        }
    }
}

/// The outcome of a listing, as plain values.
pub open spec fn outcome_view(outcome: Result<Vec<Entry>, IoErrorKind>) -> Result<
    Seq<EntryView>,
    IoErrorKind,
> {
    match outcome {
        Ok(entries) => Ok(listing(entries@)),
        Err(kind) => Err(kind),
    }
}

impl Scan {
    /// Starts the scan of the tree at `root`. The listing of `root` is
    /// awaited first.
    pub fn new(root: String) -> (scan: Scan)
        ensures
            scan@ == ScanView::started(root@),
    {
        let scan = Scan { stack: Vec::new(), awaited: root };
        assert(scan@.stack =~= Seq::empty());
        scan
    }

    /// The path of the directory whose listing is awaited.
    pub fn awaited(&self) -> (path: &String)
        ensures
            path@ == self@.awaited,
    {
        &self.awaited
    }

    /// Takes the outcome of the awaited listing and says how the scan goes on.
    pub fn listed(self, outcome: Result<Vec<Entry>, IoErrorKind>) -> (step: Step)
        ensures
            step@ == self@.listed(outcome_view(outcome)),
    {
        let ghost goal = self@.listed(outcome_view(outcome));
        let entries = match outcome {
            Err(kind) => {
                return Step::Failed(kind);
            },
            Ok(entries) => entries,
        };
        let ghost listed = listing(entries@);
        let mut files: Vec<File> = Vec::new();
        let mut pending: Vec<String> = Vec::new();
        let mut i: usize = 0;
        while i < entries.len()
            invariant
                i <= entries.len(),
                listed == listing(entries@),
                files@.len() == files_of(listed.take(i as int)).len(),
                forall|j: int|
                    0 <= j < files@.len() ==> (#[trigger] files@[j])@ == files_of(
                        listed.take(i as int),
                    )[j],
                pending@.len() == subdirectories(listed.take(i as int)).len(),
                forall|j: int|
                    0 <= j < pending@.len() ==> (#[trigger] pending@[j])@ == subdirectories(
                        listed.take(i as int),
                    )[j],
            decreases entries.len() - i,
        {
            proof {
                assert(listed.take(i + 1).drop_last() =~= listed.take(i as int));
                assert(listed.take(i + 1).last() == entries@[i as int]@);
            }
            let path = entries[i].path.clone();
            if entries[i].is_directory {
                pending.push(path);
            } else {
                files.push(File::new(path));
            }
            i += 1;
        }
        assert(listed.take(entries.len() as int) =~= listed);
        let ghost opened = self@.opened(listed);
        let Scan { stack, awaited } = self;
        let mut stack = stack;
        let directory = Directory::listed(awaited, files);
        let frame = Frame { directory, pending };
        proof {
            assert forall|k: int| 0 <= k < files@.len() implies frame@.directory.files[k]
                == opened.directory.files[k] by {
                assert(frame@.directory.files[k] == files@[k]@);
            }
            assert(frame@.directory.files =~= opened.directory.files);
            assert(frame@.pending =~= opened.pending);
        }
        let ghost before = Seq::new(stack.len() as nat, |i: int| stack[i]@);
        stack.push(frame);
        proof {
            assert(Seq::new(stack.len() as nat, |i: int| stack[i]@) =~= before.push(opened));
        }
        loop
            invariant
                stack.len() > 0,
                settled(Seq::new(stack.len() as nat, |i: int| stack[i]@)) == goal,
                goal == self@.listed(outcome_view(outcome)),
            decreases stack.len(),
        {
            let ghost open = Seq::new(stack.len() as nat, |i: int| stack[i]@);
            let mut top = stack.pop().unwrap();
            assert(top@ == open.last());
            assert(Seq::new(stack.len() as nat, |i: int| stack[i]@) =~= open.drop_last());
            if top.pending.len() > 0 {
                let awaited = top.pending.remove(0);
                proof {
                    assert(top@.pending =~= open.last().pending.drop_first());
                }
                stack.push(top);
                let scan = Scan { stack, awaited };
                proof {
                    assert(scan@.stack =~= open.drop_last().push(
                        FrameView { pending: open.last().pending.drop_first(), ..open.last() },
                    ));
                }
                return Step::Next(scan);
            }
            match stack.pop() {
                None => {
                    return Step::Done(top.directory);
                },
                Some(parent) => {
                    let mut parent = parent;
                    assert(parent@ == open[open.len() - 2]);
                    parent.directory.adopt(top.directory);
                    stack.push(parent);
                    proof {
                        let around = open[open.len() - 2];
                        assert(Seq::new(stack.len() as nat, |i: int| stack[i]@)
                            =~= open.drop_last().drop_last().push(
                            FrameView {
                                directory: DirectoryView {
                                    directories: around.directory.directories.push(
                                        open.last().directory,
                                    ),
                                    ..around.directory
                                },
                                ..around
                            },
                        ));
                    }
                },
            }
        }
    }
}

/// Whether the tree is what the listings `fs` describe: every directory in
/// it is expanded, is named after its path, holds the files of its own
/// listing, and holds the subdirectories of that listing, each again as the
/// listings describe it.
pub open spec fn mirrors(tree: DirectoryView, fs: spec_fn(Seq<char>) -> Seq<EntryView>) -> bool
    decreases tree,
{
    let wanted = subdirectories(fs(tree.path));
    &&& tree.display_name == final_segment(tree.path)
    &&& tree.expanded
    &&& tree.files == files_of(fs(tree.path))
    &&& tree.directories.len() == wanted.len()
    &&& forall|i: int|
        0 <= i < tree.directories.len() ==> (#[trigger] tree.directories[i]).path == wanted[i]
            && mirrors(tree.directories[i], fs)
}

/// Whether an open directory is what the listings describe as far as it is
/// built: its subdirectories so far are the first of its listing, `next` is
/// the one that comes after them and is being scanned, if one is, and the
/// pending ones are the rest.
pub open spec fn frame_tracks(
    frame: FrameView,
    fs: spec_fn(Seq<char>) -> Seq<EntryView>,
    next: Option<Seq<char>>,
) -> bool {
    let wanted = subdirectories(fs(frame.directory.path));
    let built = frame.directory.directories.len() as int;
    &&& frame.directory.display_name == final_segment(frame.directory.path)
    &&& frame.directory.expanded
    &&& frame.directory.files == files_of(fs(frame.directory.path))
    &&& built <= wanted.len()
    &&& forall|i: int|
        0 <= i < built ==> (#[trigger] frame.directory.directories[i]).path == wanted[i]
            && mirrors(frame.directory.directories[i], fs)
    &&& match next {
        Some(path) => built < wanted.len() && wanted[built] == path && frame.pending
            == wanted.skip(built + 1),
        None => frame.pending == wanted.skip(built),
    }
}

/// Whether the open directories are what the listings describe: the
/// outermost is the root, each is being scanned for the one inside it, and
/// the innermost for `awaited`.
pub open spec fn stack_tracks(
    stack: Seq<FrameView>,
    fs: spec_fn(Seq<char>) -> Seq<EntryView>,
    awaited: Option<Seq<char>>,
    root: Seq<char>,
) -> bool {
    &&& stack.len() > 0
    &&& stack[0].directory.path == root
    &&& forall|k: int|
        0 <= k < stack.len() ==> frame_tracks(
            #[trigger] stack[k],
            fs,
            if k + 1 < stack.len() {
                Some(stack[k + 1].directory.path)
            } else {
                awaited
            },
        )
}

impl ScanView {
    /// Whether the scan of the tree at `root` is on track with the listings
    /// `fs`.
    pub open spec fn tracks(self, fs: spec_fn(Seq<char>) -> Seq<EntryView>, root: Seq<char>) -> bool {
        if self.stack.len() == 0 {
            self.awaited == root
        } else {
            stack_tracks(self.stack, fs, Some(self.awaited), root)
        }
    }
}

/// Whether a step leaves the scan on track, or ends it with the tree that the
/// listings describe.
pub open spec fn step_tracks(
    step: StepView,
    fs: spec_fn(Seq<char>) -> Seq<EntryView>,
    root: Seq<char>,
) -> bool {
    match step {
        StepView::Next(scan) => scan.tracks(fs, root),
        StepView::Done(tree) => tree.path == root && mirrors(tree, fs),
        StepView::Failed(_) => false,
    }
}

proof fn lemma_settled_tracks(
    stack: Seq<FrameView>,
    fs: spec_fn(Seq<char>) -> Seq<EntryView>,
    root: Seq<char>,
)
    requires
        stack_tracks(stack, fs, None, root),
    ensures
        step_tracks(settled(stack), fs, root),
    decreases stack.len(),
{
    let top = stack.last();
    let wanted = subdirectories(fs(top.directory.path));
    let built = top.directory.directories.len() as int;
    assert(frame_tracks(stack[stack.len() - 1], fs, None));
    if top.pending.len() > 0 {
        let shorter = FrameView { pending: top.pending.drop_first(), ..top };
        let next = stack.drop_last().push(shorter);
        assert(shorter.pending =~= wanted.skip(built + 1));
        assert(frame_tracks(shorter, fs, Some(top.pending.first())));
        assert forall|k: int| 0 <= k < next.len() implies frame_tracks(
            #[trigger] next[k],
            fs,
            if k + 1 < next.len() {
                Some(next[k + 1].directory.path)
            } else {
                Some(top.pending.first())
            },
        ) by {
            if k < next.len() - 1 {
                assert(frame_tracks(stack[k], fs, Some(stack[k + 1].directory.path)));
            }
        }
    } else if stack.len() == 1 {
        assert(wanted.skip(built).len() == 0);
    } else {
        assert(wanted.skip(built).len() == 0);
        assert(mirrors(top.directory, fs));
        let parent = stack[stack.len() - 2];
        assert(frame_tracks(stack[stack.len() - 2], fs, Some(stack[stack.len() - 1].directory.path)));
        let grown = FrameView {
            directory: DirectoryView {
                directories: parent.directory.directories.push(top.directory),
                ..parent.directory
            },
            ..parent
        };
        let next = stack.drop_last().drop_last().push(grown);
        let around = subdirectories(fs(parent.directory.path));
        let before = parent.directory.directories.len() as int;
        assert(grown.pending =~= around.skip(before + 1));
        assert forall|i: int| 0 <= i < before + 1 implies (
        #[trigger] grown.directory.directories[i]).path == around[i] && mirrors(
            grown.directory.directories[i],
            fs,
        ) by {
            if i < before {
                assert(grown.directory.directories[i] == parent.directory.directories[i]);
            }
        }
        assert(frame_tracks(grown, fs, None));
        assert forall|k: int| 0 <= k < next.len() implies frame_tracks(
            #[trigger] next[k],
            fs,
            if k + 1 < next.len() {
                Some(next[k + 1].directory.path)
            } else {
                None
            },
        ) by {
            if k < next.len() - 1 {
                assert(frame_tracks(stack[k], fs, Some(stack[k + 1].directory.path)));
            }
        }
        lemma_settled_tracks(next, fs, root);
    }
}

/// A scan starts on track.
pub proof fn lemma_scan_starts_on_track(
    root: Seq<char>,
    fs: spec_fn(Seq<char>) -> Seq<EntryView>,
)
    ensures
        ScanView::started(root).tracks(fs, root),
{
}

/// A scan that is on track and is handed the listing of the directory it
/// waits for stays on track; and when it ends, the tree it hands out is the
/// one that the listings describe: every entry of every listing, each in the
/// directory it was listed in.
pub proof fn lemma_scan_mirrors_listings(
    scan: ScanView,
    fs: spec_fn(Seq<char>) -> Seq<EntryView>,
    root: Seq<char>,
)
    requires
        scan.tracks(fs, root),
    ensures
        step_tracks(scan.listed(Ok(fs(scan.awaited))), fs, root),
{
    let opened = scan.opened(fs(scan.awaited));
    let stack = scan.stack.push(opened);
    assert(opened.pending =~= subdirectories(fs(scan.awaited)).skip(0));
    assert(frame_tracks(opened, fs, None));
    assert forall|k: int| 0 <= k < stack.len() implies frame_tracks(
        #[trigger] stack[k],
        fs,
        if k + 1 < stack.len() {
            Some(stack[k + 1].directory.path)
        } else {
            None
        },
    ) by {
        if k < stack.len() - 1 {
            assert(frame_tracks(
                scan.stack[k],
                fs,
                if k + 1 < scan.stack.len() {
                    Some(scan.stack[k + 1].directory.path)
                } else {
                    Some(scan.awaited)
                },
            ));
        }
    }
    lemma_settled_tracks(stack, fs, root);
}

/// No two entries of the listing share a path.
pub open spec fn distinct_paths(entries: Seq<EntryView>) -> bool {
    forall|i: int, j: int|
        0 <= i < j < entries.len() ==> (#[trigger] entries[i]).path != (#[trigger] entries[j]).path
}

/// Whether a file-entry of the listing has the path `path`.
spec fn lists_file(entries: Seq<EntryView>, path: Seq<char>) -> bool {
    exists|j: int|
        0 <= j < entries.len() && !(#[trigger] entries[j]).is_directory && entries[j].path == path
}

/// Whether a directory-entry of the listing has the path `path`.
spec fn lists_directory(entries: Seq<EntryView>, path: Seq<char>) -> bool {
    exists|j: int|
        0 <= j < entries.len() && (#[trigger] entries[j]).is_directory && entries[j].path == path
}

/// The files and the subdirectories of a listing come from its entries, and
/// where no two entries share a path, no two of them do.
proof fn lemma_listing_parts(entries: Seq<EntryView>)
    ensures
        forall|a: int|
            0 <= a < files_of(entries).len() ==> (#[trigger] files_of(entries)[a]).well_formed()
                && lists_file(entries, files_of(entries)[a].path),
        forall|b: int|
            0 <= b < subdirectories(entries).len() ==> lists_directory(
                entries,
                #[trigger] subdirectories(entries)[b],
            ),
        distinct_paths(entries) ==> forall|a: int, b: int|
            0 <= a < b < files_of(entries).len() ==> (#[trigger] files_of(entries)[a]).path != (
            #[trigger] files_of(entries)[b]).path,
        distinct_paths(entries) ==> forall|a: int, b: int|
            0 <= a < b < subdirectories(entries).len() ==> (#[trigger] subdirectories(entries)[a])
                != (#[trigger] subdirectories(entries)[b]),
    decreases entries.len(),
{
    if entries.len() > 0 {
        let front = entries.drop_last();
        let last = entries.last();
        lemma_listing_parts(front);
        assert forall|path: Seq<char>| lists_file(front, path) implies lists_file(
            entries,
            path,
        ) by {
            let j = choose|j: int|
                0 <= j < front.len() && !(#[trigger] front[j]).is_directory && front[j].path == path;
            assert(entries[j] == front[j]);
        }
        assert forall|path: Seq<char>| lists_directory(front, path) implies lists_directory(
            entries,
            path,
        ) by {
            let j = choose|j: int|
                0 <= j < front.len() && (#[trigger] front[j]).is_directory && front[j].path == path;
            assert(entries[j] == front[j]);
        }
        assert(entries[entries.len() - 1] == last);
        let files = files_of(entries);
        let directories = subdirectories(entries);
        let front_files = files_of(front);
        let front_directories = subdirectories(front);
        assert forall|a: int| 0 <= a < files.len() implies (#[trigger] files[a]).well_formed()
            && lists_file(entries, files[a].path) by {
            if a < front_files.len() {
                assert(files[a] == front_files[a]);
                assert(lists_file(front, front_files[a].path));
            }
        }
        assert forall|b: int| 0 <= b < directories.len() implies lists_directory(
            entries,
            #[trigger] directories[b],
        ) by {
            if b < front_directories.len() {
                assert(directories[b] == front_directories[b]);
                assert(lists_directory(front, front_directories[b]));
            }
        }
        if distinct_paths(entries) {
            assert(distinct_paths(front)) by {
                assert forall|i: int, j: int| 0 <= i < j < front.len() implies (
                #[trigger] front[i]).path != (#[trigger] front[j]).path by {
                    assert(entries[i].path != entries[j].path);
                }
            }
            assert forall|path: Seq<char>|
                lists_file(front, path) || lists_directory(front, path) implies path
                != last.path by {
                if lists_file(front, path) {
                    let j = choose|j: int|
                        0 <= j < front.len() && !(#[trigger] front[j]).is_directory && front[j].path
                            == path;
                    assert(entries[j].path != entries[entries.len() - 1].path);
                } else {
                    let j = choose|j: int|
                        0 <= j < front.len() && (#[trigger] front[j]).is_directory && front[j].path
                            == path;
                    assert(entries[j].path != entries[entries.len() - 1].path);
                }
            }
            assert forall|a: int, b: int| 0 <= a < b < files.len() implies (#[trigger] files[a]).path
                != (#[trigger] files[b]).path by {
                assert(files[a] == front_files[a]);
                assert(lists_file(front, front_files[a].path));
                if b < front_files.len() {
                    assert(files[b] == front_files[b]);
                }
            }
            assert forall|a: int, b: int| 0 <= a < b < directories.len() implies (
            #[trigger] directories[a]) != (#[trigger] directories[b]) by {
                assert(directories[a] == front_directories[a]);
                assert(lists_directory(front, front_directories[a]));
                if b < front_directories.len() {
                    assert(directories[b] == front_directories[b]);
                }
            }
        }
    }
}

/// Where no listing names a path twice, the tree that the listings describe
/// is well formed.
pub proof fn lemma_mirror_well_formed(
    tree: DirectoryView,
    fs: spec_fn(Seq<char>) -> Seq<EntryView>,
)
    requires
        mirrors(tree, fs),
        forall|path: Seq<char>| distinct_paths(#[trigger] fs(path)),
    ensures
        tree.well_formed(),
    decreases tree,
{
    let entries = fs(tree.path);
    lemma_listing_parts(entries);
    assert(distinct_paths(entries));
    assert forall|i: int| 0 <= i < tree.directories.len() implies (
    #[trigger] tree.directories[i]).well_formed() by {
        lemma_mirror_well_formed(tree.directories[i], fs);
    }
    assert forall|i: int, j: int|
        0 <= i < tree.files.len() && 0 <= j < tree.directories.len() implies (
    #[trigger] tree.files[i]).path != (#[trigger] tree.directories[j]).path by {
        let path = tree.files[i].path;
        let other = subdirectories(entries)[j];
        assert(lists_file(entries, path));
        assert(lists_directory(entries, other));
        let a = choose|a: int|
            0 <= a < entries.len() && !(#[trigger] entries[a]).is_directory && entries[a].path
                == path;
        let b = choose|b: int|
            0 <= b < entries.len() && (#[trigger] entries[b]).is_directory && entries[b].path
                == other;
        if a < b {
            assert(entries[a].path != entries[b].path);
        } else {
            assert(entries[b].path != entries[a].path);
        }
    }
    assert forall|i: int, j: int| 0 <= i < j < tree.directories.len() implies (
    #[trigger] tree.directories[i]).path != (#[trigger] tree.directories[j]).path by {
        assert(subdirectories(entries)[i] != subdirectories(entries)[j]);
    }
}

} // verus!
