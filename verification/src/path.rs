//! Paths as text: joining a name onto a directory path, and the final segment
//! of a path, from which display names are derived.
//!
//! Paths are sequences of characters separated by `/` and are compared
//! character by character.

use vstd::prelude::*;
use vstd::string::StringExecFns;

use crate::text::chars_of;
use crate::text::string_of;

verus! {

/// Whether `name` can be the name of a single entry: not empty, no separator.
pub open spec fn is_name(name: Seq<char>) -> bool {
    &&& name.len() > 0
    &&& forall|i: int| 0 <= i < name.len() ==> name[i] != '/'
}

/// The path of the entry called `name` inside the directory at `parent`.
pub open spec fn joined(parent: Seq<char>, name: Seq<char>) -> Seq<char> {
    if parent.len() == 0 || parent.last() == '/' {
        parent + name
    } else {
        parent + seq!['/'] + name
    }
}

/// The length of `path` without the separators it ends in.
pub open spec fn trimmed_len(path: Seq<char>) -> int
    decreases path.len(),
{
    if path.len() > 0 && path.last() == '/' {
        trimmed_len(path.drop_last())
    } else {
        path.len() as int
    }
}

/// Where the run of non-separator characters that ends at `end` begins.
pub open spec fn segment_start(path: Seq<char>, end: int) -> int
    decreases end,
{
    if end <= 0 {
        0
    } else if path[end - 1] == '/' {
        end
    } else {
        segment_start(path, end - 1)
    }
}

/// The last segment of `path`, ignoring separators at its end. Empty when the
/// path holds separators only.
pub open spec fn final_segment(path: Seq<char>) -> Seq<char> {
    let end = trimmed_len(path);
    path.subrange(segment_start(path, end), end)
}

/// The run of non-separator characters that ends at `end` starts at `start`
/// when no separator lies between and one stands just before `start`.
proof fn lemma_segment_start_is(path: Seq<char>, start: int, end: int)
    requires
        0 <= start <= end <= path.len(),
        start > 0 ==> path[start - 1] == '/',
        forall|i: int| start <= i < end ==> path[i] != '/',
    ensures
        segment_start(path, end) == start,
    decreases end - start,
{
    if start < end {
        lemma_segment_start_is(path, start, end - 1);
    }
}

/// An entry's name is the final segment of its path.
pub proof fn lemma_final_segment_of_joined(parent: Seq<char>, name: Seq<char>)
    requires
        is_name(name),
    ensures
        final_segment(joined(parent, name)) == name,
{
    let path = joined(parent, name);
    let start = path.len() - name.len();
    assert(forall|i: int| start <= i < path.len() ==> path[i] == name[i - start]);
    assert(path.last() == name.last());
    assert(trimmed_len(path) == path.len());
    lemma_segment_start_is(path, start, path.len() as int);
    assert(path.subrange(start, path.len() as int) =~= name);
}

/// The path of the entry called `name` inside the directory at `parent`.
pub fn join(parent: &str, name: &str) -> (path: String)
    ensures
        path@ == joined(parent@, name@),
{
    let chars = chars_of(parent);
    let mut path = String::from_str(parent);
    if chars.len() > 0 && chars[chars.len() - 1] != '/' {
        path.push('/');
    }
    path.append(name);
    path
}

/// The last segment of `path`, ignoring separators at its end.
pub fn last_segment(path: &str) -> (name: String)
    ensures
        name@ == final_segment(path@),
{
    let chars = chars_of(path);
    let mut end: usize = chars.len();
    assert(path@.subrange(0, end as int) =~= path@);
    while end > 0 && chars[end - 1] == '/'
        invariant
            end <= chars.len(),
            chars@ == path@,
            trimmed_len(path@) == trimmed_len(path@.subrange(0, end as int)),
        decreases end,
    {
        assert(path@.subrange(0, end as int).drop_last() =~= path@.subrange(0, end - 1));
        end -= 1;
    }
    let mut start: usize = end;
    while start > 0 && chars[start - 1] != '/'
        invariant
            start <= end <= chars.len(),
            chars@ == path@,
            segment_start(path@, end as int) == segment_start(path@, start as int),
        decreases start,
    {
        start -= 1;
    }
    string_of(&chars, start, end)
}

} // verus!
