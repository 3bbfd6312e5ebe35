//! Names for new notes: "Untitled", "Untitled 1", "Untitled 2", and so on,
//! and the choice of the first one that a directory does not hold yet.

use vstd::prelude::*;
use vstd::string::StringExecFns;

use crate::notes::File;
use crate::notes::FileView;
use crate::path::is_name;
use crate::path::joined;
use crate::text::decimal;
use crate::text::lemma_decimal_injective;
use crate::text::lemma_decimal_shape;
use crate::text::push_decimal;

verus! {

/// The `index`-th name for a new note: "Untitled" first, then "Untitled 1",
/// "Untitled 2", and so on.
pub open spec fn untitled(index: nat) -> Seq<char> {
    if index == 0 {
        "Untitled"@
    } else {
        "Untitled "@ + decimal(index)
    }
}

/// The `index`-th name for a new note.
pub fn untitled_name(index: u64) -> (name: String)
    ensures
        name@ == untitled(index as nat),
{
    if index == 0 {
        String::from_str("Untitled")
    } else {
        let mut name = String::from_str("Untitled ");
        push_decimal(&mut name, index);
        name
    }
}

/// Every such name can name an entry: it is not empty and holds no separator.
pub proof fn lemma_untitled_is_name(index: nat)
    ensures
        is_name(untitled(index)),
{
    reveal_strlit("Untitled");
    reveal_strlit("Untitled ");
    lemma_decimal_shape(index);
}

/// Different indices give different names.
pub proof fn lemma_untitled_distinct(i: nat, j: nat)
    requires
        i != j,
    ensures
        untitled(i) != untitled(j),
{
    reveal_strlit("Untitled");
    reveal_strlit("Untitled ");
    lemma_decimal_shape(i);
    lemma_decimal_shape(j);
    if i != 0 && j != 0 {
        let prefix = "Untitled "@;
        if untitled(i) == untitled(j) {
            assert(decimal(i) =~= untitled(i).subrange(prefix.len() as int, untitled(i).len() as int));
            assert(decimal(j) =~= untitled(j).subrange(prefix.len() as int, untitled(j).len() as int));
            lemma_decimal_injective(i, j);
        }
    } else if i == 0 {
        assert(untitled(j).len() > untitled(i).len());
    } else {
        assert(untitled(i).len() > untitled(j).len());
    }
}

/// Whether `name` is among the names in `taken`.
pub open spec fn is_taken(taken: Seq<String>, name: Seq<char>) -> bool {
    exists|i: int| 0 <= i < taken.len() && (#[trigger] taken[i])@ == name
}

/// Whether `index` is the first whose name is not among `taken`.
pub open spec fn is_first_free(taken: Seq<String>, index: nat) -> bool {
    &&& !is_taken(taken, untitled(index))
    &&& forall|j: nat| j < index ==> is_taken(taken, #[trigger] untitled(j))
}

/// A sequence that holds the first `count` names holds at least `count`
/// items.
proof fn lemma_taken_names_fit(taken: Seq<String>, count: nat)
    requires
        forall|j: nat| j < count ==> is_taken(taken, #[trigger] untitled(j)),
    ensures
        count <= taken.len(),
    decreases count,
{
    if count > 0 {
        let last = (count - 1) as nat;
        assert(is_taken(taken, untitled(last)));
        let at = choose|at: int| 0 <= at < taken.len() && (#[trigger] taken[at])@ == untitled(last);
        let rest = taken.remove(at);
        assert forall|j: nat| j < last implies is_taken(rest, #[trigger] untitled(j)) by {
            assert(is_taken(taken, untitled(j)));
            let found = choose|found: int|
                0 <= found < taken.len() && (#[trigger] taken[found])@ == untitled(j);
            lemma_untitled_distinct(j, last);
            if found < at {
                assert(rest[found] == taken[found]);
            } else {
                assert(rest[found - 1] == taken[found]);
            }
        }
        lemma_taken_names_fit(rest, last);
    }
}

/// There is one first free index at most.
pub proof fn lemma_first_free_unique(taken: Seq<String>, a: nat, b: nat)
    requires
        is_first_free(taken, a),
        is_first_free(taken, b),
    ensures
        a == b,
{
    if a < b {
        assert(is_taken(taken, untitled(a)));
    } else if b < a {
        assert(is_taken(taken, untitled(b)));
    }
}

/// Where exactly the first `count` names are taken, the next note is the
/// `count`-th. So in a directory that holds none of them, one note after the
/// other is called "Untitled", "Untitled 1", "Untitled 2", and so on.
pub proof fn lemma_next_untitled(taken: Seq<String>, count: nat)
    requires
        forall|j: nat| is_taken(taken, #[trigger] untitled(j)) <==> j < count,
    ensures
        is_first_free(taken, count),
{
}

fn holds(taken: &Vec<String>, name: &String) -> (found: bool)
    ensures
        found == is_taken(taken@, name@),
{
    let mut i: usize = 0;
    while i < taken.len()
        invariant
            i <= taken.len(),
            forall|j: int| 0 <= j < i ==> (#[trigger] taken@[j])@ != name@,
        decreases taken.len() - i,
    {
        if taken[i] == *name {
            return true;
        }
        i += 1;
    }
    false
}

/// The note to create in the directory at `parent`, whose entries are called
/// `taken`: it gets the first of the names "Untitled", "Untitled 1", ... that
/// is not taken.
pub fn fresh_note(parent: &String, taken: &Vec<String>) -> (note: File)
    ensures
        exists|index: nat|
            is_first_free(taken@, index) && note@ == (FileView {
                display_name: #[trigger] untitled(index),
                path: joined(parent@, untitled(index)),
            }),
        note@.well_formed(),
{
    let mut index: usize = 0;
    let mut name = untitled_name(0);
    while holds(taken, &name)
        invariant
            index <= taken.len(),
            name@ == untitled(index as nat),
            forall|j: nat| j < index ==> is_taken(taken@, #[trigger] untitled(j)),
        decreases taken.len() - index,
    {
        proof {
            lemma_taken_names_fit(taken@, (index + 1) as nat);
        }
        index += 1;
        name = untitled_name(index as u64);
    }
    proof {
        lemma_untitled_is_name(index as nat);
        assert(is_first_free(taken@, index as nat));
    }
    File::in_directory(parent, name)
}

} // verus!
