//! The configuration: where the notes are kept, and the one-line record that
//! stores it.

use vstd::prelude::*;
use vstd::string::StrSliceExecFns;
use vstd::string::StringExecFns;

use crate::path::join;
use crate::path::joined;
use crate::util::IoErrorKind;

verus! {

/// Where the notes are kept.
#[derive(Clone, Debug)]
pub struct Configuration {
    pub notes_path: String,
}

/// What to do once the read of the configuration record has ended.
pub enum Startup {
    /// The record was there: go on with its configuration.
    Use(Configuration),
    /// There is no record yet: store this configuration, then go on with it.
    Initialize(Configuration),
    /// The record could not be read, or is not a record.
    Fail(IoErrorKind),
}

/// The record that stores a notes path.
pub open spec fn record_of(notes_path: Seq<char>) -> Seq<char> {
    "notes_path: "@ + notes_path
}

/// The notes path that a record stores, if the text is a record.
pub open spec fn path_in(record: Seq<char>) -> Option<Seq<char>> {
    let key = "notes_path: "@;
    if record.len() >= key.len() && record.subrange(0, key.len() as int) == key {
        Some(record.subrange(key.len() as int, record.len() as int))
    } else {
        None
    }
}

/// The notes path of a first run: the directory `.darkstone/notes` under the
/// user's home directory.
pub open spec fn default_path(home: Seq<char>) -> Seq<char> {
    joined(home, ".darkstone/notes"@)
}

/// Reading back a record gives the path that was stored.
pub proof fn lemma_record_round_trip(notes_path: Seq<char>)
    ensures
        path_in(record_of(notes_path)) == Some(notes_path),
{
    let key = "notes_path: "@;
    let record = record_of(notes_path);
    assert(record.subrange(0, key.len() as int) =~= key);
    assert(record.subrange(key.len() as int, record.len() as int) =~= notes_path);
}

impl Configuration {
    /// The configuration of a first run, for a user whose home directory is
    /// `home`.
    pub fn under_home(home: &str) -> (configuration: Configuration)
        ensures
            configuration.notes_path@ == default_path(home@),
    {
        Configuration { notes_path: join(home, ".darkstone/notes") }
    }

    /// The record that stores this configuration.
    pub fn to_record(&self) -> (record: String)
        ensures
            record@ == record_of(self.notes_path@),
    {
        let mut record = String::from_str("notes_path: ");
        record.append(self.notes_path.as_str());
        record
    }

    /// The configuration that a record stores, if the text is a record.
    pub fn from_record(record: &str) -> (configuration: Option<Configuration>)
        ensures
            match configuration {
                Some(stored) => path_in(record@) == Some(stored.notes_path@),
                None => path_in(record@) is None,
            },
    {
        let key = "notes_path: ";
        let key_len = key.unicode_len();
        let len = record.unicode_len();
        if len < key_len {
            return None;
        }
        let head = String::from_str(record.substring_char(0, key_len));
        if head == String::from_str(key) {
            Some(Configuration { notes_path: String::from_str(record.substring_char(key_len, len)) })
        } else {
            None
        }
    }

    /// What to do once the read of the record has ended: a record gives the
    /// configuration; a missing record makes this a first run, for a user
    /// whose home directory is `home`; anything else is a failure.
    pub fn on_read(outcome: Result<String, IoErrorKind>, home: &str) -> (startup: Startup)
        ensures
            match outcome {
                Ok(record) => match path_in(record@) {
                    Some(notes_path) => startup matches Startup::Use(stored) && stored.notes_path@
                        == notes_path,
                    None => startup matches Startup::Fail(kind) && kind == IoErrorKind::Other,
                },
                Err(IoErrorKind::NotFound) => startup matches Startup::Initialize(fresh)
                    && fresh.notes_path@ == default_path(home@),
                Err(kind) => startup matches Startup::Fail(failed) && failed == kind,
            },
    {
        match outcome {
            Ok(record) => match Configuration::from_record(record.as_str()) {
                Some(stored) => Startup::Use(stored),
                None => Startup::Fail(IoErrorKind::Other),
            },
            Err(IoErrorKind::NotFound) => Startup::Initialize(Configuration::under_home(home)),
            Err(kind) => Startup::Fail(kind),
        }
    }
}

} // verus!
