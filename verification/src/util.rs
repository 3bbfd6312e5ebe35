//! The three-state container that every "load, then show" interaction uses,
//! and the kinds of failure that a filesystem operation reports.

use vstd::prelude::*;
use vstd::string::StringExecFns;

verus! {

/// Why a filesystem operation failed.
#[derive(Clone, Copy, Debug, PartialEq, Eq, Structural)]
pub enum IoErrorKind {
    NotFound,
    PermissionDenied,
    Other,
}

impl IoErrorKind {
    /// The name of the kind, as it appears in messages.
    pub open spec fn spec_name(self) -> Seq<char> {
        match self {
            IoErrorKind::NotFound => "NotFound"@,
            IoErrorKind::PermissionDenied => "PermissionDenied"@,
            IoErrorKind::Other => "Other"@,
        }
    }

    /// The name of the kind, as it appears in messages.
    pub fn name(self) -> (name: String)
        ensures
            name@ == self.spec_name(),
    {
        match self {
            IoErrorKind::NotFound => String::from_str("NotFound"),
            IoErrorKind::PermissionDenied => String::from_str("PermissionDenied"),
            IoErrorKind::Other => String::from_str("Other"),
        }
    }
}

/// A value that is produced asynchronously: not there yet, there, or failed.
///
/// A container leaves `Pending` once, for `Loaded` or for `Error`, and stays
/// there until it is reset to `Pending` for a fresh attempt.
pub enum Query<T, U> {
    Pending,
    Loaded(T),
    Error(U),
}

impl<T, U> Query<T, U> {
    /// What a pending container becomes when `outcome` arrives.
    pub open spec fn settled(outcome: Result<T, U>) -> Query<T, U> {
        match outcome {
            Ok(value) => Query::Loaded(value),
            Err(error) => Query::Error(error),
        }
    }

    /// A container whose value has been asked for and has not arrived.
    pub fn new() -> (query: Self)
        ensures
            query is Pending,
    {
        Query::Pending
    }

    pub fn is_pending(&self) -> (pending: bool)
        ensures
            pending == (self is Pending),
    {
        match self {
            Query::Pending => true,
            _ => false,
        }
    }

    pub fn is_loaded(&self) -> (loaded: bool)
        ensures
            loaded == (self is Loaded),
    {
        match self {
            Query::Loaded(_) => true,
            _ => false,
        }
    }

    pub fn is_error(&self) -> (failed: bool)
        ensures
            failed == (self is Error),
    {
        match self {
            Query::Error(_) => true,
            _ => false,
        }
    }

    /// The loaded value, if there is one.
    pub fn loaded(&self) -> (value: Option<&T>)
        ensures
            value == (match *self {
                Query::Loaded(loaded) => Some(&loaded),
                _ => None,
            }),
    {
        match self {
            Query::Loaded(value) => Some(value),
            _ => None,
        }
    }

    /// The error, if the load failed.
    pub fn error(&self) -> (error: Option<&U>)
        ensures
            error == (match *self {
                Query::Error(failure) => Some(&failure),
                _ => None,
            }),
    {
        match self {
            Query::Error(error) => Some(error),
            _ => None,
        }
    }

    /// Takes the outcome of the load that this container waits for. A
    /// container that is not pending keeps what it holds and hands the
    /// outcome back.
    pub fn settle(&mut self, outcome: Result<T, U>) -> (rejected: Option<Result<T, U>>)
        ensures
            *old(self) is Pending ==> *final(self) == Self::settled(outcome) && rejected is None,
            !(*old(self) is Pending) ==> *final(self) == *old(self) && rejected == Some(outcome),
    {
        if self.is_pending() {
            *self = match outcome {
                Ok(value) => Query::Loaded(value),
                Err(error) => Query::Error(error),
            };
            None
        } else {
            Some(outcome)
        }
    }

    /// Forgets what the container holds, for a fresh load.
    pub fn reset(&mut self)
        ensures
            *final(self) is Pending,
    {
        *self = Query::Pending;
    }

    /// Applies `f` to the loaded value. A pending or failed container stays
    /// as it is and `f` is not called.
    pub fn map<V, F: FnOnce(T) -> V>(self, f: F) -> (mapped: Query<V, U>)
        requires
            self matches Query::Loaded(value) ==> f.requires((value,)),
        ensures
            match self {
                Query::Pending => mapped is Pending,
                Query::Loaded(value) => mapped matches Query::Loaded(image) && f.ensures(
                    (value,),
                    image,
                ),
                Query::Error(error) => mapped == Query::<V, U>::Error(error),
            },
    {
        match self {
            Query::Pending => Query::Pending,
            Query::Loaded(value) => Query::Loaded(f(value)),
            Query::Error(error) => Query::Error(error),
        }
    }

    /// The loaded value, or `fallback` while there is none to show.
    pub fn unwrap_or_default_view(self, fallback: T) -> (shown: T)
        ensures
            shown == (match self {
                Query::Loaded(value) => value,
                _ => fallback,
            }),
    {
        match self {
            Query::Loaded(value) => value,
            _ => fallback,
        }
    }
}

} // verus!
