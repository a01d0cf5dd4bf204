//! What the engine asks of its caller, and what the caller answers.

use crate::entry::{EntryKind, EntryModel, ResolvedEntry};
use vstd::prelude::*;

verus! {

/// What listing one child of a swept entry gave.
#[derive(Clone, Copy, Debug, PartialEq, Eq, Structural)]
pub enum Probe {
    /// The child was resolved and is of this kind.
    Found(EntryKind),
    /// The child could not be read.
    Unreadable,
}

/// The number of children in `probes` that were found to be of kind `kind`.
pub open spec fn count_of(probes: Seq<Probe>, kind: EntryKind) -> nat
    decreases probes.len(),
{
    if probes.len() == 0 {
        0
    } else {
        count_of(probes.drop_last(), kind) + if probes.last() == Probe::Found(kind) {
            1nat
        } else {
            0nat
        }
    }
}

/// Counts the children in `probes` that were found to be of kind `kind`.
pub fn count(probes: &Vec<Probe>, kind: EntryKind) -> (n: u64)
    ensures
        n == count_of(probes@, kind),
{
    let mut n: u64 = 0;
    let mut i: usize = 0;
    while i < probes.len()
        invariant
            i <= probes.len(),
            n == count_of(probes@.take(i as int), kind),
            n <= i,
        decreases probes.len() - i,
    {
        assert(probes@.take(i + 1).drop_last() =~= probes@.take(i as int));
        if probes[i] == Probe::Found(kind) {
            n = n + 1;
        }
        i += 1;
    }
    assert(probes@.take(i as int) =~= probes@);
    n
}

/// Mathematical model of a [`Request`].
pub enum RequestModel {
    Expand { pattern: Seq<char> },
    NextEntry,
    RemoveFile { path: Seq<char> },
    RemoveDirAll { path: Seq<char> },
    RemoveDir { path: Seq<char> },
    ListChildren { pattern: Seq<char> },
    Finished,
}

/// What the engine asks its caller to do next.
#[derive(Debug, PartialEq, Eq)]
pub enum Request {
    /// Begin expanding the glob pattern `pattern`, dropping any expansion
    /// still under way. Answer `PatternAccepted` or `PatternRejected`.
    Expand { pattern: String },
    /// Resolve the next path of the expansion under way. Answer `Entry`,
    /// `EntryUnreadable` or `NoMoreEntries`.
    NextEntry,
    /// Delete the file at `path`. Answer `Removed` or `NotRemoved`.
    RemoveFile { path: String },
    /// Delete the directory at `path` with everything in it. Answer
    /// `Removed` or `NotRemoved`.
    RemoveDirAll { path: String },
    /// Delete the directory at `path` if it is empty. Answer `Removed` or
    /// `NotRemoved`.
    RemoveDir { path: String },
    /// Expand the glob pattern `pattern` to its end and probe each path it
    /// yields. Answer `Children`, or `PatternRejected`.
    ListChildren { pattern: String },
    /// Nothing: the run is over and the report is final.
    Finished,
}

impl View for Request {
    type V = RequestModel;

    open spec fn view(&self) -> RequestModel {
        match self {
            Request::Expand { pattern } => RequestModel::Expand { pattern: pattern@ },
            Request::NextEntry => RequestModel::NextEntry,
            Request::RemoveFile { path } => RequestModel::RemoveFile { path: path@ },
            Request::RemoveDirAll { path } => RequestModel::RemoveDirAll { path: path@ },
            Request::RemoveDir { path } => RequestModel::RemoveDir { path: path@ },
            Request::ListChildren { pattern } => RequestModel::ListChildren { pattern: pattern@ },
            Request::Finished => RequestModel::Finished,
        }
    }
}

/// Mathematical model of a [`Response`].
pub enum ResponseModel {
    PatternAccepted,
    PatternRejected,
    Entry(EntryModel),
    EntryUnreadable,
    NoMoreEntries,
    Removed,
    NotRemoved,
    Children(Seq<Probe>),
}

/// What the caller answers to a request.
#[derive(Debug, PartialEq, Eq)]
pub enum Response {
    /// The pattern is well formed and its expansion has begun.
    PatternAccepted,
    /// The pattern is malformed; nothing was expanded.
    PatternRejected,
    /// The expansion yielded this entry.
    Entry(ResolvedEntry),
    /// The expansion hit a path that it could not read.
    EntryUnreadable,
    /// The expansion is exhausted.
    NoMoreEntries,
    /// The removal succeeded.
    Removed,
    /// The removal failed, for whatever reason.
    NotRemoved,
    /// The children that a listing yielded, in the order in which it
    /// yielded them.
    Children(Vec<Probe>),
}

impl View for Response {
    type V = ResponseModel;

    open spec fn view(&self) -> ResponseModel {
        match self {
            Response::PatternAccepted => ResponseModel::PatternAccepted,
            Response::PatternRejected => ResponseModel::PatternRejected,
            Response::Entry(entry) => ResponseModel::Entry(entry@),
            Response::EntryUnreadable => ResponseModel::EntryUnreadable,
            Response::NoMoreEntries => ResponseModel::NoMoreEntries,
            Response::Removed => ResponseModel::Removed,
            Response::NotRemoved => ResponseModel::NotRemoved,
            Response::Children(probes) => ResponseModel::Children(probes@),
        }
    }
}

} // verus!
