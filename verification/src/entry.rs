//! Entries that a glob expansion yields, with the metadata sampled for them.

use vstd::prelude::*;

verus! {

/// What a matched path turned out to be when it was resolved.
#[derive(Clone, Copy, Debug, PartialEq, Eq, Structural)]
pub enum EntryKind {
    /// A regular file.
    File,
    /// A directory.
    Directory,
    /// Anything else, a path that vanished before it was looked at included.
    Other,
}

/// Mathematical model of a [`ResolvedEntry`].
pub struct EntryModel {
    pub path: Seq<char>,
    pub kind: EntryKind,
    pub size: nat,
}

/// A concrete path matched by a rule's pattern, with its kind and the byte
/// size sampled once, when the path was resolved.
///
/// For a directory the size is that of the directory entry itself, not of its
/// contents.
#[derive(Debug, PartialEq, Eq)]
pub struct ResolvedEntry {
    pub path: String,
    pub kind: EntryKind,
    pub size: u64,
}

impl View for ResolvedEntry {
    type V = EntryModel;

    open spec fn view(&self) -> EntryModel {
        EntryModel { path: self.path@, kind: self.kind, size: self.size as nat }
    }
}

/// The kind of an entry for which the two probes answered `is_file` and
/// `is_dir`.
pub open spec fn kind_of_probes(is_file: bool, is_dir: bool) -> EntryKind {
    if is_file {
        EntryKind::File
    } else if is_dir {
        EntryKind::Directory
    } else {
        EntryKind::Other
    }
}

/// The size credited for an entry whose metadata lookup gave `len`: the
/// length it reported, or zero where the lookup failed.
pub open spec fn sampled_size(len: Option<u64>) -> nat {
    match len {
        Some(n) => n as nat,
        None => 0,
    }
}

impl EntryKind {
    /// Classifies an entry from the answers of the two probes.
    pub fn from_probes(is_file: bool, is_dir: bool) -> (kind: EntryKind)
        ensures
            kind == kind_of_probes(is_file, is_dir),
    {
        if is_file {
            EntryKind::File
        } else if is_dir {
            EntryKind::Directory
        } else {
            EntryKind::Other
        }
    }
}

impl ResolvedEntry {
    /// Builds the entry for `path` from what was sampled for it: the answers
    /// of the file and directory probes and the length its metadata reported,
    /// if the lookup succeeded.
    pub fn resolve(path: String, is_file: bool, is_dir: bool, len: Option<u64>) -> (entry:
        ResolvedEntry)
        ensures
            entry@ == (EntryModel {
                path: path@,
                kind: kind_of_probes(is_file, is_dir),
                size: sampled_size(len),
            }),
    {
        let size: u64 = match len {
            Some(n) => n,
            None => 0,
        };
        ResolvedEntry { path, kind: EntryKind::from_probes(is_file, is_dir), size }
    }
}

} // verus!
