//! A model of what the engine runs against: a filesystem that removals
//! shrink, and glob expansions over it.
//!
//! Nothing here is executable. The model says how a caller that is honest
//! about the disk answers the engine's requests; the laws of the engine are
//! stated over runs against such a caller.

use crate::engine::EngineModel;
use crate::entry::EntryKind;
use crate::policy::SEPARATOR;
use crate::protocol::{RequestModel, ResponseModel};
use vstd::prelude::*;

verus! {

/// Whether `path` lies inside the directory `dir`, at any depth.
pub open spec fn inside(path: Seq<char>, dir: Seq<char>) -> bool {
    (dir + seq![SEPARATOR]).is_prefix_of(path)
}

/// A filesystem: the paths at which something is, and what it is.
pub struct FsModel {
    pub nodes: Map<Seq<char>, EntryKind>,
}

impl FsModel {
    /// Whether anything is at `path`.
    pub open spec fn holds(self, path: Seq<char>) -> bool {
        self.nodes.contains_key(path)
    }

    /// What probing `path` says: the kind of what is there, and `Other`
    /// where nothing is.
    pub open spec fn kind_of(self, path: Seq<char>) -> EntryKind {
        if self.holds(path) {
            self.nodes[path]
        } else {
            EntryKind::Other
        }
    }

    /// Whether a directory is at `path`.
    pub open spec fn has_dir(self, path: Seq<char>) -> bool {
        self.holds(path) && self.nodes[path] == EntryKind::Directory
    }

    /// Whether something that can be deleted as a file is at `path`:
    /// anything but a directory.
    pub open spec fn has_file(self, path: Seq<char>) -> bool {
        self.holds(path) && self.nodes[path] != EntryKind::Directory
    }

    /// Whether nothing lies inside `dir`.
    pub open spec fn nothing_inside(self, dir: Seq<char>) -> bool {
        forall|path: Seq<char>| self.holds(path) ==> !inside(path, dir)
    }

    /// Whether everything lies inside a directory that is there too: nothing
    /// is inside a file, and nothing inside what is missing.
    pub open spec fn tree_shaped(self) -> bool {
        forall|path: Seq<char>, dir: Seq<char>|
            self.holds(path) && #[trigger] inside(path, dir) ==> self.has_dir(dir)
    }

    /// Whether everything that is here is in `other` too, as the same kind
    /// of thing.
    pub open spec fn within(self, other: FsModel) -> bool {
        forall|path: Seq<char>| #[trigger]
            self.holds(path) ==> other.holds(path) && other.nodes[path] == self.nodes[path]
    }

    /// Whether the removal that `request` asks for succeeds: a file is
    /// deleted where anything but a directory is, a directory with its
    /// contents where a directory is, and a directory alone where an empty
    /// directory is. No other request removes anything.
    pub open spec fn removes(self, request: RequestModel) -> bool {
        match request {
            RequestModel::RemoveFile { path } => self.has_file(path),
            RequestModel::RemoveDirAll { path } => self.has_dir(path),
            RequestModel::RemoveDir { path } => self.has_dir(path) && self.nothing_inside(path),
            _ => false,
        }
    }

    /// The filesystem after `request` has been carried out: without what a
    /// successful removal deletes, and unchanged otherwise.
    pub open spec fn after(self, request: RequestModel) -> FsModel {
        if self.removes(request) {
            match request {
                RequestModel::RemoveDirAll { path } => FsModel {
                    nodes: self.nodes.restrict(
                        Set::new(|p: Seq<char>| p != path && !inside(p, path)),
                    ),
                },
                RequestModel::RemoveFile { path } => FsModel { nodes: self.nodes.remove(path) },
                RequestModel::RemoveDir { path } => FsModel { nodes: self.nodes.remove(path) },
                _ => self,
            }
        } else {
            self
        }
    }
}

/// Glob expansion as far as the laws need it: which patterns are well
/// formed, and which paths a pattern matches.
pub struct Glob {
    pub accepts: spec_fn(Seq<char>) -> bool,
    pub matches: spec_fn(Seq<char>, Seq<char>) -> bool,
}

/// An engine together with the disk it works on.
pub struct World {
    pub engine: EngineModel,
    /// The filesystem as it is now.
    pub fs: FsModel,
    /// The filesystem as it was when the expansion under way began.
    pub origin: FsModel,
    /// The paths that the expansion under way has yielded so far.
    pub seen: Set<Seq<char>>,
}

impl World {
    /// The world at the start of a run of `engine` on `fs`.
    pub open spec fn start(engine: EngineModel, fs: FsModel) -> World {
        World { engine, fs, origin: fs, seen: Set::empty() }
    }

    /// Whether `response` is an answer that an honest caller can give to the
    /// engine's request in this world.
    ///
    /// - A pattern is accepted exactly if it is well formed.
    /// - An entry that the expansion yields matches the pattern, was there
    ///   when the expansion began, and is of the kind that probing its path
    ///   shows now.
    /// - The expansion is exhausted only once it has yielded every matching
    ///   path that is there now.
    /// - A removal is reported as it went.
    /// - The children of a sweep are listed exactly if their pattern is well
    ///   formed.
    pub open spec fn honest(self, glob: Glob, response: ResponseModel) -> bool {
        match self.engine.request() {
            RequestModel::Expand { pattern } => response == if (glob.accepts)(pattern) {
                ResponseModel::PatternAccepted
            } else {
                ResponseModel::PatternRejected
            },
            RequestModel::NextEntry => match response {
                ResponseModel::Entry(entry) => {
                    &&& (glob.matches)(self.engine.rule().path_pattern, entry.path)
                    &&& self.origin.holds(entry.path)
                    &&& entry.kind == self.fs.kind_of(entry.path)
                },
                ResponseModel::EntryUnreadable => true,
                ResponseModel::NoMoreEntries => forall|path: Seq<char>|
                    #[trigger] (glob.matches)(self.engine.rule().path_pattern, path)
                        && self.fs.holds(path) ==> self.seen.contains(path),
                _ => false,
            },
            RequestModel::ListChildren { pattern } => if (glob.accepts)(pattern) {
                response is Children
            } else {
                response == ResponseModel::PatternRejected
            },
            RequestModel::Finished => false,
            request => response == if self.fs.removes(request) {
                ResponseModel::Removed
            } else {
                ResponseModel::NotRemoved
            },
        }
    }

    /// The world after the caller has carried out the engine's request and
    /// answered `response`.
    pub open spec fn step(self, response: ResponseModel) -> World {
        let request = self.engine.request();
        World {
            engine: self.engine.step(response),
            fs: self.fs.after(request),
            origin: if request is Expand {
                self.fs
            } else {
                self.origin
            },
            seen: if request is Expand {
                Set::empty()
            } else if request is NextEntry && response is Entry {
                self.seen.insert(response->Entry_0.path)
            } else {
                self.seen
            },
        }
    }

    /// The world after the caller has answered `responses`, one after the
    /// other.
    pub open spec fn run(self, responses: Seq<ResponseModel>) -> World
        decreases responses.len(),
    {
        if responses.len() == 0 {
            self
        } else {
            self.run(responses.drop_last()).step(responses.last())
        }
    }

    /// Whether each of `responses` is an honest answer in the world in which
    /// it is given.
    pub open spec fn honest_run(self, glob: Glob, responses: Seq<ResponseModel>) -> bool
        decreases responses.len(),
    {
        responses.len() == 0 || (self.honest_run(glob, responses.drop_last()) && self.run(
            responses.drop_last(),
        ).honest(glob, responses.last()))
    }
}

/// The engine of a world runs as it would alone.
pub proof fn lemma_run_engine(world: World, responses: Seq<ResponseModel>)
    ensures
        world.run(responses).engine == world.engine.run(responses),
    decreases responses.len(),
{
    if responses.len() > 0 {
        lemma_run_engine(world, responses.drop_last());
    }
}

/// A run goes through its answers one by one: the world after the first
/// `n + 1` answers is the world after the first `n` with answer `n` given
/// in it, and if the run is honest, so are its beginnings, and so is that
/// answer.
pub proof fn lemma_run_unfolds(glob: Glob, world: World, responses: Seq<ResponseModel>, n: int)
    requires
        0 <= n < responses.len(),
    ensures
        world.run(responses.take(n + 1)) == world.run(responses.take(n)).step(responses[n]),
        world.honest_run(glob, responses) ==> world.honest_run(glob, responses.take(n + 1)),
        world.honest_run(glob, responses) ==> world.honest_run(glob, responses.take(n)),
        world.honest_run(glob, responses) ==> world.run(responses.take(n)).honest(
            glob,
            responses[n],
        ),
    decreases responses.len() - n,
{
    assert(responses.take(n + 1).drop_last() == responses.take(n));
    if n + 1 < responses.len() {
        lemma_run_unfolds(glob, world, responses, n + 1);
    } else {
        assert(responses.take(n + 1) == responses);
    }
}

} // verus!
