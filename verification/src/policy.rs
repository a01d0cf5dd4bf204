//! The deletion policy: which removals a rule asks for on one matched entry,
//! and in which order.

use crate::entry::{EntryKind, EntryModel, ResolvedEntry};
use crate::rule::{names_of, CleanupRule, RuleModel};
use vstd::prelude::*;
use vstd::string::*;

verus! {

/// The character that joins an entry's path and the name of something inside
/// it.
pub const SEPARATOR: char = '\\';

/// The path of `name` inside the entry at `parent`.
pub open spec fn child_path(parent: Seq<char>, name: Seq<char>) -> Seq<char> {
    parent + seq![SEPARATOR] + name
}

/// The glob pattern that matches the direct children of the entry at
/// `parent`.
pub open spec fn children_pattern(parent: Seq<char>) -> Seq<char> {
    parent + seq![SEPARATOR, '*']
}

/// Mathematical model of a [`Step`].
pub enum StepModel {
    RemoveFile { path: Seq<char> },
    RemoveDirAll { path: Seq<char> },
    RemoveDir { path: Seq<char> },
    Sweep { path: Seq<char>, children: Seq<char> },
}

impl StepModel {
    /// The path that the step tries to remove.
    pub open spec fn target(self) -> Seq<char> {
        match self {
            StepModel::RemoveFile { path } => path,
            StepModel::RemoveDirAll { path } => path,
            StepModel::RemoveDir { path } => path,
            StepModel::Sweep { path, .. } => path,
        }
    }
}

/// One removal that the policy asks for.
#[derive(Debug, PartialEq, Eq)]
pub enum Step {
    /// Delete the file at `path`.
    RemoveFile { path: String },
    /// Delete the directory at `path` with everything in it.
    RemoveDirAll { path: String },
    /// Delete the directory at `path` if it is empty.
    RemoveDir { path: String },
    /// Count the entries that `children` matches, files and directories
    /// apart, then delete the directory at `path` with everything in it.
    Sweep { path: String, children: String },
}

impl View for Step {
    type V = StepModel;

    open spec fn view(&self) -> StepModel {
        match self {
            Step::RemoveFile { path } => StepModel::RemoveFile { path: path@ },
            Step::RemoveDirAll { path } => StepModel::RemoveDirAll { path: path@ },
            Step::RemoveDir { path } => StepModel::RemoveDir { path: path@ },
            Step::Sweep { path, children } => StepModel::Sweep {
                path: path@,
                children: children@,
            },
        }
    }
}

/// The models of the steps of `steps`, in order.
pub open spec fn steps_of(steps: Seq<Step>) -> Seq<StepModel> {
    steps.map_values(|step: Step| step@)
}

/// Deleting each of `names` inside `parent` as a file.
pub open spec fn explicit_file_steps(parent: Seq<char>, names: Seq<Seq<char>>) -> Seq<StepModel> {
    names.map_values(|name: Seq<char>| StepModel::RemoveFile { path: child_path(parent, name) })
}

/// Deleting each of `names` inside `parent` as a directory, contents
/// included.
pub open spec fn recursive_dir_steps(parent: Seq<char>, names: Seq<Seq<char>>) -> Seq<StepModel> {
    names.map_values(|name: Seq<char>| StepModel::RemoveDirAll { path: child_path(parent, name) })
}

/// Deleting each of `names` inside `parent` as an empty directory.
pub open spec fn empty_dir_steps(parent: Seq<char>, names: Seq<Seq<char>>) -> Seq<StepModel> {
    names.map_values(|name: Seq<char>| StepModel::RemoveDir { path: child_path(parent, name) })
}

/// The steps that concern the matched entry itself: at most one to delete it
/// as a file, one to delete it as a directory, and one to sweep it.
pub open spec fn own_steps(rule: RuleModel, entry: EntryModel) -> Seq<StepModel> {
    let as_file = if rule.delete_matched_file && entry.kind == EntryKind::File {
        seq![StepModel::RemoveFile { path: entry.path }]
    } else {
        Seq::<StepModel>::empty()
    };
    let as_dir = if rule.delete_matched_dir && entry.kind == EntryKind::Directory {
        seq![StepModel::RemoveDirAll { path: entry.path }]
    } else {
        Seq::<StepModel>::empty()
    };
    let swept = if rule.delete_all_children_of_dir {
        seq![StepModel::Sweep { path: entry.path, children: children_pattern(entry.path) }]
    } else {
        Seq::<StepModel>::empty()
    };
    as_file + as_dir + swept
}

/// The deletion policy. For one matched entry a rule asks, in this order and
/// each regardless of how the others end, for:
///
/// 1. every explicit file inside the entry, deleted as a file;
/// 2. every explicit directory inside the entry, deleted with its contents;
/// 3. every explicit directory once more, deleted only if empty;
/// 4. the entry itself, if the rule deletes matched files and it is a file;
/// 5. the entry itself with its contents, if the rule deletes matched
///    directories and it is a directory;
/// 6. a sweep of the entry, if the rule sweeps.
pub open spec fn plan_of(rule: RuleModel, entry: EntryModel) -> Seq<StepModel> {
    explicit_file_steps(entry.path, rule.explicit_files) + recursive_dir_steps(
        entry.path,
        rule.explicit_dirs,
    ) + empty_dir_steps(entry.path, rule.explicit_dirs) + own_steps(rule, entry)
}

/// Joins `parent` and `name` with the separator.
pub fn join(parent: &String, name: &String) -> (joined: String)
    ensures
        joined@ == child_path(parent@, name@),
{
    proof {
        reveal_strlit("\\");
    }
    parent.clone().concat("\\").concat(name.as_str())
}

/// The pattern for the direct children of the entry at `parent`.
pub fn children_of(parent: &String) -> (pattern: String)
    ensures
        pattern@ == children_pattern(parent@),
{
    proof {
        reveal_strlit("\\*");
    }
    parent.clone().concat("\\*")
}

/// Lays out the steps of the deletion policy for one matched entry.
pub fn plan(rule: &CleanupRule, entry: &ResolvedEntry) -> (steps: Vec<Step>)
    ensures
        steps_of(steps@) == plan_of(rule@, entry@),
{
    let mut steps: Vec<Step> = Vec::new();
    let files = rule.explicit_files();
    let dirs = rule.explicit_dirs();
    let ghost parent = entry@.path;
    let ghost by_file = explicit_file_steps(parent, names_of(files@));
    let ghost by_dir_all = recursive_dir_steps(parent, names_of(dirs@));
    let ghost by_dir = empty_dir_steps(parent, names_of(dirs@));
    let mut i: usize = 0;
    while i < files.len()
        invariant
            i <= files.len(),
            parent == entry@.path,
            by_file == explicit_file_steps(parent, names_of(files@)),
            steps.len() == i,
            forall|t: int| 0 <= t < i ==> (#[trigger] steps[t])@ == by_file[t],
        decreases files.len() - i,
    {
        let path = join(&entry.path, &files[i]);
        steps.push(Step::RemoveFile { path });
        i += 1;
    }
    let mut j: usize = 0;
    while j < dirs.len()
        invariant
            j <= dirs.len(),
            parent == entry@.path,
            by_dir_all == recursive_dir_steps(parent, names_of(dirs@)),
            steps.len() == files.len() + j,
            forall|t: int| 0 <= t < files.len() ==> (#[trigger] steps[t])@ == by_file[t],
            forall|t: int| 0 <= t < j ==> (#[trigger] steps[files.len() + t])@ == by_dir_all[t],
        decreases dirs.len() - j,
    {
        let path = join(&entry.path, &dirs[j]);
        steps.push(Step::RemoveDirAll { path });
        j += 1;
    }
    let mut k: usize = 0;
    while k < dirs.len()
        invariant
            k <= dirs.len(),
            parent == entry@.path,
            by_dir == empty_dir_steps(parent, names_of(dirs@)),
            steps.len() == files.len() + dirs.len() + k,
            forall|t: int| 0 <= t < files.len() ==> (#[trigger] steps[t])@ == by_file[t],
            forall|t: int|
                0 <= t < dirs.len() ==> (#[trigger] steps[files.len() + t])@ == by_dir_all[t],
            forall|t: int|
                0 <= t < k ==> (#[trigger] steps[files.len() + dirs.len() + t])@ == by_dir[t],
        decreases dirs.len() - k,
    {
        let path = join(&entry.path, &dirs[k]);
        steps.push(Step::RemoveDir { path });
        k += 1;
    }
    let ghost named = steps_of(steps@);
    assert(named =~= by_file + by_dir_all + by_dir) by {
        assert forall|t: int| 0 <= t < named.len() implies named[t] == (by_file + by_dir_all
            + by_dir)[t] by {
            if t < files.len() {
                assert(steps[t]@ == by_file[t]);
            } else if t < files.len() + dirs.len() {
                assert(steps[files.len() + (t - files.len())]@ == by_dir_all[t - files.len()]);
            } else {
                let u = t - files.len() - dirs.len();
                assert(steps[files.len() + dirs.len() + u]@ == by_dir[u]);
            }
        }
    }
    if rule.delete_matched_file() && entry.kind == EntryKind::File {
        steps.push(Step::RemoveFile { path: entry.path.clone() });
    }
    if rule.delete_matched_dir() && entry.kind == EntryKind::Directory {
        steps.push(Step::RemoveDirAll { path: entry.path.clone() });
    }
    if rule.delete_all_children_of_dir() {
        steps.push(
            Step::Sweep { path: entry.path.clone(), children: children_of(&entry.path) },
        );
    }
    steps
}

/// What became of one attempted step.
#[derive(Clone, Copy, Debug, PartialEq, Eq, Structural)]
pub enum StepResult {
    /// The target was removed.
    Removed,
    /// Nothing was removed: the target was missing, locked, of the wrong kind,
    /// or, for a sweep, its children could not be listed.
    NotRemoved,
    /// The sweep removed its target, after counting this many files and
    /// directories directly inside it.
    Swept { files: u64, directories: u64 },
}

/// Mathematical model of a [`StepResult`].
pub enum ResultModel {
    Removed,
    NotRemoved,
    Swept { files: nat, directories: nat },
}

impl View for StepResult {
    type V = ResultModel;

    open spec fn view(&self) -> ResultModel {
        match self {
            StepResult::Removed => ResultModel::Removed,
            StepResult::NotRemoved => ResultModel::NotRemoved,
            StepResult::Swept { files, directories } => ResultModel::Swept {
                files: *files as nat,
                directories: *directories as nat,
            },
        }
    }
}

/// Mathematical model of an [`AppliedOutcome`].
pub struct OutcomeModel {
    pub files: nat,
    pub directories: nat,
    pub bytes: nat,
    pub productive: bool,
}

impl OutcomeModel {
    /// The outcome of doing nothing.
    pub open spec fn nothing() -> OutcomeModel {
        OutcomeModel { files: 0, directories: 0, bytes: 0, productive: false }
    }

    /// Whether the three counts fit the machine's counters.
    pub open spec fn fits(self) -> bool {
        self.files <= u64::MAX && self.directories <= u64::MAX && self.bytes <= u64::MAX
    }
}

/// The outcome `before` with one step's result credited to it, for an entry
/// of sampled size `size`.
///
/// A removed file counts as one file, a removed directory as one directory,
/// a sweep as the children it counted; each of them credits the entry's size
/// once more and makes the entry productive. A step that removed nothing, or
/// a result that does not fit the step, credits nothing.
pub open spec fn credited(before: OutcomeModel, step: StepModel, result: ResultModel, size: nat)
    -> OutcomeModel {
    match (step, result) {
        (StepModel::RemoveFile { .. }, ResultModel::Removed) => OutcomeModel {
            files: before.files + 1,
            directories: before.directories,
            bytes: before.bytes + size,
            productive: true,
        },
        (StepModel::RemoveDirAll { .. }, ResultModel::Removed) | (
            StepModel::RemoveDir { .. },
            ResultModel::Removed,
        ) => OutcomeModel {
            files: before.files,
            directories: before.directories + 1,
            bytes: before.bytes + size,
            productive: true,
        },
        (StepModel::Sweep { .. }, ResultModel::Swept { files, directories }) => OutcomeModel {
            files: before.files + files,
            directories: before.directories + directories,
            bytes: before.bytes + size,
            productive: true,
        },
        _ => before,
    }
}

/// What the deletion policy achieved on one entry: how many files and
/// directories were removed, how many bytes that is credited as, and whether
/// anything was removed at all.
#[derive(Clone, Copy, Debug, PartialEq, Eq, Structural)]
pub struct AppliedOutcome {
    pub files: u64,
    pub directories: u64,
    pub bytes: u64,
    pub productive: bool,
}

impl View for AppliedOutcome {
    type V = OutcomeModel;

    open spec fn view(&self) -> OutcomeModel {
        OutcomeModel {
            files: self.files as nat,
            directories: self.directories as nat,
            bytes: self.bytes as nat,
            productive: self.productive,
        }
    }
}

impl AppliedOutcome {
    /// The outcome of an entry on which nothing has been attempted yet.
    pub fn new() -> (outcome: AppliedOutcome)
        ensures
            outcome@ == OutcomeModel::nothing(),
    {
        AppliedOutcome { files: 0, directories: 0, bytes: 0, productive: false }
    }

    /// Whether crediting `result` for `step` keeps every count within the
    /// machine's counters.
    pub fn can_credit(&self, step: &Step, result: StepResult, size: u64) -> (ok: bool)
        ensures
            ok == credited(self@, step@, result@, size as nat).fits(),
    {
        match (step, result) {
            (Step::RemoveFile { .. }, StepResult::Removed) => {
                self.files < u64::MAX && size <= u64::MAX - self.bytes
            },
            (Step::RemoveDirAll { .. }, StepResult::Removed) | (
                Step::RemoveDir { .. },
                StepResult::Removed,
            ) => { self.directories < u64::MAX && size <= u64::MAX - self.bytes },
            (Step::Sweep { .. }, StepResult::Swept { files, directories }) => {
                files <= u64::MAX - self.files && directories <= u64::MAX - self.directories
                    && size <= u64::MAX - self.bytes
            },
            _ => true,
        }
    }

    /// Credits the result of one step to this outcome.
    pub fn credit(&mut self, step: &Step, result: StepResult, size: u64)
        requires
            credited(old(self)@, step@, result@, size as nat).fits(),
        ensures
            final(self)@ == credited(old(self)@, step@, result@, size as nat),
    {
        match (step, result) {
            (Step::RemoveFile { .. }, StepResult::Removed) => {
                self.files = self.files + 1;
                self.bytes = self.bytes + size;
                self.productive = true;
            },
            (Step::RemoveDirAll { .. }, StepResult::Removed) | (
                Step::RemoveDir { .. },
                StepResult::Removed,
            ) => {
                self.directories = self.directories + 1;
                self.bytes = self.bytes + size;
                self.productive = true;
            },
            (Step::Sweep { .. }, StepResult::Swept { files, directories }) => {
                self.files = self.files + files;
                self.directories = self.directories + directories;
                self.bytes = self.bytes + size;
                self.productive = true;
            },
            _ => {},
        }
    }
}

} // verus!
