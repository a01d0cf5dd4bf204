//! What has become of an entry once its steps are over: a matched file that
//! its rule deletes, and a directory that its rule sweeps.

use crate::engine::lemma_step_valid;
use crate::entry::{EntryKind, EntryModel};
use crate::policy::{
    child_path, children_pattern, credited, plan_of, OutcomeModel, StepModel, SEPARATOR,
};
use crate::protocol::{count_of, Probe, RequestModel, ResponseModel};
use crate::report::{lemma_recorded_grows, recorded};
use crate::rule::RuleModel;
use crate::world::{inside, lemma_run_unfolds, FsModel, Glob, World};
use vstd::prelude::*;

verus! {

/// Whether `probes` is what listing `pattern` on `fs` gives when every path
/// can be read: `paths` are the paths that the pattern matches, each once,
/// and each probe shows the kind of the path in its place.
pub open spec fn lists(
    glob: Glob,
    fs: FsModel,
    pattern: Seq<char>,
    paths: Seq<Seq<char>>,
    probes: Seq<Probe>,
) -> bool {
    &&& paths.no_duplicates()
    &&& forall|path: Seq<char>|
        paths.contains(path) <==> (glob.matches)(pattern, path) && fs.holds(path)
    &&& probes.len() == paths.len()
    &&& forall|i: int|
        0 <= i < paths.len() ==> #[trigger] probes[i] == Probe::Found(fs.kind_of(paths[i]))
}

/// The paths on `fs` that `pattern` matches and that are of kind `kind`.
pub open spec fn matched(glob: Glob, fs: FsModel, pattern: Seq<char>, kind: EntryKind) -> Set<
    Seq<char>,
> {
    Set::new(
        |path: Seq<char>|
            (glob.matches)(pattern, path) && fs.holds(path) && fs.kind_of(path) == kind,
    )
}

/// The paths among `paths` that are of kind `kind` on `fs`.
spec fn of_kind(fs: FsModel, paths: Seq<Seq<char>>, kind: EntryKind) -> Set<Seq<char>> {
    Set::new(|path: Seq<char>| paths.contains(path) && fs.kind_of(path) == kind)
}

/// Probes of paths that are all different count, for each kind, the paths of
/// that kind.
proof fn lemma_probes_count(
    fs: FsModel,
    paths: Seq<Seq<char>>,
    probes: Seq<Probe>,
    kind: EntryKind,
)
    requires
        paths.no_duplicates(),
        probes.len() == paths.len(),
        forall|i: int|
            0 <= i < paths.len() ==> #[trigger] probes[i] == Probe::Found(fs.kind_of(paths[i])),
    ensures
        of_kind(fs, paths, kind).finite(),
        count_of(probes, kind) == of_kind(fs, paths, kind).len(),
    decreases paths.len(),
{
    if paths.len() == 0 {
        assert(of_kind(fs, paths, kind) =~= Set::<Seq<char>>::empty());
    } else {
        let init = paths.drop_last();
        let last = paths.last();
        lemma_probes_count(fs, init, probes.drop_last(), kind);
        assert(!init.contains(last));
        assert forall|path: Seq<char>| paths.contains(path) <==> (init.contains(path) || path
            == last) by {
            if paths.contains(path) {
                let i = choose|i: int| 0 <= i < paths.len() && paths[i] == path;
                if i < init.len() {
                    assert(init[i] == path);
                }
            }
        }
        if fs.kind_of(last) == kind {
            assert(of_kind(fs, paths, kind) =~= of_kind(fs, init, kind).insert(last));
        } else {
            assert(of_kind(fs, paths, kind) =~= of_kind(fs, init, kind));
        }
    }
}

/// A listing counts what is there: where every path can be read, the
/// children counted as of one kind are as many as the paths of that kind
/// that the pattern matches.
pub proof fn lemma_listing_counts(
    glob: Glob,
    fs: FsModel,
    pattern: Seq<char>,
    paths: Seq<Seq<char>>,
    probes: Seq<Probe>,
    kind: EntryKind,
)
    requires
        lists(glob, fs, pattern, paths, probes),
    ensures
        matched(glob, fs, pattern, kind).finite(),
        count_of(probes, kind) == matched(glob, fs, pattern, kind).len(),
{
    lemma_probes_count(fs, paths, probes, kind);
    assert(matched(glob, fs, pattern, kind) =~= of_kind(fs, paths, kind));
}

/// A swept directory is gone and its children are what is counted. Let a
/// rule do nothing but sweep, and let its expansion yield a directory whose
/// children can be listed. Then, against an honest caller, three answers
/// deal with the entry: the entry itself, the listing of its children, and
/// the removal, which succeeds. After them the directory and everything in
/// it is gone, and what is recorded for the rule's owner is the files and
/// the directories that the listing counted, the size of the entry once,
/// and that the entry was productive.
///
/// Where every child could be read, those counts are the numbers of files
/// and of directories that the pattern for the children matches: see
/// [`lemma_listing_counts`].
pub proof fn lemma_swept_directory_is_gone(
    glob: Glob,
    world: World,
    entry: EntryModel,
    probes: Seq<Probe>,
    responses: Seq<ResponseModel>,
)
    requires
        world.engine.valid(),
        world.engine.phase is Resolving,
        world.engine.rule().delete_all_children_of_dir,
        !world.engine.rule().delete_matched_dir,
        world.engine.rule().explicit_files.len() == 0,
        world.engine.rule().explicit_dirs.len() == 0,
        entry.kind == EntryKind::Directory,
        (glob.accepts)(children_pattern(entry.path)),
        responses.len() == 3,
        responses[0] == ResponseModel::Entry(entry),
        responses[1] == ResponseModel::Children(probes),
        world.honest_run(glob, responses),
    ensures
        responses[2] == ResponseModel::Removed,
        world.run(responses).engine.phase is Resolving,
        world.run(responses).engine.cursor == world.engine.cursor,
        !world.run(responses).fs.holds(entry.path),
        forall|path: Seq<char>| inside(path, entry.path) ==> !world.run(responses).fs.holds(path),
        world.run(responses).engine.report == recorded(
            world.engine.report,
            world.engine.rule().owner_label,
            OutcomeModel {
                files: count_of(probes, EntryKind::File),
                directories: count_of(probes, EntryKind::Directory),
                bytes: entry.size,
                productive: true,
            },
        ),
{
    let rule = world.engine.rule();
    let steps = plan_of(rule, entry);
    assert(steps =~= seq![
        StepModel::Sweep { path: entry.path, children: children_pattern(entry.path) },
    ]);
    lemma_run_unfolds(glob, world, responses, 0);
    lemma_run_unfolds(glob, world, responses, 1);
    lemma_run_unfolds(glob, world, responses, 2);
}

/// The steps for a file that its rule deletes: those before the deletion
/// of the file itself aim inside it and are no sweeps, and a step after it
/// can only be a sweep of the same path.
proof fn lemma_plan_for_file(rule: RuleModel, entry: EntryModel, k: int)
    requires
        rule.delete_matched_file,
        entry.kind == EntryKind::File,
        0 <= k < plan_of(rule, entry).len(),
    ensures
        ({
            let own = rule.explicit_files.len() + 2 * rule.explicit_dirs.len();
            let step = plan_of(rule, entry)[k];
            &&& own < plan_of(rule, entry).len()
            &&& k < own ==> !(step is Sweep) && inside(step.target(), entry.path)
            &&& k == own ==> step == StepModel::RemoveFile { path: entry.path }
            &&& k > own ==> step is Sweep && step.target() == entry.path
        }),
{
    assert forall|name: Seq<char>| inside(#[trigger] child_path(entry.path, name), entry.path) by {
        assert((entry.path + seq![SEPARATOR]).is_prefix_of(child_path(entry.path, name)));
    }
}

/// What holds while the steps for a file that its rule deletes are worked
/// through on a tree-shaped filesystem `fs`: until the file itself is
/// deleted nothing has changed and nothing is counted, and from then on the
/// file is all that is gone and all that is counted.
spec fn deleting_file(before: World, entry: EntryModel, now: World) -> bool {
    let own = before.engine.rule().explicit_files.len() + 2
        * before.engine.rule().explicit_dirs.len();
    &&& now.engine.valid()
    &&& now.engine.rules == before.engine.rules
    &&& now.engine.selected == before.engine.selected
    &&& now.engine.cursor == before.engine.cursor
    &&& now.engine.report == before.engine.report
    &&& now.engine.phase is Applying
    &&& now.engine.phase->entry == entry
    &&& if now.engine.phase->done <= own {
        &&& now.fs == before.fs
        &&& now.engine.phase->outcome == OutcomeModel::nothing()
    } else {
        &&& now.fs == before.fs.after(RequestModel::RemoveFile { path: entry.path })
        &&& now.engine.phase->outcome == OutcomeModel {
            files: 1,
            directories: 0,
            bytes: entry.size,
            productive: true,
        }
    }
}

/// One honest answer while the steps for a file that its rule deletes are
/// worked through: either the steps go on, or they are over, in which case
/// the file is all that is gone and one file is what is recorded.
proof fn lemma_deleting_file_step(
    glob: Glob,
    before: World,
    entry: EntryModel,
    now: World,
    response: ResponseModel,
)
    requires
        before.engine.valid(),
        before.engine.rule().delete_matched_file,
        before.fs.tree_shaped(),
        before.fs.kind_of(entry.path) == EntryKind::File,
        entry.kind == EntryKind::File,
        deleting_file(before, entry, now),
        now.honest(glob, response),
    ensures
        now.step(response).engine.phase is Applying || now.step(response).engine.phase is Resolving,
        now.step(response).engine.phase is Applying ==> deleting_file(
            before,
            entry,
            now.step(response),
        ),
        now.step(response).engine.phase is Resolving ==> {
            &&& now.step(response).fs == before.fs.after(
                RequestModel::RemoveFile { path: entry.path },
            )
            &&& now.step(response).engine.cursor == before.engine.cursor
            &&& now.step(response).engine.report == recorded(
                before.engine.report,
                before.engine.rule().owner_label,
                OutcomeModel { files: 1, directories: 0, bytes: entry.size, productive: true },
            )
        },
{
    let done = now.engine.phase->done as int;
    let step = now.engine.steps()[done];
    lemma_plan_for_file(before.engine.rule(), entry, done);
    lemma_step_valid(now.engine, response);
    let own = before.engine.rule().explicit_files.len() + 2
        * before.engine.rule().explicit_dirs.len();
    if done < own {
        assert(!before.fs.holds(step.target()));
    }
}

/// Honest answers while the steps for a file that its rule deletes are
/// worked through.
proof fn lemma_deleting_file_run(
    glob: Glob,
    before: World,
    entry: EntryModel,
    responses: Seq<ResponseModel>,
    n: int,
)
    requires
        before.engine.valid(),
        before.engine.phase is Resolving,
        before.engine.rule().delete_matched_file,
        before.fs.tree_shaped(),
        entry.kind == EntryKind::File,
        responses.len() >= 1,
        responses[0] == ResponseModel::Entry(entry),
        before.honest_run(glob, responses),
        forall|m: int|
            1 <= m < responses.len() ==> (#[trigger] before.run(
                responses.take(m),
            )).engine.phase is Applying,
        1 <= n < responses.len(),
    ensures
        before.fs.kind_of(entry.path) == EntryKind::File,
        deleting_file(before, entry, before.run(responses.take(n))),
    decreases n,
{
    lemma_run_unfolds(glob, before, responses, 0);
    lemma_plan_for_file(before.engine.rule(), entry, 0);
    if n > 1 {
        lemma_deleting_file_run(glob, before, entry, responses, n - 1);
        lemma_run_unfolds(glob, before, responses, n - 1);
        lemma_deleting_file_step(
            glob,
            before,
            entry,
            before.run(responses.take(n - 1)),
            responses[n - 1],
        );
    }
}

/// A matched file that its rule deletes is gone and counts as one file. Let
/// a rule delete matched files, and let its expansion yield a file on a
/// tree-shaped filesystem. Then, once an honest caller's answers have taken
/// the engine through the steps for that entry, the file is no longer
/// there, nothing else has gone, and what is recorded for the rule's owner
/// is exactly one file, no directory, the size of the entry once, and that
/// the entry was productive.
pub proof fn lemma_matched_file_is_gone(
    glob: Glob,
    world: World,
    entry: EntryModel,
    responses: Seq<ResponseModel>,
)
    requires
        world.engine.valid(),
        world.engine.phase is Resolving,
        world.engine.rule().delete_matched_file,
        world.fs.tree_shaped(),
        entry.kind == EntryKind::File,
        responses.len() >= 1,
        responses[0] == ResponseModel::Entry(entry),
        world.honest_run(glob, responses),
        forall|m: int|
            1 <= m < responses.len() ==> (#[trigger] world.run(
                responses.take(m),
            )).engine.phase is Applying,
        world.run(responses).engine.phase is Resolving,
    ensures
        !world.run(responses).fs.holds(entry.path),
        world.run(responses).fs == world.fs.after(RequestModel::RemoveFile { path: entry.path }),
        world.run(responses).engine.cursor == world.engine.cursor,
        world.run(responses).engine.report == recorded(
            world.engine.report,
            world.engine.rule().owner_label,
            OutcomeModel { files: 1, directories: 0, bytes: entry.size, productive: true },
        ),
        world.run(responses).engine.report.files_removed == world.engine.report.files_removed + 1,
{
    let last = responses.len() - 1;
    lemma_run_unfolds(glob, world, responses, last);
    lemma_plan_for_file(world.engine.rule(), entry, 0);
    if last > 0 {
        lemma_deleting_file_run(glob, world, entry, responses, last);
        lemma_deleting_file_step(
            glob,
            world,
            entry,
            world.run(responses.take(last)),
            responses[last],
        );
    }
}

/// The steps for a directory that its rule sweeps: each aims inside the
/// directory, or deletes the directory with its contents, or is the sweep,
/// which is the last of them.
proof fn lemma_plan_for_swept(rule: RuleModel, entry: EntryModel, k: int)
    requires
        rule.delete_all_children_of_dir,
        entry.kind == EntryKind::Directory,
        0 <= k < plan_of(rule, entry).len(),
    ensures
        ({
            let steps = plan_of(rule, entry);
            let sweep = StepModel::Sweep {
                path: entry.path,
                children: children_pattern(entry.path),
            };
            &&& steps[steps.len() - 1] == sweep
            &&& k < steps.len() - 1 ==> !(steps[k] is Sweep)
            &&& k < steps.len() - 1 ==> inside(steps[k].target(), entry.path) || steps[k]
                == StepModel::RemoveDirAll { path: entry.path }
        }),
{
    assert forall|name: Seq<char>| inside(#[trigger] child_path(entry.path, name), entry.path) by {
        assert((entry.path + seq![SEPARATOR]).is_prefix_of(child_path(entry.path, name)));
    }
}

/// What holds while the steps for a directory that its rule sweeps are
/// worked through: nothing has come to the disk, and the directory is still
/// there, or it is gone with everything in it and its removal has been
/// credited.
spec fn sweeping(before: World, entry: EntryModel, now: World) -> bool {
    &&& now.engine.valid()
    &&& now.engine.rules == before.engine.rules
    &&& now.engine.selected == before.engine.selected
    &&& now.engine.cursor == before.engine.cursor
    &&& now.engine.report == before.engine.report
    &&& now.engine.phase is Applying
    &&& now.engine.phase->entry == entry
    &&& now.fs.within(before.fs)
    &&& now.fs.has_dir(entry.path) || {
        &&& !now.fs.holds(entry.path)
        &&& forall|path: Seq<char>| inside(path, entry.path) ==> !now.fs.holds(path)
        &&& now.engine.phase->outcome.productive
    }
}

/// One honest answer while the steps for a directory that its rule sweeps
/// are worked through: either the steps go on, or they are over, in which
/// case the directory is gone with everything in it and its owner is listed
/// as cleared.
proof fn lemma_sweeping_step(
    glob: Glob,
    before: World,
    entry: EntryModel,
    now: World,
    response: ResponseModel,
)
    requires
        before.engine.valid(),
        before.engine.rule().delete_all_children_of_dir,
        entry.kind == EntryKind::Directory,
        (glob.accepts)(children_pattern(entry.path)),
        sweeping(before, entry, now),
        now.honest(glob, response),
    ensures
        now.step(response).engine.phase is Applying || now.step(response).engine.phase is Resolving,
        now.step(response).engine.phase is Applying ==> sweeping(
            before,
            entry,
            now.step(response),
        ),
        now.step(response).engine.phase is Resolving ==> {
            &&& now.step(response).fs.within(before.fs)
            &&& !now.step(response).fs.holds(entry.path)
            &&& forall|path: Seq<char>|
                inside(path, entry.path) ==> !now.step(response).fs.holds(path)
            &&& now.step(response).engine.cursor == before.engine.cursor
            &&& now.step(response).engine.report.cleared_owners().contains(
                before.engine.rule().owner_label,
            )
        },
{
    let done = now.engine.phase->done as int;
    let step = now.engine.steps()[done];
    let next = now.step(response);
    lemma_plan_for_swept(before.engine.rule(), entry, done);
    lemma_step_valid(now.engine, response);
    assert(next.fs.within(before.fs)) by {
        assert forall|path: Seq<char>| #[trigger] next.fs.holds(path) implies before.fs.holds(path)
            && before.fs.nodes[path] == next.fs.nodes[path] by {
            assert(now.fs.holds(path));
        }
    }
    if next.engine.phase is Resolving {
        let outcome = credited(
            now.engine.phase->outcome,
            step,
            now.engine.verdict(response)->0,
            entry.size,
        );
        lemma_recorded_grows(before.engine.report, before.engine.rule().owner_label, outcome);
    }
}

/// Honest answers while the steps for a directory that its rule sweeps are
/// worked through.
proof fn lemma_sweeping_run(
    glob: Glob,
    before: World,
    entry: EntryModel,
    responses: Seq<ResponseModel>,
    n: int,
)
    requires
        before.engine.valid(),
        before.engine.phase is Resolving,
        before.engine.rule().delete_all_children_of_dir,
        entry.kind == EntryKind::Directory,
        (glob.accepts)(children_pattern(entry.path)),
        responses.len() >= 1,
        responses[0] == ResponseModel::Entry(entry),
        before.honest_run(glob, responses),
        forall|m: int|
            1 <= m < responses.len() ==> (#[trigger] before.run(
                responses.take(m),
            )).engine.phase is Applying,
        1 <= n < responses.len(),
    ensures
        sweeping(before, entry, before.run(responses.take(n))),
    decreases n,
{
    lemma_run_unfolds(glob, before, responses, 0);
    lemma_plan_for_swept(before.engine.rule(), entry, 0);
    if n > 1 {
        lemma_sweeping_run(glob, before, entry, responses, n - 1);
        lemma_run_unfolds(glob, before, responses, n - 1);
        lemma_sweeping_step(
            glob,
            before,
            entry,
            before.run(responses.take(n - 1)),
            responses[n - 1],
        );
    }
}

/// A swept directory is gone, whatever else its rule does. Let a rule
/// sweep, and let its expansion yield a directory whose children can be
/// listed. Then, once an honest caller's answers have taken the engine
/// through the steps for that entry, the directory and everything in it is
/// gone, nothing has come to the disk, and the rule's owner is listed as
/// cleared.
pub proof fn lemma_swept_entry_is_gone(
    glob: Glob,
    world: World,
    entry: EntryModel,
    responses: Seq<ResponseModel>,
)
    requires
        world.engine.valid(),
        world.engine.phase is Resolving,
        world.engine.rule().delete_all_children_of_dir,
        entry.kind == EntryKind::Directory,
        (glob.accepts)(children_pattern(entry.path)),
        responses.len() >= 1,
        responses[0] == ResponseModel::Entry(entry),
        world.honest_run(glob, responses),
        forall|m: int|
            1 <= m < responses.len() ==> (#[trigger] world.run(
                responses.take(m),
            )).engine.phase is Applying,
        world.run(responses).engine.phase is Resolving,
    ensures
        !world.run(responses).fs.holds(entry.path),
        forall|path: Seq<char>| inside(path, entry.path) ==> !world.run(responses).fs.holds(path),
        world.run(responses).fs.within(world.fs),
        world.run(responses).engine.cursor == world.engine.cursor,
        world.run(responses).engine.report.cleared_owners().contains(
            world.engine.rule().owner_label,
        ),
{
    let last = responses.len() - 1;
    lemma_run_unfolds(glob, world, responses, last);
    lemma_plan_for_swept(world.engine.rule(), entry, 0);
    if last > 0 {
        lemma_sweeping_run(glob, world, entry, responses, last);
        lemma_sweeping_step(
            glob,
            world,
            entry,
            world.run(responses.take(last)),
            responses[last],
        );
    }
}

} // verus!
