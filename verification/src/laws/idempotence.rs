//! Idempotence: a second run over what a first run left removes nothing.

use crate::engine::{
    lemma_next_selected, lemma_start_valid, lemma_step_valid, EngineModel, PhaseModel,
};
use crate::entry::EntryModel;
use crate::policy::{plan_of, OutcomeModel, StepModel};
use crate::protocol::{RequestModel, ResponseModel};
use crate::report::ReportModel;
use crate::rule::RuleModel;
use crate::world::{FsModel, Glob, World};
use vstd::prelude::*;

verus! {

/// Whether `step` can no longer remove anything from `fs`, nor from what is
/// left of `fs` after further removals: its target is not there as the kind
/// of thing that the step removes, or, for a sweep, its children cannot be
/// listed.
pub open spec fn settled(glob: Glob, fs: FsModel, step: StepModel) -> bool {
    match step {
        StepModel::RemoveFile { path } => !fs.has_file(path),
        StepModel::RemoveDirAll { path } => !fs.has_dir(path),
        StepModel::RemoveDir { path } => !fs.has_dir(path),
        StepModel::Sweep { path, children } => !(glob.accepts)(children) || !fs.has_dir(path),
    }
}

/// Whether every one of `steps` is settled.
pub open spec fn all_settled(glob: Glob, fs: FsModel, steps: Seq<StepModel>) -> bool {
    forall|k: int| 0 <= k < steps.len() ==> settled(glob, fs, #[trigger] steps[k])
}

/// The entry that resolving `path` on `fs` gives, its size left aside.
pub open spec fn entry_at(fs: FsModel, path: Seq<char>) -> EntryModel {
    EntryModel { path, kind: fs.kind_of(path), size: 0 }
}

/// Whether `rule` has nothing left to remove at `path`: nothing is there, or
/// every step that the policy lays out for what is there is settled.
pub open spec fn path_done(glob: Glob, fs: FsModel, rule: RuleModel, path: Seq<char>) -> bool {
    fs.holds(path) ==> all_settled(glob, fs, plan_of(rule, entry_at(fs, path)))
}

/// Whether `rule` has nothing left to remove anywhere: its pattern is
/// malformed, or it has nothing left to remove at any path that its pattern
/// matches.
pub open spec fn rule_done(glob: Glob, fs: FsModel, rule: RuleModel) -> bool {
    (glob.accepts)(rule.path_pattern) ==> forall|path: Seq<char>| #[trigger]
        (glob.matches)(rule.path_pattern, path) ==> path_done(glob, fs, rule, path)
}

/// The steps that the policy lays out depend on the entry's path and kind
/// alone.
pub proof fn lemma_plan_ignores_size(rule: RuleModel, a: EntryModel, b: EntryModel)
    requires
        a.path == b.path,
        a.kind == b.kind,
    ensures
        plan_of(rule, a) == plan_of(rule, b),
{
}

/// A removal only ever takes things away.
pub proof fn lemma_after_within(fs: FsModel, request: RequestModel)
    ensures
        fs.after(request).within(fs),
{
}

/// What is settled stays settled when things are taken away.
pub proof fn lemma_settled_persists(glob: Glob, fs: FsModel, less: FsModel, step: StepModel)
    requires
        less.within(fs),
        settled(glob, fs, step),
    ensures
        settled(glob, less, step),
{
}

/// A rule that has nothing left to remove at a path still has nothing left
/// to remove there when things are taken away.
pub proof fn lemma_path_done_persists(
    glob: Glob,
    fs: FsModel,
    less: FsModel,
    rule: RuleModel,
    path: Seq<char>,
)
    requires
        less.within(fs),
        path_done(glob, fs, rule, path),
    ensures
        path_done(glob, less, rule, path),
{
    if less.holds(path) {
        let steps = plan_of(rule, entry_at(fs, path));
        assert forall|k: int| 0 <= k < steps.len() implies settled(
            glob,
            less,
            #[trigger] steps[k],
        ) by {
            lemma_settled_persists(glob, fs, less, steps[k]);
        }
    }
}

/// A rule that has nothing left to remove anywhere still has nothing left
/// to remove when things are taken away.
pub proof fn lemma_rule_done_persists(glob: Glob, fs: FsModel, less: FsModel, rule: RuleModel)
    requires
        less.within(fs),
        rule_done(glob, fs, rule),
    ensures
        rule_done(glob, less, rule),
{
    if (glob.accepts)(rule.path_pattern) {
        assert forall|path: Seq<char>| #[trigger]
            (glob.matches)(rule.path_pattern, path) implies path_done(glob, less, rule, path) by {
            lemma_path_done_persists(glob, fs, less, rule, path);
        }
    }
}

/// Every step that deletes an explicit directory if empty comes after one
/// that deletes the same directory with its contents; and a sweep, if there
/// is one, is the last step.
pub proof fn lemma_plan_shape(rule: RuleModel, entry: EntryModel, k: int)
    requires
        0 <= k < plan_of(rule, entry).len(),
    ensures
        plan_of(rule, entry)[k] is RemoveDir ==> {
            let twin = k - rule.explicit_dirs.len();
            &&& 0 <= twin < k
            &&& plan_of(rule, entry)[twin] == (StepModel::RemoveDirAll {
                path: plan_of(rule, entry)[k].target(),
            })
        },
        plan_of(rule, entry)[k] is Sweep ==> k == plan_of(rule, entry).len() - 1,
{
}

/// What holds throughout a run against an honest caller: every selected
/// rule that the engine has left behind has nothing left to remove, and
/// neither has the rule under the cursor at any path that its expansion has
/// yielded, the entry being applied left aside, of whose steps those that
/// are over are settled.
pub open spec fn thorough(glob: Glob, world: World) -> bool {
    let engine = world.engine;
    &&& engine.valid()
    &&& forall|j: int|
        0 <= j < engine.cursor && engine.selected.contains((#[trigger] engine.rules[j]).category)
            ==> rule_done(glob, world.fs, engine.rules[j])
    &&& match engine.phase {
        PhaseModel::Expanding => true,
        PhaseModel::Finished => true,
        PhaseModel::Resolving => {
            &&& (glob.accepts)(engine.rule().path_pattern)
            &&& forall|path: Seq<char>| #[trigger]
                world.seen.contains(path) ==> path_done(glob, world.fs, engine.rule(), path)
        },
        PhaseModel::Applying { entry, done, counted, outcome } => {
            &&& (glob.accepts)(engine.rule().path_pattern)
            &&& forall|path: Seq<char>| #[trigger]
                world.seen.contains(path) && path != entry.path ==> path_done(
                    glob,
                    world.fs,
                    engine.rule(),
                    path,
                )
            &&& world.fs.holds(entry.path) ==> world.fs.kind_of(entry.path) == entry.kind
            &&& forall|k: int|
                0 <= k < done ==> settled(glob, world.fs, #[trigger] engine.steps()[k])
            &&& counted is Some ==> (glob.accepts)(engine.steps()[done as int]->children)
        },
    }
}

/// A run starts thorough.
pub proof fn lemma_start_thorough(
    glob: Glob,
    rules: Seq<RuleModel>,
    selected: Seq<Seq<char>>,
    fs: FsModel,
)
    ensures
        thorough(glob, World::start(EngineModel::start(rules, selected), fs)),
{
    lemma_start_valid(rules, selected);
    lemma_next_selected(rules, selected, 0);
}

/// An honest answer keeps a run thorough.
pub proof fn lemma_step_thorough(glob: Glob, world: World, response: ResponseModel)
    requires
        thorough(glob, world),
        world.honest(glob, response),
    ensures
        thorough(glob, world.step(response)),
{
    let engine = world.engine;
    let next = world.step(response);
    let request = engine.request();
    lemma_step_valid(engine, response);
    lemma_after_within(world.fs, request);
    assert forall|j: int|
        0 <= j < engine.cursor && engine.selected.contains(
            (#[trigger] engine.rules[j]).category,
        ) implies rule_done(glob, next.fs, engine.rules[j]) by {
        lemma_rule_done_persists(glob, world.fs, next.fs, engine.rules[j]);
    }
    match engine.phase {
        PhaseModel::Expanding => {
            if response == ResponseModel::PatternRejected {
                lemma_rule_left_thorough(glob, world, next);
            }
        },
        PhaseModel::Resolving => {
            match response {
                ResponseModel::Entry(entry) => {
                    lemma_plan_ignores_size(engine.rule(), entry, entry_at(world.fs, entry.path));
                },
                ResponseModel::NoMoreEntries => {
                    assert(rule_done(glob, world.fs, engine.rule()));
                    lemma_rule_left_thorough(glob, world, next);
                },
                _ => {},
            }
        },
        PhaseModel::Applying { entry, done, counted, outcome } => {
            let steps = engine.steps();
            lemma_plan_shape(engine.rule(), entry, done as int);
            assert forall|path: Seq<char>| #[trigger]
                world.seen.contains(path) && path != entry.path implies path_done(
                glob,
                next.fs,
                engine.rule(),
                path,
            ) by {
                lemma_path_done_persists(glob, world.fs, next.fs, engine.rule(), path);
            }
            assert forall|k: int| 0 <= k < done implies settled(
                glob,
                next.fs,
                #[trigger] steps[k],
            ) by {
                lemma_settled_persists(glob, world.fs, next.fs, steps[k]);
            }
            if engine.verdict(response) is Some && done + 1 == steps.len() {
                assert(settled(glob, next.fs, steps[done as int]));
                assert forall|path: Seq<char>| #[trigger]
                    next.seen.contains(path) implies path_done(
                    glob,
                    next.fs,
                    engine.rule(),
                    path,
                ) by {
                    if path == entry.path && next.fs.holds(path) {
                        lemma_plan_ignores_size(engine.rule(), entry, entry_at(next.fs, path));
                    }
                }
            }
        },
        PhaseModel::Finished => {},
    }
}

/// Leaving a rule that has nothing left to remove keeps a run thorough.
proof fn lemma_rule_left_thorough(glob: Glob, world: World, next: World)
    requires
        world.engine.valid(),
        world.engine.cursor < world.engine.rules.len(),
        next.engine == world.engine.rule_left(),
        next.engine.valid(),
        forall|j: int|
            0 <= j < world.engine.cursor && world.engine.selected.contains(
                (#[trigger] world.engine.rules[j]).category,
            ) ==> rule_done(glob, next.fs, world.engine.rules[j]),
        rule_done(glob, next.fs, world.engine.rule()),
    ensures
        thorough(glob, next),
{
    let engine = world.engine;
    lemma_next_selected(engine.rules, engine.selected, engine.cursor + 1);
}

/// Honest answers keep a run thorough.
pub proof fn lemma_run_thorough(glob: Glob, world: World, responses: Seq<ResponseModel>)
    requires
        thorough(glob, world),
        world.honest_run(glob, responses),
    ensures
        thorough(glob, world.run(responses)),
        world.run(responses).engine.rules == world.engine.rules,
        world.run(responses).engine.selected == world.engine.selected,
    decreases responses.len(),
{
    if responses.len() > 0 {
        lemma_run_thorough(glob, world, responses.drop_last());
        lemma_step_thorough(glob, world.run(responses.drop_last()), responses.last());
        lemma_step_valid(world.run(responses.drop_last()).engine, responses.last());
    }
}

/// Whether none of the selected rules among `rules` has anything left to
/// remove from `fs`.
pub open spec fn all_done(glob: Glob, fs: FsModel, rules: Seq<RuleModel>, selected: Seq<Seq<char>>)
    -> bool {
    forall|j: int|
        0 <= j < rules.len() && selected.contains((#[trigger] rules[j]).category) ==> rule_done(
            glob,
            fs,
            rules[j],
        )
}

/// What holds throughout a run on a filesystem `fs` from which no selected
/// rule has anything left to remove: the filesystem stays as it is and
/// nothing is counted.
pub open spec fn idle(glob: Glob, fs: FsModel, world: World) -> bool {
    let engine = world.engine;
    &&& engine.valid()
    &&& all_done(glob, fs, engine.rules, engine.selected)
    &&& world.fs == fs
    &&& engine.report == ReportModel::empty()
    &&& engine.pending() == OutcomeModel::nothing()
    &&& match engine.phase {
        PhaseModel::Expanding => true,
        PhaseModel::Finished => true,
        PhaseModel::Resolving => {
            &&& (glob.accepts)(engine.rule().path_pattern)
            &&& world.origin == fs
        },
        PhaseModel::Applying { entry, done, counted, outcome } => {
            &&& (glob.accepts)(engine.rule().path_pattern)
            &&& world.origin == fs
            &&& (glob.matches)(engine.rule().path_pattern, entry.path)
            &&& fs.holds(entry.path)
            &&& entry.kind == fs.kind_of(entry.path)
            &&& counted is Some ==> (glob.accepts)(engine.steps()[done as int]->children)
        },
    }
}

/// An honest answer keeps an idle run idle.
pub proof fn lemma_step_idle(glob: Glob, fs: FsModel, world: World, response: ResponseModel)
    requires
        idle(glob, fs, world),
        world.honest(glob, response),
    ensures
        idle(glob, fs, world.step(response)),
{
    let engine = world.engine;
    lemma_step_valid(engine, response);
    match engine.phase {
        PhaseModel::Applying { entry, done, .. } => {
            lemma_plan_ignores_size(engine.rule(), entry, entry_at(fs, entry.path));
            assert(settled(glob, fs, engine.steps()[done as int]));
        },
        _ => {},
    }
}

/// Honest answers keep an idle run idle.
pub proof fn lemma_run_idle(glob: Glob, fs: FsModel, world: World, responses: Seq<ResponseModel>)
    requires
        idle(glob, fs, world),
        world.honest_run(glob, responses),
    ensures
        idle(glob, fs, world.run(responses)),
    decreases responses.len(),
{
    if responses.len() > 0 {
        lemma_run_idle(glob, fs, world, responses.drop_last());
        lemma_step_idle(glob, fs, world.run(responses.drop_last()), responses.last());
    }
}

/// Idempotence. Let a run over some rules and selected categories go
/// through to its end against an honest caller, and let a second run over
/// the same rules and categories start on the filesystem that the first one
/// left. Then, however far the second run has got, it has removed nothing:
/// the filesystem is as the first run left it, no file, directory or byte
/// has been counted, and no owner is listed as cleared.
pub proof fn lemma_second_run_removes_nothing(
    glob: Glob,
    rules: Seq<RuleModel>,
    selected: Seq<Seq<char>>,
    fs: FsModel,
    first: Seq<ResponseModel>,
    second: Seq<ResponseModel>,
)
    requires
        World::start(EngineModel::start(rules, selected), fs).honest_run(glob, first),
        World::start(EngineModel::start(rules, selected), fs).run(first).engine.phase is Finished,
        World::start(
            EngineModel::start(rules, selected),
            World::start(EngineModel::start(rules, selected), fs).run(first).fs,
        ).honest_run(glob, second),
    ensures
        ({
            let left = World::start(EngineModel::start(rules, selected), fs).run(first).fs;
            let end = World::start(EngineModel::start(rules, selected), left).run(second);
            &&& end.fs == left
            &&& end.engine.report == ReportModel::empty()
            &&& end.engine.pending() == OutcomeModel::nothing()
        }),
{
    let engine = EngineModel::start(rules, selected);
    let once = World::start(engine, fs).run(first);
    lemma_start_thorough(glob, rules, selected, fs);
    lemma_run_thorough(glob, World::start(engine, fs), first);
    assert(all_done(glob, once.fs, rules, selected));
    lemma_start_valid(rules, selected);
    lemma_run_idle(glob, once.fs, World::start(engine, once.fs), second);
}

} // verus!
