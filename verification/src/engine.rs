//! The engine: one linear pass over the rules of the selected categories,
//! over the entries that each rule's pattern yields, and over the steps that
//! the deletion policy lays out for each entry.
//!
//! The engine never touches the disk. It hands out one request at a time and
//! takes the answer in; between the two it holds all the state of the run.

use crate::entry::{EntryKind, EntryModel, ResolvedEntry};
use crate::policy::{
    credited, plan, plan_of, steps_of, AppliedOutcome, OutcomeModel, ResultModel, Step, StepModel,
    StepResult,
};
use crate::protocol::{count, count_of, Probe, Request, RequestModel, Response, ResponseModel};
use crate::report::{recorded, CleanupReport, ReportModel};
use crate::rule::{names_of, CleanupRule, RuleModel};
use vstd::prelude::*;

verus! {

/// The models of the rules of `rules`, in order.
pub open spec fn rules_of(rules: Seq<CleanupRule>) -> Seq<RuleModel> {
    rules.map_values(|rule: CleanupRule| rule@)
}

/// The index of the first rule at or after `from` whose category is among
/// `selected`, or the number of rules if there is none.
pub open spec fn next_selected(rules: Seq<RuleModel>, selected: Seq<Seq<char>>, from: nat) -> nat
    decreases rules.len() - from,
{
    if from >= rules.len() {
        rules.len()
    } else if selected.contains(rules[from as int].category) {
        from
    } else {
        next_selected(rules, selected, from + 1)
    }
}

/// Where the engine stands within the rule under its cursor.
pub enum PhaseModel {
    /// The rule's pattern has been handed out for expansion.
    Expanding,
    /// The next entry of the expansion has been asked for.
    Resolving,
    /// The steps for `entry` are being worked through: `done` of them are
    /// over and have given `outcome`. `counted` holds the files and
    /// directories counted for the sweep whose removal is being awaited.
    Applying {
        entry: EntryModel,
        done: nat,
        counted: Option<(nat, nat)>,
        outcome: OutcomeModel,
    },
    /// Every rule has been dealt with.
    Finished,
}

/// Mathematical model of an [`Engine`].
pub struct EngineModel {
    pub rules: Seq<RuleModel>,
    pub selected: Seq<Seq<char>>,
    /// Index of the rule being worked on; the number of rules once finished.
    pub cursor: nat,
    pub phase: PhaseModel,
    pub report: ReportModel,
}

impl EngineModel {
    /// The engine as it stands when the rules before `from` are behind it
    /// and `report` is what they gave: at the next selected rule, about to
    /// expand its pattern, or finished if no selected rule is left.
    pub open spec fn at_next_rule(
        rules: Seq<RuleModel>,
        selected: Seq<Seq<char>>,
        from: nat,
        report: ReportModel,
    ) -> EngineModel {
        let cursor = next_selected(rules, selected, from);
        EngineModel {
            rules,
            selected,
            cursor,
            phase: if cursor < rules.len() {
                PhaseModel::Expanding
            } else {
                PhaseModel::Finished
            },
            report,
        }
    }

    /// The engine at the start of a run.
    pub open spec fn start(rules: Seq<RuleModel>, selected: Seq<Seq<char>>) -> EngineModel {
        Self::at_next_rule(rules, selected, 0, ReportModel::empty())
    }

    /// The rule under the cursor.
    pub open spec fn rule(self) -> RuleModel
        recommends
            self.cursor < self.rules.len(),
    {
        self.rules[self.cursor as int]
    }

    /// The steps laid out for the entry being applied.
    pub open spec fn steps(self) -> Seq<StepModel>
        recommends
            self.phase is Applying,
    {
        plan_of(self.rule(), self.phase->entry)
    }

    /// The outcome gathered for the entry being applied and not yet
    /// recorded.
    pub open spec fn pending(self) -> OutcomeModel {
        match self.phase {
            PhaseModel::Applying { outcome, .. } => outcome,
            _ => OutcomeModel::nothing(),
        }
    }

    /// The invariant of every engine: the cursor is within the rules and on
    /// a selected one until the run is finished, the step being awaited is
    /// one of the entry's, counts are only held for a sweep, and the report
    /// lists no owner twice.
    pub open spec fn valid(self) -> bool {
        &&& self.cursor <= self.rules.len()
        &&& self.phase is Finished <==> self.cursor == self.rules.len()
        &&& self.cursor < self.rules.len() ==> self.selected.contains(self.rule().category)
        &&& self.report.valid()
        &&& match self.phase {
            PhaseModel::Applying { entry, done, counted, outcome } => {
                &&& done < self.steps().len()
                &&& counted is Some ==> self.steps()[done as int] is Sweep
            },
            _ => true,
        }
    }

    /// Whether what has been counted so far, recorded or pending, fits the
    /// machine's counters.
    pub open spec fn in_range(self) -> bool {
        self.report.has_room_for(self.pending())
    }

    /// The files counted as removed so far, recorded or pending.
    pub open spec fn files_so_far(self) -> nat {
        self.report.files_removed + self.pending().files
    }

    /// The directories counted as removed so far, recorded or pending.
    pub open spec fn directories_so_far(self) -> nat {
        self.report.directories_removed + self.pending().directories
    }

    /// The bytes credited as freed so far, recorded or pending.
    pub open spec fn bytes_so_far(self) -> nat {
        self.report.bytes_freed + self.pending().bytes
    }

    /// What the engine asks of its caller in this state.
    pub open spec fn request(self) -> RequestModel {
        match self.phase {
            PhaseModel::Expanding => RequestModel::Expand { pattern: self.rule().path_pattern },
            PhaseModel::Resolving => RequestModel::NextEntry,
            PhaseModel::Applying { done, counted, .. } => match self.steps()[done as int] {
                StepModel::RemoveFile { path } => RequestModel::RemoveFile { path },
                StepModel::RemoveDirAll { path } => RequestModel::RemoveDirAll { path },
                StepModel::RemoveDir { path } => RequestModel::RemoveDir { path },
                StepModel::Sweep { path, children } => if counted is Some {
                    RequestModel::RemoveDirAll { path }
                } else {
                    RequestModel::ListChildren { pattern: children }
                },
            },
            PhaseModel::Finished => RequestModel::Finished,
        }
    }

    /// The engine with the rule under the cursor left behind.
    pub open spec fn rule_left(self) -> EngineModel {
        Self::at_next_rule(self.rules, self.selected, self.cursor + 1, self.report)
    }

    /// The engine after `entry` has been yielded for the rule under the
    /// cursor: applying the entry's first step, or, where the policy lays
    /// out no step for it, waiting for the next entry, the report unchanged.
    pub open spec fn entry_taken(self, entry: EntryModel) -> EngineModel {
        if plan_of(self.rule(), entry).len() == 0 {
            EngineModel { phase: PhaseModel::Resolving, ..self }
        } else {
            EngineModel {
                phase: PhaseModel::Applying {
                    entry,
                    done: 0,
                    counted: None,
                    outcome: OutcomeModel::nothing(),
                },
                ..self
            }
        }
    }

    /// The engine after the step being awaited has ended with `result`: the
    /// result is credited to the entry's outcome; then the next step is up,
    /// or, after the last one, the outcome is recorded under the rule's
    /// owner and the next entry is asked for.
    pub open spec fn step_over(self, result: ResultModel) -> EngineModel
        recommends
            self.phase is Applying,
    {
        let entry = self.phase->entry;
        let done = self.phase->done;
        let outcome = credited(self.phase->outcome, self.steps()[done as int], result, entry.size);
        if done + 1 < self.steps().len() {
            EngineModel {
                phase: PhaseModel::Applying { entry, done: done + 1, counted: None, outcome },
                ..self
            }
        } else {
            EngineModel {
                phase: PhaseModel::Resolving,
                report: recorded(self.report, self.rule().owner_label, outcome),
                ..self
            }
        }
    }

    /// The result with which `response` ends the step being awaited, if it
    /// ends it.
    ///
    /// A removal that is not part of a sweep ends with the answer given. A
    /// sweep ends with nothing removed when the listing of its children is
    /// rejected or when the removal of the whole entry fails, and as swept,
    /// with the counts of the listing, when that removal succeeds.
    pub open spec fn verdict(self, response: ResponseModel) -> Option<ResultModel>
        recommends
            self.phase is Applying,
    {
        if self.steps()[self.phase->done as int] is Sweep {
            match (self.phase->counted, response) {
                (None, ResponseModel::PatternRejected) => Some(ResultModel::NotRemoved),
                (Some(n), ResponseModel::Removed) => Some(
                    ResultModel::Swept { files: n.0, directories: n.1 },
                ),
                (Some(_), ResponseModel::NotRemoved) => Some(ResultModel::NotRemoved),
                _ => None,
            }
        } else {
            match response {
                ResponseModel::Removed => Some(ResultModel::Removed),
                ResponseModel::NotRemoved => Some(ResultModel::NotRemoved),
                _ => None,
            }
        }
    }

    /// The engine after the children of the sweep being awaited have been
    /// listed: the files and the directories among them are counted, and the
    /// removal of the whole entry is up next.
    pub open spec fn children_counted(self, probes: Seq<Probe>) -> EngineModel
        recommends
            self.phase is Applying,
    {
        EngineModel {
            phase: PhaseModel::Applying {
                entry: self.phase->entry,
                done: self.phase->done,
                counted: Some(
                    (count_of(probes, EntryKind::File), count_of(probes, EntryKind::Directory)),
                ),
                outcome: self.phase->outcome,
            },
            ..self
        }
    }

    /// The engine after its caller has answered `response` to the request of
    /// this state. An answer that does not fit the request changes nothing.
    ///
    /// - A rejected pattern ends the rule; an accepted one starts the
    ///   resolution of its entries.
    /// - An entry is taken up; an unreadable one is passed over; the end of
    ///   the expansion ends the rule.
    /// - An answer that ends the step being awaited moves the engine past
    ///   that step; the listing of a sweep's children is counted.
    pub open spec fn step(self, response: ResponseModel) -> EngineModel {
        match self.phase {
            PhaseModel::Expanding => match response {
                ResponseModel::PatternAccepted => EngineModel {
                    phase: PhaseModel::Resolving,
                    ..self
                },
                ResponseModel::PatternRejected => self.rule_left(),
                _ => self,
            },
            PhaseModel::Resolving => match response {
                ResponseModel::Entry(entry) => self.entry_taken(entry),
                ResponseModel::NoMoreEntries => self.rule_left(),
                _ => self,
            },
            PhaseModel::Applying { done, counted, .. } => match self.verdict(response) {
                Some(result) => self.step_over(result),
                None => match response {
                    ResponseModel::Children(probes) if counted is None && self.steps()[done
                        as int] is Sweep => self.children_counted(probes),
                    _ => self,
                },
            },
            PhaseModel::Finished => self,
        }
    }

    /// The engine after its caller has answered `responses`, one after the
    /// other.
    pub open spec fn run(self, responses: Seq<ResponseModel>) -> EngineModel
        decreases responses.len(),
    {
        if responses.len() == 0 {
            self
        } else {
            self.run(responses.drop_last()).step(responses.last())
        }
    }

    /// The index of the rule on whose behalf the request of this state is
    /// made: the pattern handed out for expansion is that rule's, the
    /// entries asked for are those of its expansion, and the removals and
    /// listings are the steps laid out for it. A finished engine works on no
    /// rule.
    pub open spec fn working_on(self) -> Option<nat> {
        if self.phase is Finished {
            None
        } else {
            Some(self.cursor)
        }
    }
}

/// The index after `from` of a selected rule lies within the rules, on a
/// selected rule unless it is the number of rules, and past unselected rules
/// only.
pub proof fn lemma_next_selected(rules: Seq<RuleModel>, selected: Seq<Seq<char>>, from: nat)
    requires
        from <= rules.len(),
    ensures
        from <= next_selected(rules, selected, from) <= rules.len(),
        next_selected(rules, selected, from) < rules.len() ==> selected.contains(
            rules[next_selected(rules, selected, from) as int].category,
        ),
        forall|i: int|
            from <= i < next_selected(rules, selected, from) ==> !selected.contains(
                (#[trigger] rules[i]).category,
            ),
    decreases rules.len() - from,
{
    if from < rules.len() && !selected.contains(rules[from as int].category) {
        lemma_next_selected(rules, selected, from + 1);
    }
}

/// A run starts in a valid state with nothing counted.
pub proof fn lemma_start_valid(rules: Seq<RuleModel>, selected: Seq<Seq<char>>)
    ensures
        EngineModel::start(rules, selected).valid(),
        EngineModel::start(rules, selected).in_range(),
        EngineModel::start(rules, selected).report == ReportModel::empty(),
{
    lemma_next_selected(rules, selected, 0);
}

/// Whatever the caller answers, the counts of the report never go down and
/// no owner leaves it.
pub proof fn lemma_step_grows(engine: EngineModel, response: ResponseModel)
    requires
        engine.valid(),
    ensures
        engine.step(response).report.bytes_freed >= engine.report.bytes_freed,
        engine.step(response).report.files_removed >= engine.report.files_removed,
        engine.step(response).report.directories_removed >= engine.report.directories_removed,
        engine.report.cleared_owners().subset_of(engine.step(response).report.cleared_owners()),
{
    if engine.phase is Applying {
        if let Some(result) = engine.verdict(response) {
            let outcome = credited(
                engine.phase->outcome,
                engine.steps()[engine.phase->done as int],
                result,
                engine.phase->entry.size,
            );
            crate::report::lemma_recorded_grows(engine.report, engine.rule().owner_label, outcome);
        }
    }
}

/// What an answer adds to the counts. A removal reported as done counts as
/// one file if a file was to be deleted, as one directory if a directory
/// was, with or without its contents, and as the children that the listing
/// counted if it ends a sweep; and it credits the size of the entry being
/// applied once. No other answer counts for anything.
pub proof fn lemma_step_counts(engine: EngineModel, response: ResponseModel)
    requires
        engine.valid(),
    ensures
        ({
            let next = engine.step(response);
            let removed = engine.phase is Applying && response == ResponseModel::Removed;
            let step = engine.steps()[engine.phase->done as int];
            let listed: Option<(nat, nat)> = if removed && step is Sweep {
                engine.phase->counted
            } else {
                None
            };
            let files: nat = match listed {
                Some(counts) => counts.0,
                None => if removed && step is RemoveFile {
                    1
                } else {
                    0
                },
            };
            let directories: nat = match listed {
                Some(counts) => counts.1,
                None => if removed && (step is RemoveDirAll || step is RemoveDir) {
                    1
                } else {
                    0
                },
            };
            let bytes: nat = if removed && (listed is Some || !(step is Sweep)) {
                engine.phase->entry.size
            } else {
                0
            };
            &&& next.files_so_far() == engine.files_so_far() + files
            &&& next.directories_so_far() == engine.directories_so_far() + directories
            &&& next.bytes_so_far() == engine.bytes_so_far() + bytes
        }),
{
}

/// Whatever the caller answers, a valid engine stays valid, over the same
/// rules and the same selection.
pub proof fn lemma_step_valid(engine: EngineModel, response: ResponseModel)
    requires
        engine.valid(),
    ensures
        engine.step(response).valid(),
        engine.step(response).rules == engine.rules,
        engine.step(response).selected == engine.selected,
{
    if engine.cursor < engine.rules.len() {
        lemma_next_selected(engine.rules, engine.selected, engine.cursor + 1);
    }
    if engine.phase is Applying {
        if let Some(result) = engine.verdict(response) {
            let outcome = credited(
                engine.phase->outcome,
                engine.steps()[engine.phase->done as int],
                result,
                engine.phase->entry.size,
            );
            crate::report::lemma_recorded_grows(engine.report, engine.rule().owner_label, outcome);
        }
    }
}

/// Whatever the caller answers, and however often, a run stays valid, over
/// the same rules and the same selection.
pub proof fn lemma_run_valid(engine: EngineModel, responses: Seq<ResponseModel>)
    requires
        engine.valid(),
    ensures
        engine.run(responses).valid(),
        engine.run(responses).rules == engine.rules,
        engine.run(responses).selected == engine.selected,
    decreases responses.len(),
{
    if responses.len() > 0 {
        lemma_run_valid(engine, responses.drop_last());
        lemma_step_valid(engine.run(responses.drop_last()), responses.last());
    }
}

/// Whether `category` is among `selected`.
pub fn is_selected(selected: &Vec<String>, category: &String) -> (found: bool)
    ensures
        found == names_of(selected@).contains(category@),
{
    let mut i: usize = 0;
    while i < selected.len()
        invariant
            i <= selected.len(),
            forall|t: int| 0 <= t < i ==> (#[trigger] selected[t])@ != category@,
        decreases selected.len() - i,
    {
        if selected[i] == *category {
            assert(names_of(selected@)[i as int] == category@);
            return true;
        }
        i += 1;
    }
    false
}

/// The index of the first rule at or after `from` whose category is among
/// `selected`, or the number of rules if there is none.
pub fn find_selected(rules: &Vec<CleanupRule>, selected: &Vec<String>, from: usize) -> (index:
    usize)
    requires
        from <= rules.len(),
    ensures
        index == next_selected(rules_of(rules@), names_of(selected@), from as nat),
        from <= index <= rules.len(),
{
    let mut i: usize = from;
    while i < rules.len()
        invariant
            from <= i <= rules.len(),
            next_selected(rules_of(rules@), names_of(selected@), from as nat) == next_selected(
                rules_of(rules@),
                names_of(selected@),
                i as nat,
            ),
        decreases rules.len() - i,
    {
        if is_selected(selected, rules[i].category()) {
            return i;
        }
        i += 1;
    }
    i
}

enum Phase {
    Expanding,
    Resolving,
    Applying {
        entry: ResolvedEntry,
        steps: Vec<Step>,
        done: usize,
        counted: Option<(u64, u64)>,
        outcome: AppliedOutcome,
    },
    Finished,
}

impl View for Phase {
    type V = PhaseModel;

    closed spec fn view(&self) -> PhaseModel {
        match self {
            Phase::Expanding => PhaseModel::Expanding,
            Phase::Resolving => PhaseModel::Resolving,
            Phase::Applying { entry, steps, done, counted, outcome } => PhaseModel::Applying {
                entry: entry@,
                done: *done as nat,
                counted: match counted {
                    Some(n) => Some((n.0 as nat, n.1 as nat)),
                    None => None,
                },
                outcome: outcome@,
            },
            Phase::Finished => PhaseModel::Finished,
        }
    }
}

/// The cleanup engine in the middle of a run.
///
/// It holds the rules, the selected categories, its place in the pass and
/// the report so far. [`Engine::request`] says what the caller is to do next
/// and [`Engine::handle`] takes the caller's answer in; the run is over when
/// the request is [`Request::Finished`].
pub struct Engine {
    rules: Vec<CleanupRule>,
    selected: Vec<String>,
    cursor: usize,
    phase: Phase,
    report: CleanupReport,
}

impl View for Engine {
    type V = EngineModel;

    closed spec fn view(&self) -> EngineModel {
        EngineModel {
            rules: rules_of(self.rules@),
            selected: names_of(self.selected@),
            cursor: self.cursor as nat,
            phase: self.phase@,
            report: self.report@,
        }
    }
}

/// The result with which `response` ends the step `step`, if it ends it.
fn verdict_for(step: &Step, counted: Option<(u64, u64)>, response: &Response) -> (result: Option<
    StepResult,
>)
    ensures
        match result {
            Some(r) => Some(r@),
            None => None,
        } == (if step@ is Sweep {
            match (counted, response@) {
                (None, ResponseModel::PatternRejected) => Some(ResultModel::NotRemoved),
                (Some(n), ResponseModel::Removed) => Some(
                    ResultModel::Swept { files: n.0 as nat, directories: n.1 as nat },
                ),
                (Some(_), ResponseModel::NotRemoved) => Some(ResultModel::NotRemoved),
                _ => None,
            }
        } else {
            match response@ {
                ResponseModel::Removed => Some(ResultModel::Removed),
                ResponseModel::NotRemoved => Some(ResultModel::NotRemoved),
                _ => None,
            }
        }),
{
    match step {
        Step::Sweep { .. } => match (counted, response) {
            (None, Response::PatternRejected) => Some(StepResult::NotRemoved),
            (Some(n), Response::Removed) => Some(
                StepResult::Swept { files: n.0, directories: n.1 },
            ),
            (Some(_), Response::NotRemoved) => Some(StepResult::NotRemoved),
            _ => None,
        },
        _ => match response {
            Response::Removed => Some(StepResult::Removed),
            Response::NotRemoved => Some(StepResult::NotRemoved),
            _ => None,
        },
    }
}

impl Engine {
    #[verifier::type_invariant]
    spec fn well_formed(self) -> bool {
        &&& self@.valid()
        &&& self@.in_range()
        &&& match self.phase {
            Phase::Applying { entry, steps, .. } => steps_of(steps@) == plan_of(
                self@.rule(),
                entry@,
            ),
            _ => true,
        }
    }

    /// Sets the engine up for a run over `rules`, of which those whose
    /// category is among `selected` will be worked on.
    pub fn new(rules: Vec<CleanupRule>, selected: Vec<String>) -> (engine: Engine)
        ensures
            engine@ == EngineModel::start(rules_of(rules@), names_of(selected@)),
    {
        proof {
            lemma_start_valid(rules_of(rules@), names_of(selected@));
        }
        let cursor = find_selected(&rules, &selected, 0);
        let phase = if cursor < rules.len() {
            Phase::Expanding
        } else {
            Phase::Finished
        };
        Engine { rules, selected, cursor, phase, report: CleanupReport::new() }
    }

    /// Whether the run is over.
    pub fn is_finished(&self) -> (over: bool)
        ensures
            over == (self@.phase is Finished),
            over == (self@.request() is Finished),
            self@.valid(),
            self@.in_range(),
    {
        proof {
            use_type_invariant(self);
        }
        match self.phase {
            Phase::Finished => true,
            _ => false,
        }
    }

    /// The report as it stands.
    pub fn report(&self) -> (report: &CleanupReport)
        ensures
            report@ == self@.report,
    {
        &self.report
    }

    /// Ends the run and hands the report over.
    pub fn into_report(self) -> (report: CleanupReport)
        ensures
            report@ == self@.report,
    {
        self.report
    }

    /// What the caller is to do next.
    pub fn request(&self) -> (request: Request)
        ensures
            request@ == self@.request(),
    {
        proof {
            use_type_invariant(self);
        }
        match &self.phase {
            Phase::Expanding => Request::Expand {
                pattern: self.rules[self.cursor].path_pattern().clone(),
            },
            Phase::Resolving => Request::NextEntry,
            Phase::Applying { steps, done, counted, .. } => {
                match &steps[*done] {
                    Step::RemoveFile { path } => Request::RemoveFile { path: path.clone() },
                    Step::RemoveDirAll { path } => Request::RemoveDirAll { path: path.clone() },
                    Step::RemoveDir { path } => Request::RemoveDir { path: path.clone() },
                    Step::Sweep { path, children } => match counted {
                        Some(_) => Request::RemoveDirAll { path: path.clone() },
                        None => Request::ListChildren { pattern: children.clone() },
                    },
                }
            },
            Phase::Finished => Request::Finished,
        }
    }

    /// Whether `response` can be taken in without a count leaving the
    /// machine's counters.
    pub fn accepts(&self, response: &Response) -> (ok: bool)
        ensures
            ok == self@.step(response@).in_range(),
    {
        proof {
            use_type_invariant(self);
            lemma_step_valid(self@, response@);
            if self@.cursor < self@.rules.len() {
                lemma_next_selected(self@.rules, self@.selected, self@.cursor + 1);
            }
        }
        match &self.phase {
            Phase::Applying { entry, steps, done, counted, outcome } => {
                match verdict_for(&steps[*done], *counted, response) {
                    Some(result) => {
                        if outcome.can_credit(&steps[*done], result, entry.size) {
                            let mut after = *outcome;
                            after.credit(&steps[*done], result, entry.size);
                            self.report.can_record(&after)
                        } else {
                            false
                        }
                    },
                    None => true,
                }
            },
            _ => true,
        }
    }

    /// Takes in the caller's answer to the request of this state.
    pub fn handle(self, response: Response) -> (next: Engine)
        requires
            self@.step(response@).in_range(),
        ensures
            next@ == self@.step(response@),
    {
        proof {
            use_type_invariant(&self);
            lemma_step_valid(self@, response@);
            if self@.cursor < self@.rules.len() {
                lemma_next_selected(self@.rules, self@.selected, self@.cursor + 1);
            }
        }
        let Engine { rules, selected, cursor, phase, report } = self;
        match phase {
            Phase::Expanding => match response {
                Response::PatternAccepted => Engine {
                    rules,
                    selected,
                    cursor,
                    phase: Phase::Resolving,
                    report,
                },
                Response::PatternRejected => Self::leave_rule(rules, selected, cursor, report),
                _ => Engine { rules, selected, cursor, phase: Phase::Expanding, report },
            },
            Phase::Resolving => match response {
                Response::Entry(entry) => {
                    let steps = plan(&rules[cursor], &entry);
                    if steps.len() == 0 {
                        Engine { rules, selected, cursor, phase: Phase::Resolving, report }
                    } else {
                        Engine {
                            rules,
                            selected,
                            cursor,
                            phase: Phase::Applying {
                                entry,
                                steps,
                                done: 0,
                                counted: None,
                                outcome: AppliedOutcome::new(),
                            },
                            report,
                        }
                    }
                },
                Response::NoMoreEntries => Self::leave_rule(rules, selected, cursor, report),
                _ => Engine { rules, selected, cursor, phase: Phase::Resolving, report },
            },
            Phase::Applying { entry, steps, done, counted, outcome } => {
                assert(steps_of(steps@).len() == steps.len());
                match verdict_for(&steps[done], counted, &response) {
                    Some(result) => {
                        let mut outcome = outcome;
                        let mut report = report;
                        outcome.credit(&steps[done], result, entry.size);
                        if done + 1 < steps.len() {
                            Engine {
                                rules,
                                selected,
                                cursor,
                                phase: Phase::Applying {
                                    entry,
                                    steps,
                                    done: done + 1,
                                    counted: None,
                                    outcome,
                                },
                                report,
                            }
                        } else {
                            report.record(rules[cursor].owner_label(), &outcome);
                            Engine { rules, selected, cursor, phase: Phase::Resolving, report }
                        }
                    },
                    None => {
                        let counted = match (&steps[done], counted, response) {
                            (Step::Sweep { .. }, None, Response::Children(probes)) => Some(
                                (
                                    count(&probes, EntryKind::File),
                                    count(&probes, EntryKind::Directory),
                                ),
                            ),
                            _ => counted,
                        };
                        Engine {
                            rules,
                            selected,
                            cursor,
                            phase: Phase::Applying { entry, steps, done, counted, outcome },
                            report,
                        }
                    },
                }
            },
            Phase::Finished => Engine { rules, selected, cursor, phase: Phase::Finished, report },
        }
    }

    /// The engine with the rule at `cursor` left behind.
    fn leave_rule(
        rules: Vec<CleanupRule>,
        selected: Vec<String>,
        cursor: usize,
        report: CleanupReport,
    ) -> (next: Engine)
        requires
            cursor < rules.len(),
            report@.valid(),
            report@.fits(),
        ensures
            next@ == EngineModel::at_next_rule(
                rules_of(rules@),
                names_of(selected@),
                cursor as nat + 1,
                report@,
            ),
    {
        proof {
            lemma_next_selected(rules_of(rules@), names_of(selected@), cursor as nat + 1);
        }
        let cursor = find_selected(&rules, &selected, cursor + 1);
        let phase = if cursor < rules.len() {
            Phase::Expanding
        } else {
            Phase::Finished
        };
        Engine { rules, selected, cursor, phase, report }
    }
}

} // verus!
