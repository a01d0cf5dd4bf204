//! Category isolation: the rules of categories that are not selected play
//! no part in a run.

use crate::engine::{
    lemma_next_selected, lemma_run_valid, lemma_start_valid, lemma_step_valid, next_selected,
    EngineModel,
};
use crate::protocol::ResponseModel;
use crate::report::ReportModel;
use crate::rule::RuleModel;
use vstd::prelude::*;

verus! {

/// Category isolation. Whatever the caller answers, the engine never makes
/// a request on behalf of a rule whose category is not selected: no pattern
/// of such a rule is expanded, no entry of it resolved, and nothing removed
/// or listed for it.
pub proof fn lemma_unselected_rules_are_left_alone(
    rules: Seq<RuleModel>,
    selected: Seq<Seq<char>>,
    responses: Seq<ResponseModel>,
)
    ensures
        match EngineModel::start(rules, selected).run(responses).working_on() {
            Some(index) => index < rules.len() && selected.contains(rules[index as int].category),
            None => true,
        },
{
    lemma_start_valid(rules, selected);
    lemma_run_valid(EngineModel::start(rules, selected), responses);
}

/// The rules among `rules` whose category is among `selected`, in order.
pub open spec fn selected_rules(rules: Seq<RuleModel>, selected: Seq<Seq<char>>) -> Seq<RuleModel>
    decreases rules.len(),
{
    if rules.len() == 0 {
        Seq::<RuleModel>::empty()
    } else {
        let before = selected_rules(rules.drop_last(), selected);
        if selected.contains(rules.last().category) {
            before.push(rules.last())
        } else {
            before
        }
    }
}

/// The selected rules among the first `n + 1` are those among the first `n`,
/// followed by rule `n` if it is selected.
proof fn lemma_selected_next(rules: Seq<RuleModel>, selected: Seq<Seq<char>>, n: int)
    requires
        0 <= n < rules.len(),
    ensures
        selected_rules(rules.take(n + 1), selected) == if selected.contains(rules[n].category) {
            selected_rules(rules.take(n), selected).push(rules[n])
        } else {
            selected_rules(rules.take(n), selected)
        },
{
    assert(rules.take(n + 1).drop_last() == rules.take(n));
}

/// The selected rules among the first `n` come first among the selected
/// rules, and every selected rule is selected.
proof fn lemma_selected_prefix(rules: Seq<RuleModel>, selected: Seq<Seq<char>>, n: int)
    requires
        0 <= n <= rules.len(),
    ensures
        selected_rules(rules.take(n), selected).len() <= selected_rules(rules, selected).len(),
        forall|i: int|
            0 <= i < selected_rules(rules.take(n), selected).len() ==> selected_rules(
                rules.take(n),
                selected,
            )[i] == selected_rules(rules, selected)[i],
        forall|i: int|
            0 <= i < selected_rules(rules, selected).len() ==> selected.contains(
                (#[trigger] selected_rules(rules, selected)[i]).category,
            ),
    decreases rules.len(),
{
    if n == rules.len() {
        assert(rules.take(n) == rules);
    }
    if rules.len() > 0 {
        let init = rules.drop_last();
        lemma_selected_prefix(init, selected, if n < rules.len() {
            n
        } else {
            n - 1
        });
        lemma_selected_prefix(init, selected, init.len() as int);
        if n < rules.len() {
            assert(init.take(n) == rules.take(n));
        }
    }
}

/// Unselected rules add nothing to the selected rules.
proof fn lemma_selected_skips(rules: Seq<RuleModel>, selected: Seq<Seq<char>>, from: int, to: int)
    requires
        0 <= from <= to <= rules.len(),
        forall|i: int| from <= i < to ==> !selected.contains((#[trigger] rules[i]).category),
    ensures
        selected_rules(rules.take(to), selected) == selected_rules(rules.take(from), selected),
    decreases to - from,
{
    if from < to {
        lemma_selected_skips(rules, selected, from, to - 1);
        lemma_selected_next(rules, selected, to - 1);
    }
}

/// Among selected rules alone, the next selected rule is the next rule.
proof fn lemma_next_among_selected(rules: Seq<RuleModel>, selected: Seq<Seq<char>>, from: nat)
    requires
        from <= selected_rules(rules, selected).len(),
    ensures
        next_selected(selected_rules(rules, selected), selected, from) == from,
{
    lemma_selected_prefix(rules, selected, 0);
}

/// Whether `lean` stands, in a run over the selected rules alone, where
/// `full` stands in a run over all the rules.
spec fn mirrors(full: EngineModel, lean: EngineModel) -> bool {
    &&& full.valid()
    &&& lean.valid()
    &&& lean.rules == selected_rules(full.rules, full.selected)
    &&& lean.selected == full.selected
    &&& lean.cursor == selected_rules(full.rules.take(full.cursor as int), full.selected).len()
    &&& lean.cursor < lean.rules.len() ==> lean.rule() == full.rule()
    &&& lean.phase == full.phase
    &&& lean.report == full.report
}

/// Where the two runs stand once all the rules before `from` are behind
/// them.
proof fn lemma_mirrors_at_next_rule(
    rules: Seq<RuleModel>,
    selected: Seq<Seq<char>>,
    from: nat,
    report: ReportModel,
)
    requires
        from <= rules.len(),
        report.valid(),
    ensures
        mirrors(
            EngineModel::at_next_rule(rules, selected, from, report),
            EngineModel::at_next_rule(
                selected_rules(rules, selected),
                selected,
                selected_rules(rules.take(from as int), selected).len(),
                report,
            ),
        ),
{
    let behind = selected_rules(rules.take(from as int), selected).len();
    let next = next_selected(rules, selected, from);
    lemma_next_selected(rules, selected, from);
    lemma_selected_prefix(rules, selected, from as int);
    lemma_next_among_selected(rules, selected, behind);
    lemma_selected_skips(rules, selected, from as int, next as int);
    if next < rules.len() {
        lemma_selected_next(rules, selected, next as int);
        lemma_selected_prefix(rules, selected, next as int + 1);
        assert(selected_rules(rules.take(next as int + 1), selected)[behind as int]
            == rules[next as int]);
    } else {
        assert(rules.take(next as int) == rules);
    }
}

/// An answer takes the two runs to where they mirror each other again, and
/// where they make the same request.
proof fn lemma_mirrors_step(full: EngineModel, lean: EngineModel, response: ResponseModel)
    requires
        mirrors(full, lean),
    ensures
        mirrors(full.step(response), lean.step(response)),
        full.request() == lean.request(),
{
    lemma_step_valid(full, response);
    if full.cursor < full.rules.len() {
        lemma_selected_next(full.rules, full.selected, full.cursor as int);
        lemma_mirrors_at_next_rule(full.rules, full.selected, full.cursor + 1, full.report);
    }
}

/// Whatever the caller answers, a run over all the rules and a run over the
/// selected rules alone mirror each other.
proof fn lemma_mirrors_run(
    rules: Seq<RuleModel>,
    selected: Seq<Seq<char>>,
    responses: Seq<ResponseModel>,
)
    ensures
        mirrors(
            EngineModel::start(rules, selected).run(responses),
            EngineModel::start(selected_rules(rules, selected), selected).run(responses),
        ),
    decreases responses.len(),
{
    if responses.len() == 0 {
        lemma_mirrors_at_next_rule(rules, selected, 0, ReportModel::empty());
    } else {
        lemma_mirrors_run(rules, selected, responses.drop_last());
        lemma_mirrors_step(
            EngineModel::start(rules, selected).run(responses.drop_last()),
            EngineModel::start(selected_rules(rules, selected), selected).run(
                responses.drop_last(),
            ),
            responses.last(),
        );
    }
}

/// Category isolation. The rules of categories that are not selected might
/// as well not be there: whatever the caller answers, a run over all the
/// rules stands where a run over the selected rules alone stands, asks for
/// the same, and has the same report.
pub proof fn lemma_unselected_rules_do_not_matter(
    rules: Seq<RuleModel>,
    selected: Seq<Seq<char>>,
    responses: Seq<ResponseModel>,
)
    ensures
        ({
            let full = EngineModel::start(rules, selected).run(responses);
            let lean = EngineModel::start(selected_rules(rules, selected), selected).run(
                responses,
            );
            &&& full.request() == lean.request()
            &&& full.phase == lean.phase
            &&& full.report == lean.report
        }),
{
    lemma_mirrors_run(rules, selected, responses);
    lemma_mirrors_step(
        EngineModel::start(rules, selected).run(responses),
        EngineModel::start(selected_rules(rules, selected), selected).run(responses),
        ResponseModel::NoMoreEntries,
    );
}

} // verus!
