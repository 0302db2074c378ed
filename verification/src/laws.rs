//! What holds of every workflow, of every retry policy and of every set of gates.
use crate::evaluation::{self, EvaluationGateView, MetricView};
use crate::policy::{self, RetryDelay};
use crate::record::{RunRecordView, RunStatus, StepStatus};
use crate::workflow::{StepSpecView, WorkflowSpecView};
use vstd::arithmetic::power::*;
use vstd::prelude::*;

verus! {

/// Whether a step of the workflow waits for another, by their ids.
pub open spec fn waits_for(workflow: WorkflowSpecView, step: Seq<char>, other: Seq<char>) -> bool {
    exists|i: int, j: int|
        0 <= i < workflow.steps.len() && 0 <= j < workflow.steps[i].depends_on.len()
            && workflow.steps[i].id == step && #[trigger] workflow.steps[i].depends_on[j] == other
}

/// Each id of the list waits for the one after it.
pub open spec fn is_chain(workflow: WorkflowSpecView, path: Seq<Seq<char>>) -> bool {
    forall|k: int| 0 <= k < path.len() - 1 ==> #[trigger] waits_for(workflow, path[k], path[k + 1])
}

proof fn lemma_chain_descends(
    workflow: WorkflowSpecView,
    rank: spec_fn(Seq<char>) -> nat,
    path: Seq<Seq<char>>,
    k: int,
)
    requires
        workflow.ranked_by(rank),
        is_chain(workflow, path),
        1 <= k < path.len(),
    ensures
        rank(path[k]) < rank(path[0]),
    decreases k,
{
    assert(waits_for(workflow, path[k - 1], path[k - 1 + 1]));
    let (i, j) = choose|i: int, j: int|
        0 <= i < workflow.steps.len() && 0 <= j < workflow.steps[i].depends_on.len()
            && workflow.steps[i].id == path[k - 1] && #[trigger] workflow.steps[i].depends_on[j]
            == path[k];
    assert(rank(workflow.steps[i].depends_on[j]) < rank(workflow.steps[i].id));
    if k > 1 {
        lemma_chain_descends(workflow, rank, path, k - 1);
    }
}

/// In a workflow without a flaw no step waits for itself, directly or through
/// others.
pub proof fn law_valid_workflow_has_no_cycle(workflow: WorkflowSpecView, path: Seq<Seq<char>>)
    requires
        workflow.flaw() is None,
        path.len() >= 2,
        is_chain(workflow, path),
    ensures
        path.first() != path.last(),
{
    let rank = choose|rank: spec_fn(Seq<char>) -> nat| workflow.ranked_by(rank);
    lemma_chain_descends(workflow, rank, path, path.len() - 1);
}

/// In a workflow without a flaw every step waits for steps of the workflow only.
pub proof fn law_valid_workflow_knows_its_steps(workflow: WorkflowSpecView, i: int, j: int)
    requires
        workflow.flaw() is None,
        0 <= i < workflow.steps.len(),
        0 <= j < workflow.steps[i].depends_on.len(),
    ensures
        workflow.step_ids().contains(workflow.steps[i].depends_on[j]),
{
    crate::workflow::lemma_all_known(workflow.step_ids(), workflow.steps);
}

proof fn lemma_lowest_is_ready(
    run: RunRecordView,
    rank: spec_fn(Seq<char>) -> nat,
    i: int,
) -> (k: int)
    requires
        run.workflow.flaw() is None,
        run.workflow.ranked_by(rank),
        forall|step: Seq<char>| #[trigger]
            run.steps.contains_key(step) ==> run.steps[step].status == StepStatus::Succeeded,
        0 <= i < run.workflow.steps.len(),
        !run.steps.contains_key(run.workflow.steps[i].id),
    ensures
        0 <= k < run.workflow.steps.len(),
        run.is_ready(run.workflow.steps[k]),
    decreases rank(run.workflow.steps[i].id),
{
    let step = run.workflow.steps[i];
    if forall|j: int|
        0 <= j < step.depends_on.len() ==> run.steps.contains_key(#[trigger] step.depends_on[j]) {
        i
    } else {
        let j = choose|j: int|
            0 <= j < step.depends_on.len() && !run.steps.contains_key(
                #[trigger] step.depends_on[j],
            );
        law_valid_workflow_knows_its_steps(run.workflow, i, j);
        let ids = run.workflow.step_ids();
        let m = choose|m: int| 0 <= m < ids.len() && ids[m] == step.depends_on[j];
        assert(run.workflow.steps[m].id == step.depends_on[j]);
        assert(rank(run.workflow.steps[i].depends_on[j]) < rank(run.workflow.steps[i].id));
        lemma_lowest_is_ready(run, rank, m)
    }
}

/// A run of a workflow without a flaw never gets stuck: as long as no step has
/// failed and one was not started yet, there is one that can be.
pub proof fn law_valid_workflow_makes_progress(run: RunRecordView, i: int)
    requires
        run.workflow.flaw() is None,
        forall|step: Seq<char>| #[trigger]
            run.steps.contains_key(step) ==> run.steps[step].status == StepStatus::Succeeded,
        0 <= i < run.workflow.steps.len(),
        !run.steps.contains_key(run.workflow.steps[i].id),
    ensures
        run.ready_steps().len() > 0,
{
    let rank = choose|rank: spec_fn(Seq<char>) -> nat| run.workflow.ranked_by(rank);
    let k = lemma_lowest_is_ready(run, rank, i);
    let can_start = |step: StepSpecView| run.is_ready(step);
    run.workflow.steps.lemma_filter_contains(can_start, k);
    let ready = run.ready_steps();
    assert(ready.contains(run.workflow.steps[k]));
}

/// A retry is never delayed for longer than the limit and the initial delay allow.
pub proof fn law_delay_is_bounded(delay: RetryDelay, attempt: u32)
    ensures
        0 <= delay.delay_ms(attempt) <= policy::greatest(
            delay.max_ms as int,
            delay.initial_ms as int,
        ),
{
    if attempt > 0 && delay.initial_ms > 0 {
        let exponent = policy::least(attempt - 1, 20) as nat;
        lemma_power_is_not_negative(delay.multiplier as int, exponent);
        let factor = policy::least(pow(delay.multiplier as int, exponent), u32::MAX as int);
        assert(delay.initial_ms * factor >= 0) by (nonlinear_arith)
            requires
                delay.initial_ms >= 0,
                factor >= 0,
        ;
    }
}

proof fn lemma_power_is_not_negative(base: int, exponent: nat)
    requires
        base >= 0,
    ensures
        pow(base, exponent) >= 0,
    decreases exponent,
{
    reveal(pow);
    if exponent > 0 {
        lemma_power_is_not_negative(base, (exponent - 1) as nat);
        assert(base * pow(base, (exponent - 1) as nat) >= 0) by (nonlinear_arith)
            requires
                base >= 0,
                pow(base, (exponent - 1) as nat) >= 0,
        ;
    }
}

/// Delays do not shrink from one attempt to the next, where the multiplier is not
/// zero.
pub proof fn law_delay_does_not_shrink(delay: RetryDelay, attempt: u32)
    requires
        delay.multiplier >= 1,
        attempt < u32::MAX,
    ensures
        delay.delay_ms(attempt) <= delay.delay_ms((attempt + 1) as u32),
{
    law_delay_is_bounded(delay, (attempt + 1) as u32);
    if attempt > 0 && delay.initial_ms > 0 {
        let low = policy::least(attempt - 1, 20) as nat;
        let high = policy::least(attempt as int, 20) as nat;
        let base = delay.multiplier as int;
        if high > low {
            assert(high == low + 1);
            reveal(pow);
            lemma_power_is_not_negative(base, low);
            assert(pow(base, high) == base * pow(base, low));
            assert(base * pow(base, low) >= pow(base, low)) by (nonlinear_arith)
                requires
                    base >= 1,
                    pow(base, low) >= 0,
            ;
        }
        let a = policy::least(pow(base, low), u32::MAX as int);
        let b = policy::least(pow(base, high), u32::MAX as int);
        assert(delay.initial_ms * a <= delay.initial_ms * b) by (nonlinear_arith)
            requires
                delay.initial_ms >= 0,
                a <= b,
        ;
    }
}

/// A gate whose metric was not measured does not pass.
pub proof fn law_missing_metric_does_not_pass(gate: EvaluationGateView, metrics: Seq<MetricView>)
    requires
        forall|i: int| 0 <= i < metrics.len() ==> (#[trigger] metrics[i]).name != gate.metric,
    ensures
        !gate.decision(metrics).passed,
        gate.decision(metrics).observed is None,
    decreases metrics.len(),
{
    if metrics.len() > 0 {
        assert(metrics[0].name != gate.metric);
        assert forall|i: int| 0 <= i < metrics.drop_first().len() implies (
        #[trigger] metrics.drop_first()[i]).name != gate.metric by {
            assert(metrics.drop_first()[i] == metrics[i + 1]);
        }
        law_missing_metric_does_not_pass(gate, metrics.drop_first());
    }
}

/// Every metric that has a gate gets the decision of the last gate on it.
pub proof fn law_every_gate_is_decided(
    gates: Seq<EvaluationGateView>,
    metrics: Seq<MetricView>,
    i: int,
)
    requires
        0 <= i < gates.len(),
        forall|j: int| i < j < gates.len() ==> (#[trigger] gates[j]).metric != gates[i].metric,
    ensures
        evaluation::decisions(gates, metrics).contains_key(gates[i].metric),
        evaluation::decisions(gates, metrics)[gates[i].metric] == gates[i].decision(metrics),
    decreases gates.len(),
{
    if i < gates.len() - 1 {
        let fewer = gates.drop_last();
        assert forall|j: int| i < j < fewer.len() implies (#[trigger] fewer[j]).metric
            != fewer[i].metric by {
            assert(gates[j].metric != gates[i].metric);
        }
        law_every_gate_is_decided(fewer, metrics, i);
        assert(gates[gates.len() - 1].metric != gates[i].metric);
    }
}

/// Every step of a workflow has a record in a run by which it has succeeded.
pub open spec fn all_steps_succeeded(workflow: WorkflowSpecView, run: RunRecordView) -> bool {
    forall|i: int|
        0 <= i < workflow.steps.len() ==> {
            &&& run.steps.contains_key((#[trigger] workflow.steps[i]).id)
            &&& run.steps[workflow.steps[i].id].status == StepStatus::Succeeded
        }
}

/// A run with records of steps of its workflow only, as many as the workflow has steps,
/// has a record of each of them.
pub proof fn lemma_all_are_recorded(run: RunRecordView, i: int)
    requires
        run.workflow.step_ids().no_duplicates(),
        run.steps.dom().finite(),
        run.steps.len() >= run.workflow.steps.len(),
        forall|id: Seq<char>| #[trigger]
            run.steps.contains_key(id) ==> run.workflow.step_ids().contains(id),
        0 <= i < run.workflow.steps.len(),
    ensures
        run.steps.contains_key(run.workflow.steps[i].id),
{
    let ids = run.workflow.step_ids();
    ids.unique_seq_to_set();
    assert(run.steps.dom().subset_of(ids.to_set()));
    assert(run.steps.len() == run.steps.dom().len());
    vstd::set_lib::lemma_len_subset(run.steps.dom(), ids.to_set());
    vstd::set_lib::lemma_subset_equality(run.steps.dom(), ids.to_set());
    assert(ids.contains(ids[i]));
    assert(ids.to_set().contains(ids[i]));
}

/// A run that comes to succeed has all of its steps done and all of its gates
/// passed.
pub proof fn law_success_is_earned(run: RunRecordView, metrics: Seq<MetricView>)
    requires
        run.settled(metrics).status == RunStatus::Succeeded,
        run.status != RunStatus::Succeeded,
    ensures
        run.all_succeeded(),
        evaluation::all_passed(evaluation::decisions(run.manifest.evaluation_gates, metrics)),
{
    assert(run.measured(metrics).steps == run.steps);
    if run.measured(metrics).all_succeeded() {
        assert forall|step: Seq<char>| #[trigger] run.steps.contains_key(step) implies run.steps[
            step
        ].status == StepStatus::Succeeded by {
            assert(run.measured(metrics).steps.contains_key(step));
        }
    }
}

} // verus!
