//! How things are compared: by all that they hold, and numbers as numbers in double precision
//! are.
use crate::ending_laws;
use crate::evaluation::{EvaluationGate, GateDecision, Metric, MetricValue};
use crate::ids::{
    ArtifactId, AttemptId, CacheKey, EventId, IdempotencyKey, RunId, StepId, TaskId, WorkerId,
    WorkflowId,
};
use crate::manifest::{RunManifest, RunProvenance};
use crate::policy::{ExecutionPolicy, Residency, ResourceRequirements};
use crate::task::TaskSpec;
use crate::value_laws;
use crate::views::Same;
use crate::workflow::{StepSpec, WorkflowSpec};
use vstd::prelude::*;

verus! {

/// Whether two things compare as equal.
pub open spec fn are_equal<T: vstd::std_specs::cmp::PartialEqSpec>(a: T, b: T) -> bool {
    T::obeys_eq_spec() && a.eq_spec(&b)
}

/// Two ids of a kind are equal if and only if they are the same text.
pub proof fn law_ids_are_compared_as_text()
    ensures
        forall|a: RunId, b: RunId| #[trigger] are_equal(a, b) <==> a@ == b@,
        forall|a: RunId, b: RunId| #[trigger] a.same_spec(&b) <==> a@ == b@,
        forall|a: StepId, b: StepId| #[trigger] are_equal(a, b) <==> a@ == b@,
        forall|a: StepId, b: StepId| #[trigger] a.same_spec(&b) <==> a@ == b@,
        forall|a: TaskId, b: TaskId| #[trigger] are_equal(a, b) <==> a@ == b@,
        forall|a: TaskId, b: TaskId| #[trigger] a.same_spec(&b) <==> a@ == b@,
        forall|a: WorkflowId, b: WorkflowId| #[trigger] are_equal(a, b) <==> a@ == b@,
        forall|a: WorkflowId, b: WorkflowId| #[trigger] a.same_spec(&b) <==> a@ == b@,
        forall|a: AttemptId, b: AttemptId| #[trigger] are_equal(a, b) <==> a@ == b@,
        forall|a: AttemptId, b: AttemptId| #[trigger] a.same_spec(&b) <==> a@ == b@,
        forall|a: ArtifactId, b: ArtifactId| #[trigger] are_equal(a, b) <==> a@ == b@,
        forall|a: ArtifactId, b: ArtifactId| #[trigger] a.same_spec(&b) <==> a@ == b@,
        forall|a: EventId, b: EventId| #[trigger] are_equal(a, b) <==> a@ == b@,
        forall|a: EventId, b: EventId| #[trigger] a.same_spec(&b) <==> a@ == b@,
        forall|a: IdempotencyKey, b: IdempotencyKey| #[trigger] are_equal(a, b) <==> a@ == b@,
        forall|a: IdempotencyKey, b: IdempotencyKey| #[trigger] a.same_spec(&b) <==> a@ == b@,
        forall|a: WorkerId, b: WorkerId| #[trigger] are_equal(a, b) <==> a@ == b@,
        forall|a: WorkerId, b: WorkerId| #[trigger] a.same_spec(&b) <==> a@ == b@,
        forall|a: CacheKey, b: CacheKey| #[trigger] are_equal(a, b) <==> a@ == b@,
        forall|a: CacheKey, b: CacheKey| #[trigger] a.same_spec(&b) <==> a@ == b@,
{
}

/// Tasks, steps, policies, requirements, residencies and provenances are equal if and only if
/// they hold the same.
pub proof fn law_parts_are_compared_whole()
    ensures
        forall|a: TaskSpec, b: TaskSpec| #[trigger] are_equal(a, b) <==> a@ == b@,
        forall|a: TaskSpec, b: TaskSpec| #[trigger] a.same_spec(&b) <==> a@ == b@,
        forall|a: StepSpec, b: StepSpec| #[trigger] are_equal(a, b) <==> a@ == b@,
        forall|a: StepSpec, b: StepSpec| #[trigger] a.same_spec(&b) <==> a@ == b@,
        forall|a: RunProvenance, b: RunProvenance| #[trigger] are_equal(a, b) <==> a@ == b@,
        forall|a: RunProvenance, b: RunProvenance| #[trigger] a.same_spec(&b) <==> a@ == b@,
        forall|a: Residency, b: Residency| #[trigger] are_equal(a, b) <==> a@ == b@,
        forall|a: Residency, b: Residency| #[trigger] a.same_spec(&b) <==> a@ == b@,
        forall|a: ResourceRequirements, b: ResourceRequirements| #[trigger]
            are_equal(a, b) <==> a@ == b@,
        forall|a: ResourceRequirements, b: ResourceRequirements| #[trigger]
            a.same_spec(&b) <==> a@ == b@,
        forall|a: ExecutionPolicy, b: ExecutionPolicy| #[trigger] are_equal(a, b) <==> a@ == b@,
        forall|a: ExecutionPolicy, b: ExecutionPolicy| #[trigger] a.same_spec(&b) <==> a@ == b@,
{
}

/// Whether two numbers are the same, as numbers in double precision are compared.
pub open spec fn are_one_number(a: MetricValue, b: MetricValue) -> bool {
    ending_laws::at_most(a, b) && ending_laws::at_most(b, a)
}

/// Numbers are compared as those in double precision are; metrics, gates and decisions by all
/// that they hold, their numbers so.
pub proof fn law_numbers_are_compared_as_numbers(
    a: MetricValue,
    b: MetricValue,
    m: Metric,
    n: Metric,
    g: EvaluationGate,
    h: EvaluationGate,
    d: GateDecision,
    e: GateDecision,
)
    ensures
        are_equal(a, b) <==> are_one_number(a, b),
        are_equal(m, n) <==> m@.name == n@.name && are_one_number(m@.value, n@.value),
        are_equal(g, h) <==> {
            &&& g@.metric == h@.metric
            &&& are_one_number(g@.threshold, h@.threshold)
            &&& g@.direction == h@.direction
        },
        are_equal(d, e) <==> {
            &&& d@.passed == e@.passed
            &&& d@.metric == e@.metric
            &&& d@.observed is Some <==> e@.observed is Some
            &&& d@.observed is Some ==> are_one_number(d@.observed->0, e@.observed->0)
            &&& are_one_number(d@.threshold, e@.threshold)
            &&& d@.direction == e@.direction
        },
{
    ending_laws::law_metrics_compare_as_numbers(a, b);
    ending_laws::law_metrics_compare_as_numbers(m@.value, n@.value);
    ending_laws::law_metrics_compare_as_numbers(g@.threshold, h@.threshold);
    ending_laws::law_metrics_compare_as_numbers(d@.threshold, e@.threshold);
    if d@.observed is Some && e@.observed is Some {
        ending_laws::law_metrics_compare_as_numbers(d@.observed->0, e@.observed->0);
    }
}

/// Workflows and manifests are equal if and only if they hold the same, the thresholds of
/// their gates compared as numbers.
pub proof fn law_workflows_are_compared_whole(
    a: WorkflowSpec,
    b: WorkflowSpec,
    m: RunManifest,
    n: RunManifest,
)
    ensures
        are_equal(a, b) <==> {
            &&& a@.id == b@.id
            &&& a@.version == b@.version
            &&& a@.steps == b@.steps
            &&& value_laws::same_gates(a@.evaluation_gates, b@.evaluation_gates)
        },
        are_equal(m, n) <==> {
            &&& m@.schema_version == n@.schema_version
            &&& m@.workflow_id == n@.workflow_id
            &&& m@.workflow_version == n@.workflow_version
            &&& m@.tasks == n@.tasks
            &&& value_laws::same_gates(m@.evaluation_gates, n@.evaluation_gates)
            &&& m@.provenance == n@.provenance
            &&& m@.metadata == n@.metadata
        },
{
    value_laws::law_all_is_compared(a@, b@, m@, n@);
}

} // verus!
