//! What a view shows: all that a value holds, and nothing else.
use crate::artifact::{ArtifactMetadata, ArtifactRef, StoredArtifact, TaskCacheKey};
use crate::durable::{
    self, Drive, DriveAction, DriveActionView, DriveEvent, DriveEventView,
    DurableExecutorOptions, WorkOutcome, WorkOutcomeView,
};
use crate::error::{
    AdapterError, OrchestratorError, OrchestratorErrorView, RegistryError, RegistryErrorView,
    RepositoryError, RepositoryErrorView, TaskError, TaskErrorView, WorkflowError,
    WorkflowErrorView,
};
use crate::evaluation::{EvaluationGate, GateDecision, Metric};
use crate::ids::{RunId, StepId};
use crate::manifest::{RunManifest, RunProvenance};
use crate::policy::{
    ExecutionPolicy, Residency, ResidencyView, ResourceRequirements, WorkerProfile,
};
use crate::record::{
    EventEnvelope, ExecutionEvent, ExecutionEventView, RunRecord, RunRequest, StepAttempt,
    StepClaim, StepCompletion, StepLease, StepRecord,
};
use crate::runtime::{ExecutorOptions, LocalRun, StepExecution, StepRunResult};
use crate::store;
use crate::task::{TaskContext, TaskSpec};
use crate::views;
use crate::workflow::{StepSpec, WorkflowSpec};
use serde_json::Value;
use vstd::prelude::*;

verus! {

/// The view of a list has the view of each item in its place; that of something that may be
/// absent is absent if it is; and that of a map has the view of each item under its name.
pub proof fn law_items_are_seen_one_by_one<T: View>(
    list: Seq<T>,
    item: Option<T>,
    map: Map<Seq<char>, T>,
    i: int,
    key: Seq<char>,
)
    ensures
        views::all_views(list).len() == list.len(),
        0 <= i < list.len() ==> views::all_views(list)[i] == list[i]@,
        item is None ==> views::some_view(item) is None,
        item is Some ==> views::some_view(item) == Some(item->0@),
        views::map_views(map).contains_key(key) == map.contains_key(key),
        map.contains_key(key) ==> views::map_views(map)[key] == map[key]@,
{
}

/// A pair of ids is seen as the two texts, each in its place.
pub proof fn law_pairs_are_seen_as_pairs(list: Seq<(RunId, StepId)>, i: int)
    ensures
        store::id_pairs(list).len() == list.len(),
        0 <= i < list.len() ==> {
            let (run, step) = list[i];
            store::id_pairs(list)[i] == (run@, step@)
        },
{
}

/// An outcome is seen as what it is: what came out, or what went wrong.
pub proof fn law_outcomes_are_seen_as_they_are<T: View, E: View>(
    value: T,
    item: Option<T>,
    list: Vec<T>,
    error: E,
)
    ensures
        views::outcome_view(Ok::<T, E>(value)) == Ok::<T::V, E::V>(value@),
        views::outcome_view(Err::<T, E>(error)) == Err::<T::V, E::V>(error@),
        views::plain_outcome(Ok::<(), E>(())) == Ok::<(), E::V>(()),
        views::plain_outcome(Err::<(), E>(error)) == Err::<(), E::V>(error@),
        views::some_outcome(Ok::<Option<T>, E>(item)) == Ok::<Option<T::V>, E::V>(
            views::some_view(item),
        ),
        views::some_outcome(Err::<Option<T>, E>(error)) == Err::<Option<T::V>, E::V>(error@),
        views::list_outcome(Ok::<Vec<T>, E>(list)) == Ok::<Seq<T::V>, E::V>(
            views::all_views(list@),
        ),
        views::list_outcome(Err::<Vec<T>, E>(error)) == Err::<Seq<T::V>, E::V>(error@),
{
}

/// The result of a task is seen as what it is: its output, or what went wrong.
pub proof fn law_results_are_seen_as_they_are(output: Value, error: TaskError)
    ensures
        durable::result_view(Ok(output)) == Ok::<Value, TaskErrorView>(output),
        durable::result_view(Err(error)) == Err::<Value, TaskErrorView>(error@),
{
}

/// A `ArtifactMetadata` is seen whole.
pub proof fn law_artifact_metadata_is_seen_whole(item: ArtifactMetadata)
    ensures
        item@.media_type == item.media_type@,
        item@.metadata == views::map_views(item.metadata@),
{
}

/// A `ArtifactRef` is seen whole.
pub proof fn law_artifact_ref_is_seen_whole(item: ArtifactRef)
    ensures
        item@.id == item.id@,
        item@.sha256 == item.sha256@,
        item@.size_bytes == item.size_bytes,
        item@.metadata == item.metadata@,
{
}

/// A `TaskCacheKey` is seen whole.
pub proof fn law_task_cache_key_is_seen_whole(item: TaskCacheKey)
    ensures
        item@.key == item.key@,
        item@.task == item.task@,
        item@.task_version == item.task_version@,
{
}

/// A `StoredArtifact` is seen whole.
pub proof fn law_stored_artifact_is_seen_whole(item: StoredArtifact)
    ensures
        item@.reference == item.reference@,
        item@.bytes == item.bytes@,
{
}

/// A `DurableExecutorOptions` is seen whole.
pub proof fn law_durable_executor_options_is_seen_whole(item: DurableExecutorOptions)
    ensures
        item@.worker == item.worker@,
        item@.provenance == item.provenance@,
        item@.lease_ms == item.lease_ms,
        item@.max_parallel_steps == item.max_parallel_steps,
        item@.poll_interval_ms == item.poll_interval_ms,
        item@.max_idle_time_ms == item.max_idle_time_ms,
{
}

/// A `WorkOutcome` is seen as the kind that it is, with all that it tells.
pub proof fn law_work_outcome_is_seen_whole(item: WorkOutcome)
    ensures
        item@ == (match item {
            WorkOutcome::Idle => WorkOutcomeView::Idle,
            WorkOutcome::Progressed { run_id, status } => WorkOutcomeView::Progressed {
                run_id: run_id@,
                status,
            },
        }),
{
}

/// A `DriveAction` is seen as the kind that it is, with all that it tells.
pub proof fn law_drive_action_is_seen_whole(item: DriveAction)
    ensures
        item@ == (match item {
            DriveAction::Claim => DriveActionView::Claim,
            DriveAction::Execute(claims) => DriveActionView::Execute(views::all_views(claims@)),
            DriveAction::Finish => DriveActionView::Finish,
            DriveAction::Recover => DriveActionView::Recover,
            DriveAction::Sleep(ms) => DriveActionView::Sleep(ms),
            DriveAction::Return(run) => DriveActionView::Return(run@),
            DriveAction::GiveUp(error) => DriveActionView::GiveUp(error@),
        }),
{
}

/// A `DriveEvent` is seen as the kind that it is, with all that it tells.
pub proof fn law_drive_event_is_seen_whole(item: DriveEvent)
    ensures
        item@ == (match item {
            DriveEvent::Claimed(claim) => DriveEventView::Claimed(views::some_view(claim)),
            DriveEvent::Executed => DriveEventView::Executed,
            DriveEvent::Finished(run) => DriveEventView::Finished(run@),
            DriveEvent::Recovered(idle_ms) => DriveEventView::Recovered(idle_ms),
            DriveEvent::Slept => DriveEventView::Slept,
        }),
{
}

/// A `Drive` is seen whole.
pub proof fn law_drive_is_seen_whole(item: Drive)
    ensures
        item@.run_id == item.run_id@,
        item@.claims == views::all_views(item.claims@),
        item@.max_parallel_steps == item.max_parallel_steps,
        item@.poll_interval_ms == item.poll_interval_ms,
        item@.max_idle_time_ms == item.max_idle_time_ms,
{
}

/// A `RegistryError` is seen as the kind that it is, with all that it tells.
pub proof fn law_registry_error_is_seen_whole(item: RegistryError)
    ensures
        item@ == (match item {
            RegistryError::DuplicateTask { task } => RegistryErrorView::DuplicateTask {
                task: task@,
            },
        }),
{
}

/// A `AdapterError` is seen whole.
pub proof fn law_adapter_error_is_seen_whole(item: AdapterError)
    ensures
        item@.adapter == item.adapter@,
        item@.message == item.message@,
{
}

/// A `TaskError` is seen as the kind that it is, with all that it tells.
pub proof fn law_task_error_is_seen_whole(item: TaskError)
    ensures
        item@ == (match item {
            TaskError::InvalidInput(reason) => TaskErrorView::InvalidInput(reason@),
            TaskError::Transient(reason) => TaskErrorView::Transient(reason@),
            TaskError::Permanent(reason) => TaskErrorView::Permanent(reason@),
            TaskError::Timeout { timeout_ms } => TaskErrorView::Timeout { timeout_ms },
            TaskError::Serialization(reason) => TaskErrorView::Serialization(reason@),
        }),
{
}

/// A `WorkflowError` is seen as the kind that it is, with all that it tells.
pub proof fn law_workflow_error_is_seen_whole(item: WorkflowError)
    ensures
        item@ == (match item {
            WorkflowError::DuplicateStep { workflow, step } => WorkflowErrorView::DuplicateStep {
                workflow: workflow@,
                step: step@,
            },
            WorkflowError::UnknownDependency { workflow, step, dependency } => WorkflowErrorView::UnknownDependency {
                workflow: workflow@,
                step: step@,
                dependency: dependency@,
            },
            WorkflowError::DependencyCycle { workflow } => WorkflowErrorView::DependencyCycle {
                workflow: workflow@,
            },
            WorkflowError::Empty { workflow } => WorkflowErrorView::Empty { workflow: workflow@ },
            WorkflowError::UnregisteredTask { task } => WorkflowErrorView::UnregisteredTask {
                task: task@,
            },
            WorkflowError::TaskIdMismatch { workflow, step, task } => WorkflowErrorView::TaskIdMismatch {
                workflow: workflow@,
                step: step@,
                task: task@,
            },
            WorkflowError::UnsatisfiedPolicy { workflow, step } => WorkflowErrorView::UnsatisfiedPolicy {
                workflow: workflow@,
                step: step@,
            },
        }),
{
}

/// A `RepositoryError` is seen as the kind that it is, with all that it tells.
pub proof fn law_repository_error_is_seen_whole(item: RepositoryError)
    ensures
        item@ == (match item {
            RepositoryError::RunNotFound { run } => RepositoryErrorView::RunNotFound { run: run@ },
            RepositoryError::LeaseLost { run, step } => RepositoryErrorView::LeaseLost {
                run: run@,
                step: step@,
            },
            RepositoryError::IdempotencyConflict { run } => RepositoryErrorView::IdempotencyConflict {
                run: run@,
            },
            RepositoryError::InvalidTransition { run, from, to } => RepositoryErrorView::InvalidTransition {
                run: run@,
                from: from@,
                to: to@,
            },
            RepositoryError::Conflict { run } => RepositoryErrorView::Conflict { run: run@ },
            RepositoryError::InvalidCompletion { run, step } => RepositoryErrorView::InvalidCompletion {
                run: run@,
                step: step@,
            },
            RepositoryError::InvalidEvent { run } => RepositoryErrorView::InvalidEvent {
                run: run@,
            },
            RepositoryError::InvalidRequest { message } => RepositoryErrorView::InvalidRequest {
                message: message@,
            },
            RepositoryError::Storage { message } => RepositoryErrorView::Storage {
                message: message@,
            },
        }),
{
}

/// A `OrchestratorError` is seen as the kind that it is, with all that it tells.
pub proof fn law_orchestrator_error_is_seen_whole(item: OrchestratorError)
    ensures
        item@ == (match item {
            OrchestratorError::Workflow(error) => OrchestratorErrorView::Workflow(error@),
            OrchestratorError::Store(error) => OrchestratorErrorView::Store(error@),
            OrchestratorError::EventSink(error) => OrchestratorErrorView::EventSink(error@),
            OrchestratorError::Repository(error) => OrchestratorErrorView::Repository(error@),
            OrchestratorError::Artifact(error) => OrchestratorErrorView::Artifact(error@),
        }),
{
}

/// A `Metric` is seen whole.
pub proof fn law_metric_is_seen_whole(item: Metric)
    ensures
        item@.name == item.name@,
        item@.value == item.value,
{
}

/// A `EvaluationGate` is seen whole.
pub proof fn law_evaluation_gate_is_seen_whole(item: EvaluationGate)
    ensures
        item@.metric == item.metric@,
        item@.threshold == item.threshold,
        item@.direction == item.direction,
{
}

/// A `GateDecision` is seen whole.
pub proof fn law_gate_decision_is_seen_whole(item: GateDecision)
    ensures
        item@.passed == item.passed,
        item@.metric == item.metric@,
        item@.observed == item.observed,
        item@.threshold == item.threshold,
        item@.direction == item.direction,
{
}

/// A `RunProvenance` is seen whole.
pub proof fn law_run_provenance_is_seen_whole(item: RunProvenance)
    ensures
        item@.model == views::some_view(item.model),
        item@.prompt == views::some_view(item.prompt),
        item@.dataset == views::some_view(item.dataset),
        item@.input_hash == views::some_view(item.input_hash),
        item@.calibration == views::some_view(item.calibration),
        item@.code_revision == views::some_view(item.code_revision),
        item@.environment == views::map_views(item.environment@),
{
}

/// A `RunManifest` is seen whole.
pub proof fn law_run_manifest_is_seen_whole(item: RunManifest)
    ensures
        item@.schema_version == item.schema_version,
        item@.workflow_id == item.workflow_id@,
        item@.workflow_version == item.workflow_version@,
        item@.tasks == views::map_views(item.tasks@),
        item@.evaluation_gates == views::all_views(item.evaluation_gates@),
        item@.provenance == item.provenance@,
        item@.metadata == views::map_views(item.metadata@),
{
}

/// A `Residency` is seen as the kind that it is, with all that it tells.
pub proof fn law_residency_is_seen_whole(item: Residency)
    ensures
        item@ == (match item {
            Residency::Any => ResidencyView::Any,
            Residency::Region(region) => ResidencyView::Region(region@),
        }),
{
}

/// A `ResourceRequirements` is seen whole.
pub proof fn law_resource_requirements_is_seen_whole(item: ResourceRequirements)
    ensures
        item@.cpu_millis == item.cpu_millis,
        item@.memory_mb == item.memory_mb,
        item@.gpu_count == item.gpu_count,
        item@.capabilities == item.capabilities@,
{
}

/// A `WorkerProfile` is seen whole.
pub proof fn law_worker_profile_is_seen_whole(item: WorkerProfile)
    ensures
        item@.id == item.id@,
        item@.residency == item.residency@,
        item@.resources == item.resources@,
{
}

/// A `ExecutionPolicy` is seen whole.
pub proof fn law_execution_policy_is_seen_whole(item: ExecutionPolicy)
    ensures
        item@.retry == item.retry,
        item@.timeout_ms == item.timeout_ms,
        item@.fallback_task == views::some_view(item.fallback_task),
        item@.residency == item.residency@,
        item@.resources == item.resources@,
{
}

/// A `StepAttempt` is seen whole.
pub proof fn law_step_attempt_is_seen_whole(item: StepAttempt)
    ensures
        item@.id == item.id@,
        item@.number == item.number,
        item@.worker == item.worker@,
        item@.lease_token == item.lease_token,
        item@.started_at_ms == item.started_at_ms,
        item@.finished_at_ms == item.finished_at_ms,
        item@.status == item.status,
        item@.error == views::some_view(item.error),
{
}

/// A `StepLease` is seen whole.
pub proof fn law_step_lease_is_seen_whole(item: StepLease)
    ensures
        item@.worker == item.worker@,
        item@.token == item.token,
        item@.expires_at_ms == item.expires_at_ms,
{
}

/// A `StepRecord` is seen whole.
pub proof fn law_step_record_is_seen_whole(item: StepRecord)
    ensures
        item@.id == item.id@,
        item@.task == item.task@,
        item@.status == item.status,
        item@.attempts == item.attempts,
        item@.output == item.output,
        item@.error == views::some_view(item.error),
        item@.fallback_used == item.fallback_used,
        item@.lease == views::some_view(item.lease),
        item@.history == views::all_views(item.history@),
        item@.artifacts == views::all_views(item.artifacts@),
        item@.next_attempt_at_ms == item.next_attempt_at_ms,
{
}

/// A `ExecutionEvent` is seen as the kind that it is, with all that it tells.
pub proof fn law_execution_event_is_seen_whole(item: ExecutionEvent)
    ensures
        item@ == (match item {
            ExecutionEvent::RunStarted { run_id, workflow_id } => ExecutionEventView::RunStarted {
                run_id: run_id@,
                workflow_id: workflow_id@,
            },
            ExecutionEvent::StepStarted { run_id, step_id, task, attempt } => ExecutionEventView::StepStarted {
                run_id: run_id@,
                step_id: step_id@,
                task: task@,
                attempt,
            },
            ExecutionEvent::StepRetrying { run_id, step_id, attempt, error } => ExecutionEventView::StepRetrying {
                run_id: run_id@,
                step_id: step_id@,
                attempt,
                error: error@,
            },
            ExecutionEvent::StepFallbackSelected { run_id, step_id, task } => ExecutionEventView::StepFallbackSelected {
                run_id: run_id@,
                step_id: step_id@,
                task: task@,
            },
            ExecutionEvent::StepSucceeded { run_id, step_id, attempts } => ExecutionEventView::StepSucceeded {
                run_id: run_id@,
                step_id: step_id@,
                attempts,
            },
            ExecutionEvent::StepFailed { run_id, step_id, attempts, error } => ExecutionEventView::StepFailed {
                run_id: run_id@,
                step_id: step_id@,
                attempts,
                error: error@,
            },
            ExecutionEvent::RunFinished { run_id, status } => ExecutionEventView::RunFinished {
                run_id: run_id@,
                status,
            },
        }),
{
}

/// A `EventEnvelope` is seen whole.
pub proof fn law_event_envelope_is_seen_whole(item: EventEnvelope)
    ensures
        item@.schema_version == item.schema_version,
        item@.event_id == item.event_id@,
        item@.sequence == item.sequence,
        item@.occurred_at_ms == item.occurred_at_ms,
        item@.event == item.event@,
{
}

/// A `RunRequest` is seen whole.
pub proof fn law_run_request_is_seen_whole(item: RunRequest)
    ensures
        item@.run_id == item.run_id@,
        item@.workflow == item.workflow@,
        item@.manifest == item.manifest@,
        item@.input == item.input,
        item@.idempotency_key == views::some_view(item.idempotency_key),
{
}

/// A `StepClaim` is seen whole.
pub proof fn law_step_claim_is_seen_whole(item: StepClaim)
    ensures
        item@.run_id == item.run_id@,
        item@.workflow_id == item.workflow_id@,
        item@.step == item.step@,
        item@.task == item.task@,
        item@.input == item.input,
        item@.worker == item.worker@,
        item@.lease_token == item.lease_token,
        item@.attempt == item.attempt,
        item@.fallback_used == item.fallback_used,
{
}

/// A `StepCompletion` is seen whole.
pub proof fn law_step_completion_is_seen_whole(item: StepCompletion)
    ensures
        item@.status == item.status,
        item@.output == item.output,
        item@.error == views::some_view(item.error),
        item@.next_task == views::some_view(item.next_task),
        item@.fallback_used == item.fallback_used,
        item@.artifacts == views::all_views(item.artifacts@),
        item@.event == item.event@,
        item@.retry_after_ms == item.retry_after_ms,
{
}

/// A `RunRecord` is seen whole.
pub proof fn law_run_record_is_seen_whole(item: RunRecord)
    ensures
        item@.schema_version == item.schema_version,
        item@.run_id == item.run_id@,
        item@.workflow == item.workflow@,
        item@.manifest == item.manifest@,
        item@.input == item.input,
        item@.status == item.status,
        item@.steps == views::map_views(item.steps@),
        item@.events == views::all_views(item.events@),
        item@.event_log == views::all_views(item.event_log@),
        item@.metrics == views::all_views(item.metrics@),
        item@.gate_decisions == views::map_views(item.gate_decisions@),
        item@.error == views::some_view(item.error),
        item@.idempotency_key == views::some_view(item.idempotency_key),
        item@.revision == item.revision,
        item@.created_at_ms == item.created_at_ms,
{
}

/// A `ExecutorOptions` is seen whole.
pub proof fn law_executor_options_is_seen_whole(item: ExecutorOptions)
    ensures
        item@.max_parallel_steps == item.max_parallel_steps,
        item@.worker == item.worker@,
        item@.provenance == item.provenance@,
{
}

/// A `StepExecution` is seen whole.
pub proof fn law_step_execution_is_seen_whole(item: StepExecution)
    ensures
        item@.run_id == item.run_id@,
        item@.workflow_id == item.workflow_id@,
        item@.step == item.step@,
        item@.worker == item.worker@,
        item@.task == item.task@,
        item@.fallback_used == item.fallback_used,
        item@.fallback_attempted == item.fallback_attempted,
        item@.attempts == item.attempts,
        item@.last_error == views::some_view(item.last_error),
        item@.events == views::all_views(item.events@),
{
}

/// A `StepRunResult` is seen whole.
pub proof fn law_step_run_result_is_seen_whole(item: StepRunResult)
    ensures
        item@.record == item.record@,
        item@.events == views::all_views(item.events@),
{
}

/// A `LocalRun` is seen whole.
pub proof fn law_local_run_is_seen_whole(item: LocalRun)
    ensures
        item@.run == item.run@,
        item@.waiting == views::all_views(item.waiting@),
        item@.limit == item.limit,
        item@.ended == item.ended,
{
}

/// A `TaskSpec` is seen whole.
pub proof fn law_task_spec_is_seen_whole(item: TaskSpec)
    ensures
        item@.id == item.id@,
        item@.version == item.version@,
        item@.capability == item.capability@,
        item@.metadata == views::map_views(item.metadata@),
{
}

/// A `TaskContext` is seen whole.
pub proof fn law_task_context_is_seen_whole(item: TaskContext)
    ensures
        item@.run_id == item.run_id@,
        item@.workflow_id == item.workflow_id@,
        item@.step_id == item.step_id@,
        item@.attempt == item.attempt,
        item@.task == item.task@,
        item@.worker == views::some_view(item.worker),
{
}

/// A `StepSpec` is seen whole.
pub proof fn law_step_spec_is_seen_whole(item: StepSpec)
    ensures
        item@.id == item.id@,
        item@.task == item.task@,
        item@.depends_on == views::all_views(item.depends_on@),
        item@.policy == item.policy@,
{
}

/// A `WorkflowSpec` is seen whole.
pub proof fn law_workflow_spec_is_seen_whole(item: WorkflowSpec)
    ensures
        item@.id == item.id@,
        item@.version == item.version@,
        item@.steps == views::all_views(item.steps@),
        item@.evaluation_gates == views::all_views(item.evaluation_gates@),
{
}

} // verus!
