//! The records of runs, steps, attempts and events.
use crate::artifact::{ArtifactRef, ArtifactRefView};
use crate::clock::{self, now_ms};
use crate::evaluation::{GateDecision, GateDecisionView, Metric, MetricView};
use crate::ids::{AttemptId, EventId, IdempotencyKey, RunId, StepId, TaskId, WorkerId, WorkflowId};
use crate::manifest::{RunManifest, RunManifestView, SCHEMA_VERSION};
use crate::ordered::OrderedMap;
use crate::task::{TaskSpec, TaskSpecView};
use crate::views;
use crate::workflow::{StepSpec, StepSpecView, WorkflowSpec, WorkflowSpecView};
use serde_json::Value;
use vstd::prelude::*;

verus! {

/// Where a run stands.
#[derive(Clone, Copy, Debug, PartialEq, Eq, Structural)]
pub enum RunStatus {
    Pending,
    Running,
    Paused,
    CancelRequested,
    Cancelled,
    Succeeded,
    Failed,
}

/// Where a step stands.
#[derive(Clone, Copy, Debug, PartialEq, Eq, Structural)]
pub enum StepStatus {
    Pending,
    Claimed,
    Running,
    Retrying,
    Succeeded,
    Failed,
    Cancelled,
}

/// A single leased attempt of a step.
#[derive(Debug, PartialEq, Eq)]
pub struct StepAttempt {
    pub id: AttemptId,
    pub number: u32,
    pub worker: WorkerId,
    pub lease_token: u64,
    pub started_at_ms: u64,
    pub finished_at_ms: Option<u64>,
    pub status: StepStatus,
    pub error: Option<String>,
}

/// What a `StepAttempt` holds.
#[verifier::ext_equal]
pub struct StepAttemptView {
    pub id: Seq<char>,
    pub number: u32,
    pub worker: Seq<char>,
    pub lease_token: u64,
    pub started_at_ms: u64,
    pub finished_at_ms: Option<u64>,
    pub status: StepStatus,
    pub error: Option<Seq<char>>,
}

impl View for StepAttempt {
    type V = StepAttemptView;

    open spec fn view(&self) -> StepAttemptView {
        StepAttemptView {
            id: self.id@,
            number: self.number,
            worker: self.worker@,
            lease_token: self.lease_token,
            started_at_ms: self.started_at_ms,
            finished_at_ms: self.finished_at_ms,
            status: self.status,
            error: views::some_view(self.error),
        }
    }
}

impl Clone for StepAttempt {
    fn clone(&self) -> (copy: Self)
        ensures
            copy@ == self@,
    {
        let copy = StepAttempt {
            id: self.id.clone(),
            number: self.number,
            worker: self.worker.clone(),
            lease_token: self.lease_token,
            started_at_ms: self.started_at_ms,
            finished_at_ms: self.finished_at_ms,
            status: self.status,
            error: self.error.clone(),
        };
        copy
    }
}

/// A fencing lease that prevents stale workers from committing results.
#[derive(Debug, PartialEq, Eq)]
pub struct StepLease {
    pub worker: WorkerId,
    pub token: u64,
    pub expires_at_ms: u64,
}

/// What a `StepLease` holds.
#[verifier::ext_equal]
pub struct StepLeaseView {
    pub worker: Seq<char>,
    pub token: u64,
    pub expires_at_ms: u64,
}

impl View for StepLease {
    type V = StepLeaseView;

    open spec fn view(&self) -> StepLeaseView {
        StepLeaseView {
            worker: self.worker@,
            token: self.token,
            expires_at_ms: self.expires_at_ms,
        }
    }
}

impl Clone for StepLease {
    fn clone(&self) -> (copy: Self)
        ensures
            copy@ == self@,
    {
        let copy = StepLease {
            worker: self.worker.clone(),
            token: self.token,
            expires_at_ms: self.expires_at_ms,
        };
        copy
    }
}

/// What is known of the execution of a step.
#[derive(Debug, PartialEq)]
pub struct StepRecord {
    pub id: StepId,
    pub task: TaskId,
    pub status: StepStatus,
    pub attempts: u32,
    pub output: Option<Value>,
    pub error: Option<String>,
    pub fallback_used: bool,
    pub lease: Option<StepLease>,
    pub history: Vec<StepAttempt>,
    pub artifacts: Vec<ArtifactRef>,
    pub next_attempt_at_ms: Option<u64>,
}

/// What a `StepRecord` holds.
#[verifier::ext_equal]
pub struct StepRecordView {
    pub id: Seq<char>,
    pub task: Seq<char>,
    pub status: StepStatus,
    pub attempts: u32,
    pub output: Option<Value>,
    pub error: Option<Seq<char>>,
    pub fallback_used: bool,
    pub lease: Option<StepLeaseView>,
    pub history: Seq<StepAttemptView>,
    pub artifacts: Seq<ArtifactRefView>,
    pub next_attempt_at_ms: Option<u64>,
}

impl View for StepRecord {
    type V = StepRecordView;

    open spec fn view(&self) -> StepRecordView {
        StepRecordView {
            id: self.id@,
            task: self.task@,
            status: self.status,
            attempts: self.attempts,
            output: self.output,
            error: views::some_view(self.error),
            fallback_used: self.fallback_used,
            lease: views::some_view(self.lease),
            history: views::all_views(self.history@),
            artifacts: views::all_views(self.artifacts@),
            next_attempt_at_ms: self.next_attempt_at_ms,
        }
    }
}

impl Clone for StepRecord {
    fn clone(&self) -> (copy: Self)
        ensures
            copy@ == self@,
    {
        let copy = StepRecord {
            id: self.id.clone(),
            task: self.task.clone(),
            status: self.status,
            attempts: self.attempts,
            output: self.output.clone(),
            error: self.error.clone(),
            fallback_used: self.fallback_used,
            lease: self.lease.clone(),
            history: self.history.clone(),
            artifacts: self.artifacts.clone(),
            next_attempt_at_ms: self.next_attempt_at_ms,
        };
        proof {
            views::lemma_cloned_list(self.history@, copy.history@);
            views::lemma_cloned_list(self.artifacts@, copy.artifacts@);
        }
        copy
    }
}

/// Something that happened to a run or to one of its steps.
#[derive(Debug, PartialEq, Eq)]
pub enum ExecutionEvent {
    RunStarted { run_id: RunId, workflow_id: WorkflowId },
    StepStarted { run_id: RunId, step_id: StepId, task: TaskId, attempt: u32 },
    StepRetrying { run_id: RunId, step_id: StepId, attempt: u32, error: String },
    StepFallbackSelected { run_id: RunId, step_id: StepId, task: TaskId },
    StepSucceeded { run_id: RunId, step_id: StepId, attempts: u32 },
    StepFailed { run_id: RunId, step_id: StepId, attempts: u32, error: String },
    RunFinished { run_id: RunId, status: RunStatus },
}

/// What an `ExecutionEvent` holds.
#[verifier::ext_equal]
pub enum ExecutionEventView {
    RunStarted { run_id: Seq<char>, workflow_id: Seq<char> },
    StepStarted { run_id: Seq<char>, step_id: Seq<char>, task: Seq<char>, attempt: u32 },
    StepRetrying { run_id: Seq<char>, step_id: Seq<char>, attempt: u32, error: Seq<char> },
    StepFallbackSelected { run_id: Seq<char>, step_id: Seq<char>, task: Seq<char> },
    StepSucceeded { run_id: Seq<char>, step_id: Seq<char>, attempts: u32 },
    StepFailed { run_id: Seq<char>, step_id: Seq<char>, attempts: u32, error: Seq<char> },
    RunFinished { run_id: Seq<char>, status: RunStatus },
}

impl View for ExecutionEvent {
    type V = ExecutionEventView;

    open spec fn view(&self) -> ExecutionEventView {
        match *self {
            ExecutionEvent::RunStarted { run_id, workflow_id } => ExecutionEventView::RunStarted {
                run_id: run_id@,
                workflow_id: workflow_id@,
            },
            ExecutionEvent::StepStarted { run_id, step_id, task, attempt } => ExecutionEventView::StepStarted {
                run_id: run_id@,
                step_id: step_id@,
                task: task@,
                attempt,
            },
            ExecutionEvent::StepRetrying { run_id, step_id, attempt, error } => ExecutionEventView::StepRetrying {
                run_id: run_id@,
                step_id: step_id@,
                attempt,
                error: error@,
            },
            ExecutionEvent::StepFallbackSelected { run_id, step_id, task } => ExecutionEventView::StepFallbackSelected {
                run_id: run_id@,
                step_id: step_id@,
                task: task@,
            },
            ExecutionEvent::StepSucceeded { run_id, step_id, attempts } => ExecutionEventView::StepSucceeded {
                run_id: run_id@,
                step_id: step_id@,
                attempts,
            },
            ExecutionEvent::StepFailed { run_id, step_id, attempts, error } => ExecutionEventView::StepFailed {
                run_id: run_id@,
                step_id: step_id@,
                attempts,
                error: error@,
            },
            ExecutionEvent::RunFinished { run_id, status } => ExecutionEventView::RunFinished {
                run_id: run_id@,
                status,
            },
        }
    }
}

impl Clone for ExecutionEvent {
    fn clone(&self) -> (copy: Self)
        ensures
            copy@ == self@,
    {
        match self {
            ExecutionEvent::RunStarted { run_id, workflow_id } => ExecutionEvent::RunStarted {
                run_id: run_id.clone(),
                workflow_id: workflow_id.clone(),
            },
            ExecutionEvent::StepStarted { run_id, step_id, task, attempt } => ExecutionEvent::StepStarted {
                run_id: run_id.clone(),
                step_id: step_id.clone(),
                task: task.clone(),
                attempt: *attempt,
            },
            ExecutionEvent::StepRetrying { run_id, step_id, attempt, error } => ExecutionEvent::StepRetrying {
                run_id: run_id.clone(),
                step_id: step_id.clone(),
                attempt: *attempt,
                error: error.clone(),
            },
            ExecutionEvent::StepFallbackSelected { run_id, step_id, task } => ExecutionEvent::StepFallbackSelected {
                run_id: run_id.clone(),
                step_id: step_id.clone(),
                task: task.clone(),
            },
            ExecutionEvent::StepSucceeded { run_id, step_id, attempts } => ExecutionEvent::StepSucceeded {
                run_id: run_id.clone(),
                step_id: step_id.clone(),
                attempts: *attempts,
            },
            ExecutionEvent::StepFailed { run_id, step_id, attempts, error } => ExecutionEvent::StepFailed {
                run_id: run_id.clone(),
                step_id: step_id.clone(),
                attempts: *attempts,
                error: error.clone(),
            },
            ExecutionEvent::RunFinished { run_id, status } => ExecutionEvent::RunFinished {
                run_id: run_id.clone(),
                status: *status,
            },
        }
    }
}

/// An ordered, deduplicable event envelope. `ExecutionEvent` remains the
/// ergonomic payload while this envelope is the durable transport contract.
#[derive(Debug, PartialEq, Eq)]
pub struct EventEnvelope {
    pub schema_version: u32,
    pub event_id: EventId,
    pub sequence: u64,
    pub occurred_at_ms: u64,
    pub event: ExecutionEvent,
}

/// What a `EventEnvelope` holds.
#[verifier::ext_equal]
pub struct EventEnvelopeView {
    pub schema_version: u32,
    pub event_id: Seq<char>,
    pub sequence: u64,
    pub occurred_at_ms: u64,
    pub event: ExecutionEventView,
}

impl View for EventEnvelope {
    type V = EventEnvelopeView;

    open spec fn view(&self) -> EventEnvelopeView {
        EventEnvelopeView {
            schema_version: self.schema_version,
            event_id: self.event_id@,
            sequence: self.sequence,
            occurred_at_ms: self.occurred_at_ms,
            event: self.event@,
        }
    }
}

impl Clone for EventEnvelope {
    fn clone(&self) -> (copy: Self)
        ensures
            copy@ == self@,
    {
        let copy = EventEnvelope {
            schema_version: self.schema_version,
            event_id: self.event_id.clone(),
            sequence: self.sequence,
            occurred_at_ms: self.occurred_at_ms,
            event: self.event.clone(),
        };
        copy
    }
}

/// Input required to create a durable run.
#[derive(Debug, PartialEq)]
pub struct RunRequest {
    pub run_id: RunId,
    pub workflow: WorkflowSpec,
    pub manifest: RunManifest,
    pub input: Value,
    pub idempotency_key: Option<IdempotencyKey>,
}

/// What a `RunRequest` holds.
#[verifier::ext_equal]
pub struct RunRequestView {
    pub run_id: Seq<char>,
    pub workflow: WorkflowSpecView,
    pub manifest: RunManifestView,
    pub input: Value,
    pub idempotency_key: Option<Seq<char>>,
}

impl View for RunRequest {
    type V = RunRequestView;

    open spec fn view(&self) -> RunRequestView {
        RunRequestView {
            run_id: self.run_id@,
            workflow: self.workflow@,
            manifest: self.manifest@,
            input: self.input,
            idempotency_key: views::some_view(self.idempotency_key),
        }
    }
}

impl Clone for RunRequest {
    fn clone(&self) -> (copy: Self)
        ensures
            copy@ == self@,
    {
        let copy = RunRequest {
            run_id: self.run_id.clone(),
            workflow: self.workflow.clone(),
            manifest: self.manifest.clone(),
            input: self.input.clone(),
            idempotency_key: self.idempotency_key.clone(),
        };
        copy
    }
}

/// A worker-owned step claim. The input is snapshotted at claim time so a
/// retry or recovery cannot observe a different dependency graph.
#[derive(Debug, PartialEq)]
pub struct StepClaim {
    pub run_id: RunId,
    pub workflow_id: WorkflowId,
    pub step: StepSpec,
    pub task: TaskSpec,
    pub input: Value,
    pub worker: WorkerId,
    pub lease_token: u64,
    pub attempt: u32,
    pub fallback_used: bool,
}

/// What a `StepClaim` holds.
#[verifier::ext_equal]
pub struct StepClaimView {
    pub run_id: Seq<char>,
    pub workflow_id: Seq<char>,
    pub step: StepSpecView,
    pub task: TaskSpecView,
    pub input: Value,
    pub worker: Seq<char>,
    pub lease_token: u64,
    pub attempt: u32,
    pub fallback_used: bool,
}

impl View for StepClaim {
    type V = StepClaimView;

    open spec fn view(&self) -> StepClaimView {
        StepClaimView {
            run_id: self.run_id@,
            workflow_id: self.workflow_id@,
            step: self.step@,
            task: self.task@,
            input: self.input,
            worker: self.worker@,
            lease_token: self.lease_token,
            attempt: self.attempt,
            fallback_used: self.fallback_used,
        }
    }
}

impl Clone for StepClaim {
    fn clone(&self) -> (copy: Self)
        ensures
            copy@ == self@,
    {
        let copy = StepClaim {
            run_id: self.run_id.clone(),
            workflow_id: self.workflow_id.clone(),
            step: self.step.clone(),
            task: self.task.clone(),
            input: self.input.clone(),
            worker: self.worker.clone(),
            lease_token: self.lease_token,
            attempt: self.attempt,
            fallback_used: self.fallback_used,
        };
        copy
    }
}

/// The atomic state transition produced by a worker.
#[derive(Debug, PartialEq)]
pub struct StepCompletion {
    pub status: StepStatus,
    pub output: Option<Value>,
    pub error: Option<String>,
    pub next_task: Option<TaskId>,
    pub fallback_used: bool,
    pub artifacts: Vec<ArtifactRef>,
    pub event: ExecutionEvent,
    pub retry_after_ms: Option<u64>,
}

/// What a `StepCompletion` holds.
#[verifier::ext_equal]
pub struct StepCompletionView {
    pub status: StepStatus,
    pub output: Option<Value>,
    pub error: Option<Seq<char>>,
    pub next_task: Option<Seq<char>>,
    pub fallback_used: bool,
    pub artifacts: Seq<ArtifactRefView>,
    pub event: ExecutionEventView,
    pub retry_after_ms: Option<u64>,
}

impl View for StepCompletion {
    type V = StepCompletionView;

    open spec fn view(&self) -> StepCompletionView {
        StepCompletionView {
            status: self.status,
            output: self.output,
            error: views::some_view(self.error),
            next_task: views::some_view(self.next_task),
            fallback_used: self.fallback_used,
            artifacts: views::all_views(self.artifacts@),
            event: self.event@,
            retry_after_ms: self.retry_after_ms,
        }
    }
}

impl Clone for StepCompletion {
    fn clone(&self) -> (copy: Self)
        ensures
            copy@ == self@,
    {
        let copy = StepCompletion {
            status: self.status,
            output: self.output.clone(),
            error: self.error.clone(),
            next_task: self.next_task.clone(),
            fallback_used: self.fallback_used,
            artifacts: self.artifacts.clone(),
            event: self.event.clone(),
            retry_after_ms: self.retry_after_ms,
        };
        proof {
            views::lemma_cloned_list(self.artifacts@, copy.artifacts@);
        }
        copy
    }
}


impl StepCompletionView {
    /// The step is done, with an output.
    pub open spec fn success(
        run_id: Seq<char>,
        step_id: Seq<char>,
        output: Value,
        attempts: u32,
    ) -> StepCompletionView {
        StepCompletionView {
            status: StepStatus::Succeeded,
            output: Some(output),
            error: None,
            next_task: None,
            fallback_used: false,
            artifacts: Seq::empty(),
            event: ExecutionEventView::StepSucceeded { run_id, step_id, attempts },
            retry_after_ms: None,
        }
    }

    /// The step is to be tried again.
    pub open spec fn retry(
        run_id: Seq<char>,
        step_id: Seq<char>,
        attempt: u32,
        error: Seq<char>,
    ) -> StepCompletionView {
        StepCompletionView {
            status: StepStatus::Retrying,
            output: None,
            error: Some(error),
            next_task: None,
            fallback_used: false,
            artifacts: Seq::empty(),
            event: ExecutionEventView::StepRetrying { run_id, step_id, attempt, error },
            retry_after_ms: None,
        }
    }

    /// The step is to be tried with its fallback task.
    pub open spec fn falling_back(
        run_id: Seq<char>,
        step_id: Seq<char>,
        task: Seq<char>,
        error: Seq<char>,
    ) -> StepCompletionView {
        StepCompletionView {
            status: StepStatus::Retrying,
            output: None,
            error: Some(error),
            next_task: Some(task),
            fallback_used: true,
            artifacts: Seq::empty(),
            event: ExecutionEventView::StepFallbackSelected { run_id, step_id, task },
            retry_after_ms: None,
        }
    }

    /// The step has failed for good.
    pub open spec fn failure(
        run_id: Seq<char>,
        step_id: Seq<char>,
        attempts: u32,
        error: Seq<char>,
    ) -> StepCompletionView {
        StepCompletionView {
            status: StepStatus::Failed,
            output: None,
            error: Some(error),
            next_task: None,
            fallback_used: false,
            artifacts: Seq::empty(),
            event: ExecutionEventView::StepFailed { run_id, step_id, attempts, error },
            retry_after_ms: None,
        }
    }
}

fn no_artifacts() -> (artifacts: Vec<ArtifactRef>)
    ensures
        views::all_views(artifacts@) == Seq::<ArtifactRefView>::empty(),
{
    let artifacts: Vec<ArtifactRef> = Vec::new();
    assert(views::all_views(artifacts@) =~= Seq::<ArtifactRefView>::empty());
    artifacts
}

impl StepCompletion {
    /// Attaches immutable artifact references to the committed step output.
    #[must_use]
    pub fn with_artifacts(self, artifacts: Vec<ArtifactRef>) -> (completion: Self)
        ensures
            completion@ == (StepCompletionView {
                artifacts: views::all_views(artifacts@),
                ..self@
            }),
    {
        let mut completion = self;
        completion.artifacts = artifacts;
        completion
    }

    /// The step is done, with an output.
    #[must_use]
    pub fn succeeded(run_id: RunId, step_id: StepId, output: Value, attempts: u32) -> (completion:
        Self)
        ensures
            completion@ == StepCompletionView::success(run_id@, step_id@, output, attempts),
    {
        StepCompletion {
            status: StepStatus::Succeeded,
            output: Some(output),
            error: None,
            next_task: None,
            fallback_used: false,
            artifacts: no_artifacts(),
            event: ExecutionEvent::StepSucceeded { run_id, step_id, attempts },
            retry_after_ms: None,
        }
    }

    /// The step is to be tried again.
    #[must_use]
    pub fn retrying(run_id: RunId, step_id: StepId, attempt: u32, error: String) -> (completion:
        Self)
        ensures
            completion@ == StepCompletionView::retry(run_id@, step_id@, attempt, error@),
    {
        StepCompletion {
            status: StepStatus::Retrying,
            output: None,
            error: Some(error.clone()),
            next_task: None,
            fallback_used: false,
            artifacts: no_artifacts(),
            event: ExecutionEvent::StepRetrying { run_id, step_id, attempt, error },
            retry_after_ms: None,
        }
    }

    /// The step is to be tried with its fallback task.
    #[must_use]
    pub fn fallback(run_id: RunId, step_id: StepId, task: TaskId, error: String) -> (completion:
        Self)
        ensures
            completion@ == StepCompletionView::falling_back(run_id@, step_id@, task@, error@),
    {
        StepCompletion {
            status: StepStatus::Retrying,
            output: None,
            error: Some(error),
            next_task: Some(task.clone()),
            fallback_used: true,
            artifacts: no_artifacts(),
            event: ExecutionEvent::StepFallbackSelected { run_id, step_id, task },
            retry_after_ms: None,
        }
    }

    /// The step has failed for good.
    #[must_use]
    pub fn failed(run_id: RunId, step_id: StepId, attempts: u32, error: String) -> (completion:
        Self)
        ensures
            completion@ == StepCompletionView::failure(run_id@, step_id@, attempts, error@),
    {
        StepCompletion {
            status: StepStatus::Failed,
            output: None,
            error: Some(error.clone()),
            next_task: None,
            fallback_used: false,
            artifacts: no_artifacts(),
            event: ExecutionEvent::StepFailed { run_id, step_id, attempts, error },
            retry_after_ms: None,
        }
    }

    /// Stores retry backoff in the repository so a worker can release its
    /// lease before waiting for the next eligible attempt.
    #[must_use]
    pub fn with_retry_after_ms(self, delay_ms: u64) -> (completion: Self)
        ensures
            completion@ == (StepCompletionView { retry_after_ms: Some(delay_ms), ..self@ }),
    {
        let mut completion = self;
        completion.retry_after_ms = Some(delay_ms);
        completion
    }
}

/// What is known of the execution of a run.
#[derive(Debug, PartialEq)]
pub struct RunRecord {
    pub schema_version: u32,
    pub run_id: RunId,
    pub workflow: WorkflowSpec,
    pub manifest: RunManifest,
    pub input: Value,
    pub status: RunStatus,
    pub steps: OrderedMap<StepId, StepRecord>,
    pub events: Vec<ExecutionEvent>,
    pub event_log: Vec<EventEnvelope>,
    pub metrics: Vec<Metric>,
    pub gate_decisions: OrderedMap<String, GateDecision>,
    pub error: Option<String>,
    pub idempotency_key: Option<IdempotencyKey>,
    pub revision: u64,
    pub created_at_ms: u64,
}

/// What a `RunRecord` holds.
#[verifier::ext_equal]
pub struct RunRecordView {
    pub schema_version: u32,
    pub run_id: Seq<char>,
    pub workflow: WorkflowSpecView,
    pub manifest: RunManifestView,
    pub input: Value,
    pub status: RunStatus,
    pub steps: Map<Seq<char>, StepRecordView>,
    pub events: Seq<ExecutionEventView>,
    pub event_log: Seq<EventEnvelopeView>,
    pub metrics: Seq<MetricView>,
    pub gate_decisions: Map<Seq<char>, GateDecisionView>,
    pub error: Option<Seq<char>>,
    pub idempotency_key: Option<Seq<char>>,
    pub revision: u64,
    pub created_at_ms: u64,
}

impl View for RunRecord {
    type V = RunRecordView;

    open spec fn view(&self) -> RunRecordView {
        RunRecordView {
            schema_version: self.schema_version,
            run_id: self.run_id@,
            workflow: self.workflow@,
            manifest: self.manifest@,
            input: self.input,
            status: self.status,
            steps: views::map_views(self.steps@),
            events: views::all_views(self.events@),
            event_log: views::all_views(self.event_log@),
            metrics: views::all_views(self.metrics@),
            gate_decisions: views::map_views(self.gate_decisions@),
            error: views::some_view(self.error),
            idempotency_key: views::some_view(self.idempotency_key),
            revision: self.revision,
            created_at_ms: self.created_at_ms,
        }
    }
}

impl Clone for RunRecord {
    fn clone(&self) -> (copy: Self)
        ensures
            copy@ == self@,
    {
        let copy = RunRecord {
            schema_version: self.schema_version,
            run_id: self.run_id.clone(),
            workflow: self.workflow.clone(),
            manifest: self.manifest.clone(),
            input: self.input.clone(),
            status: self.status,
            steps: self.steps.clone(),
            events: self.events.clone(),
            event_log: self.event_log.clone(),
            metrics: self.metrics.clone(),
            gate_decisions: self.gate_decisions.clone(),
            error: self.error.clone(),
            idempotency_key: self.idempotency_key.clone(),
            revision: self.revision,
            created_at_ms: self.created_at_ms,
        };
        proof {
            views::lemma_cloned_map(self.steps@, copy.steps@);
            views::lemma_cloned_list(self.events@, copy.events@);
            views::lemma_cloned_list(self.event_log@, copy.event_log@);
            views::lemma_cloned_list(self.metrics@, copy.metrics@);
            views::lemma_cloned_map(self.gate_decisions@, copy.gate_decisions@);
        }
        copy
    }
}


impl RunRecordView {
    /// A run of which nothing has been done yet.
    pub open spec fn fresh(
        run_id: Seq<char>,
        workflow: WorkflowSpecView,
        manifest: RunManifestView,
        input: Value,
        created_at_ms: u64,
    ) -> RunRecordView {
        RunRecordView {
            schema_version: SCHEMA_VERSION,
            run_id,
            workflow,
            manifest,
            input,
            status: RunStatus::Pending,
            steps: Map::empty(),
            events: Seq::empty(),
            event_log: Seq::empty(),
            metrics: Seq::empty(),
            gate_decisions: Map::empty(),
            error: None,
            idempotency_key: None,
            revision: 0,
            created_at_ms,
        }
    }
}

impl RunRecord {
    /// A run of which nothing has been done yet, created at the given time.
    pub fn new_at(
        run_id: RunId,
        workflow: WorkflowSpec,
        manifest: RunManifest,
        input: Value,
        created_at_ms: u64,
    ) -> (run: Self)
        ensures
            run@ == RunRecordView::fresh(
                run_id@,
                workflow@,
                manifest@,
                input,
                created_at_ms,
            ),
    {
        let run = RunRecord {
            schema_version: SCHEMA_VERSION,
            run_id,
            workflow,
            manifest,
            input,
            status: RunStatus::Pending,
            steps: OrderedMap::new(),
            events: Vec::new(),
            event_log: Vec::new(),
            metrics: Vec::new(),
            gate_decisions: OrderedMap::new(),
            error: None,
            idempotency_key: None,
            revision: 0,
            created_at_ms,
        };
        assert(run@.steps =~= Map::<Seq<char>, StepRecordView>::empty());
        assert(run@.events =~= Seq::<ExecutionEventView>::empty());
        assert(run@.event_log =~= Seq::<EventEnvelopeView>::empty());
        assert(run@.metrics =~= Seq::<MetricView>::empty());
        assert(run@.gate_decisions =~= Map::<Seq<char>, GateDecisionView>::empty());
        run
    }

    /// A run of which nothing has been done yet, created now.
    pub fn new(run_id: RunId, workflow: WorkflowSpec, manifest: RunManifest, input: Value) -> (run:
        Self)
        ensures
            exists|now: u64| #[trigger]
                clock::is_reading(now) && run@ == RunRecordView::fresh(
                    run_id@,
                    workflow@,
                    manifest@,
                    input,
                    now,
                ),
    {
        RunRecord::new_at(run_id, workflow, manifest, input, now_ms())
    }
}

} // verus!
