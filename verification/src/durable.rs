//! Driving runs of a repository: what a worker submits, what it makes of the result
//! of a task, and when it waits, goes on or gives up.
use crate::catalog::{self, build_manifest, validate_workflow};
use crate::clock::{as_millis, clamp_millis};
use crate::error::{
    OrchestratorError, OrchestratorErrorView, RepositoryError, RepositoryErrorView, TaskError,
    TaskErrorView,
};
use crate::ids::{RunId, TaskId};
use crate::manifest::{RunManifest, RunProvenance, RunProvenanceView};
use crate::ordered::OrderedMap;
use crate::policy::{WorkerProfile, WorkerProfileView};
use crate::record::{
    ExecutionEvent, ExecutionEventView, RunRecord, RunRecordView, RunStatus, StepClaim,
    StepClaimView, StepCompletion, StepCompletionView,
};
use crate::runtime;
use crate::task::{TaskContext, TaskContextView, TaskSpec, TaskSpecView};
use crate::views;
use crate::workflow::{WorkflowSpec, WorkflowSpecView};
use serde_json::Value;
use vstd::prelude::*;

verus! {

/// Options for a worker driving a durable repository.
#[derive(Debug)]
pub struct DurableExecutorOptions {
    pub worker: WorkerProfile,
    pub provenance: RunProvenance,
    pub lease_ms: u64,
    pub max_parallel_steps: usize,
    pub poll_interval_ms: u64,
    /// Optional bound for waiting on another worker or a persisted retry.
    /// `None` keeps resuming until the run reaches a terminal state.
    pub max_idle_time_ms: Option<u64>,
}

/// What a `DurableExecutorOptions` holds.
#[verifier::ext_equal]
pub struct DurableExecutorOptionsView {
    pub worker: WorkerProfileView,
    pub provenance: RunProvenanceView,
    pub lease_ms: u64,
    pub max_parallel_steps: usize,
    pub poll_interval_ms: u64,
    pub max_idle_time_ms: Option<u64>,
}

impl View for DurableExecutorOptions {
    type V = DurableExecutorOptionsView;

    open spec fn view(&self) -> DurableExecutorOptionsView {
        DurableExecutorOptionsView {
            worker: self.worker@,
            provenance: self.provenance@,
            lease_ms: self.lease_ms,
            max_parallel_steps: self.max_parallel_steps,
            poll_interval_ms: self.poll_interval_ms,
            max_idle_time_ms: self.max_idle_time_ms,
        }
    }
}

impl Clone for DurableExecutorOptions {
    fn clone(&self) -> (copy: Self)
        ensures
            copy@ == self@,
    {
        let copy = DurableExecutorOptions {
            worker: self.worker.clone(),
            provenance: self.provenance.clone(),
            lease_ms: self.lease_ms,
            max_parallel_steps: self.max_parallel_steps,
            poll_interval_ms: self.poll_interval_ms,
            max_idle_time_ms: self.max_idle_time_ms,
        };
        copy
    }
}


impl Default for DurableExecutorOptions {
    fn default() -> (options: Self)
        ensures
            options@ == (DurableExecutorOptionsView {
                worker: WorkerProfileView::plain("local-worker"@),
                provenance: RunProvenanceView::none(),
                lease_ms: 30_000,
                max_parallel_steps: 8,
                poll_interval_ms: 10,
                max_idle_time_ms: None,
            }),
    {
        DurableExecutorOptions {
            worker: WorkerProfile::default(),
            provenance: RunProvenance::default(),
            lease_ms: 30_000,
            max_parallel_steps: 8,
            poll_interval_ms: 10,
            max_idle_time_ms: None,
        }
    }
}

/// A number of milliseconds, or one where it is zero.
pub open spec fn some_millis(ms: u64) -> u64 {
    if ms > 1 {
        ms
    } else {
        1
    }
}

impl DurableExecutorOptions {
    /// The options with leases and pauses of a millisecond, and room for one step,
    /// at least.
    pub fn normalized(self) -> (options: Self)
        ensures
            options@ == (DurableExecutorOptionsView {
                lease_ms: some_millis(self@.lease_ms),
                max_parallel_steps: runtime::one_at_least(self@.max_parallel_steps),
                poll_interval_ms: some_millis(self@.poll_interval_ms),
                ..self@
            }),
    {
        let mut options = self;
        if options.lease_ms == 0 {
            options.lease_ms = 1;
        }
        if options.max_parallel_steps == 0 {
            options.max_parallel_steps = 1;
        }
        if options.poll_interval_ms == 0 {
            options.poll_interval_ms = 1;
        }
        options
    }

    /// How long to wait between two renewals of a lease: a third of it.
    pub fn heartbeat_interval_ms(&self) -> (interval: u64)
        ensures
            interval == some_millis((self@.lease_ms / 3) as u64),
    {
        let third = self.lease_ms / 3;
        if third == 0 {
            1
        } else {
            third
        }
    }
}

/// For how long a lease is renewed that is renewed at the given interval.
pub fn renewal_ms(interval: u64) -> (lease_ms: u64)
    ensures
        lease_ms == (if 3 * interval > u64::MAX {
            u64::MAX as int
        } else {
            3 * interval
        }),
{
    if interval > u64::MAX / 3 {
        u64::MAX
    } else {
        interval * 3
    }
}

/// What a worker that went once over the repository has done.
#[derive(Debug, PartialEq, Eq)]
pub enum WorkOutcome {
    /// There was nothing to claim.
    Idle,
    /// A step was worked off, and its run stands there now.
    Progressed { run_id: RunId, status: RunStatus },
}

/// What a `WorkOutcome` holds.
#[verifier::ext_equal]
pub enum WorkOutcomeView {
    Idle,
    Progressed { run_id: Seq<char>, status: RunStatus },
}

impl View for WorkOutcome {
    type V = WorkOutcomeView;

    open spec fn view(&self) -> WorkOutcomeView {
        match *self {
            WorkOutcome::Idle => WorkOutcomeView::Idle,
            WorkOutcome::Progressed { run_id, status } => WorkOutcomeView::Progressed {
                run_id: run_id@,
                status,
            },
        }
    }
}

impl WorkOutcome {
    /// What a worker has done, given the run of the step that it worked off, if it
    /// did.
    pub fn of(run: Option<&RunRecord>) -> (outcome: Self)
        ensures
            outcome@ == (match run {
                Some(run) => WorkOutcomeView::Progressed {
                    run_id: run@.run_id,
                    status: run@.status,
                },
                None => WorkOutcomeView::Idle,
            }),
    {
        match run {
            Some(run) => WorkOutcome::Progressed { run_id: run.run_id.clone(), status: run.status },
            None => WorkOutcome::Idle,
        }
    }
}

/// What keeps a workflow from being submitted: a flaw of its own, or of the tasks
/// that are registered for it.
pub open spec fn submission_objection(
    catalog: Map<Seq<char>, TaskSpecView>,
    workflow: WorkflowSpecView,
) -> Option<OrchestratorErrorView> {
    match workflow.flaw() {
        Some(error) => Some(OrchestratorErrorView::Workflow(error)),
        None => match catalog::workflow_flaw(catalog, workflow) {
            Some(error) => Some(OrchestratorErrorView::Workflow(error)),
            None => None,
        },
    }
}

/// Where the tasks of every step are registered, none is missing.
proof fn lemma_none_missing(
    catalog: Map<Seq<char>, TaskSpecView>,
    workflow: Seq<char>,
    steps: Seq<crate::workflow::StepSpecView>,
)
    requires
        catalog::first_flaw(
            |step: crate::workflow::StepSpecView|
                catalog::submission_flaw(catalog, workflow, step),
            steps,
        ) is None,
    ensures
        catalog::first_flaw(
            |step: crate::workflow::StepSpecView| catalog::missing_task(catalog, step),
            steps,
        ) is None,
    decreases steps.len(),
{
    if steps.len() > 0 {
        assert(catalog::submission_flaw(catalog, workflow, steps[0]) is None);
        lemma_none_missing(catalog, workflow, steps.drop_first());
    }
}

/// Checks that a workflow can be submitted, and builds the manifest to submit it with.
pub fn submission_manifest(
    catalog: &OrderedMap<TaskId, TaskSpec>,
    workflow: &WorkflowSpec,
    provenance: &RunProvenance,
) -> (outcome: Result<RunManifest, OrchestratorError>)
    ensures
        ({
            let known = views::map_views(catalog@);
            match outcome {
                Ok(manifest) => {
                    &&& submission_objection(known, workflow@) is None
                    &&& manifest@ == catalog::manifest_of(known, workflow@, provenance@)
                },
                Err(error) => submission_objection(known, workflow@) == Some(error@),
            }
        }),
{
    match workflow.validate() {
        Ok(()) => {},
        Err(error) => {
            return Err(OrchestratorError::Workflow(error));
        },
    }
    match validate_workflow(catalog, workflow) {
        Ok(()) => {},
        Err(error) => {
            return Err(OrchestratorError::Workflow(error));
        },
    }
    proof {
        lemma_none_missing(views::map_views(catalog@), workflow@.id, workflow@.steps);
    }
    match build_manifest(catalog, workflow, provenance) {
        Ok(manifest) => Ok(manifest),
        Err(error) => Err(OrchestratorError::Workflow(error)),
    }
}

/// The event that tells of the start of a claimed attempt.
pub open spec fn start_of(claim: StepClaimView) -> ExecutionEventView {
    ExecutionEventView::StepStarted {
        run_id: claim.run_id,
        step_id: claim.step.id,
        task: claim.task.id,
        attempt: claim.attempt,
    }
}

/// Tells of the start of a claimed attempt.
pub fn started_event(claim: &StepClaim) -> (event: ExecutionEvent)
    ensures
        event@ == start_of(claim@),
{
    ExecutionEvent::StepStarted {
        run_id: claim.run_id.clone(),
        step_id: claim.step.id.clone(),
        task: claim.task.id.clone(),
        attempt: claim.attempt,
    }
}

/// What the task of a claim is told of the attempt.
pub fn claim_context(claim: &StepClaim) -> (context: TaskContext)
    ensures
        context@ == (TaskContextView {
            run_id: claim@.run_id,
            workflow_id: claim@.workflow_id,
            step_id: claim@.step.id,
            attempt: claim@.attempt,
            task: claim@.task,
            worker: Some(claim@.worker),
        }),
{
    TaskContext {
        run_id: claim.run_id.clone(),
        workflow_id: claim.workflow_id.clone(),
        step_id: claim.step.id.clone(),
        attempt: claim.attempt,
        task: claim.task.clone(),
        worker: Some(claim.worker.clone()),
    }
}

/// What a worker hands in for the result of a claimed attempt: a failure that may
/// pass is to be tried again, after a delay, while attempts are left; else the
/// fallback is selected where there is one that was not used; else the step has
/// failed.
pub open spec fn completion_of(
    claim: StepClaimView,
    result: Result<Value,
    TaskErrorView>,
) -> StepCompletionView {
    let (run_id, step_id) = (claim.run_id, claim.step.id);
    let policy = claim.step.policy;
    match result {
        Ok(output) => StepCompletionView::success(run_id, step_id, output, claim.attempt),
        Err(error) => if error.is_retryable() && claim.attempt < policy.retry.budget() {
            StepCompletionView {
                retry_after_ms: Some(policy.retry.delay.delay_ms(claim.attempt) as u64),
                ..StepCompletionView::retry(run_id, step_id, claim.attempt, error.text())
            }
        } else if !claim.fallback_used && policy.fallback_task is Some {
            StepCompletionView::falling_back(
                run_id,
                step_id,
                policy.fallback_task->0,
                error.text(),
            )
        } else {
            StepCompletionView::failure(run_id, step_id, claim.attempt, error.text())
        },
    }
}

/// The result of a task by the view of what went wrong.
pub open spec fn result_view(result: Result<Value, TaskError>) -> Result<Value, TaskErrorView> {
    match result {
        Ok(output) => Ok(output),
        Err(error) => Err(error@),
    }
}

/// Makes what a worker hands in out of the result of a claimed attempt.
pub fn completion_for(claim: &StepClaim, result: Result<Value, TaskError>) -> (completion:
    StepCompletion)
    ensures
        completion@ == completion_of(claim@, result_view(result)),
{
    let run_id = claim.run_id.clone();
    let step_id = claim.step.id.clone();
    match result {
        Ok(output) => StepCompletion::succeeded(run_id, step_id, output, claim.attempt),
        Err(error) => {
            let words = error.message();
            if error.retryable() && claim.attempt < claim.step.policy.retry.attempt_budget() {
                let delay = claim.step.policy.retry.delay.for_attempt(claim.attempt);
                return StepCompletion::retrying(
                    run_id,
                    step_id,
                    claim.attempt,
                    words,
                ).with_retry_after_ms(clamp_millis(as_millis(&delay)));
            }
            let fallback = if claim.fallback_used {
                None
            } else {
                claim.step.policy.fallback_task.clone()
            };
            match fallback {
                Some(task) => StepCompletion::fallback(run_id, step_id, task, words),
                None => StepCompletion::failed(run_id, step_id, claim.attempt, words),
            }
        },
    }
}

/// Whether a run is still to be driven.
pub open spec fn in_progress(status: RunStatus) -> bool {
    status == RunStatus::Running || status == RunStatus::Pending
}

/// Tells whether a run is still to be driven.
pub fn is_in_progress(status: RunStatus) -> (answer: bool)
    ensures
        answer == in_progress(status),
{
    status == RunStatus::Running || status == RunStatus::Pending
}

/// What a worker that drives a run is to do next.
#[derive(Debug)]
pub enum DriveAction {
    /// Try to claim a step of the run.
    Claim,
    /// Execute the claimed steps, and hand in what they come to.
    Execute(Vec<StepClaim>),
    /// Hand in the metrics of the run.
    Finish,
    /// Take back what other workers have lost.
    Recover,
    /// Wait that many milliseconds.
    Sleep(u64),
    /// The run is over: hand it out.
    Return(RunRecord),
    /// The worker has been idle for too long.
    GiveUp(RepositoryError),
}

/// What a `DriveAction` holds.
#[verifier::ext_equal]
pub enum DriveActionView {
    Claim,
    Execute(Seq<StepClaimView>),
    Finish,
    Recover,
    Sleep(u64),
    Return(RunRecordView),
    GiveUp(RepositoryErrorView),
}

impl View for DriveAction {
    type V = DriveActionView;

    open spec fn view(&self) -> DriveActionView {
        match *self {
            DriveAction::Claim => DriveActionView::Claim,
            DriveAction::Execute(claims) => DriveActionView::Execute(views::all_views(claims@)),
            DriveAction::Finish => DriveActionView::Finish,
            DriveAction::Recover => DriveActionView::Recover,
            DriveAction::Sleep(ms) => DriveActionView::Sleep(ms),
            DriveAction::Return(run) => DriveActionView::Return(run@),
            DriveAction::GiveUp(error) => DriveActionView::GiveUp(error@),
        }
    }
}

/// What has come of the last thing that a worker did.
#[derive(Debug)]
pub enum DriveEvent {
    /// A step was claimed, or there was none to claim.
    Claimed(Option<StepClaim>),
    /// The claimed steps were executed, and what they came to was handed in.
    Executed,
    /// The metrics were handed in, and the run stands there.
    Finished(RunRecord),
    /// What other workers have lost was taken back, after the worker had been idle
    /// for that many milliseconds.
    Recovered(u128),
    /// The wait is over.
    Slept,
}

/// What a `DriveEvent` holds.
#[verifier::ext_equal]
pub enum DriveEventView {
    Claimed(Option<StepClaimView>),
    Executed,
    Finished(RunRecordView),
    Recovered(u128),
    Slept,
}

impl View for DriveEvent {
    type V = DriveEventView;

    open spec fn view(&self) -> DriveEventView {
        match *self {
            DriveEvent::Claimed(claim) => DriveEventView::Claimed(views::some_view(claim)),
            DriveEvent::Executed => DriveEventView::Executed,
            DriveEvent::Finished(run) => DriveEventView::Finished(run@),
            DriveEvent::Recovered(idle_ms) => DriveEventView::Recovered(idle_ms),
            DriveEvent::Slept => DriveEventView::Slept,
        }
    }
}

/// A worker that drives a run until it is over: it claims as many steps as it may
/// execute at a time, executes them, and claims again. Where there is none to claim it
/// hands in the metrics, and waits where that does not end the run.
#[derive(Debug)]
pub struct Drive {
    pub run_id: RunId,
    pub claims: Vec<StepClaim>,
    pub max_parallel_steps: usize,
    pub poll_interval_ms: u64,
    pub max_idle_time_ms: Option<u64>,
}

/// What a `Drive` holds.
#[verifier::ext_equal]
pub struct DriveView {
    pub run_id: Seq<char>,
    pub claims: Seq<StepClaimView>,
    pub max_parallel_steps: usize,
    pub poll_interval_ms: u64,
    pub max_idle_time_ms: Option<u64>,
}

impl View for Drive {
    type V = DriveView;

    open spec fn view(&self) -> DriveView {
        DriveView {
            run_id: self.run_id@,
            claims: views::all_views(self.claims@),
            max_parallel_steps: self.max_parallel_steps,
            poll_interval_ms: self.poll_interval_ms,
            max_idle_time_ms: self.max_idle_time_ms,
        }
    }
}

impl DriveView {
    /// A worker at the start.
    pub open spec fn fresh(run_id: Seq<char>, options: DurableExecutorOptionsView) -> DriveView {
        DriveView {
            run_id,
            claims: Seq::empty(),
            max_parallel_steps: runtime::one_at_least(options.max_parallel_steps),
            poll_interval_ms: options.poll_interval_ms,
            max_idle_time_ms: options.max_idle_time_ms,
        }
    }

    /// The worker without its claims, which are to be executed.
    pub open spec fn executing(self, claims: Seq<StepClaimView>) -> (DriveView, DriveActionView) {
        (DriveView { claims: Seq::empty(), ..self }, DriveActionView::Execute(claims))
    }

    /// The worker after an event, and what it is to do.
    pub open spec fn next(self, event: DriveEventView) -> (DriveView, DriveActionView) {
        match event {
            DriveEventView::Claimed(Some(claim)) => {
                let claims = self.claims.push(claim);
                if claims.len() < self.max_parallel_steps {
                    (DriveView { claims, ..self }, DriveActionView::Claim)
                } else {
                    self.executing(claims)
                }
            },
            DriveEventView::Claimed(None) => if self.claims.len() == 0 {
                (self, DriveActionView::Finish)
            } else {
                self.executing(self.claims)
            },
            DriveEventView::Executed => (self, DriveActionView::Claim),
            DriveEventView::Finished(run) => if in_progress(run.status) {
                (self, DriveActionView::Recover)
            } else {
                (self, DriveActionView::Return(run))
            },
            DriveEventView::Recovered(idle_ms) => if self.max_idle_time_ms is Some && idle_ms
                >= self.max_idle_time_ms->0 {
                (
                    self,
                    DriveActionView::GiveUp(RepositoryErrorView::Conflict { run: self.run_id }),
                )
            } else {
                (self, DriveActionView::Sleep(self.poll_interval_ms))
            },
            DriveEventView::Slept => (self, DriveActionView::Claim),
        }
    }
}

impl Drive {
    /// A worker that is to drive a run. It starts with trying to claim a step.
    pub fn new(run_id: RunId, options: &DurableExecutorOptions) -> (drive: Self)
        ensures
            drive@ == DriveView::fresh(run_id@, options@),
    {
        let claims: Vec<StepClaim> = Vec::new();
        assert(views::all_views(claims@) =~= Seq::<StepClaimView>::empty());
        Drive {
            run_id,
            claims,
            max_parallel_steps: if options.max_parallel_steps > 1 {
                options.max_parallel_steps
            } else {
                1
            },
            poll_interval_ms: options.poll_interval_ms,
            max_idle_time_ms: options.max_idle_time_ms,
        }
    }

    fn take_claims(&mut self) -> (claims: Vec<StepClaim>)
        ensures
            final(self)@ == (DriveView { claims: Seq::empty(), ..old(self)@ }),
            views::all_views(claims@) == old(self)@.claims,
    {
        let mut claims: Vec<StepClaim> = Vec::new();
        assert(views::all_views(claims@) =~= Seq::<StepClaimView>::empty());
        std::mem::swap(&mut claims, &mut self.claims);
        claims
    }

    /// Takes an event in, and decides what is to be done.
    pub fn next_action(&mut self, event: DriveEvent) -> (action: DriveAction)
        ensures
            (final(self)@, action@) == old(self)@.next(event@),
    {
        match event {
            DriveEvent::Claimed(Some(claim)) => {
                let ghost before = self.claims@;
                self.claims.push(claim);
                assert(views::all_views(self.claims@) =~= views::all_views(before).push(claim@));
                if self.claims.len() < self.max_parallel_steps {
                    DriveAction::Claim
                } else {
                    DriveAction::Execute(self.take_claims())
                }
            },
            DriveEvent::Claimed(None) => if self.claims.len() == 0 {
                DriveAction::Finish
            } else {
                DriveAction::Execute(self.take_claims())
            },
            DriveEvent::Executed => DriveAction::Claim,
            DriveEvent::Finished(run) => if is_in_progress(run.status) {
                DriveAction::Recover
            } else {
                DriveAction::Return(run)
            },
            DriveEvent::Recovered(idle_ms) => {
                let too_long = match self.max_idle_time_ms {
                    Some(limit) => idle_ms >= limit as u128,
                    None => false,
                };
                if too_long {
                    DriveAction::GiveUp(RepositoryError::Conflict { run: self.run_id.clone() })
                } else {
                    DriveAction::Sleep(self.poll_interval_ms)
                }
            },
            DriveEvent::Slept => DriveAction::Claim,
        }
    }
}

} // verus!
