//! What happens to a run after a step was claimed: leases are renewed, results
//! committed, expired work recovered, and the run cancelled or finished.
use crate::claim::{self, add_delay, lease_end_ms};
use crate::error::{RepositoryError, RepositoryErrorView};
use crate::evaluation::{self, evaluate_gates, every_gate_passed, Metric, MetricView};
use crate::event::{self, next_number};
use crate::ids::RunId;
use crate::manifest::{RunManifest, RunManifestView};
use crate::ordered;
use crate::record::{
    ExecutionEvent, ExecutionEventView, RunRecord, RunRecordView, RunStatus, StepAttempt,
    StepAttemptView, StepClaim, StepClaimView, StepCompletion, StepCompletionView, StepLease,
    StepLeaseView, StepRecord, StepRecordView, StepStatus,
};
use crate::views::{self, Same};
use crate::workflow::{StepSpec, StepSpecView};
use vstd::prelude::*;

verus! {

impl StepCompletionView {
    /// The completion without what it may carry along freely.
    pub open spec fn bare(self) -> StepCompletionView {
        StepCompletionView { artifacts: Seq::empty(), ..self }
    }

    /// Whether the completion is one that the holder of a claim may hand in: the
    /// success or the failure of the claimed attempt, a retry while attempts are
    /// left, or the step's fallback where it was not used yet. A step with a
    /// fallback fails only once that has been used.
    pub open spec fn fits(self, claim: StepClaimView, manifest: RunManifestView) -> bool {
        let (run_id, step_id) = (claim.run_id, claim.step.id);
        match self.event {
            ExecutionEventView::StepRetrying { error, .. } => {
                &&& (StepCompletionView { retry_after_ms: None, ..self.bare() })
                    == StepCompletionView::retry(run_id, step_id, claim.attempt, error)
                &&& claim.attempt < claim.step.policy.retry.budget()
            },
            ExecutionEventView::StepFallbackSelected { task, .. } => {
                &&& self.error is Some
                &&& self.bare() == StepCompletionView::falling_back(
                    run_id,
                    step_id,
                    task,
                    self.error->0,
                )
                &&& !claim.fallback_used
                &&& claim.step.policy.fallback_task == Some(task)
                &&& manifest.tasks.contains_key(task)
            },
            ExecutionEventView::StepSucceeded { .. } => {
                &&& self.output is Some
                &&& self.bare() == StepCompletionView::success(
                    run_id,
                    step_id,
                    self.output->0,
                    claim.attempt,
                )
            },
            ExecutionEventView::StepFailed { error, .. } => {
                &&& self.bare() == StepCompletionView::failure(
                    run_id,
                    step_id,
                    claim.attempt,
                    error,
                )
                &&& claim.fallback_used || claim.step.policy.fallback_task is None
            },
            _ => false,
        }
    }
}

fn is_text(held: &Option<String>, text: &String) -> (answer: bool)
    ensures
        answer == (views::some_view(*held) == Some(text@)),
{
    match held {
        Some(other) => other.same(text),
        None => false,
    }
}

/// Whether a completion is one that the holder of a claim may hand in.
pub fn completion_matches_claim(
    completion: &StepCompletion,
    claim: &StepClaim,
    manifest: &RunManifest,
) -> (answer: bool)
    ensures
        answer == completion@.fits(claim@, manifest@),
{
    match &completion.event {
        ExecutionEvent::StepRetrying { run_id, step_id, attempt, error } => run_id.same(
            &claim.run_id,
        ) && step_id.same(&claim.step.id) && *attempt == claim.attempt && completion.status
            == StepStatus::Retrying && *attempt < claim.step.policy.retry.attempt_budget()
            && completion.output.is_none() && is_text(&completion.error, error)
            && completion.next_task.is_none() && !completion.fallback_used,
        ExecutionEvent::StepFallbackSelected { run_id, step_id, task } => {
            let chosen = match &completion.next_task {
                Some(next) => next.same(task),
                None => false,
            };
            let offered = match &claim.step.policy.fallback_task {
                Some(fallback) => fallback.same(task),
                None => false,
            };
            run_id.same(&claim.run_id) && step_id.same(&claim.step.id) && completion.status
                == StepStatus::Retrying && completion.output.is_none()
                && completion.error.is_some() && chosen && completion.fallback_used
                && !claim.fallback_used && offered && manifest.tasks.contains_key(task)
                && completion.retry_after_ms.is_none()
        },
        ExecutionEvent::StepSucceeded { run_id, step_id, attempts } => run_id.same(&claim.run_id)
            && step_id.same(&claim.step.id) && *attempts == claim.attempt && completion.status
            == StepStatus::Succeeded && completion.output.is_some() && completion.error.is_none()
            && completion.next_task.is_none() && !completion.fallback_used
            && completion.retry_after_ms.is_none(),
        ExecutionEvent::StepFailed { run_id, step_id, attempts, error } => run_id.same(
            &claim.run_id,
        ) && step_id.same(&claim.step.id) && *attempts == claim.attempt && completion.status
            == StepStatus::Failed && completion.output.is_none() && is_text(
            &completion.error,
            error,
        ) && completion.next_task.is_none() && !completion.fallback_used && (claim.fallback_used
            || claim.step.policy.fallback_task.is_none()) && completion.retry_after_ms.is_none(),
        _ => false,
    }
}

/// A history whose last attempt is closed.
pub open spec fn closed_history(
    history: Seq<StepAttemptView>,
    now: u64,
    status: StepStatus,
    error: Option<Seq<char>>,
) -> Seq<StepAttemptView> {
    if history.len() == 0 {
        history
    } else {
        history.update(
            history.len() - 1,
            StepAttemptView { finished_at_ms: Some(now), status, error, ..history.last() },
        )
    }
}

fn close_last_attempt(
    history: &mut Vec<StepAttempt>,
    now: u64,
    status: StepStatus,
    error: &Option<String>,
)
    ensures
        views::all_views(final(history)@) == closed_history(
            views::all_views(old(history)@),
            now,
            status,
            views::some_view(*error),
        ),
{
    let ghost before = history@;
    if let Some(mut attempt) = history.pop() {
        attempt.finished_at_ms = Some(now);
        attempt.status = status;
        attempt.error = error.clone();
        history.push(attempt);
    }
    assert(views::all_views(history@) =~= closed_history(
        views::all_views(before),
        now,
        status,
        views::some_view(*error),
    ));
}

impl StepRecordView {
    /// Whether the step is held under the claim, and the lease still runs.
    pub open spec fn held_under(self, claim: StepClaimView, now: u64) -> bool {
        &&& self.lease is Some
        &&& self.lease->0.worker == claim.worker
        &&& self.lease->0.token == claim.lease_token
        &&& self.lease->0.expires_at_ms > now
    }

    /// The record once a completion was committed.
    pub open spec fn completed(self, completion: StepCompletionView, now: u64) -> StepRecordView {
        StepRecordView {
            status: completion.status,
            output: completion.output,
            error: completion.error,
            fallback_used: self.fallback_used || completion.fallback_used,
            artifacts: completion.artifacts,
            task: match completion.next_task {
                Some(task) => task,
                None => self.task,
            },
            lease: None,
            next_attempt_at_ms: match completion.retry_after_ms {
                Some(delay) => Some(claim::later(now, delay)),
                None => None,
            },
            history: closed_history(self.history, now, completion.status, completion.error),
            ..self
        }
    }

    /// Whether the step is held under a lease that has run out.
    pub open spec fn expired(self, now: u64) -> bool {
        self.lease is Some && self.lease->0.expires_at_ms <= now
    }
}

impl RunRecordView {
    /// Whether the step of a claim is held under it, and the lease still runs.
    pub open spec fn honours(self, claim: StepClaimView, now: u64) -> bool {
        self.steps.contains_key(claim.step.id) && self.steps[claim.step.id].held_under(claim, now)
    }

    /// What keeps a completion from being committed: the lease is lost, else the
    /// completion does not fit the claim.
    pub open spec fn completion_flaw(
        self,
        claim: StepClaimView,
        completion: StepCompletionView,
        now: u64,
    ) -> Option<RepositoryErrorView> {
        if !self.honours(claim, now) {
            Some(RepositoryErrorView::LeaseLost { run: claim.run_id, step: claim.step.id })
        } else if !completion.fits(claim, self.manifest) {
            Some(RepositoryErrorView::InvalidCompletion { run: claim.run_id, step: claim.step.id })
        } else {
            None
        }
    }

    /// The run once a completion was committed, before its event is logged.
    pub open spec fn with_completion(
        self,
        claim: StepClaimView,
        completion: StepCompletionView,
        now: u64,
    ) -> RunRecordView {
        RunRecordView {
            steps: self.steps.insert(
                claim.step.id,
                self.steps[claim.step.id].completed(completion, now),
            ),
            error: if completion.status == StepStatus::Failed {
                completion.error
            } else {
                self.error
            },
            revision: event::successor(self.revision),
            ..self
        }
    }

    /// The run once the lease of a claim was renewed.
    pub open spec fn with_renewal(
        self,
        claim: StepClaimView,
        lease_ms: u64,
        now: u64,
    ) -> RunRecordView {
        let record = self.steps[claim.step.id];
        RunRecordView {
            steps: self.steps.insert(
                claim.step.id,
                StepRecordView {
                    lease: Some(
                        StepLeaseView {
                            expires_at_ms: claim::lease_end(now, lease_ms),
                            ..record.lease->0
                        },
                    ),
                    ..record
                },
            ),
            revision: event::successor(self.revision),
            ..self
        }
    }
}

fn is_held(record: &StepRecord, claim: &StepClaim, now: u64) -> (answer: bool)
    ensures
        answer == record@.held_under(claim@, now),
{
    match &record.lease {
        Some(lease) => lease.worker.same(&claim.worker) && lease.token == claim.lease_token
            && lease.expires_at_ms > now,
        None => false,
    }
}

fn lease_lost(claim: &StepClaim) -> (error: RepositoryError)
    ensures
        error@ == (RepositoryErrorView::LeaseLost { run: claim@.run_id, step: claim@.step.id }),
{
    RepositoryError::LeaseLost { run: claim.run_id.clone(), step: claim.step.id.clone() }
}

/// Takes the record of a claimed step out of the run, if it is held under the
/// claim.
fn take_held(run: &mut RunRecord, claim: &StepClaim, now: u64) -> (taken: Option<StepRecord>)
    ensures
        match taken {
            Some(record) => {
                &&& old(run)@.honours(claim@, now)
                &&& record@ == old(run)@.steps[claim@.step.id]
                &&& final(run)@ == (RunRecordView {
                    steps: old(run)@.steps.remove(claim@.step.id),
                    ..old(run)@
                })
            },
            None => !old(run)@.honours(claim@, now) && final(run)@ == old(run)@,
        },
{
    let held = match run.steps.get(&claim.step.id) {
        Some(record) => is_held(record, claim, now),
        None => false,
    };
    if !held {
        return None;
    }
    proof {
        views::lemma_map_views_remove(run.steps@, claim@.step.id);
    }
    run.steps.remove(&claim.step.id)
}

/// Puts a record into the run.
fn put_record(run: &mut RunRecord, key: crate::ids::StepId, record: StepRecord)
    ensures
        final(run)@ == (RunRecordView {
            steps: old(run)@.steps.insert(key@, record@),
            ..old(run)@
        }),
{
    proof {
        views::lemma_map_views_insert(run.steps@, key@, record);
    }
    run.steps.insert(key, record);
}

/// Extends the lease of a claim, if it still runs.
pub fn renew_lease(run: &mut RunRecord, claim: &StepClaim, lease_ms: u64, now: u64) -> (outcome:
    Result<(), RepositoryError>)
    ensures
        match outcome {
            Ok(()) => {
                &&& old(run)@.honours(claim@, now)
                &&& final(run)@ == old(run)@.with_renewal(claim@, lease_ms, now)
            },
            Err(error) => {
                &&& !old(run)@.honours(claim@, now)
                &&& final(run)@ == old(run)@
                &&& error@ == (RepositoryErrorView::LeaseLost {
                    run: claim@.run_id,
                    step: claim@.step.id,
                })
            },
        },
{
    let ghost before = run@;
    let mut record = match take_held(run, claim, now) {
        Some(record) => record,
        None => {
            return Err(lease_lost(claim));
        },
    };
    if let Some(lease) = &record.lease {
        record.lease = Some(
            StepLease {
                worker: lease.worker.clone(),
                token: lease.token,
                expires_at_ms: lease_end_ms(now, lease_ms),
            },
        );
    }
    put_record(run, claim.step.id.clone(), record);
    run.revision = next_number(run.revision);
    assert(run@.steps =~= before.with_renewal(claim@, lease_ms, now).steps);
    Ok(())
}

/// Checks that a completion can be committed.
pub fn check_completion(
    run: &RunRecord,
    claim: &StepClaim,
    completion: &StepCompletion,
    now: u64,
) -> (outcome: Result<(), RepositoryError>)
    ensures
        match outcome {
            Ok(()) => run@.completion_flaw(claim@, completion@, now) is None,
            Err(error) => run@.completion_flaw(claim@, completion@, now) == Some(error@),
        },
{
    let held = match run.steps.get(&claim.step.id) {
        Some(record) => is_held(record, claim, now),
        None => false,
    };
    if !held {
        return Err(lease_lost(claim));
    }
    if !completion_matches_claim(completion, claim, &run.manifest) {
        return Err(
            RepositoryError::InvalidCompletion {
                run: claim.run_id.clone(),
                step: claim.step.id.clone(),
            },
        );
    }
    Ok(())
}

/// Commits a completion, if the lease of its claim still runs and it fits the
/// claim. Its event is left to be logged.
pub fn commit_completion(
    run: &mut RunRecord,
    claim: &StepClaim,
    completion: &StepCompletion,
    now: u64,
) -> (outcome: Result<(), RepositoryError>)
    ensures
        match outcome {
            Ok(()) => {
                &&& old(run)@.completion_flaw(claim@, completion@, now) is None
                &&& final(run)@ == old(run)@.with_completion(claim@, completion@, now)
            },
            Err(error) => {
                &&& old(run)@.completion_flaw(claim@, completion@, now) == Some(error@)
                &&& final(run)@ == old(run)@
            },
        },
{
    let ghost before = run@;
    match check_completion(run, claim, completion, now) {
        Ok(()) => {},
        Err(error) => {
            return Err(error);
        },
    }
    let mut record = match take_held(run, claim, now) {
        Some(record) => record,
        None => {
            return Err(lease_lost(claim));
        },
    };
    record.status = completion.status;
    record.output = completion.output.clone();
    record.error = completion.error.clone();
    record.fallback_used = record.fallback_used || completion.fallback_used;
    record.artifacts = completion.artifacts.clone();
    proof {
        views::lemma_cloned_list(completion.artifacts@, record.artifacts@);
    }
    if let Some(task) = &completion.next_task {
        record.task = task.clone();
    }
    record.lease = None;
    record.next_attempt_at_ms = match completion.retry_after_ms {
        Some(delay) => Some(add_delay(now, delay)),
        None => None,
    };
    close_last_attempt(&mut record.history, now, completion.status, &completion.error);
    if completion.status == StepStatus::Failed {
        run.error = completion.error.clone();
    }
    put_record(run, claim.step.id.clone(), record);
    run.revision = next_number(run.revision);
    assert(run@.steps =~= before.with_completion(claim@, completion@, now).steps);
    Ok(())
}

/// What a step whose lease ran out is told to have failed of.
pub open spec fn lease_expired_text() -> Seq<char> {
    "worker lease expired"@
}

impl StepRecordView {
    /// Whether a recovered step turns to its fallback: its attempts are used up,
    /// and it has a fallback that was not used yet.
    pub open spec fn turns_to_fallback(self, step: StepSpecView) -> bool {
        &&& self.attempts >= step.policy.retry.budget()
        &&& !self.fallback_used
        &&& step.policy.fallback_task is Some
    }

    /// Where a step stands after its lease ran out: it is retried while attempts
    /// are left, and once more with its fallback, and has failed otherwise.
    pub open spec fn recovered_status(self, step: StepSpecView) -> StepStatus {
        if self.attempts < step.policy.retry.budget() || self.turns_to_fallback(step) {
            StepStatus::Retrying
        } else {
            StepStatus::Failed
        }
    }

    /// The record of a step after its lease ran out.
    pub open spec fn recovered(self, step: StepSpecView, now: u64) -> StepRecordView {
        let status = self.recovered_status(step);
        StepRecordView {
            lease: None,
            error: Some(lease_expired_text()),
            next_attempt_at_ms: None,
            status,
            task: if self.turns_to_fallback(step) {
                step.policy.fallback_task->0
            } else {
                self.task
            },
            fallback_used: self.fallback_used || self.turns_to_fallback(step),
            history: closed_history(self.history, now, status, Some(lease_expired_text())),
            ..self
        }
    }

    /// The event that tells of a step whose lease ran out.
    pub open spec fn recovery_event(
        self,
        run_id: Seq<char>,
        step: StepSpecView,
    ) -> ExecutionEventView {
        if self.attempts < step.policy.retry.budget() {
            ExecutionEventView::StepRetrying {
                run_id,
                step_id: self.id,
                attempt: self.attempts,
                error: lease_expired_text(),
            }
        } else if self.turns_to_fallback(step) {
            ExecutionEventView::StepFallbackSelected {
                run_id,
                step_id: self.id,
                task: step.policy.fallback_task->0,
            }
        } else {
            ExecutionEventView::StepFailed {
                run_id,
                step_id: self.id,
                attempts: self.attempts,
                error: lease_expired_text(),
            }
        }
    }
}

/// Takes a step back from a worker whose lease ran out.
pub fn recover_expired_step(
    run_id: &RunId,
    step: &StepSpec,
    record: &mut StepRecord,
    now: u64,
) -> (told: Option<ExecutionEvent>)
    ensures
        match told {
            Some(event) => {
                &&& old(record)@.expired(now)
                &&& event@ == old(record)@.recovery_event(run_id@, step@)
                &&& final(record)@ == old(record)@.recovered(step@, now)
            },
            None => !old(record)@.expired(now) && final(record)@ == old(record)@,
        },
{
    let expired = match &record.lease {
        Some(lease) => lease.expires_at_ms <= now,
        None => false,
    };
    if !expired {
        return None;
    }
    let error = Some("worker lease expired".to_owned());
    record.lease = None;
    record.error = error.clone();
    record.next_attempt_at_ms = None;
    let budget = step.policy.retry.attempt_budget();
    let event = if record.attempts < budget {
        record.status = StepStatus::Retrying;
        ExecutionEvent::StepRetrying {
            run_id: run_id.clone(),
            step_id: record.id.clone(),
            attempt: record.attempts,
            error: "worker lease expired".to_owned(),
        }
    } else {
        let fallback = if record.fallback_used {
            None
        } else {
            step.policy.fallback_task.clone()
        };
        match fallback {
            Some(task) => {
                record.task = task.clone();
                record.fallback_used = true;
                record.status = StepStatus::Retrying;
                ExecutionEvent::StepFallbackSelected {
                    run_id: run_id.clone(),
                    step_id: record.id.clone(),
                    task,
                }
            },
            None => {
                record.status = StepStatus::Failed;
                ExecutionEvent::StepFailed {
                    run_id: run_id.clone(),
                    step_id: record.id.clone(),
                    attempts: record.attempts,
                    error: "worker lease expired".to_owned(),
                }
            },
        }
    };
    let status = record.status;
    close_last_attempt(&mut record.history, now, status, &error);
    Some(event)
}

impl RunRecordView {
    /// Whether the step is held under a lease that has run out.
    pub open spec fn step_expired(self, step: StepSpecView, now: u64) -> bool {
        self.steps.contains_key(step.id) && self.steps[step.id].expired(now)
    }

    /// The run after a step was taken back, before that is logged.
    pub open spec fn with_recovery(self, step: StepSpecView, now: u64) -> RunRecordView {
        let recovered = self.steps[step.id].recovered(step, now);
        RunRecordView {
            steps: self.steps.insert(step.id, recovered),
            error: if recovered.status == StepStatus::Failed {
                recovered.error
            } else {
                self.error
            },
            ..self
        }
    }
}

/// Takes a step of a run back, if its lease ran out. The event is left to be
/// logged.
pub fn recover_step(run: &mut RunRecord, step: &StepSpec, now: u64) -> (told: Option<
    ExecutionEvent,
>)
    ensures
        match told {
            Some(event) => {
                &&& old(run)@.step_expired(step@, now)
                &&& event@ == old(run)@.steps[step@.id].recovery_event(old(run)@.run_id, step@)
                &&& final(run)@ == old(run)@.with_recovery(step@, now)
            },
            None => !old(run)@.step_expired(step@, now) && final(run)@ == old(run)@,
        },
{
    let ghost before = run@;
    proof {
        views::lemma_map_views_remove(run.steps@, step@.id);
    }
    let mut record = match run.steps.remove(&step.id) {
        Some(record) => record,
        None => {
            assert(run@.steps =~= before.steps);
            return None;
        },
    };
    let told = recover_expired_step(&run.run_id, step, &mut record, now);
    if told.is_some() && record.status == StepStatus::Failed {
        run.error = record.error.clone();
    }
    put_record(run, step.id.clone(), record);
    proof {
        if told is Some {
            assert(run@.steps =~= before.with_recovery(step@, now).steps);
        } else {
            assert(run@.steps =~= before.steps);
        }
    }
    told
}

impl StepRecordView {
    /// The record of a step of a run that is cancelled. What succeeded or failed
    /// stays so.
    pub open spec fn cancelled(self, now: u64) -> StepRecordView {
        if self.status == StepStatus::Succeeded || self.status == StepStatus::Failed {
            self
        } else {
            StepRecordView {
                history: if self.history.len() > 0 && self.history.last().status
                    == StepStatus::Running {
                    self.history.update(
                        self.history.len() - 1,
                        StepAttemptView {
                            finished_at_ms: Some(now),
                            status: StepStatus::Cancelled,
                            ..self.history.last()
                        },
                    )
                } else {
                    self.history
                },
                status: StepStatus::Cancelled,
                lease: None,
                ..self
            }
        }
    }
}

/// Whether a run is over.
pub open spec fn is_terminal(status: RunStatus) -> bool {
    status == RunStatus::Succeeded || status == RunStatus::Failed || status == RunStatus::Cancelled
}

/// Tells whether a run is over.
pub fn is_over(status: RunStatus) -> (answer: bool)
    ensures
        answer == is_terminal(status),
{
    status == RunStatus::Succeeded || status == RunStatus::Failed || status == RunStatus::Cancelled
}

impl RunRecordView {
    /// The run once it was cancelled, before that is logged.
    pub open spec fn with_cancellation(self, now: u64) -> RunRecordView {
        RunRecordView {
            status: RunStatus::Cancelled,
            steps: self.steps.map_values(|record: StepRecordView| record.cancelled(now)),
            ..self
        }
    }
}

fn cancel_record(record: &mut StepRecord, now: u64)
    ensures
        final(record)@ == old(record)@.cancelled(now),
{
    if record.status == StepStatus::Succeeded || record.status == StepStatus::Failed {
        return;
    }
    let ghost before = record.history@;
    if let Some(mut attempt) = record.history.pop() {
        if attempt.status == StepStatus::Running {
            attempt.finished_at_ms = Some(now);
            attempt.status = StepStatus::Cancelled;
        }
        record.history.push(attempt);
    }
    record.status = StepStatus::Cancelled;
    record.lease = None;
    assert(record@.history =~= old(record)@.cancelled(now).history);
}

/// Cancels a run and all of its steps that are not done. The event is left to be
/// logged.
pub fn cancel_steps(run: &mut RunRecord, now: u64)
    ensures
        final(run)@ == old(run)@.with_cancellation(now),
{
    let ghost before = run@;
    run.status = RunStatus::Cancelled;
    let count = run.steps.len();
    let ghost keys = ordered::ascending(run.steps@.dom());
    let mut i: usize = 0;
    proof {
        assert(before.steps.dom() =~= run.steps@.dom());
    }
    while i < count
        invariant
            i <= count,
            count == keys.len(),
            keys == ordered::ascending(run.steps@.dom()),
            keys.no_duplicates(),
            keys.to_set() == run.steps@.dom(),
            run.steps@.len() == count,
            before.steps.dom() == run.steps@.dom(),
            run@ == (RunRecordView { status: RunStatus::Cancelled, steps: run@.steps, ..before }),
            forall|j: int|
                0 <= j < keys.len() ==> run@.steps[#[trigger] keys[j]] == if j < i {
                    before.steps[keys[j]].cancelled(now)
                } else {
                    before.steps[keys[j]]
                },
        decreases count - i,
    {
        let key = run.steps.key_at(i).clone();
        let ghost now_steps = run.steps@;
        proof {
            assert(keys.contains(keys[i as int]));
            assert(run.steps@.dom().contains(keys[i as int]));
            views::lemma_map_views_remove(run.steps@, key@);
        }
        if let Some(mut record) = run.steps.remove(&key) {
            cancel_record(&mut record, now);
            proof {
                views::lemma_map_views_insert(run.steps@, key@, record);
                assert(run.steps@.insert(key@, record).dom() =~= now_steps.dom());
            }
            run.steps.insert(key, record);
        }
        proof {
            assert forall|j: int| 0 <= j < keys.len() implies run@.steps[#[trigger] keys[j]]
                == if j < i + 1 {
                before.steps[keys[j]].cancelled(now)
            } else {
                before.steps[keys[j]]
            } by {
                assert(keys.contains(keys[j]));
                if j != i {
                    assert(keys[j] != keys[i as int]);
                }
            }
        }
        i += 1;
    }
    proof {
        let want = before.with_cancellation(now).steps;
        assert forall|key: Seq<char>| run@.steps.dom().contains(key) implies run@.steps[key]
            == want[key] by {
            assert(keys.to_set().contains(key));
            let j = choose|j: int| 0 <= j < keys.len() && keys[j] == key;
            assert(run@.steps[keys[j]] == before.steps[keys[j]].cancelled(now));
        }
        assert(run@.steps =~= want);
    }
}

/// What is said of a run that did everything and is not good enough.
pub open spec fn gates_failed_text() -> Seq<char> {
    "one or more evaluation gates failed"@
}

impl RunRecordView {
    /// Whether a step has failed.
    pub open spec fn has_failed(self) -> bool {
        exists|step: Seq<char>| #[trigger]
            self.steps.contains_key(step) && self.steps[step].status == StepStatus::Failed
    }

    /// Whether as many steps as the workflow has are recorded, and all of them have
    /// succeeded.
    pub open spec fn all_succeeded(self) -> bool {
        &&& self.steps.len() == self.workflow.steps.len()
        &&& forall|step: Seq<char>| #[trigger]
            self.steps.contains_key(step) ==> self.steps[step].status == StepStatus::Succeeded
    }

    /// The run with metrics, and with what its gates make of them.
    pub open spec fn measured(self, metrics: Seq<MetricView>) -> RunRecordView {
        RunRecordView {
            metrics,
            gate_decisions: evaluation::decisions(self.manifest.evaluation_gates, metrics),
            ..self
        }
    }

    /// Where a measured run ends, if it does: it has failed if a step has; once all
    /// steps have succeeded its gates decide.
    pub open spec fn verdict(self) -> Option<RunStatus> {
        if self.has_failed() {
            Some(RunStatus::Failed)
        } else if self.all_succeeded() {
            if evaluation::all_passed(self.gate_decisions) {
                Some(RunStatus::Succeeded)
            } else {
                Some(RunStatus::Failed)
            }
        } else {
            None
        }
    }

    /// The run after its metrics came in, before its end is logged.
    pub open spec fn settled(self, metrics: Seq<MetricView>) -> RunRecordView {
        let measured = self.measured(metrics);
        match measured.verdict() {
            Some(status) => RunRecordView {
                status,
                error: if status == RunStatus::Failed && !measured.has_failed() {
                    Some(gates_failed_text())
                } else {
                    measured.error
                },
                ..measured
            },
            None => measured,
        }
    }
}

/// Counts what the steps of a run have come to: whether one has failed, and
/// whether all have succeeded.
fn survey(run: &RunRecord) -> (seen: (bool, bool))
    ensures
        seen.0 == run@.has_failed(),
        seen.1 == run@.all_succeeded(),
{
    let count = run.steps.len();
    let ghost keys = ordered::ascending(run.steps@.dom());
    let mut failed = false;
    let mut succeeded = true;
    let mut i: usize = 0;
    proof {
        assert(run@.steps.dom() =~= run.steps@.dom());
        assert(run@.steps.len() == run.steps@.len());
    }
    while i < count
        invariant
            i <= count,
            count == keys.len(),
            count == run.steps@.len(),
            keys == ordered::ascending(run.steps@.dom()),
            keys.to_set() == run.steps@.dom(),
            run@.steps.dom() == run.steps@.dom(),
            failed <==> exists|j: int|
                0 <= j < i && run@.steps[#[trigger] keys[j]].status == StepStatus::Failed,
            succeeded <==> forall|j: int|
                0 <= j < i ==> run@.steps[#[trigger] keys[j]].status == StepStatus::Succeeded,
        decreases count - i,
    {
        let status = run.steps.value_at(i).status;
        proof {
            assert(keys.contains(keys[i as int]));
            assert(run.steps@.dom().contains(keys[i as int]));
            assert(run@.steps[keys[i as int]].status == status);
        }
        if status == StepStatus::Failed {
            failed = true;
        }
        if status != StepStatus::Succeeded {
            succeeded = false;
        }
        i += 1;
    }
    proof {
        assert forall|step: Seq<char>| #[trigger] run@.steps.contains_key(step) implies exists|
            j: int,
        | 0 <= j < keys.len() && keys[j] == step by {
            assert(keys.to_set().contains(step));
        }
        if failed {
            let j = choose|j: int|
                0 <= j < count && run@.steps[#[trigger] keys[j]].status == StepStatus::Failed;
            assert(keys.contains(keys[j]));
            assert(run@.steps.contains_key(keys[j]));
        }
        if !succeeded {
            let j = choose|j: int|
                0 <= j < count && run@.steps[#[trigger] keys[j]].status != StepStatus::Succeeded;
            assert(keys.contains(keys[j]));
            assert(run@.steps.contains_key(keys[j]));
        }
    }
    (failed, succeeded && count == run.workflow.steps.len())
}

/// Lets the metrics of a run in, and ends the run if it can be ended. Says whether
/// it could. The event is left to be logged.
pub fn settle_run(run: &mut RunRecord, metrics: Vec<Metric>) -> (ended: bool)
    ensures
        final(run)@ == old(run)@.settled(views::all_views(metrics@)),
        ended == (old(run)@.measured(views::all_views(metrics@)).verdict() is Some),
{
    let ghost before = run@;
    run.gate_decisions = evaluate_gates(
        run.manifest.evaluation_gates.as_slice(),
        metrics.as_slice(),
    );
    run.metrics = metrics;
    assert(run@ == before.measured(views::all_views(metrics@)));
    let (failed, succeeded) = survey(run);
    if failed {
        run.status = RunStatus::Failed;
        true
    } else if succeeded {
        if every_gate_passed(&run.gate_decisions) {
            run.status = RunStatus::Succeeded;
        } else {
            run.error = Some("one or more evaluation gates failed".to_owned());
            run.status = RunStatus::Failed;
        }
        true
    } else {
        false
    }
}

} // verus!
