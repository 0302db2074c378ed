//! What a worker makes of the result of a claimed attempt, which completions are accepted,
//! and what is written down of them.
use crate::claim;
use crate::durable;
use crate::error::{RepositoryErrorView, TaskErrorView};
use crate::manifest::RunManifestView;
use crate::policy::RetryDelay;
use crate::record::{
    ExecutionEventView, RunRecordView, StepAttemptView, StepClaimView, StepCompletionView,
    StepRecordView, StepStatus,
};
use crate::store::RepositoryView;
use serde_json::Value;
use vstd::arithmetic::power::*;
use vstd::prelude::*;

verus! {

/// The success of a claimed attempt is handed in as one, with its output and under the
/// number of the attempt.
pub proof fn law_success_is_handed_in(claim: StepClaimView, output: Value)
    ensures
        ({
            let completion = durable::completion_of(claim, Ok(output));
            &&& completion.status == StepStatus::Succeeded
            &&& completion.output == Some(output)
            &&& completion.error is None
            &&& completion.next_task is None
            &&& !completion.fallback_used
            &&& completion.retry_after_ms is None
            &&& completion.artifacts.len() == 0
            &&& completion.event == (ExecutionEventView::StepSucceeded {
                run_id: claim.run_id,
                step_id: claim.step.id,
                attempts: claim.attempt,
            })
        }),
{
}

/// A transient failure and a timeout are handed in to be retried, under the number of the
/// attempt and with the delay that follows it, as long as the attempt is not the last that
/// the policy grants.
pub proof fn law_passing_failure_is_retried(claim: StepClaimView, error: TaskErrorView)
    requires
        error is Transient || error is Timeout,
        claim.attempt < claim.step.policy.retry.max_attempts || claim.attempt == 0,
    ensures
        ({
            let completion = durable::completion_of(claim, Err(error));
            &&& completion.status == StepStatus::Retrying
            &&& completion.output is None
            &&& completion.error == Some(error.text())
            &&& completion.next_task is None
            &&& !completion.fallback_used
            &&& completion.artifacts.len() == 0
            &&& completion.retry_after_ms == Some(
                claim.step.policy.retry.delay.delay_ms(claim.attempt) as u64,
            )
            &&& completion.event == (ExecutionEventView::StepRetrying {
                run_id: claim.run_id,
                step_id: claim.step.id,
                attempt: claim.attempt,
                error: error.text(),
            })
        }),
{
}

/// A failure that is neither transient nor a timeout is never handed in to be retried, and
/// neither is any failure of the last attempt that the policy grants: the fallback of the
/// step is selected, if it has one that was not selected before, and the step has failed
/// else, with the number of the attempt.
pub proof fn law_lasting_failure_is_not_retried(claim: StepClaimView, error: TaskErrorView)
    requires
        !(error is Transient || error is Timeout) || (claim.attempt
            >= claim.step.policy.retry.max_attempts && claim.attempt >= 1),
    ensures
        ({
            let completion = durable::completion_of(claim, Err(error));
            let fallback = claim.step.policy.fallback_task;
            &&& !(completion.event is StepRetrying)
            &&& completion.output is None
            &&& completion.error == Some(error.text())
            &&& completion.retry_after_ms is None
            &&& completion.artifacts.len() == 0
            &&& if fallback is Some && !claim.fallback_used {
                &&& completion.status == StepStatus::Retrying
                &&& completion.next_task == fallback
                &&& completion.fallback_used
                &&& completion.event == (ExecutionEventView::StepFallbackSelected {
                    run_id: claim.run_id,
                    step_id: claim.step.id,
                    task: fallback->0,
                })
            } else {
                &&& completion.status == StepStatus::Failed
                &&& completion.next_task is None
                &&& !completion.fallback_used
                &&& completion.event == (ExecutionEventView::StepFailed {
                    run_id: claim.run_id,
                    step_id: claim.step.id,
                    attempts: claim.attempt,
                    error: error.text(),
                })
            }
        }),
{
}

proof fn lemma_power_step(base: u32, exponent: nat)
    ensures
        pow(base as int, exponent + 1) == base * pow(base as int, exponent),
        pow(base as int, exponent) >= 0,
    decreases exponent,
{
    reveal(pow);
    if exponent > 0 {
        lemma_power_step(base, (exponent - 1) as nat);
        assert(base * pow(base as int, (exponent - 1) as nat) >= 0) by (nonlinear_arith)
            requires
                pow(base as int, (exponent - 1) as nat) >= 0,
        ;
    }
}

/// There is no delay before the first attempt, nor where the initial delay is none. The
/// first retry waits for the initial delay, and each one after it for the delay before it
/// times the multiplier, up to the limit, which is never below the initial delay. From the
/// twentieth on the delay stays.
pub proof fn law_delay_grows_by_the_multiplier(delay: RetryDelay, attempt: u32)
    ensures
        delay.delay_ms(0) == 0,
        delay.initial_ms == 0 ==> delay.delay_ms(attempt) == 0,
        delay.delay_ms(1) == delay.initial_ms,
        1 <= attempt <= 20 && pow(delay.multiplier as int, attempt as nat) <= u32::MAX ==> {
            let limit: int = if delay.max_ms > delay.initial_ms {
                delay.max_ms as int
            } else {
                delay.initial_ms as int
            };
            let grown = delay.delay_ms(attempt) * delay.multiplier;
            delay.delay_ms((attempt + 1) as u32) == (if grown > limit {
                limit
            } else {
                grown
            })
        },
        attempt >= 21 ==> delay.delay_ms(attempt) == delay.delay_ms(21),
        1 <= attempt <= 20 && pow(delay.multiplier as int, attempt as nat) > u32::MAX ==> {
            let limit: int = if delay.max_ms > delay.initial_ms {
                delay.max_ms as int
            } else {
                delay.initial_ms as int
            };
            let grown = delay.initial_ms * u32::MAX;
            delay.delay_ms((attempt + 1) as u32) == (if grown > limit {
                limit
            } else {
                grown
            })
        },
{
    reveal(pow);
    assert(pow(delay.multiplier as int, 0) == 1);
    if 1 <= attempt <= 20 && pow(delay.multiplier as int, attempt as nat) <= u32::MAX
        && delay.initial_ms > 0 {
        let base = delay.multiplier as int;
        let initial = delay.initial_ms as int;
        let low = pow(base, (attempt - 1) as nat);
        let high = pow(base, attempt as nat);
        let limit: int = if delay.max_ms > delay.initial_ms {
            delay.max_ms as int
        } else {
            delay.initial_ms as int
        };
        lemma_power_step(delay.multiplier, (attempt - 1) as nat);
        assert(high == base * low);
        if base == 0 {
            assert(high == 0) by (nonlinear_arith)
                requires
                    high == base * low,
                    base == 0,
            ;
            if attempt > 1 {
                lemma_power_step(delay.multiplier, (attempt - 2) as nat);
                let lower = pow(base, (attempt - 2) as nat);
                assert(low == 0) by (nonlinear_arith)
                    requires
                        low == base * lower,
                        base == 0,
                ;
            }
            assert(initial * high == 0) by (nonlinear_arith)
                requires
                    high == 0,
            ;
            assert(delay.delay_ms(attempt) * delay.multiplier == 0) by (nonlinear_arith)
                requires
                    delay.multiplier == 0,
            ;
        } else {
            assert(low <= high) by (nonlinear_arith)
                requires
                    high == base * low,
                    base >= 1,
                    low >= 0,
            ;
            assert(initial * high == (initial * low) * base) by (nonlinear_arith)
                requires
                    high == base * low,
            ;
            assert(limit * base >= limit) by (nonlinear_arith)
                requires
                    base >= 1,
                    limit >= 0,
            ;
            if initial * low > limit {
                assert((initial * low) * base >= initial * low) by (nonlinear_arith)
                    requires
                        base >= 1,
                        initial * low >= 0,
                ;
            }
        }
    }
}

/// All that a completion has to be for the holder of a claim to hand it in. It speaks of
/// the step and the attempt of the claim; a retry is handed in while attempts are left, a
/// fallback only if it is the one of the step, was not selected before and is in the
/// manifest, and a failure only where no fallback is left.
pub open spec fn is_proper(
    completion: StepCompletionView,
    claim: StepClaimView,
    manifest: RunManifestView,
) -> bool {
    match completion.event {
        ExecutionEventView::StepSucceeded { run_id, step_id, attempts } => {
            &&& run_id == claim.run_id
            &&& step_id == claim.step.id
            &&& attempts == claim.attempt
            &&& completion.status == StepStatus::Succeeded
            &&& completion.output is Some
            &&& completion.error is None
            &&& completion.next_task is None
            &&& !completion.fallback_used
            &&& completion.retry_after_ms is None
        },
        ExecutionEventView::StepRetrying { run_id, step_id, attempt, error } => {
            &&& run_id == claim.run_id
            &&& step_id == claim.step.id
            &&& attempt == claim.attempt
            &&& attempt < claim.step.policy.retry.max_attempts || attempt == 0
            &&& completion.status == StepStatus::Retrying
            &&& completion.output is None
            &&& completion.error == Some(error)
            &&& completion.next_task is None
            &&& !completion.fallback_used
        },
        ExecutionEventView::StepFallbackSelected { run_id, step_id, task } => {
            &&& run_id == claim.run_id
            &&& step_id == claim.step.id
            &&& claim.step.policy.fallback_task == Some(task)
            &&& !claim.fallback_used
            &&& manifest.tasks.contains_key(task)
            &&& completion.status == StepStatus::Retrying
            &&& completion.output is None
            &&& completion.error is Some
            &&& completion.next_task == Some(task)
            &&& completion.fallback_used
            &&& completion.retry_after_ms is None
        },
        ExecutionEventView::StepFailed { run_id, step_id, attempts, error } => {
            &&& run_id == claim.run_id
            &&& step_id == claim.step.id
            &&& attempts == claim.attempt
            &&& claim.fallback_used || claim.step.policy.fallback_task is None
            &&& completion.status == StepStatus::Failed
            &&& completion.output is None
            &&& completion.error == Some(error)
            &&& completion.next_task is None
            &&& !completion.fallback_used
            &&& completion.retry_after_ms is None
        },
        _ => false,
    }
}

/// A completion fits a claim if and only if it is a proper one.
pub proof fn law_proper_completions_fit(
    completion: StepCompletionView,
    claim: StepClaimView,
    manifest: RunManifestView,
)
    ensures
        completion.fits(claim, manifest) <==> is_proper(completion, claim, manifest),
{
    let bare = StepCompletionView { artifacts: Seq::empty(), ..completion };
    assert(completion.bare() == bare);
    if is_proper(completion, claim, manifest) {
        match completion.event {
            ExecutionEventView::StepSucceeded { run_id, step_id, attempts } => {
                assert(bare == StepCompletionView::success(
                    run_id,
                    step_id,
                    completion.output->0,
                    attempts,
                ));
            },
            ExecutionEventView::StepRetrying { run_id, step_id, attempt, error } => {
                assert((StepCompletionView { retry_after_ms: None, ..bare })
                    == StepCompletionView::retry(run_id, step_id, attempt, error));
            },
            ExecutionEventView::StepFallbackSelected { run_id, step_id, task } => {
                assert(bare == StepCompletionView::falling_back(
                    run_id,
                    step_id,
                    task,
                    completion.error->0,
                ));
            },
            ExecutionEventView::StepFailed { run_id, step_id, attempts, error } => {
                assert(bare == StepCompletionView::failure(run_id, step_id, attempts, error));
            },
            _ => {},
        }
    }
    if completion.fits(claim, manifest) {
        assert(bare.status == completion.status);
        assert(bare.output == completion.output);
        assert(bare.error == completion.error);
        assert(bare.next_task == completion.next_task);
        assert(bare.fallback_used == completion.fallback_used);
        assert(bare.retry_after_ms == completion.retry_after_ms);
        assert(bare.event == completion.event);
        match completion.event {
            ExecutionEventView::StepRetrying { run_id, step_id, attempt, error } => {
                let plain = StepCompletionView { retry_after_ms: None, ..bare };
                assert(plain.event == completion.event);
                assert(plain.status == completion.status);
                assert(plain.output == completion.output);
                assert(plain.error == completion.error);
                assert(plain.next_task == completion.next_task);
                assert(plain.fallback_used == completion.fallback_used);
            },
            _ => {},
        }
    }
}

/// The record of a step keeps what a committed completion says of it: its status, output,
/// error and artifacts. The step is held by nobody; it goes on with the task that was
/// selected; a fallback that was selected stays so; a retry waits for its delay; attempts
/// stay; and the attempt that was running is closed, with what came of it.
pub proof fn law_completion_is_written_down(
    record: StepRecordView,
    completion: StepCompletionView,
    now: u64,
)
    ensures
        ({
            let after = record.completed(completion, now);
            let last = record.history.len() - 1;
            &&& after.id == record.id
            &&& after.status == completion.status
            &&& after.output == completion.output
            &&& after.error == completion.error
            &&& after.artifacts == completion.artifacts
            &&& after.lease is None
            &&& after.attempts == record.attempts
            &&& after.fallback_used == (record.fallback_used || completion.fallback_used)
            &&& after.task == (if completion.next_task is Some {
                completion.next_task->0
            } else {
                record.task
            })
            &&& completion.retry_after_ms is None ==> after.next_attempt_at_ms is None
            &&& completion.retry_after_ms is Some ==> after.next_attempt_at_ms is Some
                && after.next_attempt_at_ms->0 == (if now + completion.retry_after_ms->0
                <= u64::MAX {
                now + completion.retry_after_ms->0
            } else {
                u64::MAX as int
            })
            &&& after.history.len() == record.history.len()
            &&& forall|i: int| 0 <= i < last ==> after.history[i] == record.history[i]
            &&& last >= 0 ==> after.history[last] == (StepAttemptView {
                finished_at_ms: Some(now),
                status: completion.status,
                error: completion.error,
                ..record.history[last]
            })
        }),
{
}

/// What handing in a completion comes to. It is refused, and nothing changes, where the run
/// is not known, where the step is not leased to the worker under the token of the claim
/// until some later time, and where the completion is not a proper one; and it is
/// committed else: the record of the step is the completed one, other steps stay, the run
/// has failed of what a failed step failed of, and the event is logged.
pub proof fn law_completion_is_committed_or_refused(
    repository: RepositoryView,
    claim: StepClaimView,
    completion: StepCompletionView,
    now: u64,
)
    requires
        repository.consistent(),
    ensures
        ({
            let (after, outcome) = repository.complete(claim, completion, now);
            let before = repository.runs[claim.run_id];
            let record = before.steps[claim.step.id];
            let held = {
                &&& before.steps.contains_key(claim.step.id)
                &&& record.lease is Some
                &&& record.lease->0.worker == claim.worker
                &&& record.lease->0.token == claim.lease_token
                &&& now < record.lease->0.expires_at_ms
            };
            if !repository.runs.contains_key(claim.run_id) {
                &&& after == repository
                &&& outcome == Err::<RunRecordView, RepositoryErrorView>(
                    RepositoryErrorView::RunNotFound { run: claim.run_id },
                )
            } else if !held {
                &&& after == repository
                &&& outcome == Err::<RunRecordView, RepositoryErrorView>(
                    RepositoryErrorView::LeaseLost { run: claim.run_id, step: claim.step.id },
                )
            } else if !is_proper(completion, claim, before.manifest) {
                &&& after == repository
                &&& outcome == Err::<RunRecordView, RepositoryErrorView>(
                    RepositoryErrorView::InvalidCompletion {
                        run: claim.run_id,
                        step: claim.step.id,
                    },
                )
            } else {
                let run = after.runs[claim.run_id];
                &&& outcome == Ok::<RunRecordView, RepositoryErrorView>(run)
                &&& run.steps.dom() == before.steps.dom()
                &&& run.steps[claim.step.id] == record.completed(completion, now)
                &&& forall|id: Seq<char>|
                    id != claim.step.id && before.steps.contains_key(id) ==> #[trigger] run.steps[id]
                        == before.steps[id]
                &&& run.error == (if completion.status == StepStatus::Failed {
                    completion.error
                } else {
                    before.error
                })
                &&& run.status == before.status
                &&& run.workflow == before.workflow
                &&& run.manifest == before.manifest
                &&& run.input == before.input
                &&& run.event_log.drop_last() == before.event_log
                &&& run.event_log.last() == after.events.last()
                &&& run.events == before.events.push(completion.event)
                &&& after.events.drop_last() == repository.events
                &&& after.events.last().event == completion.event
                &&& after.events.last().occurred_at_ms == now
                &&& after.events.last().sequence == after.next_event_sequence
                &&& repository.next_event_sequence < u64::MAX ==> after.next_event_sequence
                    == repository.next_event_sequence + 1
                &&& after.next_lease_token == repository.next_lease_token
                &&& after.idempotency == repository.idempotency
                &&& after.runs.dom() == repository.runs.dom()
                &&& forall|id: Seq<char>|
                    id != claim.run_id && repository.runs.contains_key(id)
                        ==> #[trigger] after.runs[id] == repository.runs[id]
            }
        }),
{
    let (after, outcome) = repository.complete(claim, completion, now);
    let before = repository.runs[claim.run_id];
    law_proper_completions_fit(completion, claim, before.manifest);
    if outcome is Ok {
        let run = after.runs[claim.run_id];
        assert(run.steps.dom() =~= before.steps.dom());
        assert(run.event_log.drop_last() =~= before.event_log);
        assert(after.events.drop_last() =~= repository.events);
        assert(after.runs.dom() =~= repository.runs.dom());
    }
}

/// What asking for a lease to be extended comes to. It is refused, and nothing changes,
/// where the run is not known and where the step is not leased to the worker under the
/// token of the claim until some later time; else the lease runs from now on for as long as
/// was asked, a millisecond at the least, and nothing changes but that and the revision of
/// the run.
pub proof fn law_renewal_extends_the_lease(
    repository: RepositoryView,
    claim: StepClaimView,
    lease_ms: u64,
    now: u64,
)
    requires
        repository.consistent(),
    ensures
        ({
            let (after, outcome) = repository.renew(claim, lease_ms, now);
            let before = repository.runs[claim.run_id];
            let record = before.steps[claim.step.id];
            let held = {
                &&& before.steps.contains_key(claim.step.id)
                &&& record.lease is Some
                &&& record.lease->0.worker == claim.worker
                &&& record.lease->0.token == claim.lease_token
                &&& now < record.lease->0.expires_at_ms
            };
            let lasts: int = if lease_ms >= 1 {
                lease_ms as int
            } else {
                1
            };
            if !repository.runs.contains_key(claim.run_id) {
                &&& after == repository
                &&& outcome == Err::<(), RepositoryErrorView>(
                    RepositoryErrorView::RunNotFound { run: claim.run_id },
                )
            } else if !held {
                &&& after == repository
                &&& outcome == Err::<(), RepositoryErrorView>(
                    RepositoryErrorView::LeaseLost { run: claim.run_id, step: claim.step.id },
                )
            } else {
                let run = after.runs[claim.run_id];
                let lease = run.steps[claim.step.id].lease;
                &&& outcome is Ok
                &&& run.steps.dom() == before.steps.dom()
                &&& lease is Some
                &&& lease->0.worker == claim.worker
                &&& lease->0.token == claim.lease_token
                &&& lease->0.expires_at_ms == (if now + lasts <= u64::MAX {
                    now + lasts
                } else {
                    u64::MAX as int
                })
                &&& run.steps[claim.step.id] == (StepRecordView { lease, ..record })
                &&& forall|id: Seq<char>|
                    id != claim.step.id && before.steps.contains_key(id) ==> #[trigger] run.steps[id]
                        == before.steps[id]
                &&& run == (RunRecordView { steps: run.steps, revision: run.revision, ..before })
                &&& before.revision < u64::MAX ==> run.revision == before.revision + 1
                &&& after.runs == repository.runs.insert(claim.run_id, run)
                &&& after == (RepositoryView { runs: after.runs, ..repository })
            }
        }),
{
    let (after, outcome) = repository.renew(claim, lease_ms, now);
    let before = repository.runs[claim.run_id];
    if outcome is Ok {
        let run = after.runs[claim.run_id];
        assert(run.steps.dom() =~= before.steps.dom());
        assert(after.runs =~= repository.runs.insert(claim.run_id, run));
    }
}

} // verus!
