//! What the executors do with a step and with a run: attempts, retries and fallbacks, the
//! order in which steps are started, and what a worker that drives a run does next.
use crate::durable::{
    self, DriveActionView, DriveEventView, DriveView, DurableExecutorOptionsView,
};
use crate::error::{RepositoryErrorView, TaskErrorView};
use crate::json;
use crate::manifest::RunManifestView;
use crate::ordered;
use crate::record::{
    ExecutionEventView, RunRecordView, RunStatus, StepClaimView, StepRecordView, StepStatus,
};
use crate::runtime::{self, LocalRunView, NextMove, StepExecutionView};
use crate::task;
use crate::text;
use crate::workflow::{StepSpecView, WorkflowSpecView};
use serde_json::Value;
use vstd::prelude::*;

verus! {

/// A step that was not started runs its own task, has made no attempt, and has told nothing.
pub proof fn law_execution_starts_with_the_task(
    run_id: Seq<char>,
    workflow_id: Seq<char>,
    step: StepSpecView,
    worker: Seq<char>,
)
    ensures
        ({
            let fresh = StepExecutionView::fresh(run_id, workflow_id, step, worker);
            &&& fresh.run_id == run_id
            &&& fresh.workflow_id == workflow_id
            &&& fresh.step == step
            &&& fresh.worker == worker
            &&& fresh.task == step.task
            &&& !fresh.fallback_used
            &&& !fresh.fallback_attempted
            &&& fresh.attempts == 0
            &&& fresh.last_error is None
            &&& fresh.events.len() == 0
        }),
{
}

/// An attempt begins if and only if the selected task is registered and an attempt is left:
/// one of those that the policy grants, or the one of a fallback that was not tried yet. It
/// counts, and its start is told, with its number and the selected task. Where the task is
/// not registered, that is noted.
pub proof fn law_attempt_begins_while_one_is_left(execution: StepExecutionView, registered: bool)
    requires
        execution.attempts < u32::MAX,
    ensures
        ({
            let (after, begins) = execution.begun(registered);
            let granted: int = if execution.step.policy.retry.max_attempts > 1 {
                execution.step.policy.retry.max_attempts as int
            } else {
                1
            };
            let left = execution.attempts < granted || (execution.fallback_used
                && !execution.fallback_attempted);
            &&& begins <==> registered && left
            &&& begins ==> {
                &&& after.attempts == execution.attempts + 1
                &&& after.fallback_attempted == (execution.fallback_attempted
                    || execution.fallback_used)
                &&& after.events == execution.events.push(
                    ExecutionEventView::StepStarted {
                        run_id: execution.run_id,
                        step_id: execution.step.id,
                        task: execution.task,
                        attempt: after.attempts,
                    },
                )
                &&& after.last_error == execution.last_error
            }
            &&& !begins ==> {
                &&& after.attempts == execution.attempts
                &&& after.fallback_attempted == execution.fallback_attempted
                &&& after.events == execution.events
                &&& registered ==> after.last_error == execution.last_error
                &&& !registered ==> after.last_error == Some(
                    "task "@ + execution.task + " is not registered"@,
                )
            }
            &&& after.run_id == execution.run_id
            &&& after.workflow_id == execution.workflow_id
            &&& after.step == execution.step
            &&& after.worker == execution.worker
            &&& after.task == execution.task
            &&& after.fallback_used == execution.fallback_used
        }),
{
}

/// A step has no attempt left once it has made as many as its policy grants, and its
/// fallback, if it was selected, was tried.
pub proof fn law_attempts_run_out(execution: StepExecutionView)
    ensures
        execution.exhausted() <==> {
            &&& execution.attempts >= execution.step.policy.retry.max_attempts
            &&& execution.attempts >= 1
            &&& execution.fallback_used ==> execution.fallback_attempted
        },
{
}

/// What becomes of a step after an attempt of it has failed. After a transient failure or a
/// timeout it is tried again, once the delay that follows the attempt is over, as long as it
/// has made fewer attempts than its policy grants. Else it goes on with its fallback, if it
/// has one that was not selected before. Else it is given up. What is decided is told, and
/// what it failed of is noted.
pub proof fn law_failed_attempt_is_retried_or_not(
    execution: StepExecutionView,
    error: TaskErrorView,
)
    ensures
        ({
            let (after, next) = execution.after_failure(error);
            let policy = execution.step.policy;
            let granted: int = if policy.retry.max_attempts > 1 {
                policy.retry.max_attempts as int
            } else {
                1
            };
            let may_pass = error is Transient || error is Timeout;
            &&& after.last_error == Some(error.text())
            &&& after.attempts == execution.attempts
            &&& after.fallback_attempted == execution.fallback_attempted
            &&& after.run_id == execution.run_id
            &&& after.workflow_id == execution.workflow_id
            &&& after.step == execution.step
            &&& after.worker == execution.worker
            &&& if may_pass && execution.attempts < granted {
                &&& next == NextMove::Wait(
                    policy.retry.delay.delay_ms(execution.attempts) as u64,
                )
                &&& after.task == execution.task
                &&& after.fallback_used == execution.fallback_used
                &&& after.events == execution.events.push(
                    ExecutionEventView::StepRetrying {
                        run_id: execution.run_id,
                        step_id: execution.step.id,
                        attempt: execution.attempts,
                        error: error.text(),
                    },
                )
            } else if policy.fallback_task is Some && !execution.fallback_used {
                &&& next == NextMove::Again
                &&& after.task == policy.fallback_task->0
                &&& after.fallback_used
                &&& after.events == execution.events.push(
                    ExecutionEventView::StepFallbackSelected {
                        run_id: execution.run_id,
                        step_id: execution.step.id,
                        task: policy.fallback_task->0,
                    },
                )
            } else {
                &&& next == NextMove::GiveUp
                &&& after.task == execution.task
                &&& after.fallback_used == execution.fallback_used
                &&& after.events == execution.events
            }
        }),
{
}

/// The record of a step that has come to its end says what came of it: its output if it has
/// succeeded, and what it failed of last if it has failed. It has the task that was selected
/// and the attempts that were made, is held by nobody, and its end is told last.
pub proof fn law_end_of_a_step_is_recorded(execution: StepExecutionView, output: Value)
    ensures
        ({
            let won = execution.success(output);
            let lost = execution.failure();
            let reason = if execution.last_error is Some {
                execution.last_error->0
            } else {
                "task failed without an error"@
            };
            &&& won.record.status == StepStatus::Succeeded
            &&& won.record.output == Some(output)
            &&& won.record.error is None
            &&& won.events == execution.events.push(
                ExecutionEventView::StepSucceeded {
                    run_id: execution.run_id,
                    step_id: execution.step.id,
                    attempts: execution.attempts,
                },
            )
            &&& lost.record.status == StepStatus::Failed
            &&& lost.record.output is None
            &&& lost.record.error == Some(reason)
            &&& lost.events == execution.events.push(
                ExecutionEventView::StepFailed {
                    run_id: execution.run_id,
                    step_id: execution.step.id,
                    attempts: execution.attempts,
                    error: reason,
                },
            )
            &&& forall|record: StepRecordView|
                record == won.record || record == lost.record ==> {
                    &&& #[trigger] record.id == execution.step.id
                    &&& record.task == execution.task
                    &&& record.attempts == execution.attempts
                    &&& record.fallback_used == execution.fallback_used
                    &&& record.lease is None
                    &&& record.next_attempt_at_ms is None
                    &&& record.history.len() == 0
                    &&& record.artifacts.len() == 0
                }
        }),
{
}

/// Whether a step can be started: it has no record, and every step that it depends on has
/// one by which it has succeeded.
pub open spec fn may_be_started(run: RunRecordView, step: StepSpecView) -> bool {
    &&& !run.steps.contains_key(step.id)
    &&& forall|j: int|
        0 <= j < step.depends_on.len() ==> {
            &&& run.steps.contains_key(#[trigger] step.depends_on[j])
            &&& run.steps[step.depends_on[j]].status == StepStatus::Succeeded
        }
}

/// The steps that are ready are those of the workflow that can be started, in its order.
pub proof fn law_ready_steps_may_be_started(run: RunRecordView)
    ensures
        run.ready_steps() == run.workflow.steps.filter(
            |step: StepSpecView| may_be_started(run, step),
        ),
        forall|i: int|
            0 <= i < run.ready_steps().len() ==> may_be_started(run, #[trigger] run.ready_steps()[i]),
        forall|k: int|
            0 <= k < run.workflow.steps.len() && may_be_started(
                run,
                #[trigger] run.workflow.steps[k],
            ) ==> run.ready_steps().contains(run.workflow.steps[k]),
{
    let ready = |step: StepSpecView| run.is_ready(step);
    let written = |step: StepSpecView| may_be_started(run, step);
    assert forall|step: StepSpecView| #[trigger] ready(step) == written(step) by {}
    assert(ready =~= written);
    let list = run.workflow.steps.filter(written);
    assert forall|i: int| 0 <= i < list.len() implies may_be_started(run, #[trigger] list[i]) by {
        run.workflow.steps.lemma_filter_pred(written, i);
        assert(written(list[i]));
    }
    assert forall|k: int|
        0 <= k < run.workflow.steps.len() && may_be_started(
            run,
            #[trigger] run.workflow.steps[k],
        ) implies list.contains(run.workflow.steps[k]) by {
        assert(written(run.workflow.steps[k]));
        run.workflow.steps.lemma_filter_contains(written, k);
    }
}

/// The input of a step of a run within one process: the input of the run, and the output of
/// every step that it depends on, each under the name of the step.
pub proof fn law_step_is_given_outputs(
    run: RunRecordView,
    step: StepSpecView,
) -> (outputs: Map<Seq<char>, Value>)
    ensures
        json::step_input(run.input, crate::claim::outputs_of(step.depends_on, run.steps))
            == json::json_object(
            Map::<Seq<char>, Value>::empty().insert("run_input"@, run.input).insert(
                "dependencies"@,
                json::json_object(outputs),
            ),
        ),
        forall|id: Seq<char>| #[trigger]
            outputs.contains_key(id) <==> {
                &&& exists|j: int|
                    0 <= j < step.depends_on.len() && #[trigger] step.depends_on[j] == id
                &&& run.steps.contains_key(id)
                &&& run.steps[id].output is Some
            },
        forall|id: Seq<char>| #[trigger]
            outputs.contains_key(id) ==> run.steps[id].output == Some(outputs[id]),
{
    let outputs = crate::claim::outputs_of(step.depends_on, run.steps);
    assert forall|id: Seq<char>| #[trigger] outputs.contains_key(id) <==> {
        &&& exists|j: int| 0 <= j < step.depends_on.len() && #[trigger] step.depends_on[j] == id
        &&& run.steps.contains_key(id)
        &&& run.steps[id].output is Some
    } by {
        assert(step.depends_on.contains(id) == (exists|j: int|
            0 <= j < step.depends_on.len() && #[trigger] step.depends_on[j] == id));
    }
    outputs
}

/// A run within one process is running at its start, has what it was started with and no
/// record of a step, and its start is told. There is room for one step at least.
pub proof fn law_local_run_starts(
    run_id: Seq<char>,
    workflow: WorkflowSpecView,
    manifest: RunManifestView,
    input: Value,
    limit: usize,
    now: u64,
)
    ensures
        ({
            let local = LocalRunView::started(run_id, workflow, manifest, input, limit, now);
            let run = local.run;
            &&& run.run_id == run_id
            &&& run.workflow == workflow
            &&& run.manifest == manifest
            &&& run.input == input
            &&& run.status == RunStatus::Running
            &&& run.schema_version == 1
            &&& run.created_at_ms == now
            &&& forall|id: Seq<char>| !#[trigger] run.steps.contains_key(id)
            &&& run.events.len() == 1
            &&& run.events[0] == (ExecutionEventView::RunStarted {
                run_id,
                workflow_id: workflow.id,
            })
            &&& run.event_log.len() == 0
            &&& run.metrics.len() == 0
            &&& run.error is None
            &&& run.idempotency_key is None
            &&& local.waiting.len() == 0
            &&& !local.ended
            &&& local.limit >= 1
            &&& limit >= 1 ==> local.limit == limit
        }),
{
}

/// What the next batch of a run within one process is. While steps wait for room, it is as
/// many of them as there is room for, in their order, and the others wait on. Where none
/// waits and fewer steps have a record than the workflow has, all that can be started are
/// taken up first; where there are none such, the run has failed and is over. Of a run that
/// is over, and of one with as many records as steps, nothing is started.
pub proof fn law_batches_are_taken_in_order(local: LocalRunView)
    requires
        local.limit >= 1,
    ensures
        ({
            let (after, batch) = local.next();
            let refills = !local.ended && local.waiting.len() == 0 && local.run.steps.len()
                < local.run.workflow.steps.len();
            let line = if refills {
                local.run.workflow.steps.filter(
                    |step: StepSpecView| may_be_started(local.run, step),
                )
            } else {
                local.waiting
            };
            let stuck = refills && line.len() == 0;
            &&& after.limit == local.limit
            &&& local.ended || stuck ==> batch.len() == 0 && after.ended
            &&& !local.ended && !stuck ==> {
                &&& batch + after.waiting == line
                &&& batch.len() <= local.limit
                &&& after.waiting.len() > 0 ==> batch.len() == local.limit
                &&& !after.ended
                &&& after.run == local.run
            }
            &&& local.ended ==> after.run == local.run && after.waiting == local.waiting
            &&& stuck ==> after.run == (RunRecordView {
                status: RunStatus::Failed,
                error: Some("workflow could not make progress"@),
                ..local.run
            })
        }),
{
    law_ready_steps_may_be_started(local.run);
    let (after, batch) = local.next();
    let filled = local.refilled();
    let size = filled.batch_size();
    assert(filled.waiting.take(size) + filled.waiting.skip(size) =~= filled.waiting);
    if local.ended {
        assert(after.waiting =~= local.waiting);
    }
}

/// A step is put into a batch only if every step that it depends on has a record by which it
/// has succeeded, provided that the steps that wait for room have been taken up so.
pub proof fn law_started_step_has_its_dependencies(local: LocalRunView)
    requires
        forall|i: int, j: int|
            0 <= i < local.waiting.len() && 0 <= j < local.waiting[i].depends_on.len() ==> {
                &&& local.run.steps.contains_key(#[trigger] local.waiting[i].depends_on[j])
                &&& local.run.steps[local.waiting[i].depends_on[j]].status == StepStatus::Succeeded
            },
    ensures
        forall|i: int, j: int|
            0 <= i < local.next().1.len() && 0 <= j < local.next().1[i].depends_on.len() ==> {
                let dependency = #[trigger] local.next().1[i].depends_on[j];
                &&& local.run.steps.contains_key(dependency)
                &&& local.run.steps[dependency].status == StepStatus::Succeeded
            },
{
    law_ready_steps_may_be_started(local.run);
    let filled = local.refilled();
    assert forall|i: int, j: int|
        0 <= i < local.next().1.len() && 0 <= j < local.next().1[i].depends_on.len() implies ({
        let dependency = #[trigger] local.next().1[i].depends_on[j];
        &&& local.run.steps.contains_key(dependency)
        &&& local.run.steps[dependency].status == StepStatus::Succeeded
    }) by {
        assert(local.next().1[i] == filled.waiting[i]);
        if local.waiting.len() == 0 {
            assert(filled.waiting[i] == local.run.ready_steps()[i]);
            assert(may_be_started(local.run, local.run.ready_steps()[i]));
            assert(local.run.ready_steps()[i].depends_on[j] == local.next().1[i].depends_on[j]);
        } else {
            assert(local.waiting[i].depends_on[j] == local.next().1[i].depends_on[j]);
        }
    }
}

proof fn lemma_first_error(ids: Seq<Seq<char>>, steps: Map<Seq<char>, StepRecordView>)
    ensures
        match runtime::first_error(ids, steps) {
            Some(error) => exists|i: int|
                0 <= i < ids.len() && steps[#[trigger] ids[i]].error == Some(error) && forall|
                    k: int,
                |
                    0 <= k < i ==> steps[#[trigger] ids[k]].error is None,
            None => forall|k: int| 0 <= k < ids.len() ==> steps[#[trigger] ids[k]].error is None,
        },
    decreases ids.len(),
{
    if ids.len() > 0 {
        let rest = ids.drop_first();
        if steps[ids[0]].error is None {
            lemma_first_error(rest, steps);
            match runtime::first_error(rest, steps) {
                Some(error) => {
                    let i = choose|i: int|
                        0 <= i < rest.len() && steps[#[trigger] rest[i]].error == Some(error)
                            && forall|k: int|
                            0 <= k < i ==> steps[#[trigger] rest[k]].error is None;
                    assert(ids[i + 1] == rest[i]);
                    assert forall|k: int| 0 <= k < i + 1 implies steps[
                        #[trigger] ids[k]
                    ].error is None by {
                        if k > 0 {
                            assert(rest[k - 1] == ids[k]);
                        }
                    }
                },
                None => {
                    assert forall|k: int| 0 <= k < ids.len() implies steps[
                        #[trigger] ids[k]
                    ].error is None by {
                        if k > 0 {
                            assert(rest[k - 1] == ids[k]);
                        }
                    }
                },
            }
        } else {
            assert(steps[ids[0]].error == Some(steps[ids[0]].error->0));
        }
    }
}

/// What becomes of a run within one process after a batch. As long as no step has failed, it
/// goes on as it is. Once one has, the run has failed and is over, nothing waits any more,
/// and it has failed of the error of the first step, in the order of their ids, that has one.
pub proof fn law_failed_step_ends_the_run(local: LocalRunView)
    requires
        local.run.steps.dom().finite(),
    ensures
        ({
            let after = local.settled();
            let steps = local.run.steps;
            let broken = exists|id: Seq<char>| #[trigger]
                steps.contains_key(id) && steps[id].status == StepStatus::Failed;
            &&& !broken ==> after == local
            &&& broken ==> {
                &&& after.ended
                &&& after.waiting.len() == 0
                &&& after.limit == local.limit
                &&& after.run.status == RunStatus::Failed
                &&& after.run == (RunRecordView {
                    status: RunStatus::Failed,
                    error: after.run.error,
                    ..local.run
                })
                &&& match after.run.error {
                    Some(error) => exists|id: Seq<char>| #[trigger]
                        steps.contains_key(id) && steps[id].error == Some(error) && forall|
                            other: Seq<char>,
                        | #[trigger]
                            steps.contains_key(other) && text::text_below(other, id)
                                ==> steps[other].error is None,
                    None => forall|id: Seq<char>| #[trigger]
                        steps.contains_key(id) ==> steps[id].error is None,
                }
            }
        }),
{
    let after = local.settled();
    let steps = local.run.steps;
    let ids = ordered::ascending(steps.dom());
    ordered::lemma_ascending_of(steps.dom());
    lemma_first_error(ids, steps);
    if local.run.has_failed() {
        match after.run.error {
            Some(error) => {
                let i = choose|i: int|
                    0 <= i < ids.len() && steps[#[trigger] ids[i]].error == Some(error) && forall|
                        k: int,
                    |
                        0 <= k < i ==> steps[#[trigger] ids[k]].error is None;
                assert(ids.to_set().contains(ids[i]));
                assert(steps.contains_key(ids[i]));
                assert forall|other: Seq<char>| #[trigger]
                    steps.contains_key(other) && text::text_below(other, ids[i]) implies
                    steps[other].error is None by {
                    assert(ids.to_set().contains(other));
                    let k = choose|k: int| 0 <= k < ids.len() && ids[k] == other;
                    if k == i {
                        text::lemma_text_below_irreflexive(other);
                    } else if i < k {
                        assert(text::text_below(ids[i], ids[k]));
                        text::lemma_text_below_transitive(other, ids[i], other);
                        text::lemma_text_below_irreflexive(other);
                    }
                    assert(steps[ids[k]].error is None);
                }
            },
            None => {
                assert forall|id: Seq<char>| #[trigger] steps.contains_key(id) implies
                    steps[id].error is None by {
                    assert(ids.to_set().contains(id));
                    let k = choose|k: int| 0 <= k < ids.len() && ids[k] == id;
                    assert(steps[ids[k]].error is None);
                }
            },
        }
    }
}

/// An event that is told of a run within one process comes last among its events. Nothing
/// else of the run changes but its revision.
pub proof fn law_told_event_comes_last(run: RunRecordView, event: ExecutionEventView)
    ensures
        ({
            let after = run.with_emitted(event);
            &&& after.events == run.events.push(event)
            &&& run.revision < u64::MAX ==> after.revision == run.revision + 1
            &&& after == (RunRecordView {
                events: after.events,
                revision: after.revision,
                ..run
            })
        }),
{
}

/// What a worker that drives a run does next. A claimed step joins the others, and they are
/// executed, all of them and in the order in which they were claimed, once there are as many
/// as may run at a time or there is none left to claim; it claims on else. Where there is
/// nothing to claim and nothing to execute, the metrics are handed in. A run that is over is
/// handed out; where it is not, what others have lost is taken back, and the worker waits,
/// unless it has been idle for as long as it may be, when it gives up. After steps were
/// executed, and after a wait, it claims again.
pub proof fn law_driving_worker_decides(drive: DriveView, event: DriveEventView)
    ensures
        ({
            let (after, action) = drive.next(event);
            let none = Seq::<StepClaimView>::empty();
            &&& after.run_id == drive.run_id
            &&& after.max_parallel_steps == drive.max_parallel_steps
            &&& after.poll_interval_ms == drive.poll_interval_ms
            &&& after.max_idle_time_ms == drive.max_idle_time_ms
            &&& match event {
                DriveEventView::Claimed(Some(claim)) => if drive.claims.len() + 1
                    >= drive.max_parallel_steps {
                    &&& action == DriveActionView::Execute(drive.claims.push(claim))
                    &&& after.claims == none
                } else {
                    &&& action == DriveActionView::Claim
                    &&& after.claims == drive.claims.push(claim)
                },
                DriveEventView::Claimed(None) => if drive.claims.len() > 0 {
                    &&& action == DriveActionView::Execute(drive.claims)
                    &&& after.claims == none
                } else {
                    &&& action == DriveActionView::Finish
                    &&& after.claims == drive.claims
                },
                DriveEventView::Executed => {
                    &&& action == DriveActionView::Claim
                    &&& after.claims == drive.claims
                },
                DriveEventView::Slept => {
                    &&& action == DriveActionView::Claim
                    &&& after.claims == drive.claims
                },
                DriveEventView::Finished(run) => {
                    &&& after.claims == drive.claims
                    &&& if run.status == RunStatus::Running || run.status == RunStatus::Pending {
                        action == DriveActionView::Recover
                    } else {
                        action == DriveActionView::Return(run)
                    }
                },
                DriveEventView::Recovered(idle_ms) => {
                    &&& after.claims == drive.claims
                    &&& if drive.max_idle_time_ms is Some && idle_ms
                        >= drive.max_idle_time_ms->0 {
                        action == DriveActionView::GiveUp(
                            RepositoryErrorView::Conflict { run: drive.run_id },
                        )
                    } else {
                        action == DriveActionView::Sleep(drive.poll_interval_ms)
                    }
                },
            }
        }),
{
}

/// A worker that is to drive a run holds no claim at the start, and may execute one step at
/// a time at the least.
pub proof fn law_driving_worker_starts(run_id: Seq<char>, options: DurableExecutorOptionsView)
    ensures
        ({
            let drive = DriveView::fresh(run_id, options);
            &&& drive.run_id == run_id
            &&& drive.claims.len() == 0
            &&& drive.max_parallel_steps >= 1
            &&& options.max_parallel_steps >= 1 ==> drive.max_parallel_steps
                == options.max_parallel_steps
            &&& drive.poll_interval_ms == options.poll_interval_ms
            &&& drive.max_idle_time_ms == options.max_idle_time_ms
        }),
{
}

/// A limit or a pause of none becomes one, and any other stays.
pub proof fn law_none_becomes_one(n: usize, ms: u64)
    ensures
        n == 0 ==> runtime::one_at_least(n) == 1,
        n > 0 ==> runtime::one_at_least(n) == n,
        ms == 0 ==> durable::some_millis(ms) == 1,
        ms > 0 ==> durable::some_millis(ms) == ms,
{
}

/// The start of a claimed attempt is told of the run, the step, the task and the attempt of
/// the claim.
pub proof fn law_start_of_claim_is_told(claim: StepClaimView)
    ensures
        durable::start_of(claim) == (ExecutionEventView::StepStarted {
            run_id: claim.run_id,
            step_id: claim.step.id,
            task: claim.task.id,
            attempt: claim.attempt,
        }),
{
}

/// A typed task that wants the envelope is given all of the input of its step; any other is
/// given the input of the run, if the input of the step has one, and all of it else.
pub proof fn law_typed_task_is_given_its_part(input: Value)
    ensures
        task::selected_input(true, input) == input,
        json::json_members(input).contains_key("run_input"@) ==> task::selected_input(false, input)
            == json::json_members(input)["run_input"@],
        !json::json_members(input).contains_key("run_input"@) ==> task::selected_input(
            false,
            input,
        ) == input,
{
}

} // verus!
