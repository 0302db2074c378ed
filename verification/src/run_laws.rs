//! What holds of every run and of every step, whoever works on it.
use crate::claim;
use crate::durable::{self, DriveActionView, DriveEventView, DriveView};
use crate::error::TaskErrorView;
use crate::event;
use crate::laws;
use crate::locked;
use crate::manifest::RunManifestView;
use crate::policy::WorkerProfileView;
use crate::record::{
    EventEnvelopeView, ExecutionEventView, RunRecordView, RunStatus, StepClaimView,
    StepCompletionView, StepRecordView, StepStatus,
};
use crate::runtime::{LocalRunView, NextMove, StepExecutionView};
use crate::store;
use crate::text;
use crate::workflow::StepSpecView;
use serde_json::Value;
use vstd::prelude::*;

verus! {

proof fn lemma_claimable_step(run: RunRecordView, worker: WorkerProfileView, now: u64, from: int)
    requires
        0 <= from,
        run.claimable_from(worker, now, from) is Some,
    ensures
        run.workflow.steps.contains(run.claimable_from(worker, now, from)->0),
        run.claimable(run.claimable_from(worker, now, from)->0, worker, now),
    decreases run.workflow.steps.len() - from,
{
    if run.claimable(run.workflow.steps[from], worker, now) {
        assert(run.workflow.steps.contains(run.workflow.steps[from]));
    } else {
        lemma_claimable_step(run, worker, now, from + 1);
    }
}

/// A step is handed to a worker only if the run is running, the step is one of the
/// workflow, all that it waits for has succeeded, the worker meets its policy and
/// has the capability of its task, nobody holds it, and an attempt of it is left.
pub proof fn law_claim_is_justified(run: RunRecordView, worker: WorkerProfileView, now: u64)
    requires
        run.next_step(worker, now) is Some,
    ensures
        ({
            let step = run.next_step(worker, now)->0;
            &&& run.status == RunStatus::Running
            &&& run.workflow.steps.contains(step)
            &&& forall|j: int|
                0 <= j < step.depends_on.len() ==> {
                    &&& run.steps.contains_key(#[trigger] step.depends_on[j])
                    &&& run.steps[step.depends_on[j]].status == StepStatus::Succeeded
                }
            &&& worker.meets(step.policy)
            &&& worker.meets_for(run.manifest.tasks[run.task_of(step)].capability, step.policy)
            &&& run.record_of(step).lease is None
            &&& run.steps.contains_key(step.id) ==> run.steps[step.id].available(
                step.policy.retry.budget(),
                now,
            )
        }),
{
    lemma_claimable_step(run, worker, now, 0);
}

/// A step that is to be retried after a delay is held by nobody in the meantime, and
/// nobody can claim it.
pub proof fn law_delayed_step_is_left_alone(
    run: RunRecordView,
    claim: StepClaimView,
    completion: StepCompletionView,
    step: StepSpecView,
    worker: WorkerProfileView,
    now: u64,
    soon: u64,
)
    requires
        completion.retry_after_ms is Some,
        soon < claim::later(now, completion.retry_after_ms->0),
        step.id == claim.step.id,
    ensures
        ({
            let after = run.with_completion(claim, completion, now);
            &&& after.steps[step.id].lease is None
            &&& !after.claimable(step, worker, soon)
        }),
{
}

/// A claim whose completion was committed is void: it can neither be renewed nor
/// completed again, at any time.
pub proof fn law_completion_ends_the_claim(
    run: RunRecordView,
    claim: StepClaimView,
    completion: StepCompletionView,
    again: StepClaimView,
    now: u64,
    any_time: u64,
)
    requires
        again.step.id == claim.step.id,
    ensures
        !run.with_completion(claim, completion, now).honours(again, any_time),
{
}

/// A claim is void once its lease has run out.
pub proof fn law_expired_claim_is_void(run: RunRecordView, claim: StepClaimView, now: u64)
    requires
        run.steps.contains_key(claim.step.id),
        run.steps[claim.step.id].expired(now),
    ensures
        !run.honours(claim, now),
{
}

/// A step that was claimed is held by the one who claimed it until the lease runs
/// out, and by nobody else.
pub proof fn law_claim_is_exclusive(
    run: RunRecordView,
    step: StepSpecView,
    worker: Seq<char>,
    token: u64,
    now: u64,
    lease_ms: u64,
    forget_delay: bool,
    claim: StepClaimView,
    time: u64,
)
    requires
        claim.step.id == step.id,
    ensures
        run.with_claim(step, worker, token, now, lease_ms, forget_delay).honours(claim, time) <==> (
        claim.worker == worker && claim.lease_token == token && time < claim::lease_end(
            now,
            lease_ms,
        )),
{
}

/// The attempts of a record are within what the step is granted, where a fallback
/// that was selected has one more.
pub open spec fn within_budget(record: StepRecordView, budget: u32) -> bool {
    record.attempts <= budget || (record.fallback_used && record.attempts <= budget + 1)
}

/// The attempts of each step of a run are within what the step is granted.
pub open spec fn keeps_budgets(run: RunRecordView) -> bool {
    forall|i: int|
        0 <= i < run.workflow.steps.len() && run.steps.contains_key(
            (#[trigger] run.workflow.steps[i]).id,
        ) ==> within_budget(
            run.steps[run.workflow.steps[i].id],
            run.workflow.steps[i].policy.retry.budget(),
        )
}

/// Whatever happens to a step, its attempts stay within what it is granted.
pub proof fn law_attempts_stay_within_budget(
    record: StepRecordView,
    step: StepSpecView,
    run_id: Seq<char>,
    worker: Seq<char>,
    token: u64,
    lease_ms: u64,
    completion: StepCompletionView,
    now: u64,
)
    requires
        within_budget(record, step.policy.retry.budget()),
    ensures
        ({
            let budget = step.policy.retry.budget();
            &&& record.available(budget, now) ==> within_budget(
                record.claimed(run_id, record.task, worker, token, now, lease_ms),
                budget,
            )
            &&& within_budget(record.completed(completion, now), budget)
            &&& within_budget(record.recovered(step, now), budget)
            &&& within_budget(record.cancelled(now), budget)
        }),
{
}

/// A fallback that is selected when the attempts are used up gets one more: nothing
/// but the worker's profile and the state of the run keeps it from being claimed, at
/// any time.
pub proof fn law_fallback_gets_a_final_attempt(
    record: StepRecordView,
    claim: StepClaimView,
    completion: StepCompletionView,
    manifest: RunManifestView,
    now: u64,
    any_time: u64,
)
    requires
        record.attempts <= claim.step.policy.retry.budget(),
    ensures
        ({
            let budget = claim.step.policy.retry.budget();
            &&& completion.fits(claim, manifest) && completion.event is StepFallbackSelected
                ==> record.completed(completion, now).available(budget, any_time)
            &&& record.turns_to_fallback(claim.step) ==> record.recovered(
                claim.step,
                now,
            ).available(budget, any_time)
        }),
{
    if completion.fits(claim, manifest) && completion.event is StepFallbackSelected {
        assert(completion.status == completion.bare().status);
        assert(completion.fallback_used == completion.bare().fallback_used);
        assert(completion.retry_after_ms == completion.bare().retry_after_ms);
    }
}

/// A fallback that was selected stays selected.
pub proof fn law_fallback_stays_selected(
    record: StepRecordView,
    step: StepSpecView,
    run_id: Seq<char>,
    worker: Seq<char>,
    token: u64,
    lease_ms: u64,
    completion: StepCompletionView,
    now: u64,
)
    requires
        record.fallback_used,
    ensures
        record.claimed(run_id, record.task, worker, token, now, lease_ms).fallback_used,
        record.completed(completion, now).fallback_used,
        record.recovered(step, now).fallback_used,
        record.cancelled(now).fallback_used,
{
}

/// A fallback is not selected twice: neither by the holder of a claim, nor when the
/// lease of the claim runs out.
pub proof fn law_fallback_is_selected_once(
    run: RunRecordView,
    step: StepSpecView,
    worker: Seq<char>,
    token: u64,
    completion: StepCompletionView,
)
    requires
        run.steps.contains_key(step.id),
        run.steps[step.id].fallback_used,
        completion.event is StepFallbackSelected,
    ensures
        !completion.fits(run.claim_for(step, worker, token), run.manifest),
        !(run.steps[step.id].recovery_event(run.run_id, step) is StepFallbackSelected),
{
}

/// What a worker makes of the result of a claimed attempt is accepted while its
/// lease runs, if the manifest has the fallback of the step.
pub proof fn law_worker_completion_fits(
    claim: StepClaimView,
    result: Result<Value, TaskErrorView>,
    manifest: RunManifestView,
)
    requires
        claim.step.policy.fallback_task is Some ==> manifest.tasks.contains_key(
            claim.step.policy.fallback_task->0,
        ),
    ensures
        durable::completion_of(claim, result).fits(claim, manifest),
{
    let completion = durable::completion_of(claim, result);
    assert(completion.bare() == completion);
}

/// The start of a claimed attempt can be told, unless it was told before.
pub proof fn law_start_of_claim_can_be_told(
    run: RunRecordView,
    step: StepSpecView,
    worker: Seq<char>,
    token: u64,
    now: u64,
    lease_ms: u64,
    forget_delay: bool,
)
    requires
        run.status == RunStatus::Running,
        run.manifest.tasks[run.task_of(step)].id == run.task_of(step),
    ensures
        ({
            let after = run.with_claim(step, worker, token, now, lease_ms, forget_delay);
            let event = durable::start_of(run.claim_for(step, worker, token));
            after.admits_event(event) <==> !after.has_logged(event)
        }),
{
}

/// An event that was logged is not admitted again.
pub proof fn law_event_is_logged_once(
    run: RunRecordView,
    event: ExecutionEventView,
    sequence: u64,
    now: u64,
)
    ensures
        !run.with_event(event, sequence, now).admits_event(event),
{
    let after = run.with_event(event, sequence, now);
    let last = after.event_log.len() - 1;
    assert(after.event_log[last].event == event);
    assert(event::repeats(event, after.event_log[last].event));
}

/// A run whose log is numbered in order stays so when it logs an event under the
/// number after its last one.
pub proof fn law_own_numbers_stay_in_order(
    run: RunRecordView,
    event: ExecutionEventView,
    now: u64,
)
    requires
        store::numbered_in_order(run.event_log),
    ensures
        store::numbered_in_order(run.with_next_event(event, now).event_log),
{
    let (before, after) = (run.event_log, run.with_next_event(event, now).event_log);
    assert forall|i: int, j: int| 0 <= i < j < after.len() implies (#[trigger] after[i]).sequence
        < (#[trigger] after[j]).sequence || after[j].sequence == u64::MAX by {
        assert(after[i] == before[i]);
        if j < before.len() {
            assert(after[j] == before[j]);
        } else if i < before.len() - 1 {
            assert(before[i].sequence < before[before.len() - 1].sequence || before[before.len()
                - 1].sequence == u64::MAX);
        }
    }
}

/// A reader who has seen a part of a log and asks for what comes after the last
/// number of it gets the rest: nothing is left out and nothing comes twice.
pub proof fn law_log_is_read_in_parts(seen: Seq<EventEnvelopeView>, rest: Seq<EventEnvelopeView>)
    requires
        seen.len() > 0,
        store::numbered_in_order(seen + rest),
        seen.last().sequence < u64::MAX,
    ensures
        event::logged_since(seen + rest, seen.last().sequence) == rest,
{
    let last = seen.last().sequence;
    let later = |envelope: EventEnvelopeView| envelope.sequence > last;
    let log = seen + rest;
    assert forall|i: int| 0 <= i < seen.len() implies !later(#[trigger] seen[i]) by {
        if i < seen.len() - 1 {
            assert(log[i] == seen[i]);
            assert(log[seen.len() - 1] == seen.last());
        }
    }
    assert forall|i: int| 0 <= i < rest.len() implies later(#[trigger] rest[i]) by {
        assert(log[seen.len() - 1] == seen.last());
        assert(log[seen.len() + i] == rest[i]);
    }
    lemma_filter_none(seen, later);
    lemma_filter_all(rest, later);
    Seq::filter_distributes_over_add(seen, rest, later);
    assert(Seq::<EventEnvelopeView>::empty() + rest =~= rest);
}

/// A log that is numbered in order is cut by a number: what comes after the number is
/// what comes after a position.
pub proof fn lemma_log_is_cut(log: Seq<EventEnvelopeView>, sequence: u64) -> (cut: int)
    requires
        store::numbered_in_order(log),
    ensures
        0 <= cut <= log.len(),
        forall|i: int| 0 <= i < cut ==> (#[trigger] log[i]).sequence <= sequence,
        forall|i: int| cut <= i < log.len() ==> (#[trigger] log[i]).sequence > sequence,
        event::logged_since(log, sequence) == log.skip(cut),
    decreases log.len(),
{
    let later = |envelope: EventEnvelopeView| envelope.sequence > sequence;
    if log.len() == 0 {
        lemma_filter_empty(log, later);
        assert(log.skip(0) =~= log);
        0
    } else if log.last().sequence <= sequence {
        assert forall|i: int| 0 <= i < log.len() implies (#[trigger] log[i]).sequence
            <= sequence by {
            if i < log.len() - 1 {
                assert(log[log.len() - 1] == log.last());
            }
        }
        lemma_filter_none(log, later);
        assert(log.skip(log.len() as int) =~= Seq::<EventEnvelopeView>::empty());
        log.len() as int
    } else {
        let fewer = log.drop_last();
        assert forall|i: int, j: int| 0 <= i < j < fewer.len() implies (
        #[trigger] fewer[i]).sequence < (#[trigger] fewer[j]).sequence || fewer[j].sequence
            == u64::MAX by {
            assert(fewer[i] == log[i] && fewer[j] == log[j]);
        }
        let cut = lemma_log_is_cut(fewer, sequence);
        lemma_filter_step(log, later);
        assert(log.skip(cut) =~= fewer.skip(cut).push(log.last()));
        assert forall|i: int| 0 <= i < cut implies (#[trigger] log[i]).sequence <= sequence by {
            assert(fewer[i] == log[i]);
        }
        assert forall|i: int| cut <= i < log.len() implies (#[trigger] log[i]).sequence
            > sequence by {
            if i < fewer.len() {
                assert(fewer[i] == log[i]);
            }
        }
        cut
    }
}

proof fn lemma_filter_step<T>(list: Seq<T>, keep: spec_fn(T) -> bool)
    requires
        list.len() > 0,
    ensures
        list.filter(keep) == if keep(list.last()) {
            list.drop_last().filter(keep).push(list.last())
        } else {
            list.drop_last().filter(keep)
        },
{
    reveal(Seq::filter);
}

/// Where all items of a list are kept, the list is.
pub proof fn lemma_filter_all<T>(list: Seq<T>, keep: spec_fn(T) -> bool)
    requires
        forall|i: int| 0 <= i < list.len() ==> keep(#[trigger] list[i]),
    ensures
        list.filter(keep) == list,
    decreases list.len(),
{
    if list.len() > 0 {
        let fewer = list.drop_last();
        lemma_filter_step(list, keep);
        assert forall|i: int| 0 <= i < fewer.len() implies keep(#[trigger] fewer[i]) by {
            assert(fewer[i] == list[i]);
        }
        lemma_filter_all(fewer, keep);
        assert(keep(list[list.len() - 1]));
        assert(fewer.push(list.last()) =~= list);
    } else {
        lemma_filter_empty(list, keep);
    }
}

/// Where no item of a list is kept, nothing is.
pub proof fn lemma_filter_none<T>(list: Seq<T>, keep: spec_fn(T) -> bool)
    requires
        forall|i: int| 0 <= i < list.len() ==> !keep(#[trigger] list[i]),
    ensures
        list.filter(keep) == Seq::<T>::empty(),
    decreases list.len(),
{
    if list.len() > 0 {
        let fewer = list.drop_last();
        lemma_filter_step(list, keep);
        assert forall|i: int| 0 <= i < fewer.len() implies !keep(#[trigger] fewer[i]) by {
            assert(fewer[i] == list[i]);
        }
        lemma_filter_none(fewer, keep);
        assert(!keep(list[list.len() - 1]));
    } else {
        lemma_filter_empty(list, keep);
    }
}

proof fn lemma_filter_empty<T>(list: Seq<T>, keep: spec_fn(T) -> bool)
    requires
        list.len() == 0,
    ensures
        list.filter(keep) == Seq::<T>::empty(),
        list.filter(keep) == list,
{
    reveal(Seq::filter);
    assert(list =~= Seq::<T>::empty());
}

/// A position of the last hyphen of a text.
spec fn last_hyphen(text: Seq<char>, p: int) -> bool {
    &&& 0 <= p < text.len()
    &&& text[p] == '-'
    &&& forall|i: int| p < i < text.len() ==> #[trigger] text[i] != '-'
}

proof fn lemma_event_id(run_id: Seq<char>, sequence: u64) -> (p: int)
    ensures
        ({
            let id = run_id + "-event-"@ + text::decimal(sequence as nat);
            &&& last_hyphen(id, p)
            &&& p == run_id.len() + 6
            &&& id.take(run_id.len() as int) == run_id
            &&& id.skip(p + 1) == text::decimal(sequence as nat)
        }),
{
    reveal_strlit("-event-");
    text::lemma_decimal_value(sequence as nat);
    let number = text::decimal(sequence as nat);
    let id = run_id + "-event-"@ + number;
    let p: int = run_id.len() as int + 6;
    assert(id[p] == "-event-"@[6]);
    assert forall|i: int| p < i < id.len() implies #[trigger] id[i] != '-' by {
        assert(id[i] == number[i - p - 1]);
    }
    assert(id.take(run_id.len() as int) =~= run_id);
    assert(id.skip(p + 1) =~= number);
    p
}

/// Two events share an id only if they are of the same run and have the same number.
pub proof fn law_event_ids_are_unique(
    run_a: Seq<char>,
    run_b: Seq<char>,
    a: u64,
    b: u64,
    at_a: u64,
    at_b: u64,
    event_a: ExecutionEventView,
    event_b: ExecutionEventView,
)
    requires
        EventEnvelopeView::of(run_a, a, at_a, event_a).event_id == EventEnvelopeView::of(
            run_b,
            b,
            at_b,
            event_b,
        ).event_id,
    ensures
        run_a == run_b,
        a == b,
{
    let p = lemma_event_id(run_a, a);
    let q = lemma_event_id(run_b, b);
    let id = run_a + "-event-"@ + text::decimal(a as nat);
    assert(id == run_b + "-event-"@ + text::decimal(b as nat));
    if p < q {
        assert(id[q] != '-');
    }
    if q < p {
        assert(id[p] != '-');
    }
    assert(p == q);
    text::lemma_decimal_value(a as nat);
    text::lemma_decimal_value(b as nat);
}

/// The token for the next lease of a locked run is above all that were given out, as
/// far as numbers go.
pub proof fn law_locked_token_is_fresh(run: RunRecordView, highest: u64, step: Seq<char>, i: int)
    requires
        locked::is_highest_token(run, highest),
        run.steps.contains_key(step),
        0 <= i < run.steps[step].history.len(),
    ensures
        locked::next_token(run) > run.steps[step].history[i].lease_token
            || run.steps[step].history[i].lease_token == u64::MAX,
{
    locked::lemma_next_token(run, highest);
    assert(run.steps[step].history[i].lease_token <= highest);
}

/// What holds of the execution of a step at all times: attempts beyond the budget are
/// made with the fallback only, and there is at most one of them.
pub open spec fn sound(execution: StepExecutionView) -> bool {
    &&& execution.attempts <= execution.budget() || (execution.fallback_attempted
        && execution.attempts == execution.budget() + 1)
    &&& execution.fallback_attempted ==> execution.fallback_used
}

/// How often a fallback was selected.
pub open spec fn selections(events: Seq<ExecutionEventView>) -> nat
    decreases events.len(),
{
    if events.len() == 0 {
        0
    } else {
        selections(events.drop_last()) + if events.last() is StepFallbackSelected {
            1nat
        } else {
            0nat
        }
    }
}

/// The fallback was selected once if it was, and never if it was not.
pub open spec fn selected_once(execution: StepExecutionView) -> bool {
    selections(execution.events) == if execution.fallback_used {
        1nat
    } else {
        0nat
    }
}

/// A step that was not started is sound.
pub proof fn law_execution_starts_sound(
    run_id: Seq<char>,
    workflow_id: Seq<char>,
    step: StepSpecView,
    worker: Seq<char>,
)
    ensures
        sound(StepExecutionView::fresh(run_id, workflow_id, step, worker)),
        selected_once(StepExecutionView::fresh(run_id, workflow_id, step, worker)),
{
}

/// A step makes no more attempts than it is granted, with one more for the fallback,
/// and selects the fallback at most once, whatever its tasks do.
pub proof fn law_execution_stays_sound(
    execution: StepExecutionView,
    registered: bool,
    error: TaskErrorView,
)
    requires
        sound(execution),
        selected_once(execution),
        execution.attempts < u32::MAX,
    ensures
        sound(execution.begun(registered).0),
        selected_once(execution.begun(registered).0),
        sound(execution.after_failure(error).0),
        selected_once(execution.after_failure(error).0),
{
    let begun = execution.begun(registered).0;
    let failed = execution.after_failure(error).0;
    if begun.events.len() > execution.events.len() {
        assert(begun.events.drop_last() =~= execution.events);
    }
    if failed.events.len() > execution.events.len() {
        assert(failed.events.drop_last() =~= execution.events);
    }
}

impl StepExecutionView {
    /// The step after attempts that have failed with the given errors, as long as there
    /// was an attempt to make.
    pub open spec fn through_failures(self, errors: Seq<TaskErrorView>) -> StepExecutionView
        decreases errors.len(),
    {
        if errors.len() == 0 {
            self
        } else {
            let before = self.through_failures(errors.drop_last());
            let (begun, begins) = before.begun(true);
            if begins {
                begun.after_failure(errors.last()).0
            } else {
                before
            }
        }
    }
}

/// However often its attempts fail and of what, a step makes no more of them than it is
/// granted, with one more for the fallback, and selects the fallback at most once; and
/// there is room to count any attempt that is left.
pub proof fn law_step_stays_within_budget(
    run_id: Seq<char>,
    workflow_id: Seq<char>,
    step: StepSpecView,
    worker: Seq<char>,
    errors: Seq<TaskErrorView>,
)
    requires
        step.policy.retry.budget() < u32::MAX,
    ensures
        ({
            let start = StepExecutionView::fresh(run_id, workflow_id, step, worker);
            let after = start.through_failures(errors);
            &&& after.step == step
            &&& sound(after)
            &&& selected_once(after)
            &&& within_budget(after.failure().record, step.policy.retry.budget())
            &&& after.attempts < u32::MAX || after.exhausted()
        }),
    decreases errors.len(),
{
    let start = StepExecutionView::fresh(run_id, workflow_id, step, worker);
    law_execution_starts_sound(run_id, workflow_id, step, worker);
    if errors.len() > 0 {
        law_step_stays_within_budget(run_id, workflow_id, step, worker, errors.drop_last());
        let before = start.through_failures(errors.drop_last());
        let (begun, begins) = before.begun(true);
        if begins {
            law_execution_stays_sound(before, true, errors.last());
            let after = begun.after_failure(errors.last()).0;
            if after.events.len() > begun.events.len() {
                assert(after.events.drop_last() =~= begun.events);
            }
        }
    }
}

/// A failure that will not pass is not tried again: the step goes on with its fallback,
/// if it has one that was not selected yet, and is given up else. No retry is told.
pub proof fn law_permanent_failure_is_not_retried(
    execution: StepExecutionView,
    error: TaskErrorView,
)
    requires
        !error.is_retryable(),
    ensures
        ({
            let (after, next) = execution.after_failure(error);
            let fallback = execution.step.policy.fallback_task;
            if fallback is Some && !execution.fallback_used {
                &&& next == NextMove::Again
                &&& after.fallback_used
                &&& after.task == fallback->0
                &&& after.events == execution.events.push(
                    ExecutionEventView::StepFallbackSelected {
                        run_id: execution.run_id,
                        step_id: execution.step.id,
                        task: fallback->0,
                    },
                )
            } else {
                &&& next == NextMove::GiveUp
                &&& after.attempts == execution.attempts
                &&& after.events == execution.events
            }
        }),
{
}

/// An attempt that begins counts: a step that is never given up runs out of attempts.
pub proof fn law_attempts_are_counted(execution: StepExecutionView)
    requires
        execution.attempts < u32::MAX,
        execution.begun(true).1,
    ensures
        execution.begun(true).0.attempts == execution.attempts + 1,
        execution.attempts < execution.budget() || !execution.fallback_attempted,
{
}

/// Every step that waits for room is one whose dependencies have succeeded.
pub open spec fn waits_only_for_room(local: LocalRunView) -> bool {
    forall|i: int|
        0 <= i < local.waiting.len() ==> local.run.has_done(
            (#[trigger] local.waiting[i]).depends_on,
        )
}

/// No more steps are started at a time than are allowed, and each of them only after
/// all that it waits for has succeeded.
pub proof fn law_batches_are_bounded_and_ready(local: LocalRunView, i: int)
    requires
        waits_only_for_room(local),
        0 <= i < local.next().1.len(),
    ensures
        local.next().1.len() <= local.limit,
        local.run.has_done(local.next().1[i].depends_on),
        waits_only_for_room(local.next().0),
{
    let filled = local.refilled();
    let can_start = |step: StepSpecView| local.run.is_ready(step);
    assert forall|k: int| 0 <= k < filled.waiting.len() implies local.run.has_done(
        (#[trigger] filled.waiting[k]).depends_on,
    ) by {
        if local.waiting.len() == 0 {
            local.run.workflow.steps.lemma_filter_pred(can_start, k);
            assert(can_start(filled.waiting[k]));
        }
    }
    let after = local.next().0;
    let size = filled.batch_size();
    assert(local.next().1[i] == filled.waiting[i]);
    assert forall|k: int| 0 <= k < after.waiting.len() implies after.run.has_done(
        (#[trigger] after.waiting[k]).depends_on,
    ) by {
        assert(after.waiting[k] == filled.waiting[size + k]);
    }
}

/// Steps that wait for room go on doing so when the record of a step comes in that had
/// none.
pub proof fn law_records_keep_steps_waiting_for_room(local: LocalRunView, record: StepRecordView)
    requires
        waits_only_for_room(local),
        !local.run.steps.contains_key(record.id),
    ensures
        waits_only_for_room(
            LocalRunView {
                run: RunRecordView {
                    steps: local.run.steps.insert(record.id, record),
                    ..local.run
                },
                ..local
            },
        ),
{
    let after = LocalRunView {
        run: RunRecordView { steps: local.run.steps.insert(record.id, record), ..local.run },
        ..local
    };
    assert forall|i: int| 0 <= i < after.waiting.len() implies after.run.has_done(
        (#[trigger] after.waiting[i]).depends_on,
    ) by {
        let depends_on = after.waiting[i].depends_on;
        assert(local.run.has_done(local.waiting[i].depends_on));
        assert forall|j: int| 0 <= j < depends_on.len() implies {
            &&& after.run.steps.contains_key(#[trigger] depends_on[j])
            &&& after.run.steps[depends_on[j]].status == StepStatus::Succeeded
        } by {
            assert(local.run.steps.contains_key(depends_on[j]));
        }
    }
}

/// A worker that drives a run executes no more steps at a time than it may, and never
/// none: it holds fewer claims than that when it claims.
pub proof fn law_drive_is_bounded(drive: DriveView, event: DriveEventView)
    requires
        drive.claims.len() < drive.max_parallel_steps,
    ensures
        drive.next(event).0.claims.len() < drive.next(event).0.max_parallel_steps,
        drive.next(event).1 matches DriveActionView::Execute(claims) ==> 0 < claims.len()
            <= drive.max_parallel_steps,
{
}

/// A worker that drives a run hands it out only when it is over.
pub proof fn law_drive_ends_with_the_run(drive: DriveView, event: DriveEventView)
    requires
        drive.next(event).1 is Return,
    ensures
        drive.next(event).1 matches DriveActionView::Return(run) && !durable::in_progress(
            run.status,
        ),
{
}

proof fn lemma_some_step_is_missing(run: RunRecordView) -> (i: int)
    requires
        run.workflow.step_ids().no_duplicates(),
        run.steps.dom().finite(),
        run.steps.len() < run.workflow.steps.len(),
    ensures
        0 <= i < run.workflow.steps.len(),
        !run.steps.contains_key(run.workflow.steps[i].id),
{
    let ids = run.workflow.step_ids();
    if forall|i: int| 0 <= i < ids.len() ==> run.steps.contains_key(#[trigger] ids[i]) {
        ids.unique_seq_to_set();
        assert forall|id: Seq<char>| ids.to_set().contains(id) implies run.steps.dom().contains(
            id,
        ) by {
            let i = choose|i: int| 0 <= i < ids.len() && ids[i] == id;
            assert(run.steps.contains_key(ids[i]));
        }
        vstd::set_lib::lemma_len_subset(ids.to_set(), run.steps.dom());
        assert(run.steps.len() == run.steps.dom().len());
    }
    let i = choose|i: int| 0 <= i < ids.len() && !run.steps.contains_key(#[trigger] ids[i]);
    assert(ids[i] == run.workflow.steps[i].id);
    i
}

/// A run of a workflow without a flaw does not get stuck: as long as no step has failed,
/// there is one to start, or all were started.
pub proof fn law_local_run_does_not_get_stuck(local: LocalRunView)
    requires
        local.run.workflow.flaw() is None,
        local.run.steps.dom().finite(),
        forall|step: Seq<char>| #[trigger]
            local.run.steps.contains_key(step) ==> local.run.steps[step].status
                == StepStatus::Succeeded,
    ensures
        local.refilled().ended == local.ended,
        local.refilled().run == local.run,
{
    if local.run.steps.len() < local.run.workflow.steps.len() {
        let i = lemma_some_step_is_missing(local.run);
        laws::law_valid_workflow_makes_progress(local.run, i);
    }
}

} // verus!
