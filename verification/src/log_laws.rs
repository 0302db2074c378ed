//! Which events are logged, how they are numbered and read, and what is written back of a
//! run under a lock.
use crate::error::RepositoryErrorView;
use crate::evaluation::{GateDecisionView, MetricView};
use crate::event;
use crate::locked;
use crate::record::{
    EventEnvelopeView, ExecutionEventView, RunRecordView, RunStatus, StepClaimView,
    StepCompletionView, StepStatus,
};
use crate::store::RepositoryView;
use crate::text;
use vstd::prelude::*;

verus! {

/// The run that an event names.
pub open spec fn named_run(event: ExecutionEventView) -> Seq<char> {
    match event {
        ExecutionEventView::RunStarted { run_id, .. } => run_id,
        ExecutionEventView::StepStarted { run_id, .. } => run_id,
        ExecutionEventView::StepRetrying { run_id, .. } => run_id,
        ExecutionEventView::StepFallbackSelected { run_id, .. } => run_id,
        ExecutionEventView::StepSucceeded { run_id, .. } => run_id,
        ExecutionEventView::StepFailed { run_id, .. } => run_id,
        ExecutionEventView::RunFinished { run_id, .. } => run_id,
    }
}

/// Whether a run stands where an event says that it does.
pub open spec fn is_so(run: RunRecordView, event: ExecutionEventView) -> bool {
    match event {
        ExecutionEventView::RunStarted { workflow_id, .. } => {
            run.status == RunStatus::Running && workflow_id == run.workflow.id
        },
        ExecutionEventView::StepStarted { step_id, task, attempt, .. } => {
            let record = run.steps[step_id];
            &&& run.status == RunStatus::Running
            &&& run.steps.contains_key(step_id)
            &&& record.status == StepStatus::Running
            &&& task == record.task
            &&& attempt == record.attempts
        },
        ExecutionEventView::StepRetrying { step_id, attempt, error, .. } => {
            let record = run.steps[step_id];
            &&& run.status == RunStatus::Running
            &&& run.steps.contains_key(step_id)
            &&& record.status == StepStatus::Retrying
            &&& attempt == record.attempts
            &&& record.error == Some(error)
        },
        ExecutionEventView::StepFallbackSelected { step_id, task, .. } => {
            let record = run.steps[step_id];
            &&& run.status == RunStatus::Running
            &&& run.steps.contains_key(step_id)
            &&& record.status == StepStatus::Retrying
            &&& record.fallback_used
            &&& task == record.task
        },
        ExecutionEventView::StepSucceeded { step_id, attempts, .. } => {
            let record = run.steps[step_id];
            &&& run.status == RunStatus::Running
            &&& run.steps.contains_key(step_id)
            &&& record.status == StepStatus::Succeeded
            &&& attempts == record.attempts
        },
        ExecutionEventView::StepFailed { step_id, attempts, error, .. } => {
            let record = run.steps[step_id];
            &&& run.status == RunStatus::Running
            &&& run.steps.contains_key(step_id)
            &&& record.status == StepStatus::Failed
            &&& attempts == record.attempts
            &&& record.error == Some(error)
        },
        ExecutionEventView::RunFinished { status, .. } => {
            &&& status == run.status
            &&& status == RunStatus::Succeeded || status == RunStatus::Failed || status
                == RunStatus::Cancelled
        },
    }
}

/// Whether two events say the same: that the run has started, or has finished; that the
/// same attempt of the same step has started, is retried, has succeeded or has failed; or
/// that the same fallback of the same step was selected.
pub open spec fn says_the_same(a: ExecutionEventView, b: ExecutionEventView) -> bool {
    ||| a is RunStarted && b is RunStarted
    ||| a is RunFinished && b is RunFinished
    ||| a is StepStarted && b is StepStarted && a->StepStarted_step_id == b->StepStarted_step_id
        && a->StepStarted_attempt == b->StepStarted_attempt
    ||| a is StepRetrying && b is StepRetrying && a->StepRetrying_step_id
        == b->StepRetrying_step_id && a->StepRetrying_attempt == b->StepRetrying_attempt
    ||| a is StepFallbackSelected && b is StepFallbackSelected && a->StepFallbackSelected_step_id
        == b->StepFallbackSelected_step_id && a->StepFallbackSelected_task
        == b->StepFallbackSelected_task
    ||| a is StepSucceeded && b is StepSucceeded && a->StepSucceeded_step_id
        == b->StepSucceeded_step_id && a->StepSucceeded_attempts == b->StepSucceeded_attempts
    ||| a is StepFailed && b is StepFailed && a->StepFailed_step_id == b->StepFailed_step_id
        && a->StepFailed_attempts == b->StepFailed_attempts
}

/// An event is admitted to the log of a run if and only if it names the run, the run stands
/// where it says, and no event that says the same was logged before.
pub proof fn law_event_has_to_be_so_and_new(run: RunRecordView, event: ExecutionEventView)
    ensures
        event.run() == named_run(event),
        forall|earlier: ExecutionEventView| #[trigger]
            event::repeats(event, earlier) <==> says_the_same(event, earlier),
        run.admits_event(event) <==> {
            &&& named_run(event) == run.run_id
            &&& is_so(run, event)
            &&& forall|i: int|
                0 <= i < run.event_log.len() ==> !says_the_same(
                    event,
                    (#[trigger] run.event_log[i]).event,
                )
        },
{
    assert forall|i: int| 0 <= i < run.event_log.len() implies event::repeats(
        event,
        (#[trigger] run.event_log[i]).event,
    ) == says_the_same(event, run.event_log[i].event) by {}
    if run.admits_event(event) {
        assert forall|i: int| 0 <= i < run.event_log.len() implies !says_the_same(
            event,
            (#[trigger] run.event_log[i]).event,
        ) by {
            assert(!event::repeats(event, run.event_log[i].event));
        }
    }
    if run.has_logged(event) {
        let i = choose|i: int|
            0 <= i < run.event_log.len() && event::repeats(
                event,
                (#[trigger] run.event_log[i]).event,
            );
        assert(says_the_same(event, run.event_log[i].event));
    }
}

/// An event that is logged comes last, in the log and among the events, in an envelope with
/// the number and the time that were given, an id made of that of the run and the number,
/// and schema version one. Nothing else of the run changes but its revision.
pub proof fn law_event_is_put_at_the_end(
    run: RunRecordView,
    event: ExecutionEventView,
    sequence: u64,
    occurred_at_ms: u64,
)
    ensures
        ({
            let after = run.with_event(event, sequence, occurred_at_ms);
            &&& after.events.len() == run.events.len() + 1
            &&& after.events.drop_last() == run.events
            &&& after.events.last() == event
            &&& after.event_log.len() == run.event_log.len() + 1
            &&& after.event_log.drop_last() == run.event_log
            &&& after.event_log.last() == (EventEnvelopeView {
                schema_version: 1,
                event_id: run.run_id + "-event-"@ + text::decimal(sequence as nat),
                sequence,
                occurred_at_ms,
                event,
            })
            &&& run.revision < u64::MAX ==> after.revision == run.revision + 1
            &&& run.revision == u64::MAX ==> after.revision == u64::MAX
            &&& after == (RunRecordView {
                events: after.events,
                event_log: after.event_log,
                revision: after.revision,
                ..run
            })
        }),
{
    let after = run.with_event(event, sequence, occurred_at_ms);
    assert(after.events.drop_last() =~= run.events);
    assert(after.event_log.drop_last() =~= run.event_log);
}

/// A run under a lock numbers its events from one on, each one above the last.
pub proof fn law_own_events_count_from_one(
    run: RunRecordView,
    event: ExecutionEventView,
    occurred_at_ms: u64,
)
    ensures
        ({
            let after = run.with_next_event(event, occurred_at_ms);
            let number = after.event_log.last().sequence;
            &&& run.event_log.len() == 0 ==> number == 1
            &&& run.event_log.len() > 0 && run.event_log.last().sequence < u64::MAX ==> number
                == run.event_log.last().sequence + 1
            &&& after == run.with_event(event, number, occurred_at_ms)
        }),
{
}

/// What asking for an event to be recorded comes to: an unknown run is said to be so; an
/// event that is not admitted is refused, and nothing changes; and any other is logged under
/// the next number, to the run and in the log of all events, and its envelope comes back.
pub proof fn law_recording_logs_what_is_admitted(
    repository: RepositoryView,
    run_id: Seq<char>,
    event: ExecutionEventView,
    now: u64,
)
    requires
        repository.consistent(),
    ensures
        ({
            let (after, outcome) = repository.record(run_id, event, now);
            let before = repository.runs[run_id];
            if !repository.runs.contains_key(run_id) {
                &&& after == repository
                &&& outcome == Err::<EventEnvelopeView, RepositoryErrorView>(
                    RepositoryErrorView::RunNotFound { run: run_id },
                )
            } else if !before.admits_event(event) {
                &&& after == repository
                &&& outcome == Err::<EventEnvelopeView, RepositoryErrorView>(
                    RepositoryErrorView::InvalidEvent { run: run_id },
                )
            } else {
                let envelope = after.events.last();
                &&& outcome == Ok::<EventEnvelopeView, RepositoryErrorView>(envelope)
                &&& envelope.event == event
                &&& envelope.occurred_at_ms == now
                &&& envelope.sequence == after.next_event_sequence
                &&& repository.next_event_sequence < u64::MAX ==> after.next_event_sequence
                    == repository.next_event_sequence + 1
                &&& after.events.drop_last() == repository.events
                &&& after.runs == repository.runs.insert(
                    run_id,
                    before.with_event(event, envelope.sequence, now),
                )
                &&& after.runs[run_id].event_log.last() == envelope
                &&& after.idempotency == repository.idempotency
                &&& after.next_lease_token == repository.next_lease_token
            }
        }),
{
    let (after, outcome) = repository.record(run_id, event, now);
    if outcome is Ok {
        assert(after.events.drop_last() =~= repository.events);
    }
}

/// The events of a run that come after a number are those with a number above it, all of
/// them and in the order of the log; of an unknown run there are none to be read.
pub proof fn law_later_events_are_read(repository: RepositoryView, run_id: Seq<char>, after: u64)
    ensures
        match repository.since(run_id, after) {
            Ok(read) => {
                let log = repository.runs[run_id].event_log;
                &&& repository.runs.contains_key(run_id)
                &&& read == log.filter(|envelope: EventEnvelopeView| envelope.sequence > after)
                &&& forall|i: int| 0 <= i < read.len() ==> (#[trigger] read[i]).sequence > after
                &&& forall|k: int|
                    0 <= k < log.len() && (#[trigger] log[k]).sequence > after ==> read.contains(
                        log[k],
                    )
            },
            Err(error) => {
                &&& !repository.runs.contains_key(run_id)
                &&& error == RepositoryErrorView::RunNotFound { run: run_id }
            },
        },
{
    if repository.runs.contains_key(run_id) {
        let log = repository.runs[run_id].event_log;
        let later = |envelope: EventEnvelopeView| envelope.sequence > after;
        let read = log.filter(later);
        assert forall|i: int| 0 <= i < read.len() implies (#[trigger] read[i]).sequence > after by {
            log.lemma_filter_pred(later, i);
            assert(later(read[i]));
        }
        assert forall|k: int|
            0 <= k < log.len() && (#[trigger] log[k]).sequence > after implies read.contains(
            log[k],
        ) by {
            assert(later(log[k]));
            log.lemma_filter_contains(later, k);
        }
    }
}

/// The number after a number is one above it, as far as numbers go.
pub proof fn law_numbers_count_up(n: u64)
    ensures
        n < u64::MAX ==> event::successor(n) == n + 1,
        n == u64::MAX ==> event::successor(n) == u64::MAX,
{
}

/// A completion is committed to a run under a lock if and only if the step is leased to the
/// worker under the token of the claim until some later time, the completion fits, and its
/// event names the run.
pub proof fn law_locked_completion_names_the_run(
    run: RunRecordView,
    claim: StepClaimView,
    completion: StepCompletionView,
    now: u64,
)
    ensures
        ({
            let record = run.steps[claim.step.id];
            let held = {
                &&& run.steps.contains_key(claim.step.id)
                &&& record.lease is Some
                &&& record.lease->0.worker == claim.worker
                &&& record.lease->0.token == claim.lease_token
                &&& now < record.lease->0.expires_at_ms
            };
            let flaw = locked::locked_completion_flaw(run, claim, completion, now);
            &&& !held ==> flaw == Some(
                RepositoryErrorView::LeaseLost { run: claim.run_id, step: claim.step.id },
            )
            &&& held && !completion.fits(claim, run.manifest) ==> flaw == Some(
                RepositoryErrorView::InvalidCompletion { run: claim.run_id, step: claim.step.id },
            )
            &&& held && completion.fits(claim, run.manifest) && named_run(completion.event)
                != run.run_id ==> flaw == Some(
                RepositoryErrorView::InvalidEvent { run: run.run_id },
            )
            &&& held && completion.fits(claim, run.manifest) && named_run(completion.event)
                == run.run_id ==> flaw is None
        }),
{
}

/// Whether two decisions are equal, their numbers as numbers in double precision are.
pub open spec fn alike(a: GateDecisionView, b: GateDecisionView) -> bool {
    &&& a.passed == b.passed
    &&& a.metric == b.metric
    &&& a.direction == b.direction
    &&& a.threshold.equals(b.threshold)
    &&& a.observed is Some <==> b.observed is Some
    &&& a.observed is Some ==> a.observed->0.equals(b.observed->0)
}

/// A run under a lock whose metrics come in ends as the settled run does. Where it has come
/// to its end, that is logged, once and at the time given; its revision grows where it has
/// changed; and it is as the settled run in all else.
pub proof fn law_locked_run_is_settled(
    run: RunRecordView,
    metrics: Seq<MetricView>,
    occurred_at_ms: u64,
)
    ensures
        ({
            let after = locked::finished(run, metrics, occurred_at_ms);
            let settled = run.settled(metrics);
            let logged = ExecutionEventView::RunFinished {
                run_id: run.run_id,
                status: settled.status,
            };
            &&& after.status == settled.status
            &&& after.error == settled.error
            &&& after.steps == settled.steps
            &&& after.metrics == settled.metrics
            &&& after.gate_decisions == settled.gate_decisions
            &&& after.workflow == settled.workflow
            &&& after.manifest == settled.manifest
            &&& settled.status == run.status ==> after.event_log == settled.event_log
                && after.events == settled.events
            &&& settled.status != run.status ==> {
                &&& after.event_log.drop_last() == settled.event_log
                &&& after.event_log.last().event == logged
                &&& after.event_log.last().occurred_at_ms == occurred_at_ms
                &&& after.events == settled.events.push(logged)
                &&& settled.revision < u64::MAX ==> after.revision > settled.revision
            }
            &&& after.revision >= settled.revision
        }),
{
    let settled = run.settled(metrics);
    if settled.status != run.status {
        assert(locked::finished(run, metrics, occurred_at_ms).event_log.drop_last()
            =~= settled.event_log);
    }
}

/// Metrics tell something new of a run if and only if they, or what the gates make of them,
/// are others than it has, name by name and number by number.
pub proof fn law_new_metrics_are_noticed(run: RunRecordView, metrics: Seq<MetricView>)
    ensures
        ({
            let made = run.measured(metrics).gate_decisions;
            let had = run.gate_decisions;
            locked::metrics_changed(run, metrics) <==> !({
                &&& metrics.len() == run.metrics.len()
                &&& forall|i: int|
                    0 <= i < metrics.len() ==> {
                        &&& (#[trigger] run.metrics[i]).name == metrics[i].name
                        &&& run.metrics[i].value.equals(metrics[i].value)
                    }
                &&& had.dom() == made.dom()
                &&& forall|name: Seq<char>| #[trigger]
                    had.contains_key(name) ==> alike(had[name], made[name])
            })
        }),
{
    let made = run.measured(metrics).gate_decisions;
    let had = run.gate_decisions;
    assert forall|name: Seq<char>| #[trigger] had.contains_key(name) implies had[name].equals(
        made[name],
    ) == alike(had[name], made[name]) by {}
    if !locked::metrics_changed(run, metrics) {
        assert forall|i: int| 0 <= i < metrics.len() implies {
            &&& (#[trigger] run.metrics[i]).name == metrics[i].name
            &&& run.metrics[i].value.equals(metrics[i].value)
        } by {
            assert(run.metrics[i].equals(metrics[i]));
        }
        assert forall|name: Seq<char>| #[trigger] had.contains_key(name) implies alike(
            had[name],
            made[name],
        ) by {
            assert(had[name].equals(made[name]));
        }
    }
}

/// The first end of a lease of a run is the end of one, and none ends before it; there is
/// none only where no step is leased.
pub proof fn law_first_expiry_comes_first(run: RunRecordView, expiry: Option<u64>, id: Seq<char>)
    requires
        locked::is_first_expiry(run, expiry),
    ensures
        expiry is None && run.steps.contains_key(id) ==> run.steps[id].lease is None,
        expiry is Some ==> exists|other: Seq<char>| #[trigger]
            run.steps.contains_key(other) && run.steps[other].lease is Some
                && run.steps[other].lease->0.expires_at_ms == expiry->0,
        expiry is Some && run.steps.contains_key(id) && run.steps[id].lease is Some ==> expiry->0
            <= run.steps[id].lease->0.expires_at_ms,
{
}

} // verus!
