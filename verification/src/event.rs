//! Events: whose they are, when they are in place, and how they are logged.
use crate::error::{RepositoryError, RepositoryErrorView};
use crate::ids::{EventId, RunId};
use crate::manifest::SCHEMA_VERSION;
use crate::record::{
    EventEnvelope, EventEnvelopeView, ExecutionEvent, ExecutionEventView, RunRecord, RunRecordView,
    RunStatus, StepStatus,
};
use crate::text;
use crate::views::{self, Same};
use vstd::prelude::*;

verus! {

/// The next number, except after the largest.
pub open spec fn successor(n: u64) -> u64 {
    if n == u64::MAX {
        u64::MAX
    } else {
        (n + 1) as u64
    }
}

/// Counts one up, and stays at the largest number.
pub fn next_number(n: u64) -> (next: u64)
    ensures
        next == successor(n),
{
    if n == u64::MAX {
        u64::MAX
    } else {
        n + 1
    }
}

impl ExecutionEventView {
    /// The run that the event is of.
    pub open spec fn run(self) -> Seq<char> {
        match self {
            ExecutionEventView::RunStarted { run_id, workflow_id } => run_id,
            ExecutionEventView::StepStarted { run_id, step_id, task, attempt } => run_id,
            ExecutionEventView::StepRetrying { run_id, step_id, attempt, error } => run_id,
            ExecutionEventView::StepFallbackSelected { run_id, step_id, task } => run_id,
            ExecutionEventView::StepSucceeded { run_id, step_id, attempts } => run_id,
            ExecutionEventView::StepFailed { run_id, step_id, attempts, error } => run_id,
            ExecutionEventView::RunFinished { run_id, status } => run_id,
        }
    }
}

/// Whether an event is of the given run.
pub fn event_belongs_to_run(event: &ExecutionEvent, run_id: &RunId) -> (answer: bool)
    ensures
        answer == (event@.run() == run_id@),
{
    let owner = match event {
        ExecutionEvent::RunStarted { run_id, .. } => run_id,
        ExecutionEvent::StepStarted { run_id, .. } => run_id,
        ExecutionEvent::StepRetrying { run_id, .. } => run_id,
        ExecutionEvent::StepFallbackSelected { run_id, .. } => run_id,
        ExecutionEvent::StepSucceeded { run_id, .. } => run_id,
        ExecutionEvent::StepFailed { run_id, .. } => run_id,
        ExecutionEvent::RunFinished { run_id, .. } => run_id,
    };
    owner.same(run_id)
}

/// Whether an event says again what an earlier one said: that the run started or
/// finished, that the same attempt of a step started, is retried, succeeded or
/// failed, or that the same fallback of a step was selected.
pub open spec fn repeats(event: ExecutionEventView, earlier: ExecutionEventView) -> bool {
    match (event, earlier) {
        (ExecutionEventView::RunStarted { .. }, ExecutionEventView::RunStarted { .. }) => true,
        (
            ExecutionEventView::StepStarted { step_id, attempt, .. },
            ExecutionEventView::StepStarted { step_id: step, attempt: number, .. },
        ) => step_id == step && attempt == number,
        (
            ExecutionEventView::StepRetrying { step_id, attempt, .. },
            ExecutionEventView::StepRetrying { step_id: step, attempt: number, .. },
        ) => step_id == step && attempt == number,
        (
            ExecutionEventView::StepFallbackSelected { step_id, task, .. },
            ExecutionEventView::StepFallbackSelected { step_id: step, task: chosen, .. },
        ) => step_id == step && task == chosen,
        (
            ExecutionEventView::StepSucceeded { step_id, attempts, .. },
            ExecutionEventView::StepSucceeded { step_id: step, attempts: number, .. },
        ) => step_id == step && attempts == number,
        (
            ExecutionEventView::StepFailed { step_id, attempts, .. },
            ExecutionEventView::StepFailed { step_id: step, attempts: number, .. },
        ) => step_id == step && attempts == number,
        (ExecutionEventView::RunFinished { .. }, ExecutionEventView::RunFinished { .. }) => true,
        _ => false,
    }
}

/// Compares an event with an earlier one.
pub fn event_repeats(event: &ExecutionEvent, earlier: &ExecutionEvent) -> (answer: bool)
    ensures
        answer == repeats(event@, earlier@),
{
    match (event, earlier) {
        (ExecutionEvent::RunStarted { .. }, ExecutionEvent::RunStarted { .. }) => true,
        (
            ExecutionEvent::StepStarted { step_id, attempt, .. },
            ExecutionEvent::StepStarted { step_id: step, attempt: number, .. },
        ) => step_id.same(step) && *attempt == *number,
        (
            ExecutionEvent::StepRetrying { step_id, attempt, .. },
            ExecutionEvent::StepRetrying { step_id: step, attempt: number, .. },
        ) => step_id.same(step) && *attempt == *number,
        (
            ExecutionEvent::StepFallbackSelected { step_id, task, .. },
            ExecutionEvent::StepFallbackSelected { step_id: step, task: chosen, .. },
        ) => step_id.same(step) && task.same(chosen),
        (
            ExecutionEvent::StepSucceeded { step_id, attempts, .. },
            ExecutionEvent::StepSucceeded { step_id: step, attempts: number, .. },
        ) => step_id.same(step) && *attempts == *number,
        (
            ExecutionEvent::StepFailed { step_id, attempts, .. },
            ExecutionEvent::StepFailed { step_id: step, attempts: number, .. },
        ) => step_id.same(step) && *attempts == *number,
        (ExecutionEvent::RunFinished { .. }, ExecutionEvent::RunFinished { .. }) => true,
        _ => false,
    }
}

impl RunRecordView {
    /// Whether the log holds an event that says what this one says.
    pub open spec fn has_logged(self, event: ExecutionEventView) -> bool {
        exists|i: int| 0 <= i < self.event_log.len() && repeats(
            event,
            (#[trigger] self.event_log[i]).event,
        )
    }

    /// Whether the run stands where the event says it does.
    pub open spec fn agrees_with(self, event: ExecutionEventView) -> bool {
        match event {
            ExecutionEventView::RunStarted { workflow_id, .. } => {
                &&& self.status == RunStatus::Running
                &&& self.workflow.id == workflow_id
            },
            ExecutionEventView::StepStarted { step_id, task, attempt, .. } => {
                &&& self.status == RunStatus::Running
                &&& self.steps.contains_key(step_id)
                &&& self.steps[step_id].status == StepStatus::Running
                &&& self.steps[step_id].task == task
                &&& self.steps[step_id].attempts == attempt
            },
            ExecutionEventView::StepRetrying { step_id, attempt, error, .. } => {
                &&& self.status == RunStatus::Running
                &&& self.steps.contains_key(step_id)
                &&& self.steps[step_id].status == StepStatus::Retrying
                &&& self.steps[step_id].attempts == attempt
                &&& self.steps[step_id].error == Some(error)
            },
            ExecutionEventView::StepFallbackSelected { step_id, task, .. } => {
                &&& self.status == RunStatus::Running
                &&& self.steps.contains_key(step_id)
                &&& self.steps[step_id].status == StepStatus::Retrying
                &&& self.steps[step_id].fallback_used
                &&& self.steps[step_id].task == task
            },
            ExecutionEventView::StepSucceeded { step_id, attempts, .. } => {
                &&& self.status == RunStatus::Running
                &&& self.steps.contains_key(step_id)
                &&& self.steps[step_id].status == StepStatus::Succeeded
                &&& self.steps[step_id].attempts == attempts
            },
            ExecutionEventView::StepFailed { step_id, attempts, error, .. } => {
                &&& self.status == RunStatus::Running
                &&& self.steps.contains_key(step_id)
                &&& self.steps[step_id].status == StepStatus::Failed
                &&& self.steps[step_id].attempts == attempts
                &&& self.steps[step_id].error == Some(error)
            },
            ExecutionEventView::RunFinished { status, .. } => {
                &&& status == RunStatus::Cancelled || status == RunStatus::Failed || status
                    == RunStatus::Succeeded
                &&& self.status == status
            },
        }
    }

    /// Whether an event may be added to the log: it is of this run, says where the
    /// run stands, and has not been said before.
    pub open spec fn admits_event(self, event: ExecutionEventView) -> bool {
        &&& event.run() == self.run_id
        &&& self.agrees_with(event)
        &&& !self.has_logged(event)
    }
}

fn same_error(held: &Option<String>, error: &String) -> (answer: bool)
    ensures
        answer == (views::some_view(*held) == Some(error@)),
{
    match held {
        Some(text) => text.same(error),
        None => false,
    }
}

fn already_logged(run: &RunRecord, event: &ExecutionEvent) -> (answer: bool)
    ensures
        answer == run@.has_logged(event@),
{
    let mut i: usize = 0;
    while i < run.event_log.len()
        invariant
            i <= run.event_log.len(),
            forall|j: int|
                0 <= j < i ==> !repeats(event@, (#[trigger] run@.event_log[j]).event),
        decreases run.event_log.len() - i,
    {
        if event_repeats(event, &run.event_log[i].event) {
            assert(repeats(event@, run@.event_log[i as int].event));
            return true;
        }
        assert(run@.event_log[i as int] == run.event_log@[i as int]@);
        i += 1;
    }
    false
}

fn run_agrees_with(run: &RunRecord, event: &ExecutionEvent) -> (answer: bool)
    ensures
        answer == run@.agrees_with(event@),
{
    match event {
        ExecutionEvent::RunStarted { workflow_id, .. } => run.status == RunStatus::Running
            && run.workflow.id.same(workflow_id),
        ExecutionEvent::StepStarted { step_id, task, attempt, .. } => match run.steps.get(step_id) {
            Some(record) => run.status == RunStatus::Running && record.status
                == StepStatus::Running && record.task.same(task) && record.attempts == *attempt,
            None => false,
        },
        ExecutionEvent::StepRetrying { step_id, attempt, error, .. } => match run.steps.get(
            step_id,
        ) {
            Some(record) => run.status == RunStatus::Running && record.status
                == StepStatus::Retrying && record.attempts == *attempt && same_error(
                &record.error,
                error,
            ),
            None => false,
        },
        ExecutionEvent::StepFallbackSelected { step_id, task, .. } => match run.steps.get(step_id) {
            Some(record) => run.status == RunStatus::Running && record.status
                == StepStatus::Retrying && record.fallback_used && record.task.same(task),
            None => false,
        },
        ExecutionEvent::StepSucceeded { step_id, attempts, .. } => match run.steps.get(step_id) {
            Some(record) => run.status == RunStatus::Running && record.status
                == StepStatus::Succeeded && record.attempts == *attempts,
            None => false,
        },
        ExecutionEvent::StepFailed { step_id, attempts, error, .. } => match run.steps.get(
            step_id,
        ) {
            Some(record) => run.status == RunStatus::Running && record.status == StepStatus::Failed
                && record.attempts == *attempts && same_error(&record.error, error),
            None => false,
        },
        ExecutionEvent::RunFinished { status, .. } => (*status == RunStatus::Cancelled || *status
            == RunStatus::Failed || *status == RunStatus::Succeeded) && run.status == *status,
    }
}

/// Whether an event may be added to the log of a run.
pub fn event_is_valid_for_record(run: &RunRecord, event: &ExecutionEvent) -> (answer: bool)
    ensures
        answer == run@.admits_event(event@),
{
    event_belongs_to_run(event, &run.run_id) && run_agrees_with(run, event) && !already_logged(
        run,
        event,
    )
}

impl EventEnvelopeView {
    /// The envelope of an event of a run.
    pub open spec fn of(
        run_id: Seq<char>,
        sequence: u64,
        occurred_at_ms: u64,
        event: ExecutionEventView,
    ) -> EventEnvelopeView {
        EventEnvelopeView {
            schema_version: SCHEMA_VERSION,
            event_id: run_id + "-event-"@ + text::decimal(sequence as nat),
            sequence,
            occurred_at_ms,
            event,
        }
    }
}

/// Puts an event of a run into its envelope.
pub fn event_envelope(
    run_id: &RunId,
    sequence: u64,
    occurred_at_ms: u64,
    event: ExecutionEvent,
) -> (envelope: EventEnvelope)
    ensures
        envelope@ == EventEnvelopeView::of(run_id@, sequence, occurred_at_ms, event@),
{
    EventEnvelope {
        schema_version: SCHEMA_VERSION,
        event_id: EventId::of_event(run_id, sequence),
        sequence,
        occurred_at_ms,
        event,
    }
}

impl RunRecordView {
    /// The run with one more event, under the given sequence number.
    pub open spec fn with_event(
        self,
        event: ExecutionEventView,
        sequence: u64,
        occurred_at_ms: u64,
    ) -> RunRecordView {
        RunRecordView {
            events: self.events.push(event),
            event_log: self.event_log.push(
                EventEnvelopeView::of(self.run_id, sequence, occurred_at_ms, event),
            ),
            revision: successor(self.revision),
            ..self
        }
    }

    /// The number of the last event in the log, zero where there is none.
    pub open spec fn last_sequence(self) -> u64 {
        if self.event_log.len() == 0 {
            0
        } else {
            self.event_log.last().sequence
        }
    }

    /// The run with one more event, numbered after the last one in its own log.
    pub open spec fn with_next_event(
        self,
        event: ExecutionEventView,
        occurred_at_ms: u64,
    ) -> RunRecordView {
        self.with_event(event, successor(self.last_sequence()), occurred_at_ms)
    }
}

/// Logs an event under the given sequence number.
pub fn log_event(run: &mut RunRecord, event: ExecutionEvent, sequence: u64, occurred_at_ms: u64) -> (
envelope: EventEnvelope)
    ensures
        final(run)@ == old(run)@.with_event(event@, sequence, occurred_at_ms),
        envelope@ == EventEnvelopeView::of(old(run)@.run_id, sequence, occurred_at_ms, event@),
{
    let envelope = event_envelope(&run.run_id, sequence, occurred_at_ms, event.clone());
    let ghost before = *run;
    run.events.push(event);
    run.event_log.push(envelope.clone());
    run.revision = next_number(run.revision);
    proof {
        assert(views::all_views(run.events@) =~= views::all_views(before.events@).push(event@));
        assert(views::all_views(run.event_log@) =~= views::all_views(before.event_log@).push(
            envelope@,
        ));
    }
    envelope
}

/// Logs an event of the run, numbered after the last one in its own log. An event
/// of another run is refused.
pub fn append_run_event(run: &mut RunRecord, event: ExecutionEvent, occurred_at_ms: u64) -> (
outcome: Result<EventEnvelope, RepositoryError>)
    ensures
        match outcome {
            Ok(envelope) => {
                &&& event@.run() == old(run)@.run_id
                &&& final(run)@ == old(run)@.with_next_event(event@, occurred_at_ms)
                &&& envelope@ == final(run)@.event_log.last()
            },
            Err(error) => {
                &&& event@.run() != old(run)@.run_id
                &&& final(run)@ == old(run)@
                &&& error@ == (RepositoryErrorView::InvalidEvent { run: old(run)@.run_id })
            },
        },
{
    if !event_belongs_to_run(&event, &run.run_id) {
        return Err(RepositoryError::InvalidEvent { run: run.run_id.clone() });
    }
    let count = run.event_log.len();
    let last: u64 = if count == 0 {
        0
    } else {
        run.event_log[count - 1].sequence
    };
    let envelope = log_event(run, event, next_number(last), occurred_at_ms);
    Ok(envelope)
}

/// The envelopes of a log that come after a sequence number.
pub open spec fn logged_since(log: Seq<EventEnvelopeView>, sequence: u64) -> Seq<
    EventEnvelopeView,
> {
    log.filter(|envelope: EventEnvelopeView| envelope.sequence > sequence)
}

/// Reads the part of a log that comes after a sequence number.
pub fn read_since(log: &Vec<EventEnvelope>, sequence: u64) -> (envelopes: Vec<EventEnvelope>)
    ensures
        views::all_views(envelopes@) == logged_since(views::all_views(log@), sequence),
{
    let mut envelopes: Vec<EventEnvelope> = Vec::new();
    let ghost all = views::all_views(log@);
    let ghost later = |envelope: EventEnvelopeView| envelope.sequence > sequence;
    let mut i: usize = 0;
    proof {
        reveal(Seq::filter);
        assert(views::all_views(envelopes@) =~= all.take(0).filter(later));
    }
    while i < log.len()
        invariant
            i <= log.len(),
            all == views::all_views(log@),
            later == (|envelope: EventEnvelopeView| envelope.sequence > sequence),
            views::all_views(envelopes@) == all.take(i as int).filter(later),
        decreases log.len() - i,
    {
        let ghost before = envelopes@;
        proof {
            reveal(Seq::filter);
            assert(all.take(i + 1).drop_last() =~= all.take(i as int));
            assert(all.take(i + 1).last() == log@[i as int]@);
        }
        if log[i].sequence > sequence {
            let envelope = log[i].clone();
            envelopes.push(envelope);
            assert(views::all_views(envelopes@) =~= views::all_views(before).push(envelope@));
        }
        i += 1;
    }
    assert(all.take(i as int) =~= all);
    envelopes
}

} // verus!
