//! A run that is kept in a row of its own: what a transaction that holds the row's
//! lock makes of the run before it writes it back.
//!
//! Leases go by the clock of the database, `now`; events are stamped with the
//! clock of the process, `occurred_at_ms`.
use crate::claim::claim_step;
use crate::error::{RepositoryError, RepositoryErrorView};
use crate::evaluation::{self, evaluate_gates, same_decisions, same_metrics, Metric, MetricView};
use crate::event::{
    self, append_run_event, event_belongs_to_run, event_is_valid_for_record, next_number,
};
use crate::ids::StepId;
use crate::json::alike_json;
use crate::ordered;
use crate::policy::WorkerProfile;
use crate::record::{
    EventEnvelope, ExecutionEvent, ExecutionEventView, RunRecord, RunRecordView, RunRequest,
    RunRequestView, RunStatus, StepClaim, StepClaimView, StepCompletion, StepCompletionView,
};
use crate::store::{self, RepositoryView};
use crate::transition::{
    self, cancel_steps, check_completion, commit_completion, is_over, recover_step, settle_run,
};
use crate::views::{self, Same};
use crate::workflow::{StepSpec, StepSpecView};
use vstd::prelude::*;

verus! {

/// Whether a step of the run was leased under a token.
pub open spec fn leased_under(run: RunRecordView, token: u64) -> bool {
    exists|step: Seq<char>, i: int|
        #![trigger run.steps[step].history[i]]
        run.steps.contains_key(step) && 0 <= i < run.steps[step].history.len()
            && run.steps[step].history[i].lease_token == token
}

/// The largest token that a step of the run was leased under, zero where there is
/// none.
pub open spec fn is_highest_token(run: RunRecordView, highest: u64) -> bool {
    &&& forall|step: Seq<char>, i: int|
        #![trigger run.steps[step].history[i]]
        run.steps.contains_key(step) && 0 <= i < run.steps[step].history.len()
            ==> run.steps[step].history[i].lease_token <= highest
    &&& highest == 0 || leased_under(run, highest)
}

/// The token for the next lease of a step of the run.
pub open spec fn next_token(run: RunRecordView) -> u64 {
    event::successor(choose|highest: u64| is_highest_token(run, highest))
}

/// The next token is one above the largest that was given out.
pub proof fn lemma_next_token(run: RunRecordView, highest: u64)
    requires
        is_highest_token(run, highest),
    ensures
        next_token(run) == event::successor(highest),
{
    let other = choose|other: u64| is_highest_token(run, other);
    assert(is_highest_token(run, other));
    if other != 0 {
        let (step, i) = choose|step: Seq<char>, i: int|
            #![trigger run.steps[step].history[i]]
            run.steps.contains_key(step) && 0 <= i < run.steps[step].history.len()
                && run.steps[step].history[i].lease_token == other;
        assert(run.steps[step].history[i].lease_token <= highest);
    }
    if highest != 0 {
        let (step, i) = choose|step: Seq<char>, i: int|
            #![trigger run.steps[step].history[i]]
            run.steps.contains_key(step) && 0 <= i < run.steps[step].history.len()
                && run.steps[step].history[i].lease_token == highest;
        assert(run.steps[step].history[i].lease_token <= other);
    }
}

/// Finds the token for the next lease of a step of the run: one above all that
/// were given out.
pub fn next_lease_token(run: &RunRecord) -> (token: u64)
    ensures
        token == next_token(run@),
        exists|highest: u64|
            is_highest_token(run@, highest) && token == #[trigger] event::successor(highest),
{
    let count = run.steps.len();
    let ghost keys = ordered::ascending(run.steps@.dom());
    let mut highest: u64 = 0;
    let mut i: usize = 0;
    assert(run@.steps.dom() =~= run.steps@.dom());
    while i < count
        invariant
            i <= count,
            count == keys.len(),
            count == run.steps@.len(),
            keys == ordered::ascending(run.steps@.dom()),
            keys.to_set() == run.steps@.dom(),
            run@.steps.dom() == run.steps@.dom(),
            forall|j: int, m: int|
                #![trigger run@.steps[keys[j]].history[m]]
                0 <= j < i && 0 <= m < run@.steps[keys[j]].history.len()
                    ==> run@.steps[keys[j]].history[m].lease_token <= highest,
            highest == 0 || leased_under(run@, highest),
        decreases count - i,
    {
        let record = run.steps.value_at(i);
        proof {
            assert(keys.contains(keys[i as int]));
            assert(run.steps@.dom().contains(keys[i as int]));
            assert(run@.steps[keys[i as int]] == record@);
        }
        let mut m: usize = 0;
        while m < record.history.len()
            invariant
                i < count,
                count == keys.len(),
                m <= record.history.len(),
                run@.steps.contains_key(keys[i as int]),
                run@.steps[keys[i as int]] == record@,
                forall|j: int, m: int|
                    #![trigger run@.steps[keys[j]].history[m]]
                    0 <= j < i && 0 <= m < run@.steps[keys[j]].history.len()
                        ==> run@.steps[keys[j]].history[m].lease_token <= highest,
                forall|k: int|
                    0 <= k < m ==> (#[trigger] record@.history[k]).lease_token <= highest,
                highest == 0 || leased_under(run@, highest),
            decreases record.history.len() - m,
        {
            let token = record.history[m].lease_token;
            assert(record@.history[m as int].lease_token == token);
            if token > highest {
                highest = token;
                proof {
                    assert(run@.steps[keys[i as int]].history[m as int].lease_token == highest);
                }
            }
            m += 1;
        }
        i += 1;
    }
    proof {
        assert forall|step: Seq<char>, m: int|
            #![trigger run@.steps[step].history[m]]
            run@.steps.contains_key(step) && 0 <= m
                < run@.steps[step].history.len() implies run@.steps[step].history[m].lease_token
            <= highest by {
            assert(keys.to_set().contains(step));
            let j = choose|j: int| 0 <= j < keys.len() && keys[j] == step;
            assert(run@.steps[keys[j]].history[m].lease_token <= highest);
        }
        assert(is_highest_token(run@, highest));
        lemma_next_token(run@, highest);
    }
    next_number(highest)
}

/// The time at which the first of a run's leases runs out.
pub open spec fn is_first_expiry(run: RunRecordView, expiry: Option<u64>) -> bool {
    match expiry {
        Some(time) => {
            &&& exists|step: Seq<char>| #[trigger]
                run.steps.contains_key(step) && run.steps[step].lease is Some
                    && run.steps[step].lease->0.expires_at_ms == time
            &&& forall|step: Seq<char>| #[trigger]
                run.steps.contains_key(step) && run.steps[step].lease is Some
                    ==> run.steps[step].lease->0.expires_at_ms >= time
        },
        None => forall|step: Seq<char>| #[trigger]
            run.steps.contains_key(step) ==> run.steps[step].lease is None,
    }
}

/// Finds the time at which the first of a run's leases runs out, as a signed
/// number. A time that is too large for that is handed back as it is.
pub fn lease_expiry_ms(run: &RunRecord) -> (expiry: Result<Option<i64>, u64>)
    ensures
        match expiry {
            Ok(Some(time)) => time >= 0 && is_first_expiry(run@, Some(time as u64)),
            Ok(None) => is_first_expiry(run@, None),
            Err(time) => time > i64::MAX && is_first_expiry(run@, Some(time)),
        },
{
    let count = run.steps.len();
    let ghost keys = ordered::ascending(run.steps@.dom());
    let mut first: Option<u64> = None;
    let mut i: usize = 0;
    assert(run@.steps.dom() =~= run.steps@.dom());
    while i < count
        invariant
            i <= count,
            count == keys.len(),
            count == run.steps@.len(),
            keys == ordered::ascending(run.steps@.dom()),
            keys.to_set() == run.steps@.dom(),
            run@.steps.dom() == run.steps@.dom(),
            match first {
                Some(time) => {
                    &&& exists|j: int|
                        0 <= j < i && run@.steps[#[trigger] keys[j]].lease is Some
                            && run@.steps[keys[j]].lease->0.expires_at_ms == time
                    &&& forall|j: int|
                        0 <= j < i && run@.steps[#[trigger] keys[j]].lease is Some
                            ==> run@.steps[keys[j]].lease->0.expires_at_ms >= time
                },
                None => forall|j: int|
                    0 <= j < i ==> run@.steps[#[trigger] keys[j]].lease is None,
            },
        decreases count - i,
    {
        let record = run.steps.value_at(i);
        proof {
            assert(keys.contains(keys[i as int]));
            assert(run.steps@.dom().contains(keys[i as int]));
            assert(run@.steps[keys[i as int]] == record@);
        }
        if let Some(lease) = &record.lease {
            let time = lease.expires_at_ms;
            first = match first {
                Some(sooner) => if time < sooner {
                    Some(time)
                } else {
                    Some(sooner)
                },
                None => Some(time),
            };
        }
        i += 1;
    }
    proof {
        assert forall|step: Seq<char>| #[trigger] run@.steps.contains_key(step) implies exists|
            j: int,
        | 0 <= j < keys.len() && keys[j] == step by {
            assert(keys.to_set().contains(step));
        }
        match first {
            Some(time) => {
                let j = choose|j: int|
                    0 <= j < count && run@.steps[#[trigger] keys[j]].lease is Some
                        && run@.steps[keys[j]].lease->0.expires_at_ms == time;
                assert(keys.contains(keys[j]));
                assert(run@.steps.contains_key(keys[j]));
            },
            None => {},
        }
        assert(is_first_expiry(run@, first));
    }
    match first {
        None => Ok(None),
        Some(time) => if time > i64::MAX as u64 {
            Err(time)
        } else {
            Ok(Some(time as i64))
        },
    }
}

/// What is to be done about a request for a run.
pub enum Creation {
    /// The request is answered with a run that is there, or refused.
    Answer(Result<RunRecord, RepositoryError>),
    /// The run is new, and is to be inserted.
    Insert(RunRecord),
}

/// The answer to a request whose idempotency key stands for a run.
pub open spec fn known_answer(existing: RunRecordView, request: RunRequestView) -> Result<
    RunRecordView,
    RepositoryErrorView,
> {
    if store::same_payload(existing, request) {
        Ok(existing)
    } else {
        Err(RepositoryErrorView::IdempotencyConflict { run: existing.run_id })
    }
}

/// The run that a request asks for, with its start logged.
pub open spec fn started(request: RunRequestView, now: u64) -> RunRecordView {
    RepositoryView::requested(request, now).with_next_event(RepositoryView::start_of(request), now)
}

/// Answers a request whose idempotency key stands for a run: with that run, if it
/// was asked for with the same, and not at all otherwise.
pub fn answer_known(existing: RunRecord, request: &RunRequest) -> (answer: Result<
    RunRecord,
    RepositoryError,
>)
    ensures
        views::outcome_view(answer) == known_answer(existing@, request@),
{
    if existing.workflow.same(&request.workflow) && existing.manifest.same(&request.manifest)
        && alike_json(&existing.input, &request.input) {
        Ok(existing)
    } else {
        Err(RepositoryError::IdempotencyConflict { run: existing.run_id })
    }
}

/// Decides on a valid request, given the run that its idempotency key stands for
/// and whether its run id is taken.
pub fn plan_creation(request: &RunRequest, keyed: Option<RunRecord>, taken: bool, now: u64) -> (plan:
    Creation)
    ensures
        match (keyed, plan) {
            (Some(existing), Creation::Answer(answer)) => views::outcome_view(answer)
                == known_answer(existing@, request@),
            (None, Creation::Answer(answer)) => taken && views::outcome_view(answer) == Err::<
                RunRecordView,
                RepositoryErrorView,
            >(RepositoryErrorView::Conflict { run: request@.run_id }),
            (None, Creation::Insert(run)) => !taken && run@ == started(request@, now),
            _ => false,
        },
{
    if let Some(existing) = keyed {
        return Creation::Answer(answer_known(existing, request));
    }
    if taken {
        return Creation::Answer(Err(RepositoryError::Conflict { run: request.run_id.clone() }));
    }
    let copy = request.clone();
    let event = ExecutionEvent::RunStarted {
        run_id: request.run_id.clone(),
        workflow_id: request.workflow.id.clone(),
    };
    let mut run = RunRecord::new_at(copy.run_id, copy.workflow, copy.manifest, copy.input, now);
    run.status = RunStatus::Running;
    run.idempotency_key = copy.idempotency_key;
    match append_run_event(&mut run, event, now) {
        Ok(_) => Creation::Insert(run),
        Err(error) => Creation::Answer(Err(error)),
    }
}

/// Answers a request after its run was to be inserted: with the run, if it was; else
/// as one whose idempotency key stands for the run that was found under it by now.
pub fn settle_insertion(
    request: &RunRequest,
    run: RunRecord,
    inserted: bool,
    keyed: Option<RunRecord>,
) -> (answer: Result<RunRecord, RepositoryError>)
    ensures
        views::outcome_view(answer) == (if inserted {
            Ok::<RunRecordView, RepositoryErrorView>(run@)
        } else if request@.idempotency_key is Some && keyed is Some {
            known_answer(keyed->0@, request@)
        } else {
            Err(RepositoryErrorView::Conflict { run: run@.run_id })
        }),
{
    if inserted {
        return Ok(run);
    }
    if request.idempotency_key.is_some() {
        if let Some(existing) = keyed {
            return answer_known(existing, request);
        }
    }
    Err(RepositoryError::Conflict { run: run.run_id })
}

/// Lets a worker claim the next step of a locked run.
pub fn claim_locked(run: &mut RunRecord, worker: &WorkerProfile, lease_ms: u64, now: u64) -> (
claimed: Option<StepClaim>)
    ensures
        match (claimed, old(run)@.next_step(worker@, now)) {
            (Some(claim), Some(step)) => {
                let token = next_token(old(run)@);
                &&& claim@ == old(run)@.claim_for(step, worker@.id, token)
                &&& final(run)@ == old(run)@.with_claim(
                    step,
                    worker@.id,
                    token,
                    now,
                    lease_ms,
                    true,
                )
            },
            (None, None) => final(run)@ == old(run)@,
            _ => false,
        },
{
    let token = next_lease_token(run);
    claim_step(run, worker, lease_ms, now, token, true)
}

/// What keeps a completion from being committed to a locked run.
pub open spec fn locked_completion_flaw(
    run: RunRecordView,
    claim: StepClaimView,
    completion: StepCompletionView,
    now: u64,
) -> Option<RepositoryErrorView> {
    match run.completion_flaw(claim, completion, now) {
        Some(error) => Some(error),
        None => if completion.event.run() != run.run_id {
            Some(RepositoryErrorView::InvalidEvent { run: run.run_id })
        } else {
            None
        },
    }
}

/// Commits a completion to a locked run together with its event.
pub fn complete_locked(
    run: &mut RunRecord,
    claim: &StepClaim,
    completion: StepCompletion,
    now: u64,
    occurred_at_ms: u64,
) -> (outcome: Result<(), RepositoryError>)
    ensures
        match outcome {
            Ok(()) => {
                &&& locked_completion_flaw(old(run)@, claim@, completion@, now) is None
                &&& final(run)@ == old(run)@.with_completion(
                    claim@,
                    completion@,
                    now,
                ).with_next_event(completion@.event, occurred_at_ms)
            },
            Err(error) => {
                &&& locked_completion_flaw(old(run)@, claim@, completion@, now) == Some(error@)
                &&& final(run)@ == old(run)@
            },
        },
{
    match check_completion(run, claim, &completion, now) {
        Ok(()) => {},
        Err(error) => {
            return Err(error);
        },
    }
    if !event_belongs_to_run(&completion.event, &run.run_id) {
        return Err(RepositoryError::InvalidEvent { run: run.run_id.clone() });
    }
    match commit_completion(run, claim, &completion, now) {
        Ok(()) => {},
        Err(error) => {
            return Err(error);
        },
    }
    match append_run_event(run, completion.event, occurred_at_ms) {
        Ok(_) => Ok(()),
        Err(error) => Err(error),
    }
}

/// Logs an event that is in place to a locked run.
pub fn record_locked(run: &mut RunRecord, event: ExecutionEvent, occurred_at_ms: u64) -> (outcome:
    Result<EventEnvelope, RepositoryError>)
    ensures
        match outcome {
            Ok(envelope) => {
                &&& old(run)@.admits_event(event@)
                &&& final(run)@ == old(run)@.with_next_event(event@, occurred_at_ms)
                &&& envelope@ == final(run)@.event_log.last()
            },
            Err(error) => {
                &&& !old(run)@.admits_event(event@)
                &&& final(run)@ == old(run)@
                &&& error@ == (RepositoryErrorView::InvalidEvent { run: old(run)@.run_id })
            },
        },
{
    if !event_is_valid_for_record(run, &event) {
        return Err(RepositoryError::InvalidEvent { run: run.run_id.clone() });
    }
    append_run_event(run, event, occurred_at_ms)
}

/// Whether metrics tell something new of a run.
pub open spec fn metrics_changed(run: RunRecordView, metrics: Seq<MetricView>) -> bool {
    ||| !evaluation::metrics_equal(run.metrics, metrics)
    ||| !evaluation::decisions_equal(run.gate_decisions, run.measured(metrics).gate_decisions)
}

/// A locked run after its metrics came in.
pub open spec fn finished(
    run: RunRecordView,
    metrics: Seq<MetricView>,
    occurred_at_ms: u64,
) -> RunRecordView {
    let settled = run.settled(metrics);
    let counted = RunRecordView { revision: event::successor(settled.revision), ..settled };
    if settled.status != run.status {
        counted.with_next_event(
            ExecutionEventView::RunFinished { run_id: run.run_id, status: settled.status },
            occurred_at_ms,
        )
    } else if metrics_changed(run, metrics) {
        counted
    } else {
        settled
    }
}

/// Lets the metrics of a locked run in, and ends the run if it can be ended. Says
/// whether the run has to be written back.
pub fn finish_locked(run: &mut RunRecord, metrics: Vec<Metric>, occurred_at_ms: u64) -> (changed:
    bool)
    ensures
        final(run)@ == finished(old(run)@, views::all_views(metrics@), occurred_at_ms),
        changed == (metrics_changed(old(run)@, views::all_views(metrics@)) || old(run)@.settled(
            views::all_views(metrics@),
        ).status != old(run)@.status),
{
    let ghost before = run@;
    let decisions = evaluate_gates(
        run.manifest.evaluation_gates.as_slice(),
        metrics.as_slice(),
    );
    let news = !same_metrics(&run.metrics, &metrics) || !same_decisions(
        &run.gate_decisions,
        &decisions,
    );
    let previous = run.status;
    settle_run(run, metrics);
    if previous == run.status && !news {
        return false;
    }
    run.revision = next_number(run.revision);
    if previous != run.status {
        let event = ExecutionEvent::RunFinished { run_id: run.run_id.clone(), status: run.status };
        let logged = append_run_event(run, event, occurred_at_ms);
        assert(logged is Ok);
    }
    true
}

/// Cancels a locked run that is not over. Says whether it was.
pub fn cancel_locked(run: &mut RunRecord, now: u64, occurred_at_ms: u64) -> (changed: bool)
    ensures
        changed == !transition::is_terminal(old(run)@.status),
        final(run)@ == (if transition::is_terminal(old(run)@.status) {
            old(run)@
        } else {
            (RunRecordView {
                revision: event::successor(old(run)@.revision),
                ..old(run)@.with_cancellation(now)
            }).with_next_event(
                ExecutionEventView::RunFinished {
                    run_id: old(run)@.run_id,
                    status: RunStatus::Cancelled,
                },
                occurred_at_ms,
            )
        }),
{
    if is_over(run.status) {
        return false;
    }
    cancel_steps(run, now);
    run.revision = next_number(run.revision);
    let event = ExecutionEvent::RunFinished {
        run_id: run.run_id.clone(),
        status: RunStatus::Cancelled,
    };
    let logged = append_run_event(run, event, occurred_at_ms);
    assert(logged is Ok);
    true
}

/// A locked run in the course of a recovery, and what was recovered so far.
#[verifier::ext_equal]
pub struct LockedRecoveryView {
    pub run: RunRecordView,
    pub expired: Seq<Seq<char>>,
}

impl LockedRecoveryView {
    /// Takes one step back, if its lease ran out.
    pub open spec fn recover_step(
        self,
        step: StepSpecView,
        now: u64,
        occurred_at_ms: u64,
    ) -> LockedRecoveryView {
        if self.run.step_expired(step, now) {
            LockedRecoveryView {
                run: self.run.with_recovery(step, now).with_next_event(
                    self.run.steps[step.id].recovery_event(self.run.run_id, step),
                    occurred_at_ms,
                ),
                expired: self.expired.push(step.id),
            }
        } else {
            self
        }
    }

    /// Takes steps back, one after the other.
    pub open spec fn recover_steps(
        self,
        steps: Seq<StepSpecView>,
        now: u64,
        occurred_at_ms: u64,
    ) -> LockedRecoveryView
        decreases steps.len(),
    {
        if steps.len() == 0 {
            self
        } else {
            self.recover_step(steps[0], now, occurred_at_ms).recover_steps(
                steps.drop_first(),
                now,
                occurred_at_ms,
            )
        }
    }
}

/// A locked run after all of its steps whose lease ran out were taken back.
pub open spec fn recovered(
    run: RunRecordView,
    now: u64,
    occurred_at_ms: u64,
) -> LockedRecoveryView {
    let done = (LockedRecoveryView { run, expired: Seq::empty() }).recover_steps(
        run.workflow.steps,
        now,
        occurred_at_ms,
    );
    if done.expired.len() > 0 {
        LockedRecoveryView {
            run: RunRecordView { revision: event::successor(done.run.revision), ..done.run },
            expired: done.expired,
        }
    } else {
        done
    }
}

/// Takes back every step of a locked run whose lease ran out.
pub fn recover_locked(run: &mut RunRecord, now: u64, occurred_at_ms: u64) -> (expired: Vec<StepId>)
    ensures
        (LockedRecoveryView { run: final(run)@, expired: views::all_views(expired@) })
            == recovered(old(run)@, now, occurred_at_ms),
{
    let mut expired: Vec<StepId> = Vec::new();
    let steps: Vec<StepSpec> = run.workflow.steps.clone();
    proof {
        views::lemma_cloned_list(run.workflow.steps@, steps@);
    }
    let ghost all = views::all_views(steps@);
    let ghost start = LockedRecoveryView { run: run@, expired: Seq::empty() };
    let mut i: usize = 0;
    assert(all.skip(0) =~= all);
    assert(views::all_views(expired@) =~= Seq::<Seq<char>>::empty());
    while i < steps.len()
        invariant
            i <= steps.len(),
            all == views::all_views(steps@),
            start.recover_steps(all, now, occurred_at_ms) == (LockedRecoveryView {
                run: run@,
                expired: views::all_views(expired@),
            }).recover_steps(all.skip(i as int), now, occurred_at_ms),
        decreases steps.len() - i,
    {
        let ghost listed = expired@;
        proof {
            assert(all.skip(i as int)[0] == steps@[i as int]@);
            assert(all.skip(i as int).drop_first() =~= all.skip(i + 1));
        }
        if let Some(event) = recover_step(run, &steps[i], now) {
            let logged = append_run_event(run, event, occurred_at_ms);
            assert(logged is Ok);
            expired.push(steps[i].id.clone());
            assert(views::all_views(expired@) =~= views::all_views(listed).push(
                steps@[i as int]@.id,
            ));
        }
        i += 1;
    }
    if expired.len() > 0 {
        run.revision = next_number(run.revision);
    }
    expired
}

} // verus!
