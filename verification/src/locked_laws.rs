//! What holds of a run that is kept in a row of its own, whatever transactions do to
//! it and in which order.
use crate::error::RepositoryErrorView;
use crate::evaluation::MetricView;
use crate::event;
use crate::locked::{self, LockedRecoveryView};
use crate::policy::WorkerProfileView;
use crate::record::{
    ExecutionEventView, RunRecordView, RunStatus, StepClaimView, StepCompletionView,
};
use crate::repository_laws;
use crate::run_laws;
use crate::store::{self, RepositoryView};
use crate::transition;
use crate::workflow::StepSpecView;
use vstd::prelude::*;

verus! {

/// Something that a transaction does to a locked run.
pub enum LockedRequestView {
    Claim(WorkerProfileView, u64),
    Renew(StepClaimView, u64),
    Complete(StepClaimView, StepCompletionView),
    Record(ExecutionEventView),
    Finish(Seq<MetricView>),
    Cancel,
    Recover,
}

/// A locked run after it was cancelled.
pub open spec fn cancelled(run: RunRecordView, now: u64, occurred_at_ms: u64) -> RunRecordView {
    if transition::is_terminal(run.status) {
        run
    } else {
        (RunRecordView {
            revision: event::successor(run.revision),
            ..run.with_cancellation(now)
        }).with_next_event(
            ExecutionEventView::RunFinished { run_id: run.run_id, status: RunStatus::Cancelled },
            occurred_at_ms,
        )
    }
}

/// A locked run after a transaction.
pub open spec fn after(
    run: RunRecordView,
    request: LockedRequestView,
    now: u64,
    occurred_at_ms: u64,
) -> RunRecordView {
    match request {
        LockedRequestView::Claim(worker, lease_ms) => match run.next_step(worker, now) {
            Some(step) => run.with_claim(
                step,
                worker.id,
                locked::next_token(run),
                now,
                lease_ms,
                true,
            ),
            None => run,
        },
        LockedRequestView::Renew(claim, lease_ms) => if run.honours(claim, now) {
            run.with_renewal(claim, lease_ms, now)
        } else {
            run
        },
        LockedRequestView::Complete(
            claim,
            completion,
        ) => if locked::locked_completion_flaw(run, claim, completion, now) is None {
            run.with_completion(claim, completion, now).with_next_event(
                completion.event,
                occurred_at_ms,
            )
        } else {
            run
        },
        LockedRequestView::Record(event) => if run.admits_event(event) {
            run.with_next_event(event, occurred_at_ms)
        } else {
            run
        },
        LockedRequestView::Finish(metrics) => locked::finished(run, metrics, occurred_at_ms),
        LockedRequestView::Cancel => cancelled(run, now, occurred_at_ms),
        LockedRequestView::Recover => locked::recovered(run, now, occurred_at_ms).run,
    }
}

/// A run moves on, and keeps its log in order.
spec fn moves_on_in_order(before: RunRecordView, after: RunRecordView, token: u64) -> bool {
    &&& repository_laws::moves_on(before, after, token)
    &&& store::numbered_in_order(before.event_log) ==> store::numbered_in_order(after.event_log)
}

proof fn lemma_next_event_moves_on(
    before: RunRecordView,
    run: RunRecordView,
    event: ExecutionEventView,
    now: u64,
    token: u64,
)
    requires
        moves_on_in_order(before, run, token),
    ensures
        moves_on_in_order(before, run.with_next_event(event, now), token),
{
    repository_laws::lemma_with_event_moves_on(
        before,
        run,
        event,
        event::successor(run.last_sequence()),
        now,
        token,
    );
    if store::numbered_in_order(run.event_log) {
        run_laws::law_own_numbers_stay_in_order(run, event, now);
    }
}

/// Counting the revision up is moving on.
proof fn lemma_counted(before: RunRecordView, run: RunRecordView, token: u64)
    requires
        moves_on_in_order(before, run, token),
    ensures
        moves_on_in_order(
            before,
            RunRecordView { revision: event::successor(run.revision), ..run },
            token,
        ),
{
    let counted = RunRecordView { revision: event::successor(run.revision), ..run };
    assert forall|step: Seq<char>| #[trigger]
        counted.steps.contains_key(step)
            && counted.steps[step].lease is Some implies repository_laws::lease_has_origin(
        before,
        counted,
        step,
        token,
    ) by {
        assert(run.steps.contains_key(step));
        assert(repository_laws::lease_has_origin(before, run, step, token));
    }
    assert forall|step: Seq<char>| #[trigger] before.steps.contains_key(step) implies {
        &&& counted.steps.contains_key(step)
        &&& counted.steps[step].attempts >= before.steps[step].attempts
        &&& before.steps[step].fallback_used ==> counted.steps[step].fallback_used
    } by {
        assert(run.steps.contains_key(step));
    }
}

proof fn lemma_recover_steps_moves_on(
    recovery: LockedRecoveryView,
    steps: Seq<StepSpecView>,
    now: u64,
    occurred_at_ms: u64,
    token: u64,
)
    ensures
        moves_on_in_order(
            recovery.run,
            recovery.recover_steps(steps, now, occurred_at_ms).run,
            token,
        ),
    decreases steps.len(),
{
    repository_laws::lemma_run_stays(recovery.run, token);
    if steps.len() > 0 {
        let next = recovery.recover_step(steps[0], now, occurred_at_ms);
        if recovery.run.step_expired(steps[0], now) {
            repository_laws::lemma_recovery_moves_on(recovery.run, steps[0], now, token);
            lemma_next_event_moves_on(
                recovery.run,
                recovery.run.with_recovery(steps[0], now),
                recovery.run.steps[steps[0].id].recovery_event(recovery.run.run_id, steps[0]),
                occurred_at_ms,
                token,
            );
        }
        lemma_recover_steps_moves_on(next, steps.drop_first(), now, occurred_at_ms, token);
        repository_laws::lemma_moves_on_transitive(
            recovery.run,
            next.run,
            recovery.recover_steps(steps, now, occurred_at_ms).run,
            token,
            token,
        );
    }
}

/// Whatever transactions do to a run: what it was started with stays, its log and its
/// revision grow, no attempt is undone and no fallback taken back, leases come with
/// tokens that were not given out before, and its log stays numbered in order.
pub proof fn law_locked_run_moves_on(
    run: RunRecordView,
    highest: u64,
    request: LockedRequestView,
    now: u64,
    occurred_at_ms: u64,
)
    requires
        locked::is_highest_token(run, highest),
    ensures
        repository_laws::moves_on(run, after(run, request, now, occurred_at_ms), highest),
        store::numbered_in_order(run.event_log) ==> store::numbered_in_order(
            after(run, request, now, occurred_at_ms).event_log,
        ),
{
    repository_laws::lemma_run_stays(run, highest);
    match request {
        LockedRequestView::Claim(worker, lease_ms) => {
            if let Some(step) = run.next_step(worker, now) {
                locked::lemma_next_token(run, highest);
                run_laws::law_claim_is_justified(run, worker, now);
                repository_laws::lemma_claim_moves_on(
                    run,
                    step,
                    worker.id,
                    highest,
                    now,
                    lease_ms,
                    true,
                );
            }
        },
        LockedRequestView::Renew(claim, lease_ms) => {
            if run.honours(claim, now) {
                repository_laws::lemma_renewal_moves_on(run, claim, lease_ms, now, highest);
            }
        },
        LockedRequestView::Complete(claim, completion) => {
            if locked::locked_completion_flaw(run, claim, completion, now) is None {
                let completed = run.with_completion(claim, completion, now);
                repository_laws::lemma_completion_moves_on(run, claim, completion, now, highest);
                lemma_next_event_moves_on(
                    run,
                    completed,
                    completion.event,
                    occurred_at_ms,
                    highest,
                );
            }
        },
        LockedRequestView::Record(event) => {
            lemma_next_event_moves_on(run, run, event, occurred_at_ms, highest);
        },
        LockedRequestView::Finish(metrics) => {
            let settled = run.settled(metrics);
            let counted = RunRecordView {
                revision: event::successor(settled.revision),
                ..settled
            };
            repository_laws::lemma_settling_moves_on(run, metrics, highest);
            lemma_counted(run, settled, highest);
            lemma_next_event_moves_on(
                run,
                counted,
                ExecutionEventView::RunFinished { run_id: run.run_id, status: settled.status },
                occurred_at_ms,
                highest,
            );
        },
        LockedRequestView::Cancel => {
            let closed = run.with_cancellation(now);
            repository_laws::lemma_cancellation_moves_on(run, now, highest);
            lemma_counted(run, closed, highest);
            lemma_next_event_moves_on(
                run,
                RunRecordView { revision: event::successor(closed.revision), ..closed },
                ExecutionEventView::RunFinished {
                    run_id: run.run_id,
                    status: RunStatus::Cancelled,
                },
                occurred_at_ms,
                highest,
            );
        },
        LockedRequestView::Recover => {
            let start = LockedRecoveryView { run, expired: Seq::empty() };
            lemma_recover_steps_moves_on(
                start,
                run.workflow.steps,
                now,
                occurred_at_ms,
                highest,
            );
            lemma_counted(
                run,
                start.recover_steps(run.workflow.steps, now, occurred_at_ms).run,
                highest,
            );
        },
    }
}

/// Whether a step of a run is not held under a claim, whatever the time.
pub open spec fn is_void(run: RunRecordView, claim: StepClaimView) -> bool {
    let lease = run.steps[claim.step.id].lease;
    !(run.steps.contains_key(claim.step.id) && lease is Some && lease->0.worker == claim.worker
        && lease->0.token == claim.lease_token)
}

/// A claim on a run that is void stays void, whatever transactions do: a worker that has
/// lost its lease never gets it back.
pub proof fn law_locked_void_claim_stays_void(
    run: RunRecordView,
    highest: u64,
    claim: StepClaimView,
    request: LockedRequestView,
    now: u64,
    occurred_at_ms: u64,
)
    requires
        locked::is_highest_token(run, highest),
        is_void(run, claim),
        claim.lease_token <= highest,
        claim.lease_token < u64::MAX,
    ensures
        is_void(after(run, request, now, occurred_at_ms), claim),
{
    law_locked_run_moves_on(run, highest, request, now, occurred_at_ms);
    let then = after(run, request, now, occurred_at_ms);
    if then.steps.contains_key(claim.step.id) && then.steps[claim.step.id].lease is Some {
        assert(repository_laws::lease_has_origin(run, then, claim.step.id, highest));
    }
}

spec fn none_expired(run: RunRecordView, steps: Seq<StepSpecView>, now: u64) -> bool {
    forall|i: int| 0 <= i < steps.len() ==> !run.step_expired(#[trigger] steps[i], now)
}

proof fn lemma_recover_steps_clears(
    recovery: LockedRecoveryView,
    done: Seq<StepSpecView>,
    steps: Seq<StepSpecView>,
    now: u64,
    occurred_at_ms: u64,
)
    requires
        none_expired(recovery.run, done, now),
    ensures
        none_expired(
            recovery.recover_steps(steps, now, occurred_at_ms).run,
            done + steps,
            now,
        ),
    decreases steps.len(),
{
    if steps.len() == 0 {
        assert(done + steps =~= done);
    } else {
        let next = recovery.recover_step(steps[0], now, occurred_at_ms);
        let more = done.push(steps[0]);
        assert forall|i: int| 0 <= i < more.len() implies !next.run.step_expired(
            #[trigger] more[i],
            now,
        ) by {
            if i < done.len() {
                assert(!recovery.run.step_expired(done[i], now));
            }
        }
        lemma_recover_steps_clears(next, more, steps.drop_first(), now, occurred_at_ms);
        assert(more + steps.drop_first() =~= done + steps);
    }
}

/// After a recovery no step of the run's workflow is held under a lease that has run
/// out.
pub proof fn law_locked_recovery_leaves_nothing_expired(
    run: RunRecordView,
    now: u64,
    occurred_at_ms: u64,
    i: int,
)
    requires
        0 <= i < run.workflow.steps.len(),
    ensures
        !locked::recovered(run, now, occurred_at_ms).run.step_expired(run.workflow.steps[i], now),
{
    let start = LockedRecoveryView { run, expired: Seq::empty() };
    let steps = run.workflow.steps;
    lemma_recover_steps_clears(start, Seq::empty(), steps, now, occurred_at_ms);
    assert(Seq::<StepSpecView>::empty() + steps =~= steps);
    let done = start.recover_steps(steps, now, occurred_at_ms).run;
    assert(!done.step_expired(steps[i], now));
}

/// A run in a row of its own and one in the memory of a process are treated alike: the
/// same claims, completions and events are accepted, for the same reasons, and leave
/// the steps and the status of the run the same.
pub proof fn law_repositories_agree(
    repository: RepositoryView,
    run_id: Seq<char>,
    worker: WorkerProfileView,
    lease_ms: u64,
    claim: StepClaimView,
    completion: StepCompletionView,
    event: ExecutionEventView,
    metrics: Seq<MetricView>,
    now: u64,
    at: u64,
)
    requires
        repository.consistent(),
        repository.runs.contains_key(run_id),
        claim.run_id == run_id,
    ensures
        ({
            let run = repository.runs[run_id];
            let flaw = locked::locked_completion_flaw(run, claim, completion, now);
            let completed = repository.complete(claim, completion, now);
            let recorded = repository.record(run_id, event, now);
            let finished = repository.finish(run_id, metrics, now).0.runs[run_id];
            let closed = repository.cancel(run_id, now).0.runs[run_id];
            let claimed = repository.claim(run_id, worker, lease_ms, now);
            &&& match run.next_step(worker, now) {
                Some(step) => claimed.1 matches Ok(Some(there)) && there == (StepClaimView {
                    lease_token: there.lease_token,
                    ..run.claim_for(step, worker.id, locked::next_token(run))
                }),
                None => claimed.1 == Ok::<Option<StepClaimView>, RepositoryErrorView>(None),
            }
            &&& flaw matches Some(error) ==> completed.1 == Err::<
                RunRecordView,
                RepositoryErrorView,
            >(error)
            &&& flaw is None ==> {
                let other = after(run, LockedRequestView::Complete(claim, completion), now, at);
                &&& completed.1 matches Ok(there) && there.steps == other.steps
                    && there.status == other.status && there.error == other.error
            }
            &&& recorded.1 is Ok <==> run.admits_event(event)
            &&& finished.status == locked::finished(run, metrics, at).status
            &&& finished.error == locked::finished(run, metrics, at).error
            &&& closed.status == cancelled(run, now, at).status
            &&& closed.steps == cancelled(run, now, at).steps
        }),
{
    let run = repository.runs[run_id];
    if run.completion_flaw(claim, completion, now) is None {
        assert(completion.event.run() == completion.bare().event.run());
        assert(completion.event.run() == claim.run_id);
    }
}

} // verus!
