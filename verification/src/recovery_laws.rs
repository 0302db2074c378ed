//! What becomes of steps whose lease has run out.
use crate::locked::{self, LockedRecoveryView};
use crate::ordered;
use crate::record::{
    ExecutionEventView, RunRecordView, StepAttemptView, StepRecordView, StepStatus,
};
use crate::repository_laws;
use crate::store::{RecoveryView, RepositoryView};
use crate::workflow::StepSpecView;
use vstd::prelude::*;

verus! {

/// A step that was lost with its worker is held by nobody and waits for nothing. It is to be
/// retried while it has made fewer attempts than its policy grants; else it is to be tried
/// with its fallback, if it has one that was not selected before; else it has failed. The
/// attempt that was running is closed, attempts stay, and the event says what was decided.
pub proof fn law_lost_step_is_taken_back(
    record: StepRecordView,
    step: StepSpecView,
    run_id: Seq<char>,
    now: u64,
)
    ensures
        ({
            let after = record.recovered(step, now);
            let event = record.recovery_event(run_id, step);
            let granted: int = if step.policy.retry.max_attempts > 1 {
                step.policy.retry.max_attempts as int
            } else {
                1
            };
            let reason = "worker lease expired"@;
            let fallback = step.policy.fallback_task;
            let last = record.history.len() - 1;
            &&& after.lease is None
            &&& after.next_attempt_at_ms is None
            &&& after.error == Some(reason)
            &&& after.id == record.id
            &&& after.attempts == record.attempts
            &&& after.output == record.output
            &&& after.artifacts == record.artifacts
            &&& after.history.len() == record.history.len()
            &&& forall|i: int| 0 <= i < last ==> after.history[i] == record.history[i]
            &&& last >= 0 ==> after.history[last] == (StepAttemptView {
                finished_at_ms: Some(now),
                status: after.status,
                error: Some(reason),
                ..record.history[last]
            })
            &&& if record.attempts < granted {
                &&& after.status == StepStatus::Retrying
                &&& after.task == record.task
                &&& after.fallback_used == record.fallback_used
                &&& event == (ExecutionEventView::StepRetrying {
                    run_id,
                    step_id: record.id,
                    attempt: record.attempts,
                    error: reason,
                })
            } else if fallback is Some && !record.fallback_used {
                &&& after.status == StepStatus::Retrying
                &&& after.task == fallback->0
                &&& after.fallback_used
                &&& event == (ExecutionEventView::StepFallbackSelected {
                    run_id,
                    step_id: record.id,
                    task: fallback->0,
                })
            } else {
                &&& after.status == StepStatus::Failed
                &&& after.task == record.task
                &&& after.fallback_used == record.fallback_used
                &&& event == (ExecutionEventView::StepFailed {
                    run_id,
                    step_id: record.id,
                    attempts: record.attempts,
                    error: reason,
                })
            }
        }),
{
}

/// Taking a step of a run back changes its record and no other, and what the run failed of
/// where the step has failed.
pub proof fn law_one_step_is_taken_back(run: RunRecordView, step: StepSpecView, now: u64)
    requires
        run.steps.contains_key(step.id),
    ensures
        ({
            let after = run.with_recovery(step, now);
            let record = run.steps[step.id].recovered(step, now);
            &&& after.steps.dom() == run.steps.dom()
            &&& after.steps[step.id] == record
            &&& forall|id: Seq<char>|
                id != step.id && run.steps.contains_key(id) ==> #[trigger] after.steps[id]
                    == run.steps[id]
            &&& after.error == (if record.status == StepStatus::Failed {
                record.error
            } else {
                run.error
            })
            &&& after == (RunRecordView { steps: after.steps, error: after.error, ..run })
        }),
{
    assert(run.with_recovery(step, now).steps.dom() =~= run.steps.dom());
}

/// Taking a step back, in a repository or in a run under a lock, is logged, once and at the
/// time given, with the event that says what was decided; a step that nobody has lost is
/// left alone.
pub proof fn law_taking_back_is_logged(
    recovery: RecoveryView,
    locked: LockedRecoveryView,
    run_id: Seq<char>,
    step: StepSpecView,
    now: u64,
    occurred_at_ms: u64,
)
    requires
        recovery.repository.consistent(),
        recovery.repository.runs.contains_key(run_id),
    ensures
        ({
            let before = recovery.repository.runs[run_id];
            let after = recovery.recover_step(run_id, step, now);
            let run = after.repository.runs[run_id];
            if has_lost_its_lease(before, step.id, now) {
                let logged = after.repository.events.last();
                &&& after.expired == recovery.expired.push((run_id, step.id))
                &&& after.repository.events.drop_last() == recovery.repository.events
                &&& logged.event == before.steps[step.id].recovery_event(run_id, step)
                &&& logged.occurred_at_ms == now
                &&& logged.sequence == after.repository.next_event_sequence
                &&& recovery.repository.next_event_sequence < u64::MAX ==> logged.sequence
                    == recovery.repository.next_event_sequence + 1
                &&& run.event_log == before.event_log.push(logged)
                &&& run.events == before.events.push(logged.event)
                &&& run.steps == before.with_recovery(step, now).steps
                &&& run.error == before.with_recovery(step, now).error
                &&& after.repository.next_lease_token == recovery.repository.next_lease_token
                &&& after.repository.idempotency == recovery.repository.idempotency
            } else {
                after == recovery
            }
        }),
        ({
            let before = locked.run;
            let after = locked.recover_step(step, now, occurred_at_ms);
            if has_lost_its_lease(before, step.id, now) {
                &&& after.expired == locked.expired.push(step.id)
                &&& after.run.event_log.drop_last() == before.event_log
                &&& after.run.event_log.last().event == before.steps[step.id].recovery_event(
                    before.run_id,
                    step,
                )
                &&& after.run.event_log.last().occurred_at_ms == occurred_at_ms
                &&& after.run.steps == before.with_recovery(step, now).steps
                &&& after.run.error == before.with_recovery(step, now).error
            } else {
                after == locked
            }
        }),
{
    lemma_same_expiry(recovery.repository.runs[run_id], step, now);
    lemma_same_expiry(locked.run, step, now);
    let after = recovery.recover_step(run_id, step, now);
    if has_lost_its_lease(recovery.repository.runs[run_id], step.id, now) {
        assert(after.repository.events.drop_last() =~= recovery.repository.events);
    }
    if has_lost_its_lease(locked.run, step.id, now) {
        assert(locked.recover_step(step, now, occurred_at_ms).run.event_log.drop_last()
            =~= locked.run.event_log);
    }
}

/// Whether a step of a run is held under a lease that ends now or has ended.
pub open spec fn has_lost_its_lease(run: RunRecordView, id: Seq<char>, now: u64) -> bool {
    &&& run.steps.contains_key(id)
    &&& run.steps[id].lease is Some
    &&& run.steps[id].lease->0.expires_at_ms <= now
}

/// Whether a list of steps has one of the given id.
pub open spec fn has_step(steps: Seq<StepSpecView>, id: Seq<char>) -> bool {
    exists|i: int| 0 <= i < steps.len() && (#[trigger] steps[i]).id == id
}

/// How the steps of a run stand after a recovery of some of them: those that have lost their
/// lease are taken back, by the first step of that id, and all others are as they were.
pub open spec fn lost_ones_are_taken_back(
    before: RunRecordView,
    after: RunRecordView,
    steps: Seq<StepSpecView>,
    now: u64,
) -> bool {
    &&& after.steps.dom() == before.steps.dom()
    &&& after.status == before.status
    &&& after.workflow == before.workflow
    &&& after.manifest == before.manifest
    &&& after.input == before.input
    &&& forall|id: Seq<char>| #[trigger]
        before.steps.contains_key(id) ==> if has_lost_its_lease(before, id, now) && has_step(
            steps,
            id,
        ) {
            exists|i: int|
                0 <= i < steps.len() && (#[trigger] steps[i]).id == id && after.steps[id]
                    == before.steps[id].recovered(steps[i], now) && forall|k: int|
                    0 <= k < i ==> (#[trigger] steps[k]).id != id
        } else {
            after.steps[id] == before.steps[id]
        }
}

proof fn lemma_one_more_taken_back(
    before: RunRecordView,
    middle: RunRecordView,
    after: RunRecordView,
    steps: Seq<StepSpecView>,
    now: u64,
)
    requires
        steps.len() > 0,
        middle.steps == (if has_lost_its_lease(before, steps[0].id, now) {
            before.with_recovery(steps[0], now).steps
        } else {
            before.steps
        }),
        middle.status == before.status,
        middle.workflow == before.workflow,
        middle.manifest == before.manifest,
        middle.input == before.input,
        lost_ones_are_taken_back(middle, after, steps.drop_first(), now),
    ensures
        lost_ones_are_taken_back(before, after, steps, now),
{
    let rest = steps.drop_first();
    assert(middle.steps.dom() =~= before.steps.dom());
    assert forall|id: Seq<char>| #[trigger] before.steps.contains_key(id) implies if has_lost_its_lease(
        before,
        id,
        now,
    ) && has_step(steps, id) {
        exists|i: int|
            0 <= i < steps.len() && (#[trigger] steps[i]).id == id && after.steps[id]
                == before.steps[id].recovered(steps[i], now) && forall|k: int|
                0 <= k < i ==> (#[trigger] steps[k]).id != id
    } else {
        after.steps[id] == before.steps[id]
    } by {
        assert(middle.steps.contains_key(id));
        if id == steps[0].id {
            assert(has_step(steps, id)) by {
                assert(steps[0].id == id);
            }
            if has_lost_its_lease(before, id, now) {
                assert(middle.steps[id] == before.steps[id].recovered(steps[0], now));
                assert(!has_lost_its_lease(middle, id, now));
                assert(after.steps[id] == before.steps[id].recovered(steps[0], now));
            } else {
                assert(!has_lost_its_lease(middle, id, now));
            }
        } else {
            assert(middle.steps[id] == before.steps[id]);
            assert(has_lost_its_lease(middle, id, now) == has_lost_its_lease(before, id, now));
            assert(has_step(steps, id) == has_step(rest, id)) by {
                if has_step(steps, id) {
                    let i = choose|i: int| 0 <= i < steps.len() && (#[trigger] steps[i]).id == id;
                    assert(rest[i - 1].id == id);
                }
                if has_step(rest, id) {
                    let i = choose|i: int| 0 <= i < rest.len() && (#[trigger] rest[i]).id == id;
                    assert(steps[i + 1].id == id);
                }
            }
            if has_lost_its_lease(before, id, now) && has_step(steps, id) {
                let i = choose|i: int|
                    0 <= i < rest.len() && (#[trigger] rest[i]).id == id && after.steps[id]
                        == middle.steps[id].recovered(rest[i], now) && forall|k: int|
                        0 <= k < i ==> (#[trigger] rest[k]).id != id;
                assert(steps[i + 1] == rest[i]);
                assert forall|k: int| 0 <= k < i + 1 implies (#[trigger] steps[k]).id != id by {
                    if k > 0 {
                        assert(rest[k - 1] == steps[k]);
                    }
                }
            }
        }
    }
}

proof fn lemma_same_expiry(run: RunRecordView, step: StepSpecView, now: u64)
    ensures
        run.step_expired(step, now) == has_lost_its_lease(run, step.id, now),
{
}

proof fn lemma_steps_are_taken_back(
    recovery: RecoveryView,
    run_id: Seq<char>,
    steps: Seq<StepSpecView>,
    now: u64,
)
    requires
        recovery.repository.consistent(),
        recovery.repository.runs.contains_key(run_id),
    ensures
        ({
            let after = recovery.recover_steps(run_id, steps, now);
            let before = recovery.repository.runs[run_id];
            &&& lost_ones_are_taken_back(before, after.repository.runs[run_id], steps, now)
            &&& forall|id: Seq<char>|
                id != run_id && recovery.repository.runs.contains_key(id)
                    ==> #[trigger] after.repository.runs[id] == recovery.repository.runs[id]
            &&& forall|run: Seq<char>, id: Seq<char>| #[trigger]
                after.expired.contains((run, id)) <==> {
                    ||| recovery.expired.contains((run, id))
                    ||| run == run_id && has_lost_its_lease(before, id, now) && has_step(steps, id)
                }
        }),
    decreases steps.len(),
{
    if steps.len() > 0 {
        let rest = steps.drop_first();
        let next = recovery.recover_step(run_id, steps[0], now);
        let before = recovery.repository.runs[run_id];
        let middle = next.repository.runs[run_id];
        let after = recovery.recover_steps(run_id, steps, now);
        repository_laws::lemma_recover_step_follows(recovery, run_id, steps[0], now);
        lemma_same_expiry(before, steps[0], now);
        assert(next.repository.runs.contains_key(run_id));
        lemma_steps_are_taken_back(next, run_id, rest, now);
        assert(before.run_id == run_id);
        lemma_one_more_taken_back(before, middle, after.repository.runs[run_id], steps, now);
        assert forall|id: Seq<char>|
            id != run_id && recovery.repository.runs.contains_key(
                id,
            ) implies #[trigger] after.repository.runs[id] == recovery.repository.runs[id] by {
            assert(next.repository.runs.contains_key(id));
            assert(next.repository.runs[id] == recovery.repository.runs[id]);
        }
        assert forall|run: Seq<char>, id: Seq<char>| #[trigger]
            after.expired.contains((run, id)) <==> {
            ||| recovery.expired.contains((run, id))
            ||| run == run_id && has_lost_its_lease(before, id, now) && has_step(steps, id)
        } by {
            lemma_pushed(recovery.expired, (run_id, steps[0].id), (run, id));
            assert(has_step(steps, id) == (steps[0].id == id || has_step(rest, id))) by {
                if has_step(steps, id) {
                    let i = choose|i: int| 0 <= i < steps.len() && (#[trigger] steps[i]).id == id;
                    if i > 0 {
                        assert(rest[i - 1].id == id);
                    }
                }
                if has_step(rest, id) {
                    let i = choose|i: int| 0 <= i < rest.len() && (#[trigger] rest[i]).id == id;
                    assert(steps[i + 1].id == id);
                }
                if steps[0].id == id {
                    assert(steps[0].id == id);
                }
            }
            if id != steps[0].id {
                assert(has_lost_its_lease(middle, id, now) == has_lost_its_lease(
                    before,
                    id,
                    now,
                ));
            }
        }
    }
}

proof fn lemma_pushed<T>(list: Seq<T>, item: T, other: T)
    ensures
        list.push(item).contains(other) == (list.contains(other) || other == item),
{
    let longer = list.push(item);
    if list.contains(other) {
        let i = choose|i: int| 0 <= i < list.len() && list[i] == other;
        assert(longer[i] == other);
    }
    assert(longer[list.len() as int] == item);
    if longer.contains(other) {
        let i = choose|i: int| 0 <= i < longer.len() && longer[i] == other;
        if i < list.len() {
            assert(list[i] == other);
        }
    }
}

proof fn lemma_runs_are_taken_back(recovery: RecoveryView, ids: Seq<Seq<char>>, now: u64)
    requires
        recovery.repository.consistent(),
        ids.no_duplicates(),
        forall|i: int|
            0 <= i < ids.len() ==> recovery.repository.runs.contains_key(#[trigger] ids[i]),
    ensures
        ({
            let after = recovery.recover_runs(ids, now);
            &&& forall|id: Seq<char>| #[trigger]
                recovery.repository.runs.contains_key(id) ==> if ids.contains(id) {
                    lost_ones_are_taken_back(
                        recovery.repository.runs[id],
                        after.repository.runs[id],
                        recovery.repository.runs[id].workflow.steps,
                        now,
                    )
                } else {
                    after.repository.runs[id] == recovery.repository.runs[id]
                }
            &&& forall|run: Seq<char>, id: Seq<char>| #[trigger]
                after.expired.contains((run, id)) <==> {
                    ||| recovery.expired.contains((run, id))
                    ||| ids.contains(run) && has_lost_its_lease(
                        recovery.repository.runs[run],
                        id,
                        now,
                    ) && has_step(recovery.repository.runs[run].workflow.steps, id)
                }
        }),
    decreases ids.len(),
{
    if ids.len() > 0 {
        let rest = ids.drop_first();
        let steps = recovery.repository.runs[ids[0]].workflow.steps;
        let next = recovery.recover_steps(ids[0], steps, now);
        let after = recovery.recover_runs(ids, now);
        repository_laws::lemma_recover_steps_follows(recovery, ids[0], steps, now);
        lemma_steps_are_taken_back(recovery, ids[0], steps, now);
        assert forall|i: int| 0 <= i < rest.len() implies next.repository.runs.contains_key(
            #[trigger] rest[i],
        ) by {
            assert(recovery.repository.runs.contains_key(ids[i + 1]));
        }
        assert forall|i: int, j: int| 0 <= i < rest.len() && 0 <= j < rest.len() && i
            != j implies rest[i] != rest[j] by {
            assert(ids[i + 1] != ids[j + 1]);
        }
        lemma_runs_are_taken_back(next, rest, now);
        assert forall|id: Seq<char>| ids.contains(id) == (id == ids[0] || rest.contains(id)) by {
            if ids.contains(id) {
                let i = choose|i: int| 0 <= i < ids.len() && ids[i] == id;
                if i > 0 {
                    assert(rest[i - 1] == id);
                }
            }
            if rest.contains(id) {
                let i = choose|i: int| 0 <= i < rest.len() && rest[i] == id;
                assert(ids[i + 1] == id);
            }
            assert(ids[0] == ids[0]);
        }
        assert(!rest.contains(ids[0])) by {
            if rest.contains(ids[0]) {
                let i = choose|i: int| 0 <= i < rest.len() && rest[i] == ids[0];
                assert(ids[i + 1] == ids[0]);
            }
        }
        assert forall|id: Seq<char>| #[trigger]
            recovery.repository.runs.contains_key(id) implies if ids.contains(id) {
            lost_ones_are_taken_back(
                recovery.repository.runs[id],
                after.repository.runs[id],
                recovery.repository.runs[id].workflow.steps,
                now,
            )
        } else {
            after.repository.runs[id] == recovery.repository.runs[id]
        } by {
            assert(next.repository.runs.contains_key(id));
            if id != ids[0] {
                assert(next.repository.runs[id] == recovery.repository.runs[id]);
            }
        }
        assert forall|run: Seq<char>, id: Seq<char>| #[trigger]
            after.expired.contains((run, id)) <==> {
            ||| recovery.expired.contains((run, id))
            ||| ids.contains(run) && has_lost_its_lease(
                recovery.repository.runs[run],
                id,
                now,
            ) && has_step(recovery.repository.runs[run].workflow.steps, id)
        } by {
            if rest.contains(run) {
                let i = choose|i: int| 0 <= i < rest.len() && rest[i] == run;
                assert(recovery.repository.runs.contains_key(ids[i + 1]));
                assert(next.repository.runs[run] == recovery.repository.runs[run]);
            }
            assert(next.expired.contains((run, id)) <==> {
                ||| recovery.expired.contains((run, id))
                ||| run == ids[0] && has_lost_its_lease(
                    recovery.repository.runs[ids[0]],
                    id,
                    now,
                ) && has_step(steps, id)
            });
        }
    }
}

/// A recovery takes back every step of a workflow whose lease has run out, in every run, and
/// leaves every other record as it is. It names exactly the steps that it has taken back.
pub proof fn law_recovery_takes_back_what_is_lost(repository: RepositoryView, now: u64)
    requires
        repository.consistent(),
    ensures
        ({
            let after = repository.recover(now);
            &&& forall|id: Seq<char>| #[trigger]
                repository.runs.contains_key(id) ==> lost_ones_are_taken_back(
                    repository.runs[id],
                    after.repository.runs[id],
                    repository.runs[id].workflow.steps,
                    now,
                )
            &&& forall|run: Seq<char>, id: Seq<char>| #[trigger]
                after.expired.contains((run, id)) <==> {
                    &&& repository.runs.contains_key(run)
                    &&& has_lost_its_lease(repository.runs[run], id, now)
                    &&& has_step(repository.runs[run].workflow.steps, id)
                }
        }),
{
    let ids = ordered::ascending(repository.runs.dom());
    let start = RecoveryView { repository, expired: Seq::empty() };
    let after = repository.recover(now);
    ordered::lemma_ascending_of(repository.runs.dom());
    repository_laws::lemma_ids_are_there(repository);
    lemma_runs_are_taken_back(start, ids, now);
    assert forall|id: Seq<char>| repository.runs.contains_key(id) == ids.contains(id) by {
        assert(ids.to_set().contains(id) == repository.runs.dom().contains(id));
    }
    assert forall|run: Seq<char>, id: Seq<char>| #[trigger]
        after.expired.contains((run, id)) <==> {
        &&& repository.runs.contains_key(run)
        &&& has_lost_its_lease(repository.runs[run], id, now)
        &&& has_step(repository.runs[run].workflow.steps, id)
    } by {
        assert(!start.expired.contains((run, id)));
        assert(ids.contains(run) == repository.runs.contains_key(run));
    }
}

proof fn lemma_locked_steps_are_taken_back(
    recovery: LockedRecoveryView,
    steps: Seq<StepSpecView>,
    now: u64,
    occurred_at_ms: u64,
)
    ensures
        ({
            let after = recovery.recover_steps(steps, now, occurred_at_ms);
            &&& lost_ones_are_taken_back(recovery.run, after.run, steps, now)
            &&& forall|id: Seq<char>| #[trigger]
                after.expired.contains(id) <==> {
                    ||| recovery.expired.contains(id)
                    ||| has_lost_its_lease(recovery.run, id, now) && has_step(steps, id)
                }
        }),
    decreases steps.len(),
{
    if steps.len() > 0 {
        let rest = steps.drop_first();
        let next = recovery.recover_step(steps[0], now, occurred_at_ms);
        let after = recovery.recover_steps(steps, now, occurred_at_ms);
        lemma_same_expiry(recovery.run, steps[0], now);
        lemma_locked_steps_are_taken_back(next, rest, now, occurred_at_ms);
        lemma_one_more_taken_back(recovery.run, next.run, after.run, steps, now);
        assert forall|id: Seq<char>| #[trigger] after.expired.contains(id) <==> {
            ||| recovery.expired.contains(id)
            ||| has_lost_its_lease(recovery.run, id, now) && has_step(steps, id)
        } by {
            lemma_pushed(recovery.expired, steps[0].id, id);
            assert(has_step(steps, id) == (steps[0].id == id || has_step(rest, id))) by {
                if has_step(steps, id) {
                    let i = choose|i: int| 0 <= i < steps.len() && (#[trigger] steps[i]).id == id;
                    if i > 0 {
                        assert(rest[i - 1].id == id);
                    }
                }
                if has_step(rest, id) {
                    let i = choose|i: int| 0 <= i < rest.len() && (#[trigger] rest[i]).id == id;
                    assert(steps[i + 1].id == id);
                }
                if steps[0].id == id {
                    assert(steps[0].id == id);
                }
            }
            if id != steps[0].id {
                assert(has_lost_its_lease(next.run, id, now) == has_lost_its_lease(
                    recovery.run,
                    id,
                    now,
                ));
            }
        }
    }
}

/// A recovery of a run under a lock takes back every step of its workflow whose lease has run
/// out, leaves every other record as it is, and names exactly the steps that it has taken
/// back.
pub proof fn law_locked_recovery_takes_back_what_is_lost(
    run: RunRecordView,
    now: u64,
    occurred_at_ms: u64,
)
    ensures
        ({
            let after = locked::recovered(run, now, occurred_at_ms);
            &&& lost_ones_are_taken_back(run, after.run, run.workflow.steps, now)
            &&& forall|id: Seq<char>| #[trigger]
                after.expired.contains(id) <==> has_lost_its_lease(run, id, now) && has_step(
                    run.workflow.steps,
                    id,
                )
        }),
{
    let start = LockedRecoveryView { run, expired: Seq::empty() };
    lemma_locked_steps_are_taken_back(start, run.workflow.steps, now, occurred_at_ms);
    assert forall|id: Seq<char>| !start.expired.contains(id) by {}
}

} // verus!
