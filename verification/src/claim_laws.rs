//! What a claim promises: that the step is ready, free and suits the worker, what the
//! worker is given, and what is written down of it.
use crate::claim;
use crate::error::RepositoryErrorView;
use crate::json;
use crate::ordered;
use crate::policy::WorkerProfileView;
use crate::record::{RunRecordView, RunStatus, StepAttemptView, StepClaimView, StepStatus};
use crate::store::RepositoryView;
use crate::text;
use crate::workflow::StepSpecView;
use serde_json::Value;
use vstd::prelude::*;

verus! {

proof fn lemma_claimable_step(run: RunRecordView, worker: WorkerProfileView, now: u64, from: int)
    requires
        0 <= from,
        run.claimable_from(worker, now, from) is Some,
    ensures
        run.claimable(run.claimable_from(worker, now, from)->0, worker, now),
        exists|i: int|
            from <= i < run.workflow.steps.len() && run.claimable_from(worker, now, from) == Some(
                #[trigger] run.workflow.steps[i],
            ) && forall|k: int|
                from <= k < i ==> !run.claimable(#[trigger] run.workflow.steps[k], worker, now),
    decreases run.workflow.steps.len() - from,
{
    if run.claimable(run.workflow.steps[from], worker, now) {
        assert(run.claimable_from(worker, now, from) == Some(run.workflow.steps[from]));
    } else {
        lemma_claimable_step(run, worker, now, from + 1);
        let i = choose|i: int|
            from + 1 <= i < run.workflow.steps.len() && run.claimable_from(worker, now, from + 1)
                == Some(#[trigger] run.workflow.steps[i]) && forall|k: int|
                from + 1 <= k < i ==> !run.claimable(
                    #[trigger] run.workflow.steps[k],
                    worker,
                    now,
                );
        assert(run.claimable_from(worker, now, from) == Some(run.workflow.steps[i]));
    }
}

proof fn lemma_none_claimable(
    run: RunRecordView,
    worker: WorkerProfileView,
    now: u64,
    from: int,
    k: int,
)
    requires
        0 <= from <= k < run.workflow.steps.len(),
        run.claimable_from(worker, now, from) is None,
    ensures
        !run.claimable(run.workflow.steps[k], worker, now),
    decreases run.workflow.steps.len() - from,
{
    if from < k {
        lemma_none_claimable(run, worker, now, from + 1, k);
    }
}

/// A step that a worker would claim has nothing to wait for: of every step that it depends
/// on the run has a record, and by that record it has succeeded.
pub proof fn law_claimed_step_has_its_dependencies(
    run: RunRecordView,
    worker: WorkerProfileView,
    now: u64,
)
    requires
        run.next_step(worker, now) is Some,
    ensures
        ({
            let step = run.next_step(worker, now)->0;
            forall|j: int|
                0 <= j < step.depends_on.len() ==> {
                    &&& run.steps.contains_key(#[trigger] step.depends_on[j])
                    &&& run.steps[step.depends_on[j]].status == StepStatus::Succeeded
                }
        }),
{
    lemma_claimable_step(run, worker, now, 0);
}

/// A step that a worker would claim is free: the run is running, nobody holds the step, it
/// is pending or to be retried, its delay is over, and an attempt is left to it, where a
/// fallback that was selected has one beyond what the policy grants.
pub proof fn law_claimed_step_is_free(run: RunRecordView, worker: WorkerProfileView, now: u64)
    requires
        run.next_step(worker, now) is Some,
    ensures
        ({
            let step = run.next_step(worker, now)->0;
            let record = run.steps[step.id];
            let granted: int = if step.policy.retry.max_attempts > 1 {
                step.policy.retry.max_attempts as int
            } else {
                1
            };
            &&& run.status == RunStatus::Running
            &&& run.steps.contains_key(step.id) ==> {
                &&& record.lease is None
                &&& record.status == StepStatus::Pending || record.status == StepStatus::Retrying
                &&& record.next_attempt_at_ms is None || record.next_attempt_at_ms->0 <= now
                &&& record.attempts <= granted
                &&& record.attempts == granted ==> record.fallback_used && record.status
                    == StepStatus::Retrying
            }
        }),
{
    lemma_claimable_step(run, worker, now, 0);
}

/// A step that a worker would claim suits the worker: the worker is where the policy wants
/// it, has the processors, the memory, the accelerators and every capability that the
/// policy asks for, and has the capability of the task that is to run, unless it advertises
/// none. That task is in the manifest of the run.
pub proof fn law_claimed_step_suits_the_worker(
    run: RunRecordView,
    worker: WorkerProfileView,
    now: u64,
)
    requires
        run.next_step(worker, now) is Some,
    ensures
        ({
            let step = run.next_step(worker, now)->0;
            let task = if run.steps.contains_key(step.id) {
                run.steps[step.id].task
            } else {
                step.task
            };
            let asked = step.policy.resources;
            &&& run.manifest.tasks.contains_key(task)
            &&& step.policy.residency is Any || step.policy.residency == worker.residency
            &&& asked.cpu_millis <= worker.resources.cpu_millis
            &&& asked.memory_mb <= worker.resources.memory_mb
            &&& asked.gpu_count <= worker.resources.gpu_count
            &&& forall|capability: Seq<char>| #[trigger]
                asked.capabilities.contains(capability)
                    ==> worker.resources.capabilities.contains(capability)
            &&& (forall|any: Seq<char>| !#[trigger] worker.resources.capabilities.contains(any))
                || worker.resources.capabilities.contains(run.manifest.tasks[task].capability)
        }),
{
    lemma_claimable_step(run, worker, now, 0);
}

/// All that has to hold of a step for a worker to claim it.
pub open spec fn may_be_claimed(
    run: RunRecordView,
    step: StepSpecView,
    worker: WorkerProfileView,
    now: u64,
) -> bool {
    let known = run.steps.contains_key(step.id);
    let record = run.steps[step.id];
    let task = if known {
        record.task
    } else {
        step.task
    };
    let granted: int = if step.policy.retry.max_attempts > 1 {
        step.policy.retry.max_attempts as int
    } else {
        1
    };
    let asked = step.policy.resources;
    let offered = worker.resources;
    &&& forall|j: int|
        0 <= j < step.depends_on.len() ==> {
            &&& run.steps.contains_key(#[trigger] step.depends_on[j])
            &&& run.steps[step.depends_on[j]].status == StepStatus::Succeeded
        }
    &&& known ==> {
        &&& record.lease is None
        &&& record.status == StepStatus::Pending || record.status == StepStatus::Retrying
        &&& record.next_attempt_at_ms is None || record.next_attempt_at_ms->0 <= now
        &&& record.attempts < granted || (record.attempts == granted && record.fallback_used
            && record.status == StepStatus::Retrying)
    }
    &&& run.manifest.tasks.contains_key(task)
    &&& step.policy.residency is Any || step.policy.residency == worker.residency
    &&& asked.cpu_millis <= offered.cpu_millis
    &&& asked.memory_mb <= offered.memory_mb
    &&& asked.gpu_count <= offered.gpu_count
    &&& forall|capability: Seq<char>| #[trigger]
        asked.capabilities.contains(capability) ==> offered.capabilities.contains(capability)
    &&& (forall|any: Seq<char>| !#[trigger] offered.capabilities.contains(any))
        || offered.capabilities.contains(run.manifest.tasks[task].capability)
}

proof fn lemma_may_be_claimed(
    run: RunRecordView,
    step: StepSpecView,
    worker: WorkerProfileView,
    now: u64,
)
    ensures
        run.claimable(step, worker, now) == may_be_claimed(run, step, worker, now),
{
    let offered = worker.resources.capabilities;
    assert((offered == Set::<Seq<char>>::empty()) == (forall|any: Seq<char>|
        !#[trigger] offered.contains(any))) by {
        if forall|any: Seq<char>| !#[trigger] offered.contains(any) {
            assert(offered =~= Set::<Seq<char>>::empty());
        }
    }
    assert(step.policy.resources.capabilities.subset_of(offered) == (forall|capability: Seq<char>|
     #[trigger]
        step.policy.resources.capabilities.contains(capability) ==> offered.contains(capability)));
}

/// Of a running run a worker gets the first step, in the order of the workflow, that it may
/// claim, and none only where there is no such step; of any other run it gets none.
pub proof fn law_first_step_that_may_be_is_claimed(
    run: RunRecordView,
    worker: WorkerProfileView,
    now: u64,
)
    ensures
        run.status != RunStatus::Running ==> run.next_step(worker, now) is None,
        run.status == RunStatus::Running ==> match run.next_step(worker, now) {
            Some(step) => exists|i: int|
                0 <= i < run.workflow.steps.len() && #[trigger] run.workflow.steps[i] == step
                    && may_be_claimed(run, step, worker, now) && forall|k: int|
                    0 <= k < i ==> !may_be_claimed(
                        run,
                        #[trigger] run.workflow.steps[k],
                        worker,
                        now,
                    ),
            None => forall|k: int|
                0 <= k < run.workflow.steps.len() ==> !may_be_claimed(
                    run,
                    #[trigger] run.workflow.steps[k],
                    worker,
                    now,
                ),
        },
{
    if run.status == RunStatus::Running {
        match run.next_step(worker, now) {
            Some(step) => {
                lemma_claimable_step(run, worker, now, 0);
                lemma_may_be_claimed(run, step, worker, now);
                let i = choose|i: int|
                    0 <= i < run.workflow.steps.len() && run.claimable_from(worker, now, 0) == Some(
                        #[trigger] run.workflow.steps[i],
                    ) && forall|k: int|
                        0 <= k < i ==> !run.claimable(
                            #[trigger] run.workflow.steps[k],
                            worker,
                            now,
                        );
                assert forall|k: int| 0 <= k < i implies !may_be_claimed(
                    run,
                    #[trigger] run.workflow.steps[k],
                    worker,
                    now,
                ) by {
                    lemma_may_be_claimed(run, run.workflow.steps[k], worker, now);
                }
                assert(run.workflow.steps[i] == step);
            },
            None => {
                assert forall|k: int|
                    0 <= k < run.workflow.steps.len() implies !may_be_claimed(
                    run,
                    #[trigger] run.workflow.steps[k],
                    worker,
                    now,
                ) by {
                    lemma_none_claimable(run, worker, now, 0, k);
                    lemma_may_be_claimed(run, run.workflow.steps[k], worker, now);
                }
            },
        }
    }
}

/// What a worker is given with a claim: the run, its workflow and the step; the task that
/// the step has come to; the number of the attempt, one above those that were made; whether
/// the fallback was selected; and its own name and token.
pub proof fn law_claim_names_the_attempt(
    run: RunRecordView,
    step: StepSpecView,
    worker: Seq<char>,
    token: u64,
)
    ensures
        ({
            let claim = run.claim_for(step, worker, token);
            let record = run.steps[step.id];
            &&& claim.run_id == run.run_id
            &&& claim.workflow_id == run.workflow.id
            &&& claim.step == step
            &&& claim.worker == worker
            &&& claim.lease_token == token
            &&& if run.steps.contains_key(step.id) {
                &&& claim.task == run.manifest.tasks[record.task]
                &&& record.attempts < u32::MAX ==> claim.attempt == record.attempts + 1
                &&& record.attempts == u32::MAX ==> claim.attempt == u32::MAX
                &&& claim.fallback_used == record.fallback_used
            } else {
                &&& claim.task == run.manifest.tasks[step.task]
                &&& claim.attempt == 1
                &&& !claim.fallback_used
            }
        }),
{
}

/// The input of a claimed step: the input of the run, and the output of every step that it
/// depends on, each under the name of the step.
pub proof fn law_claim_hands_on_outputs(
    run: RunRecordView,
    step: StepSpecView,
    worker: Seq<char>,
    token: u64,
) -> (outputs: Map<Seq<char>, Value>)
    ensures
        run.claim_for(step, worker, token).input == json::json_object(
            Map::<Seq<char>, Value>::empty().insert("run_input"@, run.input).insert(
                "dependencies"@,
                json::json_object(outputs),
            ),
        ),
        forall|id: Seq<char>| #[trigger]
            outputs.contains_key(id) <==> {
                &&& exists|j: int|
                    0 <= j < step.depends_on.len() && #[trigger] step.depends_on[j] == id
                &&& run.steps.contains_key(id)
                &&& run.steps[id].output is Some
            },
        forall|id: Seq<char>| #[trigger]
            outputs.contains_key(id) ==> run.steps[id].output == Some(outputs[id]),
{
    let outputs = claim::outputs_of(step.depends_on, run.steps);
    assert forall|id: Seq<char>| #[trigger] outputs.contains_key(id) <==> {
        &&& exists|j: int| 0 <= j < step.depends_on.len() && #[trigger] step.depends_on[j] == id
        &&& run.steps.contains_key(id)
        &&& run.steps[id].output is Some
    } by {
        assert(step.depends_on.contains(id) == (exists|j: int|
            0 <= j < step.depends_on.len() && #[trigger] step.depends_on[j] == id));
    }
    outputs
}

/// What is written down of a claim: the step runs, its attempts count one up, it is leased
/// to the worker under the token until the lease ends, a millisecond from now at the
/// earliest, and the attempt is added to its history. Nothing else changes of the step, nor
/// of any other step, nor of the run but its revision.
pub proof fn law_claim_is_written_down(
    run: RunRecordView,
    step: StepSpecView,
    worker: Seq<char>,
    token: u64,
    now: u64,
    lease_ms: u64,
    forget_delay: bool,
)
    ensures
        ({
            let after = run.with_claim(step, worker, token, now, lease_ms, forget_delay);
            let known = run.steps.contains_key(step.id);
            let old_record = run.steps[step.id];
            let record = after.steps[step.id];
            let made: int = if known {
                old_record.attempts as int
            } else {
                0
            };
            let lasts: int = if lease_ms >= 1 {
                lease_ms as int
            } else {
                1
            };
            &&& after.steps.contains_key(step.id)
            &&& record.status == StepStatus::Running
            &&& record.attempts == (if made < u32::MAX {
                made + 1
            } else {
                made
            })
            &&& record.lease matches Some(lease) && lease.worker == worker && lease.token == token
                && lease.expires_at_ms == (if now + lasts <= u64::MAX {
                now + lasts
            } else {
                u64::MAX as int
            })
            &&& record.history.len() == (if known {
                old_record.history.len()
            } else {
                0
            }) + 1
            &&& known ==> record.history.drop_last() == old_record.history
            &&& record.history.last() == (StepAttemptView {
                id: run.run_id + "-attempt-"@ + text::decimal(token as nat),
                number: record.attempts,
                worker,
                lease_token: token,
                started_at_ms: now,
                finished_at_ms: None,
                status: StepStatus::Running,
                error: None,
            })
            &&& if known {
                &&& record.id == old_record.id
                &&& record.task == old_record.task
                &&& record.output == old_record.output
                &&& record.error == old_record.error
                &&& record.fallback_used == old_record.fallback_used
                &&& record.artifacts == old_record.artifacts
                &&& record.next_attempt_at_ms == (if forget_delay {
                    None
                } else {
                    old_record.next_attempt_at_ms
                })
            } else {
                &&& record.id == step.id
                &&& record.task == step.task
                &&& record.output is None
                &&& record.error is None
                &&& !record.fallback_used
                &&& record.artifacts.len() == 0
                &&& record.next_attempt_at_ms is None
            }
            &&& forall|id: Seq<char>|
                id != step.id ==> {
                    &&& #[trigger] after.steps.contains_key(id) == run.steps.contains_key(id)
                    &&& run.steps.contains_key(id) ==> after.steps[id] == run.steps[id]
                }
            &&& run.revision < u64::MAX ==> after.revision == run.revision + 1
            &&& after == (RunRecordView { steps: after.steps, revision: after.revision, ..run })
        }),
{
    let after = run.with_claim(step, worker, token, now, lease_ms, forget_delay);
    let record = after.steps[step.id];
    if run.steps.contains_key(step.id) {
        assert(record.history.drop_last() =~= run.steps[step.id].history);
    }
}

/// What asking a repository for a step of a run comes to. An unknown run is said to be so;
/// where there is no step, nothing changes; and a step comes with a claim on it under a new
/// token, which the step is leased under from then on, and which is above all that were
/// given out before, as far as numbers go.
pub proof fn law_claim_leases_the_step(
    repository: RepositoryView,
    run_id: Seq<char>,
    worker: WorkerProfileView,
    lease_ms: u64,
    now: u64,
)
    requires
        repository.consistent(),
    ensures
        ({
            let (after, outcome) = repository.claim(run_id, worker, lease_ms, now);
            let run = repository.runs[run_id];
            match outcome {
                Err(error) => {
                    &&& !repository.runs.contains_key(run_id)
                    &&& error == RepositoryErrorView::RunNotFound { run: run_id }
                    &&& after == repository
                },
                Ok(None) => {
                    &&& repository.runs.contains_key(run_id)
                    &&& run.next_step(worker, now) is None
                    &&& after == repository
                },
                Ok(Some(claim)) => {
                    &&& repository.runs.contains_key(run_id)
                    &&& run.next_step(worker, now) == Some(claim.step)
                    &&& claim.run_id == run_id
                    &&& claim.worker == worker.id
                    &&& claim == run.claim_for(claim.step, worker.id, claim.lease_token)
                    &&& repository.next_lease_token < u64::MAX ==> claim.lease_token
                        == repository.next_lease_token + 1
                    &&& repository.next_lease_token == u64::MAX ==> claim.lease_token == u64::MAX
                    &&& after.next_lease_token == claim.lease_token
                    &&& after.runs.dom() == repository.runs.dom()
                    &&& after.runs[run_id] == run.with_claim(
                        claim.step,
                        worker.id,
                        claim.lease_token,
                        now,
                        lease_ms,
                        false,
                    )
                    &&& forall|id: Seq<char>|
                        id != run_id && repository.runs.contains_key(id)
                            ==> #[trigger] after.runs[id] == repository.runs[id]
                    &&& after.idempotency == repository.idempotency
                    &&& after.events == repository.events
                    &&& after.next_event_sequence == repository.next_event_sequence
                },
            }
        }),
{
    let (after, outcome) = repository.claim(run_id, worker, lease_ms, now);
    if outcome matches Ok(Some(_)) {
        assert(after.runs.dom() =~= repository.runs.dom());
    }
}

/// A worker that asks a repository for a step, of a given run or of any, gets one only if
/// every step that it depends on has a record in its run by which it has succeeded.
pub proof fn law_handed_out_step_has_its_dependencies(
    repository: RepositoryView,
    run_id: Seq<char>,
    worker: WorkerProfileView,
    lease_ms: u64,
    now: u64,
)
    requires
        repository.consistent(),
    ensures
        forall|claim: StepClaimView, j: int|
            #![trigger claim.step.depends_on[j]]
            (repository.claim(run_id, worker, lease_ms, now).1 == Ok::<
                Option<StepClaimView>,
                RepositoryErrorView,
            >(Some(claim)) || repository.claim_any(worker, lease_ms, now).1 == Ok::<
                Option<StepClaimView>,
                RepositoryErrorView,
            >(Some(claim))) && 0 <= j < claim.step.depends_on.len() ==> {
                let steps = repository.runs[claim.run_id].steps;
                &&& steps.contains_key(claim.step.depends_on[j])
                &&& steps[claim.step.depends_on[j]].status == StepStatus::Succeeded
            },
{
    law_claim_leases_the_step(repository, run_id, worker, lease_ms, now);
    if repository.runs[run_id].next_step(worker, now) is Some {
        law_claimed_step_has_its_dependencies(repository.runs[run_id], worker, now);
    }
    let ids = ordered::ascending(repository.runs.dom());
    if let Some(first) = repository.first_claimable(ids, worker, now) {
        law_claim_leases_the_step(repository, first, worker, lease_ms, now);
        if repository.runs[first].next_step(worker, now) is Some {
            law_claimed_step_has_its_dependencies(repository.runs[first], worker, now);
        }
    }
}

proof fn lemma_first_claimable(
    repository: RepositoryView,
    ids: Seq<Seq<char>>,
    worker: WorkerProfileView,
    now: u64,
)
    ensures
        match repository.first_claimable(ids, worker, now) {
            Some(id) => exists|i: int|
                0 <= i < ids.len() && #[trigger] ids[i] == id && repository.runs[id].next_step(
                    worker,
                    now,
                ) is Some && forall|k: int|
                    0 <= k < i ==> repository.runs[#[trigger] ids[k]].next_step(
                        worker,
                        now,
                    ) is None,
            None => forall|k: int|
                0 <= k < ids.len() ==> repository.runs[#[trigger] ids[k]].next_step(
                    worker,
                    now,
                ) is None,
        },
    decreases ids.len(),
{
    if ids.len() > 0 {
        if repository.runs[ids[0]].next_step(worker, now) is Some {
            assert(ids[0] == ids[0]);
        } else {
            let rest = ids.drop_first();
            lemma_first_claimable(repository, rest, worker, now);
            match repository.first_claimable(rest, worker, now) {
                Some(id) => {
                    let i = choose|i: int|
                        0 <= i < rest.len() && #[trigger] rest[i] == id
                            && repository.runs[id].next_step(worker, now) is Some && forall|k: int|
                            0 <= k < i ==> repository.runs[#[trigger] rest[k]].next_step(
                                worker,
                                now,
                            ) is None;
                    assert(ids[i + 1] == id);
                    assert forall|k: int| 0 <= k < i + 1 implies repository.runs[
                        #[trigger] ids[k]
                    ].next_step(worker, now) is None by {
                        if k > 0 {
                            assert(rest[k - 1] == ids[k]);
                        }
                    }
                },
                None => {
                    assert forall|k: int| 0 <= k < ids.len() implies repository.runs[
                        #[trigger] ids[k]
                    ].next_step(worker, now) is None by {
                        if k > 0 {
                            assert(rest[k - 1] == ids[k]);
                        }
                    }
                },
            }
        }
    }
}

/// A worker that asks for a step of any run gets what it would get of the first run, in the
/// order of the ids, that has a step for it, and nothing only where no run has one.
pub proof fn law_first_run_with_work_is_served(
    repository: RepositoryView,
    worker: WorkerProfileView,
    lease_ms: u64,
    now: u64,
)
    requires
        repository.consistent(),
    ensures
        repository.claim_any(worker, lease_ms, now).1 is Ok,
        match repository.claim_any(worker, lease_ms, now).1 {
            Ok(Some(claim)) => {
                &&& repository.runs.contains_key(claim.run_id)
                &&& repository.claim_any(worker, lease_ms, now) == repository.claim(
                    claim.run_id,
                    worker,
                    lease_ms,
                    now,
                )
                &&& forall|id: Seq<char>| #[trigger]
                    repository.runs.contains_key(id) && text::text_below(id, claim.run_id)
                        ==> repository.claim(id, worker, lease_ms, now).1 == Ok::<
                        Option<StepClaimView>,
                        RepositoryErrorView,
                    >(None)
            },
            Ok(None) => {
                &&& repository.claim_any(worker, lease_ms, now).0 == repository
                &&& forall|id: Seq<char>| #[trigger]
                    repository.runs.contains_key(id) ==> repository.claim(
                        id,
                        worker,
                        lease_ms,
                        now,
                    ).1 == Ok::<Option<StepClaimView>, RepositoryErrorView>(None)
            },
            Err(_) => true,
        },
{
    let ids = ordered::ascending(repository.runs.dom());
    ordered::lemma_ascending_of(repository.runs.dom());
    lemma_first_claimable(repository, ids, worker, now);
    match repository.first_claimable(ids, worker, now) {
        Some(first) => {
            let i = choose|i: int|
                0 <= i < ids.len() && #[trigger] ids[i] == first
                    && repository.runs[first].next_step(worker, now) is Some && forall|k: int|
                    0 <= k < i ==> repository.runs[#[trigger] ids[k]].next_step(
                        worker,
                        now,
                    ) is None;
            assert(ids.to_set().contains(ids[i]));
            assert(repository.runs.contains_key(first));
            law_claim_leases_the_step(repository, first, worker, lease_ms, now);
            assert forall|id: Seq<char>| #[trigger]
                repository.runs.contains_key(id) && text::text_below(id, first) implies repository.claim(
                id,
                worker,
                lease_ms,
                now,
            ).1 == Ok::<Option<StepClaimView>, RepositoryErrorView>(None) by {
                assert(ids.to_set().contains(id));
                let k = choose|k: int| 0 <= k < ids.len() && ids[k] == id;
                if k == i {
                    text::lemma_text_below_irreflexive(id);
                } else if i < k {
                    assert(text::text_below(ids[i], ids[k]));
                    text::lemma_text_below_transitive(id, first, id);
                    text::lemma_text_below_irreflexive(id);
                }
            }
        },
        None => {
            assert forall|id: Seq<char>| #[trigger]
                repository.runs.contains_key(id) implies repository.claim(
                id,
                worker,
                lease_ms,
                now,
            ).1 == Ok::<Option<StepClaimView>, RepositoryErrorView>(None) by {
                assert(ids.to_set().contains(id));
                let k = choose|k: int| 0 <= k < ids.len() && ids[k] == id;
                assert(repository.runs[ids[k]].next_step(worker, now) is None);
            }
        },
    }
}

} // verus!
