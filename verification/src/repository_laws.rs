//! What holds of every repository, whatever is done to it and in which order.
use crate::artifact::{self, ArtifactMetadataView, ArtifactRefView, StoredArtifactView};
use crate::error::RepositoryErrorView;
use crate::evaluation::{self, EvaluationGateView, MetricView};
use crate::event;
use crate::laws;
use crate::ordered;
use crate::policy::WorkerProfileView;
use crate::record::{
    EventEnvelopeView, ExecutionEventView, RunRecordView, RunRequestView, RunStatus, StepClaimView,
    StepCompletionView, StepStatus,
};
use crate::run_laws;
use crate::store::{self, RecoveryView, RepositoryView};
use crate::text;
use crate::transition;
use crate::workflow::StepSpecView;
use vstd::prelude::*;

verus! {

/// Something that workers and schedulers ask of a repository.
pub enum RequestView {
    Create(RunRequestView),
    Claim(Seq<char>, WorkerProfileView, u64),
    ClaimAny(WorkerProfileView, u64),
    Renew(StepClaimView, u64),
    Complete(StepClaimView, StepCompletionView),
    Record(Seq<char>, ExecutionEventView),
    Finish(Seq<char>, Seq<MetricView>),
    Cancel(Seq<char>),
    Recover,
}

impl RepositoryView {
    /// The repository after a request.
    pub open spec fn after(self, request: RequestView, now: u64) -> RepositoryView {
        match request {
            RequestView::Create(run) => self.create(run, now).0,
            RequestView::Claim(run_id, worker, lease_ms) => self.claim(
                run_id,
                worker,
                lease_ms,
                now,
            ).0,
            RequestView::ClaimAny(worker, lease_ms) => self.claim_any(worker, lease_ms, now).0,
            RequestView::Renew(claim, lease_ms) => self.renew(claim, lease_ms, now).0,
            RequestView::Complete(claim, completion) => self.complete(claim, completion, now).0,
            RequestView::Record(run_id, event) => self.record(run_id, event, now).0,
            RequestView::Finish(run_id, metrics) => self.finish(run_id, metrics, now).0,
            RequestView::Cancel(run_id) => self.cancel(run_id, now).0,
            RequestView::Recover => self.recover(now).repository,
        }
    }
}

/// The second log begins with the first.
pub open spec fn extends(before: Seq<EventEnvelopeView>, after: Seq<EventEnvelopeView>) -> bool {
    &&& before.len() <= after.len()
    &&& forall|i: int| 0 <= i < before.len() ==> #[trigger] after[i] == before[i]
}

/// The lease of a step was there before, or was given out under a token above the
/// given one, as far as numbers go.
pub open spec fn lease_has_origin(
    before: RunRecordView,
    after: RunRecordView,
    step: Seq<char>,
    token: u64,
) -> bool {
    let lease = after.steps[step].lease->0;
    ||| lease.token > token
    ||| lease.token == u64::MAX
    ||| {
        &&& before.steps.contains_key(step)
        &&& before.steps[step].lease is Some
        &&& before.steps[step].lease->0.worker == lease.worker
        &&& before.steps[step].lease->0.token == lease.token
    }
}

/// How a run moves on: what it was started with stays; its log and its revision grow;
/// no step is forgotten, no attempt undone and no fallback taken back; records are added
/// of steps of the workflow only, and no step exceeds the attempts that it is granted; and
/// leases come with tokens above the given one.
pub open spec fn moves_on(before: RunRecordView, after: RunRecordView, token: u64) -> bool {
    &&& after.schema_version == before.schema_version
    &&& after.run_id == before.run_id
    &&& after.workflow == before.workflow
    &&& after.manifest == before.manifest
    &&& after.input == before.input
    &&& after.idempotency_key == before.idempotency_key
    &&& after.created_at_ms == before.created_at_ms
    &&& after.revision >= before.revision
    &&& extends(before.event_log, after.event_log)
    &&& forall|step: Seq<char>| #[trigger]
        before.steps.contains_key(step) ==> {
            &&& after.steps.contains_key(step)
            &&& after.steps[step].attempts >= before.steps[step].attempts
            &&& before.steps[step].fallback_used ==> after.steps[step].fallback_used
        }
    &&& before.steps.dom().finite() ==> after.steps.dom().finite()
    &&& forall|step: Seq<char>| #[trigger]
        after.steps.contains_key(step) ==> before.steps.contains_key(step)
            || before.workflow.step_ids().contains(step)
    &&& before.workflow.step_ids().no_duplicates() && run_laws::keeps_budgets(before)
        ==> run_laws::keeps_budgets(after)
    &&& forall|step: Seq<char>| #[trigger]
        after.steps.contains_key(step) && after.steps[step].lease is Some ==> lease_has_origin(
            before,
            after,
            step,
            token,
        )
}

/// How a repository moves on: runs move on and are not forgotten, idempotency keys
/// keep standing for their runs, the log is added to at its end, and numbers and
/// tokens do not go back.
pub open spec fn follows(before: RepositoryView, after: RepositoryView) -> bool {
    &&& forall|id: Seq<char>| #[trigger]
        before.runs.contains_key(id) ==> after.runs.contains_key(id) && moves_on(
            before.runs[id],
            after.runs[id],
            before.next_lease_token,
        )
    &&& forall|key: Seq<char>| #[trigger]
        before.idempotency.contains_key(key) ==> after.idempotency.contains_key(key)
            && after.idempotency[key] == before.idempotency[key]
    &&& extends(before.events, after.events)
    &&& after.next_event_sequence >= before.next_event_sequence
    &&& after.next_lease_token >= before.next_lease_token
}

/// A log is numbered in order, from one on and up to the given number.
pub open spec fn in_order_up_to(log: Seq<EventEnvelopeView>, last: u64) -> bool {
    &&& store::numbered_in_order(log)
    &&& store::numbered_up_to(log, last)
    &&& forall|i: int| 0 <= i < log.len() ==> (#[trigger] log[i]).sequence > 0
}

/// The log of a run, if it is there, is numbered in order, up to the last number given
/// out.
pub open spec fn log_in_order(repository: RepositoryView, id: Seq<char>) -> bool {
    repository.runs.contains_key(id) ==> in_order_up_to(
        repository.runs[id].event_log,
        repository.next_event_sequence,
    )
}

/// The log of every run is numbered in order, up to the last number given out.
pub open spec fn logs_in_order(repository: RepositoryView) -> bool {
    forall|id: Seq<char>| #[trigger]
        repository.runs.contains_key(id) ==> log_in_order(repository, id)
}

/// What moves on twice has moved on.
pub proof fn lemma_moves_on_transitive(
    a: RunRecordView,
    b: RunRecordView,
    c: RunRecordView,
    low: u64,
    high: u64,
)
    requires
        moves_on(a, b, low),
        moves_on(b, c, high),
        low <= high,
    ensures
        moves_on(a, c, low),
{
    assert forall|step: Seq<char>| #[trigger]
        c.steps.contains_key(step) && c.steps[step].lease is Some implies lease_has_origin(
        a,
        c,
        step,
        low,
    ) by {
        assert(lease_has_origin(b, c, step, high));
        if b.steps.contains_key(step) && b.steps[step].lease is Some {
            assert(lease_has_origin(a, b, step, low));
        }
    }
    assert forall|step: Seq<char>| #[trigger] a.steps.contains_key(step) implies {
        &&& c.steps.contains_key(step)
        &&& c.steps[step].attempts >= a.steps[step].attempts
        &&& a.steps[step].fallback_used ==> c.steps[step].fallback_used
    } by {
        assert(b.steps.contains_key(step));
    }
    assert forall|i: int| 0 <= i < a.event_log.len() implies #[trigger] c.event_log[i]
        == a.event_log[i] by {
        assert(b.event_log[i] == a.event_log[i]);
    }
}

proof fn lemma_follows_transitive(a: RepositoryView, b: RepositoryView, c: RepositoryView)
    requires
        follows(a, b),
        follows(b, c),
    ensures
        follows(a, c),
{
    assert forall|id: Seq<char>| #[trigger] a.runs.contains_key(id) implies c.runs.contains_key(id)
        && moves_on(a.runs[id], c.runs[id], a.next_lease_token) by {
        assert(b.runs.contains_key(id));
        lemma_moves_on_transitive(
            a.runs[id],
            b.runs[id],
            c.runs[id],
            a.next_lease_token,
            b.next_lease_token,
        );
    }
    assert forall|key: Seq<char>| #[trigger] a.idempotency.contains_key(key) implies {
        &&& c.idempotency.contains_key(key)
        &&& c.idempotency[key] == a.idempotency[key]
    } by {
        assert(b.idempotency.contains_key(key));
    }
    assert forall|i: int| 0 <= i < a.events.len() implies #[trigger] c.events[i] == a.events[i] by {
        assert(b.events[i] == a.events[i]);
    }
}

/// A run that stays as it is moves on.
pub proof fn lemma_run_stays(run: RunRecordView, token: u64)
    ensures
        moves_on(run, run, token),
{
}

/// A run that has moved on and logs an event has moved on.
pub proof fn lemma_with_event_moves_on(
    before: RunRecordView,
    run: RunRecordView,
    event: ExecutionEventView,
    sequence: u64,
    now: u64,
    token: u64,
)
    requires
        moves_on(before, run, token),
    ensures
        moves_on(before, run.with_event(event, sequence, now), token),
{
    let after = run.with_event(event, sequence, now);
    assert forall|i: int| 0 <= i < before.event_log.len() implies #[trigger] after.event_log[i]
        == before.event_log[i] by {
        assert(run.event_log[i] == before.event_log[i]);
    }
    assert forall|step: Seq<char>| #[trigger]
        after.steps.contains_key(step) && after.steps[step].lease is Some implies lease_has_origin(
        before,
        after,
        step,
        token,
    ) by {
        assert(run.steps.contains_key(step));
        assert(lease_has_origin(before, run, step, token));
    }
    assert forall|step: Seq<char>| #[trigger] before.steps.contains_key(step) implies {
        &&& after.steps.contains_key(step)
        &&& after.steps[step].attempts >= before.steps[step].attempts
        &&& before.steps[step].fallback_used ==> after.steps[step].fallback_used
    } by {
        assert(run.steps.contains_key(step));
    }
}

/// A run moves on when a step of it is claimed.
pub proof fn lemma_claim_moves_on(
    run: RunRecordView,
    step: StepSpecView,
    worker: Seq<char>,
    token: u64,
    now: u64,
    lease_ms: u64,
    forget_delay: bool,
)
    requires
        run.workflow.steps.contains(step),
        run.steps.contains_key(step.id) ==> run.steps[step.id].available(
            step.policy.retry.budget(),
            now,
        ),
    ensures
        moves_on(
            run,
            run.with_claim(
                step,
                worker,
                event::successor(token),
                now,
                lease_ms,
                forget_delay,
            ),
            token,
        ),
{
    let after = run.with_claim(
        step,
        worker,
        event::successor(token),
        now,
        lease_ms,
        forget_delay,
    );
    assert forall|other: Seq<char>| #[trigger]
        after.steps.contains_key(other) && after.steps[other].lease is Some implies lease_has_origin(
        run,
        after,
        other,
        token,
    ) by {
        if other != step.id {
            assert(run.steps.contains_key(other));
        }
    }
    let steps = run.workflow.steps;
    let k = choose|k: int| 0 <= k < steps.len() && steps[k] == step;
    assert(run.workflow.step_ids()[k] == step.id);
    if run.workflow.step_ids().no_duplicates() && run_laws::keeps_budgets(run) {
        assert forall|i: int|
            0 <= i < steps.len() && after.steps.contains_key(
                (#[trigger] after.workflow.steps[i]).id,
            ) implies run_laws::within_budget(
            after.steps[steps[i].id],
            steps[i].policy.retry.budget(),
        ) by {
            assert(run.workflow.step_ids()[i] == steps[i].id);
            if run.steps.contains_key(steps[i].id) {
                assert(run_laws::within_budget(
                    run.steps[steps[i].id],
                    run.workflow.steps[i].policy.retry.budget(),
                ));
            }
        }
    }
}

/// A run moves on when a lease of it is renewed.
pub proof fn lemma_renewal_moves_on(
    run: RunRecordView,
    claim: StepClaimView,
    lease_ms: u64,
    now: u64,
    token: u64,
)
    requires
        run.honours(claim, now),
    ensures
        moves_on(run, run.with_renewal(claim, lease_ms, now), token),
{
    let after = run.with_renewal(claim, lease_ms, now);
    assert forall|other: Seq<char>| #[trigger]
        after.steps.contains_key(other) && after.steps[other].lease is Some implies lease_has_origin(
        run,
        after,
        other,
        token,
    ) by {
        assert(run.steps.contains_key(other));
    }
}

/// A run moves on when a completion is committed.
pub proof fn lemma_completion_moves_on(
    run: RunRecordView,
    claim: StepClaimView,
    completion: StepCompletionView,
    now: u64,
    token: u64,
)
    requires
        run.honours(claim, now),
    ensures
        moves_on(run, run.with_completion(claim, completion, now), token),
{
    let after = run.with_completion(claim, completion, now);
    assert forall|other: Seq<char>| #[trigger]
        after.steps.contains_key(other) && after.steps[other].lease is Some implies lease_has_origin(
        run,
        after,
        other,
        token,
    ) by {
        assert(run.steps.contains_key(other));
    }
}

/// A run moves on when a step of it is taken back.
pub proof fn lemma_recovery_moves_on(run: RunRecordView, step: StepSpecView, now: u64, token: u64)
    requires
        run.step_expired(step, now),
    ensures
        moves_on(run, run.with_recovery(step, now), token),
{
    let after = run.with_recovery(step, now);
    assert forall|other: Seq<char>| #[trigger]
        after.steps.contains_key(other) && after.steps[other].lease is Some implies lease_has_origin(
        run,
        after,
        other,
        token,
    ) by {
        assert(run.steps.contains_key(other));
    }
}

/// A run moves on when it is cancelled.
pub proof fn lemma_cancellation_moves_on(run: RunRecordView, now: u64, token: u64)
    ensures
        moves_on(run, run.with_cancellation(now), token),
{
    let after = run.with_cancellation(now);
    assert(after.steps.dom() =~= run.steps.dom());
    assert forall|other: Seq<char>| #[trigger]
        after.steps.contains_key(other) && after.steps[other].lease is Some implies lease_has_origin(
        run,
        after,
        other,
        token,
    ) by {
        assert(run.steps.contains_key(other));
        assert(after.steps[other] == run.steps[other].cancelled(now));
    }
    assert forall|other: Seq<char>| #[trigger] run.steps.contains_key(other) implies {
        &&& after.steps.contains_key(other)
        &&& after.steps[other].attempts >= run.steps[other].attempts
        &&& run.steps[other].fallback_used ==> after.steps[other].fallback_used
    } by {
        assert(after.steps[other] == run.steps[other].cancelled(now));
    }
}

/// A run moves on when its metrics come in.
pub proof fn lemma_settling_moves_on(run: RunRecordView, metrics: Seq<MetricView>, token: u64)
    ensures
        moves_on(run, run.settled(metrics), token),
{
    let after = run.settled(metrics);
    assert(after.steps == run.steps);
}

proof fn lemma_with_run_follows(repository: RepositoryView, run: RunRecordView)
    requires
        repository.runs.contains_key(run.run_id),
        moves_on(repository.runs[run.run_id], run, repository.next_lease_token),
    ensures
        follows(repository, repository.with_run(run)),
{
    let after = repository.with_run(run);
    assert forall|id: Seq<char>| #[trigger] repository.runs.contains_key(id) implies {
        &&& after.runs.contains_key(id)
        &&& moves_on(repository.runs[id], after.runs[id], repository.next_lease_token)
    } by {
        if id != run.run_id {
            lemma_run_stays(repository.runs[id], repository.next_lease_token);
        }
    }
}

proof fn lemma_with_logged_follows(
    repository: RepositoryView,
    run: RunRecordView,
    event: ExecutionEventView,
    now: u64,
)
    requires
        repository.runs.contains_key(run.run_id) ==> moves_on(
            repository.runs[run.run_id],
            run,
            repository.next_lease_token,
        ),
    ensures
        follows(repository, repository.with_logged(run, event, now)),
{
    let sequence = event::successor(repository.next_event_sequence);
    let after = repository.with_logged(run, event, now);
    assert forall|id: Seq<char>| #[trigger] repository.runs.contains_key(id) implies {
        &&& after.runs.contains_key(id)
        &&& moves_on(repository.runs[id], after.runs[id], repository.next_lease_token)
    } by {
        if id == run.run_id {
            lemma_with_event_moves_on(
                repository.runs[id],
                run,
                event,
                sequence,
                now,
                repository.next_lease_token,
            );
        } else {
            lemma_run_stays(repository.runs[id], repository.next_lease_token);
        }
    }
}

/// A repository moves on when a step is taken back.
pub proof fn lemma_recover_step_follows(
    recovery: RecoveryView,
    run_id: Seq<char>,
    step: StepSpecView,
    now: u64,
)
    requires
        recovery.repository.consistent(),
        recovery.repository.runs.contains_key(run_id),
    ensures
        follows(recovery.repository, recovery.recover_step(run_id, step, now).repository),
        recovery.recover_step(run_id, step, now).repository.consistent(),
        recovery.recover_step(run_id, step, now).repository.runs.dom()
            == recovery.repository.runs.dom(),
{
    let repository = recovery.repository;
    let run = repository.runs[run_id];
    if run.step_expired(step, now) {
        lemma_recovery_moves_on(run, step, now, repository.next_lease_token);
        lemma_with_logged_follows(
            repository,
            run.with_recovery(step, now),
            run.steps[step.id].recovery_event(run_id, step),
            now,
        );
        store::lemma_with_logged_consistent(
            repository,
            run.with_recovery(step, now),
            run.steps[step.id].recovery_event(run_id, step),
            now,
        );
    } else {
        lemma_repository_stays(repository);
    }
}

proof fn lemma_repository_stays(repository: RepositoryView)
    ensures
        follows(repository, repository),
{
    assert forall|id: Seq<char>| #[trigger] repository.runs.contains_key(id) implies moves_on(
        repository.runs[id],
        repository.runs[id],
        repository.next_lease_token,
    ) by {
        lemma_run_stays(repository.runs[id], repository.next_lease_token);
    }
}

/// A repository moves on when steps of a run are taken back.
pub proof fn lemma_recover_steps_follows(
    recovery: RecoveryView,
    run_id: Seq<char>,
    steps: Seq<StepSpecView>,
    now: u64,
)
    requires
        recovery.repository.consistent(),
        recovery.repository.runs.contains_key(run_id),
    ensures
        follows(recovery.repository, recovery.recover_steps(run_id, steps, now).repository),
        recovery.recover_steps(run_id, steps, now).repository.consistent(),
        recovery.recover_steps(run_id, steps, now).repository.runs.dom()
            == recovery.repository.runs.dom(),
    decreases steps.len(),
{
    if steps.len() == 0 {
        lemma_repository_stays(recovery.repository);
    } else {
        let next = recovery.recover_step(run_id, steps[0], now);
        lemma_recover_step_follows(recovery, run_id, steps[0], now);
        lemma_recover_steps_follows(next, run_id, steps.drop_first(), now);
        lemma_follows_transitive(
            recovery.repository,
            next.repository,
            recovery.recover_steps(run_id, steps, now).repository,
        );
    }
}

proof fn lemma_recover_runs_follows(recovery: RecoveryView, ids: Seq<Seq<char>>, now: u64)
    requires
        recovery.repository.consistent(),
        forall|i: int|
            0 <= i < ids.len() ==> recovery.repository.runs.contains_key(#[trigger] ids[i]),
    ensures
        follows(recovery.repository, recovery.recover_runs(ids, now).repository),
        recovery.recover_runs(ids, now).repository.consistent(),
        recovery.recover_runs(ids, now).repository.runs.dom() == recovery.repository.runs.dom(),
    decreases ids.len(),
{
    if ids.len() == 0 {
        lemma_repository_stays(recovery.repository);
    } else {
        let steps = recovery.repository.runs[ids[0]].workflow.steps;
        let next = recovery.recover_steps(ids[0], steps, now);
        lemma_recover_steps_follows(recovery, ids[0], steps, now);
        assert forall|i: int|
            0 <= i < ids.drop_first().len() implies next.repository.runs.contains_key(
            #[trigger] ids.drop_first()[i],
        ) by {
            assert(recovery.repository.runs.contains_key(ids[i + 1]));
        }
        lemma_recover_runs_follows(next, ids.drop_first(), now);
        lemma_follows_transitive(
            recovery.repository,
            next.repository,
            recovery.recover_runs(ids, now).repository,
        );
    }
}

/// The ids of the runs, in order, are those of runs that are there.
pub proof fn lemma_ids_are_there(repository: RepositoryView)
    requires
        repository.runs.dom().finite(),
    ensures
        forall|i: int|
            0 <= i < ordered::ascending(repository.runs.dom()).len()
                ==> repository.runs.contains_key(
                #[trigger] ordered::ascending(repository.runs.dom())[i],
            ),
        ordered::ascending(repository.runs.dom()).to_set() == repository.runs.dom(),
{
    ordered::lemma_ascending_of(repository.runs.dom());
    let ids = ordered::ascending(repository.runs.dom());
    assert forall|i: int| 0 <= i < ids.len() implies repository.runs.contains_key(
        #[trigger] ids[i],
    ) by {
        assert(ids.contains(ids[i]));
        assert(ids.to_set().contains(ids[i]));
    }
}

proof fn lemma_claim_follows(
    repository: RepositoryView,
    run_id: Seq<char>,
    worker: WorkerProfileView,
    lease_ms: u64,
    now: u64,
)
    requires
        repository.consistent(),
    ensures
        follows(repository, repository.claim(run_id, worker, lease_ms, now).0),
        repository.claim(run_id, worker, lease_ms, now).0.consistent(),
{
    lemma_repository_stays(repository);
    if repository.runs.contains_key(run_id) {
        let run = repository.runs[run_id];
        if let Some(step) = run.next_step(worker, now) {
            let token = repository.next_lease_token;
            let claimed = run.with_claim(
                step,
                worker.id,
                event::successor(token),
                now,
                lease_ms,
                false,
            );
            run_laws::law_claim_is_justified(run, worker, now);
            lemma_claim_moves_on(run, step, worker.id, token, now, lease_ms, false);
            lemma_with_run_follows(repository, claimed);
            store::lemma_with_run_consistent(repository, claimed);
        }
    }
}

/// Whatever workers and schedulers ask of a repository: no run is forgotten, and what a
/// run was started with stays; logs and revisions grow; no attempt is undone and no
/// fallback taken back; records are added of steps of the workflow only, and no step
/// exceeds the attempts that it is granted; leases come with tokens that were not given out
/// before; and numbers and tokens do not go back. The repository stays consistent.
pub proof fn law_repository_moves_on(repository: RepositoryView, request: RequestView, now: u64)
    requires
        repository.consistent(),
    ensures
        follows(repository, repository.after(request, now)),
        repository.after(request, now).consistent(),
{
    lemma_repository_stays(repository);
    match request {
        RequestView::Create(run) => {
            let fresh = RepositoryView::requested(run, now);
            let start = RepositoryView::start_of(run);
            if !repository.runs.contains_key(run.run_id) {
                lemma_with_logged_follows(repository, fresh, start, now);
            }
            store::lemma_with_logged_consistent(repository, fresh, start, now);
            let after = repository.after(request, now);
            let plain = repository.with_logged(fresh, start, now);
            if after != repository {
                assert(after.runs =~= plain.runs);
                assert(after.events =~= plain.events);
                assert forall|key: Seq<char>| #[trigger]
                    after.idempotency.contains_key(key) implies after.runs.contains_key(
                    after.idempotency[key],
                ) by {
                    if repository.idempotency.contains_key(key) {
                        assert(repository.runs.contains_key(repository.idempotency[key]));
                    }
                }
                assert forall|key: Seq<char>| #[trigger]
                    repository.idempotency.contains_key(key) implies {
                    &&& after.idempotency.contains_key(key)
                    &&& after.idempotency[key] == repository.idempotency[key]
                } by {}
            }
        },
        RequestView::Claim(run_id, worker, lease_ms) => {
            lemma_claim_follows(repository, run_id, worker, lease_ms, now);
        },
        RequestView::ClaimAny(worker, lease_ms) => {
            let first = repository.first_claimable(
                ordered::ascending(repository.runs.dom()),
                worker,
                now,
            );
            if let Some(run_id) = first {
                lemma_claim_follows(repository, run_id, worker, lease_ms, now);
            }
        },
        RequestView::Renew(claim, lease_ms) => {
            let run = repository.runs[claim.run_id];
            if repository.runs.contains_key(claim.run_id) && run.honours(claim, now) {
                let renewed = run.with_renewal(claim, lease_ms, now);
                lemma_renewal_moves_on(run, claim, lease_ms, now, repository.next_lease_token);
                lemma_with_run_follows(repository, renewed);
                store::lemma_with_run_consistent(repository, renewed);
            }
        },
        RequestView::Complete(claim, completion) => {
            let run = repository.runs[claim.run_id];
            if repository.runs.contains_key(claim.run_id) && run.completion_flaw(
                claim,
                completion,
                now,
            ) is None {
                let completed = run.with_completion(claim, completion, now);
                lemma_completion_moves_on(
                    run,
                    claim,
                    completion,
                    now,
                    repository.next_lease_token,
                );
                lemma_with_logged_follows(repository, completed, completion.event, now);
                store::lemma_with_logged_consistent(
                    repository,
                    completed,
                    completion.event,
                    now,
                );
            }
        },
        RequestView::Record(run_id, event) => {
            if repository.runs.contains_key(run_id) {
                let run = repository.runs[run_id];
                lemma_run_stays(run, repository.next_lease_token);
                lemma_with_logged_follows(repository, run, event, now);
                store::lemma_with_logged_consistent(repository, run, event, now);
            }
        },
        RequestView::Finish(run_id, metrics) => {
            if repository.runs.contains_key(run_id) {
                let settled = repository.runs[run_id].settled(metrics);
                let event = ExecutionEventView::RunFinished { run_id, status: settled.status };
                lemma_settling_moves_on(
                    repository.runs[run_id],
                    metrics,
                    repository.next_lease_token,
                );
                lemma_with_run_follows(repository, settled);
                store::lemma_with_run_consistent(repository, settled);
                lemma_with_logged_follows(repository, settled, event, now);
                store::lemma_with_logged_consistent(repository, settled, event, now);
            }
        },
        RequestView::Cancel(run_id) => {
            if repository.runs.contains_key(run_id) {
                let cancelled = repository.runs[run_id].with_cancellation(now);
                let event = ExecutionEventView::RunFinished {
                    run_id,
                    status: RunStatus::Cancelled,
                };
                lemma_cancellation_moves_on(
                    repository.runs[run_id],
                    now,
                    repository.next_lease_token,
                );
                lemma_with_logged_follows(repository, cancelled, event, now);
                store::lemma_with_logged_consistent(repository, cancelled, event, now);
            }
        },
        RequestView::Recover => {
            lemma_ids_are_there(repository);
            lemma_recover_runs_follows(
                RecoveryView { repository, expired: Seq::empty() },
                ordered::ascending(repository.runs.dom()),
                now,
            );
        },
    }
}

proof fn lemma_with_logged_log(
    repository: RepositoryView,
    id: Seq<char>,
    run: RunRecordView,
    event: ExecutionEventView,
    now: u64,
)
    requires
        log_in_order(repository, id),
        run.event_log.len() == 0 || (repository.runs.contains_key(run.run_id) && run.event_log
            == repository.runs[run.run_id].event_log),
    ensures
        log_in_order(repository.with_logged(run, event, now), id),
{
    let after = repository.with_logged(run, event, now);
    let log = after.runs[id].event_log;
    if id == run.run_id {
        assert forall|i: int, j: int| 0 <= i < j < log.len() implies (#[trigger] log[i]).sequence
            < (#[trigger] log[j]).sequence || log[j].sequence == u64::MAX by {
            assert(log[i] == run.event_log[i]);
            if j < run.event_log.len() {
                assert(log[j] == run.event_log[j]);
            }
        }
        assert forall|i: int| 0 <= i < log.len() implies 0 < (#[trigger] log[i]).sequence
            <= after.next_event_sequence by {
            if i < run.event_log.len() {
                assert(log[i] == run.event_log[i]);
            }
        }
    } else if repository.runs.contains_key(id) {
        assert forall|i: int| 0 <= i < log.len() implies (#[trigger] log[i]).sequence
            <= after.next_event_sequence by {
            assert(log[i].sequence <= repository.next_event_sequence);
        }
    }
}

proof fn lemma_recover_steps_log(
    recovery: RecoveryView,
    id: Seq<char>,
    run_id: Seq<char>,
    steps: Seq<StepSpecView>,
    now: u64,
)
    requires
        recovery.repository.consistent(),
        recovery.repository.runs.contains_key(run_id),
        log_in_order(recovery.repository, id),
    ensures
        log_in_order(recovery.recover_steps(run_id, steps, now).repository, id),
    decreases steps.len(),
{
    if steps.len() > 0 {
        let run = recovery.repository.runs[run_id];
        let next = recovery.recover_step(run_id, steps[0], now);
        if run.step_expired(steps[0], now) {
            lemma_with_logged_log(
                recovery.repository,
                id,
                run.with_recovery(steps[0], now),
                run.steps[steps[0].id].recovery_event(run_id, steps[0]),
                now,
            );
        }
        lemma_recover_step_follows(recovery, run_id, steps[0], now);
        lemma_recover_steps_log(next, id, run_id, steps.drop_first(), now);
    }
}

proof fn lemma_recover_runs_log(
    recovery: RecoveryView,
    id: Seq<char>,
    ids: Seq<Seq<char>>,
    now: u64,
)
    requires
        recovery.repository.consistent(),
        log_in_order(recovery.repository, id),
        forall|i: int|
            0 <= i < ids.len() ==> recovery.repository.runs.contains_key(#[trigger] ids[i]),
    ensures
        log_in_order(recovery.recover_runs(ids, now).repository, id),
    decreases ids.len(),
{
    if ids.len() > 0 {
        let steps = recovery.repository.runs[ids[0]].workflow.steps;
        let next = recovery.recover_steps(ids[0], steps, now);
        lemma_recover_steps_follows(recovery, ids[0], steps, now);
        lemma_recover_steps_log(recovery, id, ids[0], steps, now);
        assert forall|i: int|
            0 <= i < ids.drop_first().len() implies next.repository.runs.contains_key(
            #[trigger] ids.drop_first()[i],
        ) by {
            assert(recovery.repository.runs.contains_key(ids[i + 1]));
        }
        lemma_recover_runs_log(next, id, ids.drop_first(), now);
    }
}

/// Whatever workers and schedulers ask of a repository, the events of a run are numbered
/// in the order in which they were logged, if they were before or the run was not there:
/// whatever the logs of other runs are like.
pub proof fn law_log_stays_in_order(
    repository: RepositoryView,
    id: Seq<char>,
    request: RequestView,
    now: u64,
)
    requires
        repository.consistent(),
        log_in_order(repository, id),
    ensures
        log_in_order(repository.after(request, now), id),
{
    match request {
        RequestView::Create(run) => {
            let fresh = RepositoryView::requested(run, now);
            let start = RepositoryView::start_of(run);
            lemma_with_logged_log(repository, id, fresh, start, now);
            let after = repository.after(request, now);
            if after != repository {
                assert(after.runs =~= repository.with_logged(fresh, start, now).runs);
            }
        },
        RequestView::Complete(claim, completion) => {
            if repository.runs.contains_key(claim.run_id) {
                lemma_with_logged_log(
                    repository,
                    id,
                    repository.runs[claim.run_id].with_completion(claim, completion, now),
                    completion.event,
                    now,
                );
            }
        },
        RequestView::Record(run_id, event) => {
            if repository.runs.contains_key(run_id) {
                lemma_with_logged_log(repository, id, repository.runs[run_id], event, now);
            }
        },
        RequestView::Finish(run_id, metrics) => {
            if repository.runs.contains_key(run_id) {
                let settled = repository.runs[run_id].settled(metrics);
                lemma_with_logged_log(
                    repository,
                    id,
                    settled,
                    ExecutionEventView::RunFinished { run_id, status: settled.status },
                    now,
                );
            }
        },
        RequestView::Cancel(run_id) => {
            if repository.runs.contains_key(run_id) {
                lemma_with_logged_log(
                    repository,
                    id,
                    repository.runs[run_id].with_cancellation(now),
                    ExecutionEventView::RunFinished { run_id, status: RunStatus::Cancelled },
                    now,
                );
            }
        },
        RequestView::Recover => {
            lemma_ids_are_there(repository);
            lemma_recover_runs_log(
                RecoveryView { repository, expired: Seq::empty() },
                id,
                ordered::ascending(repository.runs.dom()),
                now,
            );
        },
        _ => {},
    }
}

/// Where the events of all runs are numbered in the order in which they were logged,
/// they stay so, whatever workers and schedulers ask of the repository.
pub proof fn law_logs_stay_in_order(repository: RepositoryView, request: RequestView, now: u64)
    requires
        repository.consistent(),
        logs_in_order(repository),
    ensures
        logs_in_order(repository.after(request, now)),
{
    let after = repository.after(request, now);
    assert forall|id: Seq<char>| #[trigger] after.runs.contains_key(id) implies log_in_order(
        after,
        id,
    ) by {
        assert(repository.runs.contains_key(id) ==> log_in_order(repository, id));
        law_log_stays_in_order(repository, id, request, now);
    }
}

/// Saving a run touches nothing but the record of that run: other runs, idempotency
/// keys, the log of all events, numbers and tokens stay. The repository stays
/// consistent.
pub proof fn law_save_touches_one_run(repository: RepositoryView, run: RunRecordView)
    requires
        repository.consistent(),
    ensures
        ({
            let after = repository.save(run).0;
            &&& after.consistent()
            &&& forall|id: Seq<char>|
                id != run.run_id ==> {
                    &&& #[trigger] after.runs.contains_key(id) == repository.runs.contains_key(id)
                    &&& after.runs[id] == repository.runs[id]
                }
            &&& after.idempotency == repository.idempotency
            &&& after.events == repository.events
            &&& after.next_event_sequence == repository.next_event_sequence
            &&& after.next_lease_token == repository.next_lease_token
        }),
{
    let after = repository.save(run).0;
    assert forall|key: Seq<char>| #[trigger]
        after.idempotency.contains_key(key) implies after.runs.contains_key(
        after.idempotency[key],
    ) by {
        assert(repository.idempotency.contains_key(key));
    }
}

/// Saving a run keeps the log of every other run in order, and that of the run itself
/// where the saved log is in order and goes no further than the numbers given out.
pub proof fn law_save_keeps_log_in_order(
    repository: RepositoryView,
    id: Seq<char>,
    run: RunRecordView,
)
    requires
        log_in_order(repository, id),
        run.run_id != id || in_order_up_to(run.event_log, repository.next_event_sequence),
    ensures
        log_in_order(repository.save(run).0, id),
{
}

/// Something that is done to a repository: what workers and schedulers ask, at a time,
/// and the saving of a record.
pub enum OperationView {
    Ask(RequestView, u64),
    Save(RunRecordView),
}

impl RepositoryView {
    /// The repository after some operations.
    pub open spec fn through(self, operations: Seq<OperationView>) -> RepositoryView
        decreases operations.len(),
    {
        if operations.len() == 0 {
            self
        } else {
            let before = self.through(operations.drop_last());
            match operations.last() {
                OperationView::Ask(request, now) => before.after(request, now),
                OperationView::Save(run) => before.save(run).0,
            }
        }
    }
}

/// No record was saved in the place of a run.
pub open spec fn never_saved(operations: Seq<OperationView>, id: Seq<char>) -> bool {
    forall|i: int|
        0 <= i < operations.len() ==> ((#[trigger] operations[i]) matches OperationView::Save(run)
            ==> run.run_id != id)
}

/// Whatever is done to a repository, saves included: it stays consistent, no run is
/// forgotten, and numbers and tokens do not go back.
pub proof fn law_counters_do_not_go_back(
    repository: RepositoryView,
    operations: Seq<OperationView>,
)
    requires
        repository.consistent(),
    ensures
        ({
            let after = repository.through(operations);
            &&& after.consistent()
            &&& after.next_event_sequence >= repository.next_event_sequence
            &&& after.next_lease_token >= repository.next_lease_token
            &&& forall|id: Seq<char>| #[trigger]
                repository.runs.contains_key(id) ==> after.runs.contains_key(id)
        }),
    decreases operations.len(),
{
    if operations.len() > 0 {
        let before = repository.through(operations.drop_last());
        law_counters_do_not_go_back(repository, operations.drop_last());
        match operations.last() {
            OperationView::Ask(request, now) => law_repository_moves_on(before, request, now),
            OperationView::Save(run) => law_save_touches_one_run(before, run),
        }
    }
}

/// Whatever was done to a repository that began empty, it is consistent.
pub proof fn law_repository_is_consistent(operations: Seq<OperationView>)
    ensures
        RepositoryView::empty().through(operations).consistent(),
{
    law_counters_do_not_go_back(RepositoryView::empty(), operations);
}

/// Whatever was done to a repository that began empty, the log of a run in whose place
/// no record was saved is numbered in the order in which its events were logged, whatever
/// else was saved.
pub proof fn law_log_of_created_run_is_in_order(operations: Seq<OperationView>, id: Seq<char>)
    requires
        never_saved(operations, id),
    ensures
        log_in_order(RepositoryView::empty().through(operations), id),
    decreases operations.len(),
{
    if operations.len() > 0 {
        let earlier = operations.drop_last();
        let before = RepositoryView::empty().through(earlier);
        assert forall|i: int| 0 <= i < earlier.len() implies ((
        #[trigger] earlier[i]) matches OperationView::Save(run) ==> run.run_id != id) by {
            assert(earlier[i] == operations[i]);
        }
        law_log_of_created_run_is_in_order(earlier, id);
        law_repository_is_consistent(earlier);
        assert(operations[operations.len() - 1] == operations.last());
        match operations.last() {
            OperationView::Ask(request, now) => law_log_stays_in_order(before, id, request, now),
            OperationView::Save(run) => law_save_keeps_log_in_order(before, id, run),
        }
    }
}

/// The workflow of a run has no flaw, and there are records of steps of the workflow
/// only.
pub open spec fn well_recorded(run: RunRecordView) -> bool {
    &&& run.workflow.flaw() is None
    &&& run.steps.dom().finite()
    &&& forall|step: Seq<char>| #[trigger]
        run.steps.contains_key(step) ==> run.workflow.step_ids().contains(step)
}

/// A run is there after a request only if it was there before or the request asks for
/// it; then its workflow has no flaw, and it has no record of a step.
proof fn lemma_runs_are_asked_for(
    repository: RepositoryView,
    id: Seq<char>,
    request: RequestView,
    now: u64,
)
    requires
        repository.consistent(),
        !repository.runs.contains_key(id),
        repository.after(request, now).runs.contains_key(id),
    ensures
        well_recorded(repository.after(request, now).runs[id]),
        repository.after(request, now).runs[id].steps.dom().is_empty(),
{
    if let RequestView::Recover = request {
        lemma_ids_are_there(repository);
        lemma_recover_runs_follows(
            RecoveryView { repository, expired: Seq::empty() },
            ordered::ascending(repository.runs.dom()),
            now,
        );
        assert(repository.after(request, now).runs.dom().contains(id));
    }
}

/// Whatever was done to a repository that began empty, a run in whose place no record was
/// saved has a workflow without a flaw, and records of steps of that workflow only.
pub proof fn law_created_run_is_well_recorded(operations: Seq<OperationView>, id: Seq<char>)
    requires
        never_saved(operations, id),
    ensures
        ({
            let repository = RepositoryView::empty().through(operations);
            repository.runs.contains_key(id) ==> well_recorded(repository.runs[id])
        }),
    decreases operations.len(),
{
    if operations.len() > 0 {
        let earlier = operations.drop_last();
        let before = RepositoryView::empty().through(earlier);
        let after = RepositoryView::empty().through(operations);
        assert forall|i: int| 0 <= i < earlier.len() implies ((
        #[trigger] earlier[i]) matches OperationView::Save(run) ==> run.run_id != id) by {
            assert(earlier[i] == operations[i]);
        }
        law_created_run_is_well_recorded(earlier, id);
        law_repository_is_consistent(earlier);
        assert(operations[operations.len() - 1] == operations.last());
        match operations.last() {
            OperationView::Ask(request, now) => {
                law_repository_moves_on(before, request, now);
                if after.runs.contains_key(id) && !before.runs.contains_key(id) {
                    lemma_runs_are_asked_for(before, id, request, now);
                }
            },
            OperationView::Save(run) => law_save_touches_one_run(before, run),
        }
    }
}

/// Whatever was done to a repository that began empty, no step of a run in whose place no
/// record was saved has made more attempts than its policy grants it, with one more for a
/// fallback that was selected; and every record is one of a step of the workflow.
pub proof fn law_created_run_keeps_budgets(operations: Seq<OperationView>, id: Seq<char>)
    requires
        never_saved(operations, id),
    ensures
        ({
            let repository = RepositoryView::empty().through(operations);
            let run = repository.runs[id];
            repository.runs.contains_key(id) ==> {
                &&& run_laws::keeps_budgets(run)
                &&& forall|step: Seq<char>| #[trigger]
                    run.steps.contains_key(step) ==> run.workflow.step_ids().contains(step)
            }
        }),
    decreases operations.len(),
{
    law_created_run_is_well_recorded(operations, id);
    if operations.len() > 0 {
        let earlier = operations.drop_last();
        let before = RepositoryView::empty().through(earlier);
        let after = RepositoryView::empty().through(operations);
        assert forall|i: int| 0 <= i < earlier.len() implies ((
        #[trigger] earlier[i]) matches OperationView::Save(run) ==> run.run_id != id) by {
            assert(earlier[i] == operations[i]);
        }
        law_created_run_keeps_budgets(earlier, id);
        law_created_run_is_well_recorded(earlier, id);
        law_repository_is_consistent(earlier);
        assert(operations[operations.len() - 1] == operations.last());
        match operations.last() {
            OperationView::Ask(request, now) => {
                law_repository_moves_on(before, request, now);
                if after.runs.contains_key(id) && !before.runs.contains_key(id) {
                    lemma_runs_are_asked_for(before, id, request, now);
                }
            },
            OperationView::Save(run) => law_save_touches_one_run(before, run),
        }
    }
}

/// Whatever was done to a repository that began empty, a run in whose place no record was
/// saved and that is not over comes to succeed, when its metrics come in, if and only if
/// every step of its workflow has succeeded and all of its gates have passed.
pub proof fn law_created_run_earns_success(
    operations: Seq<OperationView>,
    id: Seq<char>,
    metrics: Seq<MetricView>,
)
    requires
        never_saved(operations, id),
        RepositoryView::empty().through(operations).runs.contains_key(id),
        !transition::is_terminal(RepositoryView::empty().through(operations).runs[id].status),
    ensures
        ({
            let run = RepositoryView::empty().through(operations).runs[id];
            run.settled(metrics).status == RunStatus::Succeeded <==> (laws::all_steps_succeeded(
                run.workflow,
                run,
            ) && evaluation::all_passed(
                evaluation::decisions(run.manifest.evaluation_gates, metrics),
            ))
        }),
{
    let run = RepositoryView::empty().through(operations).runs[id];
    law_created_run_is_well_recorded(operations, id);
    if run.settled(metrics).status == RunStatus::Succeeded {
        laws::law_success_is_earned(run, metrics);
        assert forall|i: int| 0 <= i < run.workflow.steps.len() implies {
            &&& run.steps.contains_key((#[trigger] run.workflow.steps[i]).id)
            &&& run.steps[run.workflow.steps[i].id].status == StepStatus::Succeeded
        } by {
            laws::lemma_all_are_recorded(run, i);
        }
    }
    if laws::all_steps_succeeded(run.workflow, run) {
        let ids = run.workflow.step_ids();
        ids.unique_seq_to_set();
        assert forall|step: Seq<char>| ids.to_set().contains(step) implies run.steps.dom().contains(
            step,
        ) by {
            let k = choose|k: int| 0 <= k < ids.len() && ids[k] == step;
            assert(run.steps.contains_key(run.workflow.steps[k].id));
        }
        assert(run.steps.dom() =~= ids.to_set());
        let measured = run.measured(metrics);
        assert(measured.steps == run.steps);
        assert forall|step: Seq<char>| #[trigger] measured.steps.contains_key(step) implies
            measured.steps[step].status == StepStatus::Succeeded by {
            assert(run.steps.contains_key(step));
            let k = choose|k: int| 0 <= k < ids.len() && ids[k] == step;
            assert(run.workflow.steps[k].id == step);
        }
    }
}

/// Numbers grow along a log, each above all before it.
pub open spec fn strictly_numbered(log: Seq<EventEnvelopeView>) -> bool {
    forall|i: int, j: int|
        0 <= i < j < log.len() ==> (#[trigger] log[i]).sequence < (#[trigger] log[j]).sequence
}

/// Whatever was done to a repository that began empty, the events of a run in whose
/// place no record was saved are read in order, and may be read in parts. Asked for what
/// comes after number zero, the repository gives the whole log. Asked for what comes
/// after a number, it gives exactly the events with a number above it, in the order of
/// the log, by growing numbers; and these are the ones up to any later number, followed
/// by what it gives when asked for what comes after that one. Of a run that is not there
/// it says so.
pub proof fn law_events_are_read_in_order(
    operations: Seq<OperationView>,
    id: Seq<char>,
    n: u64,
    k: u64,
)
    requires
        never_saved(operations, id),
        n <= k,
    ensures
        ({
            let repository = RepositoryView::empty().through(operations);
            let log = repository.runs[id].event_log;
            if repository.runs.contains_key(id) {
                let part = repository.since(id, n)->Ok_0;
                let rest = repository.since(id, k)->Ok_0;
                &&& repository.since(id, n) is Ok
                &&& repository.since(id, k) is Ok
                &&& repository.since(id, 0) == Ok::<Seq<EventEnvelopeView>, RepositoryErrorView>(
                    log,
                )
                &&& part == log.filter(|envelope: EventEnvelopeView| envelope.sequence > n)
                &&& store::numbered_in_order(part)
                &&& repository.next_event_sequence < u64::MAX ==> strictly_numbered(part)
                &&& part == part.filter(|envelope: EventEnvelopeView| envelope.sequence <= k)
                    + rest
            } else {
                repository.since(id, n) == Err::<Seq<EventEnvelopeView>, RepositoryErrorView>(
                    RepositoryErrorView::RunNotFound { run: id },
                )
            }
        }),
{
    law_log_of_created_run_is_in_order(operations, id);
    let repository = RepositoryView::empty().through(operations);
    if repository.runs.contains_key(id) {
        let log = repository.runs[id].event_log;
        run_laws::lemma_filter_all(log, |envelope: EventEnvelopeView| envelope.sequence > 0);
        let from = run_laws::lemma_log_is_cut(log, n);
        let to = run_laws::lemma_log_is_cut(log, k);
        if to < from {
            assert(log[to].sequence <= n);
        }
        let (part, seen, rest) = (log.skip(from), log.subrange(from, to), log.skip(to));
        let early = |envelope: EventEnvelopeView| envelope.sequence <= k;
        assert(part =~= seen + rest);
        assert(repository.since(id, n) == Ok::<Seq<EventEnvelopeView>, RepositoryErrorView>(part));
        assert forall|i: int, j: int| 0 <= i < j < part.len() implies {
            &&& (#[trigger] part[i]).sequence < (#[trigger] part[j]).sequence || part[j].sequence
                == u64::MAX
            &&& part[j].sequence <= repository.next_event_sequence
        } by {
            assert(part[i] == log[from + i] && part[j] == log[from + j]);
        }
        run_laws::lemma_filter_all(seen, early);
        run_laws::lemma_filter_none(rest, early);
        Seq::filter_distributes_over_add(seen, rest, early);
        assert(seen + Seq::<EventEnvelopeView>::empty() =~= seen);
    }
}

/// Whether a step is not held under a claim, whatever the time.
pub open spec fn is_void(repository: RepositoryView, claim: StepClaimView) -> bool {
    let run = repository.runs[claim.run_id];
    let lease = run.steps[claim.step.id].lease;
    !(run.steps.contains_key(claim.step.id) && lease is Some && lease->0.worker == claim.worker
        && lease->0.token == claim.lease_token)
}

/// A claim that is void stays void, whatever workers and schedulers ask of the
/// repository: a worker that has lost its lease never gets it back.
pub proof fn law_void_claim_stays_void(
    repository: RepositoryView,
    claim: StepClaimView,
    request: RequestView,
    now: u64,
)
    requires
        repository.consistent(),
        repository.runs.contains_key(claim.run_id),
        is_void(repository, claim),
        claim.lease_token <= repository.next_lease_token,
        claim.lease_token < u64::MAX,
    ensures
        is_void(repository.after(request, now), claim),
{
    law_repository_moves_on(repository, request, now);
    let after = repository.after(request, now);
    let run = after.runs[claim.run_id];
    if run.steps.contains_key(claim.step.id) && run.steps[claim.step.id].lease is Some {
        assert(lease_has_origin(
            repository.runs[claim.run_id],
            run,
            claim.step.id,
            repository.next_lease_token,
        ));
    }
}

/// A claim that is void stays void, whatever is done to the repository afterwards, unless
/// a record is saved in the place of its run.
pub proof fn law_lost_claim_stays_lost(
    repository: RepositoryView,
    claim: StepClaimView,
    operations: Seq<OperationView>,
)
    requires
        repository.consistent(),
        repository.runs.contains_key(claim.run_id),
        is_void(repository, claim),
        claim.lease_token <= repository.next_lease_token,
        claim.lease_token < u64::MAX,
        never_saved(operations, claim.run_id),
    ensures
        is_void(repository.through(operations), claim),
    decreases operations.len(),
{
    if operations.len() > 0 {
        let earlier = operations.drop_last();
        let before = repository.through(earlier);
        assert forall|i: int| 0 <= i < earlier.len() implies ((
        #[trigger] earlier[i]) matches OperationView::Save(run) ==> run.run_id
            != claim.run_id) by {
            assert(earlier[i] == operations[i]);
        }
        law_lost_claim_stays_lost(repository, claim, earlier);
        law_counters_do_not_go_back(repository, earlier);
        assert(operations[operations.len() - 1] == operations.last());
        match operations.last() {
            OperationView::Ask(request, now) => {
                law_void_claim_stays_void(before, claim, request, now)
            },
            OperationView::Save(run) => law_save_touches_one_run(before, run),
        }
    }
}

/// A void claim, and one whose lease has run out, can neither be renewed nor completed:
/// the repository says that the lease is lost, and stays as it is.
pub proof fn law_stale_claim_is_refused(
    repository: RepositoryView,
    claim: StepClaimView,
    completion: StepCompletionView,
    lease_ms: u64,
    now: u64,
)
    requires
        repository.runs.contains_key(claim.run_id),
        is_void(repository, claim) || repository.runs[claim.run_id].steps[claim.step.id].expired(
            now,
        ),
    ensures
        ({
            let lost = RepositoryErrorView::LeaseLost { run: claim.run_id, step: claim.step.id };
            &&& repository.renew(claim, lease_ms, now) == (
                repository,
                Err::<(), RepositoryErrorView>(lost),
            )
            &&& repository.complete(claim, completion, now) == (
                repository,
                Err::<RunRecordView, RepositoryErrorView>(lost),
            )
        }),
{
}

/// A claim is completed at most once.
pub proof fn law_claim_is_completed_once(
    repository: RepositoryView,
    claim: StepClaimView,
    completion: StepCompletionView,
    now: u64,
)
    requires
        repository.consistent(),
        repository.complete(claim, completion, now).1 is Ok,
    ensures
        is_void(repository.complete(claim, completion, now).0, claim),
{
}

/// The result of a step and the event that tells of it are committed together.
pub proof fn law_result_and_event_are_committed_together(
    repository: RepositoryView,
    claim: StepClaimView,
    completion: StepCompletionView,
    now: u64,
)
    requires
        repository.consistent(),
        repository.complete(claim, completion, now).1 is Ok,
    ensures
        ({
            let after = repository.complete(claim, completion, now).0;
            let run = after.runs[claim.run_id];
            &&& run.steps[claim.step.id].status == completion.status
            &&& run.steps[claim.step.id].output == completion.output
            &&& run.event_log.last().event == completion.event
            &&& after.events.last() == run.event_log.last()
        }),
{
}

/// A token that was given out is not given out again, whatever is done to the repository
/// in the meantime, as far as numbers go.
pub proof fn law_tokens_are_not_reused(
    repository: RepositoryView,
    run_id: Seq<char>,
    worker: WorkerProfileView,
    lease_ms: u64,
    now: u64,
    operations: Seq<OperationView>,
    other_run: Seq<char>,
    other_worker: WorkerProfileView,
    other_lease_ms: u64,
    later_now: u64,
)
    requires
        repository.consistent(),
        ({
            let (claimed, first) = repository.claim(run_id, worker, lease_ms, now);
            let later = claimed.through(operations);
            let second = later.claim(other_run, other_worker, other_lease_ms, later_now).1;
            &&& first matches Ok(Some(_))
            &&& second matches Ok(Some(_))
            &&& later.next_lease_token < u64::MAX
        }),
    ensures
        ({
            let (claimed, first) = repository.claim(run_id, worker, lease_ms, now);
            let later = claimed.through(operations);
            let second = later.claim(other_run, other_worker, other_lease_ms, later_now).1;
            first->Ok_0->0.lease_token < second->Ok_0->0.lease_token
        }),
{
    lemma_claim_follows(repository, run_id, worker, lease_ms, now);
    law_counters_do_not_go_back(repository.claim(run_id, worker, lease_ms, now).0, operations);
}

/// A request that is refused leaves the repository as it is.
pub proof fn law_refusal_changes_nothing(
    repository: RepositoryView,
    request: RunRequestView,
    run_id: Seq<char>,
    worker: WorkerProfileView,
    lease_ms: u64,
    claim: StepClaimView,
    completion: StepCompletionView,
    event: ExecutionEventView,
    metrics: Seq<MetricView>,
    run: RunRecordView,
    now: u64,
)
    ensures
        repository.create(request, now).1 is Err ==> repository.create(request, now).0
            == repository,
        repository.claim(run_id, worker, lease_ms, now).1 is Err ==> repository.claim(
            run_id,
            worker,
            lease_ms,
            now,
        ).0 == repository,
        repository.claim_any(worker, lease_ms, now).1 is Err ==> repository.claim_any(
            worker,
            lease_ms,
            now,
        ).0 == repository,
        repository.renew(claim, lease_ms, now).1 is Err ==> repository.renew(
            claim,
            lease_ms,
            now,
        ).0 == repository,
        repository.complete(claim, completion, now).1 is Err ==> repository.complete(
            claim,
            completion,
            now,
        ).0 == repository,
        repository.record(run_id, event, now).1 is Err ==> repository.record(
            run_id,
            event,
            now,
        ).0 == repository,
        repository.finish(run_id, metrics, now).1 is Err ==> repository.finish(
            run_id,
            metrics,
            now,
        ).0 == repository,
        repository.cancel(run_id, now).1 is Err ==> repository.cancel(run_id, now).0
            == repository,
        repository.save(run).1 is Err ==> repository.save(run).0 == repository,
{
}

/// The thresholds of the gates are numbers.
pub open spec fn gates_are_numbers(gates: Seq<EvaluationGateView>) -> bool {
    forall|i: int| 0 <= i < gates.len() ==> !(#[trigger] gates[i]).threshold.not_a_number()
}

/// Asking again for a run with the same idempotency key and the same payload gives the
/// run that was created the first time, and changes nothing, whatever run id the
/// second request proposes.
pub proof fn law_creation_is_idempotent(
    repository: RepositoryView,
    request: RunRequestView,
    other_id: Seq<char>,
    now: u64,
    later: u64,
)
    requires
        repository.consistent(),
        request.idempotency_key is Some,
        repository.create(request, now).1 is Ok,
        gates_are_numbers(request.workflow.evaluation_gates),
        gates_are_numbers(request.manifest.evaluation_gates),
    ensures
        ({
            let (after, created) = repository.create(request, now);
            after.create(RunRequestView { run_id: other_id, ..request }, later) == (
                after,
                created,
            )
        }),
{
    let (after, created) = repository.create(request, now);
    let again = RunRequestView { run_id: other_id, ..request };
    assert(again.objection() == request.objection());
    assert(again.refusal() is None);
    let key = request.idempotency_key->0;
    if repository.keyed(request.idempotency_key) is None {
        assert(after.idempotency[key] == request.run_id);
        assert(after.keyed(again.idempotency_key) == Some(request.run_id));
        let run = after.runs[request.run_id];
        assert(run.workflow == request.workflow);
        assert(run.manifest == request.manifest);
        assert(run.input == request.input);
        assert(store::same_payload(run, again));
    }
}

/// A request with a known idempotency key and another payload is refused, and changes
/// nothing.
pub proof fn law_conflicting_request_is_refused(
    repository: RepositoryView,
    request: RunRequestView,
    now: u64,
)
    requires
        request.refusal() is None,
        repository.keyed(request.idempotency_key) is Some,
        !store::same_payload(
            repository.runs[repository.keyed(request.idempotency_key)->0],
            request,
        ),
    ensures
        repository.create(request, now) == (
            repository,
            Err::<RunRecordView, RepositoryErrorView>(
                RepositoryErrorView::IdempotencyConflict {
                    run: repository.keyed(request.idempotency_key)->0,
                },
            ),
        ),
{
}

/// Only requests for workflows without a flaw, with manifests that have all of their
/// tasks, are accepted.
pub proof fn law_accepted_workflow_is_valid(
    repository: RepositoryView,
    request: RunRequestView,
    now: u64,
)
    requires
        repository.create(request, now).1 is Ok,
    ensures
        request.workflow.flaw() is None,
        request.workflow.acyclic(),
        crate::validation::first_without_task(
            request.workflow.steps,
            request.manifest.tasks,
        ) is None,
{
}

/// No step of the list is held under a lease that has run out.
spec fn none_expired(run: RunRecordView, steps: Seq<StepSpecView>, now: u64) -> bool {
    forall|i: int| 0 <= i < steps.len() ==> !run.step_expired(#[trigger] steps[i], now)
}

proof fn lemma_recover_steps_clears(
    recovery: RecoveryView,
    run_id: Seq<char>,
    done: Seq<StepSpecView>,
    steps: Seq<StepSpecView>,
    now: u64,
)
    requires
        recovery.repository.consistent(),
        recovery.repository.runs.contains_key(run_id),
        none_expired(recovery.repository.runs[run_id], done, now),
    ensures
        ({
            let after = recovery.recover_steps(run_id, steps, now).repository;
            &&& after.runs.dom() == recovery.repository.runs.dom()
            &&& none_expired(after.runs[run_id], done + steps, now)
            &&& forall|id: Seq<char>|
                id != run_id && recovery.repository.runs.contains_key(id) ==> (
                #[trigger] after.runs[id]) == recovery.repository.runs[id]
        }),
    decreases steps.len(),
{
    if steps.len() == 0 {
        assert(done + steps =~= done);
    } else {
        let step = steps[0];
        let next = recovery.recover_step(run_id, step, now);
        let run = recovery.repository.runs[run_id];
        let more = done.push(step);
        lemma_recover_step_follows(recovery, run_id, step, now);
        assert(next.repository.runs.dom() =~= recovery.repository.runs.dom());
        assert(none_expired(next.repository.runs[run_id], more, now)) by {
            assert forall|i: int| 0 <= i < more.len() implies !next.repository.runs[
                run_id
            ].step_expired(#[trigger] more[i], now) by {
                if i < done.len() {
                    assert(!run.step_expired(done[i], now));
                }
            }
        }
        lemma_recover_steps_clears(next, run_id, more, steps.drop_first(), now);
        assert(more + steps.drop_first() =~= done + steps);
    }
}

proof fn lemma_recover_runs_clears(recovery: RecoveryView, ids: Seq<Seq<char>>, now: u64)
    requires
        recovery.repository.consistent(),
        ids.no_duplicates(),
        forall|i: int|
            0 <= i < ids.len() ==> recovery.repository.runs.contains_key(#[trigger] ids[i]),
    ensures
        ({
            let after = recovery.recover_runs(ids, now).repository;
            &&& after.runs.dom() == recovery.repository.runs.dom()
            &&& forall|i: int|
                0 <= i < ids.len() ==> none_expired(
                    after.runs[#[trigger] ids[i]],
                    recovery.repository.runs[ids[i]].workflow.steps,
                    now,
                )
            &&& forall|id: Seq<char>|
                !ids.contains(id) && recovery.repository.runs.contains_key(id) ==> (
                #[trigger] after.runs[id]) == recovery.repository.runs[id]
        }),
    decreases ids.len(),
{
    if ids.len() > 0 {
        let steps = recovery.repository.runs[ids[0]].workflow.steps;
        let next = recovery.recover_steps(ids[0], steps, now);
        let rest = ids.drop_first();
        lemma_recover_steps_follows(recovery, ids[0], steps, now);
        lemma_recover_steps_clears(recovery, ids[0], Seq::empty(), steps, now);
        assert(Seq::<StepSpecView>::empty() + steps =~= steps);
        assert forall|i: int| 0 <= i < rest.len() implies next.repository.runs.contains_key(
            #[trigger] rest[i],
        ) by {
            assert(recovery.repository.runs.contains_key(ids[i + 1]));
        }
        lemma_recover_runs_clears(next, rest, now);
        let after = recovery.recover_runs(ids, now).repository;
        assert(!rest.contains(ids[0])) by {
            if rest.contains(ids[0]) {
                let i = choose|i: int| 0 <= i < rest.len() && rest[i] == ids[0];
                assert(ids[i + 1] == ids[0]);
            }
        }
        assert(after.runs[ids[0]] == next.repository.runs[ids[0]]);
        assert forall|i: int| 0 <= i < ids.len() implies none_expired(
            after.runs[#[trigger] ids[i]],
            recovery.repository.runs[ids[i]].workflow.steps,
            now,
        ) by {
            if i > 0 {
                assert(rest[i - 1] == ids[i]);
                assert(ids[i] != ids[0]);
                assert(next.repository.runs[ids[i]] == recovery.repository.runs[ids[i]]);
            }
        }
        assert forall|id: Seq<char>|
            !ids.contains(id) && recovery.repository.runs.contains_key(id) implies (
        #[trigger] after.runs[id]) == recovery.repository.runs[id] by {
            assert(ids.contains(ids[0]));
            assert(!rest.contains(id)) by {
                if rest.contains(id) {
                    let i = choose|i: int| 0 <= i < rest.len() && rest[i] == id;
                    assert(ids[i + 1] == id);
                }
            }
            assert(next.repository.runs[id] == recovery.repository.runs[id]);
        }
    }
}

/// After a recovery no step of any workflow is held under a lease that has run out.
pub proof fn law_recovery_leaves_nothing_expired(
    repository: RepositoryView,
    now: u64,
    run_id: Seq<char>,
    i: int,
)
    requires
        repository.consistent(),
        repository.runs.contains_key(run_id),
        0 <= i < repository.runs[run_id].workflow.steps.len(),
    ensures
        ({
            let run = repository.recover(now).repository.runs[run_id];
            &&& run.workflow == repository.runs[run_id].workflow
            &&& !run.step_expired(run.workflow.steps[i], now)
        }),
{
    let ids = ordered::ascending(repository.runs.dom());
    ordered::lemma_ascending_of(repository.runs.dom());
    lemma_ids_are_there(repository);
    let start = RecoveryView { repository, expired: Seq::empty() };
    lemma_recover_runs_clears(start, ids, now);
    law_repository_moves_on(repository, RequestView::Recover, now);
    assert(ids.to_set().contains(run_id));
    let k = choose|k: int| 0 <= k < ids.len() && ids[k] == run_id;
    let run = repository.recover(now).repository.runs[run_id];
    assert(none_expired(run, repository.runs[ids[k]].workflow.steps, now));
}

/// A run that was cancelled is closed: nothing of it can be claimed, claims on it are
/// void but for those on steps that were done, and cancelling it again changes nothing.
pub proof fn law_cancelled_run_is_closed(
    repository: RepositoryView,
    run_id: Seq<char>,
    now: u64,
    worker: WorkerProfileView,
    claim: StepClaimView,
    later: u64,
)
    requires
        repository.consistent(),
        repository.runs.contains_key(run_id),
        !transition::is_terminal(repository.runs[run_id].status),
    ensures
        ({
            let (after, answer) = repository.cancel(run_id, now);
            let run = after.runs[run_id];
            &&& answer == Ok::<RunRecordView, RepositoryErrorView>(run)
            &&& run.status == RunStatus::Cancelled
            &&& run.next_step(worker, later) is None
            &&& after.cancel(run_id, later) == (after, answer)
            &&& claim.run_id == run_id && run.steps.contains_key(claim.step.id)
                && run.steps[claim.step.id].status == StepStatus::Cancelled ==> is_void(
                after,
                claim,
            )
        }),
{
    let (after, answer) = repository.cancel(run_id, now);
    let run = after.runs[run_id];
    let before = repository.runs[run_id];
    if claim.run_id == run_id && run.steps.contains_key(claim.step.id) {
        assert(run.steps[claim.step.id] == before.steps[claim.step.id].cancelled(now));
    }
}

/// A run that was saved is there to be loaded, as it was saved.
pub proof fn law_saved_run_is_loaded(repository: RepositoryView, run: RunRecordView)
    requires
        repository.save(run).1 is Ok,
    ensures
        repository.save(run).0.runs.contains_key(run.run_id),
        repository.save(run).0.runs[run.run_id] == run,
        run.schema_flaw() is None,
{
}

/// The bytes of an artifact that was put into a store are there to be read under the
/// reference that came back, whatever was in the store before.
pub proof fn law_artifact_is_read_back(
    before: Map<Seq<char>, StoredArtifactView>,
    bytes: Seq<u8>,
    metadata: ArtifactMetadataView,
)
    ensures
        ({
            let reference = ArtifactRefView::of(
                artifact::sha256_digest(bytes),
                bytes.len() as u64,
                metadata,
            );
            let after = before.insert(reference.id, StoredArtifactView { reference, bytes });
            artifact::bytes_for(after, reference) == Some(bytes)
        }),
{
}

/// A digest is written with two digits for each byte: figures, and letters from a to f in
/// lower case.
pub proof fn law_digest_is_written_in_hexadecimal(digest: Seq<u8>)
    ensures
        text::hex(digest).len() == 2 * digest.len(),
        forall|i: int|
            0 <= i < text::hex(digest).len() ==> {
                ||| '0' <= #[trigger] text::hex(digest)[i] <= '9'
                ||| 'a' <= text::hex(digest)[i] <= 'f'
            },
{
}

/// An artifact is not read under a reference with another digest.
pub proof fn law_artifact_with_another_digest_is_not_read(
    store: Map<Seq<char>, StoredArtifactView>,
    reference: ArtifactRefView,
)
    requires
        store.contains_key(reference.id),
        store[reference.id].reference.sha256 != reference.sha256,
    ensures
        artifact::bytes_for(store, reference) is None,
{
}

} // verus!
