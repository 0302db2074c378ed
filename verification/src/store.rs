//! The process-local repository: what it holds, and what each request makes of it.
use crate::clock::{self, now_ms};
use crate::claim::claim_step;
use crate::error::{AdapterError, AdapterErrorView, RepositoryError, RepositoryErrorView};
use crate::evaluation::{Metric, MetricView};
use crate::event::{
    self, event_belongs_to_run, event_is_valid_for_record, log_event, next_number, read_since,
};
use crate::ids::{IdempotencyKey, RunId, StepId};
use crate::json::{self, alike_json};
use crate::ordered::{self, OrderedMap};
use crate::policy::{WorkerProfile, WorkerProfileView};
use crate::record::{
    EventEnvelope, EventEnvelopeView, ExecutionEvent, ExecutionEventView, RunRecord, RunRecordView,
    RunRequest, RunRequestView, RunStatus, StepClaim, StepClaimView, StepCompletion,
    StepCompletionView,
};
use crate::transition::{
    self, cancel_steps, commit_completion, is_over, recover_step, renew_lease, settle_run,
};
use crate::validation::{validate_run_record_schema, validate_run_request};
use crate::views::{self, Same};
use crate::workflow::{StepSpec, StepSpecView};
use vstd::prelude::*;

verus! {

/// What a repository holds: the runs by their ids, the run that each idempotency
/// key stands for, all events in the order in which they were logged, and the last
/// event number and lease token that were given out.
#[verifier::ext_equal]
pub struct RepositoryView {
    pub runs: Map<Seq<char>, RunRecordView>,
    pub idempotency: Map<Seq<char>, Seq<char>>,
    pub events: Seq<EventEnvelopeView>,
    pub next_event_sequence: u64,
    pub next_lease_token: u64,
}

/// A repository in the course of a recovery, and what was recovered so far.
#[verifier::ext_equal]
pub struct RecoveryView {
    pub repository: RepositoryView,
    pub expired: Seq<(Seq<char>, Seq<char>)>,
}

/// Numbers grow along a log, as far as numbers go.
pub open spec fn numbered_in_order(log: Seq<EventEnvelopeView>) -> bool {
    forall|i: int, j: int|
        0 <= i < j < log.len() ==> (#[trigger] log[i]).sequence < (#[trigger] log[j]).sequence
            || log[j].sequence == u64::MAX
}

/// No number in a log is above the given one.
pub open spec fn numbered_up_to(log: Seq<EventEnvelopeView>, last: u64) -> bool {
    forall|i: int| 0 <= i < log.len() ==> (#[trigger] log[i]).sequence <= last
}

impl RepositoryView {
    /// A repository without runs.
    pub open spec fn empty() -> RepositoryView {
        RepositoryView {
            runs: Map::empty(),
            idempotency: Map::empty(),
            events: Seq::empty(),
            next_event_sequence: 0,
            next_lease_token: 0,
        }
    }

    /// There are finitely many runs, each is kept under its id, each idempotency key
    /// stands for a run that is there, and events are numbered in the order in which
    /// they were logged.
    pub open spec fn consistent(self) -> bool {
        &&& self.runs.dom().finite()
        &&& forall|id: Seq<char>| #[trigger]
            self.runs.contains_key(id) ==> self.runs[id].run_id == id
        &&& forall|key: Seq<char>| #[trigger]
            self.idempotency.contains_key(key) ==> self.runs.contains_key(self.idempotency[key])
        &&& numbered_in_order(self.events)
        &&& numbered_up_to(self.events, self.next_event_sequence)
    }

    /// The repository with another record in the place of a run.
    pub open spec fn with_run(self, run: RunRecordView) -> RepositoryView {
        RepositoryView { runs: self.runs.insert(run.run_id, run), ..self }
    }

    /// The repository with a record in the place of a run and an event logged to it.
    pub open spec fn with_logged(
        self,
        run: RunRecordView,
        event: ExecutionEventView,
        now: u64,
    ) -> RepositoryView {
        let sequence = event::successor(self.next_event_sequence);
        RepositoryView {
            runs: self.runs.insert(run.run_id, run.with_event(event, sequence, now)),
            events: self.events.push(EventEnvelopeView::of(run.run_id, sequence, now, event)),
            next_event_sequence: sequence,
            ..self
        }
    }

    /// Keeps a record that has the schema version in use.
    pub open spec fn save(self, run: RunRecordView) -> (
        RepositoryView,
        Result<(), AdapterErrorView>,
    ) {
        match run.schema_flaw() {
            Some(message) => (self, Err(AdapterErrorView { adapter: "memory"@, message })),
            None => (self.with_run(run), Ok(())),
        }
    }

    /// The run that an idempotency key stands for.
    pub open spec fn keyed(self, key: Option<Seq<char>>) -> Option<Seq<char>> {
        if key is Some && self.idempotency.contains_key(key->0) {
            Some(self.idempotency[key->0])
        } else {
            None
        }
    }

    /// The run that a request asks for, before its start is logged.
    pub open spec fn requested(request: RunRequestView, now: u64) -> RunRecordView {
        RunRecordView {
            status: RunStatus::Running,
            idempotency_key: request.idempotency_key,
            ..RunRecordView::fresh(
                request.run_id,
                request.workflow,
                request.manifest,
                request.input,
                now,
            )
        }
    }

    /// The event that tells of the start of a run.
    pub open spec fn start_of(request: RunRequestView) -> ExecutionEventView {
        ExecutionEventView::RunStarted {
            run_id: request.run_id,
            workflow_id: request.workflow.id,
        }
    }

    /// Creates a run. A request whose idempotency key is known is answered with the
    /// run that the key stands for, if it asks for the same, and refused if it does
    /// not.
    pub open spec fn create(self, request: RunRequestView, now: u64) -> (
        RepositoryView,
        Result<RunRecordView, RepositoryErrorView>,
    ) {
        match request.refusal() {
            Some(error) => (self, Err(error)),
            None => match self.keyed(request.idempotency_key) {
                Some(known) => if same_payload(self.runs[known], request) {
                    (self, Ok(self.runs[known]))
                } else {
                    (self, Err(RepositoryErrorView::IdempotencyConflict { run: known }))
                },
                None => if self.runs.contains_key(request.run_id) {
                    (self, Err(RepositoryErrorView::Conflict { run: request.run_id }))
                } else {
                    let keyed = RepositoryView {
                        idempotency: match request.idempotency_key {
                            Some(key) => self.idempotency.insert(key, request.run_id),
                            None => self.idempotency,
                        },
                        ..self
                    };
                    let created = keyed.with_logged(
                        RepositoryView::requested(request, now),
                        RepositoryView::start_of(request),
                        now,
                    );
                    (created, Ok(created.runs[request.run_id]))
                },
            },
        }
    }

    /// Lets a worker claim the next step of a run.
    pub open spec fn claim(
        self,
        run_id: Seq<char>,
        worker: WorkerProfileView,
        lease_ms: u64,
        now: u64,
    ) -> (RepositoryView, Result<Option<StepClaimView>, RepositoryErrorView>) {
        if !self.runs.contains_key(run_id) {
            (self, Err(RepositoryErrorView::RunNotFound { run: run_id }))
        } else {
            match self.runs[run_id].next_step(worker, now) {
                None => (self, Ok(None)),
                Some(step) => {
                    let token = event::successor(self.next_lease_token);
                    let run = self.runs[run_id].with_claim(
                        step,
                        worker.id,
                        token,
                        now,
                        lease_ms,
                        false,
                    );
                    (
                        RepositoryView { next_lease_token: token, ..self.with_run(run) },
                        Ok(Some(self.runs[run_id].claim_for(step, worker.id, token))),
                    )
                },
            }
        }
    }

    /// The first run of a list that has a step which a worker may claim now.
    pub open spec fn first_claimable(
        self,
        ids: Seq<Seq<char>>,
        worker: WorkerProfileView,
        now: u64,
    ) -> Option<Seq<char>>
        decreases ids.len(),
    {
        if ids.len() == 0 {
            None
        } else if self.runs[ids[0]].next_step(worker, now) is Some {
            Some(ids[0])
        } else {
            self.first_claimable(ids.drop_first(), worker, now)
        }
    }

    /// Lets a worker claim the next step of the first run, in the order of their
    /// ids, that has one for it.
    pub open spec fn claim_any(self, worker: WorkerProfileView, lease_ms: u64, now: u64) -> (
        RepositoryView,
        Result<Option<StepClaimView>, RepositoryErrorView>,
    ) {
        match self.first_claimable(ordered::ascending(self.runs.dom()), worker, now) {
            Some(run_id) => self.claim(run_id, worker, lease_ms, now),
            None => (self, Ok(None)),
        }
    }

    /// Extends the lease of a claim.
    pub open spec fn renew(self, claim: StepClaimView, lease_ms: u64, now: u64) -> (
        RepositoryView,
        Result<(), RepositoryErrorView>,
    ) {
        if !self.runs.contains_key(claim.run_id) {
            (self, Err(RepositoryErrorView::RunNotFound { run: claim.run_id }))
        } else if !self.runs[claim.run_id].honours(claim, now) {
            (
                self,
                Err(RepositoryErrorView::LeaseLost { run: claim.run_id, step: claim.step.id }),
            )
        } else {
            (self.with_run(self.runs[claim.run_id].with_renewal(claim, lease_ms, now)), Ok(()))
        }
    }

    /// Commits the completion of a claimed step together with its event.
    pub open spec fn complete(
        self,
        claim: StepClaimView,
        completion: StepCompletionView,
        now: u64,
    ) -> (RepositoryView, Result<RunRecordView, RepositoryErrorView>) {
        if !self.runs.contains_key(claim.run_id) {
            (self, Err(RepositoryErrorView::RunNotFound { run: claim.run_id }))
        } else {
            match self.runs[claim.run_id].completion_flaw(claim, completion, now) {
                Some(error) => (self, Err(error)),
                None => {
                    let committed = self.with_logged(
                        self.runs[claim.run_id].with_completion(claim, completion, now),
                        completion.event,
                        now,
                    );
                    (committed, Ok(committed.runs[claim.run_id]))
                },
            }
        }
    }

    /// Logs an event that is in place.
    pub open spec fn record(self, run_id: Seq<char>, event: ExecutionEventView, now: u64) -> (
        RepositoryView,
        Result<EventEnvelopeView, RepositoryErrorView>,
    ) {
        if !self.runs.contains_key(run_id) {
            (self, Err(RepositoryErrorView::RunNotFound { run: run_id }))
        } else if !self.runs[run_id].admits_event(event) {
            (self, Err(RepositoryErrorView::InvalidEvent { run: run_id }))
        } else {
            let logged = self.with_logged(self.runs[run_id], event, now);
            (logged, Ok(logged.events.last()))
        }
    }

    /// Lets the metrics of a run in, and ends the run if it can be ended.
    pub open spec fn finish(self, run_id: Seq<char>, metrics: Seq<MetricView>, now: u64) -> (
        RepositoryView,
        Result<RunRecordView, RepositoryErrorView>,
    ) {
        if !self.runs.contains_key(run_id) {
            (self, Err(RepositoryErrorView::RunNotFound { run: run_id }))
        } else {
            let settled = self.runs[run_id].settled(metrics);
            let finished = if settled.status == self.runs[run_id].status {
                self.with_run(settled)
            } else {
                self.with_logged(
                    settled,
                    ExecutionEventView::RunFinished { run_id, status: settled.status },
                    now,
                )
            };
            (finished, Ok(finished.runs[run_id]))
        }
    }

    /// Cancels a run that is not over.
    pub open spec fn cancel(self, run_id: Seq<char>, now: u64) -> (
        RepositoryView,
        Result<RunRecordView, RepositoryErrorView>,
    ) {
        if !self.runs.contains_key(run_id) {
            (self, Err(RepositoryErrorView::RunNotFound { run: run_id }))
        } else if transition::is_terminal(self.runs[run_id].status) {
            (self, Ok(self.runs[run_id]))
        } else {
            let cancelled = self.with_logged(
                self.runs[run_id].with_cancellation(now),
                ExecutionEventView::RunFinished { run_id, status: RunStatus::Cancelled },
                now,
            );
            (cancelled, Ok(cancelled.runs[run_id]))
        }
    }

    /// The part of a run's log that comes after a sequence number.
    pub open spec fn since(self, run_id: Seq<char>, sequence: u64) -> Result<
        Seq<EventEnvelopeView>,
        RepositoryErrorView,
    > {
        if self.runs.contains_key(run_id) {
            Ok(event::logged_since(self.runs[run_id].event_log, sequence))
        } else {
            Err(RepositoryErrorView::RunNotFound { run: run_id })
        }
    }
}

/// Whether a run was asked for with what a request asks for.
pub open spec fn same_payload(run: RunRecordView, request: RunRequestView) -> bool {
    &&& run.workflow.equals(request.workflow)
    &&& run.manifest.equals(request.manifest)
    &&& json::json_alike(run.input, request.input)
}

impl RecoveryView {
    /// Takes one step of a run back, if its lease ran out.
    pub open spec fn recover_step(
        self,
        run_id: Seq<char>,
        step: StepSpecView,
        now: u64,
    ) -> RecoveryView {
        let run = self.repository.runs[run_id];
        if run.step_expired(step, now) {
            RecoveryView {
                repository: self.repository.with_logged(
                    run.with_recovery(step, now),
                    run.steps[step.id].recovery_event(run_id, step),
                    now,
                ),
                expired: self.expired.push((run_id, step.id)),
            }
        } else {
            self
        }
    }

    /// Takes steps of a run back, one after the other.
    pub open spec fn recover_steps(
        self,
        run_id: Seq<char>,
        steps: Seq<StepSpecView>,
        now: u64,
    ) -> RecoveryView
        decreases steps.len(),
    {
        if steps.len() == 0 {
            self
        } else {
            self.recover_step(run_id, steps[0], now).recover_steps(
                run_id,
                steps.drop_first(),
                now,
            )
        }
    }

    /// Takes steps of runs back, one run after the other.
    pub open spec fn recover_runs(self, ids: Seq<Seq<char>>, now: u64) -> RecoveryView
        decreases ids.len(),
    {
        if ids.len() == 0 {
            self
        } else {
            self.recover_steps(
                ids[0],
                self.repository.runs[ids[0]].workflow.steps,
                now,
            ).recover_runs(ids.drop_first(), now)
        }
    }
}

impl RepositoryView {
    /// Takes back every step whose lease ran out, in the order of the runs' ids and
    /// of the steps in their workflows.
    pub open spec fn recover(self, now: u64) -> RecoveryView {
        (RecoveryView { repository: self, expired: Seq::empty() }).recover_runs(
            ordered::ascending(self.runs.dom()),
            now,
        )
    }
}

/// What a repository holds while it is at work.
struct RepositoryState {
    runs: OrderedMap<RunId, RunRecord>,
    idempotency: OrderedMap<IdempotencyKey, RunId>,
    events: Vec<EventEnvelope>,
    next_event_sequence: u64,
    next_lease_token: u64,
}

impl View for RepositoryState {
    type V = RepositoryView;

    closed spec fn view(&self) -> RepositoryView {
        RepositoryView {
            runs: views::map_views(self.runs@),
            idempotency: views::map_views(self.idempotency@),
            events: views::all_views(self.events@),
            next_event_sequence: self.next_event_sequence,
            next_lease_token: self.next_lease_token,
        }
    }
}

/// A repository stays consistent when a run is replaced.
pub proof fn lemma_with_run_consistent(repository: RepositoryView, run: RunRecordView)
    requires
        repository.consistent(),
    ensures
        repository.with_run(run).consistent(),
{
}

/// A repository stays consistent when a run is replaced and an event logged.
pub proof fn lemma_with_logged_consistent(
    repository: RepositoryView,
    run: RunRecordView,
    event: ExecutionEventView,
    now: u64,
)
    requires
        repository.consistent(),
    ensures
        repository.with_logged(run, event, now).consistent(),
{
    let after = repository.with_logged(run, event, now);
    assert forall|i: int, j: int| 0 <= i < j < after.events.len() implies (
    #[trigger] after.events[i]).sequence < (#[trigger] after.events[j]).sequence
        || after.events[j].sequence == u64::MAX by {
        if j < repository.events.len() {
            assert(after.events[i] == repository.events[i]);
            assert(after.events[j] == repository.events[j]);
        } else {
            assert(after.events[i] == repository.events[i]);
            assert(repository.events[i].sequence <= repository.next_event_sequence);
        }
    }
    assert forall|i: int| 0 <= i < after.events.len() implies (
    #[trigger] after.events[i]).sequence <= after.next_event_sequence by {
        if i < repository.events.len() {
            assert(after.events[i] == repository.events[i]);
        }
    }
}

/// What is taken out and put back is as if it had never been gone.
proof fn lemma_put_back<T>(map: Map<Seq<char>, T>, key: Seq<char>, item: T)
    ensures
        map.remove(key).insert(key, item) == map.insert(key, item),
        map.contains_key(key) && map[key] == item ==> map.insert(key, item) == map,
{
    assert(map.remove(key).insert(key, item) =~= map.insert(key, item));
    if map.contains_key(key) && map[key] == item {
        assert(map.insert(key, item) =~= map);
    }
}

impl RepositoryState {
    fn new() -> (state: Self)
        ensures
            state@ == RepositoryView::empty(),
            state@.consistent(),
    {
        let state = RepositoryState {
            runs: OrderedMap::new(),
            idempotency: OrderedMap::new(),
            events: Vec::new(),
            next_event_sequence: 0,
            next_lease_token: 0,
        };
        assert(state@ =~= RepositoryView::empty());
        state
    }

    /// Takes a run out, to be put back.
    fn take_run(&mut self, run_id: &RunId) -> (taken: Result<RunRecord, RepositoryError>)
        ensures
            match taken {
                Ok(run) => {
                    &&& old(self)@.runs.contains_key(run_id@)
                    &&& run@ == old(self)@.runs[run_id@]
                    &&& final(self)@ == (RepositoryView {
                        runs: old(self)@.runs.remove(run_id@),
                        ..old(self)@
                    })
                },
                Err(error) => {
                    &&& !old(self)@.runs.contains_key(run_id@)
                    &&& final(self)@ == old(self)@
                    &&& error@ == (RepositoryErrorView::RunNotFound { run: run_id@ })
                },
            },
    {
        let ghost before = self@;
        proof {
            views::lemma_map_views_remove(self.runs@, run_id@);
        }
        match self.runs.remove(run_id) {
            Some(run) => Ok(run),
            None => {
                assert(self@ =~= before);
                Err(RepositoryError::RunNotFound { run: run_id.clone() })
            },
        }
    }

    /// Puts a run in, under its id.
    fn put_run(&mut self, run: RunRecord)
        ensures
            final(self)@ == old(self)@.with_run(run@),
    {
        proof {
            views::lemma_map_views_insert(self.runs@, run@.run_id, run);
        }
        self.runs.insert(run.run_id.clone(), run);
    }

    /// Logs an event to a run and puts the run in, under its id.
    fn log_run(&mut self, run: RunRecord, event: ExecutionEvent, now: u64) -> (envelope:
        EventEnvelope)
        ensures
            final(self)@ == old(self)@.with_logged(run@, event@, now),
            envelope@ == final(self)@.events.last(),
    {
        let ghost before = self@;
        let ghost events_before = self.events@;
        let mut run = run;
        self.next_event_sequence = next_number(self.next_event_sequence);
        let envelope = log_event(&mut run, event, self.next_event_sequence, now);
        self.events.push(envelope.clone());
        self.put_run(run);
        assert(self@.events =~= before.events.push(envelope@));
        envelope
    }

    /// Reads a run that is there.
    fn read_run(&self, run_id: &RunId) -> (read: Result<RunRecord, RepositoryError>)
        requires
            self@.runs.contains_key(run_id@),
        ensures
            views::outcome_view(read) == Ok::<RunRecordView, RepositoryErrorView>(
                self@.runs[run_id@],
            ),
    {
        match self.runs.get(run_id) {
            Some(run) => Ok(run.clone()),
            None => Err(RepositoryError::RunNotFound { run: run_id.clone() }),
        }
    }

    fn save(&mut self, run: &RunRecord) -> (outcome: Result<(), AdapterError>)
        requires
            old(self)@.consistent(),
        ensures
            final(self)@.consistent(),
            (final(self)@, views::plain_outcome(outcome)) == old(self)@.save(run@),
    {
        match validate_run_record_schema(run) {
            Ok(()) => {
                proof {
                    lemma_with_run_consistent(self@, run@);
                }
                self.put_run(run.clone());
                Ok(())
            },
            Err(message) => Err(AdapterError::new("memory", message)),
        }
    }

    fn create_run(&mut self, request: RunRequest, now: u64) -> (outcome: Result<
        RunRecord,
        RepositoryError,
    >)
        requires
            old(self)@.consistent(),
        ensures
            final(self)@.consistent(),
            (final(self)@, views::outcome_view(outcome)) == old(self)@.create(request@, now),
    {
        match validate_run_request(&request) {
            Ok(()) => {},
            Err(error) => {
                return Err(error);
            },
        }
        if let Some(key) = &request.idempotency_key {
            if let Some(known) = self.idempotency.get(key) {
                assert(self@.idempotency.contains_key(key@));
                assert(self@.idempotency[key@] == known@);
                return match self.runs.get(known) {
                    Some(existing) => if existing.workflow.same(&request.workflow)
                        && existing.manifest.same(&request.manifest) && alike_json(
                        &existing.input,
                        &request.input,
                    ) {
                        Ok(existing.clone())
                    } else {
                        Err(RepositoryError::IdempotencyConflict { run: known.clone() })
                    },
                    None => Err(RepositoryError::Conflict { run: known.clone() }),
                };
            }
        }
        if self.runs.contains_key(&request.run_id) {
            return Err(RepositoryError::Conflict { run: request.run_id });
        }
        let ghost before = self@;
        let event = ExecutionEvent::RunStarted {
            run_id: request.run_id.clone(),
            workflow_id: request.workflow.id.clone(),
        };
        if let Some(key) = &request.idempotency_key {
            proof {
                views::lemma_map_views_insert(self.idempotency@, key@, request.run_id);
            }
            self.idempotency.insert(key.clone(), request.run_id.clone());
        }
        let mut run = RunRecord::new_at(
            request.run_id,
            request.workflow,
            request.manifest,
            request.input,
            now,
        );
        run.status = RunStatus::Running;
        run.idempotency_key = request.idempotency_key;
        proof {
            let fresh = RepositoryView::requested(request@, now);
            assert(run@ == fresh);
            lemma_with_logged_consistent(before, fresh, event@, now);
            lemma_put_back(before.runs, request@.run_id, fresh);
        }
        let ghost keyed = self@;
        let run_id = run.run_id.clone();
        self.log_run(run, event, now);
        proof {
            let after = before.create(request@, now).0;
            assert(self@ =~= after);
            assert(self@.consistent());
        }
        self.read_run(&run_id)
    }

    fn claim_next_step(&mut self, run_id: &RunId, worker: &WorkerProfile, lease_ms: u64, now: u64) -> (
    outcome: Result<Option<StepClaim>, RepositoryError>)
        requires
            old(self)@.consistent(),
        ensures
            final(self)@.consistent(),
            (final(self)@, views::some_outcome(outcome)) == old(self)@.claim(
                run_id@,
                worker@,
                lease_ms,
                now,
            ),
    {
        let ghost before = self@;
        let mut run = match self.take_run(run_id) {
            Ok(run) => run,
            Err(error) => {
                return Err(error);
            },
        };
        let token = next_number(self.next_lease_token);
        let claimed = claim_step(&mut run, worker, lease_ms, now, token, false);
        if claimed.is_some() {
            self.next_lease_token = token;
        }
        proof {
            lemma_with_run_consistent(before, run@);
            lemma_put_back(before.runs, run_id@, run@);
        }
        self.put_run(run);
        assert(self@ =~= before.claim(run_id@, worker@, lease_ms, now).0);
        Ok(claimed)
    }

    fn claim_next_runnable_step(&mut self, worker: &WorkerProfile, lease_ms: u64, now: u64) -> (
    outcome: Result<Option<StepClaim>, RepositoryError>)
        requires
            old(self)@.consistent(),
        ensures
            final(self)@.consistent(),
            (final(self)@, views::some_outcome(outcome)) == old(self)@.claim_any(
                worker@,
                lease_ms,
                now,
            ),
    {
        let count = self.runs.len();
        let ghost ids = ordered::ascending(self@.runs.dom());
        let mut i: usize = 0;
        assert(self@.runs.dom() =~= self.runs@.dom());
        assert(ids.skip(0) =~= ids);
        while i < count
            invariant
                i <= count,
                self@ == old(self)@,
                self@.consistent(),
                self@.runs.dom() == self.runs@.dom(),
                ids == ordered::ascending(self@.runs.dom()),
                ids.to_set() == self@.runs.dom(),
                count == ids.len(),
                count == self.runs@.len(),
                self@.first_claimable(ids, worker@, now) == self@.first_claimable(
                    ids.skip(i as int),
                    worker@,
                    now,
                ),
            decreases count - i,
        {
            let run_id = self.runs.key_at(i).clone();
            proof {
                assert(ids.skip(i as int)[0] == ids[i as int]);
                assert(ids.skip(i as int).drop_first() =~= ids.skip(i + 1));
                assert(ids.contains(ids[i as int]));
                assert(self@.runs.dom().contains(run_id@));
            }
            match self.claim_next_step(&run_id, worker, lease_ms, now) {
                Ok(Some(claim)) => {
                    return Ok(Some(claim));
                },
                Ok(None) => {},
                Err(error) => {
                    return Err(error);
                },
            }
            proof {
                assert(self@.runs.dom() =~= self.runs@.dom());
                assert(self.runs@.len() == self@.runs.len());
            }
            i += 1;
        }
        Ok(None)
    }

    fn renew_step(&mut self, claim: &StepClaim, lease_ms: u64, now: u64) -> (outcome: Result<
        (),
        RepositoryError,
    >)
        requires
            old(self)@.consistent(),
        ensures
            final(self)@.consistent(),
            (final(self)@, views::plain_outcome(outcome)) == old(self)@.renew(
                claim@,
                lease_ms,
                now,
            ),
    {
        let ghost before = self@;
        let mut run = match self.take_run(&claim.run_id) {
            Ok(run) => run,
            Err(error) => {
                return Err(error);
            },
        };
        let outcome = renew_lease(&mut run, claim, lease_ms, now);
        proof {
            lemma_with_run_consistent(before, run@);
            lemma_put_back(before.runs, claim@.run_id, run@);
        }
        self.put_run(run);
        assert(self@ =~= before.renew(claim@, lease_ms, now).0);
        outcome
    }

    fn complete_step(&mut self, claim: &StepClaim, completion: StepCompletion, now: u64) -> (outcome:
        Result<RunRecord, RepositoryError>)
        requires
            old(self)@.consistent(),
        ensures
            final(self)@.consistent(),
            (final(self)@, views::outcome_view(outcome)) == old(self)@.complete(
                claim@,
                completion@,
                now,
            ),
    {
        let ghost before = self@;
        let mut run = match self.take_run(&claim.run_id) {
            Ok(run) => run,
            Err(error) => {
                return Err(error);
            },
        };
        match commit_completion(&mut run, claim, &completion, now) {
            Ok(()) => {
                proof {
                    lemma_with_logged_consistent(before, run@, completion@.event, now);
                    lemma_put_back(before.runs, claim@.run_id, run@);
                }
                let ghost sequence = event::successor(self@.next_event_sequence);
                proof {
                    lemma_put_back(
                        before.runs,
                        claim@.run_id,
                        run@.with_event(completion@.event, sequence, now),
                    );
                }
                self.log_run(run, completion.event, now);
                assert(self@ =~= before.complete(claim@, completion@, now).0);
                self.read_run(&claim.run_id)
            },
            Err(error) => {
                proof {
                    lemma_put_back(before.runs, claim@.run_id, run@);
                }
                self.put_run(run);
                assert(self@ =~= before);
                Err(error)
            },
        }
    }

    fn record_event(&mut self, run_id: &RunId, event: ExecutionEvent, now: u64) -> (outcome: Result<
        EventEnvelope,
        RepositoryError,
    >)
        requires
            old(self)@.consistent(),
        ensures
            final(self)@.consistent(),
            (final(self)@, views::outcome_view(outcome)) == old(self)@.record(run_id@, event@, now),
    {
        let ghost before = self@;
        let valid = match self.runs.get(run_id) {
            Some(run) => event_belongs_to_run(&event, run_id) && event_is_valid_for_record(
                run,
                &event,
            ),
            None => {
                return Err(RepositoryError::RunNotFound { run: run_id.clone() });
            },
        };
        if !valid {
            return Err(RepositoryError::InvalidEvent { run: run_id.clone() });
        }
        match self.take_run(run_id) {
            Ok(run) => {
                proof {
                    let sequence = event::successor(before.next_event_sequence);
                    lemma_with_logged_consistent(before, run@, event@, now);
                    lemma_put_back(
                        before.runs,
                        run_id@,
                        run@.with_event(event@, sequence, now),
                    );
                }
                let envelope = self.log_run(run, event, now);
                assert(self@ =~= before.record(run_id@, event@, now).0);
                Ok(envelope)
            },
            Err(error) => Err(error),
        }
    }

    fn finish_run(&mut self, run_id: &RunId, metrics: Vec<Metric>, now: u64) -> (outcome: Result<
        RunRecord,
        RepositoryError,
    >)
        requires
            old(self)@.consistent(),
        ensures
            final(self)@.consistent(),
            (final(self)@, views::outcome_view(outcome)) == old(self)@.finish(
                run_id@,
                views::all_views(metrics@),
                now,
            ),
    {
        let ghost before = self@;
        let mut run = match self.take_run(run_id) {
            Ok(run) => run,
            Err(error) => {
                return Err(error);
            },
        };
        let previous = run.status;
        settle_run(&mut run, metrics);
        let status = run.status;
        if previous == status {
            let answer = run.clone();
            proof {
                lemma_with_run_consistent(before, run@);
                lemma_put_back(before.runs, run_id@, run@);
            }
            self.put_run(run);
            assert(self@ =~= before.finish(run_id@, views::all_views(metrics@), now).0);
            return Ok(answer);
        }
        let event = ExecutionEvent::RunFinished { run_id: run_id.clone(), status };
        proof {
            let sequence = event::successor(before.next_event_sequence);
            lemma_with_logged_consistent(before, run@, event@, now);
            lemma_put_back(before.runs, run_id@, run@.with_event(event@, sequence, now));
        }
        self.log_run(run, event, now);
        assert(self@ =~= before.finish(run_id@, views::all_views(metrics@), now).0);
        self.read_run(run_id)
    }

    fn cancel_run(&mut self, run_id: &RunId, now: u64) -> (outcome: Result<
        RunRecord,
        RepositoryError,
    >)
        requires
            old(self)@.consistent(),
        ensures
            final(self)@.consistent(),
            (final(self)@, views::outcome_view(outcome)) == old(self)@.cancel(run_id@, now),
    {
        let ghost before = self@;
        let mut run = match self.take_run(run_id) {
            Ok(run) => run,
            Err(error) => {
                return Err(error);
            },
        };
        if is_over(run.status) {
            let answer = run.clone();
            proof {
                lemma_put_back(before.runs, run_id@, run@);
            }
            self.put_run(run);
            assert(self@ =~= before);
            return Ok(answer);
        }
        cancel_steps(&mut run, now);
        let event = ExecutionEvent::RunFinished {
            run_id: run_id.clone(),
            status: RunStatus::Cancelled,
        };
        proof {
            let sequence = event::successor(before.next_event_sequence);
            lemma_with_logged_consistent(before, run@, event@, now);
            lemma_put_back(before.runs, run_id@, run@.with_event(event@, sequence, now));
        }
        self.log_run(run, event, now);
        assert(self@ =~= before.cancel(run_id@, now).0);
        self.read_run(run_id)
    }

    /// Takes the steps of one run back whose lease ran out.
    fn recover_run(&mut self, run_id: &RunId, now: u64, expired: &mut Vec<(RunId, StepId)>)
        requires
            old(self)@.consistent(),
            old(self)@.runs.contains_key(run_id@),
        ensures
            final(self)@.consistent(),
            (RecoveryView { repository: final(self)@, expired: id_pairs(final(expired)@) }) == (
            RecoveryView {
                repository: old(self)@,
                expired: id_pairs(old(expired)@),
            }).recover_steps(run_id@, old(self)@.runs[run_id@].workflow.steps, now),
            final(self)@.runs.dom() == old(self)@.runs.dom(),
    {
        let steps: Vec<StepSpec> = match self.runs.get(run_id) {
            Some(run) => {
                let steps = run.workflow.steps.clone();
                proof {
                    views::lemma_cloned_list(run.workflow.steps@, steps@);
                }
                steps
            },
            None => Vec::new(),
        };
        let ghost all = views::all_views(steps@);
        let ghost start = RecoveryView { repository: self@, expired: id_pairs(expired@) };
        let ghost ids = self@.runs.dom();
        let mut i: usize = 0;
        assert(all.skip(0) =~= all);
        while i < steps.len()
            invariant
                i <= steps.len(),
                all == views::all_views(steps@),
                self@.consistent(),
                self@.runs.contains_key(run_id@),
                self@.runs.dom() == ids,
                start.recover_steps(run_id@, all, now) == (RecoveryView {
                    repository: self@,
                    expired: id_pairs(expired@),
                }).recover_steps(run_id@, all.skip(i as int), now),
            decreases steps.len() - i,
        {
            let ghost before = self@;
            let ghost listed = expired@;
            proof {
                assert(all.skip(i as int)[0] == steps@[i as int]@);
                assert(all.skip(i as int).drop_first() =~= all.skip(i + 1));
            }
            if let Ok(mut run) = self.take_run(run_id) {
                let told = recover_step(&mut run, &steps[i], now);
                match told {
                    Some(event) => {
                        proof {
                            let sequence = event::successor(before.next_event_sequence);
                            lemma_with_logged_consistent(before, run@, event@, now);
                            lemma_put_back(
                                before.runs,
                                run_id@,
                                run@.with_event(event@, sequence, now),
                            );
                        }
                        self.log_run(run, event, now);
                        expired.push((run_id.clone(), steps[i].id.clone()));
                        proof {
                            assert(id_pairs(expired@) =~= id_pairs(listed).push(
                                (run_id@, steps@[i as int]@.id),
                            ));
                            assert(self@ =~= (RecoveryView {
                                repository: before,
                                expired: id_pairs(listed),
                            }).recover_step(run_id@, steps@[i as int]@, now).repository);
                            assert(self@.runs.dom() =~= ids);
                        }
                    },
                    None => {
                        proof {
                            lemma_put_back(before.runs, run_id@, run@);
                        }
                        self.put_run(run);
                        assert(self@ =~= before);
                    },
                }
            }
            i += 1;
        }
    }

    fn recover_expired(&mut self, now: u64) -> (expired: Vec<(RunId, StepId)>)
        requires
            old(self)@.consistent(),
        ensures
            final(self)@.consistent(),
            (RecoveryView { repository: final(self)@, expired: id_pairs(expired@) })
                == old(self)@.recover(now),
    {
        let mut expired: Vec<(RunId, StepId)> = Vec::new();
        let count = self.runs.len();
        let ghost ids = ordered::ascending(self@.runs.dom());
        let ghost start = RecoveryView { repository: self@, expired: Seq::empty() };
        let mut i: usize = 0;
        assert(self@.runs.dom() =~= self.runs@.dom());
        assert(ids.skip(0) =~= ids);
        assert(id_pairs(expired@) =~= Seq::<(Seq<char>, Seq<char>)>::empty());
        while i < count
            invariant
                i <= count,
                self@.consistent(),
                self@.runs.dom() == self.runs@.dom(),
                ids == ordered::ascending(self@.runs.dom()),
                ids.to_set() == self@.runs.dom(),
                count == ids.len(),
                count == self.runs@.len(),
                start.recover_runs(ids, now) == (RecoveryView {
                    repository: self@,
                    expired: id_pairs(expired@),
                }).recover_runs(ids.skip(i as int), now),
            decreases count - i,
        {
            let run_id = self.runs.key_at(i).clone();
            proof {
                assert(ids.skip(i as int)[0] == ids[i as int]);
                assert(ids.skip(i as int).drop_first() =~= ids.skip(i + 1));
                assert(ids.contains(ids[i as int]));
                assert(self@.runs.dom().contains(run_id@));
            }
            self.recover_run(&run_id, now, &mut expired);
            proof {
                assert(self@.runs.dom() =~= self.runs@.dom());
                assert(self.runs@.len() == self@.runs.len());
            }
            i += 1;
        }
        expired
    }
}

/// The texts of a list of pairs of ids.
pub open spec fn id_pairs(list: Seq<(RunId, StepId)>) -> Seq<(Seq<char>, Seq<char>)> {
    list.map_values(|pair: (RunId, StepId)| (pair.0@, pair.1@))
}

/// A repository of runs in the memory of one process. It takes snapshots of runs,
/// and it lets workers claim, renew and complete steps, all in one place.
pub struct InMemoryRunStore {
    state: RepositoryState,
}

impl View for InMemoryRunStore {
    type V = RepositoryView;

    closed spec fn view(&self) -> RepositoryView {
        self.state@
    }
}

impl InMemoryRunStore {
    #[verifier::type_invariant]
    spec fn inv(self) -> bool {
        self.state@.consistent()
    }

    /// A repository without runs.
    pub fn new() -> (store: Self)
        ensures
            store@ == RepositoryView::empty(),
    {
        InMemoryRunStore { state: RepositoryState::new() }
    }

    fn take_state(&mut self) -> (state: RepositoryState)
        ensures
            state@ == old(self)@,
            state@.consistent(),
    {
        proof {
            use_type_invariant(&*self);
        }
        let mut state = RepositoryState::new();
        std::mem::swap(&mut state, &mut self.state);
        state
    }

    /// The record of a run, if there is one.
    pub fn load_run(&self, run_id: &RunId) -> (loaded: Result<Option<RunRecord>, RepositoryError>)
        ensures
            self@.consistent(),
            views::some_outcome(loaded) == Ok::<Option<RunRecordView>, RepositoryErrorView>(
                if self@.runs.contains_key(run_id@) {
                    Some(self@.runs[run_id@])
                } else {
                    None
                },
            ),
    {
        proof {
            use_type_invariant(self);
        }
        match self.state.runs.get(run_id) {
            Some(run) => Ok(Some(run.clone())),
            None => Ok(None),
        }
    }

    /// The snapshot of a run, if there is one.
    pub fn load(&self, run_id: &RunId) -> (loaded: Result<Option<RunRecord>, AdapterError>)
        ensures
            self@.consistent(),
            views::some_outcome(loaded) == Ok::<Option<RunRecordView>, AdapterErrorView>(
                if self@.runs.contains_key(run_id@) {
                    Some(self@.runs[run_id@])
                } else {
                    None
                },
            ),
    {
        proof {
            use_type_invariant(self);
        }
        match self.state.runs.get(run_id) {
            Some(run) => Ok(Some(run.clone())),
            None => Ok(None),
        }
    }

    /// The part of a run's log that comes after a sequence number.
    pub fn events_since(&self, run_id: &RunId, sequence: u64) -> (read: Result<
        Vec<EventEnvelope>,
        RepositoryError,
    >)
        ensures
            self@.consistent(),
            views::list_outcome(read) == self@.since(run_id@, sequence),
    {
        proof {
            use_type_invariant(self);
        }
        match self.state.runs.get(run_id) {
            Some(run) => Ok(read_since(&run.event_log, sequence)),
            None => Err(RepositoryError::RunNotFound { run: run_id.clone() }),
        }
    }

    /// Keeps a snapshot of a run, in place of what was there.
    pub fn save(&mut self, run: &RunRecord) -> (outcome: Result<(), AdapterError>)
        ensures
            final(self)@.consistent(),
            (final(self)@, views::plain_outcome(outcome)) == old(self)@.save(run@),
    {
        let mut state = self.take_state();
        let outcome = state.save(run);
        self.state = state;
        outcome
    }

    /// Creates a run, at the given time.
    pub fn create_run_at(
        &mut self,
        request: RunRequest,
        now: u64,
    ) -> (outcome: Result<RunRecord, RepositoryError>)
        ensures
            final(self)@.consistent(),
            (final(self)@, views::outcome_view(outcome)) == old(self)@.create(request@, now),
    {
        let mut state = self.take_state();
        let outcome = state.create_run(request, now);
        self.state = state;
        outcome
    }

    /// Creates a run.
    pub fn create_run(
        &mut self,
        request: RunRequest,
    ) -> (outcome: Result<RunRecord, RepositoryError>)
        ensures
            final(self)@.consistent(),
            exists|now: u64| #[trigger]
                clock::is_reading(now) && (final(self)@, views::outcome_view(outcome))
                    == old(self)@.create(request@, now),
    {
        self.create_run_at(request, now_ms())
    }

    /// Finds and claims one runnable step across all active runs, at the given time.
    pub fn claim_next_runnable_step_at(
        &mut self,
        worker: &WorkerProfile,
        lease_ms: u64,
        now: u64,
    ) -> (outcome: Result<Option<StepClaim>, RepositoryError>)
        ensures
            final(self)@.consistent(),
            (final(self)@, views::some_outcome(outcome))
                == old(self)@.claim_any(worker@, lease_ms, now),
    {
        let mut state = self.take_state();
        let outcome = state.claim_next_runnable_step(worker, lease_ms, now);
        self.state = state;
        outcome
    }

    /// Finds and claims one runnable step across all active runs.
    pub fn claim_next_runnable_step(
        &mut self,
        worker: &WorkerProfile,
        lease_ms: u64,
    ) -> (outcome: Result<Option<StepClaim>, RepositoryError>)
        ensures
            final(self)@.consistent(),
            exists|now: u64| #[trigger]
                clock::is_reading(now) && (final(self)@, views::some_outcome(outcome))
                    == old(self)@.claim_any(worker@, lease_ms, now),
    {
        self.claim_next_runnable_step_at(worker, lease_ms, now_ms())
    }

    /// Claims the next step of a run, at the given time.
    pub fn claim_next_step_at(
        &mut self,
        run_id: &RunId,
        worker: &WorkerProfile,
        lease_ms: u64,
        now: u64,
    ) -> (outcome: Result<Option<StepClaim>, RepositoryError>)
        ensures
            final(self)@.consistent(),
            (final(self)@, views::some_outcome(outcome))
                == old(self)@.claim(run_id@, worker@, lease_ms, now),
    {
        let mut state = self.take_state();
        let outcome = state.claim_next_step(run_id, worker, lease_ms, now);
        self.state = state;
        outcome
    }

    /// Claims the next step of a run.
    pub fn claim_next_step(
        &mut self,
        run_id: &RunId,
        worker: &WorkerProfile,
        lease_ms: u64,
    ) -> (outcome: Result<Option<StepClaim>, RepositoryError>)
        ensures
            final(self)@.consistent(),
            exists|now: u64| #[trigger]
                clock::is_reading(now) && (final(self)@, views::some_outcome(outcome))
                    == old(self)@.claim(run_id@, worker@, lease_ms, now),
    {
        self.claim_next_step_at(run_id, worker, lease_ms, now_ms())
    }

    /// Extends the lease of a claim, at the given time.
    pub fn renew_step_at(
        &mut self,
        claim: &StepClaim,
        lease_ms: u64,
        now: u64,
    ) -> (outcome: Result<(), RepositoryError>)
        ensures
            final(self)@.consistent(),
            (final(self)@, views::plain_outcome(outcome))
                == old(self)@.renew(claim@, lease_ms, now),
    {
        let mut state = self.take_state();
        let outcome = state.renew_step(claim, lease_ms, now);
        self.state = state;
        outcome
    }

    /// Extends the lease of a claim.
    pub fn renew_step(
        &mut self,
        claim: &StepClaim,
        lease_ms: u64,
    ) -> (outcome: Result<(), RepositoryError>)
        ensures
            final(self)@.consistent(),
            exists|now: u64| #[trigger]
                clock::is_reading(now) && (final(self)@, views::plain_outcome(outcome))
                    == old(self)@.renew(claim@, lease_ms, now),
    {
        self.renew_step_at(claim, lease_ms, now_ms())
    }

    /// Commits the completion of a claimed step together with its event, at the given time.
    pub fn complete_step_at(
        &mut self,
        claim: &StepClaim,
        completion: StepCompletion,
        now: u64,
    ) -> (outcome: Result<RunRecord, RepositoryError>)
        ensures
            final(self)@.consistent(),
            (final(self)@, views::outcome_view(outcome))
                == old(self)@.complete(claim@, completion@, now),
    {
        let mut state = self.take_state();
        let outcome = state.complete_step(claim, completion, now);
        self.state = state;
        outcome
    }

    /// Commits the completion of a claimed step together with its event.
    pub fn complete_step(
        &mut self,
        claim: &StepClaim,
        completion: StepCompletion,
    ) -> (outcome: Result<RunRecord, RepositoryError>)
        ensures
            final(self)@.consistent(),
            exists|now: u64| #[trigger]
                clock::is_reading(now) && (final(self)@, views::outcome_view(outcome))
                    == old(self)@.complete(claim@, completion@, now),
    {
        self.complete_step_at(claim, completion, now_ms())
    }

    /// Logs an event that is in place, at the given time.
    pub fn record_event_at(
        &mut self,
        run_id: &RunId,
        event: ExecutionEvent,
        now: u64,
    ) -> (outcome: Result<EventEnvelope, RepositoryError>)
        ensures
            final(self)@.consistent(),
            (final(self)@, views::outcome_view(outcome)) == old(self)@.record(run_id@, event@, now),
    {
        let mut state = self.take_state();
        let outcome = state.record_event(run_id, event, now);
        self.state = state;
        outcome
    }

    /// Logs an event that is in place.
    pub fn record_event(
        &mut self,
        run_id: &RunId,
        event: ExecutionEvent,
    ) -> (outcome: Result<EventEnvelope, RepositoryError>)
        ensures
            final(self)@.consistent(),
            exists|now: u64| #[trigger]
                clock::is_reading(now) && (final(self)@, views::outcome_view(outcome))
                    == old(self)@.record(run_id@, event@, now),
    {
        self.record_event_at(run_id, event, now_ms())
    }

    /// Lets the metrics of a run in, and ends the run if it can be ended, at the given time.
    pub fn finish_run_at(
        &mut self,
        run_id: &RunId,
        metrics: Vec<Metric>,
        now: u64,
    ) -> (outcome: Result<RunRecord, RepositoryError>)
        ensures
            final(self)@.consistent(),
            (final(self)@, views::outcome_view(outcome))
                == old(self)@.finish(run_id@, views::all_views(metrics@), now),
    {
        let mut state = self.take_state();
        let outcome = state.finish_run(run_id, metrics, now);
        self.state = state;
        outcome
    }

    /// Lets the metrics of a run in, and ends the run if it can be ended.
    pub fn finish_run(
        &mut self,
        run_id: &RunId,
        metrics: Vec<Metric>,
    ) -> (outcome: Result<RunRecord, RepositoryError>)
        ensures
            final(self)@.consistent(),
            exists|now: u64| #[trigger]
                clock::is_reading(now) && (final(self)@, views::outcome_view(outcome))
                    == old(self)@.finish(run_id@, views::all_views(metrics@), now),
    {
        self.finish_run_at(run_id, metrics, now_ms())
    }

    /// Cancels a run that is not over, at the given time.
    pub fn cancel_run_at(
        &mut self,
        run_id: &RunId,
        now: u64,
    ) -> (outcome: Result<RunRecord, RepositoryError>)
        ensures
            final(self)@.consistent(),
            (final(self)@, views::outcome_view(outcome)) == old(self)@.cancel(run_id@, now),
    {
        let mut state = self.take_state();
        let outcome = state.cancel_run(run_id, now);
        self.state = state;
        outcome
    }

    /// Cancels a run that is not over.
    pub fn cancel_run(&mut self, run_id: &RunId) -> (outcome: Result<RunRecord, RepositoryError>)
        ensures
            final(self)@.consistent(),
            exists|now: u64| #[trigger]
                clock::is_reading(now) && (final(self)@, views::outcome_view(outcome))
                    == old(self)@.cancel(run_id@, now),
    {
        self.cancel_run_at(run_id, now_ms())
    }

    /// Takes back every step whose lease has run out at the given time.
    pub fn recover_expired_at(&mut self, now: u64) -> (outcome: Result<
        Vec<(RunId, StepId)>,
        RepositoryError,
    >)
        ensures
            final(self)@.consistent(),
            outcome matches Ok(expired) && (RecoveryView {
                repository: final(self)@,
                expired: id_pairs(expired@),
            }) == old(self)@.recover(now),
    {
        let mut state = self.take_state();
        let expired = state.recover_expired(now);
        self.state = state;
        Ok(expired)
    }

    /// Takes back every step whose lease has run out.
    pub fn recover_expired(&mut self) -> (outcome: Result<Vec<(RunId, StepId)>, RepositoryError>)
        ensures
            final(self)@.consistent(),
            outcome is Ok,
            exists|now: u64| #[trigger]
                clock::is_reading(now) && (RecoveryView {
                    repository: final(self)@,
                    expired: id_pairs(outcome->Ok_0@),
                }) == old(self)@.recover(now),
    {
        self.recover_expired_at(now_ms())
    }
}

impl Default for InMemoryRunStore {
    fn default() -> (store: Self)
        ensures
            store@ == RepositoryView::empty(),
    {
        InMemoryRunStore::new()
    }
}

/// A sink that keeps the events it is given, in order.
pub struct InMemoryEventSink {
    events: Vec<ExecutionEvent>,
}

impl View for InMemoryEventSink {
    type V = Seq<ExecutionEventView>;

    closed spec fn view(&self) -> Seq<ExecutionEventView> {
        views::all_views(self.events@)
    }
}

impl InMemoryEventSink {
    /// A sink that was given nothing yet.
    pub fn new() -> (sink: Self)
        ensures
            sink@ == Seq::<ExecutionEventView>::empty(),
    {
        let sink = InMemoryEventSink { events: Vec::new() };
        assert(sink@ =~= Seq::<ExecutionEventView>::empty());
        sink
    }

    /// The events that the sink was given.
    pub fn events(&self) -> (events: Vec<ExecutionEvent>)
        ensures
            views::all_views(events@) == self@,
    {
        let events = self.events.clone();
        proof {
            views::lemma_cloned_list(self.events@, events@);
        }
        events
    }

    /// Gives the sink an event.
    pub fn emit(&mut self, event: ExecutionEvent) -> (outcome: Result<(), AdapterError>)
        ensures
            outcome is Ok,
            final(self)@ == old(self)@.push(event@),
    {
        let ghost before = self@;
        self.events.push(event);
        assert(self@ =~= before.push(event@));
        Ok(())
    }
}

impl Default for InMemoryEventSink {
    fn default() -> (sink: Self)
        ensures
            sink@ == Seq::<ExecutionEventView>::empty(),
    {
        InMemoryEventSink::new()
    }
}

} // verus!
