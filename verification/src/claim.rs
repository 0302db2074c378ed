//! Claiming a step: which one is next, and what a worker is given with it.
use crate::event::{self, next_number};
use crate::ids::{AttemptId, StepId, TaskId};
use crate::json::{self, build_step_input};
use crate::ordered::OrderedMap;
use crate::policy::{WorkerProfile, WorkerProfileView};
use crate::record::{
    RunRecord, RunRecordView, RunStatus, StepAttempt, StepAttemptView, StepClaim, StepClaimView,
    StepLease, StepLeaseView, StepRecord, StepRecordView, StepStatus,
};
use crate::text;
use crate::views;
use crate::workflow::{StepSpec, StepSpecView};
use serde_json::Value;
use vstd::prelude::*;

verus! {

/// A time that lies a while after another, and the largest one where there is
/// none so late.
pub open spec fn later(now: u64, delay_ms: u64) -> u64 {
    if now + delay_ms > u64::MAX {
        u64::MAX
    } else {
        (now + delay_ms) as u64
    }
}

/// Adds a delay to a time.
pub fn add_delay(now: u64, delay_ms: u64) -> (time: u64)
    ensures
        time == later(now, delay_ms),
{
    if delay_ms > u64::MAX - now {
        u64::MAX
    } else {
        now + delay_ms
    }
}

/// When a lease taken now runs out: after a millisecond at the earliest.
pub open spec fn lease_end(now: u64, lease_ms: u64) -> u64 {
    later(
        now,
        if lease_ms > 1 {
            lease_ms
        } else {
            1
        },
    )
}

/// Computes when a lease taken now runs out.
pub fn lease_end_ms(now: u64, lease_ms: u64) -> (time: u64)
    ensures
        time == lease_end(now, lease_ms),
{
    add_delay(
        now,
        if lease_ms > 1 {
            lease_ms
        } else {
            1
        },
    )
}

/// The number of attempts after one more.
pub open spec fn one_more(attempts: u32) -> u32 {
    if attempts == u32::MAX {
        u32::MAX
    } else {
        (attempts + 1) as u32
    }
}

/// What the steps that are waited for have put out.
pub open spec fn outputs_of(
    depends_on: Seq<Seq<char>>,
    steps: Map<Seq<char>, StepRecordView>,
) -> Map<Seq<char>, Value> {
    Map::new(
        |step: Seq<char>|
            depends_on.contains(step) && steps.contains_key(step) && steps[step].output is Some,
        |step: Seq<char>| steps[step].output->0,
    )
}

impl StepRecordView {
    /// A step of which nothing has been done yet.
    pub open spec fn fresh(id: Seq<char>, task: Seq<char>) -> StepRecordView {
        StepRecordView {
            id,
            task,
            status: StepStatus::Pending,
            attempts: 0,
            output: None,
            error: None,
            fallback_used: false,
            lease: None,
            history: Seq::empty(),
            artifacts: Seq::empty(),
            next_attempt_at_ms: None,
        }
    }

    /// Whether a step that has a record may be claimed: nobody holds it, it is
    /// pending or to be retried, its delay is over, and its attempts are not used
    /// up, where a fallback that was selected has one more.
    pub open spec fn available(self, budget: u32, now: u64) -> bool {
        &&& self.lease is None
        &&& self.status == StepStatus::Pending || self.status == StepStatus::Retrying
        &&& self.next_attempt_at_ms is Some ==> self.next_attempt_at_ms->0 <= now
        &&& self.attempts < budget || (self.fallback_used && self.status == StepStatus::Retrying
            && self.attempts == budget)
    }

    /// The record once a worker has claimed the step.
    pub open spec fn claimed(
        self,
        run_id: Seq<char>,
        task: Seq<char>,
        worker: Seq<char>,
        token: u64,
        now: u64,
        lease_ms: u64,
    ) -> StepRecordView {
        StepRecordView {
            task,
            status: StepStatus::Running,
            attempts: one_more(self.attempts),
            lease: Some(StepLeaseView { worker, token, expires_at_ms: lease_end(now, lease_ms) }),
            history: self.history.push(
                StepAttemptView {
                    id: run_id + "-attempt-"@ + text::decimal(token as nat),
                    number: one_more(self.attempts),
                    worker,
                    lease_token: token,
                    started_at_ms: now,
                    finished_at_ms: None,
                    status: StepStatus::Running,
                    error: None,
                },
            ),
            ..self
        }
    }
}

impl RunRecordView {
    /// Whether every step that is waited for has succeeded.
    pub open spec fn has_done(self, depends_on: Seq<Seq<char>>) -> bool {
        forall|j: int|
            0 <= j < depends_on.len() ==> {
                &&& self.steps.contains_key(#[trigger] depends_on[j])
                &&& self.steps[depends_on[j]].status == StepStatus::Succeeded
            }
    }

    /// The task that a step is to run: that of its record, if it has one.
    pub open spec fn task_of(self, step: StepSpecView) -> Seq<char> {
        if self.steps.contains_key(step.id) {
            self.steps[step.id].task
        } else {
            step.task
        }
    }

    /// Whether a worker may claim a step now.
    pub open spec fn claimable(
        self,
        step: StepSpecView,
        worker: WorkerProfileView,
        now: u64,
    ) -> bool {
        let task = self.task_of(step);
        &&& self.manifest.tasks.contains_key(task)
        &&& worker.meets_for(self.manifest.tasks[task].capability, step.policy)
        &&& self.has_done(step.depends_on)
        &&& self.steps.contains_key(step.id) ==> self.steps[step.id].available(
            step.policy.retry.budget(),
            now,
        )
    }

    /// The first step, from a position on, that a worker may claim now.
    pub open spec fn claimable_from(self, worker: WorkerProfileView, now: u64, from: int) -> Option<
        StepSpecView,
    >
        decreases self.workflow.steps.len() - from,
    {
        if from < 0 || from >= self.workflow.steps.len() {
            None
        } else if self.claimable(self.workflow.steps[from], worker, now) {
            Some(self.workflow.steps[from])
        } else {
            self.claimable_from(worker, now, from + 1)
        }
    }

    /// The step that a worker would claim now: of a run that is running, the first
    /// one that it may claim.
    pub open spec fn next_step(self, worker: WorkerProfileView, now: u64) -> Option<StepSpecView> {
        if self.status == RunStatus::Running {
            self.claimable_from(worker, now, 0)
        } else {
            None
        }
    }

    /// The record of a step before it is claimed.
    pub open spec fn record_of(self, step: StepSpecView) -> StepRecordView {
        if self.steps.contains_key(step.id) {
            self.steps[step.id]
        } else {
            StepRecordView::fresh(step.id, step.task)
        }
    }

    /// The run once a worker has claimed a step. A delay that was kept for the
    /// step is forgotten where that is asked for.
    pub open spec fn with_claim(
        self,
        step: StepSpecView,
        worker: Seq<char>,
        token: u64,
        now: u64,
        lease_ms: u64,
        forget_delay: bool,
    ) -> RunRecordView {
        let claimed = self.record_of(step).claimed(
            self.run_id,
            self.task_of(step),
            worker,
            token,
            now,
            lease_ms,
        );
        RunRecordView {
            steps: self.steps.insert(
                step.id,
                if forget_delay {
                    StepRecordView { next_attempt_at_ms: None, ..claimed }
                } else {
                    claimed
                },
            ),
            revision: event::successor(self.revision),
            ..self
        }
    }

    /// What a worker is given that has claimed a step.
    pub open spec fn claim_for(
        self,
        step: StepSpecView,
        worker: Seq<char>,
        token: u64,
    ) -> StepClaimView {
        StepClaimView {
            run_id: self.run_id,
            workflow_id: self.workflow.id,
            step,
            task: self.manifest.tasks[self.task_of(step)],
            input: json::step_input(self.input, outputs_of(step.depends_on, self.steps)),
            worker,
            lease_token: token,
            attempt: one_more(self.record_of(step).attempts),
            fallback_used: self.record_of(step).fallback_used,
        }
    }
}

fn dependencies_done(run: &RunRecord, depends_on: &Vec<StepId>) -> (answer: bool)
    ensures
        answer == run@.has_done(views::all_views(depends_on@)),
{
    let ghost all = views::all_views(depends_on@);
    let mut j: usize = 0;
    while j < depends_on.len()
        invariant
            j <= depends_on.len(),
            all == views::all_views(depends_on@),
            forall|k: int|
                0 <= k < j ==> {
                    &&& run@.steps.contains_key(#[trigger] all[k])
                    &&& run@.steps[all[k]].status == StepStatus::Succeeded
                },
        decreases depends_on.len() - j,
    {
        let done = match run.steps.get(&depends_on[j]) {
            Some(record) => record.status == StepStatus::Succeeded,
            None => false,
        };
        assert(all[j as int] == depends_on@[j as int]@);
        if !done {
            return false;
        }
        j += 1;
    }
    true
}

/// Gathers what the steps that are waited for have put out.
pub fn dependency_outputs(depends_on: &Vec<StepId>, steps: &OrderedMap<StepId, StepRecord>) -> (
outputs: OrderedMap<String, Value>)
    ensures
        outputs@ == outputs_of(views::all_views(depends_on@), views::map_views(steps@)),
{
    let mut outputs: OrderedMap<String, Value> = OrderedMap::new();
    let ghost all = views::all_views(depends_on@);
    let ghost records = views::map_views(steps@);
    let mut j: usize = 0;
    assert(outputs@ =~= outputs_of(all.take(0), records));
    while j < depends_on.len()
        invariant
            j <= depends_on.len(),
            all == views::all_views(depends_on@),
            records == views::map_views(steps@),
            outputs@ == outputs_of(all.take(j as int), records),
        decreases depends_on.len() - j,
    {
        let ghost before = outputs@;
        let ghost (past, now) = (all.take(j as int), all.take(j + 1));
        proof {
            assert(now =~= past.push(all[j as int]));
            assert forall|step: Seq<char>| now.contains(step) == (past.contains(step) || step
                == all[j as int]) by {
                if past.contains(step) {
                    let k = choose|k: int| 0 <= k < past.len() && past[k] == step;
                    assert(now[k] == step);
                }
                if step == all[j as int] {
                    assert(now[j as int] == step);
                }
            }
        }
        match steps.get(&depends_on[j]) {
            Some(record) => match &record.output {
                Some(output) => {
                    outputs.insert(depends_on[j].as_str().to_owned(), output.clone());
                },
                None => {},
            },
            None => {},
        }
        assert(outputs@ =~= outputs_of(now, records));
        j += 1;
    }
    assert(all.take(j as int) =~= all);
    outputs
}

fn is_available(record: &StepRecord, budget: u32, now: u64) -> (answer: bool)
    ensures
        answer == record@.available(budget, now),
{
    let delay_over = match record.next_attempt_at_ms {
        Some(next) => next <= now,
        None => true,
    };
    record.lease.is_none() && (record.status == StepStatus::Pending || record.status
        == StepStatus::Retrying) && delay_over && (record.attempts < budget
        || (record.fallback_used && record.status == StepStatus::Retrying && record.attempts
        == budget))
}

fn is_claimable(
    run: &RunRecord,
    step: &StepSpec,
    worker: &WorkerProfile,
    now: u64,
) -> (answer: bool)
    ensures
        answer == run@.claimable(step@, worker@, now),
{
    let record = run.steps.get(&step.id);
    let task_id = match record {
        Some(record) => &record.task,
        None => &step.task,
    };
    let task = match run.manifest.tasks.get(task_id) {
        Some(task) => task,
        None => {
            return false;
        },
    };
    if !worker.supports_task(task, &step.policy) {
        return false;
    }
    let available = match record {
        Some(record) => is_available(record, step.policy.retry.attempt_budget(), now),
        None => true,
    };
    dependencies_done(run, &step.depends_on) && available
}

/// Finds the step that a worker would claim now.
pub fn find_claimable(
    run: &RunRecord,
    worker: &WorkerProfile,
    now: u64,
) -> (found: Option<StepSpec>)
    ensures
        views::some_view(found) == run@.next_step(worker@, now),
{
    if run.status != RunStatus::Running {
        return None;
    }
    let mut i: usize = 0;
    while i < run.workflow.steps.len()
        invariant
            i <= run.workflow.steps.len(),
            run.status == RunStatus::Running,
            run@.claimable_from(worker@, now, 0) == run@.claimable_from(worker@, now, i as int),
        decreases run.workflow.steps.len() - i,
    {
        let step = &run.workflow.steps[i];
        assert(run@.workflow.steps[i as int] == step@);
        if is_claimable(run, step, worker, now) {
            return Some(step.clone());
        }
        i += 1;
    }
    None
}

fn fresh_record(id: &StepId, task: &TaskId) -> (record: StepRecord)
    ensures
        record@ == StepRecordView::fresh(id@, task@),
{
    let record = StepRecord {
        id: id.clone(),
        task: task.clone(),
        status: StepStatus::Pending,
        attempts: 0,
        output: None,
        error: None,
        fallback_used: false,
        lease: None,
        history: Vec::new(),
        artifacts: Vec::new(),
        next_attempt_at_ms: None,
    };
    assert(record@.history =~= Seq::<StepAttemptView>::empty());
    assert(record@.artifacts =~= Seq::<crate::artifact::ArtifactRefView>::empty());
    record
}

/// What a claimable step has: a task in the manifest that can be looked up.
proof fn lemma_claimable(run: RunRecordView, worker: WorkerProfileView, now: u64, from: int)
    requires
        run.claimable_from(worker, now, from) is Some,
    ensures
        run.claimable(run.claimable_from(worker, now, from)->0, worker, now),
    decreases run.workflow.steps.len() - from,
{
    if !run.claimable(run.workflow.steps[from], worker, now) {
        lemma_claimable(run, worker, now, from + 1);
    }
}

/// Lets a worker claim the next step of a run under the given token, if there is
/// one that it may claim.
pub fn claim_step(
    run: &mut RunRecord,
    worker: &WorkerProfile,
    lease_ms: u64,
    now: u64,
    token: u64,
    forget_delay: bool,
) -> (claimed: Option<StepClaim>)
    ensures
        match (claimed, old(run)@.next_step(worker@, now)) {
            (Some(claim), Some(step)) => {
                &&& claim@ == old(run)@.claim_for(step, worker@.id, token)
                &&& final(run)@ == old(run)@.with_claim(
                    step,
                    worker@.id,
                    token,
                    now,
                    lease_ms,
                    forget_delay,
                )
            },
            (None, None) => final(run)@ == old(run)@,
            _ => false,
        },
{
    let step = match find_claimable(run, worker, now) {
        Some(step) => step,
        None => {
            return None;
        },
    };
    let ghost before = run@;
    let ghost steps_before = run.steps@;
    proof {
        lemma_claimable(run@, worker@, now, 0);
    }
    let outputs = dependency_outputs(&step.depends_on, &run.steps);
    let mut record = match run.steps.remove(&step.id) {
        Some(record) => record,
        None => fresh_record(&step.id, &step.task),
    };
    assert(record@ == before.record_of(step@));
    let task_id = record.task.clone();
    assert(task_id@ == before.task_of(step@));
    let task = match run.manifest.tasks.get(&task_id) {
        Some(task) => task.clone(),
        None => {
            return None;
        },
    };
    let ghost history = record.history@;
    record.status = StepStatus::Running;
    record.attempts = if record.attempts == u32::MAX {
        u32::MAX
    } else {
        record.attempts + 1
    };
    record.lease = Some(
        StepLease { worker: worker.id.clone(), token, expires_at_ms: lease_end_ms(now, lease_ms) },
    );
    let attempt = StepAttempt {
        id: AttemptId::of_attempt(&run.run_id, token),
        number: record.attempts,
        worker: worker.id.clone(),
        lease_token: token,
        started_at_ms: now,
        finished_at_ms: None,
        status: StepStatus::Running,
        error: None,
    };
    record.history.push(attempt);
    assert(views::all_views(record.history@) =~= views::all_views(history).push(attempt@));
    if forget_delay {
        record.next_attempt_at_ms = None;
    }
    run.revision = next_number(run.revision);
    let claim = StepClaim {
        run_id: run.run_id.clone(),
        workflow_id: run.workflow.id.clone(),
        task,
        input: build_step_input(&run.input, outputs),
        worker: worker.id.clone(),
        lease_token: token,
        attempt: record.attempts,
        fallback_used: record.fallback_used,
        step,
    };
    proof {
        views::lemma_map_views_remove(steps_before, step@.id);
        views::lemma_map_views_insert(run.steps@, step@.id, record);
        assert(run.steps@.insert(step@.id, record) =~= steps_before.insert(step@.id, record));
        views::lemma_map_views_insert(steps_before, step@.id, record);
    }
    run.steps.insert(claim.step.id.clone(), record);
    Some(claim)
}

} // verus!
