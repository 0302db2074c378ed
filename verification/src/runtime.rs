//! Running a workflow within one process: the attempts of a step, and the batches
//! of steps of a run.
use crate::claim::{self, dependency_outputs};
use crate::error::{TaskError, TaskErrorView};
use crate::evaluation::{self, evaluate_gates, every_gate_passed, Metric, MetricView};
use crate::event::{self, next_number};
use crate::ids::{RunId, TaskId, WorkerId, WorkflowId};
use crate::json::{self, build_step_input};
use crate::manifest::{RunManifest, RunManifestView, RunProvenance, RunProvenanceView};
use crate::ordered;
use crate::policy::{WorkerProfile, WorkerProfileView};
use crate::record::{
    ExecutionEvent, ExecutionEventView, RunRecord, RunRecordView, RunStatus, StepRecord,
    StepRecordView, StepStatus,
};
use crate::task::{TaskContext, TaskContextView, TaskSpec};
use crate::text::join3;
use crate::transition;
use crate::views;
use crate::workflow::{StepSpec, StepSpecView, WorkflowSpec, WorkflowSpecView};
use serde_json::Value;
use vstd::prelude::*;

verus! {

/// Options for an executor within one process.
#[derive(Debug)]
pub struct ExecutorOptions {
    pub max_parallel_steps: usize,
    pub worker: WorkerProfile,
    pub provenance: RunProvenance,
}

/// What a `ExecutorOptions` holds.
#[verifier::ext_equal]
pub struct ExecutorOptionsView {
    pub max_parallel_steps: usize,
    pub worker: WorkerProfileView,
    pub provenance: RunProvenanceView,
}

impl View for ExecutorOptions {
    type V = ExecutorOptionsView;

    open spec fn view(&self) -> ExecutorOptionsView {
        ExecutorOptionsView {
            max_parallel_steps: self.max_parallel_steps,
            worker: self.worker@,
            provenance: self.provenance@,
        }
    }
}

impl Clone for ExecutorOptions {
    fn clone(&self) -> (copy: Self)
        ensures
            copy@ == self@,
    {
        let copy = ExecutorOptions {
            max_parallel_steps: self.max_parallel_steps,
            worker: self.worker.clone(),
            provenance: self.provenance.clone(),
        };
        copy
    }
}


impl Default for ExecutorOptions {
    fn default() -> (options: Self)
        ensures
            options@ == (ExecutorOptionsView {
                max_parallel_steps: 8,
                worker: WorkerProfileView::plain("local-worker"@),
                provenance: RunProvenanceView::none(),
            }),
    {
        ExecutorOptions {
            max_parallel_steps: 8,
            worker: WorkerProfile::default(),
            provenance: RunProvenance::default(),
        }
    }
}

/// A number, or one where it is zero.
pub open spec fn one_at_least(n: usize) -> usize {
    if n > 1 {
        n
    } else {
        1
    }
}

impl ExecutorOptions {
    /// The options with room for one step at least.
    pub fn normalized(self) -> (options: Self)
        ensures
            options@ == (ExecutorOptionsView {
                max_parallel_steps: one_at_least(self@.max_parallel_steps),
                ..self@
            }),
    {
        let mut options = self;
        if options.max_parallel_steps == 0 {
            options.max_parallel_steps = 1;
        }
        options
    }
}

/// The execution of a step, from its first attempt to its end.
#[derive(Debug)]
pub struct StepExecution {
    pub run_id: RunId,
    pub workflow_id: WorkflowId,
    pub step: StepSpec,
    pub worker: WorkerId,
    pub task: TaskId,
    pub fallback_used: bool,
    pub fallback_attempted: bool,
    pub attempts: u32,
    pub last_error: Option<String>,
    pub events: Vec<ExecutionEvent>,
}

/// What a `StepExecution` holds.
#[verifier::ext_equal]
pub struct StepExecutionView {
    pub run_id: Seq<char>,
    pub workflow_id: Seq<char>,
    pub step: StepSpecView,
    pub worker: Seq<char>,
    pub task: Seq<char>,
    pub fallback_used: bool,
    pub fallback_attempted: bool,
    pub attempts: u32,
    pub last_error: Option<Seq<char>>,
    pub events: Seq<ExecutionEventView>,
}

impl View for StepExecution {
    type V = StepExecutionView;

    open spec fn view(&self) -> StepExecutionView {
        StepExecutionView {
            run_id: self.run_id@,
            workflow_id: self.workflow_id@,
            step: self.step@,
            worker: self.worker@,
            task: self.task@,
            fallback_used: self.fallback_used,
            fallback_attempted: self.fallback_attempted,
            attempts: self.attempts,
            last_error: views::some_view(self.last_error),
            events: views::all_views(self.events@),
        }
    }
}

impl Clone for StepExecution {
    fn clone(&self) -> (copy: Self)
        ensures
            copy@ == self@,
    {
        let copy = StepExecution {
            run_id: self.run_id.clone(),
            workflow_id: self.workflow_id.clone(),
            step: self.step.clone(),
            worker: self.worker.clone(),
            task: self.task.clone(),
            fallback_used: self.fallback_used,
            fallback_attempted: self.fallback_attempted,
            attempts: self.attempts,
            last_error: self.last_error.clone(),
            events: self.events.clone(),
        };
        proof {
            views::lemma_cloned_list(self.events@, copy.events@);
        }
        copy
    }
}


/// What a step came to, and what happened on the way.
#[derive(Debug)]
pub struct StepRunResult {
    pub record: StepRecord,
    pub events: Vec<ExecutionEvent>,
}

/// What a `StepRunResult` holds.
#[verifier::ext_equal]
pub struct StepRunResultView {
    pub record: StepRecordView,
    pub events: Seq<ExecutionEventView>,
}

impl View for StepRunResult {
    type V = StepRunResultView;

    open spec fn view(&self) -> StepRunResultView {
        StepRunResultView { record: self.record@, events: views::all_views(self.events@) }
    }
}

/// What is to be done after an attempt has failed.
#[derive(Clone, Copy, Debug, PartialEq, Eq, Structural)]
pub enum NextMove {
    /// Wait that many milliseconds, and try again.
    Wait(u64),
    /// Go on at once, with the fallback.
    Again,
    /// Give the step up.
    GiveUp,
}

impl StepExecutionView {
    /// A step of which no attempt was made yet.
    pub open spec fn fresh(
        run_id: Seq<char>,
        workflow_id: Seq<char>,
        step: StepSpecView,
        worker: Seq<char>,
    ) -> StepExecutionView {
        StepExecutionView {
            run_id,
            workflow_id,
            step,
            worker,
            task: step.task,
            fallback_used: false,
            fallback_attempted: false,
            attempts: 0,
            last_error: None,
            events: Seq::empty(),
        }
    }

    /// The attempts that the step is granted.
    pub open spec fn budget(self) -> u32 {
        self.step.policy.retry.budget()
    }

    /// Whether no attempt is left: the budget is used up, and with it the one
    /// attempt of a fallback that was selected.
    pub open spec fn exhausted(self) -> bool {
        self.attempts >= self.budget() && (!self.fallback_used || self.fallback_attempted)
    }

    /// The step at the start of an attempt, and whether there is one: the selected
    /// task has to be registered, and an attempt has to be left.
    pub open spec fn begun(self, registered: bool) -> (StepExecutionView, bool) {
        if !registered {
            (
                StepExecutionView {
                    last_error: Some("task "@ + self.task + " is not registered"@),
                    ..self
                },
                false,
            )
        } else if self.exhausted() {
            (self, false)
        } else {
            let attempt = (self.attempts + 1) as u32;
            (
                StepExecutionView {
                    attempts: attempt,
                    fallback_attempted: self.fallback_attempted || self.fallback_used,
                    events: self.events.push(
                        ExecutionEventView::StepStarted {
                            run_id: self.run_id,
                            step_id: self.step.id,
                            task: self.task,
                            attempt,
                        },
                    ),
                    ..self
                },
                true,
            )
        }
    }

    /// The step after an attempt has failed, and what is to be done: a failure that
    /// may pass is tried again while attempts are left; else the fallback is
    /// selected, once; else the step is given up.
    pub open spec fn after_failure(self, error: TaskErrorView) -> (StepExecutionView, NextMove) {
        let noted = StepExecutionView { last_error: Some(error.text()), ..self };
        if error.is_retryable() && self.attempts < self.budget() {
            (
                StepExecutionView {
                    events: self.events.push(
                        ExecutionEventView::StepRetrying {
                            run_id: self.run_id,
                            step_id: self.step.id,
                            attempt: self.attempts,
                            error: error.text(),
                        },
                    ),
                    ..noted
                },
                NextMove::Wait(self.step.policy.retry.delay.delay_ms(self.attempts) as u64),
            )
        } else if !self.fallback_used && self.step.policy.fallback_task is Some {
            let fallback = self.step.policy.fallback_task->0;
            (
                StepExecutionView {
                    fallback_used: true,
                    task: fallback,
                    events: self.events.push(
                        ExecutionEventView::StepFallbackSelected {
                            run_id: self.run_id,
                            step_id: self.step.id,
                            task: fallback,
                        },
                    ),
                    ..noted
                },
                NextMove::Again,
            )
        } else {
            (noted, NextMove::GiveUp)
        }
    }

    /// The record of the step at its end.
    pub open spec fn record(
        self,
        status: StepStatus,
        output: Option<Value>,
        error: Option<Seq<char>>,
    ) -> StepRecordView {
        StepRecordView {
            id: self.step.id,
            task: self.task,
            status,
            attempts: self.attempts,
            output,
            error,
            fallback_used: self.fallback_used,
            lease: None,
            history: Seq::empty(),
            artifacts: Seq::empty(),
            next_attempt_at_ms: None,
        }
    }

    /// What the step comes to when an attempt succeeds.
    pub open spec fn success(self, output: Value) -> StepRunResultView {
        StepRunResultView {
            record: self.record(StepStatus::Succeeded, Some(output), None),
            events: self.events.push(
                ExecutionEventView::StepSucceeded {
                    run_id: self.run_id,
                    step_id: self.step.id,
                    attempts: self.attempts,
                },
            ),
        }
    }

    /// What the step failed of.
    pub open spec fn reason(self) -> Seq<char> {
        match self.last_error {
            Some(error) => error,
            None => "task failed without an error"@,
        }
    }

    /// What the step comes to when it is given up.
    pub open spec fn failure(self) -> StepRunResultView {
        StepRunResultView {
            record: self.record(StepStatus::Failed, None, Some(self.reason())),
            events: self.events.push(
                ExecutionEventView::StepFailed {
                    run_id: self.run_id,
                    step_id: self.step.id,
                    attempts: self.attempts,
                    error: self.reason(),
                },
            ),
        }
    }
}

impl StepExecution {
    /// A step of a run of which no attempt was made yet.
    pub fn new(run: &RunRecord, step: StepSpec, worker: &WorkerProfile) -> (execution: Self)
        ensures
            execution@ == StepExecutionView::fresh(
                run@.run_id,
                run@.workflow.id,
                step@,
                worker@.id,
            ),
    {
        let events: Vec<ExecutionEvent> = Vec::new();
        assert(views::all_views(events@) =~= Seq::<ExecutionEventView>::empty());
        StepExecution {
            run_id: run.run_id.clone(),
            workflow_id: run.workflow.id.clone(),
            worker: worker.id.clone(),
            task: step.task.clone(),
            step,
            fallback_used: false,
            fallback_attempted: false,
            attempts: 0,
            last_error: None,
            events,
        }
    }

    fn note(&mut self, event: ExecutionEvent)
        ensures
            final(self)@ == (StepExecutionView {
                events: old(self)@.events.push(event@),
                ..old(self)@
            }),
    {
        let ghost before = self.events@;
        self.events.push(event);
        assert(views::all_views(self.events@) =~= views::all_views(before).push(event@));
    }

    /// Tells whether no attempt is left.
    pub fn is_exhausted(&self) -> (answer: bool)
        ensures
            answer == self@.exhausted(),
    {
        self.attempts >= self.step.policy.retry.attempt_budget() && (!self.fallback_used
            || self.fallback_attempted)
    }

    /// Starts an attempt, given whether the selected task is registered. Says
    /// whether there is an attempt to make.
    pub fn begin_attempt(&mut self, registered: bool) -> (begins: bool)
        requires
            registered && !old(self)@.exhausted() ==> old(self)@.attempts < u32::MAX,
        ensures
            (final(self)@, begins) == old(self)@.begun(registered),
    {
        if !registered {
            self.last_error = Some(join3("task ", self.task.as_str(), " is not registered"));
            return false;
        }
        if self.is_exhausted() {
            return false;
        }
        self.attempts = self.attempts + 1;
        if self.fallback_used {
            self.fallback_attempted = true;
        }
        let event = ExecutionEvent::StepStarted {
            run_id: self.run_id.clone(),
            step_id: self.step.id.clone(),
            task: self.task.clone(),
            attempt: self.attempts,
        };
        self.note(event);
        true
    }

    /// What the task is told of the attempt.
    pub fn context(&self, task: &TaskSpec) -> (context: TaskContext)
        ensures
            context@ == (TaskContextView {
                run_id: self@.run_id,
                workflow_id: self@.workflow_id,
                step_id: self@.step.id,
                attempt: self@.attempts,
                task: task@,
                worker: Some(self@.worker),
            }),
    {
        TaskContext {
            run_id: self.run_id.clone(),
            workflow_id: self.workflow_id.clone(),
            step_id: self.step.id.clone(),
            attempt: self.attempts,
            task: task.clone(),
            worker: Some(self.worker.clone()),
        }
    }

    /// Takes the failure of an attempt in, and decides what is to be done.
    pub fn fail_attempt(&mut self, error: &TaskError) -> (next: NextMove)
        ensures
            (final(self)@, next) == old(self)@.after_failure(error@),
    {
        let words = error.message();
        let budget = self.step.policy.retry.attempt_budget();
        if error.retryable() && self.attempts < budget {
            let event = ExecutionEvent::StepRetrying {
                run_id: self.run_id.clone(),
                step_id: self.step.id.clone(),
                attempt: self.attempts,
                error: words.clone(),
            };
            self.note(event);
            self.last_error = Some(words);
            return NextMove::Wait(self.step.policy.retry.delay.millis_for_attempt(self.attempts));
        }
        self.last_error = Some(words);
        if !self.fallback_used {
            if let Some(fallback) = self.step.policy.fallback_task.clone() {
                self.fallback_used = true;
                self.task = fallback.clone();
                let event = ExecutionEvent::StepFallbackSelected {
                    run_id: self.run_id.clone(),
                    step_id: self.step.id.clone(),
                    task: fallback,
                };
                self.note(event);
                return NextMove::Again;
            }
        }
        NextMove::GiveUp
    }

    fn into_result(
        self,
        status: StepStatus,
        output: Option<Value>,
        error: Option<String>,
    ) -> (result: StepRunResult)
        ensures
            result@ == (StepRunResultView {
                record: self@.record(status, output, views::some_view(error)),
                events: self@.events,
            }),
    {
        let record = StepRecord {
            id: self.step.id.clone(),
            task: self.task,
            status,
            attempts: self.attempts,
            output,
            error,
            fallback_used: self.fallback_used,
            lease: None,
            history: Vec::new(),
            artifacts: Vec::new(),
            next_attempt_at_ms: None,
        };
        assert(record@.history =~= Seq::<crate::record::StepAttemptView>::empty());
        assert(record@.artifacts =~= Seq::<crate::artifact::ArtifactRefView>::empty());
        StepRunResult { record, events: self.events }
    }

    /// Ends the step with the output of an attempt.
    pub fn succeed(self, output: Value) -> (result: StepRunResult)
        ensures
            result@ == self@.success(output),
    {
        let mut execution = self;
        let event = ExecutionEvent::StepSucceeded {
            run_id: execution.run_id.clone(),
            step_id: execution.step.id.clone(),
            attempts: execution.attempts,
        };
        execution.note(event);
        execution.into_result(StepStatus::Succeeded, Some(output), None)
    }

    /// Ends the step without an output.
    pub fn give_up(self) -> (result: StepRunResult)
        ensures
            result@ == self@.failure(),
    {
        let mut execution = self;
        let reason = match &execution.last_error {
            Some(error) => error.clone(),
            None => "task failed without an error".to_owned(),
        };
        let event = ExecutionEvent::StepFailed {
            run_id: execution.run_id.clone(),
            step_id: execution.step.id.clone(),
            attempts: execution.attempts,
            error: reason.clone(),
        };
        execution.note(event);
        execution.into_result(StepStatus::Failed, None, Some(reason))
    }
}

impl RunRecordView {
    /// The run with one more event, which is not logged under a number.
    pub open spec fn with_emitted(self, event: ExecutionEventView) -> RunRecordView {
        RunRecordView {
            events: self.events.push(event),
            revision: event::successor(self.revision),
            ..self
        }
    }

    /// Whether a step can be started: it was not, and all that it waits for has
    /// succeeded.
    pub open spec fn is_ready(self, step: StepSpecView) -> bool {
        !self.steps.contains_key(step.id) && self.has_done(step.depends_on)
    }

    /// The steps that can be started, in the order of the workflow.
    pub open spec fn ready_steps(self) -> Seq<StepSpecView> {
        self.workflow.steps.filter(|step: StepSpecView| self.is_ready(step))
    }

    /// The run without a step that could be started.
    pub open spec fn stuck(self) -> RunRecordView {
        RunRecordView {
            status: RunStatus::Failed,
            error: Some("workflow could not make progress"@),
            ..self
        }
    }

    /// The run after a step has failed: its error is the first one that a step has,
    /// in the order of their ids.
    pub open spec fn failed(self) -> RunRecordView {
        RunRecordView {
            status: RunStatus::Failed,
            error: first_error(ordered::ascending(self.steps.dom()), self.steps),
            ..self
        }
    }

    /// The run at its end: it has succeeded unless it has failed or a gate says
    /// otherwise.
    pub open spec fn concluded(self, metrics: Seq<MetricView>) -> RunRecordView {
        let measured = self.measured(metrics);
        if self.status == RunStatus::Failed {
            measured
        } else if evaluation::all_passed(measured.gate_decisions) {
            RunRecordView { status: RunStatus::Succeeded, ..measured }
        } else {
            RunRecordView {
                status: RunStatus::Failed,
                error: Some(transition::gates_failed_text()),
                ..measured
            }
        }
    }
}

/// The first error that a step of a list has.
pub open spec fn first_error(ids: Seq<Seq<char>>, steps: Map<Seq<char>, StepRecordView>) -> Option<
    Seq<char>,
>
    decreases ids.len(),
{
    if ids.len() == 0 {
        None
    } else if steps[ids[0]].error is Some {
        steps[ids[0]].error
    } else {
        first_error(ids.drop_first(), steps)
    }
}

/// Adds an event to a run.
pub fn emit_event(run: &mut RunRecord, event: ExecutionEvent)
    ensures
        final(run)@ == old(run)@.with_emitted(event@),
{
    let ghost before = run.events@;
    run.events.push(event);
    run.revision = next_number(run.revision);
    assert(views::all_views(run.events@) =~= views::all_views(before).push(event@));
}

fn step_is_ready(run: &RunRecord, step: &StepSpec) -> (answer: bool)
    ensures
        answer == run@.is_ready(step@),
{
    if run.steps.contains_key(&step.id) {
        return false;
    }
    let ghost all = step@.depends_on;
    let mut j: usize = 0;
    while j < step.depends_on.len()
        invariant
            j <= step.depends_on.len(),
            all == step@.depends_on,
            !run@.steps.contains_key(step@.id),
            forall|k: int|
                0 <= k < j ==> {
                    &&& run@.steps.contains_key(#[trigger] all[k])
                    &&& run@.steps[all[k]].status == StepStatus::Succeeded
                },
        decreases step.depends_on.len() - j,
    {
        let done = match run.steps.get(&step.depends_on[j]) {
            Some(record) => record.status == StepStatus::Succeeded,
            None => false,
        };
        assert(all[j as int] == step.depends_on@[j as int]@);
        if !done {
            return false;
        }
        j += 1;
    }
    true
}

/// Lists the steps of a run that can be started.
pub fn ready_steps(run: &RunRecord) -> (ready: Vec<StepSpec>)
    ensures
        views::all_views(ready@) == run@.ready_steps(),
{
    let mut ready: Vec<StepSpec> = Vec::new();
    let ghost all = run@.workflow.steps;
    let ghost can_start = |step: StepSpecView| run@.is_ready(step);
    let mut i: usize = 0;
    proof {
        reveal(Seq::filter);
        assert(views::all_views(ready@) =~= all.take(0).filter(can_start));
    }
    while i < run.workflow.steps.len()
        invariant
            i <= run.workflow.steps.len(),
            all == run@.workflow.steps,
            can_start == (|step: StepSpecView| run@.is_ready(step)),
            views::all_views(ready@) == all.take(i as int).filter(can_start),
        decreases run.workflow.steps.len() - i,
    {
        let ghost before = ready@;
        proof {
            reveal(Seq::filter);
            assert(all.take(i + 1).drop_last() =~= all.take(i as int));
            assert(all.take(i + 1).last() == run.workflow.steps@[i as int]@);
        }
        if step_is_ready(run, &run.workflow.steps[i]) {
            let step = run.workflow.steps[i].clone();
            ready.push(step);
            assert(views::all_views(ready@) =~= views::all_views(before).push(step@));
        }
        i += 1;
    }
    assert(all.take(i as int) =~= all);
    ready
}

/// Builds the input of a step of a run.
pub fn step_input_for(run: &RunRecord, step: &StepSpec) -> (input: Value)
    ensures
        input == json::step_input(
            run@.input,
            claim::outputs_of(step@.depends_on, run@.steps),
        ),
{
    build_step_input(&run.input, dependency_outputs(&step.depends_on, &run.steps))
}

/// A run within one process: what is known of it, the steps that can be started
/// and wait for room, how many may run at a time, and whether no more are to be
/// started.
#[derive(Debug)]
pub struct LocalRun {
    pub run: RunRecord,
    pub waiting: Vec<StepSpec>,
    pub limit: usize,
    pub ended: bool,
}

/// What a `LocalRun` holds.
#[verifier::ext_equal]
pub struct LocalRunView {
    pub run: RunRecordView,
    pub waiting: Seq<StepSpecView>,
    pub limit: usize,
    pub ended: bool,
}

impl View for LocalRun {
    type V = LocalRunView;

    open spec fn view(&self) -> LocalRunView {
        LocalRunView {
            run: self.run@,
            waiting: views::all_views(self.waiting@),
            limit: self.limit,
            ended: self.ended,
        }
    }
}

impl LocalRunView {
    /// A run of which nothing has been done but that its start was told.
    pub open spec fn started(
        run_id: Seq<char>,
        workflow: WorkflowSpecView,
        manifest: RunManifestView,
        input: Value,
        limit: usize,
        now: u64,
    ) -> LocalRunView {
        LocalRunView {
            run: (RunRecordView {
                status: RunStatus::Running,
                ..RunRecordView::fresh(run_id, workflow, manifest, input, now)
            }).with_emitted(ExecutionEventView::RunStarted { run_id, workflow_id: workflow.id }),
            waiting: Seq::empty(),
            limit: one_at_least(limit),
            ended: false,
        }
    }

    /// The run with steps that wait to be started, if there are any: where none
    /// waits and some were not started yet, those that can be are taken up, and the
    /// run has failed where none can.
    pub open spec fn refilled(self) -> LocalRunView {
        if self.ended || self.waiting.len() > 0 || self.run.steps.len()
            >= self.run.workflow.steps.len() {
            self
        } else if self.run.ready_steps().len() == 0 {
            LocalRunView { run: self.run.stuck(), ended: true, ..self }
        } else {
            LocalRunView { waiting: self.run.ready_steps(), ..self }
        }
    }

    /// How many steps go into the next batch.
    pub open spec fn batch_size(self) -> int {
        if self.ended {
            0
        } else if self.waiting.len() < self.limit {
            self.waiting.len() as int
        } else {
            self.limit as int
        }
    }

    /// The next batch of steps, and the run without it.
    pub open spec fn next(self) -> (LocalRunView, Seq<StepSpecView>) {
        let filled = self.refilled();
        let size = filled.batch_size();
        (
            LocalRunView { waiting: filled.waiting.skip(size), ..filled },
            filled.waiting.take(size),
        )
    }

    /// The run after a batch was worked off: once a step has failed, no more are
    /// started.
    pub open spec fn settled(self) -> LocalRunView {
        if self.run.has_failed() {
            LocalRunView {
                run: self.run.failed(),
                waiting: Seq::empty(),
                ended: true,
                ..self
            }
        } else {
            self
        }
    }
}

impl LocalRun {
    /// A run of which nothing has been done but that its start was told.
    pub fn start(
        run_id: RunId,
        workflow: WorkflowSpec,
        manifest: RunManifest,
        input: Value,
        limit: usize,
        now: u64,
    ) -> (local: Self)
        ensures
            local@ == LocalRunView::started(
                run_id@,
                workflow@,
                manifest@,
                input,
                limit,
                now,
            ),
    {
        let event = ExecutionEvent::RunStarted {
            run_id: run_id.clone(),
            workflow_id: workflow.id.clone(),
        };
        let mut run = RunRecord::new_at(run_id, workflow, manifest, input, now);
        run.status = RunStatus::Running;
        emit_event(&mut run, event);
        let waiting: Vec<StepSpec> = Vec::new();
        assert(views::all_views(waiting@) =~= Seq::<StepSpecView>::empty());
        LocalRun {
            run,
            waiting,
            limit: if limit > 1 {
                limit
            } else {
                1
            },
            ended: false,
        }
    }

    /// Hands out the next batch of steps. There are none left where it is empty.
    pub fn next_batch(&mut self) -> (batch: Vec<StepSpec>)
        ensures
            (final(self)@, views::all_views(batch@)) == old(self)@.next(),
    {
        let ghost before = self@;
        if !self.ended && self.waiting.len() == 0 && self.run.steps.len()
            < self.run.workflow.steps.len() {
            proof {
                assert(self.run@.steps.dom() =~= self.run.steps@.dom());
            }
            let ready = ready_steps(&self.run);
            if ready.len() == 0 {
                self.run.status = RunStatus::Failed;
                self.run.error = Some("workflow could not make progress".to_owned());
                self.ended = true;
            } else {
                self.waiting = ready;
            }
        }
        proof {
            assert(before.run.steps.dom() =~= self.run.steps@.dom());
            assert(self@ == before.refilled());
        }
        let ghost filled = self@;
        let mut batch: Vec<StepSpec> = Vec::new();
        let mut later: Vec<StepSpec> = Vec::new();
        let mut i: usize = 0;
        assert(views::all_views(batch@) =~= filled.waiting.take(0));
        assert(views::all_views(later@) =~= Seq::<StepSpecView>::empty());
        while i < self.waiting.len()
            invariant
                i <= self.waiting.len(),
                self@ == filled,
                views::all_views(batch@) == filled.waiting.take(
                    if (i as int) < filled.batch_size() {
                        i as int
                    } else {
                        filled.batch_size()
                    },
                ),
                views::all_views(later@) == (if (i as int) < filled.batch_size() {
                    Seq::<StepSpecView>::empty()
                } else {
                    filled.waiting.subrange(filled.batch_size(), i as int)
                }),
            decreases self.waiting.len() - i,
        {
            let step = self.waiting[i].clone();
            let ghost (batched, put_off) = (batch@, later@);
            if !self.ended && i < self.limit {
                batch.push(step);
                assert(views::all_views(batch@) =~= views::all_views(batched).push(step@));
                assert(views::all_views(batch@) =~= filled.waiting.take(i + 1));
                assert(views::all_views(later@) =~= filled.waiting.subrange(i + 1, i + 1));
            } else {
                later.push(step);
                assert(views::all_views(later@) =~= views::all_views(put_off).push(step@));
                assert(views::all_views(later@) =~= filled.waiting.subrange(
                    filled.batch_size(),
                    i + 1,
                ));
            }
            i += 1;
        }
        proof {
            assert(filled.waiting.subrange(filled.batch_size(), i as int) =~= filled.waiting.skip(
                filled.batch_size(),
            ));
            assert(filled.waiting.skip(filled.batch_size()) =~= views::all_views(later@));
        }
        self.waiting = later;
        batch
    }

    /// Keeps the record of a step that has come to its end.
    pub fn absorb(&mut self, record: StepRecord)
        ensures
            final(self)@ == (LocalRunView {
                run: RunRecordView {
                    steps: old(self)@.run.steps.insert(record@.id, record@),
                    ..old(self)@.run
                },
                ..old(self)@
            }),
    {
        proof {
            views::lemma_map_views_insert(self.run.steps@, record@.id, record);
        }
        self.run.steps.insert(record.id.clone(), record);
    }

    fn find_error(&self) -> (error: Option<String>)
        ensures
            views::some_view(error) == first_error(
                ordered::ascending(self@.run.steps.dom()),
                self@.run.steps,
            ),
    {
        let steps = &self.run.steps;
        let count = steps.len();
        let ghost all = self@.run.steps;
        let ghost ids = ordered::ascending(all.dom());
        let mut i: usize = 0;
        assert(all.dom() =~= steps@.dom());
        assert(ids.skip(0) =~= ids);
        while i < count
            invariant
                i <= count,
                all == views::map_views(steps@),
                all == self@.run.steps,
                all.dom() == steps@.dom(),
                ids == ordered::ascending(all.dom()),
                ids.to_set() == all.dom(),
                count == ids.len(),
                count == steps@.len(),
                first_error(ids, all) == first_error(ids.skip(i as int), all),
            decreases count - i,
        {
            let record = steps.value_at(i);
            proof {
                assert(ids.skip(i as int)[0] == ids[i as int]);
                assert(ids.skip(i as int).drop_first() =~= ids.skip(i + 1));
                assert(ids.contains(ids[i as int]));
                assert(all.dom().contains(ids[i as int]));
            }
            if let Some(error) = &record.error {
                return Some(error.clone());
            }
            i += 1;
        }
        None
    }

    fn has_failed(&self) -> (answer: bool)
        ensures
            answer == self@.run.has_failed(),
    {
        let steps = &self.run.steps;
        let count = steps.len();
        let ghost all = self@.run.steps;
        let ghost ids = ordered::ascending(all.dom());
        let mut i: usize = 0;
        assert(all.dom() =~= steps@.dom());
        while i < count
            invariant
                i <= count,
                all == views::map_views(steps@),
                all == self@.run.steps,
                all.dom() == steps@.dom(),
                ids == ordered::ascending(all.dom()),
                ids.to_set() == all.dom(),
                count == ids.len(),
                count == steps@.len(),
                forall|j: int| 0 <= j < i ==> all[#[trigger] ids[j]].status != StepStatus::Failed,
            decreases count - i,
        {
            proof {
                assert(ids.contains(ids[i as int]));
                assert(all.dom().contains(ids[i as int]));
            }
            if steps.value_at(i).status == StepStatus::Failed {
                assert(all.contains_key(ids[i as int]));
                return true;
            }
            i += 1;
        }
        proof {
            assert forall|step: Seq<char>| #[trigger] all.contains_key(step) implies all[step].status
                != StepStatus::Failed by {
                assert(ids.to_set().contains(step));
                let j = choose|j: int| 0 <= j < ids.len() && ids[j] == step;
                assert(all[ids[j]].status != StepStatus::Failed);
            }
        }
        false
    }

    /// Takes stock after a batch was worked off.
    pub fn settle_batch(&mut self)
        ensures
            final(self)@ == old(self)@.settled(),
    {
        if self.has_failed() {
            let error = self.find_error();
            self.run.status = RunStatus::Failed;
            self.run.error = error;
            self.waiting = Vec::new();
            self.ended = true;
            assert(views::all_views(self.waiting@) =~= Seq::<StepSpecView>::empty());
        }
    }

    /// Ends the run with its metrics, and tells of its end.
    pub fn conclude(self, metrics: Vec<Metric>) -> (run: RunRecord)
        ensures
            ({
                let concluded = self@.run.concluded(views::all_views(metrics@));
                run@ == concluded.with_emitted(
                    ExecutionEventView::RunFinished {
                        run_id: concluded.run_id,
                        status: concluded.status,
                    },
                )
            }),
    {
        let mut run = self.run;
        run.gate_decisions = evaluate_gates(
            run.manifest.evaluation_gates.as_slice(),
            metrics.as_slice(),
        );
        run.metrics = metrics;
        if run.status != RunStatus::Failed && !every_gate_passed(&run.gate_decisions) {
            run.status = RunStatus::Failed;
            run.error = Some("one or more evaluation gates failed".to_owned());
        } else if run.status != RunStatus::Failed {
            run.status = RunStatus::Succeeded;
        }
        let event = ExecutionEvent::RunFinished { run_id: run.run_id.clone(), status: run.status };
        emit_event(&mut run, event);
        run
    }
}

} // verus!
