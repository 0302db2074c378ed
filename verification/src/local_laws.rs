//! What holds of every run within one process, from its start to its end.
use crate::evaluation::{self, MetricView};
use crate::laws;
use crate::manifest::RunManifestView;
use crate::record::{ExecutionEventView, RunRecordView, RunStatus, StepStatus};
use crate::run_laws;
use crate::runtime::{LocalRunView, StepExecutionView, StepRunResultView};
use crate::workflow::{StepSpecView, WorkflowSpecView};
use serde_json::Value;
use vstd::prelude::*;

verus! {

impl RunRecordView {
    /// The run with some more events, which are not logged under numbers.
    pub open spec fn with_all_emitted(self, events: Seq<ExecutionEventView>) -> RunRecordView
        decreases events.len(),
    {
        if events.len() == 0 {
            self
        } else {
            self.with_all_emitted(events.drop_last()).with_emitted(events.last())
        }
    }
}

impl LocalRunView {
    /// The run after what a step has come to was taken in.
    pub open spec fn with_result(self, result: StepRunResultView) -> LocalRunView {
        let told = self.run.with_all_emitted(result.events);
        LocalRunView {
            run: RunRecordView {
                steps: told.steps.insert(result.record.id, result.record),
                ..told
            },
            ..self
        }
    }

    /// The run after what some steps have come to was taken in.
    pub open spec fn with_results(self, results: Seq<StepRunResultView>) -> LocalRunView
        decreases results.len(),
    {
        if results.len() == 0 {
            self
        } else {
            self.with_results(results.drop_last()).with_result(results.last())
        }
    }

    /// The run after some batches were handed out and worked off, given what their
    /// steps have come to.
    pub open spec fn through(self, batches: Seq<Seq<StepRunResultView>>) -> LocalRunView
        decreases batches.len(),
    {
        if batches.len() == 0 {
            self
        } else {
            self.through(batches.drop_last()).next().0.with_results(batches.last()).settled()
        }
    }

    /// Whether the batches that are handed out come to the given results.
    pub open spec fn answered(self, batches: Seq<Seq<StepRunResultView>>) -> bool
        decreases batches.len(),
    {
        batches.len() == 0 || {
            &&& self.answered(batches.drop_last())
            &&& results_of(self.through(batches.drop_last()).next().1, batches.last())
        }
    }
}

/// Whether each step of a batch comes to a result: it has succeeded or failed.
pub open spec fn results_of(batch: Seq<StepSpecView>, results: Seq<StepRunResultView>) -> bool {
    &&& results.len() == batch.len()
    &&& forall|i: int|
        0 <= i < results.len() ==> {
            &&& (#[trigger] results[i]).record.id == batch[i].id
            &&& results[i].record.status == StepStatus::Succeeded || results[i].record.status
                == StepStatus::Failed
        }
}

/// The execution of a step comes to a result of that step: it has succeeded, or it has
/// failed.
pub proof fn law_step_succeeds_or_fails(execution: StepExecutionView, output: Value)
    ensures
        execution.success(output).record.id == execution.step.id,
        execution.success(output).record.status == StepStatus::Succeeded,
        execution.failure().record.id == execution.step.id,
        execution.failure().record.status == StepStatus::Failed,
{
}

/// What holds of a run between two batches, and while results come in: there is a record
/// only of steps of the workflow that have succeeded or failed, and only such steps wait.
spec fn on_course(local: LocalRunView) -> bool {
    &&& local.limit >= 1
    &&& local.run.steps.dom().finite()
    &&& forall|id: Seq<char>| #[trigger]
        local.run.steps.contains_key(id) ==> {
            &&& local.run.workflow.step_ids().contains(id)
            &&& local.run.steps[id].status == StepStatus::Succeeded || local.run.steps[id].status
                == StepStatus::Failed
        }
    &&& forall|i: int|
        0 <= i < local.waiting.len() ==> local.run.workflow.step_ids().contains(
            (#[trigger] local.waiting[i]).id,
        )
    &&& local.ended <==> local.run.status == RunStatus::Failed
}

/// A run has failed if and only if a step of it has.
spec fn failure_is_told(local: LocalRunView) -> bool {
    local.run.status == RunStatus::Failed <==> local.run.has_failed()
}

/// No two steps of a list have the same id, and none of them has a record.
pub open spec fn new_and_distinct(run: RunRecordView, steps: Seq<StepSpecView>) -> bool {
    &&& forall|i: int|
        0 <= i < steps.len() ==> !run.steps.contains_key((#[trigger] steps[i]).id)
    &&& forall|i: int, j: int|
        0 <= i < j < steps.len() ==> (#[trigger] steps[i]).id != (#[trigger] steps[j]).id
}

/// What holds of the steps that wait for room between two batches: all that they wait for
/// has succeeded, none of them was started, and no two are the same.
spec fn waits_in_line(local: LocalRunView) -> bool {
    &&& run_laws::waits_only_for_room(local)
    &&& new_and_distinct(local.run, local.waiting)
}

proof fn lemma_filter_comes_from<T>(list: Seq<T>, keep: spec_fn(T) -> bool, i: int)
    requires
        0 <= i < list.filter(keep).len(),
    ensures
        list.contains(list.filter(keep)[i]),
    decreases list.len(),
{
    reveal(Seq::filter);
    if list.len() > 0 {
        let fewer = list.drop_last();
        if i < fewer.filter(keep).len() {
            lemma_filter_comes_from(fewer, keep, i);
            let k = choose|k: int| 0 <= k < fewer.len() && fewer[k] == fewer.filter(keep)[i];
            assert(list[k] == fewer[k]);
        } else {
            assert(list[list.len() - 1] == list.last());
        }
    }
}

proof fn lemma_emitting_keeps(run: RunRecordView, events: Seq<ExecutionEventView>)
    ensures
        run.with_all_emitted(events).steps == run.steps,
        run.with_all_emitted(events).status == run.status,
        run.with_all_emitted(events).workflow == run.workflow,
        run.with_all_emitted(events).manifest == run.manifest,
    decreases events.len(),
{
    if events.len() > 0 {
        lemma_emitting_keeps(run, events.drop_last());
    }
}

proof fn lemma_filter_keeps_distinct(
    steps: Seq<StepSpecView>,
    keep: spec_fn(StepSpecView) -> bool,
)
    requires
        forall|i: int, j: int|
            0 <= i < j < steps.len() ==> (#[trigger] steps[i]).id != (#[trigger] steps[j]).id,
    ensures
        forall|i: int, j: int|
            0 <= i < j < steps.filter(keep).len() ==> (#[trigger] steps.filter(keep)[i]).id != (
            #[trigger] steps.filter(keep)[j]).id,
    decreases steps.len(),
{
    reveal(Seq::filter);
    if steps.len() > 0 {
        let (fewer, kept) = (steps.drop_last(), steps.filter(keep));
        assert forall|i: int, j: int| 0 <= i < j < fewer.len() implies (#[trigger] fewer[i]).id != (
        #[trigger] fewer[j]).id by {
            assert(fewer[i] == steps[i] && fewer[j] == steps[j]);
        }
        lemma_filter_keeps_distinct(fewer, keep);
        assert forall|i: int, j: int| 0 <= i < j < kept.len() implies (#[trigger] kept[i]).id != (
        #[trigger] kept[j]).id by {
            assert(kept[i] == fewer.filter(keep)[i]);
            if j < fewer.filter(keep).len() {
                assert(kept[j] == fewer.filter(keep)[j]);
            } else {
                lemma_filter_comes_from(fewer, keep, i);
                let k = choose|k: int| 0 <= k < fewer.len() && fewer[k] == kept[i];
                assert(steps[k].id != steps[steps.len() - 1].id);
            }
        }
    }
}

proof fn lemma_next_keeps_course(local: LocalRunView)
    requires
        local.run.workflow.flaw() is None,
        on_course(local),
        failure_is_told(local),
        waits_in_line(local),
    ensures
        on_course(local.next().0),
        failure_is_told(local.next().0),
        waits_in_line(local.next().0),
        local.next().0.run == local.run,
        local.next().1.len() > 0 ==> !local.ended,
        new_and_distinct(local.run, local.next().1),
        forall|i: int|
            0 <= i < local.next().1.len() ==> local.run.has_done(
                (#[trigger] local.next().1[i]).depends_on,
            ),
        forall|i: int, j: int|
            0 <= i < local.next().1.len() && 0 <= j < local.next().0.waiting.len() ==> (
            #[trigger] local.next().1[i]).id != (#[trigger] local.next().0.waiting[j]).id,
        forall|i: int|
            0 <= i < local.next().1.len() ==> local.run.workflow.step_ids().contains(
                (#[trigger] local.next().1[i]).id,
            ),
{
    let filled = local.refilled();
    let ids = local.run.workflow.step_ids();
    let can_start = |step: StepSpecView| local.run.is_ready(step);
    if !local.ended {
        assert forall|step: Seq<char>| #[trigger] local.run.steps.contains_key(step) implies
            local.run.steps[step].status == StepStatus::Succeeded by {}
        run_laws::law_local_run_does_not_get_stuck(local);
    }
    assert(filled.run == local.run);
    assert forall|i: int| 0 <= i < filled.waiting.len() implies {
        &&& local.run.has_done((#[trigger] filled.waiting[i]).depends_on)
        &&& !local.run.steps.contains_key(filled.waiting[i].id)
    } by {
        if local.waiting.len() == 0 {
            local.run.workflow.steps.lemma_filter_pred(can_start, i);
            assert(can_start(filled.waiting[i]));
        }
    }
    assert forall|i: int, j: int| 0 <= i < j < filled.waiting.len() implies (
    #[trigger] filled.waiting[i]).id != (#[trigger] filled.waiting[j]).id by {
        if local.waiting.len() == 0 {
            let steps = local.run.workflow.steps;
            assert forall|i: int, j: int| 0 <= i < j < steps.len() implies (#[trigger] steps[i]).id
                != (#[trigger] steps[j]).id by {
                assert(ids[i] == steps[i].id && ids[j] == steps[j].id);
            }
            lemma_filter_keeps_distinct(steps, can_start);
        }
    }
    assert forall|i: int| 0 <= i < filled.waiting.len() implies ids.contains(
        (#[trigger] filled.waiting[i]).id,
    ) by {
        if local.waiting.len() == 0 {
            let steps = local.run.workflow.steps;
            lemma_filter_comes_from(steps, can_start, i);
            let k = choose|k: int| 0 <= k < steps.len() && steps[k] == filled.waiting[i];
            assert(ids[k] == filled.waiting[i].id);
        }
    }
    let size = filled.batch_size();
    let (after, batch) = local.next();
    assert forall|i: int| 0 <= i < after.waiting.len() implies ids.contains(
        (#[trigger] after.waiting[i]).id,
    ) by {
        assert(after.waiting[i] == filled.waiting[size + i]);
    }
    assert forall|i: int| 0 <= i < batch.len() implies ids.contains((#[trigger] batch[i]).id) by {
        assert(batch[i] == filled.waiting[i]);
    }
    assert forall|i: int| 0 <= i < after.waiting.len() implies {
        &&& local.run.has_done((#[trigger] after.waiting[i]).depends_on)
        &&& !local.run.steps.contains_key(after.waiting[i].id)
    } by {
        assert(after.waiting[i] == filled.waiting[size + i]);
    }
    assert forall|i: int, j: int| 0 <= i < j < after.waiting.len() implies (
    #[trigger] after.waiting[i]).id != (#[trigger] after.waiting[j]).id by {
        assert(after.waiting[i] == filled.waiting[size + i]);
        assert(after.waiting[j] == filled.waiting[size + j]);
    }
    assert forall|i: int, j: int| 0 <= i < j < batch.len() implies (#[trigger] batch[i]).id != (
    #[trigger] batch[j]).id by {
        assert(batch[i] == filled.waiting[i] && batch[j] == filled.waiting[j]);
    }
    assert forall|i: int, j: int| 0 <= i < batch.len() && 0 <= j < after.waiting.len() implies (
    #[trigger] batch[i]).id != (#[trigger] after.waiting[j]).id by {
        assert(batch[i] == filled.waiting[i]);
        assert(after.waiting[j] == filled.waiting[size + j]);
    }
}

proof fn lemma_results_keep_course(
    local: LocalRunView,
    batch: Seq<StepSpecView>,
    results: Seq<StepRunResultView>,
)
    requires
        on_course(local),
        results_of(batch, results),
        forall|i: int|
            0 <= i < batch.len() ==> {
                &&& local.run.workflow.step_ids().contains((#[trigger] batch[i]).id)
                &&& !local.run.steps.contains_key(batch[i].id)
            },
    ensures
        ({
            let after = local.with_results(results);
            &&& on_course(after)
            &&& after.waiting == local.waiting
            &&& after.run.workflow == local.run.workflow
            &&& after.run.manifest == local.run.manifest
            &&& after.run.status == local.run.status
            &&& forall|id: Seq<char>| #[trigger]
                local.run.steps.contains_key(id) ==> {
                    &&& after.run.steps.contains_key(id)
                    &&& after.run.steps[id] == local.run.steps[id]
                }
            &&& forall|id: Seq<char>| #[trigger]
                after.run.steps.contains_key(id) ==> {
                    ||| local.run.steps.contains_key(id)
                    ||| exists|i: int| 0 <= i < batch.len() && (#[trigger] batch[i]).id == id
                }
        }),
    decreases results.len(),
{
    if results.len() > 0 {
        let (fewer, rest) = (results.drop_last(), batch.drop_last());
        assert forall|i: int| 0 <= i < fewer.len() implies {
            &&& (#[trigger] fewer[i]).record.id == rest[i].id
            &&& fewer[i].record.status == StepStatus::Succeeded || fewer[i].record.status
                == StepStatus::Failed
        } by {
            assert(fewer[i] == results[i]);
        }
        assert forall|i: int| 0 <= i < rest.len() implies {
            &&& local.run.workflow.step_ids().contains((#[trigger] rest[i]).id)
            &&& !local.run.steps.contains_key(rest[i].id)
        } by {
            assert(rest[i] == batch[i]);
        }
        lemma_results_keep_course(local, rest, fewer);
        let before = local.with_results(fewer);
        let result = results.last();
        assert(results[results.len() - 1] == result);
        assert(batch[batch.len() - 1].id == result.record.id);
        lemma_emitting_keeps(before.run, result.events);
        let after = before.with_result(result);
        assert(after.run.steps.dom() =~= before.run.steps.dom().insert(result.record.id));
        assert forall|id: Seq<char>| #[trigger] after.run.steps.contains_key(id) implies {
            ||| local.run.steps.contains_key(id)
            ||| exists|i: int| 0 <= i < batch.len() && (#[trigger] batch[i]).id == id
        } by {
            if id != result.record.id && !local.run.steps.contains_key(id) {
                assert(before.run.steps.contains_key(id));
                let i = choose|i: int| 0 <= i < rest.len() && (#[trigger] rest[i]).id == id;
                assert(batch[i].id == id);
            }
        }
    }
}

proof fn lemma_settling_keeps_course(local: LocalRunView)
    requires
        on_course(local),
        local.run.status == RunStatus::Failed ==> local.run.has_failed(),
    ensures
        on_course(local.settled()),
        failure_is_told(local.settled()),
        local.settled().run.workflow == local.run.workflow,
        local.settled().run.manifest == local.run.manifest,
        waits_in_line(local) ==> waits_in_line(local.settled()),
{
    assert(local.settled().run.steps == local.run.steps);
}

proof fn lemma_batch_keeps_line(
    local: LocalRunView,
    batch: Seq<StepSpecView>,
    results: Seq<StepRunResultView>,
)
    requires
        on_course(local),
        waits_in_line(local),
        results_of(batch, results),
        new_and_distinct(local.run, batch),
        forall|i: int|
            0 <= i < batch.len() ==> local.run.workflow.step_ids().contains(
                (#[trigger] batch[i]).id,
            ),
        forall|i: int, j: int|
            0 <= i < batch.len() && 0 <= j < local.waiting.len() ==> (#[trigger] batch[i]).id != (
            #[trigger] local.waiting[j]).id,
    ensures
        waits_in_line(local.with_results(results)),
{
    lemma_results_keep_course(local, batch, results);
    let after = local.with_results(results);
    assert forall|j: int| 0 <= j < after.waiting.len() implies after.run.has_done(
        (#[trigger] after.waiting[j]).depends_on,
    ) by {
        let depends_on = after.waiting[j].depends_on;
        assert(local.run.has_done(local.waiting[j].depends_on));
        assert forall|k: int| 0 <= k < depends_on.len() implies {
            &&& after.run.steps.contains_key(#[trigger] depends_on[k])
            &&& after.run.steps[depends_on[k]].status == StepStatus::Succeeded
        } by {
            assert(local.run.steps.contains_key(depends_on[k]));
        }
    }
    assert forall|j: int| 0 <= j < after.waiting.len() implies !after.run.steps.contains_key(
        (#[trigger] after.waiting[j]).id,
    ) by {
        assert(!local.run.steps.contains_key(local.waiting[j].id));
    }
}

proof fn lemma_run_keeps_course(local: LocalRunView, batches: Seq<Seq<StepRunResultView>>)
    requires
        local.run.workflow.flaw() is None,
        on_course(local),
        failure_is_told(local),
        waits_in_line(local),
        local.answered(batches),
    ensures
        on_course(local.through(batches)),
        failure_is_told(local.through(batches)),
        waits_in_line(local.through(batches)),
        local.through(batches).run.workflow == local.run.workflow,
        local.through(batches).run.manifest == local.run.manifest,
    decreases batches.len(),
{
    if batches.len() > 0 {
        lemma_run_keeps_course(local, batches.drop_last());
        let before = local.through(batches.drop_last());
        let (handed_out, batch) = before.next();
        lemma_next_keeps_course(before);
        lemma_results_keep_course(handed_out, batch, batches.last());
        lemma_batch_keeps_line(handed_out, batch, batches.last());
        lemma_settling_keeps_course(handed_out.with_results(batches.last()));
    }
}

proof fn lemma_results_keep_limit(local: LocalRunView, results: Seq<StepRunResultView>)
    ensures
        local.with_results(results).limit == local.limit,
    decreases results.len(),
{
    if results.len() > 0 {
        lemma_results_keep_limit(local, results.drop_last());
    }
}

proof fn lemma_limit_stays(local: LocalRunView, batches: Seq<Seq<StepRunResultView>>)
    ensures
        local.through(batches).limit == local.limit,
    decreases batches.len(),
{
    if batches.len() > 0 {
        let before = local.through(batches.drop_last());
        lemma_limit_stays(local, batches.drop_last());
        lemma_results_keep_limit(before.next().0, batches.last());
    }
}

proof fn lemma_start_is_on_course(
    run_id: Seq<char>,
    workflow: WorkflowSpecView,
    manifest: RunManifestView,
    input: Value,
    limit: usize,
    now: u64,
)
    ensures
        ({
            let start = LocalRunView::started(run_id, workflow, manifest, input, limit, now);
            &&& on_course(start)
            &&& failure_is_told(start)
            &&& waits_in_line(start)
            &&& start.run.workflow == workflow
            &&& start.run.manifest == manifest
        }),
{
}

/// In a run within one process, whatever its steps come to: a batch has no more steps than
/// may run at a time, and a step is started only after all that it waits for has succeeded,
/// only if it was not started before, and not twice in a batch. Steps that wait for room
/// wait for nothing else.
pub proof fn law_local_steps_are_started_in_turn(
    run_id: Seq<char>,
    workflow: WorkflowSpecView,
    manifest: RunManifestView,
    input: Value,
    limit: usize,
    now: u64,
    batches: Seq<Seq<StepRunResultView>>,
)
    requires
        workflow.flaw() is None,
        LocalRunView::started(run_id, workflow, manifest, input, limit, now).answered(batches),
    ensures
        ({
            let start = LocalRunView::started(run_id, workflow, manifest, input, limit, now);
            let local = start.through(batches);
            let batch = local.next().1;
            &&& run_laws::waits_only_for_room(local)
            &&& batch.len() <= local.limit
            &&& local.limit == start.limit
            &&& forall|i: int|
                0 <= i < batch.len() ==> {
                    &&& workflow.step_ids().contains((#[trigger] batch[i]).id)
                    &&& !local.run.steps.contains_key(batch[i].id)
                    &&& forall|j: int|
                        0 <= j < batch[i].depends_on.len() ==> {
                            &&& local.run.steps.contains_key(#[trigger] batch[i].depends_on[j])
                            &&& local.run.steps[batch[i].depends_on[j]].status
                                == StepStatus::Succeeded
                        }
                }
            &&& forall|i: int, j: int|
                0 <= i < j < batch.len() ==> (#[trigger] batch[i]).id != (#[trigger] batch[j]).id
        }),
{
    let start = LocalRunView::started(run_id, workflow, manifest, input, limit, now);
    lemma_start_is_on_course(run_id, workflow, manifest, input, limit, now);
    lemma_run_keeps_course(start, batches);
    lemma_next_keeps_course(start.through(batches));
    lemma_limit_stays(start, batches);
}

/// A run within one process that was driven to its end comes to succeed if and only if it
/// has earned it: every step of its workflow has succeeded, and all of its gates have
/// passed.
pub proof fn law_local_success_is_earned(
    run_id: Seq<char>,
    workflow: WorkflowSpecView,
    manifest: RunManifestView,
    input: Value,
    limit: usize,
    now: u64,
    batches: Seq<Seq<StepRunResultView>>,
    metrics: Seq<MetricView>,
)
    requires
        workflow.flaw() is None,
        ({
            let start = LocalRunView::started(run_id, workflow, manifest, input, limit, now);
            &&& start.answered(batches)
            &&& start.through(batches).next().1.len() == 0
        }),
    ensures
        ({
            let start = LocalRunView::started(run_id, workflow, manifest, input, limit, now);
            let run = start.through(batches).next().0.run.concluded(metrics);
            let decisions = evaluation::decisions(manifest.evaluation_gates, metrics);
            &&& run.status == RunStatus::Succeeded <==> (laws::all_steps_succeeded(workflow, run)
                && evaluation::all_passed(decisions))
            &&& run.status == RunStatus::Succeeded || run.status == RunStatus::Failed
            &&& run.gate_decisions == decisions
        }),
{
    let start = LocalRunView::started(run_id, workflow, manifest, input, limit, now);
    lemma_start_is_on_course(run_id, workflow, manifest, input, limit, now);
    lemma_run_keeps_course(start, batches);
    let end = start.through(batches);
    lemma_next_keeps_course(end);
    let filled = end.refilled();
    let run = end.next().0.run;
    if run.status == RunStatus::Failed {
        let failed = choose|step: Seq<char>| #[trigger]
            run.steps.contains_key(step) && run.steps[step].status == StepStatus::Failed;
        let ids = workflow.step_ids();
        let k = choose|k: int| 0 <= k < ids.len() && ids[k] == failed;
        assert(workflow.steps[k].id == failed);
        assert(!laws::all_steps_succeeded(workflow, run.concluded(metrics)));
    } else {
        assert(filled.batch_size() == 0);
        assert(filled.waiting.len() == 0);
        assert(run.steps.len() >= workflow.steps.len());
        assert forall|i: int| 0 <= i < workflow.steps.len() implies {
            &&& run.concluded(metrics).steps.contains_key((#[trigger] workflow.steps[i]).id)
            &&& run.concluded(metrics).steps[workflow.steps[i].id].status == StepStatus::Succeeded
        } by {
            laws::lemma_all_are_recorded(run, i);
        }
    }
}

} // verus!
