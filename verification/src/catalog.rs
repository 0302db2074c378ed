//! What a registry says of the tasks of a workflow: whether the workflow can be run
//! with them, and the manifest that records them.
//!
//! A catalog maps each task id that was looked up to the specification that the
//! registry gave for it. An id that is not registered is not in the catalog.
use crate::error::{WorkflowError, WorkflowErrorView};
use crate::evaluation::EvaluationGate;
use crate::ids::TaskId;
use crate::manifest::{RunManifest, RunManifestView, RunProvenance, RunProvenanceView};
use crate::ordered::OrderedMap;
use crate::policy::{WorkerProfile, WorkerProfileView};
use crate::task::{TaskSpec, TaskSpecView};
use crate::views::{self, Same};
use crate::workflow::{StepSpec, StepSpecView, WorkflowSpec, WorkflowSpecView};
use vstd::prelude::*;

verus! {

/// What keeps a worker from running a step: it does not meet the step's policy, the
/// task or the fallback is not registered or not within the worker's capabilities,
/// or another task is registered under the task's id.
pub open spec fn step_flaw(
    worker: WorkerProfileView,
    catalog: Map<Seq<char>, TaskSpecView>,
    workflow: Seq<char>,
    step: StepSpecView,
) -> Option<WorkflowErrorView> {
    let unsatisfied = Some(WorkflowErrorView::UnsatisfiedPolicy { workflow, step: step.id });
    if !worker.meets(step.policy) {
        unsatisfied
    } else if !catalog.contains_key(step.task) {
        Some(WorkflowErrorView::UnregisteredTask { task: step.task })
    } else if !worker.meets_for(catalog[step.task].capability, step.policy) {
        unsatisfied
    } else if catalog[step.task].id != step.task {
        Some(WorkflowErrorView::TaskIdMismatch { workflow, step: step.id, task: step.task })
    } else {
        match step.policy.fallback_task {
            Some(fallback) => if !catalog.contains_key(fallback) {
                Some(WorkflowErrorView::UnregisteredTask { task: fallback })
            } else if !worker.meets_for(catalog[fallback].capability, step.policy) {
                unsatisfied
            } else {
                None
            },
            None => None,
        }
    }
}

/// What keeps a step from being submitted: its task or its fallback is not
/// registered, or another task is registered under the task's id.
pub open spec fn submission_flaw(
    catalog: Map<Seq<char>, TaskSpecView>,
    workflow: Seq<char>,
    step: StepSpecView,
) -> Option<WorkflowErrorView> {
    if !catalog.contains_key(step.task) {
        Some(WorkflowErrorView::UnregisteredTask { task: step.task })
    } else if catalog[step.task].id != step.task {
        Some(WorkflowErrorView::TaskIdMismatch { workflow, step: step.id, task: step.task })
    } else {
        match step.policy.fallback_task {
            Some(fallback) => if !catalog.contains_key(fallback) {
                Some(WorkflowErrorView::UnregisteredTask { task: fallback })
            } else {
                None
            },
            None => None,
        }
    }
}

/// The flaw of the first step that has one.
pub open spec fn first_flaw(
    flaw: spec_fn(StepSpecView) -> Option<WorkflowErrorView>,
    steps: Seq<StepSpecView>,
) -> Option<WorkflowErrorView>
    decreases steps.len(),
{
    if steps.len() == 0 {
        None
    } else if flaw(steps[0]) is Some {
        flaw(steps[0])
    } else {
        first_flaw(flaw, steps.drop_first())
    }
}

/// What keeps a worker from running a workflow.
pub open spec fn run_flaw(
    worker: WorkerProfileView,
    catalog: Map<Seq<char>, TaskSpecView>,
    workflow: WorkflowSpecView,
) -> Option<WorkflowErrorView> {
    first_flaw(
        |step: StepSpecView| step_flaw(worker, catalog, workflow.id, step),
        workflow.steps,
    )
}

/// What keeps a workflow from being submitted.
pub open spec fn workflow_flaw(
    catalog: Map<Seq<char>, TaskSpecView>,
    workflow: WorkflowSpecView,
) -> Option<WorkflowErrorView> {
    first_flaw(|step: StepSpecView| submission_flaw(catalog, workflow.id, step), workflow.steps)
}

fn unsatisfied(workflow: &WorkflowSpec, step: &StepSpec) -> (error: WorkflowError)
    ensures
        error@ == (WorkflowErrorView::UnsatisfiedPolicy { workflow: workflow@.id, step: step@.id }),
{
    WorkflowError::UnsatisfiedPolicy { workflow: workflow.id.clone(), step: step.id.clone() }
}

fn unregistered(task: &TaskId) -> (error: WorkflowError)
    ensures
        error@ == (WorkflowErrorView::UnregisteredTask { task: task@ }),
{
    WorkflowError::UnregisteredTask { task: task.clone() }
}

fn mismatch(workflow: &WorkflowSpec, step: &StepSpec) -> (error: WorkflowError)
    ensures
        error@ == (WorkflowErrorView::TaskIdMismatch {
            workflow: workflow@.id,
            step: step@.id,
            task: step@.task,
        }),
{
    WorkflowError::TaskIdMismatch {
        workflow: workflow.id.clone(),
        step: step.id.clone(),
        task: step.task.clone(),
    }
}

fn check_step(
    worker: &WorkerProfile,
    catalog: &OrderedMap<TaskId, TaskSpec>,
    workflow: &WorkflowSpec,
    step: &StepSpec,
) -> (outcome: Result<(), WorkflowError>)
    ensures
        match outcome {
            Ok(()) => step_flaw(worker@, views::map_views(catalog@), workflow@.id, step@) is None,
            Err(error) => step_flaw(worker@, views::map_views(catalog@), workflow@.id, step@)
                == Some(error@),
        },
{
    if !worker.supports(&step.policy) {
        return Err(unsatisfied(workflow, step));
    }
    let task = match catalog.get(&step.task) {
        Some(task) => task,
        None => {
            return Err(unregistered(&step.task));
        },
    };
    if !worker.supports_task(task, &step.policy) {
        return Err(unsatisfied(workflow, step));
    }
    if !task.id.same(&step.task) {
        return Err(mismatch(workflow, step));
    }
    match &step.policy.fallback_task {
        Some(fallback) => match catalog.get(fallback) {
            Some(task) => if worker.supports_task(task, &step.policy) {
                Ok(())
            } else {
                Err(unsatisfied(workflow, step))
            },
            None => Err(unregistered(fallback)),
        },
        None => Ok(()),
    }
}

fn check_submission(
    catalog: &OrderedMap<TaskId, TaskSpec>,
    workflow: &WorkflowSpec,
    step: &StepSpec,
) -> (outcome: Result<(), WorkflowError>)
    ensures
        match outcome {
            Ok(()) => submission_flaw(views::map_views(catalog@), workflow@.id, step@) is None,
            Err(error) => submission_flaw(views::map_views(catalog@), workflow@.id, step@) == Some(
                error@,
            ),
        },
{
    let task = match catalog.get(&step.task) {
        Some(task) => task,
        None => {
            return Err(unregistered(&step.task));
        },
    };
    if !task.id.same(&step.task) {
        return Err(mismatch(workflow, step));
    }
    match &step.policy.fallback_task {
        Some(fallback) => if catalog.contains_key(fallback) {
            Ok(())
        } else {
            Err(unregistered(fallback))
        },
        None => Ok(()),
    }
}

/// Checks that a worker can run every step of a workflow with the tasks that are
/// registered.
pub fn validate_tasks(
    worker: &WorkerProfile,
    catalog: &OrderedMap<TaskId, TaskSpec>,
    workflow: &WorkflowSpec,
) -> (outcome: Result<(), WorkflowError>)
    ensures
        match outcome {
            Ok(()) => run_flaw(worker@, views::map_views(catalog@), workflow@) is None,
            Err(error) => run_flaw(worker@, views::map_views(catalog@), workflow@) == Some(error@),
        },
{
    let ghost flaw = |step: StepSpecView|
        step_flaw(worker@, views::map_views(catalog@), workflow@.id, step);
    let ghost steps = workflow@.steps;
    let mut i: usize = 0;
    assert(steps.skip(0) =~= steps);
    while i < workflow.steps.len()
        invariant
            i <= workflow.steps.len(),
            steps == workflow@.steps,
            flaw == (|step: StepSpecView|
                step_flaw(worker@, views::map_views(catalog@), workflow@.id, step)),
            first_flaw(flaw, steps) == first_flaw(flaw, steps.skip(i as int)),
        decreases workflow.steps.len() - i,
    {
        assert(steps.skip(i as int)[0] == workflow.steps@[i as int]@);
        assert(steps.skip(i as int).drop_first() =~= steps.skip(i + 1));
        match check_step(worker, catalog, workflow, &workflow.steps[i]) {
            Ok(()) => {},
            Err(error) => {
                return Err(error);
            },
        }
        i += 1;
    }
    Ok(())
}

/// Checks that the tasks of every step of a workflow are registered.
pub fn validate_workflow(catalog: &OrderedMap<TaskId, TaskSpec>, workflow: &WorkflowSpec) -> (outcome:
    Result<(), WorkflowError>)
    ensures
        match outcome {
            Ok(()) => workflow_flaw(views::map_views(catalog@), workflow@) is None,
            Err(error) => workflow_flaw(views::map_views(catalog@), workflow@) == Some(error@),
        },
{
    let ghost flaw = |step: StepSpecView|
        submission_flaw(views::map_views(catalog@), workflow@.id, step);
    let ghost steps = workflow@.steps;
    let mut i: usize = 0;
    assert(steps.skip(0) =~= steps);
    while i < workflow.steps.len()
        invariant
            i <= workflow.steps.len(),
            steps == workflow@.steps,
            flaw == (|step: StepSpecView|
                submission_flaw(views::map_views(catalog@), workflow@.id, step)),
            first_flaw(flaw, steps) == first_flaw(flaw, steps.skip(i as int)),
        decreases workflow.steps.len() - i,
    {
        assert(steps.skip(i as int)[0] == workflow.steps@[i as int]@);
        assert(steps.skip(i as int).drop_first() =~= steps.skip(i + 1));
        match check_submission(catalog, workflow, &workflow.steps[i]) {
            Ok(()) => {},
            Err(error) => {
                return Err(error);
            },
        }
        i += 1;
    }
    Ok(())
}

/// The first task of a step, or fallback, that is not registered.
pub open spec fn missing_task(catalog: Map<Seq<char>, TaskSpecView>, step: StepSpecView) -> Option<
    WorkflowErrorView,
> {
    if !catalog.contains_key(step.task) {
        Some(WorkflowErrorView::UnregisteredTask { task: step.task })
    } else if step.policy.fallback_task is Some && !catalog.contains_key(
        step.policy.fallback_task->0,
    ) {
        Some(WorkflowErrorView::UnregisteredTask { task: step.policy.fallback_task->0 })
    } else {
        None
    }
}

/// The tasks of the steps, each under the id of its own specification. Of two under
/// one id the later one stays.
pub open spec fn tasks_of(catalog: Map<Seq<char>, TaskSpecView>, steps: Seq<StepSpecView>) -> Map<
    Seq<char>,
    TaskSpecView,
>
    decreases steps.len(),
{
    if steps.len() == 0 {
        Map::empty()
    } else {
        let step = steps.last();
        let with_task = tasks_of(catalog, steps.drop_last()).insert(
            catalog[step.task].id,
            catalog[step.task],
        );
        match step.policy.fallback_task {
            Some(fallback) => with_task.insert(catalog[fallback].id, catalog[fallback]),
            None => with_task,
        }
    }
}

/// The manifest of a workflow with the tasks that are registered for it.
pub open spec fn manifest_of(
    catalog: Map<Seq<char>, TaskSpecView>,
    workflow: WorkflowSpecView,
    provenance: RunProvenanceView,
) -> RunManifestView {
    RunManifestView {
        evaluation_gates: workflow.evaluation_gates,
        provenance,
        ..RunManifestView::plain(
            workflow.id,
            workflow.version,
            tasks_of(catalog, workflow.steps),
        )
    }
}

/// Builds the manifest of a workflow with the tasks that are registered for it.
pub fn build_manifest(
    catalog: &OrderedMap<TaskId, TaskSpec>,
    workflow: &WorkflowSpec,
    provenance: &RunProvenance,
) -> (outcome: Result<RunManifest, WorkflowError>)
    ensures
        ({
            let known = views::map_views(catalog@);
            let missing = first_flaw(
                |step: StepSpecView| missing_task(known, step),
                workflow@.steps,
            );
            match outcome {
                Ok(manifest) => {
                    &&& missing is None
                    &&& manifest@ == manifest_of(known, workflow@, provenance@)
                },
                Err(error) => missing == Some(error@),
            }
        }),
{
    let ghost known = views::map_views(catalog@);
    let ghost missing = |step: StepSpecView| missing_task(known, step);
    let ghost steps = workflow@.steps;
    let mut tasks: OrderedMap<TaskId, TaskSpec> = OrderedMap::new();
    let mut i: usize = 0;
    assert(steps.skip(0) =~= steps);
    assert(views::map_views(tasks@) =~= tasks_of(known, steps.take(0)));
    while i < workflow.steps.len()
        invariant
            i <= workflow.steps.len(),
            steps == workflow@.steps,
            known == views::map_views(catalog@),
            missing == (|step: StepSpecView| missing_task(known, step)),
            first_flaw(missing, steps) == first_flaw(missing, steps.skip(i as int)),
            views::map_views(tasks@) == tasks_of(known, steps.take(i as int)),
        decreases workflow.steps.len() - i,
    {
        let step = &workflow.steps[i];
        proof {
            assert(steps.skip(i as int)[0] == step@);
            assert(steps.skip(i as int).drop_first() =~= steps.skip(i + 1));
            assert(steps.take(i + 1).drop_last() =~= steps.take(i as int));
            assert(steps.take(i + 1).last() == step@);
        }
        match catalog.get(&step.task) {
            Some(task) => {
                let copy = task.clone();
                proof {
                    views::lemma_map_views_insert(tasks@, task@.id, copy);
                }
                tasks.insert(task.id.clone(), copy);
            },
            None => {
                return Err(unregistered(&step.task));
            },
        }
        match &step.policy.fallback_task {
            Some(fallback) => match catalog.get(fallback) {
                Some(task) => {
                    let copy = task.clone();
                    proof {
                        views::lemma_map_views_insert(tasks@, task@.id, copy);
                    }
                    tasks.insert(task.id.clone(), copy);
                },
                None => {
                    return Err(unregistered(fallback));
                },
            },
            None => {},
        }
        i += 1;
    }
    assert(steps.take(i as int) =~= steps);
    let gates: Vec<EvaluationGate> = workflow.evaluation_gates.clone();
    proof {
        views::lemma_cloned_list(workflow.evaluation_gates@, gates@);
    }
    Ok(
        RunManifest::new(
            workflow.id.clone(),
            workflow.version.clone(),
            tasks,
        ).with_evaluation_gates(gates).with_provenance(provenance.clone()),
    )
}

} // verus!
