//! What it takes for a workflow to be valid, for a worker to be let run it, and for a
//! request for a run to be accepted, and what such a request comes to.
use crate::catalog;
use crate::durable;
use crate::error::{OrchestratorErrorView, RepositoryErrorView, WorkflowErrorView};
use crate::json;
use crate::locked;
use crate::manifest::RunProvenanceView;
use crate::ordered;
use crate::policy::{ExecutionPolicyView, WorkerProfileView};
use crate::record::{
    EventEnvelopeView, ExecutionEventView, RunRecordView, RunRequestView, RunStatus,
};
use crate::store::RepositoryView;
use crate::task::TaskSpecView;
use crate::text;
use crate::validation;
use crate::workflow::{self, StepSpecView, WorkflowSpecView};
use vstd::prelude::*;

verus! {

/// A worker meets a policy if and only if the policy allows any place or that of the worker,
/// and the worker has the processors, the memory, the accelerators and every capability that
/// the policy asks for. It meets the policy for a task if it moreover has the capability of
/// the task, or advertises no capability at all.
pub proof fn law_worker_has_what_is_asked(
    worker: WorkerProfileView,
    policy: ExecutionPolicyView,
    capability: Seq<char>,
)
    ensures
        worker.meets(policy) <==> {
            &&& policy.residency is Any || policy.residency == worker.residency
            &&& policy.resources.cpu_millis <= worker.resources.cpu_millis
            &&& policy.resources.memory_mb <= worker.resources.memory_mb
            &&& policy.resources.gpu_count <= worker.resources.gpu_count
            &&& forall|asked: Seq<char>| #[trigger]
                policy.resources.capabilities.contains(asked)
                    ==> worker.resources.capabilities.contains(asked)
        },
        worker.meets_for(capability, policy) <==> {
            &&& worker.meets(policy)
            &&& worker.resources.capabilities.contains(capability) || forall|any: Seq<char>|
                !#[trigger] worker.resources.capabilities.contains(any)
        },
        policy.residency.admits(worker.residency) <==> policy.residency is Any || policy.residency
            == worker.residency,
{
    let offered = worker.resources.capabilities;
    if forall|any: Seq<char>| !#[trigger] offered.contains(any) {
        assert(offered =~= Set::<Seq<char>>::empty());
    }
}

/// Whether a worker can run a step with the tasks that are registered.
pub open spec fn can_run(
    worker: WorkerProfileView,
    tasks: Map<Seq<char>, TaskSpecView>,
    step: StepSpecView,
) -> bool {
    let asked = step.policy.resources;
    let offered = worker.resources;
    let fallback = step.policy.fallback_task;
    let unrestricted = forall|any: Seq<char>| !#[trigger] offered.capabilities.contains(any);
    &&& step.policy.residency is Any || step.policy.residency == worker.residency
    &&& asked.cpu_millis <= offered.cpu_millis
    &&& asked.memory_mb <= offered.memory_mb
    &&& asked.gpu_count <= offered.gpu_count
    &&& forall|capability: Seq<char>| #[trigger]
        asked.capabilities.contains(capability) ==> offered.capabilities.contains(capability)
    &&& tasks.contains_key(step.task)
    &&& tasks[step.task].id == step.task
    &&& unrestricted || offered.capabilities.contains(tasks[step.task].capability)
    &&& fallback is Some ==> {
        &&& tasks.contains_key(fallback->0)
        &&& unrestricted || offered.capabilities.contains(tasks[fallback->0].capability)
    }
}

proof fn lemma_can_run(
    worker: WorkerProfileView,
    tasks: Map<Seq<char>, TaskSpecView>,
    workflow: Seq<char>,
    step: StepSpecView,
)
    ensures
        catalog::step_flaw(worker, tasks, workflow, step) is None <==> can_run(worker, tasks, step),
{
    law_worker_has_what_is_asked(worker, step.policy, tasks[step.task].capability);
    if let Some(fallback) = step.policy.fallback_task {
        law_worker_has_what_is_asked(worker, step.policy, tasks[fallback].capability);
    }
}

proof fn lemma_first_flaw(
    flaw: spec_fn(StepSpecView) -> Option<WorkflowErrorView>,
    steps: Seq<StepSpecView>,
)
    ensures
        match catalog::first_flaw(flaw, steps) {
            None => forall|i: int| 0 <= i < steps.len() ==> flaw(#[trigger] steps[i]) is None,
            Some(error) => exists|i: int|
                0 <= i < steps.len() && flaw(#[trigger] steps[i]) == Some(error) && forall|k: int|
                    0 <= k < i ==> flaw(#[trigger] steps[k]) is None,
        },
    decreases steps.len(),
{
    if steps.len() > 0 {
        let rest = steps.drop_first();
        if flaw(steps[0]) is Some {
            assert(flaw(steps[0]) == Some(flaw(steps[0])->0));
        } else {
            lemma_first_flaw(flaw, rest);
            match catalog::first_flaw(flaw, rest) {
                None => {
                    assert forall|i: int| 0 <= i < steps.len() implies flaw(
                        #[trigger] steps[i],
                    ) is None by {
                        if i > 0 {
                            assert(rest[i - 1] == steps[i]);
                        }
                    }
                },
                Some(error) => {
                    let i = choose|i: int|
                        0 <= i < rest.len() && flaw(#[trigger] rest[i]) == Some(error) && forall|
                            k: int,
                        |
                            0 <= k < i ==> flaw(#[trigger] rest[k]) is None;
                    assert(steps[i + 1] == rest[i]);
                    assert forall|k: int| 0 <= k < i + 1 implies flaw(#[trigger] steps[k]) is None by {
                        if k > 0 {
                            assert(rest[k - 1] == steps[k]);
                        }
                    }
                },
            }
        }
    }
}

/// A worker is let run a workflow if and only if it can run every step: it is where the
/// policy wants it, has the processors, the memory, the accelerators and the capabilities
/// that the policy asks for, the task and the fallback of the step are registered, the task
/// under its own id, and the worker has their capabilities, unless it advertises none.
pub proof fn law_worker_can_run_what_it_is_let_run(
    worker: WorkerProfileView,
    tasks: Map<Seq<char>, TaskSpecView>,
    workflow: WorkflowSpecView,
)
    ensures
        catalog::run_flaw(worker, tasks, workflow) is None <==> forall|i: int|
            0 <= i < workflow.steps.len() ==> can_run(worker, tasks, #[trigger] workflow.steps[i]),
{
    let flaw = |step: StepSpecView| catalog::step_flaw(worker, tasks, workflow.id, step);
    lemma_first_flaw(flaw, workflow.steps);
    assert forall|i: int| 0 <= i < workflow.steps.len() implies (flaw(workflow.steps[i]) is None)
        == can_run(worker, tasks, #[trigger] workflow.steps[i]) by {
        lemma_can_run(worker, tasks, workflow.id, workflow.steps[i]);
    }
    if forall|i: int|
        0 <= i < workflow.steps.len() ==> can_run(worker, tasks, #[trigger] workflow.steps[i]) {
        assert forall|i: int| 0 <= i < workflow.steps.len() implies flaw(
            #[trigger] workflow.steps[i],
        ) is None by {}
    }
    if let Some(error) = catalog::first_flaw(flaw, workflow.steps) {
        let i = choose|i: int|
            0 <= i < workflow.steps.len() && flaw(#[trigger] workflow.steps[i]) == Some(error)
                && forall|k: int|
                0 <= k < i ==> flaw(#[trigger] workflow.steps[k]) is None;
        assert(!can_run(worker, tasks, workflow.steps[i]));
    }
}

/// A worker that is let run a workflow has, for every step, at least the processors, the
/// memory and the accelerators that the policy of the step asks for, and all of its
/// capabilities; it is where the policy wants it; the task of the step is registered; and it
/// has the capability of that task and of the fallback, unless it advertises none.
pub proof fn law_checked_worker_meets_every_step(
    worker: WorkerProfileView,
    tasks: Map<Seq<char>, TaskSpecView>,
    workflow: WorkflowSpecView,
    i: int,
)
    requires
        catalog::run_flaw(worker, tasks, workflow) is None,
        0 <= i < workflow.steps.len(),
    ensures
        ({
            let step = workflow.steps[i];
            let fallback = step.policy.fallback_task;
            let offered = worker.resources;
            &&& tasks.contains_key(step.task)
            &&& offered.cpu_millis >= step.policy.resources.cpu_millis
            &&& offered.memory_mb >= step.policy.resources.memory_mb
            &&& offered.gpu_count >= step.policy.resources.gpu_count
            &&& forall|capability: Seq<char>| #[trigger]
                step.policy.resources.capabilities.contains(capability)
                    ==> offered.capabilities.contains(capability)
            &&& step.policy.residency is Any || step.policy.residency == worker.residency
            &&& offered.capabilities.contains(tasks[step.task].capability) || forall|
                any: Seq<char>,
            |
                !#[trigger] offered.capabilities.contains(any)
            &&& fallback is Some ==> {
                &&& tasks.contains_key(fallback->0)
                &&& offered.capabilities.contains(tasks[fallback->0].capability) || forall|
                    any: Seq<char>,
                |
                    !#[trigger] offered.capabilities.contains(any)
            }
        }),
{
    law_worker_can_run_what_it_is_let_run(worker, tasks, workflow);
    assert(can_run(worker, tasks, workflow.steps[i]));
}

/// What is said of the first step that a worker cannot run names what it lacks: a task or a
/// fallback that is not registered, a task that is registered under another id, or a policy
/// that the worker does not satisfy.
pub proof fn law_step_that_cannot_be_run_is_named(
    worker: WorkerProfileView,
    tasks: Map<Seq<char>, TaskSpecView>,
    workflow: WorkflowSpecView,
)
    requires
        catalog::run_flaw(worker, tasks, workflow) is Some,
    ensures
        exists|i: int|
            0 <= i < workflow.steps.len() && !can_run(worker, tasks, #[trigger] workflow.steps[i])
                && (forall|k: int|
                0 <= k < i ==> can_run(worker, tasks, #[trigger] workflow.steps[k])) && ({
                let step = workflow.steps[i];
                match catalog::run_flaw(worker, tasks, workflow)->0 {
                    WorkflowErrorView::UnregisteredTask { task } => {
                        &&& !tasks.contains_key(task)
                        &&& task == step.task || step.policy.fallback_task == Some(task)
                    },
                    WorkflowErrorView::TaskIdMismatch { workflow: named, step: at, task } => {
                        &&& named == workflow.id
                        &&& at == step.id
                        &&& task == step.task
                        &&& tasks.contains_key(task)
                        &&& tasks[task].id != task
                    },
                    WorkflowErrorView::UnsatisfiedPolicy { workflow: named, step: at } => {
                        &&& named == workflow.id
                        &&& at == step.id
                    },
                    _ => false,
                }
            }),
{
    let flaw = |step: StepSpecView| catalog::step_flaw(worker, tasks, workflow.id, step);
    lemma_first_flaw(flaw, workflow.steps);
    let error = catalog::run_flaw(worker, tasks, workflow)->0;
    let i = choose|i: int|
        0 <= i < workflow.steps.len() && flaw(#[trigger] workflow.steps[i]) == Some(error)
            && forall|k: int|
            0 <= k < i ==> flaw(#[trigger] workflow.steps[k]) is None;
    lemma_can_run(worker, tasks, workflow.id, workflow.steps[i]);
    assert forall|k: int| 0 <= k < i implies can_run(
        worker,
        tasks,
        #[trigger] workflow.steps[k],
    ) by {
        lemma_can_run(worker, tasks, workflow.id, workflow.steps[k]);
        assert(flaw(workflow.steps[k]) is None);
    }
    assert(!can_run(worker, tasks, workflow.steps[i]));
}

/// A workflow can be submitted if and only if it has no flaw, the task of each step is
/// registered, under its own id, and so is the fallback of each step that has one.
pub proof fn law_submitted_workflow_has_its_tasks(
    tasks: Map<Seq<char>, TaskSpecView>,
    workflow: WorkflowSpecView,
)
    ensures
        catalog::workflow_flaw(tasks, workflow) is None <==> forall|i: int|
            0 <= i < workflow.steps.len() ==> {
                let step = #[trigger] workflow.steps[i];
                &&& tasks.contains_key(step.task)
                &&& tasks[step.task].id == step.task
                &&& step.policy.fallback_task is Some ==> tasks.contains_key(
                    step.policy.fallback_task->0,
                )
            },
        durable::submission_objection(tasks, workflow) is None <==> workflow.flaw() is None
            && catalog::workflow_flaw(tasks, workflow) is None,
        workflow.flaw() is Some ==> durable::submission_objection(tasks, workflow) == Some(
            OrchestratorErrorView::Workflow(workflow.flaw()->0),
        ),
        workflow.flaw() is None && catalog::workflow_flaw(tasks, workflow) is Some
            ==> durable::submission_objection(tasks, workflow) == Some(
            OrchestratorErrorView::Workflow(catalog::workflow_flaw(tasks, workflow)->0),
        ),
{
    let flaw = |step: StepSpecView| catalog::submission_flaw(tasks, workflow.id, step);
    lemma_first_flaw(flaw, workflow.steps);
    if let Some(error) = catalog::first_flaw(flaw, workflow.steps) {
        let i = choose|i: int|
            0 <= i < workflow.steps.len() && flaw(#[trigger] workflow.steps[i]) == Some(error)
                && forall|k: int|
                0 <= k < i ==> flaw(#[trigger] workflow.steps[k]) is None;
        let step = workflow.steps[i];
        assert(catalog::submission_flaw(tasks, workflow.id, step) is Some);
    } else {
        assert forall|i: int| 0 <= i < workflow.steps.len() implies ({
            let step = #[trigger] workflow.steps[i];
            &&& tasks.contains_key(step.task)
            &&& tasks[step.task].id == step.task
            &&& step.policy.fallback_task is Some ==> tasks.contains_key(
                step.policy.fallback_task->0,
            )
        }) by {
            assert(flaw(workflow.steps[i]) is None);
        }
    }
}

/// What is said of a workflow that cannot be submitted names the first step that is in the
/// way and what it lacks: a task or a fallback that is not registered, or a task that is
/// registered under another id. A manifest is built if and only if all tasks and fallbacks
/// are registered, and the one that is not is named else.
pub proof fn law_missing_task_is_named(
    tasks: Map<Seq<char>, TaskSpecView>,
    workflow: WorkflowSpecView,
)
    ensures
        match catalog::workflow_flaw(tasks, workflow) {
            Some(WorkflowErrorView::UnregisteredTask { task }) => {
                &&& !tasks.contains_key(task)
                &&& exists|i: int|
                    0 <= i < workflow.steps.len() && ((#[trigger] workflow.steps[i]).task == task
                        || workflow.steps[i].policy.fallback_task == Some(task))
            },
            Some(WorkflowErrorView::TaskIdMismatch { workflow: named, step, task }) => {
                &&& named == workflow.id
                &&& tasks.contains_key(task)
                &&& tasks[task].id != task
                &&& exists|i: int|
                    0 <= i < workflow.steps.len() && (#[trigger] workflow.steps[i]).task == task
                        && workflow.steps[i].id == step
            },
            Some(_) => false,
            None => true,
        },
        ({
            let missing = catalog::first_flaw(
                |step: StepSpecView| catalog::missing_task(tasks, step),
                workflow.steps,
            );
            &&& missing is None <==> forall|i: int|
                0 <= i < workflow.steps.len() ==> {
                    &&& tasks.contains_key((#[trigger] workflow.steps[i]).task)
                    &&& workflow.steps[i].policy.fallback_task is Some ==> tasks.contains_key(
                        workflow.steps[i].policy.fallback_task->0,
                    )
                }
            &&& missing is Some ==> {
                &&& missing->0 is UnregisteredTask
                &&& !tasks.contains_key(missing->0->UnregisteredTask_task)
            }
        }),
{
    let flaw = |step: StepSpecView| catalog::submission_flaw(tasks, workflow.id, step);
    let lack = |step: StepSpecView| catalog::missing_task(tasks, step);
    let steps = workflow.steps;
    lemma_first_flaw(flaw, steps);
    lemma_first_flaw(lack, steps);
    if let Some(error) = catalog::workflow_flaw(tasks, workflow) {
        let i = choose|i: int|
            0 <= i < steps.len() && flaw(#[trigger] steps[i]) == Some(error) && forall|k: int|
                0 <= k < i ==> flaw(#[trigger] steps[k]) is None;
        assert(workflow.steps[i] == steps[i]);
    }
    match catalog::first_flaw(lack, steps) {
        Some(error) => {
            let i = choose|i: int|
                0 <= i < steps.len() && lack(#[trigger] steps[i]) == Some(error) && forall|k: int|
                    0 <= k < i ==> lack(#[trigger] steps[k]) is None;
            assert(workflow.steps[i] == steps[i]);
        },
        None => {
            assert forall|i: int| 0 <= i < workflow.steps.len() implies {
                &&& tasks.contains_key((#[trigger] workflow.steps[i]).task)
                &&& workflow.steps[i].policy.fallback_task is Some ==> tasks.contains_key(
                    workflow.steps[i].policy.fallback_task->0,
                )
            } by {
                assert(lack(steps[i]) is None);
            }
        },
    }
}

/// Why a request is refused is put into words: by the flaw of its workflow, the schema
/// version of its manifest, or that the two do not belong together.
pub proof fn law_refusal_in_words(request: RunRequestView)
    ensures
        request.workflow.flaw() is Some ==> request.refusal() == Some(
            RepositoryErrorView::InvalidRequest { message: request.workflow.flaw()->0.text() },
        ),
        request.workflow.flaw() is None && request.manifest.schema_version != 1
            ==> request.refusal() == Some(
            RepositoryErrorView::InvalidRequest {
                message: "unsupported manifest schema version "@ + text::decimal(
                    request.manifest.schema_version as nat,
                ),
            },
        ),
        request.workflow.flaw() is None && request.manifest.schema_version == 1 && (
        request.manifest.workflow_id != request.workflow.id || request.manifest.workflow_version
            != request.workflow.version) ==> request.refusal() == Some(
            RepositoryErrorView::InvalidRequest {
                message: "workflow and manifest identities do not match"@,
            },
        ),
{
}

proof fn lemma_tasks_of(
    catalog: Map<Seq<char>, TaskSpecView>,
    steps: Seq<StepSpecView>,
    id: Seq<char>,
)
    ensures
        catalog::tasks_of(catalog, steps).contains_key(id) <==> exists|i: int|
            0 <= i < steps.len() && (catalog[(#[trigger] steps[i]).task].id == id || (
            steps[i].policy.fallback_task is Some && catalog[steps[i].policy.fallback_task->0].id
                == id)),
        catalog::tasks_of(catalog, steps).contains_key(id) ==> catalog::tasks_of(
            catalog,
            steps,
        )[id].id == id,
        catalog::tasks_of(catalog, steps).contains_key(id) ==> exists|i: int|
            0 <= i < steps.len() && (catalog::tasks_of(catalog, steps)[id] == catalog[(
            #[trigger] steps[i]).task] || (steps[i].policy.fallback_task is Some
                && catalog::tasks_of(catalog, steps)[id]
                == catalog[steps[i].policy.fallback_task->0])),
    decreases steps.len(),
{
    if steps.len() > 0 {
        let fewer = steps.drop_last();
        let step = steps.last();
        lemma_tasks_of(catalog, fewer, id);
        assert(steps[steps.len() - 1] == step);
        if exists|i: int|
            0 <= i < fewer.len() && (catalog[(#[trigger] fewer[i]).task].id == id || (
            fewer[i].policy.fallback_task is Some && catalog[fewer[i].policy.fallback_task->0].id
                == id)) {
            let i = choose|i: int|
                0 <= i < fewer.len() && (catalog[(#[trigger] fewer[i]).task].id == id || (
                fewer[i].policy.fallback_task is Some
                    && catalog[fewer[i].policy.fallback_task->0].id == id));
            assert(steps[i] == fewer[i]);
        }
        if exists|i: int|
            0 <= i < steps.len() && (catalog[(#[trigger] steps[i]).task].id == id || (
            steps[i].policy.fallback_task is Some && catalog[steps[i].policy.fallback_task->0].id
                == id)) {
            let i = choose|i: int|
                0 <= i < steps.len() && (catalog[(#[trigger] steps[i]).task].id == id || (
                steps[i].policy.fallback_task is Some
                    && catalog[steps[i].policy.fallback_task->0].id == id));
            if i < fewer.len() {
                assert(fewer[i] == steps[i]);
            }
        }
        let made = catalog::tasks_of(catalog, steps);
        let earlier = catalog::tasks_of(catalog, fewer);
        if earlier.contains_key(id) && made[id] == earlier[id] {
            let i = choose|i: int|
                0 <= i < fewer.len() && (earlier[id] == catalog[(#[trigger] fewer[i]).task] || (
                fewer[i].policy.fallback_task is Some && earlier[id]
                    == catalog[fewer[i].policy.fallback_task->0]));
            assert(steps[i] == fewer[i]);
        }
    }
}

/// The manifest of a workflow names the workflow and its version, has its gates and the
/// provenance that was given, and has exactly the tasks of its steps and their fallbacks,
/// each as it is registered and under its own id.
pub proof fn law_manifest_records_the_workflow(
    tasks: Map<Seq<char>, TaskSpecView>,
    workflow: WorkflowSpecView,
    provenance: RunProvenanceView,
    id: Seq<char>,
)
    ensures
        ({
            let manifest = catalog::manifest_of(tasks, workflow, provenance);
            let steps = workflow.steps;
            &&& manifest.schema_version == 1
            &&& manifest.workflow_id == workflow.id
            &&& manifest.workflow_version == workflow.version
            &&& manifest.evaluation_gates == workflow.evaluation_gates
            &&& manifest.provenance == provenance
            &&& forall|name: Seq<char>| !#[trigger] manifest.metadata.contains_key(name)
            &&& manifest.tasks.contains_key(id) <==> exists|i: int|
                0 <= i < steps.len() && (tasks[(#[trigger] steps[i]).task].id == id || (
                steps[i].policy.fallback_task is Some && tasks[steps[i].policy.fallback_task->0].id
                    == id))
            &&& manifest.tasks.contains_key(id) ==> manifest.tasks[id].id == id
            &&& manifest.tasks.contains_key(id) ==> exists|i: int|
                0 <= i < steps.len() && (manifest.tasks[id] == tasks[(#[trigger] steps[i]).task]
                    || (steps[i].policy.fallback_task is Some && manifest.tasks[id]
                    == tasks[steps[i].policy.fallback_task->0]))
        }),
{
    lemma_tasks_of(tasks, workflow.steps, id);
}

proof fn lemma_first_unknown(ids: Seq<Seq<char>>, depends_on: Seq<Seq<char>>)
    ensures
        match workflow::first_unknown(ids, depends_on) {
            Some(unknown) => !ids.contains(unknown) && exists|j: int|
                0 <= j < depends_on.len() && #[trigger] depends_on[j] == unknown && forall|k: int|
                    0 <= k < j ==> ids.contains(#[trigger] depends_on[k]),
            None => forall|j: int|
                0 <= j < depends_on.len() ==> ids.contains(#[trigger] depends_on[j]),
        },
    decreases depends_on.len(),
{
    if depends_on.len() > 0 {
        let rest = depends_on.drop_first();
        if ids.contains(depends_on[0]) {
            lemma_first_unknown(ids, rest);
            match workflow::first_unknown(ids, rest) {
                Some(unknown) => {
                    let j = choose|j: int|
                        0 <= j < rest.len() && #[trigger] rest[j] == unknown && forall|k: int|
                            0 <= k < j ==> ids.contains(#[trigger] rest[k]);
                    assert(depends_on[j + 1] == unknown);
                    assert forall|k: int| 0 <= k < j + 1 implies ids.contains(
                        #[trigger] depends_on[k],
                    ) by {
                        if k > 0 {
                            assert(rest[k - 1] == depends_on[k]);
                        }
                    }
                },
                None => {
                    assert forall|j: int| 0 <= j < depends_on.len() implies ids.contains(
                        #[trigger] depends_on[j],
                    ) by {
                        if j > 0 {
                            assert(rest[j - 1] == depends_on[j]);
                        }
                    }
                },
            }
        } else {
            assert(depends_on[0] == depends_on[0]);
        }
    }
}

/// Whether the step of the given id, at a position, is the first that waits for something that
/// is not in a list, and that is the first of its kind.
pub open spec fn is_first_to_miss(
    ids: Seq<Seq<char>>,
    steps: Seq<StepSpecView>,
    i: int,
    step: Seq<char>,
    unknown: Seq<char>,
) -> bool {
    &&& 0 <= i < steps.len()
    &&& steps[i].id == step
    &&& !ids.contains(unknown)
    &&& exists|j: int|
        0 <= j < steps[i].depends_on.len() && #[trigger] steps[i].depends_on[j] == unknown
            && forall|k: int|
            0 <= k < j ==> ids.contains(#[trigger] steps[i].depends_on[k])
    &&& forall|h: int, k: int|
        0 <= h < i && 0 <= k < steps[h].depends_on.len() ==> ids.contains(
            #[trigger] steps[h].depends_on[k],
        )
}

proof fn lemma_all_are_known(ids: Seq<Seq<char>>, steps: Seq<StepSpecView>)
    requires
        workflow::first_unknown_dependency(ids, steps) is None,
    ensures
        forall|i: int, j: int|
            0 <= i < steps.len() && 0 <= j < steps[i].depends_on.len() ==> ids.contains(
                #[trigger] steps[i].depends_on[j],
            ),
    decreases steps.len(),
{
    if steps.len() > 0 {
        let rest = steps.drop_first();
        lemma_first_unknown(ids, steps[0].depends_on);
        lemma_all_are_known(ids, rest);
        assert forall|i: int, j: int|
            0 <= i < steps.len() && 0 <= j < steps[i].depends_on.len() implies ids.contains(
            #[trigger] steps[i].depends_on[j],
        ) by {
            if i > 0 {
                assert(rest[i - 1] == steps[i]);
                assert(ids.contains(rest[i - 1].depends_on[j]));
            }
        }
    }
}

proof fn lemma_first_unknown_is_first(
    ids: Seq<Seq<char>>,
    steps: Seq<StepSpecView>,
    step: Seq<char>,
    unknown: Seq<char>,
) -> (i: int)
    requires
        workflow::first_unknown_dependency(ids, steps) == Some((step, unknown)),
    ensures
        is_first_to_miss(ids, steps, i, step, unknown),
    decreases steps.len(),
{
    let rest = steps.drop_first();
    lemma_first_unknown(ids, steps[0].depends_on);
    if workflow::first_unknown(ids, steps[0].depends_on) is Some {
        0
    } else {
        let i = lemma_first_unknown_is_first(ids, rest, step, unknown);
        assert(steps[i + 1] == rest[i]);
        assert forall|h: int, k: int|
            0 <= h < i + 1 && 0 <= k < steps[h].depends_on.len() implies ids.contains(
            #[trigger] steps[h].depends_on[k],
        ) by {
            if h > 0 {
                assert(rest[h - 1] == steps[h]);
                assert(ids.contains(rest[h - 1].depends_on[k]));
            }
        }
        let j = choose|j: int|
            0 <= j < rest[i].depends_on.len() && #[trigger] rest[i].depends_on[j] == unknown
                && forall|k: int|
                0 <= k < j ==> ids.contains(#[trigger] rest[i].depends_on[k]);
        assert(steps[i + 1].depends_on[j] == unknown);
        i + 1
    }
}

/// Whether the steps of a workflow can be put in order: it has some, no two share an id,
/// each waits for steps of the workflow only, and they can be numbered such that each step
/// has a larger number than all that it waits for.
pub open spec fn can_be_ordered(
    workflow: WorkflowSpecView,
    number: spec_fn(Seq<char>) -> nat,
) -> bool {
    let steps = workflow.steps;
    &&& steps.len() > 0
    &&& forall|i: int, k: int|
        0 <= i < k < steps.len() ==> (#[trigger] steps[i]).id != (#[trigger] steps[k]).id
    &&& forall|i: int, j: int|
        0 <= i < steps.len() && 0 <= j < steps[i].depends_on.len() ==> {
            let other = #[trigger] steps[i].depends_on[j];
            &&& exists|k: int| 0 <= k < steps.len() && (#[trigger] steps[k]).id == other
            &&& number(other) < number(steps[i].id)
        }
}

/// Whether a workflow has a step of the given id.
pub open spec fn has_id(workflow: WorkflowSpecView, id: Seq<char>) -> bool {
    exists|k: int| 0 <= k < workflow.steps.len() && (#[trigger] workflow.steps[k]).id == id
}

/// Whether the step of the given id, at a position of a workflow, is the first that waits for
/// something that is no step of it, and that is the first of its kind.
pub open spec fn waits_first(
    workflow: WorkflowSpecView,
    i: int,
    step: Seq<char>,
    unknown: Seq<char>,
) -> bool {
    is_first_to_miss(
        Seq::new(workflow.steps.len(), |k: int| workflow.steps[k].id),
        workflow.steps,
        i,
        step,
        unknown,
    )
}

/// A workflow is valid if and only if its steps can be put in order. One without steps is
/// said to be empty; else the first unknown dependency is named, with the first step that
/// waits for one; and only where all are known there is said to be a cycle.
pub proof fn law_valid_workflow_can_be_ordered(workflow: WorkflowSpecView)
    ensures
        workflow.flaw() is None <==> exists|number: spec_fn(Seq<char>) -> nat|
            can_be_ordered(workflow, number),
        workflow.steps.len() == 0 ==> workflow.flaw() == Some(
            WorkflowErrorView::Empty { workflow: workflow.id },
        ),
        match workflow.flaw() {
            Some(WorkflowErrorView::UnknownDependency { workflow: named, step, dependency }) => {
                &&& named == workflow.id
                &&& exists|i: int| #[trigger]
                    waits_first(workflow, i, step, dependency)
                &&& forall|k: int|
                    0 <= k < workflow.steps.len() ==> (#[trigger] workflow.steps[k]).id
                        != dependency
            },
            Some(WorkflowErrorView::DependencyCycle { workflow: named }) => {
                &&& named == workflow.id
                &&& forall|i: int, j: int|
                    0 <= i < workflow.steps.len() && 0 <= j < workflow.steps[i].depends_on.len()
                        ==> has_id(workflow, #[trigger] workflow.steps[i].depends_on[j])
            },
            Some(WorkflowErrorView::Empty { workflow: named }) => {
                &&& named == workflow.id
                &&& workflow.steps.len() == 0
            },
            Some(_) => false,
            None => true,
        },
{
    let ids = workflow.step_ids();
    let steps = workflow.steps;
    if workflow::first_unknown_dependency(ids, steps) is None {
        lemma_all_are_known(ids, steps);
    }
    assert(ids =~= Seq::new(steps.len(), |k: int| steps[k].id));
    if let Some(WorkflowErrorView::UnknownDependency { step, dependency, .. }) = workflow.flaw() {
        let i = lemma_first_unknown_is_first(ids, steps, step, dependency);
        assert(waits_first(workflow, i, step, dependency));
    }
    if workflow.flaw() matches Some(WorkflowErrorView::DependencyCycle { .. }) {
        assert forall|i: int, j: int|
            0 <= i < steps.len() && 0 <= j < steps[i].depends_on.len() implies has_id(
            workflow,
            #[trigger] steps[i].depends_on[j],
        ) by {
            let k = choose|k: int| 0 <= k < ids.len() && ids[k] == steps[i].depends_on[j];
            assert(workflow.steps[k].id == steps[i].depends_on[j]);
        }
    }
    assert forall|k: int| 0 <= k < steps.len() implies ids.contains(
        (#[trigger] steps[k]).id,
    ) by {
        assert(ids[k] == steps[k].id);
    }
    if workflow.flaw() is None {
        let rank = choose|rank: spec_fn(Seq<char>) -> nat| workflow.ranked_by(rank);
        assert forall|i: int, k: int| 0 <= i < k < steps.len() implies (#[trigger] steps[i]).id != (
        #[trigger] steps[k]).id by {
            assert(ids[i] != ids[k]);
        }
        assert forall|i: int, j: int|
            0 <= i < steps.len() && 0 <= j < steps[i].depends_on.len() implies ({
            let other = #[trigger] steps[i].depends_on[j];
            &&& exists|k: int| 0 <= k < steps.len() && (#[trigger] steps[k]).id == other
            &&& rank(other) < rank(steps[i].id)
        }) by {
            assert(ids.contains(steps[i].depends_on[j]));
            let k = choose|k: int| 0 <= k < ids.len() && ids[k] == steps[i].depends_on[j];
            assert(steps[k].id == steps[i].depends_on[j]);
        }
        assert(can_be_ordered(workflow, rank));
    }
    if exists|number: spec_fn(Seq<char>) -> nat| can_be_ordered(workflow, number) {
        let number = choose|number: spec_fn(Seq<char>) -> nat| can_be_ordered(workflow, number);
        assert forall|i: int, k: int| 0 <= i < ids.len() && 0 <= k < ids.len() && i
            != k implies ids[i] != ids[k] by {
            if i < k {
                assert(steps[i].id != steps[k].id);
            } else {
                assert(steps[k].id != steps[i].id);
            }
        }
        assert forall|i: int, j: int|
            0 <= i < steps.len() && 0 <= j < steps[i].depends_on.len() implies number(
            #[trigger] steps[i].depends_on[j],
        ) < number(steps[i].id) by {}
        assert(workflow.ranked_by(number));
        if let Some((step, unknown)) = workflow::first_unknown_dependency(ids, steps) {
            let i = lemma_first_unknown_is_first(ids, steps, step, unknown);
            let j = choose|j: int|
                0 <= j < steps[i].depends_on.len() && #[trigger] steps[i].depends_on[j] == unknown
                    && forall|k: int|
                    0 <= k < j ==> ids.contains(#[trigger] steps[i].depends_on[k]);
            assert(steps[i].depends_on[j] == unknown);
            let k = choose|k: int|
                0 <= k < steps.len() && (#[trigger] steps[k]).id == steps[i].depends_on[j];
            assert(ids.contains(steps[k].id));
        }
    }
}

proof fn lemma_foreign_version(log: Seq<EventEnvelopeView>)
    ensures
        validation::first_foreign_version(log) is None <==> forall|i: int|
            0 <= i < log.len() ==> (#[trigger] log[i]).schema_version == 1,
    decreases log.len(),
{
    if log.len() > 0 {
        let rest = log.drop_first();
        lemma_foreign_version(rest);
        if validation::first_foreign_version(log) is None {
            assert forall|i: int| 0 <= i < log.len() implies (#[trigger] log[i]).schema_version
                == 1 by {
                if i > 0 {
                    assert(rest[i - 1] == log[i]);
                }
            }
        }
        if forall|i: int| 0 <= i < log.len() ==> (#[trigger] log[i]).schema_version == 1 {
            assert(log[0].schema_version == 1);
            assert forall|i: int| 0 <= i < rest.len() implies (#[trigger] rest[i]).schema_version
                == 1 by {
                assert(log[i + 1] == rest[i]);
            }
        }
    }
}

/// What is wrong with the schema versions of a record is put into words: the part that has
/// another one, that version, and the one in use.
pub proof fn law_schema_flaw_in_words(run: RunRecordView)
    ensures
        run.schema_version != 1 ==> run.schema_flaw() == Some(
            "unsupported "@ + "run"@ + " schema version "@ + text::decimal(
                run.schema_version as nat,
            ) + "; expected "@ + text::decimal(1),
        ),
        run.schema_version == 1 && run.manifest.schema_version != 1 ==> run.schema_flaw() == Some(
            "unsupported "@ + "manifest"@ + " schema version "@ + text::decimal(
                run.manifest.schema_version as nat,
            ) + "; expected "@ + text::decimal(1),
        ),
{
}

proof fn lemma_first_foreign(log: Seq<EventEnvelopeView>, i: int)
    requires
        0 <= i < log.len(),
        log[i].schema_version != 1,
        forall|j: int| 0 <= j < i ==> (#[trigger] log[j]).schema_version == 1,
    ensures
        validation::first_foreign_version(log) == Some(log[i].schema_version),
    decreases log.len(),
{
    if i > 0 {
        let rest = log.drop_first();
        assert(log[0].schema_version == 1);
        assert forall|j: int| 0 <= j < i - 1 implies (#[trigger] rest[j]).schema_version == 1 by {
            assert(log[j + 1] == rest[j]);
        }
        assert(rest[i - 1] == log[i]);
        lemma_first_foreign(rest, i - 1);
    }
}

/// Of the events that a record has logged, the first of another schema version is the one
/// that is put into words.
pub proof fn law_first_foreign_event_in_words(run: RunRecordView, i: int)
    requires
        run.schema_version == 1,
        run.manifest.schema_version == 1,
        0 <= i < run.event_log.len(),
        run.event_log[i].schema_version != 1,
        forall|j: int| 0 <= j < i ==> (#[trigger] run.event_log[j]).schema_version == 1,
    ensures
        run.schema_flaw() == Some(
            "unsupported "@ + "event"@ + " schema version "@ + text::decimal(
                run.event_log[i].schema_version as nat,
            ) + "; expected "@ + text::decimal(1),
        ),
{
    lemma_first_foreign(run.event_log, i);
}

/// A record is kept if and only if it has schema version one throughout: the run, its
/// manifest and every event that it has logged. It is then loaded as it was saved, and a
/// record that is not kept changes nothing.
pub proof fn law_record_of_the_schema_is_kept(repository: RepositoryView, run: RunRecordView)
    ensures
        ({
            let (after, outcome) = repository.save(run);
            let versioned = run.schema_version == 1 && run.manifest.schema_version == 1 && forall|
                i: int,
            |
                0 <= i < run.event_log.len() ==> (#[trigger] run.event_log[i]).schema_version == 1;
            &&& outcome is Ok <==> versioned
            &&& outcome is Ok ==> after == (RepositoryView {
                runs: repository.runs.insert(run.run_id, run),
                ..repository
            })
            &&& outcome is Err ==> after == repository && outcome->Err_0.adapter == "memory"@
                && run.schema_flaw() == Some(outcome->Err_0.message)
        }),
{
    lemma_foreign_version(run.event_log);
}

proof fn lemma_misfiled(keys: Seq<Seq<char>>, tasks: Map<Seq<char>, TaskSpecView>)
    ensures
        validation::first_misfiled(keys, tasks) is None <==> forall|i: int|
            0 <= i < keys.len() ==> tasks[#[trigger] keys[i]].id == keys[i],
    decreases keys.len(),
{
    if keys.len() > 0 {
        let rest = keys.drop_first();
        lemma_misfiled(rest, tasks);
        if validation::first_misfiled(keys, tasks) is None {
            assert forall|i: int| 0 <= i < keys.len() implies tasks[#[trigger] keys[i]].id
                == keys[i] by {
                if i > 0 {
                    assert(rest[i - 1] == keys[i]);
                }
            }
        }
        if forall|i: int| 0 <= i < keys.len() ==> tasks[#[trigger] keys[i]].id == keys[i] {
            assert(tasks[keys[0]].id == keys[0]);
            assert forall|i: int| 0 <= i < rest.len() implies tasks[#[trigger] rest[i]].id
                == rest[i] by {
                assert(keys[i + 1] == rest[i]);
            }
        }
    }
}

proof fn lemma_without_task(steps: Seq<StepSpecView>, tasks: Map<Seq<char>, TaskSpecView>)
    ensures
        validation::first_without_task(steps, tasks) is None <==> forall|i: int|
            0 <= i < steps.len() ==> {
                &&& tasks.contains_key((#[trigger] steps[i]).task)
                &&& steps[i].policy.fallback_task is Some ==> tasks.contains_key(
                    steps[i].policy.fallback_task->0,
                )
            },
    decreases steps.len(),
{
    if steps.len() > 0 {
        let rest = steps.drop_first();
        lemma_without_task(rest, tasks);
        if validation::first_without_task(steps, tasks) is None {
            assert forall|i: int| 0 <= i < steps.len() implies {
                &&& tasks.contains_key((#[trigger] steps[i]).task)
                &&& steps[i].policy.fallback_task is Some ==> tasks.contains_key(
                    steps[i].policy.fallback_task->0,
                )
            } by {
                if i > 0 {
                    assert(rest[i - 1] == steps[i]);
                }
            }
        }
        if forall|i: int|
            0 <= i < steps.len() ==> {
                &&& tasks.contains_key((#[trigger] steps[i]).task)
                &&& steps[i].policy.fallback_task is Some ==> tasks.contains_key(
                    steps[i].policy.fallback_task->0,
                )
            } {
            assert(tasks.contains_key(steps[0].task));
            assert forall|i: int| 0 <= i < rest.len() implies {
                &&& tasks.contains_key((#[trigger] rest[i]).task)
                &&& rest[i].policy.fallback_task is Some ==> tasks.contains_key(
                    rest[i].policy.fallback_task->0,
                )
            } by {
                assert(steps[i + 1] == rest[i]);
            }
        }
    }
}

/// Whether a request for a run is complete: its workflow has no flaw; its manifest has
/// schema version one, is of that workflow and version, has each task under its own id, and
/// has the task and the fallback of every step.
pub open spec fn is_complete(request: RunRequestView) -> bool {
    let tasks = request.manifest.tasks;
    &&& request.workflow.flaw() is None
    &&& request.manifest.schema_version == 1
    &&& request.manifest.workflow_id == request.workflow.id
    &&& request.manifest.workflow_version == request.workflow.version
    &&& forall|key: Seq<char>| #[trigger] tasks.contains_key(key) ==> tasks[key].id == key
    &&& forall|i: int|
        0 <= i < request.workflow.steps.len() ==> {
            let step = #[trigger] request.workflow.steps[i];
            &&& tasks.contains_key(step.task)
            &&& step.policy.fallback_task is Some ==> tasks.contains_key(
                step.policy.fallback_task->0,
            )
        }
}

proof fn lemma_first_misfiled(
    keys: Seq<Seq<char>>,
    tasks: Map<Seq<char>, TaskSpecView>,
    i: int,
)
    requires
        0 <= i < keys.len(),
        tasks[keys[i]].id != keys[i],
        forall|j: int| 0 <= j < i ==> tasks[#[trigger] keys[j]].id == keys[j],
    ensures
        validation::first_misfiled(keys, tasks) == Some(keys[i]),
    decreases keys.len(),
{
    if i > 0 {
        let rest = keys.drop_first();
        assert(tasks[keys[0]].id == keys[0]);
        assert forall|j: int| 0 <= j < i - 1 implies tasks[#[trigger] rest[j]].id == rest[j] by {
            assert(keys[j + 1] == rest[j]);
        }
        assert(rest[i - 1] == keys[i]);
        lemma_first_misfiled(rest, tasks, i - 1);
    }
}

/// Of the keys of a manifest under which a task of another id is kept, the first in the
/// order of text is the one that is put into words.
pub proof fn law_first_misfiled_task_in_words(request: RunRequestView, key: Seq<char>)
    requires
        request.manifest.tasks.dom().finite(),
        request.workflow.flaw() is None,
        request.manifest.schema_version == 1,
        request.manifest.workflow_id == request.workflow.id,
        request.manifest.workflow_version == request.workflow.version,
        request.manifest.tasks.contains_key(key),
        request.manifest.tasks[key].id != key,
        forall|other: Seq<char>| #[trigger]
            request.manifest.tasks.contains_key(other) && text::text_below(other, key)
                ==> request.manifest.tasks[other].id == other,
    ensures
        request.refusal() == Some(
            RepositoryErrorView::InvalidRequest {
                message: "manifest task key "@ + key + " does not match task id "@
                    + request.manifest.tasks[key].id,
            },
        ),
{
    let tasks = request.manifest.tasks;
    let keys = ordered::ascending(tasks.dom());
    ordered::lemma_ascending_of(tasks.dom());
    assert(keys.to_set().contains(key));
    let i = choose|i: int| 0 <= i < keys.len() && keys[i] == key;
    assert forall|j: int| 0 <= j < i implies tasks[#[trigger] keys[j]].id == keys[j] by {
        assert(text::text_below(keys[j], keys[i]));
        assert(keys.to_set().contains(keys[j]));
        assert(tasks.contains_key(keys[j]));
    }
    lemma_first_misfiled(keys, tasks, i);
}

proof fn lemma_first_without_task(
    steps: Seq<StepSpecView>,
    tasks: Map<Seq<char>, TaskSpecView>,
    i: int,
)
    requires
        0 <= i < steps.len(),
        !tasks.contains_key(steps[i].task) || (steps[i].policy.fallback_task is Some
            && !tasks.contains_key(steps[i].policy.fallback_task->0)),
        forall|j: int|
            0 <= j < i ==> {
                &&& tasks.contains_key((#[trigger] steps[j]).task)
                &&& steps[j].policy.fallback_task is Some ==> tasks.contains_key(
                    steps[j].policy.fallback_task->0,
                )
            },
    ensures
        validation::first_without_task(steps, tasks) == Some(steps[i].id),
    decreases steps.len(),
{
    if i > 0 {
        let rest = steps.drop_first();
        assert(tasks.contains_key(steps[0].task));
        assert forall|j: int| 0 <= j < i - 1 implies {
            &&& tasks.contains_key((#[trigger] rest[j]).task)
            &&& rest[j].policy.fallback_task is Some ==> tasks.contains_key(
                rest[j].policy.fallback_task->0,
            )
        } by {
            assert(steps[j + 1] == rest[j]);
        }
        assert(rest[i - 1] == steps[i]);
        lemma_first_without_task(rest, tasks, i - 1);
    }
}

/// Of the steps whose task or fallback a manifest lacks, the first is the one that is put
/// into words.
pub proof fn law_first_step_without_task_in_words(request: RunRequestView, i: int)
    requires
        request.manifest.tasks.dom().finite(),
        request.workflow.flaw() is None,
        request.manifest.schema_version == 1,
        request.manifest.workflow_id == request.workflow.id,
        request.manifest.workflow_version == request.workflow.version,
        forall|key: Seq<char>| #[trigger]
            request.manifest.tasks.contains_key(key) ==> request.manifest.tasks[key].id == key,
        0 <= i < request.workflow.steps.len(),
        ({
            let step = request.workflow.steps[i];
            ||| !request.manifest.tasks.contains_key(step.task)
            ||| step.policy.fallback_task is Some && !request.manifest.tasks.contains_key(
                step.policy.fallback_task->0,
            )
        }),
        forall|j: int|
            0 <= j < i ==> {
                let step = #[trigger] request.workflow.steps[j];
                &&& request.manifest.tasks.contains_key(step.task)
                &&& step.policy.fallback_task is Some ==> request.manifest.tasks.contains_key(
                    step.policy.fallback_task->0,
                )
            },
    ensures
        request.refusal() == Some(
            RepositoryErrorView::InvalidRequest {
                message: "manifest does not contain all tasks for step "@
                    + request.workflow.steps[i].id,
            },
        ),
{
    let tasks = request.manifest.tasks;
    let keys = ordered::ascending(tasks.dom());
    ordered::lemma_ascending_of(tasks.dom());
    lemma_misfiled(keys, tasks);
    assert forall|k: int| 0 <= k < keys.len() implies tasks[#[trigger] keys[k]].id
        == keys[k] by {
        assert(keys.to_set().contains(keys[k]));
        assert(tasks.contains_key(keys[k]));
    }
    lemma_first_without_task(request.workflow.steps, tasks, i);
}

/// A request for a run is refused if and only if it is not complete.
pub proof fn law_incomplete_request_is_refused(request: RunRequestView)
    requires
        request.manifest.tasks.dom().finite(),
    ensures
        request.refusal() is None <==> is_complete(request),
        request.refusal() is Some ==> request.refusal()->0 is InvalidRequest,
{
    let tasks = request.manifest.tasks;
    let keys = ordered::ascending(tasks.dom());
    ordered::lemma_ascending_of(tasks.dom());
    lemma_misfiled(keys, tasks);
    lemma_without_task(request.workflow.steps, tasks);
    if forall|i: int| 0 <= i < keys.len() ==> tasks[#[trigger] keys[i]].id == keys[i] {
        assert forall|key: Seq<char>| #[trigger] tasks.contains_key(key) implies tasks[key].id
            == key by {
            assert(keys.to_set().contains(key));
            let i = choose|i: int| 0 <= i < keys.len() && keys[i] == key;
            assert(tasks[keys[i]].id == keys[i]);
        }
    }
    if forall|key: Seq<char>| #[trigger] tasks.contains_key(key) ==> tasks[key].id == key {
        assert forall|i: int| 0 <= i < keys.len() implies tasks[#[trigger] keys[i]].id
            == keys[i] by {
            assert(keys.to_set().contains(keys[i]));
            assert(tasks.contains_key(keys[i]));
        }
    }
    if validation::first_without_task(request.workflow.steps, tasks) is None {
        assert forall|i: int| 0 <= i < request.workflow.steps.len() implies ({
            let step = #[trigger] request.workflow.steps[i];
            &&& tasks.contains_key(step.task)
            &&& step.policy.fallback_task is Some ==> tasks.contains_key(
                step.policy.fallback_task->0,
            )
        }) by {}
    }
    if is_complete(request) {
        let steps = request.workflow.steps;
        assert forall|i: int| 0 <= i < steps.len() implies {
            &&& tasks.contains_key((#[trigger] steps[i]).task)
            &&& steps[i].policy.fallback_task is Some ==> tasks.contains_key(
                steps[i].policy.fallback_task->0,
            )
        } by {
            assert(request.workflow.steps[i] == steps[i]);
        }
    }
}

/// The run that a request asks for: it is running, has what the request came with, and has
/// no record of a step, no metrics, no error and no decisions.
pub open spec fn is_just_started(run: RunRecordView, request: RunRequestView, now: u64) -> bool {
    &&& run.schema_version == 1
    &&& run.run_id == request.run_id
    &&& run.workflow == request.workflow
    &&& run.manifest == request.manifest
    &&& run.input == request.input
    &&& run.idempotency_key == request.idempotency_key
    &&& run.status == RunStatus::Running
    &&& forall|id: Seq<char>| !#[trigger] run.steps.contains_key(id)
    &&& run.metrics.len() == 0
    &&& forall|name: Seq<char>| !#[trigger] run.gate_decisions.contains_key(name)
    &&& run.error is None
    &&& run.created_at_ms == now
    &&& run.revision == 1
    &&& run.event_log.len() == 1
    &&& run.events.len() == 1
    &&& run.events[0] == (ExecutionEventView::RunStarted {
        run_id: request.run_id,
        workflow_id: request.workflow.id,
    })
    &&& run.event_log[0].event == run.events[0]
    &&& run.event_log[0].occurred_at_ms == now
    &&& run.event_log[0].schema_version == 1
}

/// What asking for a run comes to. A request that is refused changes nothing, and neither
/// does one whose idempotency key is known: that is answered with the run of the key if it
/// asks for the same workflow, manifest and input, and with a conflict else. A run id that is
/// taken is a conflict. Else the run is started, under its id and its key, and its start is
/// logged.
pub proof fn law_creation_starts_the_run(
    repository: RepositoryView,
    request: RunRequestView,
    now: u64,
)
    requires
        repository.consistent(),
    ensures
        ({
            let (after, outcome) = repository.create(request, now);
            let key = request.idempotency_key;
            if request.refusal() is Some {
                &&& after == repository
                &&& outcome == Err::<RunRecordView, RepositoryErrorView>(request.refusal()->0)
            } else if key is Some && repository.idempotency.contains_key(key->0) {
                let id = repository.idempotency[key->0];
                let known = repository.runs[id];
                &&& after == repository
                &&& if known.workflow.equals(request.workflow) && known.manifest.equals(
                    request.manifest,
                ) && (known.input == request.input || json::json_equal(
                    known.input,
                    request.input,
                )) {
                    outcome == Ok::<RunRecordView, RepositoryErrorView>(known)
                } else {
                    outcome == Err::<RunRecordView, RepositoryErrorView>(
                        RepositoryErrorView::IdempotencyConflict { run: id },
                    )
                }
            } else if repository.runs.contains_key(request.run_id) {
                &&& after == repository
                &&& outcome == Err::<RunRecordView, RepositoryErrorView>(
                    RepositoryErrorView::Conflict { run: request.run_id },
                )
            } else {
                let run = after.runs[request.run_id];
                &&& outcome == Ok::<RunRecordView, RepositoryErrorView>(run)
                &&& is_just_started(run, request, now)
                &&& after.runs == repository.runs.insert(request.run_id, run)
                &&& after.idempotency == (if key is Some {
                    repository.idempotency.insert(key->0, request.run_id)
                } else {
                    repository.idempotency
                })
                &&& after.events == repository.events.push(run.event_log[0])
                &&& run.event_log[0].sequence == after.next_event_sequence
                &&& repository.next_event_sequence < u64::MAX ==> after.next_event_sequence
                    == repository.next_event_sequence + 1
                &&& after.next_lease_token == repository.next_lease_token
            }
        }),
{
    let (after, outcome) = repository.create(request, now);
    if request.refusal() is None && outcome is Ok && after != repository {
        let run = after.runs[request.run_id];
        assert(after.runs =~= repository.runs.insert(request.run_id, run));
        assert(after.events =~= repository.events.push(run.event_log[0]));
    }
}

/// The same holds of a run that is inserted under a lock, whose first event has number one;
/// and a known run is handed out only to one who asks for the same.
pub proof fn law_locked_creation_starts_the_run(
    existing: RunRecordView,
    request: RunRequestView,
    now: u64,
)
    ensures
        is_just_started(locked::started(request, now), request, now),
        locked::started(request, now).event_log[0].sequence == 1,
        ({
            let answer = locked::known_answer(existing, request);
            if existing.workflow.equals(request.workflow) && existing.manifest.equals(
                request.manifest,
            ) && (existing.input == request.input || json::json_equal(
                existing.input,
                request.input,
            )) {
                answer == Ok::<RunRecordView, RepositoryErrorView>(existing)
            } else {
                answer == Err::<RunRecordView, RepositoryErrorView>(
                    RepositoryErrorView::IdempotencyConflict { run: existing.run_id },
                )
            }
        }),
{
}

} // verus!
