//! Tasks: what describes them, what they are told, and how they are looked up.
use crate::error::{IdentifierError, RegistryError, RegistryErrorView};
use crate::ids::{RunId, StepId, TaskId, WorkerId, WorkflowId};
use crate::json::{self, member};
use crate::ordered::OrderedMap;
use crate::text::{self, same_text, IntoText};
use crate::views::{self, Same};
use serde_json::Value;
use vstd::prelude::*;

verus! {

/// Stable metadata describing an executable capability.
#[derive(Debug, Eq)]
pub struct TaskSpec {
    pub id: TaskId,
    pub version: String,
    pub capability: String,
    pub metadata: OrderedMap<String, String>,
}

/// What a `TaskSpec` holds.
#[verifier::ext_equal]
pub struct TaskSpecView {
    pub id: Seq<char>,
    pub version: Seq<char>,
    pub capability: Seq<char>,
    pub metadata: Map<Seq<char>, Seq<char>>,
}

impl View for TaskSpec {
    type V = TaskSpecView;

    open spec fn view(&self) -> TaskSpecView {
        TaskSpecView {
            id: self.id@,
            version: self.version@,
            capability: self.capability@,
            metadata: views::map_views(self.metadata@),
        }
    }
}

impl Clone for TaskSpec {
    fn clone(&self) -> (copy: Self)
        ensures
            copy@ == self@,
    {
        let copy = TaskSpec {
            id: self.id.clone(),
            version: self.version.clone(),
            capability: self.capability.clone(),
            metadata: self.metadata.clone(),
        };
        proof {
            views::lemma_cloned_map(self.metadata@, copy.metadata@);
        }
        copy
    }
}

impl Same for TaskSpec {
    open spec fn same_spec(&self, other: &Self) -> bool {
        self@ == other@
    }

    fn same(&self, other: &Self) -> (answer: bool) {
        proof {
            views::lemma_same_map(self.metadata, other.metadata);
        }
        self.id == other.id
            && same_text(self.version.as_str(), other.version.as_str())
            && same_text(self.capability.as_str(), other.capability.as_str())
            && self.metadata.same(&other.metadata)
    }
}

impl PartialEq for TaskSpec {
    fn eq(&self, other: &Self) -> (answer: bool) {
        self.same(other)
    }
}

impl vstd::std_specs::cmp::PartialEqSpecImpl for TaskSpec {
    open spec fn obeys_eq_spec() -> bool {
        true
    }

    open spec fn eq_spec(&self, other: &Self) -> bool {
        self.same_spec(other)
    }
}


impl TaskSpec {
    /// A task without further metadata.
    pub fn new(id: impl IntoText, version: impl IntoText, capability: impl IntoText) -> (made:
        Result<Self, IdentifierError>)
        ensures
            made is Ok <==> !text::blank(id.text_view()),
            made matches Ok(task) ==> task@ == (TaskSpecView {
                id: id.text_view(),
                version: version.text_view(),
                capability: capability.text_view(),
                metadata: Map::empty(),
            }),
            made matches Err(error) ==> error@ == "TaskId"@,
    {
        match TaskId::new(id) {
            Ok(id) => {
                let metadata: OrderedMap<String, String> = OrderedMap::new();
                assert(views::map_views(metadata@) =~= Map::<Seq<char>, Seq<char>>::empty());
                Ok(
                    TaskSpec {
                        id,
                        version: version.into_text(),
                        capability: capability.into_text(),
                        metadata,
                    },
                )
            },
            Err(error) => Err(error),
        }
    }
}

/// Context supplied to every task invocation.
#[derive(Debug, PartialEq, Eq)]
pub struct TaskContext {
    pub run_id: RunId,
    pub workflow_id: WorkflowId,
    pub step_id: StepId,
    pub attempt: u32,
    pub task: TaskSpec,
    pub worker: Option<WorkerId>,
}

/// What a `TaskContext` holds.
#[verifier::ext_equal]
pub struct TaskContextView {
    pub run_id: Seq<char>,
    pub workflow_id: Seq<char>,
    pub step_id: Seq<char>,
    pub attempt: u32,
    pub task: TaskSpecView,
    pub worker: Option<Seq<char>>,
}

impl View for TaskContext {
    type V = TaskContextView;

    open spec fn view(&self) -> TaskContextView {
        TaskContextView {
            run_id: self.run_id@,
            workflow_id: self.workflow_id@,
            step_id: self.step_id@,
            attempt: self.attempt,
            task: self.task@,
            worker: views::some_view(self.worker),
        }
    }
}

impl Clone for TaskContext {
    fn clone(&self) -> (copy: Self)
        ensures
            copy@ == self@,
    {
        let copy = TaskContext {
            run_id: self.run_id.clone(),
            workflow_id: self.workflow_id.clone(),
            step_id: self.step_id.clone(),
            attempt: self.attempt,
            task: self.task.clone(),
            worker: self.worker.clone(),
        };
        copy
    }
}


/// Adapts a typed task to the JSON boundary of the registry.
pub struct TypedTaskAdapter<T> {
    pub task: T,
    pub use_envelope: bool,
}

/// The part of a step's input that a typed task is given: all of it where the
/// task wants the envelope, else the input of the run, and all of it again where
/// there is none.
pub open spec fn selected_input(use_envelope: bool, input: Value) -> Value {
    if !use_envelope && json::json_members(input).contains_key("run_input"@) {
        json::json_members(input)["run_input"@]
    } else {
        input
    }
}

impl<T> TypedTaskAdapter<T> {
    /// An adapter that hands over the input of the run alone.
    pub fn new(task: T) -> (adapter: Self)
        ensures
            adapter == (TypedTaskAdapter { task, use_envelope: false }),
    {
        TypedTaskAdapter { task, use_envelope: false }
    }

    /// Preserves the orchestration envelope (`run_input` and `dependencies`)
    /// for typed tasks whose input models the complete step context.
    #[must_use]
    pub fn with_envelope(self) -> (adapter: Self)
        ensures
            adapter == (TypedTaskAdapter { task: self.task, use_envelope: true }),
    {
        TypedTaskAdapter { task: self.task, use_envelope: true }
    }

    /// Picks the part of a step's input that the task is given.
    pub fn select_input(&self, input: Value) -> (selected: Value)
        ensures
            selected == selected_input(self.use_envelope, input),
    {
        if self.use_envelope {
            return input;
        }
        match member(&input, "run_input") {
            Some(inner) => inner.clone(),
            None => input,
        }
    }
}

/// A simple registry suitable for process-local execution and tests: it holds
/// whatever is registered under the id of its task.
pub struct InMemoryTaskRegistry<T> {
    tasks: OrderedMap<TaskId, T>,
}

impl<T> View for InMemoryTaskRegistry<T> {
    type V = Map<Seq<char>, T>;

    closed spec fn view(&self) -> Map<Seq<char>, T> {
        self.tasks@
    }
}

impl<T> InMemoryTaskRegistry<T> {
    /// A registry that knows no task.
    pub fn new() -> (registry: Self)
        ensures
            registry@ == Map::<Seq<char>, T>::empty(),
    {
        InMemoryTaskRegistry { tasks: OrderedMap::new() }
    }

    /// Registers a task under the id of its specification. Where that id is taken,
    /// the registration is rejected, and the task that was there stays.
    pub fn register(&mut self, spec: &TaskSpec, task: T) -> (outcome: Result<(), RegistryError>)
        ensures
            match outcome {
                Ok(()) => {
                    &&& !old(self)@.contains_key(spec@.id)
                    &&& final(self)@ == old(self)@.insert(spec@.id, task)
                },
                Err(error) => {
                    &&& old(self)@.contains_key(spec@.id)
                    &&& final(self)@ == old(self)@
                    &&& error@ == (RegistryErrorView::DuplicateTask { task: spec@.id })
                },
            },
    {
        if self.tasks.contains_key(&spec.id) {
            return Err(RegistryError::DuplicateTask { task: spec.id.clone() });
        }
        self.tasks.insert(spec.id.clone(), task);
        Ok(())
    }

    /// What is registered under an id.
    pub fn get(&self, task: &TaskId) -> (found: Option<&T>)
        ensures
            match found {
                Some(value) => self@.contains_key(task@) && *value == self@[task@],
                None => !self@.contains_key(task@),
            },
    {
        self.tasks.get(task)
    }
}

impl<T> Default for InMemoryTaskRegistry<T> {
    fn default() -> (registry: Self)
        ensures
            registry@ == Map::<Seq<char>, T>::empty(),
    {
        InMemoryTaskRegistry::new()
    }
}

} // verus!
