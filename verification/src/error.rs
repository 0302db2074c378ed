//! What can go wrong, and how it is put into words.
use crate::ids::{RunId, StepId, TaskId, WorkflowId};
use crate::text::{self, decimal_text, IntoText};
use vstd::prelude::*;
use vstd::string::*;

verus! {

/// An identifier was rejected before it entered a workflow definition.
#[derive(Debug, PartialEq, Eq)]
pub struct IdentifierError {
    pub kind: &'static str,
}

impl Clone for IdentifierError {
    fn clone(&self) -> (copy: Self)
        ensures
            copy == *self,
    {
        IdentifierError { kind: self.kind }
    }
}

impl View for IdentifierError {
    type V = Seq<char>;

    open spec fn view(&self) -> Seq<char> {
        self.kind@
    }
}

/// What is said of an identifier of the given kind that is blank.
pub open spec fn identifier_error_text(kind: Seq<char>) -> Seq<char> {
    kind + " cannot be empty"@
}

impl IdentifierError {
    /// Puts the error into words.
    pub fn message(&self) -> (words: String)
        ensures
            words@ == identifier_error_text(self@),
    {
        let mut words = self.kind.to_owned();
        words.append(" cannot be empty");
        words
    }
}

/// A process-local registry rejected a task registration.
#[derive(Debug, PartialEq, Eq)]
pub enum RegistryError {
    DuplicateTask { task: TaskId },
}

/// What a `RegistryError` says.
#[verifier::ext_equal]
pub enum RegistryErrorView {
    DuplicateTask { task: Seq<char> },
}

impl View for RegistryError {
    type V = RegistryErrorView;

    open spec fn view(&self) -> RegistryErrorView {
        match *self {
            RegistryError::DuplicateTask { task } => RegistryErrorView::DuplicateTask {
                task: task@,
            },
        }
    }
}

impl Clone for RegistryError {
    fn clone(&self) -> (copy: Self)
        ensures
            copy@ == self@,
    {
        match self {
            RegistryError::DuplicateTask { task } => RegistryError::DuplicateTask {
                task: task.clone(),
            },
        }
    }
}

impl RegistryErrorView {
    /// The error in words.
    pub open spec fn text(self) -> Seq<char> {
        match self {
            RegistryErrorView::DuplicateTask { task } => {
                "task "@ + task + " was already registered"@
            },
        }
    }
}

impl RegistryError {
    /// Puts the error into words.
    pub fn message(&self) -> (words: String)
        ensures
            words@ == self@.text(),
    {
        match self {
            RegistryError::DuplicateTask { task } => {
                let mut words = "task ".to_owned();
                words.append(task.as_str());
                words.append(" was already registered");
                words
            },
        }
    }
}

/// An application-provided persistence or event adapter failed.
#[derive(Debug)]
pub struct AdapterError {
    pub adapter: &'static str,
    pub message: String,
}

/// What an `AdapterError` says.
#[verifier::ext_equal]
pub struct AdapterErrorView {
    pub adapter: Seq<char>,
    pub message: Seq<char>,
}

impl View for AdapterError {
    type V = AdapterErrorView;

    open spec fn view(&self) -> AdapterErrorView {
        AdapterErrorView { adapter: self.adapter@, message: self.message@ }
    }
}

impl AdapterErrorView {
    /// The error in words.
    pub open spec fn text(self) -> Seq<char> {
        self.adapter + " adapter failed: "@ + self.message
    }
}

impl AdapterError {
    /// An error of the named adapter.
    #[must_use]
    pub fn new(adapter: &'static str, message: impl IntoText) -> (error: Self)
        ensures
            error@ == (AdapterErrorView { adapter: adapter@, message: message.text_view() }),
    {
        AdapterError { adapter, message: message.into_text() }
    }

    /// Puts the error into words.
    pub fn message(&self) -> (words: String)
        ensures
            words@ == self@.text(),
    {
        let mut words = self.adapter.to_owned();
        words.append(" adapter failed: ");
        words.append(self.message.as_str());
        words
    }
}

/// Errors returned by a task implementation.
#[derive(Debug, PartialEq, Eq)]
pub enum TaskError {
    InvalidInput(String),
    Transient(String),
    Permanent(String),
    Timeout { timeout_ms: u64 },
    Serialization(String),
}

/// What a `TaskError` says.
#[verifier::ext_equal]
pub enum TaskErrorView {
    InvalidInput(Seq<char>),
    Transient(Seq<char>),
    Permanent(Seq<char>),
    Timeout { timeout_ms: u64 },
    Serialization(Seq<char>),
}

impl View for TaskError {
    type V = TaskErrorView;

    open spec fn view(&self) -> TaskErrorView {
        match *self {
            TaskError::InvalidInput(reason) => TaskErrorView::InvalidInput(reason@),
            TaskError::Transient(reason) => TaskErrorView::Transient(reason@),
            TaskError::Permanent(reason) => TaskErrorView::Permanent(reason@),
            TaskError::Timeout { timeout_ms } => TaskErrorView::Timeout { timeout_ms },
            TaskError::Serialization(reason) => TaskErrorView::Serialization(reason@),
        }
    }
}

impl Clone for TaskError {
    fn clone(&self) -> (copy: Self)
        ensures
            copy@ == self@,
    {
        match self {
            TaskError::InvalidInput(reason) => TaskError::InvalidInput(reason.clone()),
            TaskError::Transient(reason) => TaskError::Transient(reason.clone()),
            TaskError::Permanent(reason) => TaskError::Permanent(reason.clone()),
            TaskError::Timeout { timeout_ms } => TaskError::Timeout { timeout_ms: *timeout_ms },
            TaskError::Serialization(reason) => TaskError::Serialization(reason.clone()),
        }
    }
}

impl TaskErrorView {
    /// The error in words.
    pub open spec fn text(self) -> Seq<char> {
        match self {
            TaskErrorView::InvalidInput(reason) => "task input is invalid: "@ + reason,
            TaskErrorView::Transient(reason) => "task failed transiently: "@ + reason,
            TaskErrorView::Permanent(reason) => "task failed permanently: "@ + reason,
            TaskErrorView::Timeout { timeout_ms } => {
                "task timed out after "@ + text::decimal(timeout_ms as nat) + " ms"@
            },
            TaskErrorView::Serialization(reason) => "task serialization failed: "@ + reason,
        }
    }
}

impl TaskError {
    /// Puts the error into words.
    pub fn message(&self) -> (words: String)
        ensures
            words@ == self@.text(),
    {
        match self {
            TaskError::InvalidInput(reason) => {
                let mut words = "task input is invalid: ".to_owned();
                words.append(reason.as_str());
                words
            },
            TaskError::Transient(reason) => {
                let mut words = "task failed transiently: ".to_owned();
                words.append(reason.as_str());
                words
            },
            TaskError::Permanent(reason) => {
                let mut words = "task failed permanently: ".to_owned();
                words.append(reason.as_str());
                words
            },
            TaskError::Timeout { timeout_ms } => {
                let mut words = "task timed out after ".to_owned();
                words.append(decimal_text(*timeout_ms).as_str());
                words.append(" ms");
                words
            },
            TaskError::Serialization(reason) => {
                let mut words = "task serialization failed: ".to_owned();
                words.append(reason.as_str());
                words
            },
        }
    }
}

impl TaskErrorView {
    /// Whether another attempt may do better.
    pub open spec fn is_retryable(self) -> bool {
        self is Transient || self is Timeout
    }
}

impl TaskError {
    /// Whether another attempt may do better: after a transient failure and after
    /// a timeout, and not otherwise.
    #[must_use]
    pub fn retryable(&self) -> (answer: bool)
        ensures
            answer == self@.is_retryable(),
    {
        matches!(self, TaskError::Transient(_) | TaskError::Timeout { .. })
    }
}

/// Invalid workflow topology or task registration.
#[derive(Debug, PartialEq, Eq)]
pub enum WorkflowError {
    DuplicateStep { workflow: WorkflowId, step: StepId },
    UnknownDependency { workflow: WorkflowId, step: StepId, dependency: StepId },
    DependencyCycle { workflow: WorkflowId },
    Empty { workflow: WorkflowId },
    UnregisteredTask { task: TaskId },
    TaskIdMismatch { workflow: WorkflowId, step: StepId, task: TaskId },
    UnsatisfiedPolicy { workflow: WorkflowId, step: StepId },
}

/// What a `WorkflowError` says.
#[verifier::ext_equal]
pub enum WorkflowErrorView {
    DuplicateStep { workflow: Seq<char>, step: Seq<char> },
    UnknownDependency { workflow: Seq<char>, step: Seq<char>, dependency: Seq<char> },
    DependencyCycle { workflow: Seq<char> },
    Empty { workflow: Seq<char> },
    UnregisteredTask { task: Seq<char> },
    TaskIdMismatch { workflow: Seq<char>, step: Seq<char>, task: Seq<char> },
    UnsatisfiedPolicy { workflow: Seq<char>, step: Seq<char> },
}

impl View for WorkflowError {
    type V = WorkflowErrorView;

    open spec fn view(&self) -> WorkflowErrorView {
        match *self {
            WorkflowError::DuplicateStep { workflow, step } => WorkflowErrorView::DuplicateStep {
                workflow: workflow@,
                step: step@,
            },
            WorkflowError::UnknownDependency { workflow, step, dependency } => WorkflowErrorView::UnknownDependency {
                workflow: workflow@,
                step: step@,
                dependency: dependency@,
            },
            WorkflowError::DependencyCycle { workflow } => WorkflowErrorView::DependencyCycle {
                workflow: workflow@,
            },
            WorkflowError::Empty { workflow } => WorkflowErrorView::Empty { workflow: workflow@ },
            WorkflowError::UnregisteredTask { task } => WorkflowErrorView::UnregisteredTask {
                task: task@,
            },
            WorkflowError::TaskIdMismatch { workflow, step, task } => WorkflowErrorView::TaskIdMismatch {
                workflow: workflow@,
                step: step@,
                task: task@,
            },
            WorkflowError::UnsatisfiedPolicy { workflow, step } => WorkflowErrorView::UnsatisfiedPolicy {
                workflow: workflow@,
                step: step@,
            },
        }
    }
}

impl Clone for WorkflowError {
    fn clone(&self) -> (copy: Self)
        ensures
            copy@ == self@,
    {
        match self {
            WorkflowError::DuplicateStep { workflow, step } => WorkflowError::DuplicateStep {
                workflow: workflow.clone(),
                step: step.clone(),
            },
            WorkflowError::UnknownDependency { workflow, step, dependency } => WorkflowError::UnknownDependency {
                workflow: workflow.clone(),
                step: step.clone(),
                dependency: dependency.clone(),
            },
            WorkflowError::DependencyCycle { workflow } => WorkflowError::DependencyCycle {
                workflow: workflow.clone(),
            },
            WorkflowError::Empty { workflow } => WorkflowError::Empty {
                workflow: workflow.clone(),
            },
            WorkflowError::UnregisteredTask { task } => WorkflowError::UnregisteredTask {
                task: task.clone(),
            },
            WorkflowError::TaskIdMismatch { workflow, step, task } => WorkflowError::TaskIdMismatch {
                workflow: workflow.clone(),
                step: step.clone(),
                task: task.clone(),
            },
            WorkflowError::UnsatisfiedPolicy { workflow, step } => WorkflowError::UnsatisfiedPolicy {
                workflow: workflow.clone(),
                step: step.clone(),
            },
        }
    }
}

impl WorkflowErrorView {
    /// The error in words.
    pub open spec fn text(self) -> Seq<char> {
        match self {
            WorkflowErrorView::DuplicateStep { workflow, step } => {
                "workflow "@ + workflow + " contains duplicate step "@ + step
            },
            WorkflowErrorView::UnknownDependency { workflow, step, dependency } => {
                "workflow "@ + workflow + " step "@ + step + " depends on unknown step "@
                    + dependency
            },
            WorkflowErrorView::DependencyCycle { workflow } => {
                "workflow "@ + workflow + " contains a dependency cycle"@
            },
            WorkflowErrorView::Empty { workflow } => "workflow "@ + workflow + " has no steps"@,
            WorkflowErrorView::UnregisteredTask { task } => "task "@ + task + " is not registered"@,
            WorkflowErrorView::TaskIdMismatch { workflow, step, task } => {
                "workflow "@ + workflow + " references task "@ + task + " from step "@ + step
                    + ", but the registered task has a different id"@
            },
            WorkflowErrorView::UnsatisfiedPolicy { workflow, step } => {
                "workflow "@ + workflow + " step "@ + step
                    + " cannot run on the selected worker"@
            },
        }
    }
}

impl WorkflowError {
    /// Puts the error into words.
    pub fn message(&self) -> (words: String)
        ensures
            words@ == self@.text(),
    {
        match self {
            WorkflowError::DuplicateStep { workflow, step } => {
                let mut words = "workflow ".to_owned();
                words.append(workflow.as_str());
                words.append(" contains duplicate step ");
                words.append(step.as_str());
                words
            },
            WorkflowError::UnknownDependency { workflow, step, dependency } => {
                let mut words = "workflow ".to_owned();
                words.append(workflow.as_str());
                words.append(" step ");
                words.append(step.as_str());
                words.append(" depends on unknown step ");
                words.append(dependency.as_str());
                words
            },
            WorkflowError::DependencyCycle { workflow } => {
                let mut words = "workflow ".to_owned();
                words.append(workflow.as_str());
                words.append(" contains a dependency cycle");
                words
            },
            WorkflowError::Empty { workflow } => {
                let mut words = "workflow ".to_owned();
                words.append(workflow.as_str());
                words.append(" has no steps");
                words
            },
            WorkflowError::UnregisteredTask { task } => {
                let mut words = "task ".to_owned();
                words.append(task.as_str());
                words.append(" is not registered");
                words
            },
            WorkflowError::TaskIdMismatch { workflow, step, task } => {
                let mut words = "workflow ".to_owned();
                words.append(workflow.as_str());
                words.append(" references task ");
                words.append(task.as_str());
                words.append(" from step ");
                words.append(step.as_str());
                words.append(", but the registered task has a different id");
                words
            },
            WorkflowError::UnsatisfiedPolicy { workflow, step } => {
                let mut words = "workflow ".to_owned();
                words.append(workflow.as_str());
                words.append(" step ");
                words.append(step.as_str());
                words.append(" cannot run on the selected worker");
                words
            },
        }
    }
}

/// A durable repository rejected a state transition or could not find the
/// requested execution record.
#[derive(Debug, PartialEq, Eq)]
pub enum RepositoryError {
    RunNotFound { run: RunId },
    LeaseLost { run: RunId, step: StepId },
    IdempotencyConflict { run: RunId },
    InvalidTransition { run: RunId, from: String, to: String },
    Conflict { run: RunId },
    InvalidCompletion { run: RunId, step: StepId },
    InvalidEvent { run: RunId },
    InvalidRequest { message: String },
    Storage { message: String },
}

/// What a `RepositoryError` says.
#[verifier::ext_equal]
pub enum RepositoryErrorView {
    RunNotFound { run: Seq<char> },
    LeaseLost { run: Seq<char>, step: Seq<char> },
    IdempotencyConflict { run: Seq<char> },
    InvalidTransition { run: Seq<char>, from: Seq<char>, to: Seq<char> },
    Conflict { run: Seq<char> },
    InvalidCompletion { run: Seq<char>, step: Seq<char> },
    InvalidEvent { run: Seq<char> },
    InvalidRequest { message: Seq<char> },
    Storage { message: Seq<char> },
}

impl View for RepositoryError {
    type V = RepositoryErrorView;

    open spec fn view(&self) -> RepositoryErrorView {
        match *self {
            RepositoryError::RunNotFound { run } => RepositoryErrorView::RunNotFound { run: run@ },
            RepositoryError::LeaseLost { run, step } => RepositoryErrorView::LeaseLost {
                run: run@,
                step: step@,
            },
            RepositoryError::IdempotencyConflict { run } => RepositoryErrorView::IdempotencyConflict {
                run: run@,
            },
            RepositoryError::InvalidTransition { run, from, to } => RepositoryErrorView::InvalidTransition {
                run: run@,
                from: from@,
                to: to@,
            },
            RepositoryError::Conflict { run } => RepositoryErrorView::Conflict { run: run@ },
            RepositoryError::InvalidCompletion { run, step } => RepositoryErrorView::InvalidCompletion {
                run: run@,
                step: step@,
            },
            RepositoryError::InvalidEvent { run } => RepositoryErrorView::InvalidEvent {
                run: run@,
            },
            RepositoryError::InvalidRequest { message } => RepositoryErrorView::InvalidRequest {
                message: message@,
            },
            RepositoryError::Storage { message } => RepositoryErrorView::Storage {
                message: message@,
            },
        }
    }
}

impl Clone for RepositoryError {
    fn clone(&self) -> (copy: Self)
        ensures
            copy@ == self@,
    {
        match self {
            RepositoryError::RunNotFound { run } => RepositoryError::RunNotFound {
                run: run.clone(),
            },
            RepositoryError::LeaseLost { run, step } => RepositoryError::LeaseLost {
                run: run.clone(),
                step: step.clone(),
            },
            RepositoryError::IdempotencyConflict { run } => RepositoryError::IdempotencyConflict {
                run: run.clone(),
            },
            RepositoryError::InvalidTransition { run, from, to } => RepositoryError::InvalidTransition {
                run: run.clone(),
                from: from.clone(),
                to: to.clone(),
            },
            RepositoryError::Conflict { run } => RepositoryError::Conflict { run: run.clone() },
            RepositoryError::InvalidCompletion { run, step } => RepositoryError::InvalidCompletion {
                run: run.clone(),
                step: step.clone(),
            },
            RepositoryError::InvalidEvent { run } => RepositoryError::InvalidEvent {
                run: run.clone(),
            },
            RepositoryError::InvalidRequest { message } => RepositoryError::InvalidRequest {
                message: message.clone(),
            },
            RepositoryError::Storage { message } => RepositoryError::Storage {
                message: message.clone(),
            },
        }
    }
}

impl RepositoryErrorView {
    /// The error in words.
    pub open spec fn text(self) -> Seq<char> {
        match self {
            RepositoryErrorView::RunNotFound { run } => "run "@ + run + " was not found"@,
            RepositoryErrorView::LeaseLost { run, step } => {
                "step "@ + step + " in run "@ + run + " is leased by another worker"@
            },
            RepositoryErrorView::IdempotencyConflict { run } => {
                "run "@ + run + " has an incompatible idempotency key"@
            },
            RepositoryErrorView::InvalidTransition { run, from, to } => {
                "run "@ + run + " cannot transition from "@ + from + " to "@ + to
            },
            RepositoryErrorView::Conflict { run } => {
                "run "@ + run + " changed while it was being updated"@
            },
            RepositoryErrorView::InvalidCompletion { run, step } => {
                "completion for step "@ + step + " in run "@ + run
                    + " does not match its claim"@
            },
            RepositoryErrorView::InvalidEvent { run } => "event does not belong to run "@ + run,
            RepositoryErrorView::InvalidRequest { message } => "invalid run request: "@ + message,
            RepositoryErrorView::Storage { message } => "repository storage failed: "@ + message,
        }
    }
}

impl RepositoryError {
    /// Puts the error into words.
    pub fn message(&self) -> (words: String)
        ensures
            words@ == self@.text(),
    {
        match self {
            RepositoryError::RunNotFound { run } => {
                let mut words = "run ".to_owned();
                words.append(run.as_str());
                words.append(" was not found");
                words
            },
            RepositoryError::LeaseLost { run, step } => {
                let mut words = "step ".to_owned();
                words.append(step.as_str());
                words.append(" in run ");
                words.append(run.as_str());
                words.append(" is leased by another worker");
                words
            },
            RepositoryError::IdempotencyConflict { run } => {
                let mut words = "run ".to_owned();
                words.append(run.as_str());
                words.append(" has an incompatible idempotency key");
                words
            },
            RepositoryError::InvalidTransition { run, from, to } => {
                let mut words = "run ".to_owned();
                words.append(run.as_str());
                words.append(" cannot transition from ");
                words.append(from.as_str());
                words.append(" to ");
                words.append(to.as_str());
                words
            },
            RepositoryError::Conflict { run } => {
                let mut words = "run ".to_owned();
                words.append(run.as_str());
                words.append(" changed while it was being updated");
                words
            },
            RepositoryError::InvalidCompletion { run, step } => {
                let mut words = "completion for step ".to_owned();
                words.append(step.as_str());
                words.append(" in run ");
                words.append(run.as_str());
                words.append(" does not match its claim");
                words
            },
            RepositoryError::InvalidEvent { run } => {
                let mut words = "event does not belong to run ".to_owned();
                words.append(run.as_str());
                words
            },
            RepositoryError::InvalidRequest { message } => {
                let mut words = "invalid run request: ".to_owned();
                words.append(message.as_str());
                words
            },
            RepositoryError::Storage { message } => {
                let mut words = "repository storage failed: ".to_owned();
                words.append(message.as_str());
                words
            },
        }
    }
}

/// Errors raised by the orchestration runtime or its adapters.
#[derive(Debug)]
pub enum OrchestratorError {
    Workflow(WorkflowError),
    Store(AdapterError),
    EventSink(AdapterError),
    Repository(RepositoryError),
    Artifact(AdapterError),
}

/// What a `OrchestratorError` says.
#[verifier::ext_equal]
pub enum OrchestratorErrorView {
    Workflow(WorkflowErrorView),
    Store(AdapterErrorView),
    EventSink(AdapterErrorView),
    Repository(RepositoryErrorView),
    Artifact(AdapterErrorView),
}

impl View for OrchestratorError {
    type V = OrchestratorErrorView;

    open spec fn view(&self) -> OrchestratorErrorView {
        match *self {
            OrchestratorError::Workflow(error) => OrchestratorErrorView::Workflow(error@),
            OrchestratorError::Store(error) => OrchestratorErrorView::Store(error@),
            OrchestratorError::EventSink(error) => OrchestratorErrorView::EventSink(error@),
            OrchestratorError::Repository(error) => OrchestratorErrorView::Repository(error@),
            OrchestratorError::Artifact(error) => OrchestratorErrorView::Artifact(error@),
        }
    }
}

impl OrchestratorErrorView {
    /// The error in words.
    pub open spec fn text(self) -> Seq<char> {
        match self {
            OrchestratorErrorView::Workflow(error) => error.text(),
            OrchestratorErrorView::Store(error) => error.text(),
            OrchestratorErrorView::EventSink(error) => error.text(),
            OrchestratorErrorView::Repository(error) => error.text(),
            OrchestratorErrorView::Artifact(error) => error.text(),
        }
    }
}

impl OrchestratorError {
    /// Puts the error into words.
    pub fn message(&self) -> (words: String)
        ensures
            words@ == self@.text(),
    {
        match self {
            OrchestratorError::Workflow(error) => error.message(),
            OrchestratorError::Store(error) => error.message(),
            OrchestratorError::EventSink(error) => error.message(),
            OrchestratorError::Repository(error) => error.message(),
            OrchestratorError::Artifact(error) => error.message(),
        }
    }
}

impl From<WorkflowError> for OrchestratorError {
    fn from(error: WorkflowError) -> (raised: Self)
        ensures
            raised == OrchestratorError::Workflow(error),
    {
        OrchestratorError::Workflow(error)
    }
}

impl vstd::std_specs::convert::FromSpecImpl<WorkflowError> for OrchestratorError {
    open spec fn obeys_from_spec() -> bool {
        true
    }

    open spec fn from_spec(error: WorkflowError) -> Self {
        OrchestratorError::Workflow(error)
    }
}

impl From<RepositoryError> for OrchestratorError {
    fn from(error: RepositoryError) -> (raised: Self)
        ensures
            raised == OrchestratorError::Repository(error),
    {
        OrchestratorError::Repository(error)
    }
}

impl vstd::std_specs::convert::FromSpecImpl<RepositoryError> for OrchestratorError {
    open spec fn obeys_from_spec() -> bool {
        true
    }

    open spec fn from_spec(error: RepositoryError) -> Self {
        OrchestratorError::Repository(error)
    }
}

} // verus!
