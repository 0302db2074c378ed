//! A small, domain-free orchestration core for data and AI workflows.
//!
//! The crate deliberately separates workflow policy and execution from the
//! application that owns data, persistence, and model clients. It holds what can
//! be decided without waiting for anything: which workflows are valid, which step
//! a worker may claim, what becomes of a run when a result comes in, a lease runs
//! out or a run is cancelled, and what is written down of it all. Whatever runs
//! tasks, keeps records or reads a clock asks it what to do next.
//!
//! Every decision is stated as a function on mathematical models of the records,
//! the views, and proved to be what the code computes. What holds across
//! decisions is stated and proved in [`laws`], [`run_laws`], [`local_laws`],
//! [`repository_laws`] and [`locked_laws`]. What each decision means, in terms of what
//! is in the records before and after it, is stated and proved in [`claim_laws`],
//! [`completion_laws`], [`recovery_laws`], [`ending_laws`], [`execution_laws`],
//! [`definition_laws`], [`log_laws`], [`value_laws`], [`comparison_laws`] and
//! [`view_laws`].
pub mod artifact;
pub mod catalog;
pub mod claim;
pub mod claim_laws;
pub mod clock;
pub mod comparison_laws;
pub mod completion_laws;
pub mod definition_laws;
pub mod durable;
pub mod ending_laws;
pub mod error;
pub mod evaluation;
pub mod event;
pub mod execution_laws;
pub mod graph;
pub mod ids;
pub mod json;
pub mod laws;
pub mod local_laws;
pub mod locked;
pub mod locked_laws;
pub mod log_laws;
pub mod manifest;
pub mod ordered;
pub mod policy;
pub mod record;
pub mod recovery_laws;
pub mod repository_laws;
pub mod run_laws;
pub mod runtime;
pub mod store;
pub mod task;
pub mod text;
pub mod transition;
pub mod validation;
pub mod value_laws;
pub mod view_laws;
pub mod views;
pub mod workflow;

pub use artifact::{
    ArtifactMetadata, ArtifactRef, InMemoryArtifactStore, InMemoryTaskCache, TaskCacheKey,
};
pub use clock::now_ms;
pub use durable::{DurableExecutorOptions, WorkOutcome};
pub use error::{
    AdapterError, IdentifierError, OrchestratorError, RegistryError, RepositoryError, TaskError,
    WorkflowError,
};
pub use evaluation::{
    evaluate_gates, EvaluationGate, GateDecision, Metric, MetricDirection, MetricValue,
};
pub use ids::{
    ArtifactId, AttemptId, CacheKey, EventId, IdempotencyKey, RunId, StepId, TaskId, WorkerId,
    WorkflowId,
};
pub use manifest::{RunManifest, RunProvenance};
pub use ordered::{OrderedMap, OrderedSet};
pub use policy::{
    ExecutionPolicy, Residency, ResourceRequirements, RetryDelay, RetryPolicy, WorkerProfile,
};
pub use record::{
    EventEnvelope, ExecutionEvent, RunRecord, RunRequest, RunStatus, StepAttempt, StepClaim,
    StepCompletion, StepLease, StepRecord, StepStatus,
};
pub use runtime::ExecutorOptions;
pub use store::{InMemoryEventSink, InMemoryRunStore};
pub use task::{InMemoryTaskRegistry, TaskContext, TaskSpec, TypedTaskAdapter};
pub use workflow::{StepSpec, WorkflowSpec};
