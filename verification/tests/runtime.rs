use data_ai_orchestrator::catalog::{build_manifest, validate_tasks};
use data_ai_orchestrator::ids::generated_id;
use data_ai_orchestrator::runtime::{
    emit_event, ready_steps, step_input_for, LocalRun, NextMove, StepExecution, StepRunResult,
};
use data_ai_orchestrator::{
    EvaluationGate, ExecutionEvent, ExecutorOptions, InMemoryEventSink, InMemoryRunStore,
    InMemoryTaskRegistry, Metric, MetricDirection, MetricValue, OrderedMap, RetryDelay,
    RetryPolicy, RunId, RunRecord, RunStatus, StepId, StepSpec, StepStatus, TaskContext, TaskError,
    TaskId, TaskSpec, WorkflowError, WorkflowSpec,
};
use serde_json::Value;
use std::sync::{Arc, Mutex};

type Counter = Arc<Mutex<u32>>;

enum Kind {
    Copy,
    Add,
    Flaky(Counter),
    Permanent(&'static str, Counter),
}

struct Registered {
    spec: TaskSpec,
    kind: Kind,
}

fn parse(text: &str) -> Value {
    serde_json::from_str(text).expect("valid JSON")
}

fn number(value: f64) -> MetricValue {
    MetricValue::from_bits(value.to_bits())
}

fn task_spec(id: &str) -> TaskSpec {
    TaskSpec::new(id, "1", id).expect("valid task spec")
}

fn add_task(registry: &mut InMemoryTaskRegistry<Registered>, id: &str, kind: Kind) {
    let spec = task_spec(id);
    registry
        .register(&spec.clone(), Registered { spec, kind })
        .expect("register task");
}

fn run_task(kind: &Kind, input: Value, _context: TaskContext) -> Result<Value, TaskError> {
    match kind {
        Kind::Copy => Ok(parse(&format!("{{\"copied\": {}}}", input))),
        Kind::Add => {
            let value = input["run_input"]["value"]
                .as_i64()
                .ok_or_else(|| TaskError::InvalidInput("value must be an integer".into()))?;
            Ok(parse(&format!("{{\"value\": {}}}", value + 1)))
        }
        Kind::Flaky(attempts) => {
            let mut attempts = attempts.lock().expect("test mutex");
            *attempts += 1;
            if *attempts < 2 {
                Err(TaskError::Transient("try again".into()))
            } else {
                Ok(parse("{\"ready\": true}"))
            }
        }
        Kind::Permanent(reason, attempts) => {
            *attempts.lock().expect("test mutex") += 1;
            Err(TaskError::Permanent((*reason).into()))
        }
    }
}

fn run_step(
    registry: &InMemoryTaskRegistry<Registered>,
    options: &ExecutorOptions,
    run: &RunRecord,
    step: StepSpec,
) -> StepRunResult {
    let mut execution = StepExecution::new(run, step.clone(), &options.worker);
    loop {
        let task = registry.get(&execution.task);
        if !execution.begin_attempt(task.is_some()) {
            return execution.give_up();
        }
        let task = task.expect("an attempt begins with a registered task only");
        let input = step_input_for(run, &step);
        match run_task(&task.kind, input, execution.context(&task.spec)) {
            Ok(output) => return execution.succeed(output),
            Err(error) => match execution.fail_attempt(&error) {
                NextMove::Wait(_) | NextMove::Again => {}
                NextMove::GiveUp => return execution.give_up(),
            },
        }
    }
}

fn catalog_for(
    registry: &InMemoryTaskRegistry<Registered>,
    workflow: &WorkflowSpec,
) -> OrderedMap<TaskId, TaskSpec> {
    let mut catalog = OrderedMap::new();
    for step in &workflow.steps {
        let mut ids = vec![step.task.clone()];
        ids.extend(step.policy.fallback_task.clone());
        for id in ids {
            if let Some(task) = registry.get(&id) {
                catalog.insert(id, task.spec.clone());
            }
        }
    }
    catalog
}

fn execute_with(
    registry: &InMemoryTaskRegistry<Registered>,
    workflow: WorkflowSpec,
    input: Value,
    metrics: Vec<Metric>,
    sink: &mut InMemoryEventSink,
) -> RunRecord {
    let options = ExecutorOptions::default().normalized();
    workflow.validate().expect("valid workflow");
    let catalog = catalog_for(registry, &workflow);
    validate_tasks(&options.worker, &catalog, &workflow).expect("tasks can be run");
    let manifest = build_manifest(&catalog, &workflow, &options.provenance).expect("manifest");
    let run_id = RunId::new(generated_id("run", 0)).expect("generated ids are not blank");
    let mut store = InMemoryRunStore::default();
    let mut local = LocalRun::start(
        run_id,
        workflow,
        manifest,
        input,
        options.max_parallel_steps,
        data_ai_orchestrator::now_ms(),
    );
    sink.emit(local.run.events[0].clone()).expect("emit");
    store.save(&local.run).expect("save");
    loop {
        let batch = local.next_batch();
        if batch.is_empty() {
            break;
        }
        let results: Vec<StepRunResult> = batch
            .into_iter()
            .map(|step| run_step(registry, &options, &local.run, step))
            .collect();
        for result in results {
            for event in &result.events {
                emit_event(&mut local.run, event.clone());
                sink.emit(event.clone()).expect("emit");
            }
            local.absorb(result.record);
        }
        store.save(&local.run).expect("save");
        local.settle_batch();
    }
    let run = local.conclude(metrics);
    sink.emit(run.events.last().expect("the end was told").clone())
        .expect("emit");
    store.save(&run).expect("save");
    run
}

fn run_workflow(
    registry: &InMemoryTaskRegistry<Registered>,
    workflow: WorkflowSpec,
    input: Value,
) -> RunRecord {
    execute_with(
        registry,
        workflow,
        input,
        Vec::new(),
        &mut InMemoryEventSink::default(),
    )
}

#[test]
fn runs_dependency_graph_and_persists_events() {
    let mut registry = InMemoryTaskRegistry::default();
    add_task(&mut registry, "add", Kind::Add);
    add_task(&mut registry, "copy", Kind::Copy);
    let mut events = InMemoryEventSink::default();

    let mut workflow = WorkflowSpec::new("demo", "1").expect("valid workflow");
    workflow
        .add_step(StepSpec::new("add-step", "add").expect("valid step"))
        .expect("add step");
    workflow
        .add_step(
            StepSpec::new("copy-step", "copy")
                .expect("valid step")
                .depends_on("add-step")
                .expect("dependency"),
        )
        .expect("add step");

    let run = execute_with(
        &registry,
        workflow,
        parse("{\"value\": 4}"),
        Vec::new(),
        &mut events,
    );
    assert_eq!(run.status, RunStatus::Succeeded);
    assert_eq!(run.steps.len(), 2);
    assert_eq!(run.manifest.workflow_id.as_str(), "demo");
    assert_eq!(run.manifest.workflow_version, "1");
    assert_eq!(run.manifest.tasks.len(), 2);
    assert_eq!(
        run.manifest
            .tasks
            .get(&TaskId::new("add").expect("valid id"))
            .expect("add is in the manifest")
            .version,
        "1"
    );
    assert!(run.events.iter().any(|event| matches!(
        event,
        ExecutionEvent::RunFinished {
            status: RunStatus::Succeeded,
            ..
        }
    )));
    assert_eq!(events.events().len(), run.events.len());
    assert_eq!(events.events(), run.events);
    let copied = run
        .steps
        .get(&StepId::new("copy-step").expect("valid id"))
        .expect("copy ran");
    assert_eq!(
        copied.output,
        Some(parse(
            "{\"copied\": {\"run_input\": {\"value\": 4}, \"dependencies\": {\"add-step\": {\"value\": 5}}}}"
        ))
    );
}

#[test]
fn retries_transient_failures() {
    let attempts = Arc::new(Mutex::new(0));
    let mut registry = InMemoryTaskRegistry::default();
    add_task(&mut registry, "flaky", Kind::Flaky(attempts.clone()));
    let mut workflow = WorkflowSpec::new("retry", "1").expect("valid workflow");
    let mut step = StepSpec::new("flaky-step", "flaky").expect("valid step");
    step.policy.retry = RetryPolicy {
        max_attempts: 2,
        delay: RetryDelay::none(),
    };
    workflow.add_step(step).expect("add step");

    let run = run_workflow(&registry, workflow, parse("{}"));
    assert_eq!(run.status, RunStatus::Succeeded);
    assert_eq!(*attempts.lock().expect("test mutex"), 2);
    assert!(run
        .events
        .iter()
        .any(|event| matches!(event, ExecutionEvent::StepRetrying { .. })));
}

#[test]
fn retries_primary_before_selecting_fallback() {
    let attempts = Arc::new(Mutex::new(0));
    let mut registry = InMemoryTaskRegistry::default();
    add_task(&mut registry, "primary", Kind::Flaky(attempts.clone()));
    add_task(&mut registry, "fallback", Kind::Copy);
    let mut workflow = WorkflowSpec::new("retry-before-fallback", "1").expect("workflow");
    let mut step = StepSpec::new("step", "primary").expect("step");
    step.policy.retry = RetryPolicy {
        max_attempts: 2,
        delay: RetryDelay::none(),
    };
    step.policy.fallback_task = Some(TaskId::new("fallback").expect("fallback id"));
    workflow.add_step(step).expect("add step");

    let run = run_workflow(&registry, workflow, parse("{}"));
    let record = run.steps.value_at(0);
    assert_eq!(record.status, StepStatus::Succeeded);
    assert_eq!(record.task, TaskId::new("primary").expect("primary id"));
    assert_eq!(record.attempts, 2);
    assert_eq!(*attempts.lock().expect("test mutex"), 2);
    assert!(!run
        .events
        .iter()
        .any(|event| matches!(event, ExecutionEvent::StepFallbackSelected { .. })));
}

#[test]
fn selects_a_registered_fallback_after_primary_failure() {
    let mut registry = InMemoryTaskRegistry::default();
    add_task(
        &mut registry,
        "primary",
        Kind::Permanent("primary unavailable", Arc::new(Mutex::new(0))),
    );
    add_task(&mut registry, "fallback", Kind::Copy);
    let mut workflow = WorkflowSpec::new("fallback", "1").expect("valid workflow");
    let mut step = StepSpec::new("step", "primary").expect("valid step");
    step.policy.retry = RetryPolicy::never();
    step.policy.fallback_task = Some(TaskId::new("fallback").expect("valid id"));
    workflow.add_step(step).expect("add step");

    let run = run_workflow(&registry, workflow, parse("{\"value\": 4}"));
    assert_eq!(run.status, RunStatus::Succeeded);
    assert_eq!(
        run.steps
            .get(&StepId::new("step").expect("valid id"))
            .expect("step ran")
            .task,
        TaskId::new("fallback").expect("valid id")
    );
    assert!(run.events.iter().any(|event| matches!(
        event,
        ExecutionEvent::StepFallbackSelected { task, .. } if task.as_str() == "fallback"
    )));
}

#[test]
fn fallback_shares_the_step_attempt_budget() {
    let primary_attempts = Arc::new(Mutex::new(0));
    let fallback_attempts = Arc::new(Mutex::new(0));
    let mut registry = InMemoryTaskRegistry::default();
    add_task(
        &mut registry,
        "primary",
        Kind::Permanent("unavailable", primary_attempts.clone()),
    );
    add_task(
        &mut registry,
        "fallback",
        Kind::Permanent("unavailable", fallback_attempts.clone()),
    );
    let mut workflow = WorkflowSpec::new("shared-budget", "1").expect("workflow");
    let mut step = StepSpec::new("step", "primary").expect("step");
    step.policy.retry = RetryPolicy {
        max_attempts: 2,
        delay: RetryDelay::none(),
    };
    step.policy.fallback_task = Some(TaskId::new("fallback").expect("fallback id"));
    workflow.add_step(step).expect("add step");

    let run = run_workflow(&registry, workflow, parse("{}"));
    assert_eq!(run.status, RunStatus::Failed);
    assert_eq!(*primary_attempts.lock().expect("test mutex"), 1);
    assert_eq!(*fallback_attempts.lock().expect("test mutex"), 1);
    assert_eq!(run.steps.value_at(0).attempts, 2);
    assert!(run
        .events
        .iter()
        .any(|event| matches!(event, ExecutionEvent::StepFailed { attempts: 2, .. })));
    assert_eq!(
        run.error.as_deref(),
        Some("task failed permanently: unavailable")
    );
}

#[test]
fn rejects_cycles_and_unknown_dependencies() {
    let mut workflow = WorkflowSpec::new("invalid", "1").expect("valid workflow");
    let a = StepSpec::new("a", "task-a")
        .expect("valid step")
        .depends_on("b")
        .expect("dependency");
    let b = StepSpec::new("b", "task-b")
        .expect("valid step")
        .depends_on("a")
        .expect("dependency");
    workflow.add_step(a).expect("add step");
    workflow.add_step(b).expect("add step");
    assert!(matches!(
        workflow.validate(),
        Err(WorkflowError::DependencyCycle { .. })
    ));

    let mut unknown = WorkflowSpec::new("unknown", "1").expect("valid workflow");
    unknown
        .add_step(
            StepSpec::new("a", "task-a")
                .expect("valid step")
                .depends_on("missing")
                .expect("dependency"),
        )
        .expect("add step");
    assert!(matches!(
        unknown.validate(),
        Err(WorkflowError::UnknownDependency { .. })
    ));
}

#[test]
fn evaluates_quality_gates_without_missing_metric_passes() {
    let gate = EvaluationGate {
        metric: "ndcg@10".into(),
        threshold: number(0.8),
        direction: MetricDirection::AtLeast,
    };
    assert!(
        gate.evaluate(&[Metric {
            name: "ndcg@10".into(),
            value: number(0.81)
        }])
        .passed
    );
    assert!(!gate.evaluate(&[]).passed);
}

#[test]
fn executor_applies_quality_gates_to_run_status() {
    let mut registry = InMemoryTaskRegistry::default();
    add_task(&mut registry, "copy", Kind::Copy);
    let mut workflow = WorkflowSpec::new("gated-run", "1").expect("workflow");
    workflow
        .add_step(StepSpec::new("copy", "copy").expect("step"))
        .expect("add step");
    workflow.add_gate(EvaluationGate {
        metric: "accuracy".to_owned(),
        threshold: number(0.9),
        direction: MetricDirection::AtLeast,
    });
    let run = execute_with(
        &registry,
        workflow,
        parse("{}"),
        vec![Metric {
            name: "accuracy".to_owned(),
            value: number(0.5),
        }],
        &mut InMemoryEventSink::default(),
    );
    assert_eq!(run.status, RunStatus::Failed);
    assert!(
        !run.gate_decisions
            .get(&"accuracy".to_owned())
            .expect("accuracy was decided on")
            .passed
    );
    assert_eq!(
        run.error.as_deref(),
        Some("one or more evaluation gates failed")
    );
}

#[test]
fn a_failed_step_stops_the_run_before_the_next_batch() {
    let attempts = Arc::new(Mutex::new(0));
    let later = Arc::new(Mutex::new(0));
    let mut registry = InMemoryTaskRegistry::default();
    add_task(
        &mut registry,
        "broken",
        Kind::Permanent("unavailable", attempts.clone()),
    );
    add_task(&mut registry, "later", Kind::Flaky(later.clone()));
    let mut workflow = WorkflowSpec::new("stopped", "1").expect("workflow");
    let mut broken = StepSpec::new("broken", "broken").expect("step");
    broken.policy.retry = RetryPolicy::never();
    workflow.add_step(broken).expect("add step");
    workflow
        .add_step(
            StepSpec::new("later", "later")
                .expect("step")
                .depends_on("broken")
                .expect("dependency"),
        )
        .expect("add step");
    let run = run_workflow(&registry, workflow, parse("{}"));
    assert_eq!(run.status, RunStatus::Failed);
    assert_eq!(run.steps.len(), 1);
    assert_eq!(*attempts.lock().expect("test mutex"), 1);
    assert_eq!(*later.lock().expect("test mutex"), 0);
    assert!(matches!(
        run.events.last(),
        Some(ExecutionEvent::RunFinished {
            status: RunStatus::Failed,
            ..
        })
    ));
}

#[test]
fn a_permanent_failure_without_fallback_is_not_tried_again() {
    let attempts = Arc::new(Mutex::new(0));
    let mut registry = InMemoryTaskRegistry::default();
    add_task(
        &mut registry,
        "broken",
        Kind::Permanent("unavailable", attempts.clone()),
    );
    let mut workflow = WorkflowSpec::new("budget", "1").expect("workflow");
    let mut step = StepSpec::new("step", "broken").expect("step");
    step.policy.retry = RetryPolicy {
        max_attempts: 3,
        delay: RetryDelay::none(),
    };
    workflow.add_step(step).expect("add step");
    let run = run_workflow(&registry, workflow, parse("{}"));
    assert_eq!(run.status, RunStatus::Failed);
    assert_eq!(*attempts.lock().expect("test mutex"), 1);
    let record = run.steps.value_at(0);
    assert_eq!(record.status, StepStatus::Failed);
    assert_eq!(record.attempts, 1);
    assert!(!run
        .events
        .iter()
        .any(|event| matches!(event, ExecutionEvent::StepRetrying { .. })));
}

#[test]
fn steps_of_a_local_run_are_started_in_turn() {
    let mut workflow = WorkflowSpec::new("turns", "1").expect("workflow");
    for id in ["a", "b", "c"] {
        workflow
            .add_step(StepSpec::new(id, "echo").expect("step"))
            .expect("add step");
    }
    let last = StepSpec::new("d", "echo")
        .expect("step")
        .depends_on("a")
        .expect("dependency")
        .depends_on("c")
        .expect("dependency");
    workflow.add_step(last).expect("add step");
    let spec = TaskSpec::new("echo", "1", "echo").expect("task");
    let mut tasks = OrderedMap::new();
    tasks.insert(spec.id.clone(), spec.clone());
    let options = ExecutorOptions::default();
    let manifest = build_manifest(&tasks, &workflow, &options.provenance).expect("manifest");
    let mut local = LocalRun::start(
        RunId::new("run").expect("id"),
        workflow,
        manifest,
        parse("{}"),
        2,
        100,
    );
    let mut started: Vec<Vec<String>> = Vec::new();
    loop {
        let batch = local.next_batch();
        if batch.is_empty() {
            break;
        }
        started.push(
            batch
                .iter()
                .map(|step| step.id.as_str().to_owned())
                .collect(),
        );
        for step in batch {
            assert!(!local.run.steps.contains_key(&step.id));
            for dependency in &step.depends_on {
                let record = local.run.steps.get(dependency).expect("done before");
                assert_eq!(record.status, StepStatus::Succeeded);
            }
            let mut execution = StepExecution::new(&local.run, step, &options.worker);
            assert!(execution.begin_attempt(true));
            let result = execution.succeed(parse("{}"));
            for event in &result.events {
                emit_event(&mut local.run, event.clone());
            }
            local.absorb(result.record);
        }
        local.settle_batch();
    }
    assert_eq!(started, vec![vec!["a", "b"], vec!["c"], vec!["d"]]);
    assert_eq!(local.conclude(Vec::new()).status, RunStatus::Succeeded);
}

#[test]
fn an_unregistered_task_gives_the_step_up() {
    let workflow = WorkflowSpec::new("w", "1").expect("workflow");
    let manifest = build_manifest(
        &OrderedMap::new(),
        &workflow,
        &ExecutorOptions::default().provenance,
    )
    .expect("no task is needed");
    let run = RunRecord::new(
        RunId::new("run").expect("id"),
        workflow,
        manifest,
        parse("{}"),
    );
    let options = ExecutorOptions::default();
    let mut execution = StepExecution::new(
        &run,
        StepSpec::new("step", "nobody").expect("step"),
        &options.worker,
    );
    assert!(!execution.begin_attempt(false));
    let result = execution.give_up();
    assert_eq!(result.record.status, StepStatus::Failed);
    assert_eq!(result.record.attempts, 0);
    assert_eq!(
        result.record.error.as_deref(),
        Some("task nobody is not registered")
    );
    assert_eq!(result.events.len(), 1);
}

#[test]
fn batches_hold_no_more_steps_than_allowed() {
    let mut workflow = WorkflowSpec::new("wide", "1").expect("workflow");
    for id in ["a", "b", "c", "d", "e"] {
        workflow
            .add_step(StepSpec::new(id, "task").expect("step"))
            .expect("add step");
    }
    let mut catalog = OrderedMap::new();
    catalog.insert(TaskId::new("task").expect("id"), task_spec("task"));
    let options = ExecutorOptions::default();
    let manifest = build_manifest(&catalog, &workflow, &options.provenance).expect("manifest");
    let mut local = LocalRun::start(
        RunId::new("run").expect("id"),
        workflow,
        manifest,
        parse("{}"),
        2,
        7,
    );
    assert_eq!(ready_steps(&local.run).len(), 5);
    let mut sizes = Vec::new();
    loop {
        let batch = local.next_batch();
        if batch.is_empty() {
            break;
        }
        sizes.push(batch.len());
        for step in batch {
            let execution = StepExecution::new(&local.run, step, &options.worker);
            local.absorb(execution.succeed(parse("null")).record);
        }
        local.settle_batch();
    }
    assert_eq!(sizes, vec![2, 2, 1]);
    assert_eq!(local.conclude(Vec::new()).status, RunStatus::Succeeded);
}

#[test]
fn a_run_without_a_step_that_can_start_has_failed() {
    let mut workflow = WorkflowSpec::new("cycle", "1").expect("workflow");
    for (id, other) in [("a", "b"), ("b", "a")] {
        workflow
            .add_step(
                StepSpec::new(id, "task")
                    .expect("step")
                    .depends_on(other)
                    .expect("dependency"),
            )
            .expect("add step");
    }
    let mut catalog = OrderedMap::new();
    catalog.insert(TaskId::new("task").expect("id"), task_spec("task"));
    let manifest = build_manifest(
        &catalog,
        &workflow,
        &ExecutorOptions::default().provenance,
    )
    .expect("manifest");
    let mut local = LocalRun::start(
        RunId::new("run").expect("id"),
        workflow,
        manifest,
        parse("{}"),
        0,
        7,
    );
    assert_eq!(local.limit, 1);
    assert!(local.next_batch().is_empty());
    let run = local.conclude(Vec::new());
    assert_eq!(run.status, RunStatus::Failed);
    assert_eq!(
        run.error.as_deref(),
        Some("workflow could not make progress")
    );
}
