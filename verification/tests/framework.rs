use data_ai_orchestrator::catalog::{build_manifest, validate_workflow};
use data_ai_orchestrator::durable::{
    claim_context, completion_for, started_event, submission_manifest, Drive, DriveAction,
    DriveEvent,
};
use data_ai_orchestrator::ids::generated_id;
use data_ai_orchestrator::{
    ArtifactMetadata, DurableExecutorOptions, EvaluationGate, ExecutionEvent, IdempotencyKey, InMemoryArtifactStore,
    InMemoryRunStore, InMemoryTaskRegistry, Metric, MetricDirection, MetricValue, OrderedMap,
    RepositoryError, RetryPolicy, RunId, RunManifest, RunProvenance, RunRecord, RunRequest,
    RunStatus, StepClaim, StepCompletion, StepId, StepSpec, StepStatus, TaskContext, TaskError,
    TaskId, TaskSpec, TypedTaskAdapter, WorkOutcome, WorkerProfile, WorkflowId, WorkflowSpec,
};
use serde_json::Value;

type Handler = fn(Value, TaskContext) -> Result<Value, TaskError>;

struct Registered {
    spec: TaskSpec,
    handler: Handler,
}

fn json(text: &str) -> Value {
    serde_json::from_str(text).expect("valid JSON")
}

fn spec(id: &str) -> TaskSpec {
    TaskSpec::new(id, "1", id).expect("valid task spec")
}

fn register(registry: &mut InMemoryTaskRegistry<Registered>, id: &str, handler: Handler) {
    let spec = spec(id);
    registry
        .register(&spec.clone(), Registered { spec, handler })
        .expect("register task");
}

fn echo(input: Value, _context: TaskContext) -> Result<Value, TaskError> {
    Ok(input)
}

fn permanent_failure(_input: Value, _context: TaskContext) -> Result<Value, TaskError> {
    Err(TaskError::Permanent("primary unavailable".to_owned()))
}

fn doubler(input: Value, _context: TaskContext) -> Result<Value, TaskError> {
    let input = TypedTaskAdapter::new(()).select_input(input);
    let value = input
        .get("value")
        .and_then(|value| value.as_i64())
        .ok_or_else(|| TaskError::Serialization("value".to_owned()))?;
    Ok(json(&format!("{{\"doubled\": {}}}", value * 2)))
}

fn dependency_reader(input: Value, _context: TaskContext) -> Result<Value, TaskError> {
    Ok(TypedTaskAdapter::new(()).with_envelope().select_input(input))
}

fn catalog_of(
    registry: &InMemoryTaskRegistry<Registered>,
    workflow: &WorkflowSpec,
) -> OrderedMap<TaskId, TaskSpec> {
    let mut catalog = OrderedMap::new();
    for step in &workflow.steps {
        let mut ids = vec![step.task.clone()];
        ids.extend(step.policy.fallback_task.clone());
        for id in ids {
            if let Some(task) = registry.get(&id) {
                catalog.insert(id, task.spec.clone());
            }
        }
    }
    catalog
}

fn submit(
    store: &mut InMemoryRunStore,
    registry: &InMemoryTaskRegistry<Registered>,
    workflow: WorkflowSpec,
    input: Value,
    key: Option<IdempotencyKey>,
) -> RunRecord {
    let catalog = catalog_of(registry, &workflow);
    let manifest = submission_manifest(&catalog, &workflow, &RunProvenance::default())
        .expect("valid submission");
    let request = RunRequest {
        run_id: RunId::new(generated_id("run", 0)).expect("generated ids are not blank"),
        workflow,
        manifest,
        input,
        idempotency_key: key,
    };
    store.create_run(request).expect("create run")
}

fn execute_claim(
    store: &mut InMemoryRunStore,
    registry: &InMemoryTaskRegistry<Registered>,
    claim: &StepClaim,
) {
    store
        .record_event(&claim.run_id, started_event(claim))
        .expect("the start of a claim can be told");
    let task = registry.get(&claim.task.id).expect("registered task");
    let result = (task.handler)(claim.input.clone(), claim_context(claim));
    store
        .complete_step(claim, completion_for(claim, result))
        .expect("completion is accepted");
}

fn execute(
    store: &mut InMemoryRunStore,
    registry: &InMemoryTaskRegistry<Registered>,
    workflow: WorkflowSpec,
    input: Value,
) -> RunRecord {
    let run_id = submit(store, registry, workflow, input, None).run_id;
    let options = DurableExecutorOptions::default();
    let mut drive = Drive::new(run_id.clone(), &options);
    let mut action = DriveAction::Claim;
    for _ in 0..100 {
        let event = match action {
            DriveAction::Claim => DriveEvent::Claimed(
                store
                    .claim_next_step(&run_id, &options.worker, options.lease_ms)
                    .expect("run is there"),
            ),
            DriveAction::Execute(claims) => {
                for claim in &claims {
                    execute_claim(store, registry, claim);
                }
                DriveEvent::Executed
            }
            DriveAction::Finish => DriveEvent::Finished(
                store
                    .finish_run(&run_id, Vec::new())
                    .expect("run is there"),
            ),
            DriveAction::Recover => {
                store.recover_expired().expect("recovery");
                DriveEvent::Recovered(0)
            }
            DriveAction::Sleep(_) => DriveEvent::Slept,
            DriveAction::Return(run) => return run,
            DriveAction::GiveUp(error) => panic!("{}", error.message()),
        };
        action = drive.next_action(event);
    }
    panic!("run does not terminate");
}

fn work_once(
    store: &mut InMemoryRunStore,
    registry: &InMemoryTaskRegistry<Registered>,
) -> WorkOutcome {
    let worker = WorkerProfile::default();
    match store
        .claim_next_runnable_step(&worker, 30_000)
        .expect("claim")
    {
        None => WorkOutcome::of(None),
        Some(claim) => {
            execute_claim(store, registry, &claim);
            let run = store
                .finish_run(&claim.run_id, Vec::new())
                .expect("run is there");
            WorkOutcome::of(Some(&run))
        }
    }
}

fn tasks_of(specs: Vec<TaskSpec>) -> OrderedMap<TaskId, TaskSpec> {
    let mut tasks = OrderedMap::new();
    for spec in specs {
        tasks.insert(spec.id.clone(), spec);
    }
    tasks
}

fn request(run_id: &RunId, workflow: &WorkflowSpec, specs: Vec<TaskSpec>) -> RunRequest {
    RunRequest {
        run_id: run_id.clone(),
        manifest: RunManifest::new(workflow.id.clone(), "1", tasks_of(specs))
            .with_evaluation_gates(workflow.evaluation_gates.clone()),
        workflow: workflow.clone(),
        input: json("{}"),
        idempotency_key: None,
    }
}

#[test]
fn durable_executor_persists_claims_and_events() {
    let mut registry = InMemoryTaskRegistry::default();
    register(&mut registry, "echo", echo);
    let mut store = InMemoryRunStore::default();
    let mut workflow = WorkflowSpec::new("durable", "1").expect("valid workflow");
    workflow
        .add_step(StepSpec::new("echo-step", "echo").expect("valid step"))
        .expect("add step");

    let run = execute(&mut store, &registry, workflow, json("{\"value\": 7}"));
    assert_eq!(run.status, RunStatus::Succeeded);
    assert_eq!(
        run.steps
            .get(&StepId::new("echo-step").unwrap())
            .unwrap()
            .attempts,
        1
    );
    assert!(run
        .event_log
        .windows(2)
        .all(|events| events[0].sequence < events[1].sequence));
    assert!(run
        .event_log
        .iter()
        .any(|event| matches!(event.event, ExecutionEvent::StepStarted { .. })));
}

#[test]
fn durable_worker_discovers_and_executes_active_runs() {
    let mut registry = InMemoryTaskRegistry::default();
    register(&mut registry, "echo", echo);
    let mut store = InMemoryRunStore::default();
    let mut workflow = WorkflowSpec::new("worker-discovery", "1").expect("valid workflow");
    workflow
        .add_step(StepSpec::new("echo-step", "echo").expect("valid step"))
        .expect("add step");
    let submitted = submit(
        &mut store,
        &registry,
        workflow,
        json("{\"value\": 9}"),
        None,
    );

    let outcome = work_once(&mut store, &registry);
    assert_eq!(
        outcome,
        WorkOutcome::Progressed {
            run_id: submitted.run_id,
            status: RunStatus::Succeeded,
        }
    );
    assert_eq!(work_once(&mut store, &registry), WorkOutcome::Idle);
}

#[test]
fn durable_executor_uses_fallback_and_idempotency() {
    let mut registry = InMemoryTaskRegistry::default();
    register(&mut registry, "primary", permanent_failure);
    register(&mut registry, "fallback", echo);
    let mut store = InMemoryRunStore::default();
    let mut workflow = WorkflowSpec::new("fallback", "1").expect("valid workflow");
    let mut step = StepSpec::new("step", "primary").expect("valid step");
    step.policy.retry = RetryPolicy::never();
    step.policy.fallback_task = Some(TaskId::new("fallback").unwrap());
    workflow.add_step(step).expect("add step");

    let key = IdempotencyKey::new("same-input").unwrap();
    let first = submit(
        &mut store,
        &registry,
        workflow.clone(),
        json("{\"value\": 1}"),
        Some(key.clone()),
    );
    let second = submit(
        &mut store,
        &registry,
        workflow,
        json("{\"value\": 1}"),
        Some(key),
    );
    assert_eq!(first.run_id, second.run_id);

    let mut fallback_workflow = WorkflowSpec::new("fallback-run", "1").expect("workflow");
    let mut fallback_step = StepSpec::new("step", "primary").expect("step");
    fallback_step.policy.retry = RetryPolicy::never();
    fallback_step.policy.fallback_task = Some(TaskId::new("fallback").unwrap());
    fallback_workflow.add_step(fallback_step).expect("add step");
    let result = execute(&mut store, &registry, fallback_workflow, json("{}"));
    assert_eq!(result.status, RunStatus::Succeeded);
}

#[test]
fn repository_rejects_stale_leases_and_applies_gates() {
    let mut store = InMemoryRunStore::default();
    let task = spec("echo");
    let mut workflow = WorkflowSpec::new("repo", "1").unwrap();
    workflow
        .add_step(StepSpec::new("step", "echo").unwrap())
        .unwrap();
    workflow.add_gate(EvaluationGate {
        metric: "accuracy".to_owned(),
        threshold: MetricValue::from_bits(0.9_f64.to_bits()),
        direction: MetricDirection::AtLeast,
    });
    let run_id = RunId::new("repo-run").unwrap();
    store
        .create_run(request(&run_id, &workflow, vec![task]))
        .unwrap();
    let worker = WorkerProfile::new("worker-a").unwrap();
    let claim = store
        .claim_next_step(&run_id, &worker, 1_000)
        .unwrap()
        .unwrap();
    let stale = StepClaim {
        lease_token: claim.lease_token + 1,
        ..claim.clone()
    };
    assert!(matches!(
        store.complete_step(
            &stale,
            StepCompletion::succeeded(run_id.clone(), claim.step.id.clone(), json("{}"), 1)
        ),
        Err(RepositoryError::LeaseLost { .. })
    ));
    assert!(matches!(
        store.complete_step(
            &claim,
            StepCompletion::succeeded(
                run_id.clone(),
                claim.step.id.clone(),
                json("{}"),
                claim.attempt + 1,
            )
        ),
        Err(RepositoryError::InvalidCompletion { .. })
    ));
    store
        .complete_step(
            &claim,
            StepCompletion::succeeded(run_id.clone(), claim.step.id.clone(), json("{}"), 1),
        )
        .unwrap();
    let finished = store
        .finish_run(
            &run_id,
            vec![Metric {
                name: "accuracy".to_owned(),
                value: MetricValue::from_bits(0.95_f64.to_bits()),
            }],
        )
        .unwrap();
    assert_eq!(finished.status, RunStatus::Succeeded);
}

#[test]
fn repository_rejects_policy_bypassing_completions() {
    let mut store = InMemoryRunStore::default();
    let primary = spec("primary");
    let fallback = spec("fallback");
    let mut workflow = WorkflowSpec::new("completion-policy", "1").unwrap();
    let mut step = StepSpec::new("step", "primary").unwrap();
    step.policy.retry = RetryPolicy::never();
    step.policy.fallback_task = Some(fallback.id.clone());
    workflow.add_step(step).unwrap();
    let run_id = RunId::new("completion-policy-run").unwrap();
    store
        .create_run(request(&run_id, &workflow, vec![primary, fallback.clone()]))
        .unwrap();
    let worker = WorkerProfile::new("completion-worker").unwrap();
    let claim = store
        .claim_next_step(&run_id, &worker, 1_000)
        .unwrap()
        .unwrap();
    assert!(matches!(
        store.complete_step(
            &claim,
            StepCompletion::retrying(
                run_id.clone(),
                claim.step.id.clone(),
                claim.attempt,
                "retry after exhaustion".to_owned(),
            ),
        ),
        Err(RepositoryError::InvalidCompletion { .. })
    ));
    assert!(matches!(
        store.complete_step(
            &claim,
            StepCompletion::failed(
                run_id.clone(),
                claim.step.id.clone(),
                claim.attempt,
                "bypass fallback".to_owned(),
            ),
        ),
        Err(RepositoryError::InvalidCompletion { .. })
    ));
    store
        .complete_step(
            &claim,
            StepCompletion::fallback(
                run_id.clone(),
                claim.step.id.clone(),
                fallback.id.clone(),
                "primary failed".to_owned(),
            ),
        )
        .unwrap();
    let fallback_claim = store
        .claim_next_step(&run_id, &worker, 1_000)
        .unwrap()
        .unwrap();
    assert!(matches!(
        store.complete_step(
            &fallback_claim,
            StepCompletion::fallback(
                run_id,
                fallback_claim.step.id.clone(),
                fallback.id,
                "fallback again".to_owned(),
            ),
        ),
        Err(RepositoryError::InvalidCompletion { .. })
    ));
}

#[test]
fn repository_rejects_inconsistent_event_records() {
    let mut store = InMemoryRunStore::default();
    let task = spec("event-task");
    let mut workflow = WorkflowSpec::new("event-record", "1").unwrap();
    workflow
        .add_step(StepSpec::new("step", "event-task").unwrap())
        .unwrap();
    let run_id = RunId::new("event-record-run").unwrap();
    store
        .create_run(request(&run_id, &workflow, vec![task]))
        .unwrap();
    let worker = WorkerProfile::new("event-worker").unwrap();
    let claim = store
        .claim_next_step(&run_id, &worker, 1_000)
        .unwrap()
        .unwrap();
    let started = ExecutionEvent::StepStarted {
        run_id: run_id.clone(),
        step_id: claim.step.id.clone(),
        task: claim.task.id.clone(),
        attempt: claim.attempt,
    };
    store.record_event(&run_id, started.clone()).unwrap();
    assert!(matches!(
        store.record_event(&run_id, started),
        Err(RepositoryError::InvalidEvent { .. })
    ));
    store.cancel_run(&run_id).unwrap();
    let cancelled = store.load_run(&run_id).unwrap().unwrap();
    let record = cancelled.steps.value_at(0);
    assert_eq!(record.status, StepStatus::Cancelled);
    assert_eq!(record.history[0].status, StepStatus::Cancelled);
    assert!(record.history[0].finished_at_ms.is_some());
    assert!(matches!(
        store.record_event(
            &run_id,
            ExecutionEvent::RunFinished {
                run_id: run_id.clone(),
                status: RunStatus::Succeeded,
            },
        ),
        Err(RepositoryError::InvalidEvent { .. })
    ));
}

#[test]
fn repository_rejects_unsupported_snapshot_schema_versions() {
    let mut store = InMemoryRunStore::default();
    let task = spec("schema-task");
    let mut workflow = WorkflowSpec::new("schema-record", "1").unwrap();
    workflow
        .add_step(StepSpec::new("step", "schema-task").unwrap())
        .unwrap();
    let run_id = RunId::new("schema-record-run").unwrap();
    store
        .create_run(RunRequest {
            run_id: run_id.clone(),
            workflow,
            manifest: RunManifest::new(
                WorkflowId::new("schema-record").unwrap(),
                "1",
                tasks_of(vec![task]),
            ),
            input: json("{}"),
            idempotency_key: None,
        })
        .unwrap();

    let mut run = store.load_run(&run_id).unwrap().unwrap();
    run.schema_version += 1;
    let error = store
        .save(&run)
        .expect_err("future run schema must be rejected");
    assert!(error.message.contains("unsupported run schema version"));
    assert_eq!(
        error.message,
        "unsupported run schema version 2; expected 1"
    );

    let mut run = store.load_run(&run_id).unwrap().unwrap();
    run.event_log[0].schema_version += 1;
    let error = store
        .save(&run)
        .expect_err("future event schema must be rejected");
    assert!(error.message.contains("unsupported event schema version"));
}

#[test]
fn artifacts_and_typed_tasks_are_reusable() {
    let mut artifacts = InMemoryArtifactStore::default();
    let reference = artifacts
        .put(
            b"dataset".to_vec(),
            ArtifactMetadata {
                media_type: "text/plain".to_owned(),
                ..ArtifactMetadata::default()
            },
        )
        .unwrap();
    assert_eq!(
        artifacts.get(&reference).unwrap(),
        Some(b"dataset".to_vec())
    );

    let mut registry = InMemoryTaskRegistry::default();
    register(&mut registry, "double", doubler);
    let mut store = InMemoryRunStore::default();
    let mut workflow = WorkflowSpec::new("typed", "1").unwrap();
    workflow
        .add_step(StepSpec::new("double", "double").unwrap())
        .unwrap();
    let run = execute(&mut store, &registry, workflow, json("{\"value\": 3}"));
    assert_eq!(run.status, RunStatus::Succeeded);
    assert_eq!(
        run.steps.value_at(0).output,
        Some(json("{\"doubled\": 6}"))
    );
}

#[test]
fn typed_envelope_preserves_dependency_outputs() {
    let mut registry = InMemoryTaskRegistry::default();
    register(&mut registry, "source", echo);
    register(&mut registry, "reader", dependency_reader);
    let mut store = InMemoryRunStore::default();
    let mut workflow = WorkflowSpec::new("dependencies", "1").unwrap();
    workflow
        .add_step(StepSpec::new("source", "source").unwrap())
        .unwrap();
    let mut reader = StepSpec::new("reader", "reader").unwrap();
    reader.depends_on.push(StepId::new("source").unwrap());
    workflow.add_step(reader).unwrap();
    let run = execute(&mut store, &registry, workflow, json("{\"value\": 4}"));
    assert_eq!(run.status, RunStatus::Succeeded);
    assert_eq!(
        run.steps
            .get(&StepId::new("reader").unwrap())
            .unwrap()
            .output
            .as_ref()
            .and_then(|value| value.get("dependencies"))
            .and_then(|value| value.get("source")),
        Some(&json(
            "{\"run_input\": {\"value\": 4}, \"dependencies\": {}}"
        ))
    );
}

#[test]
fn failing_fallback_terminates_instead_of_looping() {
    let mut registry = InMemoryTaskRegistry::default();
    register(&mut registry, "primary", permanent_failure);
    register(&mut registry, "fallback", permanent_failure);
    let mut store = InMemoryRunStore::default();
    let mut workflow = WorkflowSpec::new("failed-fallback", "1").unwrap();
    let mut step = StepSpec::new("step", "primary").unwrap();
    step.policy.retry = RetryPolicy::never();
    step.policy.fallback_task = Some(TaskId::new("fallback").unwrap());
    workflow.add_step(step).unwrap();
    let run = execute(&mut store, &registry, workflow, json("{}"));
    assert_eq!(run.status, RunStatus::Failed);
}

#[test]
fn expired_leases_cannot_commit() {
    let mut store = InMemoryRunStore::default();
    let task = spec("echo");
    let mut workflow = WorkflowSpec::new("expiry", "1").unwrap();
    workflow
        .add_step(StepSpec::new("step", "echo").unwrap())
        .unwrap();
    let run_id = RunId::new("expiry-run").unwrap();
    store
        .create_run(request(&run_id, &workflow, vec![task]))
        .unwrap();
    let worker = WorkerProfile::new("expiry-worker").unwrap();
    let claim = store
        .claim_next_step_at(&run_id, &worker, 1, 1_000)
        .unwrap()
        .unwrap();
    assert!(matches!(
        store.complete_step_at(
            &claim,
            StepCompletion::succeeded(run_id, claim.step.id.clone(), json("{}"), 1),
            1_005,
        ),
        Err(RepositoryError::LeaseLost { .. })
    ));
}

#[test]
fn expired_primary_final_attempt_selects_fallback() {
    let mut store = InMemoryRunStore::default();
    let primary = spec("primary");
    let fallback = spec("fallback");
    let mut workflow = WorkflowSpec::new("expired-primary", "1").unwrap();
    let mut step = StepSpec::new("step", "primary").unwrap();
    step.policy.retry = RetryPolicy::never();
    step.policy.fallback_task = Some(fallback.id.clone());
    workflow.add_step(step).unwrap();
    let run_id = RunId::new("expired-primary-run").unwrap();
    store
        .create_run(request(&run_id, &workflow, vec![primary, fallback.clone()]))
        .unwrap();
    let worker = WorkerProfile::new("recovery-worker").unwrap();
    let claim = store
        .claim_next_step_at(&run_id, &worker, 1, 1_000)
        .unwrap()
        .unwrap();
    let expired = store.recover_expired_at(1_005).unwrap();
    assert_eq!(expired, vec![(run_id.clone(), claim.step.id.clone())]);
    let recovered = store.load_run(&run_id).unwrap().unwrap();
    let record = recovered.steps.value_at(0);
    assert_eq!(record.status, StepStatus::Retrying);
    assert_eq!(record.task, fallback.id);
    assert!(record.fallback_used);
    assert!(recovered
        .event_log
        .iter()
        .any(|event| matches!(event.event, ExecutionEvent::StepFallbackSelected { .. })));

    let fallback_claim = store
        .claim_next_step_at(&run_id, &worker, 1_000, 1_005)
        .unwrap()
        .unwrap();
    store
        .complete_step_at(
            &fallback_claim,
            StepCompletion::succeeded(
                run_id.clone(),
                fallback_claim.step.id.clone(),
                json("{\"recovered\": true}"),
                fallback_claim.attempt,
            ),
            1_006,
        )
        .unwrap();
    assert_eq!(
        store.finish_run(&run_id, Vec::new()).unwrap().status,
        RunStatus::Succeeded
    );
}

#[test]
fn expired_fallback_final_attempt_fails() {
    let mut store = InMemoryRunStore::default();
    let primary = spec("primary");
    let fallback = spec("fallback");
    let mut workflow = WorkflowSpec::new("expired-fallback", "1").unwrap();
    let mut step = StepSpec::new("step", "primary").unwrap();
    step.policy.retry = RetryPolicy::never();
    step.policy.fallback_task = Some(fallback.id.clone());
    workflow.add_step(step).unwrap();
    let run_id = RunId::new("expired-fallback-run").unwrap();
    store
        .create_run(request(&run_id, &workflow, vec![primary, fallback]))
        .unwrap();
    let worker = WorkerProfile::new("recovery-worker").unwrap();
    let primary_claim = store
        .claim_next_step_at(&run_id, &worker, 1, 1_000)
        .unwrap()
        .unwrap();
    assert!(matches!(
        store.complete_step_at(
            &primary_claim,
            StepCompletion::fallback(
                run_id.clone(),
                primary_claim.step.id.clone(),
                TaskId::new("primary").unwrap(),
                "use the wrong fallback".to_owned(),
            ),
            1_000,
        ),
        Err(RepositoryError::InvalidCompletion { .. })
    ));
    let fallback_task = TaskId::new("fallback").unwrap();
    store
        .complete_step_at(
            &primary_claim,
            StepCompletion::fallback(
                run_id.clone(),
                primary_claim.step.id.clone(),
                fallback_task,
                "primary failed".to_owned(),
            ),
            1_000,
        )
        .unwrap();
    let fallback_claim = store
        .claim_next_step_at(&run_id, &worker, 1, 1_000)
        .unwrap()
        .unwrap();
    store.recover_expired_at(1_005).unwrap();
    let recovered = store.load_run(&run_id).unwrap().unwrap();
    assert_eq!(recovered.steps.value_at(0).status, StepStatus::Failed);
    assert_eq!(recovered.error.as_deref(), Some("worker lease expired"));
    assert_eq!(
        store.finish_run(&run_id, Vec::new()).unwrap().status,
        RunStatus::Failed
    );
    assert_eq!(fallback_claim.attempt, 2);
}

#[test]
fn expired_primary_without_fallback_fails() {
    let mut store = InMemoryRunStore::default();
    let task = spec("primary");
    let mut workflow = WorkflowSpec::new("expired-no-fallback", "1").unwrap();
    let mut step = StepSpec::new("step", "primary").unwrap();
    step.policy.retry = RetryPolicy::never();
    workflow.add_step(step).unwrap();
    let run_id = RunId::new("expired-no-fallback-run").unwrap();
    store
        .create_run(request(&run_id, &workflow, vec![task]))
        .unwrap();
    let worker = WorkerProfile::new("recovery-worker").unwrap();
    store
        .claim_next_step_at(&run_id, &worker, 1, 1_000)
        .unwrap()
        .unwrap();
    store.recover_expired_at(1_005).unwrap();
    let recovered = store.load_run(&run_id).unwrap().unwrap();
    assert_eq!(recovered.steps.value_at(0).status, StepStatus::Failed);
    assert_eq!(recovered.error.as_deref(), Some("worker lease expired"));
    assert_eq!(
        store.finish_run(&run_id, Vec::new()).unwrap().status,
        RunStatus::Failed
    );
}

#[test]
fn worker_policy_is_enforced_at_claim_time() {
    let mut store = InMemoryRunStore::default();
    let task = spec("restricted");
    let mut workflow = WorkflowSpec::new("policy", "1").unwrap();
    workflow
        .add_step(StepSpec::new("step", "restricted").unwrap())
        .unwrap();
    let run_id = RunId::new("policy-run").unwrap();
    store
        .create_run(request(&run_id, &workflow, vec![task]))
        .unwrap();
    let mut worker = WorkerProfile::new("restricted-worker").unwrap();
    worker.resources.capabilities.insert("other".to_owned());
    assert!(store
        .claim_next_step(&run_id, &worker, 1000)
        .unwrap()
        .is_none());
}

#[test]
fn idempotency_includes_manifest_metadata() {
    let mut store = InMemoryRunStore::default();
    let task = spec("echo");
    let mut workflow = WorkflowSpec::new("idempotency", "1").unwrap();
    workflow
        .add_step(StepSpec::new("step", "echo").unwrap())
        .unwrap();
    let tasks = tasks_of(vec![task]);
    let key = IdempotencyKey::new("manifest-key").unwrap();
    let mut first_manifest = RunManifest::new(workflow.id.clone(), "1", tasks.clone());
    first_manifest
        .metadata
        .insert("dataset".to_owned(), "one".to_owned());
    store
        .create_run(RunRequest {
            run_id: RunId::new("manifest-one").unwrap(),
            workflow: workflow.clone(),
            manifest: first_manifest,
            input: json("{\"same\": true}"),
            idempotency_key: Some(key.clone()),
        })
        .unwrap();
    let mut second_manifest = RunManifest::new(workflow.id.clone(), "1", tasks);
    second_manifest
        .metadata
        .insert("dataset".to_owned(), "two".to_owned());
    assert!(matches!(
        store.create_run(RunRequest {
            run_id: RunId::new("manifest-two").unwrap(),
            workflow,
            manifest: second_manifest,
            input: json("{\"same\": true}"),
            idempotency_key: Some(key),
        }),
        Err(RepositoryError::IdempotencyConflict { .. })
    ));
}

#[test]
fn manifests_are_built_from_what_is_registered() {
    let mut registry = InMemoryTaskRegistry::default();
    register(&mut registry, "primary", echo);
    let mut workflow = WorkflowSpec::new("manifest", "3").unwrap();
    let mut step = StepSpec::new("step", "primary").unwrap();
    step.policy.fallback_task = Some(TaskId::new("fallback").unwrap());
    workflow.add_step(step).unwrap();
    let catalog = catalog_of(&registry, &workflow);
    assert_eq!(
        validate_workflow(&catalog, &workflow)
            .unwrap_err()
            .message(),
        "task fallback is not registered"
    );
    assert!(build_manifest(&catalog, &workflow, &RunProvenance::default()).is_err());

    register(&mut registry, "fallback", echo);
    let catalog = catalog_of(&registry, &workflow);
    assert!(validate_workflow(&catalog, &workflow).is_ok());
    let manifest = build_manifest(&catalog, &workflow, &RunProvenance::default()).unwrap();
    assert_eq!(manifest.workflow_version, "3");
    assert_eq!(manifest.schema_version, 1);
    assert_eq!(manifest.tasks.len(), 2);
}
