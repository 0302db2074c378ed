use data_ai_orchestrator::event::{append_run_event, read_since};
use data_ai_orchestrator::locked::{
    answer_known, cancel_locked, claim_locked, complete_locked, finish_locked, lease_expiry_ms,
    next_lease_token, plan_creation, record_locked, recover_locked, settle_insertion, Creation,
};
use data_ai_orchestrator::transition::renew_lease;
use data_ai_orchestrator::validation::{validate_run_record_schema, validate_run_request};
use data_ai_orchestrator::{
    ExecutionEvent, IdempotencyKey, Metric, MetricValue, OrderedMap, RepositoryError, RetryPolicy,
    RunId, RunManifest, RunRecord, RunRequest, RunStatus, StepCompletion, StepSpec, StepStatus,
    TaskSpec, WorkerProfile, WorkflowSpec,
};
use serde_json::Value;

fn value(text: &str) -> Value {
    serde_json::from_str(text).expect("valid JSON")
}

fn row_request(run_id: &str, key: &str, retry: RetryPolicy, workflow_id: &str) -> RunRequest {
    let task = TaskSpec::new("postgres-echo", "1", "echo").unwrap();
    let mut workflow = WorkflowSpec::new(workflow_id, "1").unwrap();
    let mut step = StepSpec::new("step", "postgres-echo").unwrap();
    step.policy.retry = retry;
    workflow.add_step(step).unwrap();
    let mut tasks = OrderedMap::new();
    tasks.insert(task.id.clone(), task);
    RunRequest {
        run_id: RunId::new(run_id).unwrap(),
        manifest: RunManifest::new(workflow.id.clone(), "1", tasks),
        workflow,
        input: value("{\"source\": \"postgres-test\"}"),
        idempotency_key: Some(IdempotencyKey::new(key).unwrap()),
    }
}

fn inserted(request: &RunRequest, now: u64) -> RunRecord {
    validate_run_request(request).unwrap();
    match plan_creation(request, None, false, now) {
        Creation::Insert(run) => settle_insertion(request, run, true, None).unwrap(),
        Creation::Answer(_) => panic!("a new run is inserted"),
    }
}

#[test]
fn decode_rejects_unsupported_run_schema() {
    let task = TaskSpec::new("task", "1", "capability").expect("valid task");
    let mut tasks = OrderedMap::new();
    tasks.insert(task.id.clone(), task);
    let workflow = WorkflowSpec::new("workflow", "1").expect("valid workflow");
    let manifest = RunManifest::new(workflow.id.clone(), "1", tasks);
    let mut run = RunRecord::new(
        RunId::new("run").expect("valid run id"),
        workflow,
        manifest,
        value("{}"),
    );
    run.schema_version = 2;

    assert!(validate_run_record_schema(&run).is_err());
}

#[test]
fn decode_rejects_unsupported_event_schema() {
    let task = TaskSpec::new("task", "1", "capability").expect("valid task");
    let mut tasks = OrderedMap::new();
    tasks.insert(task.id.clone(), task);
    let workflow = WorkflowSpec::new("workflow", "1").expect("valid workflow");
    let manifest = RunManifest::new(workflow.id.clone(), "1", tasks);
    let run_id = RunId::new("run").expect("valid run id");
    let mut run = RunRecord::new(run_id.clone(), workflow, manifest, value("{}"));
    let workflow_id = run.workflow.id.clone();
    append_run_event(
        &mut run,
        ExecutionEvent::RunStarted {
            run_id,
            workflow_id,
        },
        5,
    )
    .expect("append event");
    assert!(validate_run_record_schema(&run).is_ok());
    run.event_log[0].schema_version = 2;

    assert!(validate_run_record_schema(&run).is_err());
}

#[test]
fn postgres_repository_smoke_and_concurrent_idempotency() {
    let first = row_request(
        "postgres-run-a",
        "postgres-key",
        RetryPolicy::never(),
        "postgres-workflow",
    );
    let second = row_request(
        "postgres-run-b",
        "postgres-key",
        RetryPolicy::never(),
        "postgres-workflow",
    );
    let mut run = inserted(&first, 1_000);
    let beaten = match plan_creation(&second, None, false, 1_000) {
        Creation::Insert(run) => run,
        Creation::Answer(_) => panic!("the other run is not seen yet"),
    };
    let answer = settle_insertion(&second, beaten, false, Some(run.clone()));
    assert_eq!(run.run_id, answer.unwrap().run_id);
    assert_eq!(
        run.run_id,
        answer_known(run.clone(), &second).unwrap().run_id
    );

    let worker = WorkerProfile::new("postgres-worker").unwrap();
    let _claim = claim_locked(&mut run, &worker, 1, 1_000).unwrap();
    assert_eq!(lease_expiry_ms(&run), Ok(Some(1_001)));
    assert_eq!(recover_locked(&mut run, 1_005, 1_005).len(), 1);
    assert_eq!(run.status, RunStatus::Running);
    assert_eq!(run.error.as_deref(), Some("worker lease expired"));
    assert_eq!(run.steps.value_at(0).status, StepStatus::Failed);
    assert_eq!(lease_expiry_ms(&run), Ok(None));

    let mut cancelled = inserted(
        &row_request(
            "postgres-cancel",
            "postgres-cancel-key",
            RetryPolicy::never(),
            "postgres-cancel-workflow",
        ),
        1_000,
    );
    claim_locked(&mut cancelled, &worker, 1_000, 1_000).unwrap();
    assert!(cancel_locked(&mut cancelled, 1_010, 1_011));
    let cancelled_step = cancelled.steps.value_at(0);
    assert_eq!(cancelled.status, RunStatus::Cancelled);
    assert_eq!(cancelled_step.status, StepStatus::Cancelled);
    assert_eq!(cancelled_step.history[0].status, StepStatus::Cancelled);
    assert!(cancelled_step.history[0].finished_at_ms.is_some());
    let snapshot = cancelled.clone();
    assert!(!cancel_locked(&mut cancelled, 1_020, 1_021));
    assert_eq!(cancelled, snapshot);

    assert!(finish_locked(&mut run, Vec::new(), 1_006));
    assert_eq!(run.status, RunStatus::Failed);

    let mut success = inserted(
        &row_request(
            "postgres-success",
            "postgres-success-key",
            RetryPolicy::never(),
            "postgres-success-workflow",
        ),
        1_000,
    );
    let claim = claim_locked(&mut success, &worker, 1_000, 1_000).unwrap();
    let run_id = success.run_id.clone();
    complete_locked(
        &mut success,
        &claim,
        StepCompletion::succeeded(
            run_id,
            claim.step.id.clone(),
            value("{\"ok\": true}"),
            claim.attempt,
        ),
        1_001,
        1_002,
    )
    .unwrap();
    assert!(finish_locked(&mut success, Vec::new(), 1_003));
    assert_eq!(success.status, RunStatus::Succeeded);
    assert!(!read_since(&success.event_log, 0).is_empty());
}

#[test]
fn locked_requests_are_decided_one_by_one() {
    let request = row_request("run-a", "key", RetryPolicy::never(), "workflow");
    let run = inserted(&request, 1_000);
    assert_eq!(run.status, RunStatus::Running);
    assert_eq!(run.created_at_ms, 1_000);
    assert_eq!(run.revision, 1);
    assert_eq!(run.event_log[0].sequence, 1);
    assert_eq!(run.event_log[0].event_id.as_str(), "run-a-event-1");

    let taken = plan_creation(&request, None, true, 1_000);
    assert!(matches!(
        taken,
        Creation::Answer(Err(RepositoryError::Conflict { .. }))
    ));
    let mut other = row_request("run-b", "key", RetryPolicy::never(), "workflow");
    other.input = value("{\"source\": \"elsewhere\"}");
    let clash = plan_creation(&other, Some(run.clone()), false, 1_000);
    assert!(matches!(
        clash,
        Creation::Answer(Err(RepositoryError::IdempotencyConflict { .. }))
    ));
    let lost = settle_insertion(&request, run.clone(), false, None);
    assert!(matches!(lost, Err(RepositoryError::Conflict { .. })));
}

#[test]
fn locked_leases_are_fenced_by_growing_tokens() {
    let request = row_request(
        "run",
        "key",
        RetryPolicy::default(),
        "workflow",
    );
    let mut run = inserted(&request, 1_000);
    assert_eq!(next_lease_token(&run), 1);
    let worker = WorkerProfile::new("worker").unwrap();
    let first = claim_locked(&mut run, &worker, 10, 1_000).unwrap();
    assert_eq!(first.lease_token, 1);
    assert_eq!(run.steps.value_at(0).history[0].id.as_str(), "run-attempt-1");
    assert!(claim_locked(&mut run, &worker, 10, 1_000).is_none());
    renew_lease(&mut run, &first, 20, 1_005).unwrap();
    assert_eq!(lease_expiry_ms(&run), Ok(Some(1_025)));
    assert_eq!(recover_locked(&mut run, 1_025, 1_025).len(), 1);
    assert!(matches!(
        renew_lease(&mut run, &first, 20, 1_025),
        Err(RepositoryError::LeaseLost { .. })
    ));
    let second = claim_locked(&mut run, &worker, 10, 1_030).unwrap();
    assert_eq!(second.lease_token, 2);
    assert_eq!(second.attempt, 2);
    let completion = StepCompletion::succeeded(
        run.run_id.clone(),
        first.step.id.clone(),
        value("null"),
        first.attempt,
    );
    let before = run.clone();
    assert!(matches!(
        complete_locked(&mut run, &first, completion, 1_031, 1_031),
        Err(RepositoryError::LeaseLost { .. })
    ));
    assert_eq!(run, before);

    let mut far = run.clone();
    renew_lease(&mut far, &second, u64::MAX, 1_031).unwrap();
    assert_eq!(lease_expiry_ms(&far), Err(u64::MAX));
}

#[test]
fn locked_claims_forget_a_delay_that_is_over() {
    let request = row_request("run", "key", RetryPolicy::default(), "workflow");
    let mut run = inserted(&request, 1_000);
    let worker = WorkerProfile::new("worker").unwrap();
    let claim = claim_locked(&mut run, &worker, 1_000, 1_000).unwrap();
    complete_locked(
        &mut run,
        &claim,
        StepCompletion::retrying(
            claim.run_id.clone(),
            claim.step.id.clone(),
            claim.attempt,
            "later".to_owned(),
        )
        .with_retry_after_ms(25),
        1_010,
        1_010,
    )
    .unwrap();
    assert_eq!(run.steps.value_at(0).next_attempt_at_ms, Some(1_035));
    assert!(claim_locked(&mut run, &worker, 1_000, 1_034).is_none());
    assert!(claim_locked(&mut run, &worker, 1_000, 1_035).is_some());
    assert_eq!(run.steps.value_at(0).next_attempt_at_ms, None);
}

#[test]
fn locked_events_are_checked_and_numbered() {
    let request = row_request("run", "key", RetryPolicy::never(), "workflow");
    let mut run = inserted(&request, 1_000);
    let again = ExecutionEvent::RunStarted {
        run_id: run.run_id.clone(),
        workflow_id: run.workflow.id.clone(),
    };
    assert!(matches!(
        record_locked(&mut run, again, 1_001),
        Err(RepositoryError::InvalidEvent { .. })
    ));
    let foreign = ExecutionEvent::RunFinished {
        run_id: RunId::new("other").unwrap(),
        status: RunStatus::Failed,
    };
    assert!(matches!(
        append_run_event(&mut run, foreign, 1_001),
        Err(RepositoryError::InvalidEvent { .. })
    ));
    let worker = WorkerProfile::new("worker").unwrap();
    let claim = claim_locked(&mut run, &worker, 1_000, 1_000).unwrap();
    let envelope = record_locked(
        &mut run,
        data_ai_orchestrator::durable::started_event(&claim),
        1_002,
    )
    .unwrap();
    assert_eq!(envelope.sequence, 2);
    assert_eq!(envelope.occurred_at_ms, 1_002);
}

#[test]
fn locked_metrics_are_written_back_when_they_change() {
    let request = row_request("run", "key", RetryPolicy::never(), "workflow");
    let mut run = inserted(&request, 1_000);
    assert!(!finish_locked(&mut run, Vec::new(), 1_001));
    let revision = run.revision;
    let metrics = vec![Metric {
        name: "loss".to_owned(),
        value: MetricValue::from_bits(0.25_f64.to_bits()),
    }];
    assert!(finish_locked(&mut run, metrics.clone(), 1_002));
    assert_eq!(run.revision, revision + 1);
    assert!(!finish_locked(&mut run, metrics, 1_003));
    assert_eq!(run.revision, revision + 1);
    assert_eq!(run.status, RunStatus::Running);
}
