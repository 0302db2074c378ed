use data_ai_orchestrator::durable::{completion_for, Drive, DriveAction, DriveEvent};
use data_ai_orchestrator::validation::validate_run_request;
use data_ai_orchestrator::{
    DurableExecutorOptions, EvaluationGate, EventEnvelope, ExecutionEvent, IdempotencyKey,
    InMemoryRunStore, MetricDirection, MetricValue, OrderedMap, RepositoryError, RetryDelay,
    RetryPolicy, RunId, RunManifest, RunRequest, RunStatus, StepClaim, StepCompletion, StepSpec,
    StepStatus, TaskError, TaskId, TaskSpec, WorkerProfile, WorkflowId, WorkflowSpec,
};
use serde_json::Value;

fn doc(text: &str) -> Value {
    serde_json::from_str(text).expect("valid JSON")
}

fn id(text: &str) -> RunId {
    RunId::new(text).expect("valid run id")
}

fn a_task(name: &str) -> TaskSpec {
    TaskSpec::new(name, "1", name).expect("valid task")
}

/// Two steps, the second after the first, with a fallback for both.
fn two_steps(name: &str) -> WorkflowSpec {
    let mut workflow = WorkflowSpec::new(name, "1").expect("valid workflow");
    for (step, after) in [("second", Some("first")), ("first", None)] {
        let mut spec = StepSpec::new(step, "main").expect("valid step");
        spec.policy.retry = RetryPolicy {
            max_attempts: 2,
            delay: RetryDelay {
                initial_ms: 10,
                multiplier: 3,
                max_ms: 1_000,
            },
        };
        spec.policy.fallback_task = Some(TaskId::new("spare").expect("valid task"));
        if let Some(other) = after {
            spec = spec.depends_on(other).expect("valid dependency");
        }
        workflow.add_step(spec).expect("new step");
    }
    workflow
}

fn asked_for(run: &str, workflow: &WorkflowSpec) -> RunRequest {
    let mut tasks = OrderedMap::new();
    for name in ["main", "spare"] {
        let task = a_task(name);
        tasks.insert(task.id.clone(), task);
    }
    RunRequest {
        run_id: id(run),
        workflow: workflow.clone(),
        manifest: RunManifest::new(workflow.id.clone(), "1", tasks)
            .with_evaluation_gates(workflow.evaluation_gates.clone()),
        input: doc("{\"n\": 1}"),
        idempotency_key: None,
    }
}

fn store_with(run: &str) -> InMemoryRunStore {
    let mut store = InMemoryRunStore::new();
    store
        .create_run_at(asked_for(run, &two_steps("w")), 100)
        .expect("created");
    store
}

fn worker() -> WorkerProfile {
    WorkerProfile::new("worker").expect("valid worker")
}

fn claim(store: &mut InMemoryRunStore, run: &str, now: u64) -> StepClaim {
    store
        .claim_next_step_at(&id(run), &worker(), 50, now)
        .expect("run is there")
        .expect("a step can be claimed")
}

fn success(claim: &StepClaim) -> StepCompletion {
    completion_for(claim, Ok(doc("{\"done\": true}")))
}

#[test]
fn steps_are_claimed_after_what_they_wait_for() {
    let mut store = store_with("r");
    let first = claim(&mut store, "r", 200);
    assert_eq!(first.step.id.as_str(), "first");
    assert_eq!(first.attempt, 1);
    assert_eq!(first.lease_token, 1);
    assert_eq!(
        first.input,
        doc("{\"run_input\": {\"n\": 1}, \"dependencies\": {}}")
    );
    assert!(store
        .claim_next_step_at(&id("r"), &worker(), 50, 200)
        .unwrap()
        .is_none());
    store.complete_step_at(&first, success(&first), 210).unwrap();
    let second = claim(&mut store, "r", 211);
    assert_eq!(second.step.id.as_str(), "second");
    assert_eq!(
        second.input,
        doc("{\"run_input\": {\"n\": 1}, \"dependencies\": {\"first\": {\"done\": true}}}")
    );
    let run = store.load_run(&id("r")).unwrap().unwrap();
    let record = run.steps.get(&second.step.id).unwrap();
    assert_eq!(record.history[0].id.as_str(), "r-attempt-2");
    assert_eq!(record.lease.as_ref().unwrap().expires_at_ms, 261);
    assert_eq!(record.history[0].started_at_ms, 211);
}

#[test]
fn a_claim_is_honoured_by_its_holder_until_it_runs_out() {
    let mut store = store_with("r");
    let held = claim(&mut store, "r", 200);
    let thief = StepClaim {
        worker: data_ai_orchestrator::WorkerId::new("thief").unwrap(),
        ..held.clone()
    };
    assert!(matches!(
        store.renew_step_at(&thief, 50, 201),
        Err(RepositoryError::LeaseLost { .. })
    ));
    store.renew_step_at(&held, 100, 249).unwrap();
    assert!(matches!(
        store.renew_step_at(&held, 100, 349),
        Err(RepositoryError::LeaseLost { .. })
    ));
    assert!(store.renew_step_at(&held, 100, 348).is_ok());
    let missing = StepClaim {
        run_id: id("nobody"),
        ..held.clone()
    };
    assert!(matches!(
        store.renew_step_at(&missing, 100, 300),
        Err(RepositoryError::RunNotFound { .. })
    ));
    assert!(matches!(
        store.complete_step_at(&missing, success(&held), 300),
        Err(RepositoryError::RunNotFound { .. })
    ));
}

#[test]
fn a_lost_lease_does_not_come_back() {
    let mut store = store_with("r");
    let lost = claim(&mut store, "r", 200);
    assert_eq!(
        store.recover_expired_at(250).unwrap(),
        vec![(id("r"), lost.step.id.clone())]
    );
    assert!(store.recover_expired_at(250).unwrap().is_empty());
    let before = store.load_run(&id("r")).unwrap();
    assert!(matches!(
        store.complete_step_at(&lost, success(&lost), 240),
        Err(RepositoryError::LeaseLost { .. })
    ));
    assert_eq!(store.load_run(&id("r")).unwrap(), before);
    let again = claim(&mut store, "r", 251);
    assert!(again.lease_token > lost.lease_token);
    assert_eq!(again.attempt, 2);
    assert!(matches!(
        store.renew_step_at(&lost, 50, 251),
        Err(RepositoryError::LeaseLost { .. })
    ));
    store.complete_step_at(&again, success(&again), 252).unwrap();
    assert!(matches!(
        store.complete_step_at(&again, success(&again), 252),
        Err(RepositoryError::LeaseLost { .. })
    ));
}

#[test]
fn a_retry_waits_for_its_delay_and_holds_no_lease() {
    let mut store = store_with("r");
    let first = claim(&mut store, "r", 200);
    let completion = completion_for(&first, Err(TaskError::Transient("busy".to_owned())));
    assert_eq!(completion.retry_after_ms, Some(10));
    assert_eq!(
        completion.error.as_deref(),
        Some("task failed transiently: busy")
    );
    let run = store.complete_step_at(&first, completion, 205).unwrap();
    let record = run.steps.get(&first.step.id).unwrap();
    assert_eq!(record.status, StepStatus::Retrying);
    assert!(record.lease.is_none());
    assert_eq!(record.next_attempt_at_ms, Some(215));
    assert!(store
        .claim_next_step_at(&id("r"), &worker(), 50, 214)
        .unwrap()
        .is_none());
    let second = claim(&mut store, "r", 215);
    assert_eq!(second.attempt, 2);
    let kept = store.load_run(&id("r")).unwrap().unwrap();
    assert_eq!(
        kept.steps.get(&first.step.id).unwrap().next_attempt_at_ms,
        Some(215)
    );
}

#[test]
fn attempts_end_with_one_of_the_fallback() {
    let mut store = store_with("r");
    let busy = || Err(TaskError::Timeout { timeout_ms: 7 });
    let first = claim(&mut store, "r", 200);
    store
        .complete_step_at(&first, completion_for(&first, busy()), 200)
        .unwrap();
    let second = claim(&mut store, "r", 300);
    let fallback = completion_for(&second, busy());
    assert!(fallback.fallback_used);
    store.complete_step_at(&second, fallback, 300).unwrap();
    let third = claim(&mut store, "r", 301);
    assert_eq!(third.attempt, 3);
    assert!(third.fallback_used);
    assert_eq!(third.task.id.as_str(), "spare");
    let last = completion_for(&third, busy());
    assert_eq!(last.status, StepStatus::Failed);
    let run = store.complete_step_at(&third, last, 302).unwrap();
    assert_eq!(run.error.as_deref(), Some("task timed out after 7 ms"));
    assert!(store
        .claim_next_step_at(&id("r"), &worker(), 50, 400)
        .unwrap()
        .is_none());
    let ended = store.finish_run_at(&id("r"), Vec::new(), 401).unwrap();
    assert_eq!(ended.status, RunStatus::Failed);
    assert_eq!(
        ended
            .event_log
            .iter()
            .filter(|envelope| matches!(
                envelope.event,
                ExecutionEvent::StepFallbackSelected { .. }
            ))
            .count(),
        1
    );
}

#[test]
fn events_are_numbered_and_read_in_parts() {
    let mut store = store_with("a");
    store
        .create_run_at(asked_for("b", &two_steps("w")), 100)
        .unwrap();
    let held = claim(&mut store, "a", 200);
    store.complete_step_at(&held, success(&held), 201).unwrap();
    store.cancel_run_at(&id("b"), 202).unwrap();
    store.cancel_run_at(&id("a"), 203).unwrap();
    let whole = store.events_since(&id("a"), 0).unwrap();
    let numbers: Vec<u64> = whole.iter().map(|envelope| envelope.sequence).collect();
    assert_eq!(numbers, vec![1, 3, 5]);
    assert_eq!(whole[1].event_id.as_str(), "a-event-3");
    assert_eq!(whole[1].occurred_at_ms, 201);
    let mut read: Vec<EventEnvelope> = Vec::new();
    loop {
        let last = read.last().map_or(0, |envelope| envelope.sequence);
        let part = store.events_since(&id("a"), last).unwrap();
        match part.into_iter().next() {
            Some(envelope) => read.push(envelope),
            None => break,
        }
    }
    assert_eq!(read, whole);
    assert!(matches!(
        store.events_since(&id("nobody"), 0),
        Err(RepositoryError::RunNotFound { .. })
    ));
}

#[test]
fn logs_of_created_runs_stay_in_order_beside_saved_ones() {
    let mut store = store_with("a");
    let mut other = store.load(&id("a")).unwrap().unwrap();
    other.run_id = id("z");
    other.event_log[0].sequence = 7;
    let late = other.event_log[0].clone();
    other.event_log.insert(0, late);
    store.save(&other).unwrap();
    store.cancel_run_at(&id("z"), 150).unwrap();
    let held = claim(&mut store, "a", 200);
    store.complete_step_at(&held, success(&held), 201).unwrap();
    store.cancel_run_at(&id("a"), 202).unwrap();
    let whole = store.events_since(&id("a"), 0).unwrap();
    let numbers: Vec<u64> = whole.iter().map(|envelope| envelope.sequence).collect();
    assert_eq!(numbers, vec![1, 3, 4]);
    for (n, k) in [(0, 1), (0, 3), (1, 3), (2, 2), (3, 9)] {
        let mut read: Vec<EventEnvelope> = store
            .events_since(&id("a"), n)
            .unwrap()
            .into_iter()
            .filter(|envelope| envelope.sequence <= k)
            .collect();
        read.extend(store.events_since(&id("a"), k).unwrap());
        assert_eq!(read, store.events_since(&id("a"), n).unwrap());
    }
    let saved: Vec<u64> = store
        .events_since(&id("z"), 0)
        .unwrap()
        .iter()
        .map(|envelope| envelope.sequence)
        .collect();
    assert_eq!(saved, vec![7, 7, 2]);
}

#[test]
fn a_run_succeeds_with_all_of_its_steps() {
    let workflow = two_steps("w");
    let mut store = store_with("r");
    for now in [200, 300] {
        let early = store.finish_run_at(&id("r"), Vec::new(), now - 1).unwrap();
        assert_eq!(early.status, RunStatus::Running);
        let next = claim(&mut store, "r", now);
        store.complete_step_at(&next, success(&next), now + 1).unwrap();
    }
    let ended = store.finish_run_at(&id("r"), Vec::new(), 400).unwrap();
    assert_eq!(ended.status, RunStatus::Succeeded);
    assert_eq!(ended.steps.len(), workflow.steps.len());
    for step in &workflow.steps {
        let record = ended.steps.get(&step.id).unwrap();
        assert_eq!(record.status, StepStatus::Succeeded);
    }
}

#[test]
fn creation_is_idempotent() {
    let mut store = InMemoryRunStore::new();
    let key = Some(IdempotencyKey::new("key").unwrap());
    let first = RunRequest {
        idempotency_key: key.clone(),
        ..asked_for("a", &two_steps("w"))
    };
    let created = store.create_run_at(first.clone(), 100).unwrap();
    assert_eq!(created.status, RunStatus::Running);
    assert_eq!(created.created_at_ms, 100);
    assert_eq!(created.revision, 1);
    let again = RunRequest {
        run_id: id("b"),
        ..first.clone()
    };
    assert_eq!(store.create_run_at(again.clone(), 200).unwrap(), created);
    assert!(store.load_run(&id("b")).unwrap().is_none());
    let other = RunRequest {
        input: doc("{\"n\": 2}"),
        ..again
    };
    let refused = store.create_run_at(other, 200).unwrap_err();
    assert_eq!(
        refused.message(),
        "run a has an incompatible idempotency key"
    );
    let unkeyed = RunRequest {
        idempotency_key: None,
        ..first
    };
    assert!(matches!(
        store.create_run_at(unkeyed, 200),
        Err(RepositoryError::Conflict { .. })
    ));
}

#[test]
fn requests_are_refused_for_a_reason() {
    let good = asked_for("r", &two_steps("w"));
    assert!(validate_run_request(&good).is_ok());
    let words = |request: &RunRequest| validate_run_request(request).unwrap_err().message();

    let mut empty = good.clone();
    empty.workflow.steps.clear();
    assert_eq!(words(&empty), "invalid run request: workflow w has no steps");
    let mut newer = good.clone();
    newer.manifest.schema_version = 2;
    assert_eq!(
        words(&newer),
        "invalid run request: unsupported manifest schema version 2"
    );
    let mut foreign = good.clone();
    foreign.manifest.workflow_id = WorkflowId::new("v").unwrap();
    assert_eq!(
        words(&foreign),
        "invalid run request: workflow and manifest identities do not match"
    );
    let mut misfiled = good.clone();
    misfiled
        .manifest
        .tasks
        .insert(TaskId::new("extra").unwrap(), a_task("main"));
    assert_eq!(
        words(&misfiled),
        "invalid run request: manifest task key extra does not match task id main"
    );
    let mut missing = good.clone();
    missing
        .manifest
        .tasks
        .remove(&TaskId::new("spare").unwrap());
    assert_eq!(
        words(&missing),
        "invalid run request: manifest does not contain all tasks for step second"
    );
    let mut store = InMemoryRunStore::default();
    assert!(store.create_run_at(missing, 1).is_err());
    assert!(store.load_run(&id("r")).unwrap().is_none());
}

#[test]
fn a_cancelled_run_is_closed() {
    let mut store = store_with("r");
    let held = claim(&mut store, "r", 200);
    let cancelled = store.cancel_run_at(&id("r"), 210).unwrap();
    assert_eq!(cancelled.status, RunStatus::Cancelled);
    let record = cancelled.steps.get(&held.step.id).unwrap();
    assert_eq!(record.status, StepStatus::Cancelled);
    assert!(record.lease.is_none());
    assert_eq!(record.history[0].finished_at_ms, Some(210));
    assert_eq!(store.cancel_run_at(&id("r"), 220).unwrap(), cancelled);
    assert!(matches!(
        store.complete_step_at(&held, success(&held), 211),
        Err(RepositoryError::LeaseLost { .. })
    ));
    assert!(store
        .claim_next_step_at(&id("r"), &worker(), 50, 300)
        .unwrap()
        .is_none());
    assert!(store
        .claim_next_runnable_step_at(&worker(), 50, 300)
        .unwrap()
        .is_none());
    assert!(matches!(
        store.cancel_run_at(&id("nobody"), 1),
        Err(RepositoryError::RunNotFound { .. })
    ));
}

#[test]
fn work_is_found_in_the_order_of_the_runs() {
    let mut store = store_with("b");
    store
        .create_run_at(asked_for("a", &two_steps("w")), 100)
        .unwrap();
    let first = store
        .claim_next_runnable_step_at(&worker(), 50, 200)
        .unwrap()
        .unwrap();
    assert_eq!(first.run_id, id("a"));
    let second = store
        .claim_next_runnable_step_at(&worker(), 50, 200)
        .unwrap()
        .unwrap();
    assert_eq!(second.run_id, id("b"));
    assert!(second.lease_token > first.lease_token);
    assert!(store
        .claim_next_runnable_step_at(&worker(), 50, 200)
        .unwrap()
        .is_none());
    let expired = store.recover_expired_at(250).unwrap();
    assert_eq!(
        expired,
        vec![
            (id("a"), first.step.id.clone()),
            (id("b"), second.step.id.clone())
        ]
    );
    assert!(matches!(
        store.claim_next_step_at(&id("nobody"), &worker(), 50, 1),
        Err(RepositoryError::RunNotFound { .. })
    ));
}

#[test]
fn success_is_earned_by_steps_and_gates() {
    let mut workflow = two_steps("w");
    workflow.add_gate(EvaluationGate {
        metric: "f1".to_owned(),
        threshold: MetricValue::from_bits(0.5_f64.to_bits()),
        direction: MetricDirection::AtLeast,
    });
    let mut store = InMemoryRunStore::new();
    store
        .create_run_at(asked_for("r", &workflow), 100)
        .unwrap();
    let early = store.finish_run_at(&id("r"), Vec::new(), 150).unwrap();
    assert_eq!(early.status, RunStatus::Running);
    assert!(!early.gate_decisions.get(&"f1".to_owned()).unwrap().passed);
    assert_eq!(early.revision, 1);
    for now in [200, 300] {
        let next = claim(&mut store, "r", now);
        store.complete_step_at(&next, success(&next), now + 1).unwrap();
    }
    let ended = store.finish_run_at(&id("r"), Vec::new(), 400).unwrap();
    assert_eq!(ended.status, RunStatus::Failed);
    assert_eq!(
        ended.error.as_deref(),
        Some("one or more evaluation gates failed")
    );
    assert!(matches!(
        ended.event_log.last().unwrap().event,
        ExecutionEvent::RunFinished {
            status: RunStatus::Failed,
            ..
        }
    ));
    assert!(matches!(
        store.finish_run_at(&id("nobody"), Vec::new(), 1),
        Err(RepositoryError::RunNotFound { .. })
    ));
}

#[test]
fn saved_runs_are_loaded_as_they_were() {
    let mut store = store_with("r");
    let mut run = store.load(&id("r")).unwrap().unwrap();
    run.run_id = id("copy");
    run.error = Some("by hand".to_owned());
    store.save(&run).unwrap();
    assert_eq!(store.load(&id("copy")).unwrap(), Some(run.clone()));
    run.manifest.schema_version = 9;
    let error = store.save(&run).unwrap_err();
    assert_eq!(error.adapter, "memory");
    assert_eq!(
        error.message,
        "unsupported manifest schema version 9; expected 1"
    );
    assert!(store.load(&id("copy")).unwrap() != Some(run));
    assert!(store.load(&id("nobody")).unwrap().is_none());
}

#[test]
fn events_are_logged_once_and_of_their_run() {
    let mut store = store_with("r");
    let held = claim(&mut store, "r", 200);
    let started = data_ai_orchestrator::durable::started_event(&held);
    let envelope = store
        .record_event_at(&id("r"), started.clone(), 201)
        .unwrap();
    assert_eq!(envelope.event, started);
    assert_eq!(envelope.sequence, 2);
    assert!(store.record_event_at(&id("r"), started.clone(), 202).is_err());
    assert!(matches!(
        store.record_event_at(&id("nobody"), started, 202),
        Err(RepositoryError::RunNotFound { .. })
    ));
    let wrong = [
        ExecutionEvent::RunStarted {
            run_id: id("r"),
            workflow_id: WorkflowId::new("w").unwrap(),
        },
        ExecutionEvent::RunStarted {
            run_id: id("r"),
            workflow_id: WorkflowId::new("other").unwrap(),
        },
        ExecutionEvent::StepSucceeded {
            run_id: id("r"),
            step_id: held.step.id.clone(),
            attempts: 1,
        },
        ExecutionEvent::StepRetrying {
            run_id: id("r"),
            step_id: held.step.id.clone(),
            attempt: 1,
            error: "x".to_owned(),
        },
        ExecutionEvent::StepFallbackSelected {
            run_id: id("r"),
            step_id: held.step.id.clone(),
            task: TaskId::new("spare").unwrap(),
        },
        ExecutionEvent::StepFailed {
            run_id: id("r"),
            step_id: held.step.id.clone(),
            attempts: 1,
            error: "x".to_owned(),
        },
        ExecutionEvent::RunFinished {
            run_id: id("r"),
            status: RunStatus::Running,
        },
        ExecutionEvent::RunFinished {
            run_id: id("elsewhere"),
            status: RunStatus::Failed,
        },
    ];
    for event in wrong {
        assert!(matches!(
            store.record_event_at(&id("r"), event, 203),
            Err(RepositoryError::InvalidEvent { .. })
        ));
    }
}

#[test]
fn a_driving_worker_claims_executes_and_waits() {
    let options = DurableExecutorOptions {
        max_parallel_steps: 2,
        poll_interval_ms: 9,
        max_idle_time_ms: Some(100),
        ..DurableExecutorOptions::default()
    };
    let mut store = store_with("r");
    let held = claim(&mut store, "r", 200);
    let mut drive = Drive::new(id("r"), &options);
    assert!(matches!(
        drive.next_action(DriveEvent::Claimed(Some(held.clone()))),
        DriveAction::Claim
    ));
    assert!(matches!(
        drive.next_action(DriveEvent::Claimed(Some(held.clone()))),
        DriveAction::Execute(claims) if claims.len() == 2
    ));
    assert!(matches!(
        drive.next_action(DriveEvent::Executed),
        DriveAction::Claim
    ));
    assert!(matches!(
        drive.next_action(DriveEvent::Claimed(None)),
        DriveAction::Finish
    ));
    let run = store.load_run(&id("r")).unwrap().unwrap();
    assert!(matches!(
        drive.next_action(DriveEvent::Finished(run)),
        DriveAction::Recover
    ));
    assert!(matches!(
        drive.next_action(DriveEvent::Recovered(99)),
        DriveAction::Sleep(9)
    ));
    assert!(matches!(
        drive.next_action(DriveEvent::Slept),
        DriveAction::Claim
    ));
    assert!(matches!(
        drive.next_action(DriveEvent::Recovered(100)),
        DriveAction::GiveUp(RepositoryError::Conflict { .. })
    ));
    let over = store.cancel_run_at(&id("r"), 300).unwrap();
    assert!(matches!(
        drive.next_action(DriveEvent::Finished(over)),
        DriveAction::Return(run) if run.status == RunStatus::Cancelled
    ));
}

#[test]
fn artifacts_are_kept_with_the_step_that_made_them() {
    let mut artifacts = data_ai_orchestrator::InMemoryArtifactStore::new();
    let reference = artifacts
        .put(
            b"model".to_vec(),
            data_ai_orchestrator::ArtifactMetadata::default(),
        )
        .unwrap();
    let mut store = store_with("r");
    let held = claim(&mut store, "r", 200);
    let run = store
        .complete_step_at(
            &held,
            success(&held).with_artifacts(vec![reference.clone()]),
            201,
        )
        .unwrap();
    let record = run.steps.get(&held.step.id).unwrap();
    assert_eq!(record.artifacts, vec![reference]);
    assert_eq!(record.output, Some(doc("{\"done\": true}")));
    assert_eq!(record.history[0].finished_at_ms, Some(201));
    assert_eq!(record.history[0].status, StepStatus::Succeeded);
    assert_eq!(run.revision, 4);
}
