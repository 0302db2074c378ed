use data_ai_orchestrator::claim::{add_delay, lease_end_ms};
use data_ai_orchestrator::clock::{clamp_millis, millis_of};
use data_ai_orchestrator::evaluation::{every_gate_passed, same_decisions, same_metrics};
use data_ai_orchestrator::graph::topological_order;
use data_ai_orchestrator::ids::{compose_id, generated_id};
use data_ai_orchestrator::json::{alike_json, build_step_input, object_of};
use data_ai_orchestrator::policy::capped_power;
use data_ai_orchestrator::text::{
    compare_text, decimal_text, hex_digest, is_blank, same_text, Place,
};
use data_ai_orchestrator::{
    evaluate_gates, now_ms, AdapterError, ArtifactId, ArtifactMetadata, ArtifactRef, AttemptId,
    CacheKey, DurableExecutorOptions, EvaluationGate, EventId, ExecutionPolicy, ExecutorOptions,
    IdempotencyKey, IdentifierError, InMemoryArtifactStore, InMemoryTaskCache,
    InMemoryTaskRegistry, Metric, MetricDirection, MetricValue, OrchestratorError, OrderedMap,
    OrderedSet, RegistryError, RepositoryError, Residency, ResourceRequirements, RetryDelay,
    RetryPolicy, RunId, RunManifest, RunProvenance, StepId, StepSpec, TaskCacheKey, TaskError,
    TaskId, TaskSpec, TypedTaskAdapter, WorkerId, WorkerProfile, WorkflowError, WorkflowId,
    WorkflowSpec,
};
use serde_json::Value;
use std::time::{Duration, UNIX_EPOCH};

fn read(text: &str) -> Value {
    serde_json::from_str(text).expect("valid JSON")
}

fn float(value: f64) -> MetricValue {
    MetricValue::from_bits(value.to_bits())
}

fn gate_on(metric: &str, threshold: f64, direction: MetricDirection) -> EvaluationGate {
    EvaluationGate {
        metric: metric.to_owned(),
        threshold: float(threshold),
        direction,
    }
}

fn measured(name: &str, value: f64) -> Metric {
    Metric {
        name: name.to_owned(),
        value: float(value),
    }
}

#[test]
fn white_space_is_what_unicode_says() {
    let mut buffer = [0u8; 4];
    for code in 0..=0x10ffffu32 {
        if let Some(c) = char::from_u32(code) {
            let text: &str = c.encode_utf8(&mut buffer);
            assert_eq!(is_blank(text), c.is_whitespace(), "{code:x}");
        }
    }
    assert!(is_blank(""));
    assert!(is_blank(" \t\n\u{3000}"));
    assert!(!is_blank(" x "));
}

#[test]
fn names_are_ordered_as_strings_are() {
    let names = ["", "a", "ab", "b", "B", "\u{e9}", "\u{10000}", "\u{ffff}", "run-10", "run-9"];
    for a in names {
        for b in names {
            let place = compare_text(a, b);
            assert_eq!(place == Place::Before, a < b);
            assert_eq!(place == Place::Same, a == b);
            assert_eq!(place == Place::After, a > b);
            assert_eq!(same_text(a, b), a == b);
        }
    }
}

#[test]
fn numbers_and_bytes_are_written_out() {
    for n in [0, 7, 10, 42, 999, 1_000, u64::MAX] {
        assert_eq!(decimal_text(n), n.to_string());
    }
    assert_eq!(hex_digest(&[0x00, 0x0f, 0xa5, 0xff]), "000fa5ff");
    assert_eq!(hex_digest(&[]), "");
}

#[test]
fn identifiers_reject_blank_text() {
    assert_eq!(RunId::new("run").unwrap().as_str(), "run");
    assert_eq!(String::from(StepId::new("  step ").unwrap()), "  step ");
    assert_eq!(TaskId::try_from("task").unwrap().as_str(), "task");
    for error in [
        RunId::new("").unwrap_err(),
        RunId::new(" \u{2003}").unwrap_err(),
        RunId::try_from("\n").unwrap_err(),
    ] {
        assert_eq!(error, IdentifierError { kind: "RunId" });
        assert_eq!(error.message(), "RunId cannot be empty");
    }
    assert_eq!(StepId::new("").unwrap_err().kind, "StepId");
    assert_eq!(TaskId::new("").unwrap_err().kind, "TaskId");
    assert_eq!(WorkflowId::new("").unwrap_err().kind, "WorkflowId");
    assert_eq!(AttemptId::new("").unwrap_err().kind, "AttemptId");
    assert_eq!(ArtifactId::new("").unwrap_err().kind, "ArtifactId");
    assert_eq!(EventId::new("").unwrap_err().kind, "EventId");
    assert_eq!(
        IdempotencyKey::new("").unwrap_err().kind,
        "IdempotencyKey"
    );
    assert_eq!(WorkerId::new("").unwrap_err().kind, "WorkerId");
    assert_eq!(CacheKey::new("").unwrap_err().kind, "CacheKey");
    assert!(RunId::new("a").unwrap() == RunId::new(String::from("a")).unwrap());
    assert!(RunId::new("a").unwrap() != RunId::new(&String::from("b")).unwrap());
    assert!(RunId::new("a").unwrap() < RunId::new("b").unwrap());
}

#[test]
fn generated_identifiers_are_composed_and_differ() {
    assert_eq!(compose_id("run", "cafe", 12), "run-cafe-12");
    let first = generated_id("run", 3);
    let second = generated_id("run", 3);
    assert_ne!(first, second);
    let parts: Vec<&str> = first.split('-').collect();
    assert_eq!(parts.len(), 3);
    assert_eq!(parts[0], "run");
    assert_eq!(parts[1].len(), 32);
    assert!(parts[1].chars().all(|c| c.is_ascii_hexdigit()));
    assert_eq!(parts[2], "3");
}

#[test]
fn the_clock_reads_milliseconds() {
    assert_eq!(millis_of(UNIX_EPOCH), 0);
    assert_eq!(millis_of(UNIX_EPOCH + Duration::from_micros(1_234_567)), 1_234);
    assert_eq!(millis_of(UNIX_EPOCH - Duration::from_millis(5)), 0);
    assert_eq!(clamp_millis(17), 17);
    assert_eq!(clamp_millis(u64::MAX as u128 + 1), u64::MAX);
    assert!(now_ms() > 1_600_000_000_000);
    assert_eq!(add_delay(5, 7), 12);
    assert_eq!(add_delay(5, u64::MAX), u64::MAX);
    assert_eq!(lease_end_ms(5, 0), 6);
    assert_eq!(lease_end_ms(5, 10), 15);
}

#[test]
fn maps_and_sets_keep_the_order_of_names() {
    let mut map: OrderedMap<String, u32> = OrderedMap::new();
    assert!(map.is_empty());
    for (name, number) in [("m", 1), ("a", 2), ("z", 3), ("m", 4)] {
        let before = map.insert(name.to_owned(), number);
        assert_eq!(before.is_some(), number == 4);
    }
    assert_eq!(map.len(), 3);
    assert_eq!(map.get(&"m".to_owned()), Some(&4));
    assert_eq!(map.key_at(0), "a");
    assert_eq!(*map.value_at(2), 3);
    assert_eq!(map.remove(&"a".to_owned()), Some(2));
    assert_eq!(map.remove(&"a".to_owned()), None);
    assert!(!map.contains_key(&"a".to_owned()));
    assert_eq!(map.clone(), map);
    assert_eq!(
        map.into_entries(),
        vec![("m".to_owned(), 4), ("z".to_owned(), 3)]
    );

    let mut set = OrderedSet::new();
    assert!(set.is_empty());
    assert!(set.insert("gpu".to_owned()));
    assert!(!set.insert("gpu".to_owned()));
    assert!(set.insert("avx".to_owned()));
    let copy = set.clone();
    assert!(set.same(&copy) && set.is_subset(&copy));
    assert_eq!(set.len(), 2);
    assert_eq!(set.text_at(0), "avx");
    let mut larger = copy;
    larger.insert("tpu".to_owned());
    assert!(set.is_subset(&larger) && !larger.is_subset(&set));
    assert!(!set.same(&larger));
}

#[test]
fn numbers_are_compared_as_floats_are() {
    let values = [
        0.0,
        -0.0,
        1.0,
        -1.0,
        f64::MIN_POSITIVE,
        f64::MAX,
        f64::MIN,
        f64::INFINITY,
        f64::NEG_INFINITY,
        f64::NAN,
        -f64::NAN,
        5e-324,
        0.1,
        0.3,
    ];
    for a in values {
        for b in values {
            assert_eq!(float(a).at_most(float(b)), a <= b, "{a} {b}");
            assert_eq!(float(a).at_least(float(b)), a >= b, "{a} {b}");
            assert_eq!(float(a) == float(b), a == b, "{a} {b}");
        }
        assert_eq!(float(a).is_nan(), a.is_nan());
        assert_eq!(float(a).to_bits(), a.to_bits());
    }
}

#[test]
fn gates_decide_on_the_first_metric_of_their_name() {
    let metrics = [
        measured("loss", 0.2),
        measured("loss", 0.9),
        measured("f1", 0.5),
    ];
    let low = gate_on("loss", 0.25, MetricDirection::AtMost).evaluate(&metrics);
    assert!(low.passed);
    assert_eq!(low.observed, Some(float(0.2)));
    assert_eq!(low.threshold, float(0.25));
    assert_eq!(low.metric, "loss");
    assert_eq!(low.direction, MetricDirection::AtMost);
    assert!(gate_on("f1", 0.5, MetricDirection::AtLeast)
        .evaluate(&metrics)
        .passed);
    assert!(!gate_on("f1", 0.6, MetricDirection::AtLeast)
        .evaluate(&metrics)
        .passed);
    assert!(!gate_on("f1", f64::NAN, MetricDirection::AtLeast)
        .evaluate(&metrics)
        .passed);

    let gates = [
        gate_on("loss", 0.1, MetricDirection::AtMost),
        gate_on("f1", 0.1, MetricDirection::AtLeast),
        gate_on("loss", 0.3, MetricDirection::AtMost),
    ];
    let made = evaluate_gates(&gates, &metrics);
    assert_eq!(made.len(), 2);
    assert!(made.get(&"loss".to_owned()).unwrap().passed);
    assert!(every_gate_passed(&made));
    assert!(same_decisions(&made, &evaluate_gates(&gates, &metrics)));
    let none = evaluate_gates(&gates, &[]);
    assert!(!every_gate_passed(&none));
    assert!(!same_decisions(&made, &none));
    assert!(every_gate_passed(&evaluate_gates(&[], &[])));
    assert!(same_metrics(
        &vec![measured("a", 0.0)],
        &vec![measured("a", -0.0)]
    ));
    assert!(!same_metrics(
        &vec![measured("a", f64::NAN)],
        &vec![measured("a", f64::NAN)]
    ));
}

#[test]
fn retry_delays_grow_up_to_their_limit() {
    let delay = RetryDelay::default();
    let expected = [0, 25, 50, 100, 200, 400, 800, 1_000, 1_000];
    for (attempt, ms) in expected.iter().enumerate() {
        assert_eq!(delay.millis_for_attempt(attempt as u32), *ms);
        assert_eq!(
            delay.for_attempt(attempt as u32),
            Duration::from_millis(*ms)
        );
    }
    assert_eq!(RetryDelay::none().millis_for_attempt(5), 0);
    let flat = RetryDelay {
        initial_ms: 100,
        multiplier: 0,
        max_ms: 10,
    };
    assert_eq!(flat.millis_for_attempt(1), 100);
    assert_eq!(flat.millis_for_attempt(2), 0);
    let huge = RetryDelay {
        initial_ms: u64::MAX,
        multiplier: u32::MAX,
        max_ms: 0,
    };
    assert_eq!(huge.millis_for_attempt(u32::MAX), u64::MAX);
    let slow = RetryDelay {
        initial_ms: 1,
        multiplier: 2,
        max_ms: u64::MAX,
    };
    assert_eq!(slow.millis_for_attempt(21), 1 << 20);
    assert_eq!(slow.millis_for_attempt(22), 1 << 20);
    assert_eq!(capped_power(3, 20), 3u32.saturating_pow(20));
    assert_eq!(capped_power(3, 21), u32::MAX);
    assert_eq!(capped_power(0, 0), 1);
    assert_eq!(capped_power(10, 9), 1_000_000_000);
    assert_eq!(RetryPolicy::never().attempt_budget(), 1);
    assert_eq!(RetryPolicy::default().attempt_budget(), 3);
    let zero = RetryPolicy {
        max_attempts: 0,
        delay,
    };
    assert_eq!(zero.attempt_budget(), 1);
}

#[test]
fn workers_meet_policies_by_place_and_resources() {
    let any = Residency::Any;
    let eu = Residency::Region("eu".to_owned());
    let us = Residency::Region("us".to_owned());
    assert!(any.allows(&any) && any.allows(&eu));
    assert!(eu.allows(&eu) && !eu.allows(&us) && !eu.allows(&any));
    assert!(Residency::default() == any && eu != us && eu == eu.clone());

    let mut worker = WorkerProfile::new("w").unwrap();
    assert_eq!(worker.id.as_str(), "w");
    assert_eq!(WorkerProfile::new(" ").unwrap_err().kind, "WorkerId");
    assert_eq!(WorkerProfile::default().id.as_str(), "local-worker");
    let mut policy = ExecutionPolicy::default();
    assert_eq!(policy.timeout_ms, Some(30_000));
    assert!(worker.supports(&policy));
    policy.resources = ResourceRequirements {
        cpu_millis: 500,
        memory_mb: 256,
        gpu_count: 1,
        capabilities: OrderedSet::new(),
    };
    assert!(!worker.supports(&policy));
    worker.resources.cpu_millis = 500;
    worker.resources.memory_mb = 256;
    assert!(!worker.supports(&policy));
    worker.resources.gpu_count = 1;
    assert!(worker.supports(&policy));
    policy.resources.capabilities.insert("train".to_owned());
    assert!(!worker.supports(&policy));
    worker.resources.capabilities.insert("train".to_owned());
    assert!(worker.supports(&policy));
    policy.residency = eu.clone();
    assert!(!worker.supports(&policy));
    worker.residency = eu;
    assert!(worker.supports(&policy));

    let task = TaskSpec::new("t", "1", "train").unwrap();
    let other = TaskSpec::new("t", "1", "other").unwrap();
    assert!(worker.supports_task(&task, &policy));
    assert!(!worker.supports_task(&other, &policy));
    assert!(WorkerProfile::default().supports_task(&other, &ExecutionPolicy::default()));
}

#[test]
fn registries_keep_the_task_that_came_first() {
    let spec = TaskSpec::new("t", "1", "c").unwrap();
    assert_eq!(TaskSpec::new("", "1", "c").unwrap_err().kind, "TaskId");
    let mut registry = InMemoryTaskRegistry::default();
    assert!(registry.register(&spec, 1).is_ok());
    let error = registry.register(&spec, 2).unwrap_err();
    assert!(matches!(&error, RegistryError::DuplicateTask { task } if task.as_str() == "t"));
    assert_eq!(error.message(), "task t was already registered");
    assert_eq!(registry.get(&spec.id), Some(&1));
    assert_eq!(registry.get(&TaskId::new("u").unwrap()), None);
}

#[test]
fn typed_tasks_are_given_the_part_they_ask_for() {
    let input = read("{\"run_input\": {\"value\": 1}, \"dependencies\": {}}");
    let adapter = TypedTaskAdapter::new("task");
    assert_eq!(adapter.select_input(input.clone()), read("{\"value\": 1}"));
    assert_eq!(adapter.select_input(read("[1]")), read("[1]"));
    let whole = adapter.with_envelope();
    assert_eq!(whole.select_input(input.clone()), input);
}

#[test]
fn step_inputs_are_objects_of_two_members() {
    let mut outputs = OrderedMap::new();
    outputs.insert("b".to_owned(), read("2"));
    outputs.insert("a".to_owned(), read("[1]"));
    assert_eq!(
        object_of(outputs.clone()),
        read("{\"a\": [1], \"b\": 2}")
    );
    assert_eq!(
        build_step_input(&read("{\"x\": null}"), outputs),
        read("{\"run_input\": {\"x\": null}, \"dependencies\": {\"a\": [1], \"b\": 2}}")
    );
    assert_eq!(
        build_step_input(&read("3"), OrderedMap::new()),
        read("{\"run_input\": 3, \"dependencies\": {}}")
    );
    assert!(alike_json(&read("{\"a\": 1, \"b\": 2}"), &read("{\"b\": 2, \"a\": 1}")));
    assert!(!alike_json(&read("1"), &read("1.0")));
}

#[test]
fn workflows_are_put_in_order() {
    assert_eq!(WorkflowSpec::new("", "1").unwrap_err().kind, "WorkflowId");
    assert_eq!(StepSpec::new("", "t").unwrap_err().kind, "StepId");
    assert_eq!(StepSpec::new("s", " ").unwrap_err().kind, "TaskId");
    let step = |id: &str, after: &[&str]| {
        let mut step = StepSpec::new(id, "task").unwrap();
        for other in after {
            step = step.depends_on(*other).unwrap();
        }
        step
    };
    assert_eq!(step("a", &[]).depends_on(" ").unwrap_err().kind, "StepId");

    let mut workflow = WorkflowSpec::new("w", "1").unwrap();
    let empty = workflow.validate().unwrap_err();
    assert!(matches!(empty, WorkflowError::Empty { .. }));
    assert_eq!(empty.message(), "workflow w has no steps");
    for next in [
        step("d", &["b", "c"]),
        step("b", &["a", "a"]),
        step("c", &["a"]),
        step("a", &[]),
    ] {
        workflow.add_step(next).unwrap();
    }
    assert!(workflow.validate().is_ok());
    let twice = workflow.add_step(step("a", &[])).unwrap_err();
    assert_eq!(twice.message(), "workflow w contains duplicate step a");
    assert_eq!(workflow.steps.len(), 4);

    let mut looped = workflow.clone();
    looped.steps[3] = step("a", &["d"]);
    assert_eq!(
        looped.validate().unwrap_err().message(),
        "workflow w contains a dependency cycle"
    );
    let mut alone = WorkflowSpec::new("w", "1").unwrap();
    alone.add_step(step("a", &["a"])).unwrap();
    assert!(matches!(
        alone.validate(),
        Err(WorkflowError::DependencyCycle { .. })
    ));
    let mut repeated = workflow.clone();
    repeated.steps.push(step("a", &[]));
    assert!(matches!(
        repeated.validate(),
        Err(WorkflowError::DependencyCycle { .. })
    ));
    let mut unknown = workflow.clone();
    unknown.steps[1] = step("b", &["a", "y", "x"]);
    assert_eq!(
        unknown.validate().unwrap_err().message(),
        "workflow w step b depends on unknown step y"
    );

    assert_eq!(
        topological_order(&vec![vec![1, 2], vec![3], vec![3], vec![]]),
        vec![3, 1, 2, 0]
    );
    assert_eq!(topological_order(&vec![vec![1], vec![0], vec![]]), vec![2]);
}

#[test]
fn artifacts_are_addressed_by_their_content() {
    let mut store = InMemoryArtifactStore::new();
    let reference = store
        .put(b"abc".to_vec(), ArtifactMetadata::default())
        .unwrap();
    let digest = "ba7816bf8f01cfea414140de5dae2223b00361a396177a9cb410ff61f20015ad";
    assert_eq!(reference.sha256, digest);
    assert_eq!(reference.id.as_str(), format!("sha256-{digest}"));
    assert_eq!(reference.size_bytes, 3);
    assert_eq!(store.get(&reference).unwrap(), Some(b"abc".to_vec()));
    let wrong = ArtifactRef {
        sha256: "0".to_owned(),
        ..reference.clone()
    };
    assert_eq!(store.get(&wrong).unwrap(), None);
    let blank = ArtifactRef {
        sha256: String::new(),
        ..reference.clone()
    };
    assert_eq!(store.get(&blank).unwrap(), None);
    assert_eq!(InMemoryArtifactStore::default().get(&reference).unwrap(), None);
    let made = ArtifactRef::for_digest(&[0xab], 9, ArtifactMetadata::default()).unwrap();
    assert_eq!(made.id.as_str(), "sha256-ab");
    store
        .put_digested(&[0xab], b"first".to_vec(), ArtifactMetadata::default())
        .unwrap();
    let second = store
        .put_digested(&[0xab], b"second".to_vec(), ArtifactMetadata::default())
        .unwrap();
    assert_eq!(store.get(&second).unwrap(), Some(b"second".to_vec()));
}

#[test]
fn cache_keys_follow_task_version_and_input() {
    let task = TaskSpec::new("embed", "2", "c").unwrap();
    let key = TaskCacheKey::for_input(&task, &read("{\"b\": 1, \"a\": [true]}")).unwrap();
    let same = TaskCacheKey::for_input(&task, &read("{\"a\": [true], \"b\": 1}")).unwrap();
    assert_eq!(key, same);
    assert_eq!(key.task.as_str(), "embed");
    assert_eq!(key.task_version, "2");
    assert!(key.key.as_str().starts_with("embed@2:"));
    let null = TaskCacheKey::for_input(&task, &Value::Null).unwrap();
    assert_eq!(
        null.key.as_str(),
        "embed@2:74234e98afe7498fb5daf1f36ac2d78acc339464f950703b8c019892f982b90b"
    );
    assert_eq!(
        TaskCacheKey::for_digest(&task, &[1, 2]).unwrap().key.as_str(),
        "embed@2:0102"
    );
    let newer = TaskSpec::new("embed", "3", "c").unwrap();
    assert_ne!(
        null.key,
        TaskCacheKey::for_input(&newer, &Value::Null).unwrap().key
    );

    let mut cache = InMemoryTaskCache::default();
    assert_eq!(cache.get(&key).unwrap(), None);
    cache.put(key.clone(), read("1")).unwrap();
    cache.put(key.clone(), read("2")).unwrap();
    assert_eq!(cache.get(&key).unwrap(), Some(read("2")));
    assert_eq!(cache.get(&null).unwrap(), None);
}

#[test]
fn errors_are_put_into_words() {
    let run = RunId::new("r").unwrap();
    let step = StepId::new("s").unwrap();
    let workflow = WorkflowId::new("w").unwrap();
    let task = TaskId::new("t").unwrap();
    let adapter = AdapterError::new("memory", "out of space");
    assert_eq!(adapter.message(), "memory adapter failed: out of space");
    let tasks = [
        (
            TaskError::InvalidInput("x".to_owned()),
            "task input is invalid: x",
            false,
        ),
        (
            TaskError::Transient("x".to_owned()),
            "task failed transiently: x",
            true,
        ),
        (
            TaskError::Permanent("x".to_owned()),
            "task failed permanently: x",
            false,
        ),
        (
            TaskError::Timeout { timeout_ms: 30 },
            "task timed out after 30 ms",
            true,
        ),
        (
            TaskError::Serialization("x".to_owned()),
            "task serialization failed: x",
            false,
        ),
    ];
    for (error, words, retryable) in tasks {
        assert_eq!(error.message(), words);
        assert_eq!(error.retryable(), retryable);
        assert_eq!(error.clone(), error);
    }
    let mismatch = WorkflowError::TaskIdMismatch {
        workflow: workflow.clone(),
        step: step.clone(),
        task: task.clone(),
    };
    assert_eq!(
        mismatch.message(),
        "workflow w references task t from step s, but the registered task has a different id"
    );
    let unsatisfied = WorkflowError::UnsatisfiedPolicy {
        workflow,
        step: step.clone(),
    };
    assert_eq!(
        OrchestratorError::from(unsatisfied).message(),
        "workflow w step s cannot run on the selected worker"
    );
    let repository = [
        (
            RepositoryError::RunNotFound { run: run.clone() },
            "run r was not found",
        ),
        (
            RepositoryError::LeaseLost {
                run: run.clone(),
                step: step.clone(),
            },
            "step s in run r is leased by another worker",
        ),
        (
            RepositoryError::IdempotencyConflict { run: run.clone() },
            "run r has an incompatible idempotency key",
        ),
        (
            RepositoryError::InvalidTransition {
                run: run.clone(),
                from: "a".to_owned(),
                to: "b".to_owned(),
            },
            "run r cannot transition from a to b",
        ),
        (
            RepositoryError::Conflict { run: run.clone() },
            "run r changed while it was being updated",
        ),
        (
            RepositoryError::InvalidCompletion {
                run: run.clone(),
                step,
            },
            "completion for step s in run r does not match its claim",
        ),
        (
            RepositoryError::InvalidEvent { run },
            "event does not belong to run r",
        ),
        (
            RepositoryError::InvalidRequest {
                message: "m".to_owned(),
            },
            "invalid run request: m",
        ),
        (
            RepositoryError::Storage {
                message: "m".to_owned(),
            },
            "repository storage failed: m",
        ),
    ];
    for (error, words) in repository {
        assert_eq!(error.clone().message(), words);
        assert_eq!(OrchestratorError::from(error).message(), words);
    }
    assert_eq!(
        OrchestratorError::Store(adapter).message(),
        "memory adapter failed: out of space"
    );
}

#[test]
fn manifests_are_compared_by_what_they_hold() {
    let workflow = WorkflowId::new("w").unwrap();
    let task = TaskSpec::new("t", "1", "c").unwrap();
    let mut tasks = OrderedMap::new();
    tasks.insert(task.id.clone(), task);
    let plain = RunManifest::new(workflow, "1", tasks);
    assert_eq!(plain.schema_version, 1);
    assert!(plain == plain.clone());
    let gated = plain
        .clone()
        .with_evaluation_gates(vec![gate_on("m", 0.0, MetricDirection::AtLeast)]);
    let signed = plain
        .clone()
        .with_evaluation_gates(vec![gate_on("m", -0.0, MetricDirection::AtLeast)]);
    assert!(plain != gated && gated == signed);
    let unordered = plain
        .clone()
        .with_evaluation_gates(vec![gate_on("m", f64::NAN, MetricDirection::AtLeast)]);
    assert!(unordered != unordered.clone());
    let told = plain.clone().with_provenance(RunProvenance {
        model: Some("m".to_owned()),
        ..RunProvenance::default()
    });
    assert!(plain != told && told == told.clone());
}

#[test]
fn options_leave_room_for_one_step_at_least() {
    let local = ExecutorOptions::default();
    assert_eq!(local.max_parallel_steps, 8);
    let none = ExecutorOptions {
        max_parallel_steps: 0,
        ..local.clone()
    };
    assert_eq!(none.normalized().max_parallel_steps, 1);
    assert_eq!(local.normalized().max_parallel_steps, 8);

    let durable = DurableExecutorOptions::default();
    assert_eq!(durable.lease_ms, 30_000);
    assert_eq!(durable.poll_interval_ms, 10);
    assert_eq!(durable.heartbeat_interval_ms(), 10_000);
    let least = DurableExecutorOptions {
        lease_ms: 0,
        max_parallel_steps: 0,
        poll_interval_ms: 0,
        ..durable
    }
    .normalized();
    assert_eq!(least.lease_ms, 1);
    assert_eq!(least.max_parallel_steps, 1);
    assert_eq!(least.poll_interval_ms, 1);
    assert_eq!(least.max_idle_time_ms, None);
    assert_eq!(least.heartbeat_interval_ms(), 1);
    assert_eq!(data_ai_orchestrator::durable::renewal_ms(4), 12);
    assert_eq!(
        data_ai_orchestrator::durable::renewal_ms(u64::MAX),
        u64::MAX
    );
}
