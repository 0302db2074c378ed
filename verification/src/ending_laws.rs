//! How runs come to their end: what gates decide, when a run succeeds or fails, and what
//! becomes of it when it is cancelled.
use crate::error::RepositoryErrorView;
use crate::evaluation::{self, EvaluationGateView, MetricDirection, MetricValue, MetricView};
use crate::record::{
    ExecutionEventView, RunRecordView, RunStatus, StepAttemptView, StepRecordView, StepStatus,
};
use crate::store::RepositoryView;
use vstd::prelude::*;

verus! {

/// `a <= b` of numbers in double precision, by their bits. The highest bit is the sign; the
/// others grow with the distance from zero, up to those of infinity, and what lies beyond
/// is no number and compares with nothing. Both zeros are equal.
pub open spec fn at_most(a: MetricValue, b: MetricValue) -> bool {
    let sign: int = 0x8000_0000_0000_0000;
    let infinity: int = 0x7ff0_0000_0000_0000;
    let far_a = if a.bits >= sign {
        a.bits - sign
    } else {
        a.bits as int
    };
    let far_b = if b.bits >= sign {
        b.bits - sign
    } else {
        b.bits as int
    };
    &&& far_a <= infinity
    &&& far_b <= infinity
    &&& if a.bits >= sign && b.bits >= sign {
        far_b <= far_a
    } else if a.bits >= sign {
        true
    } else if b.bits >= sign {
        far_a == 0 && far_b == 0
    } else {
        far_a <= far_b
    }
}

/// Numbers are compared as those of double precision are.
pub proof fn law_metrics_compare_as_numbers(a: MetricValue, b: MetricValue)
    ensures
        a.below_or_equal(b) <==> at_most(a, b),
        a.equals(b) <==> at_most(a, b) && at_most(b, a),
{
}

proof fn lemma_observed(metrics: Seq<MetricView>, name: Seq<char>)
    ensures
        match evaluation::observed(metrics, name) {
            Some(value) => exists|i: int|
                0 <= i < metrics.len() && (#[trigger] metrics[i]).name == name && metrics[i].value
                    == value && forall|k: int|
                    0 <= k < i ==> (#[trigger] metrics[k]).name != name,
            None => forall|k: int| 0 <= k < metrics.len() ==> (#[trigger] metrics[k]).name != name,
        },
    decreases metrics.len(),
{
    if metrics.len() > 0 {
        let rest = metrics.drop_first();
        if metrics[0].name == name {
            assert(metrics[0].value == metrics[0].value);
        } else {
            lemma_observed(rest, name);
            match evaluation::observed(rest, name) {
                Some(value) => {
                    let i = choose|i: int|
                        0 <= i < rest.len() && (#[trigger] rest[i]).name == name && rest[i].value
                            == value && forall|k: int|
                            0 <= k < i ==> (#[trigger] rest[k]).name != name;
                    assert(metrics[i + 1] == rest[i]);
                    assert forall|k: int| 0 <= k < i + 1 implies (#[trigger] metrics[k]).name
                        != name by {
                        if k > 0 {
                            assert(rest[k - 1] == metrics[k]);
                        }
                    }
                },
                None => {
                    assert forall|k: int| 0 <= k < metrics.len() implies (
                    #[trigger] metrics[k]).name != name by {
                        if k > 0 {
                            assert(rest[k - 1] == metrics[k]);
                        }
                    }
                },
            }
        }
    }
}

/// A gate looks at the first metric of its name. It passes if there is one and its value is
/// on the right side of the threshold: not below it where it is to be reached, and not above
/// it where it is to be kept.
pub proof fn law_gate_holds_metric_to_threshold(
    gate: EvaluationGateView,
    metrics: Seq<MetricView>,
)
    ensures
        ({
            let decision = gate.decision(metrics);
            &&& decision.metric == gate.metric
            &&& decision.threshold == gate.threshold
            &&& decision.direction == gate.direction
            &&& match decision.observed {
                Some(value) => {
                    &&& exists|i: int|
                        0 <= i < metrics.len() && (#[trigger] metrics[i]).name == gate.metric
                            && metrics[i].value == value && forall|k: int|
                            0 <= k < i ==> (#[trigger] metrics[k]).name != gate.metric
                    &&& decision.passed <==> match gate.direction {
                        MetricDirection::AtLeast => at_most(gate.threshold, value),
                        MetricDirection::AtMost => at_most(value, gate.threshold),
                    }
                },
                None => {
                    &&& forall|k: int|
                        0 <= k < metrics.len() ==> (#[trigger] metrics[k]).name != gate.metric
                    &&& !decision.passed
                },
            }
        }),
{
    lemma_observed(metrics, gate.metric);
    let decision = gate.decision(metrics);
    if let Some(value) = decision.observed {
        law_metrics_compare_as_numbers(gate.threshold, value);
        law_metrics_compare_as_numbers(value, gate.threshold);
    }
}

/// There is a decision on exactly the metrics that have a gate, and it is that of the last
/// gate on the metric.
pub proof fn law_last_gate_decides(
    gates: Seq<EvaluationGateView>,
    metrics: Seq<MetricView>,
    name: Seq<char>,
)
    ensures
        ({
            let made = evaluation::decisions(gates, metrics);
            if made.contains_key(name) {
                exists|i: int|
                    0 <= i < gates.len() && (#[trigger] gates[i]).metric == name && made[name]
                        == gates[i].decision(metrics) && forall|k: int|
                        i < k < gates.len() ==> (#[trigger] gates[k]).metric != name
            } else {
                forall|k: int| 0 <= k < gates.len() ==> (#[trigger] gates[k]).metric != name
            }
        }),
    decreases gates.len(),
{
    if gates.len() > 0 {
        let fewer = gates.drop_last();
        let made = evaluation::decisions(gates, metrics);
        law_last_gate_decides(fewer, metrics, name);
        if gates.last().metric == name {
            assert(gates[gates.len() - 1].metric == name);
        } else if made.contains_key(name) {
            let i = choose|i: int|
                0 <= i < fewer.len() && (#[trigger] fewer[i]).metric == name
                    && evaluation::decisions(fewer, metrics)[name] == fewer[i].decision(metrics)
                    && forall|k: int|
                    i < k < fewer.len() ==> (#[trigger] fewer[k]).metric != name;
            assert(gates[i] == fewer[i]);
            assert forall|k: int| i < k < gates.len() implies (#[trigger] gates[k]).metric
                != name by {
                if k < fewer.len() {
                    assert(fewer[k] == gates[k]);
                }
            }
        } else {
            assert forall|k: int| 0 <= k < gates.len() implies (#[trigger] gates[k]).metric
                != name by {
                if k < fewer.len() {
                    assert(fewer[k] == gates[k]);
                }
            }
        }
    }
}

/// What becomes of a run when its metrics come in. They are kept, with the decisions of the
/// gates in its manifest. The run has failed where a step has; it has succeeded where it has
/// as many records as its workflow has steps, all of them of steps that have succeeded, and
/// every single decision has passed; it has failed where one has not; and it stands where it
/// stood else. Nothing else of it changes but what it failed of.
pub proof fn law_metrics_decide_on_the_run(run: RunRecordView, metrics: Seq<MetricView>)
    ensures
        ({
            let after = run.settled(metrics);
            let broken = exists|id: Seq<char>| #[trigger]
                run.steps.contains_key(id) && run.steps[id].status == StepStatus::Failed;
            let done = run.steps.len() == run.workflow.steps.len() && forall|id: Seq<char>|
             #[trigger]
                run.steps.contains_key(id) ==> run.steps[id].status == StepStatus::Succeeded;
            let good = forall|name: Seq<char>|
                after.gate_decisions.contains_key(name) ==> (
                #[trigger] after.gate_decisions[name]).passed;
            &&& after.metrics == metrics
            &&& after.gate_decisions == evaluation::decisions(
                run.manifest.evaluation_gates,
                metrics,
            )
            &&& broken ==> after.status == RunStatus::Failed && after.error == run.error
            &&& !broken && done && good ==> after.status == RunStatus::Succeeded && after.error
                == run.error
            &&& !broken && done && !good ==> after.status == RunStatus::Failed && after.error
                == Some("one or more evaluation gates failed"@)
            &&& !broken && !done ==> after.status == run.status && after.error == run.error
            &&& after == (RunRecordView {
                metrics: after.metrics,
                gate_decisions: after.gate_decisions,
                status: after.status,
                error: after.error,
                ..run
            })
        }),
{
    let measured = run.measured(metrics);
    assert(measured.steps == run.steps);
    assert(measured.workflow == run.workflow);
    if measured.has_failed() {
        let id = choose|id: Seq<char>| #[trigger]
            measured.steps.contains_key(id) && measured.steps[id].status == StepStatus::Failed;
        assert(run.steps.contains_key(id));
    }
    if exists|id: Seq<char>| #[trigger]
        run.steps.contains_key(id) && run.steps[id].status == StepStatus::Failed {
        let id = choose|id: Seq<char>| #[trigger]
            run.steps.contains_key(id) && run.steps[id].status == StepStatus::Failed;
        assert(measured.steps.contains_key(id));
    }
    if forall|id: Seq<char>| #[trigger]
        run.steps.contains_key(id) ==> run.steps[id].status == StepStatus::Succeeded {
        assert forall|id: Seq<char>| #[trigger] measured.steps.contains_key(id) implies
            measured.steps[id].status == StepStatus::Succeeded by {
            assert(run.steps.contains_key(id));
        }
    }
    if measured.all_succeeded() {
        assert forall|id: Seq<char>| #[trigger] run.steps.contains_key(id) implies
            run.steps[id].status == StepStatus::Succeeded by {
            assert(measured.steps.contains_key(id));
        }
    }
}

/// A run comes to succeed with its metrics only if every gate has passed: each decision is
/// on a metric that was measured, with a value on the right side of its threshold. One
/// decision that has not passed keeps it from that. The same holds of a run within one
/// process.
pub proof fn law_every_gate_has_to_pass(
    run: RunRecordView,
    metrics: Seq<MetricView>,
    name: Seq<char>,
)
    requires
        run.status != RunStatus::Succeeded && run.settled(metrics).status == RunStatus::Succeeded
            || run.concluded(metrics).status == RunStatus::Succeeded,
        exists|i: int|
            0 <= i < run.manifest.evaluation_gates.len() && (
            #[trigger] run.manifest.evaluation_gates[i]).metric == name,
    ensures
        ({
            let decision = evaluation::decisions(run.manifest.evaluation_gates, metrics)[name];
            &&& run.settled(metrics).gate_decisions[name] == decision
            &&& run.concluded(metrics).gate_decisions[name] == decision
            &&& run.settled(metrics).gate_decisions.contains_key(name)
            &&& decision.passed
            &&& decision.observed is Some
            &&& decision.direction == MetricDirection::AtLeast ==> at_most(
                decision.threshold,
                decision.observed->0,
            )
            &&& decision.direction == MetricDirection::AtMost ==> at_most(
                decision.observed->0,
                decision.threshold,
            )
        }),
{
    let gates = run.manifest.evaluation_gates;
    law_metrics_decide_on_the_run(run, metrics);
    law_local_run_is_concluded(run, metrics);
    law_last_gate_decides(gates, metrics, name);
    let made = evaluation::decisions(gates, metrics);
    if !made.contains_key(name) {
        let i = choose|i: int| 0 <= i < gates.len() && (#[trigger] gates[i]).metric == name;
        assert(gates[i].metric != name);
    }
    let i = choose|i: int|
        0 <= i < gates.len() && (#[trigger] gates[i]).metric == name && made[name]
            == gates[i].decision(metrics) && forall|k: int|
            i < k < gates.len() ==> (#[trigger] gates[k]).metric != name;
    law_gate_holds_metric_to_threshold(gates[i], metrics);
    if run.concluded(metrics).status == RunStatus::Succeeded {
        assert(run.concluded(metrics).gate_decisions[name].passed);
    } else {
        assert(run.settled(metrics).gate_decisions[name].passed);
    }
}

/// What becomes of a run within one process when it is concluded. Its metrics are kept, with
/// the decisions of the gates in its manifest. If it has failed before, it has; else it has
/// succeeded if every single decision has passed, and has failed of its gates if one has
/// not. Nothing else of it changes.
pub proof fn law_local_run_is_concluded(run: RunRecordView, metrics: Seq<MetricView>)
    ensures
        ({
            let after = run.concluded(metrics);
            let good = forall|name: Seq<char>|
                after.gate_decisions.contains_key(name) ==> (
                #[trigger] after.gate_decisions[name]).passed;
            &&& after.metrics == metrics
            &&& after.gate_decisions == evaluation::decisions(
                run.manifest.evaluation_gates,
                metrics,
            )
            &&& run.status == RunStatus::Failed ==> after.status == RunStatus::Failed
                && after.error == run.error
            &&& run.status != RunStatus::Failed && good ==> after.status == RunStatus::Succeeded
                && after.error == run.error
            &&& run.status != RunStatus::Failed && !good ==> after.status == RunStatus::Failed
                && after.error == Some("one or more evaluation gates failed"@)
            &&& after == (RunRecordView {
                metrics: after.metrics,
                gate_decisions: after.gate_decisions,
                status: after.status,
                error: after.error,
                ..run
            })
        }),
{
}

/// What handing in the metrics of a run comes to: an unknown run is said to be so; of a
/// known one the settled run comes back and is kept, and where that has come to its end,
/// this is logged, once and at the time given.
pub proof fn law_finishing_settles_the_run(
    repository: RepositoryView,
    run_id: Seq<char>,
    metrics: Seq<MetricView>,
    now: u64,
)
    requires
        repository.consistent(),
    ensures
        ({
            let (after, outcome) = repository.finish(run_id, metrics, now);
            let before = repository.runs[run_id];
            let settled = before.settled(metrics);
            if !repository.runs.contains_key(run_id) {
                &&& after == repository
                &&& outcome == Err::<RunRecordView, RepositoryErrorView>(
                    RepositoryErrorView::RunNotFound { run: run_id },
                )
            } else {
                let run = after.runs[run_id];
                &&& outcome == Ok::<RunRecordView, RepositoryErrorView>(run)
                &&& run.status == settled.status
                &&& run.error == settled.error
                &&& run.steps == settled.steps
                &&& run.metrics == settled.metrics
                &&& run.gate_decisions == settled.gate_decisions
                &&& run.workflow == before.workflow
                &&& run.manifest == before.manifest
                &&& run.input == before.input
                &&& if settled.status == before.status {
                    &&& run == settled
                    &&& after.events == repository.events
                    &&& after.next_event_sequence == repository.next_event_sequence
                } else {
                    let logged = ExecutionEventView::RunFinished { run_id, status: run.status };
                    &&& run.event_log.drop_last() == before.event_log
                    &&& run.event_log.last() == after.events.last()
                    &&& run.events == before.events.push(logged)
                    &&& after.events.drop_last() == repository.events
                    &&& after.events.last().event == logged
                    &&& after.events.last().occurred_at_ms == now
                    &&& after.events.last().sequence == after.next_event_sequence
                    &&& repository.next_event_sequence < u64::MAX ==> after.next_event_sequence
                        == repository.next_event_sequence + 1
                }
                &&& after.next_lease_token == repository.next_lease_token
                &&& after.idempotency == repository.idempotency
                &&& after.runs.dom() == repository.runs.dom()
                &&& forall|id: Seq<char>|
                    id != run_id && repository.runs.contains_key(id)
                        ==> #[trigger] after.runs[id] == repository.runs[id]
            }
        }),
{
    let (after, outcome) = repository.finish(run_id, metrics, now);
    if repository.runs.contains_key(run_id) {
        let run = after.runs[run_id];
        let before = repository.runs[run_id];
        law_metrics_decide_on_the_run(before, metrics);
        assert(after.runs.dom() =~= repository.runs.dom());
        if before.settled(metrics).status != before.status {
            assert(run.event_log.drop_last() =~= before.event_log);
            assert(after.events.drop_last() =~= repository.events);
        }
    }
}

/// What becomes of a step when its run is cancelled. If it has succeeded or failed, its
/// record stays exactly as it is. Else it is cancelled and held by nobody, and an attempt
/// that was running is closed as cancelled; all else of it stays.
pub proof fn law_cancelling_keeps_what_is_done(record: StepRecordView, now: u64)
    ensures
        ({
            let after = record.cancelled(now);
            let last = record.history.len() - 1;
            if record.status == StepStatus::Succeeded || record.status == StepStatus::Failed {
                after == record
            } else {
                &&& after.status == StepStatus::Cancelled
                &&& after.lease is None
                &&& after == (StepRecordView {
                    status: StepStatus::Cancelled,
                    lease: None,
                    history: after.history,
                    ..record
                })
                &&& after.history.len() == record.history.len()
                &&& forall|i: int| 0 <= i < last ==> after.history[i] == record.history[i]
                &&& last >= 0 ==> after.history[last] == (if record.history[last].status
                    == StepStatus::Running {
                    StepAttemptView {
                        finished_at_ms: Some(now),
                        status: StepStatus::Cancelled,
                        ..record.history[last]
                    }
                } else {
                    record.history[last]
                })
            }
        }),
{
}

/// What cancelling a run comes to. An unknown run is said to be so, and of one that is over
/// nothing changes. Else the run is cancelled, which is logged, once and at the time given:
/// the record of a step that has succeeded or failed is exactly as it was, and every other
/// record is cancelled, with no lease.
pub proof fn law_cancelled_run_keeps_what_is_done(
    repository: RepositoryView,
    run_id: Seq<char>,
    now: u64,
)
    requires
        repository.consistent(),
    ensures
        ({
            let (after, outcome) = repository.cancel(run_id, now);
            let before = repository.runs[run_id];
            let run = after.runs[run_id];
            if !repository.runs.contains_key(run_id) {
                &&& after == repository
                &&& outcome == Err::<RunRecordView, RepositoryErrorView>(
                    RepositoryErrorView::RunNotFound { run: run_id },
                )
            } else if before.status == RunStatus::Succeeded || before.status == RunStatus::Failed
                || before.status == RunStatus::Cancelled {
                &&& after == repository
                &&& outcome == Ok::<RunRecordView, RepositoryErrorView>(before)
            } else {
                let logged = ExecutionEventView::RunFinished {
                    run_id,
                    status: RunStatus::Cancelled,
                };
                &&& outcome == Ok::<RunRecordView, RepositoryErrorView>(run)
                &&& run.status == RunStatus::Cancelled
                &&& run.steps.dom() == before.steps.dom()
                &&& forall|id: Seq<char>| #[trigger]
                    before.steps.contains_key(id) ==> if before.steps[id].status
                        == StepStatus::Succeeded || before.steps[id].status == StepStatus::Failed {
                        run.steps[id] == before.steps[id]
                    } else {
                        &&& run.steps[id].status == StepStatus::Cancelled
                        &&& run.steps[id].lease is None
                        &&& run.steps[id].id == before.steps[id].id
                        &&& run.steps[id].task == before.steps[id].task
                        &&& run.steps[id].attempts == before.steps[id].attempts
                        &&& run.steps[id].output == before.steps[id].output
                        &&& run.steps[id].error == before.steps[id].error
                        &&& run.steps[id].fallback_used == before.steps[id].fallback_used
                        &&& run.steps[id].artifacts == before.steps[id].artifacts
                        &&& run.steps[id].history.len() == before.steps[id].history.len()
                    }
                &&& run.workflow == before.workflow
                &&& run.manifest == before.manifest
                &&& run.input == before.input
                &&& run.error == before.error
                &&& run.metrics == before.metrics
                &&& run.gate_decisions == before.gate_decisions
                &&& run.event_log.drop_last() == before.event_log
                &&& run.event_log.last() == after.events.last()
                &&& run.events == before.events.push(logged)
                &&& after.events.drop_last() == repository.events
                &&& after.events.last().event == logged
                &&& after.events.last().occurred_at_ms == now
                &&& after.events.last().sequence == after.next_event_sequence
                &&& repository.next_event_sequence < u64::MAX ==> after.next_event_sequence
                    == repository.next_event_sequence + 1
                &&& after.next_lease_token == repository.next_lease_token
                &&& after.idempotency == repository.idempotency
                &&& after.runs.dom() == repository.runs.dom()
                &&& forall|id: Seq<char>|
                    id != run_id && repository.runs.contains_key(id)
                        ==> #[trigger] after.runs[id] == repository.runs[id]
            }
        }),
{
    let (after, outcome) = repository.cancel(run_id, now);
    let before = repository.runs[run_id];
    let run = after.runs[run_id];
    if repository.runs.contains_key(run_id) && after != repository {
        assert(after.runs.dom() =~= repository.runs.dom());
        assert(run.steps.dom() =~= before.steps.dom());
        assert(run.event_log.drop_last() =~= before.event_log);
        assert(after.events.drop_last() =~= repository.events);
        assert forall|id: Seq<char>| #[trigger] before.steps.contains_key(id) implies
            run.steps[id] == before.steps[id].cancelled(now) by {}
        assert forall|id: Seq<char>| #[trigger] before.steps.contains_key(id) implies
            before.steps[id].cancelled(now).history.len() == before.steps[id].history.len() by {
            law_cancelling_keeps_what_is_done(before.steps[id], now);
        }
    }
}

/// A run under a lock comes to the same steps when it is cancelled: done ones stay exactly as
/// they are, and every other one is cancelled, with no lease.
pub proof fn law_locked_cancellation_keeps_what_is_done(
    run: RunRecordView,
    now: u64,
    id: Seq<char>,
)
    requires
        run.steps.contains_key(id),
    ensures
        ({
            let after = run.with_cancellation(now);
            &&& after.status == RunStatus::Cancelled
            &&& after.steps.dom() == run.steps.dom()
            &&& if run.steps[id].status == StepStatus::Succeeded || run.steps[id].status
                == StepStatus::Failed {
                after.steps[id] == run.steps[id]
            } else {
                after.steps[id].status == StepStatus::Cancelled && after.steps[id].lease is None
            }
            &&& after == (RunRecordView { status: after.status, steps: after.steps, ..run })
        }),
{
    assert(run.with_cancellation(now).steps.dom() =~= run.steps.dom());
}

} // verus!
