//! What the small things mean: numbers and times that count up to the largest, text and
//! its order, digests, errors in words, and the values that things have by default.
use crate::artifact::{
    self, ArtifactMetadataView, ArtifactRefView, StoredArtifactView, TaskCacheKeyView,
};
use crate::claim;
use crate::clock;
use crate::ending_laws;
use crate::error::{
    self, AdapterErrorView, OrchestratorError, OrchestratorErrorView, RegistryErrorView,
    RepositoryError, RepositoryErrorView, TaskErrorView, WorkflowError, WorkflowErrorView,
};
use crate::evaluation::EvaluationGateView;
use crate::graph;
use crate::ids;
use crate::locked;
use crate::manifest::{RunManifestView, RunProvenanceView};
use crate::ordered;
use crate::policy::{self, ExecutionPolicyView, RetryPolicy, WorkerProfileView};
use crate::record::{RunRecordView, RunStatus};
use crate::store::RepositoryView;
use crate::task::TaskSpecView;
use crate::text;
use crate::transition;
use crate::workflow::{self, WorkflowSpecView};
use serde_json::Value;
use std::time::SystemTime;
use vstd::prelude::*;
use vstd::utf8::*;

verus! {

/// Whether another attempt may do better: after a transient failure and a timeout, and after
/// nothing else.
pub proof fn law_passing_failures_are_two(error: TaskErrorView)
    ensures
        error is Transient ==> error.is_retryable(),
        error is Timeout ==> error.is_retryable(),
        error is Permanent ==> !error.is_retryable(),
        error is InvalidInput ==> !error.is_retryable(),
        error is Serialization ==> !error.is_retryable(),
{
}

/// A policy grants as many attempts as it says, and one where it says none.
pub proof fn law_one_attempt_is_granted_at_least(retry: RetryPolicy)
    ensures
        retry.max_attempts >= 1 ==> retry.budget() == retry.max_attempts,
        retry.max_attempts == 0 ==> retry.budget() == 1,
{
}

/// A time that is to come lies as far ahead as was asked, a lease a millisecond at the
/// least, as far as times go; and attempts count up as far as numbers go.
pub proof fn law_times_lie_ahead(now: u64, ms: u64, attempts: u32)
    ensures
        now + ms <= u64::MAX ==> claim::later(now, ms) == now + ms,
        now + ms > u64::MAX ==> claim::later(now, ms) == u64::MAX,
        ms >= 1 ==> claim::lease_end(now, ms) == claim::later(now, ms),
        claim::lease_end(now, 0) == claim::later(now, 1),
        attempts < u32::MAX ==> claim::one_more(attempts) == attempts + 1,
        attempts == u32::MAX ==> claim::one_more(attempts) == u32::MAX,
{
}

/// A reading of the clock is the number of whole milliseconds since the start of 1970, as
/// far as numbers go, and zero for a time before that.
pub proof fn law_clock_counts_milliseconds(time: SystemTime)
    ensures
        match clock::epoch_distance(time) {
            Ok(distance) => {
                let nanos = clock::duration_nanos(distance) as int;
                let ms = clock::reading_ms(time) as int;
                &&& ms * 1_000_000 <= nanos
                &&& ms == u64::MAX || nanos < (ms + 1) * 1_000_000
            },
            Err(_) => clock::reading_ms(time) == 0,
        },
        forall|ms: u64| #[trigger]
            clock::is_reading(ms) <==> exists|other: SystemTime| ms == #[trigger]
            clock::reading_ms(other),
{
}

/// A run is over once it has succeeded, has failed or was cancelled, and not before.
pub proof fn law_three_ends_of_a_run(status: RunStatus)
    ensures
        transition::is_terminal(status) <==> (status == RunStatus::Succeeded || status
            == RunStatus::Failed || status == RunStatus::Cancelled),
{
}

proof fn lemma_some_token_is_highest(
    run: RunRecordView,
    keys: Set<Seq<char>>,
) -> (highest: u64)
    requires
        keys.finite(),
        keys.subset_of(run.steps.dom()),
    ensures
        forall|step: Seq<char>, i: int|
            #![trigger run.steps[step].history[i]]
            keys.contains(step) && 0 <= i < run.steps[step].history.len()
                ==> run.steps[step].history[i].lease_token <= highest,
        highest == 0 || exists|step: Seq<char>, i: int|
            #![trigger run.steps[step].history[i]]
            run.steps.contains_key(step) && 0 <= i < run.steps[step].history.len()
                && run.steps[step].history[i].lease_token == highest,
    decreases keys.len(),
{
    if keys.len() == 0 {
        assert(keys =~= Set::<Seq<char>>::empty());
        0
    } else {
        let key = keys.choose();
        let low = lemma_some_token_is_highest(run, keys.remove(key));
        let high = lemma_some_attempt_is_highest(run, key, run.steps[key].history.len() as int, low);
        assert forall|step: Seq<char>, i: int|
            #![trigger run.steps[step].history[i]]
            keys.contains(step) && 0 <= i < run.steps[step].history.len() implies
            run.steps[step].history[i].lease_token <= high by {
            if step != key {
                assert(keys.remove(key).contains(step));
            }
        }
        high
    }
}

proof fn lemma_some_attempt_is_highest(
    run: RunRecordView,
    key: Seq<char>,
    count: int,
    low: u64,
) -> (highest: u64)
    requires
        run.steps.contains_key(key),
        0 <= count <= run.steps[key].history.len(),
        low == 0 || exists|step: Seq<char>, i: int|
            #![trigger run.steps[step].history[i]]
            run.steps.contains_key(step) && 0 <= i < run.steps[step].history.len()
                && run.steps[step].history[i].lease_token == low,
    ensures
        highest >= low,
        forall|i: int| 0 <= i < count ==> (#[trigger] run.steps[key].history[i]).lease_token
            <= highest,
        highest == 0 || exists|step: Seq<char>, i: int|
            #![trigger run.steps[step].history[i]]
            run.steps.contains_key(step) && 0 <= i < run.steps[step].history.len()
                && run.steps[step].history[i].lease_token == highest,
    decreases count,
{
    if count == 0 {
        low
    } else {
        let high = lemma_some_attempt_is_highest(run, key, count - 1, low);
        let token = run.steps[key].history[count - 1].lease_token;
        if token > high {
            token
        } else {
            high
        }
    }
}

/// The token for the next lease of a run under a lock is one above the largest that any
/// attempt of any of its steps was made under, as far as numbers go, and one where there is
/// none.
pub proof fn law_next_token_is_above_all(run: RunRecordView)
    requires
        run.steps.dom().finite(),
    ensures
        forall|step: Seq<char>, i: int|
            #![trigger run.steps[step].history[i]]
            run.steps.contains_key(step) && 0 <= i < run.steps[step].history.len()
                ==> run.steps[step].history[i].lease_token < locked::next_token(run)
                || run.steps[step].history[i].lease_token == u64::MAX,
        locked::next_token(run) == 1 || locked::next_token(run) == u64::MAX || exists|
            step: Seq<char>,
            i: int,
        |
            #![trigger run.steps[step].history[i]]
            run.steps.contains_key(step) && 0 <= i < run.steps[step].history.len()
                && run.steps[step].history[i].lease_token + 1 == locked::next_token(run),
{
    let highest = lemma_some_token_is_highest(run, run.steps.dom());
    assert(locked::is_highest_token(run, highest));
    locked::lemma_next_token(run, highest);
    if highest > 0 {
        let (step, i) = choose|step: Seq<char>, i: int|
            #![trigger run.steps[step].history[i]]
            run.steps.contains_key(step) && 0 <= i < run.steps[step].history.len()
                && run.steps[step].history[i].lease_token == highest;
        assert(run.steps[step].history[i].lease_token == highest);
    }
}

/// Gates are compared by metric, direction and threshold, the thresholds as numbers in double
/// precision are; workflows and manifests by all that they hold.
pub proof fn law_all_is_compared(
    a: WorkflowSpecView,
    b: WorkflowSpecView,
    m: RunManifestView,
    n: RunManifestView,
)
    ensures
        a.equals(b) <==> {
            &&& a.id == b.id
            &&& a.version == b.version
            &&& a.steps == b.steps
            &&& same_gates(a.evaluation_gates, b.evaluation_gates)
        },
        m.equals(n) <==> {
            &&& m.schema_version == n.schema_version
            &&& m.workflow_id == n.workflow_id
            &&& m.workflow_version == n.workflow_version
            &&& m.tasks == n.tasks
            &&& same_gates(m.evaluation_gates, n.evaluation_gates)
            &&& m.provenance == n.provenance
            &&& m.metadata == n.metadata
        },
{
    lemma_same_gates(a.evaluation_gates, b.evaluation_gates);
    lemma_same_gates(m.evaluation_gates, n.evaluation_gates);
}

/// Whether two lists of gates are the same, gate by gate.
pub open spec fn same_gates(a: Seq<EvaluationGateView>, b: Seq<EvaluationGateView>) -> bool {
    &&& a.len() == b.len()
    &&& forall|i: int|
        0 <= i < a.len() ==> {
            &&& (#[trigger] a[i]).metric == b[i].metric
            &&& a[i].direction == b[i].direction
            &&& ending_laws::at_most(a[i].threshold, b[i].threshold)
            &&& ending_laws::at_most(b[i].threshold, a[i].threshold)
        }
}

proof fn lemma_same_gates(a: Seq<EvaluationGateView>, b: Seq<EvaluationGateView>)
    ensures
        workflow::gates_equal(a, b) == same_gates(a, b),
{
    assert forall|i: int| 0 <= i < a.len() && a.len() == b.len() implies (
    #[trigger] a[i]).equals(b[i]) == ({
        &&& a[i].metric == b[i].metric
        &&& a[i].direction == b[i].direction
        &&& ending_laws::at_most(a[i].threshold, b[i].threshold)
        &&& ending_laws::at_most(b[i].threshold, a[i].threshold)
    }) by {
        ending_laws::law_metrics_compare_as_numbers(a[i].threshold, b[i].threshold);
    }
    if workflow::gates_equal(a, b) {
        assert forall|i: int| 0 <= i < a.len() implies {
            &&& (#[trigger] a[i]).metric == b[i].metric
            &&& a[i].direction == b[i].direction
            &&& ending_laws::at_most(a[i].threshold, b[i].threshold)
            &&& ending_laws::at_most(b[i].threshold, a[i].threshold)
        } by {
            assert(a[i].equals(b[i]));
        }
    }
    if same_gates(a, b) {
        assert forall|i: int| 0 <= i < a.len() implies (#[trigger] a[i]).equals(b[i]) by {}
    }
}

/// Whether two lists of bytes are the same up to a position, where the first one ends or has
/// the smaller byte.
pub open spec fn is_smaller_at(x: Seq<u8>, y: Seq<u8>, i: int) -> bool {
    &&& 0 <= i <= x.len()
    &&& i < y.len()
    &&& x.take(i) == y.take(i)
    &&& i == x.len() || x[i] < y[i]
}

/// One text comes before another if and only if its bytes in UTF-8 are a beginning of those
/// of the other, or it has the smaller byte where they first differ. Of two texts that are
/// not the same, one comes before the other, and not the other way.
pub proof fn law_text_is_ordered_by_bytes(a: Seq<char>, b: Seq<char>)
    ensures
        text::text_below(a, b) <==> exists|i: int|
            is_smaller_at(encode_utf8(a), encode_utf8(b), i),
        a != b ==> text::text_below(a, b) || text::text_below(b, a),
        text::text_below(a, b) ==> !text::text_below(b, a) && a != b,
{
    let (x, y) = (encode_utf8(a), encode_utf8(b));
    text::lemma_text_below_total(a, b);
    text::lemma_text_below_irreflexive(a);
    if text::text_below(a, b) && text::text_below(b, a) {
        text::lemma_text_below_transitive(a, b, a);
    }
    if text::text_below(a, b) {
        let i = choose|i: int| text::parts_below(x, y, i);
        assert(x.take(i) =~= y.take(i));
        assert(is_smaller_at(x, y, i));
    }
    if exists|i: int| is_smaller_at(x, y, i) {
        let i = choose|i: int| is_smaller_at(x, y, i);
        assert forall|j: int| 0 <= j < i implies #[trigger] x[j] == y[j] by {
            assert(x.take(i)[j] == x[j]);
            assert(y.take(i)[j] == y[j]);
        }
        assert(text::parts_below(x, y, i));
    }
}

/// A text is blank if and only if it has nothing but white space: an empty one is, and one
/// with a letter, a figure, a hyphen or any other printable character of ASCII is not.
pub proof fn law_printable_text_is_not_blank(text: Seq<char>, i: int)
    ensures
        text.len() == 0 ==> text::blank(text),
        0 <= i < text.len() && '!' <= text[i] <= '~' ==> !text::blank(text),
        (forall|k: int| 0 <= k < text.len() ==> #[trigger] text[k] == ' ') ==> text::blank(text),
{
}

/// White space is what Unicode takes for it.
pub proof fn law_white_space_is_that_of_unicode(c: char)
    ensures
        ({
            let code = c as int;
            text::white_space(c) <==> {
                ||| 0x9 <= code <= 0xd
                ||| code == 0x20
                ||| code == 0x85
                ||| code == 0xa0
                ||| code == 0x1680
                ||| 0x2000 <= code <= 0x200a
                ||| code == 0x2028
                ||| code == 0x2029
                ||| code == 0x202f
                ||| code == 0x205f
                ||| code == 0x3000
            }
        }),
        text::blank(seq![c]) <==> text::white_space(c),
{
    assert(seq![c][0] == c);
}

/// Of two numbers the least is not above either and the greatest not below, and each is one
/// of them.
pub proof fn law_least_and_greatest(a: int, b: int)
    ensures
        policy::least(a, b) <= a,
        policy::least(a, b) <= b,
        policy::least(a, b) == a || policy::least(a, b) == b,
        policy::greatest(a, b) >= a,
        policy::greatest(a, b) >= b,
        policy::greatest(a, b) == a || policy::greatest(a, b) == b,
{
}

/// A new run is pending and has nothing but what it was made with; a new manifest has no
/// gates, no provenance and no metadata; and a new repository has no runs, no keys and no
/// events, and has given out no number and no token.
pub proof fn law_new_things_are_empty(
    run_id: Seq<char>,
    workflow: WorkflowSpecView,
    manifest: RunManifestView,
    input: Value,
    now: u64,
    tasks: Map<Seq<char>, TaskSpecView>,
)
    ensures
        ({
            let run = RunRecordView::fresh(run_id, workflow, manifest, input, now);
            let plain = RunManifestView::plain(workflow.id, workflow.version, tasks);
            let empty = RepositoryView::empty();
            &&& run.schema_version == 1
            &&& run.run_id == run_id
            &&& run.workflow == workflow
            &&& run.manifest == manifest
            &&& run.input == input
            &&& run.status == RunStatus::Pending
            &&& forall|id: Seq<char>| !#[trigger] run.steps.contains_key(id)
            &&& run.events.len() == 0
            &&& run.event_log.len() == 0
            &&& run.metrics.len() == 0
            &&& forall|name: Seq<char>| !#[trigger] run.gate_decisions.contains_key(name)
            &&& run.error is None
            &&& run.idempotency_key is None
            &&& run.revision == 0
            &&& run.created_at_ms == now
            &&& plain.schema_version == 1
            &&& plain.workflow_id == workflow.id
            &&& plain.workflow_version == workflow.version
            &&& plain.tasks == tasks
            &&& plain.evaluation_gates.len() == 0
            &&& plain.provenance == RunProvenanceView::none()
            &&& forall|name: Seq<char>| !#[trigger] plain.metadata.contains_key(name)
            &&& forall|id: Seq<char>| !#[trigger] empty.runs.contains_key(id)
            &&& forall|key: Seq<char>| !#[trigger] empty.idempotency.contains_key(key)
            &&& empty.events.len() == 0
            &&& empty.next_event_sequence == 0
            &&& empty.next_lease_token == 0
        }),
{
}

/// A number is written with its digits, the first one first.
pub proof fn law_numbers_are_written_in_decimal(n: nat, d: nat)
    requires
        d < 10,
    ensures
        text::decimal(d) == seq![(('0' as int) + d) as char],
        n > 0 ==> text::decimal(10 * n + d) == text::decimal(n).push((('0' as int) + d) as char),
{
    if n > 0 {
        assert((10 * n + d) / 10 == n);
        assert((10 * n + d) % 10 == d);
    }
}

/// The value of a hexadecimal digit.
pub open spec fn hex_value(c: char) -> int {
    if '0' <= c <= '9' {
        c as int - '0' as int
    } else {
        c as int - 'a' as int + 10
    }
}

/// Each byte of a digest is written with two hexadecimal digits, the high one first, from
/// which it can be read back; so no two digests are written alike.
pub proof fn law_digest_can_be_read_back(digest: Seq<u8>, other: Seq<u8>)
    ensures
        text::hex(digest).len() == 2 * digest.len(),
        forall|i: int|
            0 <= i < digest.len() ==> #[trigger] digest[i] == 16 * hex_value(
                text::hex(digest)[2 * i],
            ) + hex_value(text::hex(digest)[2 * i + 1]),
        text::hex(digest) == text::hex(other) ==> digest == other,
{
    assert forall|bytes: Seq<u8>, i: int| 0 <= i < bytes.len() implies #[trigger] bytes[i] == 16
        * hex_value(text::hex(bytes)[2 * i]) + hex_value(text::hex(bytes)[2 * i + 1]) by {
        assert((2 * i) / 2 == i);
        assert((2 * i + 1) / 2 == i);
        assert((2 * i) % 2 == 0);
        assert((2 * i + 1) % 2 == 1);
    }
    if text::hex(digest) == text::hex(other) {
        assert(text::hex(digest).len() == 2 * digest.len());
        assert(text::hex(other).len() == 2 * other.len());
        assert forall|i: int| 0 <= i < digest.len() implies digest[i] == other[i] by {
            assert(other[i] == 16 * hex_value(text::hex(other)[2 * i]) + hex_value(
                text::hex(other)[2 * i + 1],
            ));
        }
        assert(digest =~= other);
    }
}

/// An artifact is named after its digest, and its reference has the digest, the size and the
/// metadata that were given. Its bytes are read under a reference if and only if they are
/// kept under the id and the digest of the reference. The key of an invocation is made of the
/// task, its version and the digest of its input.
pub proof fn law_artifacts_are_named_by_digest(
    digest: Seq<u8>,
    size_bytes: u64,
    metadata: ArtifactMetadataView,
    store: Map<Seq<char>, StoredArtifactView>,
    artifact: ArtifactRefView,
    task: TaskSpecView,
)
    ensures
        ({
            let reference = ArtifactRefView::of(digest, size_bytes, metadata);
            let key = TaskCacheKeyView::of(task, digest);
            &&& reference.id == "sha256-"@ + text::hex(digest)
            &&& reference.sha256 == text::hex(digest)
            &&& reference.size_bytes == size_bytes
            &&& reference.metadata == metadata
            &&& key.key == task.id + "@"@ + task.version + ":"@ + text::hex(digest)
            &&& key.task == task.id
            &&& key.task_version == task.version
        }),
        match artifact::bytes_for(store, artifact) {
            Some(bytes) => {
                &&& store.contains_key(artifact.id)
                &&& store[artifact.id].reference.sha256 == artifact.sha256
                &&& store[artifact.id].bytes == bytes
            },
            None => !store.contains_key(artifact.id) || store[artifact.id].reference.sha256
                != artifact.sha256,
        },
{
}

/// A generated identifier is made of its prefix, the token and the number, in that order and
/// with hyphens between them.
pub proof fn law_identifier_is_composed(prefix: Seq<char>, token: Seq<char>, sequence: u64)
    ensures
        ids::composed_id(prefix, token, sequence) == prefix + "-"@ + token + "-"@ + text::decimal(
            sequence as nat,
        ),
        ids::is_token(token) ==> token.len() == 32,
{
}

/// The names of a map or a set, in order, are all of them, none twice, each before those
/// that follow it.
pub proof fn law_names_are_listed_in_order(names: Set<Seq<char>>, i: int, j: int)
    requires
        names.finite(),
    ensures
        ({
            let list = ordered::ascending(names);
            &&& list.len() == names.len()
            &&& 0 <= i < list.len() ==> names.contains(list[i])
            &&& forall|name: Seq<char>| #[trigger]
                names.contains(name) ==> exists|k: int| 0 <= k < list.len() && list[k] == name
            &&& 0 <= i < j < list.len() ==> list[i] != list[j] && text::text_below(
                list[i],
                list[j],
            )
        }),
{
    let list = ordered::ascending(names);
    ordered::lemma_ascending_of(names);
    list.unique_seq_to_set();
    if 0 <= i < list.len() {
        assert(list.to_set().contains(list[i]));
    }
    assert forall|name: Seq<char>| #[trigger] names.contains(name) implies exists|k: int|
        0 <= k < list.len() && list[k] == name by {
        assert(list.to_set().contains(name));
    }
}

/// The nodes of a graph can be put in order if and only if they can be numbered such that
/// each has a larger number than all that it waits for; and a list of nodes is in order if
/// and only if all that each of them waits for stands before it.
pub proof fn law_nodes_come_after_what_they_wait_for(graph: Seq<Seq<usize>>, order: Seq<usize>)
    requires
        forall|p: int| 0 <= p < order.len() ==> #[trigger] order[p] < graph.len(),
    ensures
        graph::orderable(graph) <==> exists|number: spec_fn(int) -> nat|
            is_numbered(graph, number),
        graph::in_order(graph, order) <==> forall|p: int, j: int|
            0 <= p < order.len() && 0 <= j < graph[order[p] as int].len() ==> stands_before(
                order,
                p,
                #[trigger] graph[order[p] as int][j],
            ),
        graph::closed(graph) <==> forall|i: int, j: int|
            0 <= i < graph.len() && 0 <= j < graph[i].len() ==> #[trigger] graph[i][j]
                < graph.len(),
{
    if graph::orderable(graph) {
        let rank = choose|rank: spec_fn(int) -> nat| graph::ranked(graph, rank);
        assert(is_numbered(graph, rank));
    }
    if exists|number: spec_fn(int) -> nat| is_numbered(graph, number) {
        let number = choose|number: spec_fn(int) -> nat| is_numbered(graph, number);
        assert(graph::ranked(graph, number));
    }
    assert forall|p: int, j: int|
        0 <= p < order.len() && 0 <= j < graph[order[p] as int].len() implies order.take(
        p,
    ).contains(#[trigger] graph[order[p] as int][j]) == stands_before(
        order,
        p,
        graph[order[p] as int][j],
    ) by {
        let node = graph[order[p] as int][j];
        if order.take(p).contains(node) {
            let q = choose|q: int| 0 <= q < p && order.take(p)[q] == node;
            assert(order[q] == node);
        }
        if stands_before(order, p, node) {
            let q = choose|q: int| 0 <= q < p && #[trigger] order[q] == node;
            assert(order.take(p)[q] == node);
        }
    }
}

/// Whether a node stands in a list before a position.
pub open spec fn stands_before(order: Seq<usize>, p: int, node: usize) -> bool {
    exists|q: int| 0 <= q < p && #[trigger] order[q] == node
}

/// Whether the nodes of a graph are numbered such that each has a larger number than all
/// that it waits for.
pub open spec fn is_numbered(graph: Seq<Seq<usize>>, number: spec_fn(int) -> nat) -> bool {
    forall|i: int, j: int|
        0 <= i < graph.len() && 0 <= j < graph[i].len() ==> number(#[trigger] graph[i][j] as int)
            < number(i)
}

/// By default a policy grants three attempts of thirty seconds each, with delays of 25
/// milliseconds that double up to a second, anywhere, asking for nothing and with no
/// fallback; a worker is anywhere and offers nothing; and nothing is said of where a run
/// comes from.
pub proof fn law_usual_policy(id: Seq<char>)
    ensures
        ({
            let policy = ExecutionPolicyView::usual();
            let worker = WorkerProfileView::plain(id);
            &&& policy.retry.max_attempts == 3
            &&& policy.retry.delay.initial_ms == 25
            &&& policy.retry.delay.multiplier == 2
            &&& policy.retry.delay.max_ms == 1_000
            &&& policy.timeout_ms == Some(30_000u64)
            &&& policy.fallback_task is None
            &&& policy.residency is Any
            &&& policy.resources.cpu_millis == 0
            &&& policy.resources.memory_mb == 0
            &&& policy.resources.gpu_count == 0
            &&& forall|any: Seq<char>| !#[trigger] policy.resources.capabilities.contains(any)
            &&& worker.id == id
            &&& worker.residency is Any
            &&& worker.resources == policy.resources
            &&& RunProvenanceView::none().model is None
            &&& RunProvenanceView::none().prompt is None
            &&& RunProvenanceView::none().dataset is None
            &&& RunProvenanceView::none().input_hash is None
            &&& RunProvenanceView::none().calibration is None
            &&& RunProvenanceView::none().code_revision is None
            &&& forall|name: Seq<char>| !#[trigger]
                RunProvenanceView::none().environment.contains_key(name)
        }),
{
}

/// What tasks fail of is put into words by kind, with the reason, or with the time that was
/// granted.
pub proof fn law_task_errors_in_words(reason: Seq<char>, timeout_ms: u64)
    ensures
        TaskErrorView::InvalidInput(reason).text() == "task input is invalid: "@ + reason,
        TaskErrorView::Transient(reason).text() == "task failed transiently: "@ + reason,
        TaskErrorView::Permanent(reason).text() == "task failed permanently: "@ + reason,
        TaskErrorView::Serialization(reason).text() == "task serialization failed: "@ + reason,
        (TaskErrorView::Timeout { timeout_ms }).text() == "task timed out after "@ + text::decimal(
            timeout_ms as nat,
        ) + " ms"@,
{
}

/// What is wrong with a workflow, and what a registry or an adapter says, is put into words
/// with the names of what it is about.
pub proof fn law_workflow_errors_in_words(
    workflow: Seq<char>,
    step: Seq<char>,
    dependency: Seq<char>,
    task: Seq<char>,
    adapter: Seq<char>,
    message: Seq<char>,
)
    ensures
        (WorkflowErrorView::DuplicateStep { workflow, step }).text() == "workflow "@ + workflow
            + " contains duplicate step "@ + step,
        (WorkflowErrorView::UnknownDependency { workflow, step, dependency }).text()
            == "workflow "@ + workflow + " step "@ + step + " depends on unknown step "@
            + dependency,
        (WorkflowErrorView::DependencyCycle { workflow }).text() == "workflow "@ + workflow
            + " contains a dependency cycle"@,
        (WorkflowErrorView::Empty { workflow }).text() == "workflow "@ + workflow
            + " has no steps"@,
        (WorkflowErrorView::UnregisteredTask { task }).text() == "task "@ + task
            + " is not registered"@,
        (WorkflowErrorView::TaskIdMismatch { workflow, step, task }).text() == "workflow "@
            + workflow + " references task "@ + task + " from step "@ + step
            + ", but the registered task has a different id"@,
        (WorkflowErrorView::UnsatisfiedPolicy { workflow, step }).text() == "workflow "@ + workflow
            + " step "@ + step + " cannot run on the selected worker"@,
        (RegistryErrorView::DuplicateTask { task }).text() == "task "@ + task
            + " was already registered"@,
        (AdapterErrorView { adapter, message }).text() == adapter + " adapter failed: "@ + message,
{
}

/// What a repository says is put into words with the names of what it is about.
pub proof fn law_repository_errors_in_words(
    run: Seq<char>,
    step: Seq<char>,
    from: Seq<char>,
    to: Seq<char>,
    message: Seq<char>,
)
    ensures
        (RepositoryErrorView::RunNotFound { run }).text() == "run "@ + run + " was not found"@,
        (RepositoryErrorView::LeaseLost { run, step }).text() == "step "@ + step + " in run "@ + run
            + " is leased by another worker"@,
        (RepositoryErrorView::IdempotencyConflict { run }).text() == "run "@ + run
            + " has an incompatible idempotency key"@,
        (RepositoryErrorView::InvalidTransition { run, from, to }).text() == "run "@ + run
            + " cannot transition from "@ + from + " to "@ + to,
        (RepositoryErrorView::Conflict { run }).text() == "run "@ + run
            + " changed while it was being updated"@,
        (RepositoryErrorView::InvalidCompletion { run, step }).text() == "completion for step "@
            + step + " in run "@ + run + " does not match its claim"@,
        (RepositoryErrorView::InvalidEvent { run }).text() == "event does not belong to run "@
            + run,
        (RepositoryErrorView::InvalidRequest { message }).text() == "invalid run request: "@
            + message,
        (RepositoryErrorView::Storage { message }).text() == "repository storage failed: "@
            + message,
{
}

/// An identifier that is blank is put into words with its kind.
pub proof fn law_blank_identifier_in_words(kind: Seq<char>)
    ensures
        error::identifier_error_text(kind) == kind + " cannot be empty"@,
{
}

/// What the orchestrator says is what is said of what went wrong underneath; and an error of
/// a workflow or of a repository is raised as what it is.
pub proof fn law_orchestrator_errors_in_words(
    workflow: WorkflowErrorView,
    adapter: AdapterErrorView,
    repository: RepositoryErrorView,
    raised: WorkflowError,
    refused: RepositoryError,
)
    ensures
        OrchestratorErrorView::Workflow(workflow).text() == workflow.text(),
        OrchestratorErrorView::Store(adapter).text() == adapter.text(),
        OrchestratorErrorView::EventSink(adapter).text() == adapter.text(),
        OrchestratorErrorView::Repository(repository).text() == repository.text(),
        OrchestratorErrorView::Artifact(adapter).text() == adapter.text(),
        becomes(raised, OrchestratorError::Workflow(raised)),
        becomes(refused, OrchestratorError::Repository(refused)),
{
}

/// Whether one thing turns into another.
pub open spec fn becomes<E, T: vstd::std_specs::convert::FromSpec<E>>(from: E, into: T) -> bool {
    T::obeys_from_spec() && T::from_spec(from) == into
}

} // verus!
