//! Quality gates: thresholds that the metrics of a run are held to.
use crate::ordered::OrderedMap;
use crate::text::same_text;
use crate::views::{self, Same};
use vstd::prelude::*;

verus! {

/// Which side of its threshold a metric has to be on.
#[derive(Clone, Copy, Debug, PartialEq, Eq, Structural)]
pub enum MetricDirection {
    AtLeast,
    AtMost,
}

/// A number in IEEE 754 double precision, held by its bits.
#[derive(Clone, Copy, Debug)]
pub struct MetricValue {
    pub bits: u64,
}

/// The weight of the sign bit.
pub const SIGN: u64 = 0x8000_0000_0000_0000;

/// The magnitude of infinity. What is above it is no number.
pub const INFINITY: u64 = 0x7ff0_0000_0000_0000;

impl MetricValue {
    /// Whether the sign bit is set.
    pub open spec fn negative(self) -> bool {
        self.bits >= SIGN
    }

    /// The bits without the sign: they grow with the distance from zero.
    pub open spec fn magnitude(self) -> int {
        if self.negative() {
            self.bits - SIGN
        } else {
            self.bits as int
        }
    }

    /// Whether the bits stand for no number.
    pub open spec fn not_a_number(self) -> bool {
        self.magnitude() > INFINITY
    }

    /// Where the number stands among the numbers. Both zeros stand at zero.
    pub open spec fn rank(self) -> int {
        if self.negative() {
            -self.magnitude()
        } else {
            self.magnitude()
        }
    }

    /// `self <= other` of floating point: false where either is no number.
    pub open spec fn below_or_equal(self, other: MetricValue) -> bool {
        !self.not_a_number() && !other.not_a_number() && self.rank() <= other.rank()
    }

    /// `self == other` of floating point: false where either is no number.
    pub open spec fn equals(self, other: MetricValue) -> bool {
        !self.not_a_number() && !other.not_a_number() && self.rank() == other.rank()
    }

    /// The number with the given bits.
    pub fn from_bits(bits: u64) -> (value: Self)
        ensures
            value.bits == bits,
    {
        MetricValue { bits }
    }

    /// The bits of the number.
    pub fn to_bits(self) -> (bits: u64)
        ensures
            bits == self.bits,
    {
        self.bits
    }

    /// Whether the bits stand for no number.
    pub fn is_nan(self) -> (answer: bool)
        ensures
            answer == self.not_a_number(),
    {
        if self.bits >= SIGN {
            self.bits - SIGN > INFINITY
        } else {
            self.bits > INFINITY
        }
    }

    /// Whether the number is at most another one.
    pub fn at_most(self, other: MetricValue) -> (answer: bool)
        ensures
            answer == self.below_or_equal(other),
    {
        if self.is_nan() || other.is_nan() {
            return false;
        }
        if self.bits >= SIGN {
            if other.bits >= SIGN {
                self.bits >= other.bits
            } else {
                true
            }
        } else if other.bits >= SIGN {
            self.bits == 0 && other.bits == SIGN
        } else {
            self.bits <= other.bits
        }
    }

    /// Whether the number is at least another one.
    pub fn at_least(self, other: MetricValue) -> (answer: bool)
        ensures
            answer == other.below_or_equal(self),
    {
        other.at_most(self)
    }
}

impl Same for MetricValue {
    open spec fn same_spec(&self, other: &Self) -> bool {
        self.equals(*other)
    }

    fn same(&self, other: &Self) -> (answer: bool) {
        self.at_most(*other) && other.at_most(*self)
    }
}

impl PartialEq for MetricValue {
    fn eq(&self, other: &Self) -> (answer: bool) {
        self.same(other)
    }
}

impl vstd::std_specs::cmp::PartialEqSpecImpl for MetricValue {
    open spec fn obeys_eq_spec() -> bool {
        true
    }

    open spec fn eq_spec(&self, other: &Self) -> bool {
        self.same_spec(other)
    }
}

/// A measured quantity of a run.
#[derive(Debug)]
pub struct Metric {
    pub name: String,
    pub value: MetricValue,
}

/// What a `Metric` holds.
#[verifier::ext_equal]
pub struct MetricView {
    pub name: Seq<char>,
    pub value: MetricValue,
}

impl View for Metric {
    type V = MetricView;

    open spec fn view(&self) -> MetricView {
        MetricView {
            name: self.name@,
            value: self.value,
        }
    }
}

impl Clone for Metric {
    fn clone(&self) -> (copy: Self)
        ensures
            copy@ == self@,
    {
        let copy = Metric {
            name: self.name.clone(),
            value: self.value,
        };
        copy
    }
}

impl MetricView {
    /// Equality as metrics are compared: that of floating point on the value.
    pub open spec fn equals(self, other: MetricView) -> bool {
        self.name == other.name && self.value.equals(other.value)
    }
}

impl Same for Metric {
    open spec fn same_spec(&self, other: &Self) -> bool {
        self@.equals(other@)
    }

    fn same(&self, other: &Self) -> (answer: bool) {
        same_text(self.name.as_str(), other.name.as_str()) && self.value.same(&other.value)
    }
}

impl PartialEq for Metric {
    fn eq(&self, other: &Self) -> (answer: bool) {
        self.same(other)
    }
}

impl vstd::std_specs::cmp::PartialEqSpecImpl for Metric {
    open spec fn obeys_eq_spec() -> bool {
        true
    }

    open spec fn eq_spec(&self, other: &Self) -> bool {
        self.same_spec(other)
    }
}

/// A condition on one metric that a run must meet.
#[derive(Debug)]
pub struct EvaluationGate {
    pub metric: String,
    pub threshold: MetricValue,
    pub direction: MetricDirection,
}

/// What a `EvaluationGate` holds.
#[verifier::ext_equal]
pub struct EvaluationGateView {
    pub metric: Seq<char>,
    pub threshold: MetricValue,
    pub direction: MetricDirection,
}

impl View for EvaluationGate {
    type V = EvaluationGateView;

    open spec fn view(&self) -> EvaluationGateView {
        EvaluationGateView {
            metric: self.metric@,
            threshold: self.threshold,
            direction: self.direction,
        }
    }
}

impl Clone for EvaluationGate {
    fn clone(&self) -> (copy: Self)
        ensures
            copy@ == self@,
    {
        let copy = EvaluationGate {
            metric: self.metric.clone(),
            threshold: self.threshold,
            direction: self.direction,
        };
        copy
    }
}

impl EvaluationGateView {
    /// Equality as gates are compared: that of floating point on the threshold.
    pub open spec fn equals(self, other: EvaluationGateView) -> bool {
        &&& self.metric == other.metric
        &&& self.threshold.equals(other.threshold)
        &&& self.direction == other.direction
    }
}

impl Same for EvaluationGate {
    open spec fn same_spec(&self, other: &Self) -> bool {
        self@.equals(other@)
    }

    fn same(&self, other: &Self) -> (answer: bool) {
        same_text(self.metric.as_str(), other.metric.as_str()) && self.threshold.same(
            &other.threshold,
        ) && self.direction == other.direction
    }
}

impl PartialEq for EvaluationGate {
    fn eq(&self, other: &Self) -> (answer: bool) {
        self.same(other)
    }
}

impl vstd::std_specs::cmp::PartialEqSpecImpl for EvaluationGate {
    open spec fn obeys_eq_spec() -> bool {
        true
    }

    open spec fn eq_spec(&self, other: &Self) -> bool {
        self.same_spec(other)
    }
}

/// What a gate made of the metrics.
#[derive(Debug)]
pub struct GateDecision {
    pub passed: bool,
    pub metric: String,
    pub observed: Option<MetricValue>,
    pub threshold: MetricValue,
    pub direction: MetricDirection,
}

/// What a `GateDecision` holds.
#[verifier::ext_equal]
pub struct GateDecisionView {
    pub passed: bool,
    pub metric: Seq<char>,
    pub observed: Option<MetricValue>,
    pub threshold: MetricValue,
    pub direction: MetricDirection,
}

impl View for GateDecision {
    type V = GateDecisionView;

    open spec fn view(&self) -> GateDecisionView {
        GateDecisionView {
            passed: self.passed,
            metric: self.metric@,
            observed: self.observed,
            threshold: self.threshold,
            direction: self.direction,
        }
    }
}

impl Clone for GateDecision {
    fn clone(&self) -> (copy: Self)
        ensures
            copy@ == self@,
    {
        let copy = GateDecision {
            passed: self.passed,
            metric: self.metric.clone(),
            observed: self.observed,
            threshold: self.threshold,
            direction: self.direction,
        };
        copy
    }
}

impl GateDecisionView {
    /// Equality as decisions are compared: that of floating point on the numbers.
    pub open spec fn equals(self, other: GateDecisionView) -> bool {
        &&& self.passed == other.passed
        &&& self.metric == other.metric
        &&& match (self.observed, other.observed) {
            (Some(a), Some(b)) => a.equals(b),
            (None, None) => true,
            _ => false,
        }
        &&& self.threshold.equals(other.threshold)
        &&& self.direction == other.direction
    }
}

impl Same for GateDecision {
    open spec fn same_spec(&self, other: &Self) -> bool {
        self@.equals(other@)
    }

    fn same(&self, other: &Self) -> (answer: bool) {
        self.passed == other.passed && same_text(self.metric.as_str(), other.metric.as_str())
            && self.observed.same(&other.observed) && self.threshold.same(&other.threshold)
            && self.direction == other.direction
    }
}

impl PartialEq for GateDecision {
    fn eq(&self, other: &Self) -> (answer: bool) {
        self.same(other)
    }
}

impl vstd::std_specs::cmp::PartialEqSpecImpl for GateDecision {
    open spec fn obeys_eq_spec() -> bool {
        true
    }

    open spec fn eq_spec(&self, other: &Self) -> bool {
        self.same_spec(other)
    }
}

/// The value of the first metric of a name.
pub open spec fn observed(metrics: Seq<MetricView>, name: Seq<char>) -> Option<MetricValue>
    decreases metrics.len(),
{
    if metrics.len() == 0 {
        None
    } else if metrics[0].name == name {
        Some(metrics[0].value)
    } else {
        observed(metrics.drop_first(), name)
    }
}

impl EvaluationGateView {
    /// Whether a value is on the right side of the threshold.
    pub open spec fn admits(self, value: MetricValue) -> bool {
        match self.direction {
            MetricDirection::AtLeast => self.threshold.below_or_equal(value),
            MetricDirection::AtMost => value.below_or_equal(self.threshold),
        }
    }

    /// The decision on the metrics: they pass if the metric was measured
    /// and the value is on the right side of the threshold.
    pub open spec fn decision(self, metrics: Seq<MetricView>) -> GateDecisionView {
        let value = observed(metrics, self.metric);
        GateDecisionView {
            passed: value is Some && self.admits(value->0),
            metric: self.metric,
            observed: value,
            threshold: self.threshold,
            direction: self.direction,
        }
    }
}

impl EvaluationGate {
    /// Holds the metrics to the threshold.
    #[must_use]
    pub fn evaluate(&self, metrics: &[Metric]) -> (decision: GateDecision)
        ensures
            decision@ == self@.decision(views::all_views(metrics@)),
    {
        let mut value: Option<MetricValue> = None;
        let mut i: usize = 0;
        let ghost all = views::all_views(metrics@);
        assert(all.skip(0) =~= all);
        while i < metrics.len() && value.is_none()
            invariant
                i <= metrics.len(),
                all == views::all_views(metrics@),
                match value {
                    Some(found) => observed(all, self.metric@) == Some(found),
                    None => observed(all, self.metric@) == observed(
                        all.skip(i as int),
                        self.metric@,
                    ),
                },
            decreases metrics.len() - i,
        {
            if same_text(metrics[i].name.as_str(), self.metric.as_str()) {
                value = Some(metrics[i].value);
                assert(all.skip(i as int)[0] == all[i as int]);
            } else {
                assert(all.skip(i as int)[0] == all[i as int]);
                assert(all.skip(i as int).drop_first() =~= all.skip(i + 1));
            }
            i += 1;
        }
        let passed = match value {
            Some(found) => match self.direction {
                MetricDirection::AtLeast => found.at_least(self.threshold),
                MetricDirection::AtMost => found.at_most(self.threshold),
            },
            None => false,
        };
        GateDecision {
            passed,
            metric: self.metric.clone(),
            observed: value,
            threshold: self.threshold,
            direction: self.direction,
        }
    }
}

/// The decision for each metric name that has a gate. Of two gates on one
/// metric the later one decides.
pub open spec fn decisions(gates: Seq<EvaluationGateView>, metrics: Seq<MetricView>) -> Map<
    Seq<char>,
    GateDecisionView,
>
    decreases gates.len(),
{
    if gates.len() == 0 {
        Map::empty()
    } else {
        decisions(gates.drop_last(), metrics).insert(
            gates.last().metric,
            gates.last().decision(metrics),
        )
    }
}

/// Evaluates every gate and returns a decision per metric name.
#[must_use]
pub fn evaluate_gates(gates: &[EvaluationGate], metrics: &[Metric]) -> (made: OrderedMap<
    String,
    GateDecision,
>)
    ensures
        views::map_views(made@) == decisions(views::all_views(gates@), views::all_views(metrics@)),
{
    let mut made: OrderedMap<String, GateDecision> = OrderedMap::new();
    let ghost all = views::all_views(gates@);
    let mut i: usize = 0;
    assert(views::map_views(made@) =~= decisions(all.take(0), views::all_views(metrics@)));
    while i < gates.len()
        invariant
            i <= gates.len(),
            all == views::all_views(gates@),
            views::map_views(made@) == decisions(
                all.take(i as int),
                views::all_views(metrics@),
            ),
        decreases gates.len() - i,
    {
        let decision = gates[i].evaluate(metrics);
        proof {
            views::lemma_map_views_insert(made@, gates@[i as int].metric@, decision);
            assert(all.take(i + 1).drop_last() =~= all.take(i as int));
            assert(all.take(i + 1).last() == all[i as int]);
        }
        made.insert(gates[i].metric.clone(), decision);
        i += 1;
    }
    assert(all.take(i as int) =~= all);
    made
}

/// Whether every gate passed.
pub open spec fn all_passed(made: Map<Seq<char>, GateDecisionView>) -> bool {
    forall|name: Seq<char>| made.contains_key(name) ==> (#[trigger] made[name]).passed
}

/// Looks for a gate that did not pass.
pub fn every_gate_passed(made: &OrderedMap<String, GateDecision>) -> (answer: bool)
    ensures
        answer == all_passed(views::map_views(made@)),
{
    let count = made.len();
    let ghost names = crate::ordered::ascending(made@.dom());
    let mut i: usize = 0;
    while i < count
        invariant
            i <= count,
            count == names.len(),
            count == made@.len(),
            names == crate::ordered::ascending(made@.dom()),
            names.to_set() == made@.dom(),
            forall|j: int| 0 <= j < i ==> made@[#[trigger] names[j]].passed,
        decreases count - i,
    {
        if !made.value_at(i).passed {
            proof {
                assert(names.contains(names[i as int]));
                assert(names.to_set().contains(names[i as int]));
                assert(!views::map_views(made@)[names[i as int]].passed);
            }
            return false;
        }
        i += 1;
    }
    proof {
        assert forall|name: Seq<char>|
            views::map_views(made@).contains_key(name) implies (#[trigger] views::map_views(
            made@,
        )[name]).passed by {
            assert(names.to_set().contains(name));
            let j = choose|j: int| 0 <= j < names.len() && names[j] == name;
            assert(made@[names[j]].passed);
        }
    }
    true
}

/// Metrics compared one by one.
pub open spec fn metrics_equal(a: Seq<MetricView>, b: Seq<MetricView>) -> bool {
    &&& a.len() == b.len()
    &&& forall|i: int| 0 <= i < a.len() ==> (#[trigger] a[i]).equals(b[i])
}

/// Decisions compared name by name.
pub open spec fn decisions_equal(
    a: Map<Seq<char>, GateDecisionView>,
    b: Map<Seq<char>, GateDecisionView>,
) -> bool {
    &&& a.dom() == b.dom()
    &&& forall|name: Seq<char>| a.contains_key(name) ==> (#[trigger] a[name]).equals(b[name])
}

/// Compares metrics one by one.
pub fn same_metrics(a: &Vec<Metric>, b: &Vec<Metric>) -> (answer: bool)
    ensures
        answer == metrics_equal(views::all_views(a@), views::all_views(b@)),
{
    proof {
        let (x, y) = (views::all_views(a@), views::all_views(b@));
        if a.same_spec(b) {
            assert forall|i: int| 0 <= i < x.len() implies (#[trigger] x[i]).equals(y[i]) by {
                assert(a@[i].same_spec(&b@[i]));
            }
        }
        if metrics_equal(x, y) {
            assert forall|i: int| 0 <= i < a@.len() implies (#[trigger] a@[i]).same_spec(
                &b@[i],
            ) by {
                assert(x[i].equals(y[i]));
            }
        }
    }
    a.same(b)
}

/// Compares decisions name by name.
pub fn same_decisions(a: &OrderedMap<String, GateDecision>, b: &OrderedMap<String, GateDecision>) -> (
answer: bool)
    ensures
        answer == decisions_equal(views::map_views(a@), views::map_views(b@)),
{
    proof {
        let (x, y) = (views::map_views(a@), views::map_views(b@));
        assert(x.dom() =~= a@.dom());
        assert(y.dom() =~= b@.dom());
        if a.same_spec(b) {
            assert forall|name: Seq<char>| x.contains_key(name) implies (
            #[trigger] x[name]).equals(y[name]) by {
                assert(a@[name].same_spec(&b@[name]));
            }
        }
        if decisions_equal(x, y) {
            assert forall|name: Seq<char>| a@.contains_key(name) implies (
            #[trigger] a@[name]).same_spec(&b@[name]) by {
                assert(x[name].equals(y[name]));
            }
        }
    }
    a.same(b)
}

} // verus!
