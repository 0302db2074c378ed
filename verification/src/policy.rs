//! Retry, placement and resource policy.
use crate::clock::{self, millis};
use crate::error::IdentifierError;
use crate::ids::{TaskId, WorkerId};
use crate::ordered::OrderedSet;
use crate::task::TaskSpec;
use crate::text::{self, same_text, IntoText};
use crate::views::{self, Same};
use std::time::Duration;
use vstd::arithmetic::power::*;
use vstd::prelude::*;

verus! {

/// A delay between attempts that grows from one attempt to the next.
#[derive(Clone, Copy, Debug, PartialEq, Eq, Structural)]
pub struct RetryDelay {
    pub initial_ms: u64,
    pub multiplier: u32,
    pub max_ms: u64,
}

/// The smaller of two numbers.
pub open spec fn least(a: int, b: int) -> int {
    if a <= b {
        a
    } else {
        b
    }
}

/// The larger of two numbers.
pub open spec fn greatest(a: int, b: int) -> int {
    if a >= b {
        a
    } else {
        b
    }
}

proof fn lemma_capped_power(base: nat, exponent: nat)
    ensures
        pow(base as int, exponent) >= 0,
        least(
            least(pow(base as int, exponent), u32::MAX as int) * base,
            u32::MAX as int,
        ) == least(pow(base as int, exponent + 1), u32::MAX as int),
{
    reveal(pow);
    let power = pow(base as int, exponent);
    assert(pow(base as int, exponent + 1) == base * power);
    if base == 0 {
        lemma_pow_zero(exponent, base);
    } else {
        lemma_pow_positive(base as int, exponent);
    }
    if power > u32::MAX {
        assert(u32::MAX * base >= u32::MAX) by (nonlinear_arith)
            requires
                base > 0,
        ;
        assert(base * power >= power) by (nonlinear_arith)
            requires
                base > 0,
                power >= 0,
        ;
    } else {
        assert(power * base == base * power) by (nonlinear_arith);
    }
}

proof fn lemma_pow_zero(exponent: nat, base: nat)
    requires
        base == 0,
    ensures
        pow(base as int, exponent) == (if exponent == 0 {
            1int
        } else {
            0int
        }),
{
    reveal(pow);
}

/// Raises to a power, stopping at the largest `u32`.
pub fn capped_power(base: u32, exponent: u32) -> (power: u32)
    ensures
        power == least(pow(base as int, exponent as nat), u32::MAX as int),
{
    let mut power: u32 = 1;
    let mut i: u32 = 0;
    proof {
        reveal(pow);
    }
    while i < exponent
        invariant
            i <= exponent,
            power == least(pow(base as int, i as nat), u32::MAX as int),
        decreases exponent - i,
    {
        proof {
            lemma_capped_power(base as nat, i as nat);
            assert(power * base <= u32::MAX * u32::MAX) by (nonlinear_arith)
                requires
                    power <= u32::MAX,
                    base <= u32::MAX,
            ;
        }
        let product: u64 = power as u64 * base as u64;
        power = if product > u32::MAX as u64 {
            u32::MAX
        } else {
            product as u32
        };
        i += 1;
    }
    power
}

impl RetryDelay {
    /// The milliseconds to wait after an attempt: the initial delay times the
    /// multiplier raised to the number of attempts before, at most twenty, and
    /// never above both the limit and the initial delay.
    pub open spec fn delay_ms(self, attempt: u32) -> int {
        if attempt == 0 || self.initial_ms == 0 {
            0
        } else {
            let exponent = least(attempt - 1, 20) as nat;
            let factor = least(pow(self.multiplier as int, exponent), u32::MAX as int);
            least(self.initial_ms * factor, greatest(self.max_ms as int, self.initial_ms as int))
        }
    }

    /// No delay at all.
    #[must_use]
    pub fn none() -> (delay: Self)
        ensures
            delay == (RetryDelay { initial_ms: 0, multiplier: 1, max_ms: 0 }),
    {
        RetryDelay { initial_ms: 0, multiplier: 1, max_ms: 0 }
    }

    /// The milliseconds to wait after an attempt.
    pub fn millis_for_attempt(self, attempt: u32) -> (ms: u64)
        ensures
            ms == self.delay_ms(attempt),
    {
        if attempt == 0 || self.initial_ms == 0 {
            return 0;
        }
        let exponent: u32 = if attempt - 1 > 20 {
            20
        } else {
            attempt - 1
        };
        let factor = capped_power(self.multiplier, exponent);
        proof {
            lemma_capped_power(self.multiplier as nat, exponent as nat);
            assert(0 <= self.initial_ms * factor <= u64::MAX * u32::MAX) by (nonlinear_arith)
                requires
                    0 <= self.initial_ms <= u64::MAX,
                    0 <= factor <= u32::MAX,
            ;
        }
        let product: u128 = self.initial_ms as u128 * factor as u128;
        let limit = if self.max_ms > self.initial_ms {
            self.max_ms
        } else {
            self.initial_ms
        };
        if product > limit as u128 {
            limit
        } else {
            product as u64
        }
    }

    /// How long to wait after an attempt.
    #[must_use]
    pub fn for_attempt(self, attempt: u32) -> (delay: Duration)
        ensures
            clock::duration_nanos(delay) == self.delay_ms(attempt) * 1_000_000,
    {
        millis(self.millis_for_attempt(attempt))
    }
}

impl Default for RetryDelay {
    fn default() -> (delay: Self)
        ensures
            delay == (RetryDelay { initial_ms: 25, multiplier: 2, max_ms: 1_000 }),
    {
        RetryDelay { initial_ms: 25, multiplier: 2, max_ms: 1_000 }
    }
}

/// Retry policy for transient task failures and timeouts.
#[derive(Clone, Copy, Debug, PartialEq, Eq, Structural)]
pub struct RetryPolicy {
    /// Total attempts for the step, including the first attempt. Primary and
    /// fallback execution share this budget; a fallback selected after the
    /// primary exhausts the budget receives one final attempt.
    pub max_attempts: u32,
    pub delay: RetryDelay,
}

impl RetryPolicy {
    /// The attempts that the policy grants: at least one.
    pub open spec fn budget(self) -> u32 {
        if self.max_attempts > 1 {
            self.max_attempts
        } else {
            1
        }
    }

    /// One attempt, and no more.
    #[must_use]
    pub fn never() -> (policy: Self)
        ensures
            policy == (RetryPolicy {
                max_attempts: 1,
                delay: RetryDelay { initial_ms: 0, multiplier: 1, max_ms: 0 },
            }),
    {
        RetryPolicy { max_attempts: 1, delay: RetryDelay::none() }
    }

    /// The attempts that the policy grants.
    pub fn attempt_budget(self) -> (attempts: u32)
        ensures
            attempts == self.budget(),
    {
        if self.max_attempts > 1 {
            self.max_attempts
        } else {
            1
        }
    }
}

impl Default for RetryPolicy {
    fn default() -> (policy: Self)
        ensures
            policy == (RetryPolicy {
                max_attempts: 3,
                delay: RetryDelay { initial_ms: 25, multiplier: 2, max_ms: 1_000 },
            }),
    {
        RetryPolicy { max_attempts: 3, delay: RetryDelay::default() }
    }
}

/// Where a task is permitted to execute.
#[derive(Debug, Eq)]
pub enum Residency {
    Any,
    Region(String),
}

/// What a `Residency` holds.
#[verifier::ext_equal]
pub enum ResidencyView {
    Any,
    Region(Seq<char>),
}

impl View for Residency {
    type V = ResidencyView;

    open spec fn view(&self) -> ResidencyView {
        match *self {
            Residency::Any => ResidencyView::Any,
            Residency::Region(region) => ResidencyView::Region(region@),
        }
    }
}

impl Clone for Residency {
    fn clone(&self) -> (copy: Self)
        ensures
            copy@ == self@,
    {
        match self {
            Residency::Any => Residency::Any,
            Residency::Region(region) => Residency::Region(region.clone()),
        }
    }
}

impl Default for Residency {
    fn default() -> (residency: Self)
        ensures
            residency@ == ResidencyView::Any,
    {
        Residency::Any
    }
}

impl Same for Residency {
    open spec fn same_spec(&self, other: &Self) -> bool {
        self@ == other@
    }

    fn same(&self, other: &Self) -> (answer: bool) {
        match (self, other) {
            (Residency::Any, Residency::Any) => true,
            (Residency::Region(a), Residency::Region(b)) => same_text(a.as_str(), b.as_str()),
            _ => false,
        }
    }
}

impl PartialEq for Residency {
    fn eq(&self, other: &Self) -> (answer: bool) {
        self.same(other)
    }
}

impl vstd::std_specs::cmp::PartialEqSpecImpl for Residency {
    open spec fn obeys_eq_spec() -> bool {
        true
    }

    open spec fn eq_spec(&self, other: &Self) -> bool {
        self.same_spec(other)
    }
}

impl ResidencyView {
    /// A requirement of any place is met everywhere, one of a region in that
    /// region only.
    pub open spec fn admits(self, worker: ResidencyView) -> bool {
        self is Any || self == worker
    }
}

impl Residency {
    /// Returns whether a worker residency satisfies this requirement.
    #[must_use]
    pub fn allows(&self, worker: &Self) -> (answer: bool)
        ensures
            answer == self@.admits(worker@),
    {
        match (self, worker) {
            (Residency::Any, _) => true,
            (Residency::Region(required), Residency::Region(actual)) => same_text(
                required.as_str(),
                actual.as_str(),
            ),
            (Residency::Region(_), Residency::Any) => false,
        }
    }
}

/// Resource and capability requirements for a step.
#[derive(Debug, Eq)]
pub struct ResourceRequirements {
    pub cpu_millis: u32,
    pub memory_mb: u32,
    pub gpu_count: u16,
    pub capabilities: OrderedSet,
}

/// What a `ResourceRequirements` holds.
#[verifier::ext_equal]
pub struct ResourceRequirementsView {
    pub cpu_millis: u32,
    pub memory_mb: u32,
    pub gpu_count: u16,
    pub capabilities: Set<Seq<char>>,
}

impl View for ResourceRequirements {
    type V = ResourceRequirementsView;

    open spec fn view(&self) -> ResourceRequirementsView {
        ResourceRequirementsView {
            cpu_millis: self.cpu_millis,
            memory_mb: self.memory_mb,
            gpu_count: self.gpu_count,
            capabilities: self.capabilities@,
        }
    }
}

impl Clone for ResourceRequirements {
    fn clone(&self) -> (copy: Self)
        ensures
            copy@ == self@,
    {
        let copy = ResourceRequirements {
            cpu_millis: self.cpu_millis,
            memory_mb: self.memory_mb,
            gpu_count: self.gpu_count,
            capabilities: self.capabilities.clone(),
        };
        copy
    }
}

impl Same for ResourceRequirements {
    open spec fn same_spec(&self, other: &Self) -> bool {
        self@ == other@
    }

    fn same(&self, other: &Self) -> (answer: bool) {
        self.cpu_millis == other.cpu_millis
            && self.memory_mb == other.memory_mb
            && self.gpu_count == other.gpu_count
            && self.capabilities.same(&other.capabilities)
    }
}

impl PartialEq for ResourceRequirements {
    fn eq(&self, other: &Self) -> (answer: bool) {
        self.same(other)
    }
}

impl vstd::std_specs::cmp::PartialEqSpecImpl for ResourceRequirements {
    open spec fn obeys_eq_spec() -> bool {
        true
    }

    open spec fn eq_spec(&self, other: &Self) -> bool {
        self.same_spec(other)
    }
}


impl ResourceRequirementsView {
    /// No requirement.
    pub open spec fn none() -> ResourceRequirementsView {
        ResourceRequirementsView {
            cpu_millis: 0,
            memory_mb: 0,
            gpu_count: 0,
            capabilities: Set::empty(),
        }
    }
}

impl Default for ResourceRequirements {
    fn default() -> (resources: Self)
        ensures
            resources@ == ResourceRequirementsView::none(),
    {
        ResourceRequirements {
            cpu_millis: 0,
            memory_mb: 0,
            gpu_count: 0,
            capabilities: OrderedSet::new(),
        }
    }
}

/// A worker's advertised placement and capacity.
#[derive(Debug, PartialEq, Eq)]
pub struct WorkerProfile {
    pub id: WorkerId,
    pub residency: Residency,
    pub resources: ResourceRequirements,
}

/// What a `WorkerProfile` holds.
#[verifier::ext_equal]
pub struct WorkerProfileView {
    pub id: Seq<char>,
    pub residency: ResidencyView,
    pub resources: ResourceRequirementsView,
}

impl View for WorkerProfile {
    type V = WorkerProfileView;

    open spec fn view(&self) -> WorkerProfileView {
        WorkerProfileView {
            id: self.id@,
            residency: self.residency@,
            resources: self.resources@,
        }
    }
}

impl Clone for WorkerProfile {
    fn clone(&self) -> (copy: Self)
        ensures
            copy@ == self@,
    {
        let copy = WorkerProfile {
            id: self.id.clone(),
            residency: self.residency.clone(),
            resources: self.resources.clone(),
        };
        copy
    }
}


impl WorkerProfileView {
    /// A worker anywhere, with nothing to advertise.
    pub open spec fn plain(id: Seq<char>) -> WorkerProfileView {
        WorkerProfileView {
            id,
            residency: ResidencyView::Any,
            resources: ResourceRequirementsView::none(),
        }
    }

    /// Whether the worker is where the policy wants it and has what it asks for.
    pub open spec fn meets(self, policy: ExecutionPolicyView) -> bool {
        &&& policy.residency.admits(self.residency)
        &&& self.resources.cpu_millis >= policy.resources.cpu_millis
        &&& self.resources.memory_mb >= policy.resources.memory_mb
        &&& self.resources.gpu_count >= policy.resources.gpu_count
        &&& policy.resources.capabilities.subset_of(self.resources.capabilities)
    }

    /// Whether the worker meets the policy and has the capability of the task. A
    /// worker that advertises no capability has them all.
    pub open spec fn meets_for(self, capability: Seq<char>, policy: ExecutionPolicyView) -> bool {
        &&& self.meets(policy)
        &&& self.resources.capabilities == Set::<Seq<char>>::empty()
            || self.resources.capabilities.contains(capability)
    }
}

impl WorkerProfile {
    /// A worker anywhere, with nothing to advertise.
    pub fn new(id: impl IntoText) -> (made: Result<Self, IdentifierError>)
        ensures
            made is Ok <==> !text::blank(id.text_view()),
            made matches Ok(worker) ==> worker@ == WorkerProfileView::plain(id.text_view()),
            made matches Err(error) ==> error@ == "WorkerId"@,
    {
        match WorkerId::new(id) {
            Ok(id) => Ok(
                WorkerProfile {
                    id,
                    residency: Residency::Any,
                    resources: ResourceRequirements::default(),
                },
            ),
            Err(error) => Err(error),
        }
    }

    /// Returns whether this worker can satisfy a step's resource policy.
    #[must_use]
    pub fn supports(&self, policy: &ExecutionPolicy) -> (answer: bool)
        ensures
            answer == self@.meets(policy@),
    {
        policy.residency.allows(&self.residency) && self.resources.cpu_millis
            >= policy.resources.cpu_millis && self.resources.memory_mb
            >= policy.resources.memory_mb && self.resources.gpu_count
            >= policy.resources.gpu_count && policy.resources.capabilities.is_subset(
            &self.resources.capabilities,
        )
    }

    /// Returns whether this worker can run a concrete task as well as its
    /// step policy. An empty worker capability set means local/unrestricted.
    #[must_use]
    pub fn supports_task(&self, task: &TaskSpec, policy: &ExecutionPolicy) -> (answer: bool)
        ensures
            answer == self@.meets_for(task@.capability, policy@),
    {
        self.supports(policy) && (self.resources.capabilities.is_empty()
            || self.resources.capabilities.contains(&task.capability))
    }
}

impl Default for WorkerProfile {
    fn default() -> (worker: Self)
        ensures
            worker@ == WorkerProfileView::plain("local-worker"@),
    {
        WorkerProfile {
            id: WorkerId::local(),
            residency: Residency::Any,
            resources: ResourceRequirements::default(),
        }
    }
}

/// Per-step execution behavior. This is intentionally data-only so a workflow
/// can be persisted, reviewed, and replayed by another runtime.
#[derive(Debug, Eq)]
pub struct ExecutionPolicy {
    pub retry: RetryPolicy,
    pub timeout_ms: Option<u64>,
    pub fallback_task: Option<TaskId>,
    pub residency: Residency,
    pub resources: ResourceRequirements,
}

/// What a `ExecutionPolicy` holds.
#[verifier::ext_equal]
pub struct ExecutionPolicyView {
    pub retry: RetryPolicy,
    pub timeout_ms: Option<u64>,
    pub fallback_task: Option<Seq<char>>,
    pub residency: ResidencyView,
    pub resources: ResourceRequirementsView,
}

impl View for ExecutionPolicy {
    type V = ExecutionPolicyView;

    open spec fn view(&self) -> ExecutionPolicyView {
        ExecutionPolicyView {
            retry: self.retry,
            timeout_ms: self.timeout_ms,
            fallback_task: views::some_view(self.fallback_task),
            residency: self.residency@,
            resources: self.resources@,
        }
    }
}

impl Clone for ExecutionPolicy {
    fn clone(&self) -> (copy: Self)
        ensures
            copy@ == self@,
    {
        let copy = ExecutionPolicy {
            retry: self.retry,
            timeout_ms: self.timeout_ms,
            fallback_task: self.fallback_task.clone(),
            residency: self.residency.clone(),
            resources: self.resources.clone(),
        };
        copy
    }
}

impl Same for ExecutionPolicy {
    open spec fn same_spec(&self, other: &Self) -> bool {
        self@ == other@
    }

    fn same(&self, other: &Self) -> (answer: bool) {
        self.retry == other.retry
            && self.timeout_ms == other.timeout_ms
            && self.fallback_task.same(&other.fallback_task)
            && self.residency.same(&other.residency)
            && self.resources.same(&other.resources)
    }
}

impl PartialEq for ExecutionPolicy {
    fn eq(&self, other: &Self) -> (answer: bool) {
        self.same(other)
    }
}

impl vstd::std_specs::cmp::PartialEqSpecImpl for ExecutionPolicy {
    open spec fn obeys_eq_spec() -> bool {
        true
    }

    open spec fn eq_spec(&self, other: &Self) -> bool {
        self.same_spec(other)
    }
}


impl ExecutionPolicyView {
    /// Three attempts of thirty seconds, anywhere, with no fallback.
    pub open spec fn usual() -> ExecutionPolicyView {
        ExecutionPolicyView {
            retry: RetryPolicy {
                max_attempts: 3,
                delay: RetryDelay { initial_ms: 25, multiplier: 2, max_ms: 1_000 },
            },
            timeout_ms: Some(30_000),
            fallback_task: None,
            residency: ResidencyView::Any,
            resources: ResourceRequirementsView::none(),
        }
    }
}

impl Default for ExecutionPolicy {
    fn default() -> (policy: Self)
        ensures
            policy@ == ExecutionPolicyView::usual(),
    {
        ExecutionPolicy {
            retry: RetryPolicy::default(),
            timeout_ms: Some(30_000),
            fallback_task: None,
            residency: Residency::Any,
            resources: ResourceRequirements::default(),
        }
    }
}

} // verus!
