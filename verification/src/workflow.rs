//! Workflows: steps, what they wait for, and whether that can be put in order.
use crate::error::{IdentifierError, WorkflowError, WorkflowErrorView};
use crate::evaluation::{EvaluationGate, EvaluationGateView};
use crate::graph::{self, topological_order};
use crate::ids::{StepId, TaskId, WorkflowId};
use crate::ordered::OrderedMap;
use crate::policy::{ExecutionPolicy, ExecutionPolicyView};
use crate::text::{self, same_text, IntoText};
use crate::views::{self, Same};
use vstd::prelude::*;

verus! {

/// One executable step in a workflow graph.
#[derive(Debug, Eq)]
pub struct StepSpec {
    pub id: StepId,
    pub task: TaskId,
    pub depends_on: Vec<StepId>,
    pub policy: ExecutionPolicy,
}

/// What a `StepSpec` holds.
#[verifier::ext_equal]
pub struct StepSpecView {
    pub id: Seq<char>,
    pub task: Seq<char>,
    pub depends_on: Seq<Seq<char>>,
    pub policy: ExecutionPolicyView,
}

impl View for StepSpec {
    type V = StepSpecView;

    open spec fn view(&self) -> StepSpecView {
        StepSpecView {
            id: self.id@,
            task: self.task@,
            depends_on: views::all_views(self.depends_on@),
            policy: self.policy@,
        }
    }
}

impl Clone for StepSpec {
    fn clone(&self) -> (copy: Self)
        ensures
            copy@ == self@,
    {
        let copy = StepSpec {
            id: self.id.clone(),
            task: self.task.clone(),
            depends_on: self.depends_on.clone(),
            policy: self.policy.clone(),
        };
        proof {
            views::lemma_cloned_list(self.depends_on@, copy.depends_on@);
        }
        copy
    }
}

impl Same for StepSpec {
    open spec fn same_spec(&self, other: &Self) -> bool {
        self@ == other@
    }

    fn same(&self, other: &Self) -> (answer: bool) {
        proof {
            views::lemma_same_list(self.depends_on, other.depends_on);
        }
        self.id == other.id
            && self.task == other.task
            && self.depends_on.same(&other.depends_on)
            && self.policy.same(&other.policy)
    }
}

impl PartialEq for StepSpec {
    fn eq(&self, other: &Self) -> (answer: bool) {
        self.same(other)
    }
}

impl vstd::std_specs::cmp::PartialEqSpecImpl for StepSpec {
    open spec fn obeys_eq_spec() -> bool {
        true
    }

    open spec fn eq_spec(&self, other: &Self) -> bool {
        self.same_spec(other)
    }
}


impl StepSpec {
    /// A step of its own, with the usual policy.
    pub fn new(id: impl IntoText, task: impl IntoText) -> (made: Result<Self, IdentifierError>)
        ensures
            match made {
                Ok(step) => {
                    &&& !text::blank(id.text_view())
                    &&& !text::blank(task.text_view())
                    &&& step@ == (StepSpecView {
                        id: id.text_view(),
                        task: task.text_view(),
                        depends_on: Seq::empty(),
                        policy: ExecutionPolicyView::usual(),
                    })
                },
                Err(error) => if text::blank(id.text_view()) {
                    error@ == "StepId"@
                } else {
                    text::blank(task.text_view()) && error@ == "TaskId"@
                },
            },
    {
        let id = match StepId::new(id) {
            Ok(id) => id,
            Err(error) => {
                return Err(error);
            },
        };
        let task = match TaskId::new(task) {
            Ok(task) => task,
            Err(error) => {
                return Err(error);
            },
        };
        let depends_on: Vec<StepId> = Vec::new();
        assert(views::all_views(depends_on@) =~= Seq::<Seq<char>>::empty());
        Ok(StepSpec { id, task, depends_on, policy: ExecutionPolicy::default() })
    }

    /// Lets the step wait for one more step.
    pub fn depends_on(self, step: impl IntoText) -> (made: Result<Self, IdentifierError>)
        ensures
            made is Ok <==> !text::blank(step.text_view()),
            made matches Ok(waiting) ==> waiting@ == (StepSpecView {
                depends_on: self@.depends_on.push(step.text_view()),
                ..self@
            }),
            made matches Err(error) ==> error@ == "StepId"@,
    {
        let mut waiting = self;
        match StepId::new(step) {
            Ok(id) => {
                let ghost before = waiting.depends_on@;
                waiting.depends_on.push(id);
                assert(views::all_views(waiting.depends_on@) =~= views::all_views(before).push(
                    id@,
                ));
                Ok(waiting)
            },
            Err(error) => Err(error),
        }
    }
}

/// Gates compared one by one.
pub open spec fn gates_equal(a: Seq<EvaluationGateView>, b: Seq<EvaluationGateView>) -> bool {
    &&& a.len() == b.len()
    &&& forall|i: int| 0 <= i < a.len() ==> (#[trigger] a[i]).equals(b[i])
}

/// Compares gates one by one.
pub fn same_gates(a: &Vec<EvaluationGate>, b: &Vec<EvaluationGate>) -> (answer: bool)
    ensures
        answer == gates_equal(views::all_views(a@), views::all_views(b@)),
{
    proof {
        let (x, y) = (views::all_views(a@), views::all_views(b@));
        if a.same_spec(b) {
            assert forall|i: int| 0 <= i < x.len() implies (#[trigger] x[i]).equals(y[i]) by {
                assert(a@[i].same_spec(&b@[i]));
            }
        }
        if gates_equal(x, y) {
            assert forall|i: int| 0 <= i < a@.len() implies (#[trigger] a@[i]).same_spec(
                &b@[i],
            ) by {
                assert(x[i].equals(y[i]));
            }
        }
    }
    a.same(b)
}

/// A serializable workflow definition. Workflows are data, while task
/// implementations are registered capabilities supplied by the application.
#[derive(Debug)]
pub struct WorkflowSpec {
    pub id: WorkflowId,
    pub version: String,
    pub steps: Vec<StepSpec>,
    pub evaluation_gates: Vec<EvaluationGate>,
}

/// What a `WorkflowSpec` holds.
#[verifier::ext_equal]
pub struct WorkflowSpecView {
    pub id: Seq<char>,
    pub version: Seq<char>,
    pub steps: Seq<StepSpecView>,
    pub evaluation_gates: Seq<EvaluationGateView>,
}

impl View for WorkflowSpec {
    type V = WorkflowSpecView;

    open spec fn view(&self) -> WorkflowSpecView {
        WorkflowSpecView {
            id: self.id@,
            version: self.version@,
            steps: views::all_views(self.steps@),
            evaluation_gates: views::all_views(self.evaluation_gates@),
        }
    }
}

impl Clone for WorkflowSpec {
    fn clone(&self) -> (copy: Self)
        ensures
            copy@ == self@,
    {
        let copy = WorkflowSpec {
            id: self.id.clone(),
            version: self.version.clone(),
            steps: self.steps.clone(),
            evaluation_gates: self.evaluation_gates.clone(),
        };
        proof {
            views::lemma_cloned_list(self.steps@, copy.steps@);
            views::lemma_cloned_list(self.evaluation_gates@, copy.evaluation_gates@);
        }
        copy
    }
}


impl Same for WorkflowSpec {
    open spec fn same_spec(&self, other: &Self) -> bool {
        self@.equals(other@)
    }

    fn same(&self, other: &Self) -> (answer: bool) {
        proof {
            views::lemma_same_list(self.steps, other.steps);
        }
        self.id == other.id && same_text(self.version.as_str(), other.version.as_str())
            && self.steps.same(&other.steps) && same_gates(
            &self.evaluation_gates,
            &other.evaluation_gates,
        )
    }
}

impl PartialEq for WorkflowSpec {
    fn eq(&self, other: &Self) -> (answer: bool) {
        self.same(other)
    }
}

impl vstd::std_specs::cmp::PartialEqSpecImpl for WorkflowSpec {
    open spec fn obeys_eq_spec() -> bool {
        true
    }

    open spec fn eq_spec(&self, other: &Self) -> bool {
        self.same_spec(other)
    }
}

/// The first dependency in a list that is no step.
pub open spec fn first_unknown(ids: Seq<Seq<char>>, depends_on: Seq<Seq<char>>) -> Option<
    Seq<char>,
>
    decreases depends_on.len(),
{
    if depends_on.len() == 0 {
        None
    } else if !ids.contains(depends_on[0]) {
        Some(depends_on[0])
    } else {
        first_unknown(ids, depends_on.drop_first())
    }
}

/// The first step that waits for something that is no step, and what that is.
pub open spec fn first_unknown_dependency(
    ids: Seq<Seq<char>>,
    steps: Seq<StepSpecView>,
) -> Option<(Seq<char>, Seq<char>)>
    decreases steps.len(),
{
    if steps.len() == 0 {
        None
    } else {
        match first_unknown(ids, steps[0].depends_on) {
            Some(dependency) => Some((steps[0].id, dependency)),
            None => first_unknown_dependency(ids, steps.drop_first()),
        }
    }
}

impl WorkflowSpecView {
    /// The ids of the steps.
    pub open spec fn step_ids(self) -> Seq<Seq<char>> {
        self.steps.map_values(|step: StepSpecView| step.id)
    }

    /// Equality as workflows are compared: that of floating point on the gates.
    pub open spec fn equals(self, other: WorkflowSpecView) -> bool {
        &&& self.id == other.id
        &&& self.version == other.version
        &&& self.steps == other.steps
        &&& gates_equal(self.evaluation_gates, other.evaluation_gates)
    }

    /// The ranks are such that each step stands above all that it waits for.
    pub open spec fn ranked_by(self, rank: spec_fn(Seq<char>) -> nat) -> bool {
        forall|i: int, j: int|
            0 <= i < self.steps.len() && 0 <= j < self.steps[i].depends_on.len() ==> rank(
                #[trigger] self.steps[i].depends_on[j],
            ) < rank(self.steps[i].id)
    }

    /// No two steps share an id, and the steps can be ranked so that each stands
    /// above all that it waits for.
    pub open spec fn acyclic(self) -> bool {
        &&& self.step_ids().no_duplicates()
        &&& exists|rank: spec_fn(Seq<char>) -> nat| self.ranked_by(rank)
    }

    /// What is wrong with the workflow: that it has no steps, else the first
    /// dependency that is no step, else that the steps cannot be put in order.
    pub open spec fn flaw(self) -> Option<WorkflowErrorView> {
        if self.steps.len() == 0 {
            Some(WorkflowErrorView::Empty { workflow: self.id })
        } else {
            match first_unknown_dependency(self.step_ids(), self.steps) {
                Some((step, dependency)) => Some(
                    WorkflowErrorView::UnknownDependency { workflow: self.id, step, dependency },
                ),
                None => if self.acyclic() {
                    None
                } else {
                    Some(WorkflowErrorView::DependencyCycle { workflow: self.id })
                },
            }
        }
    }
}

impl WorkflowSpec {
    /// A workflow without steps.
    pub fn new(id: impl IntoText, version: impl IntoText) -> (made: Result<Self, IdentifierError>)
        ensures
            made is Ok <==> !text::blank(id.text_view()),
            made matches Ok(workflow) ==> workflow@ == (WorkflowSpecView {
                id: id.text_view(),
                version: version.text_view(),
                steps: Seq::empty(),
                evaluation_gates: Seq::empty(),
            }),
            made matches Err(error) ==> error@ == "WorkflowId"@,
    {
        match WorkflowId::new(id) {
            Ok(id) => {
                let steps: Vec<StepSpec> = Vec::new();
                let evaluation_gates: Vec<EvaluationGate> = Vec::new();
                assert(views::all_views(steps@) =~= Seq::<StepSpecView>::empty());
                assert(views::all_views(evaluation_gates@) =~= Seq::<EvaluationGateView>::empty());
                Ok(WorkflowSpec { id, version: version.into_text(), steps, evaluation_gates })
            },
            Err(error) => Err(error),
        }
    }

    /// Adds a gate that a run must pass.
    pub fn add_gate(&mut self, gate: EvaluationGate)
        ensures
            final(self)@ == (WorkflowSpecView {
                evaluation_gates: old(self)@.evaluation_gates.push(gate@),
                ..old(self)@
            }),
    {
        let ghost before = self.evaluation_gates@;
        self.evaluation_gates.push(gate);
        assert(views::all_views(self.evaluation_gates@) =~= views::all_views(before).push(gate@));
    }

    /// Adds a step, unless its id is taken.
    pub fn add_step(&mut self, step: StepSpec) -> (outcome: Result<(), WorkflowError>)
        ensures
            match outcome {
                Ok(()) => {
                    &&& !old(self)@.step_ids().contains(step@.id)
                    &&& final(self)@ == (WorkflowSpecView {
                        steps: old(self)@.steps.push(step@),
                        ..old(self)@
                    })
                },
                Err(error) => {
                    &&& old(self)@.step_ids().contains(step@.id)
                    &&& final(self)@ == old(self)@
                    &&& error@ == (WorkflowErrorView::DuplicateStep {
                        workflow: old(self)@.id,
                        step: step@.id,
                    })
                },
            },
    {
        let ghost ids = self@.step_ids();
        let mut i: usize = 0;
        while i < self.steps.len()
            invariant
                i <= self.steps.len(),
                ids == self@.step_ids(),
                *self == *old(self),
                forall|j: int| 0 <= j < i ==> #[trigger] ids[j] != step@.id,
            decreases self.steps.len() - i,
        {
            if self.steps[i].id == step.id {
                assert(ids[i as int] == step@.id);
                return Err(WorkflowError::DuplicateStep {
                    workflow: self.id.clone(),
                    step: step.id,
                });
            }
            assert(ids[i as int] == self.steps@[i as int]@.id);
            i += 1;
        }
        let ghost before = self.steps@;
        self.steps.push(step);
        assert(views::all_views(self.steps@) =~= views::all_views(before).push(step@));
        Ok(())
    }

    /// Finds the first dependency that is no step.
    fn find_unknown(&self, indices: &OrderedMap<StepId, usize>) -> (outcome: Result<
        (),
        WorkflowError,
    >)
        requires
            forall|id: Seq<char>| #[trigger] indices@.contains_key(id) <==> self@.step_ids().contains(
                id,
            ),
        ensures
            match outcome {
                Ok(()) => first_unknown_dependency(self@.step_ids(), self@.steps) is None,
                Err(error) => match first_unknown_dependency(self@.step_ids(), self@.steps) {
                    Some((step, dependency)) => error@ == (WorkflowErrorView::UnknownDependency {
                        workflow: self@.id,
                        step,
                        dependency,
                    }),
                    None => false,
                },
            },
    {
        let ghost ids = self@.step_ids();
        let ghost steps = self@.steps;
        let mut i: usize = 0;
        assert(steps.skip(0) =~= steps);
        while i < self.steps.len()
            invariant
                i <= self.steps.len(),
                ids == self@.step_ids(),
                steps == self@.steps,
                forall|id: Seq<char>| #[trigger] indices@.contains_key(id) <==> ids.contains(id),
                first_unknown_dependency(ids, steps) == first_unknown_dependency(
                    ids,
                    steps.skip(i as int),
                ),
            decreases self.steps.len() - i,
        {
            let ghost depends_on = steps[i as int].depends_on;
            let mut j: usize = 0;
            assert(steps.skip(i as int)[0] == steps[i as int]);
            assert(steps.skip(i as int).drop_first() =~= steps.skip(i + 1));
            assert(depends_on.skip(0) =~= depends_on);
            while j < self.steps[i].depends_on.len()
                invariant
                    i < self.steps.len(),
                    j <= self.steps@[i as int].depends_on@.len(),
                    ids == self@.step_ids(),
                    steps == self@.steps,
                    depends_on == steps[i as int].depends_on,
                    forall|id: Seq<char>| #[trigger]
                        indices@.contains_key(id) <==> ids.contains(id),
                    first_unknown_dependency(ids, steps) == first_unknown_dependency(
                        ids,
                        steps.skip(i as int),
                    ),
                    steps.skip(i as int)[0] == steps[i as int],
                    first_unknown(ids, depends_on) == first_unknown(ids, depends_on.skip(j as int)),
                decreases self.steps@[i as int].depends_on@.len() - j,
            {
                let dependency = &self.steps[i].depends_on[j];
                assert(depends_on.skip(j as int)[0] == dependency@);
                assert(depends_on.skip(j as int).drop_first() =~= depends_on.skip(j + 1));
                if !indices.contains_key(dependency) {
                    return Err(WorkflowError::UnknownDependency {
                        workflow: self.id.clone(),
                        step: self.steps[i].id.clone(),
                        dependency: dependency.clone(),
                    });
                }
                j += 1;
            }
            i += 1;
        }
        Ok(())
    }

    /// The workflow as a graph of positions.
    fn positions(&self, indices: &OrderedMap<StepId, usize>) -> (graph: Vec<Vec<usize>>)
        requires
            self@.step_ids().no_duplicates(),
            first_unknown_dependency(self@.step_ids(), self@.steps) is None,
            forall|id: Seq<char>| #[trigger] indices@.contains_key(id) <==> self@.step_ids().contains(
                id,
            ),
            forall|k: int|
                0 <= k < self.steps@.len() ==> indices@[#[trigger] self@.step_ids()[k]] == k,
        ensures
            graph@.len() == self.steps@.len(),
            graph::closed(graph::edges(graph@)),
            graph::orderable(graph::edges(graph@)) <==> self@.acyclic(),
    {
        let ghost ids = self@.step_ids();
        let ghost steps = self@.steps;
        proof {
            lemma_all_known(ids, steps);
        }
        let mut positions: Vec<Vec<usize>> = Vec::new();
        let mut i: usize = 0;
        while i < self.steps.len()
            invariant
                i <= self.steps.len(),
                positions@.len() == i,
                ids == self@.step_ids(),
                steps == self@.steps,
                forall|id: Seq<char>| #[trigger] indices@.contains_key(id) <==> ids.contains(id),
                forall|k: int| 0 <= k < self.steps@.len() ==> indices@[#[trigger] ids[k]] == k,
                forall|k: int, j: int|
                    0 <= k < steps.len() && 0 <= j < steps[k].depends_on.len() ==> ids.contains(
                        #[trigger] steps[k].depends_on[j],
                    ),
                forall|k: int|
                    0 <= k < i ==> (#[trigger] positions@[k])@.len() == steps[k].depends_on.len(),
                forall|k: int, j: int|
                    0 <= k < i && 0 <= j < steps[k].depends_on.len() ==> {
                        &&& (#[trigger] positions@[k]@[j]) < ids.len()
                        &&& ids[positions@[k]@[j] as int] == steps[k].depends_on[j]
                    },
            decreases self.steps.len() - i,
        {
            let mut list: Vec<usize> = Vec::new();
            let mut j: usize = 0;
            while j < self.steps[i].depends_on.len()
                invariant
                    i < self.steps.len(),
                    j <= self.steps@[i as int].depends_on@.len(),
                    list@.len() == j,
                    ids == self@.step_ids(),
                    steps == self@.steps,
                    forall|id: Seq<char>| #[trigger]
                        indices@.contains_key(id) <==> ids.contains(id),
                    forall|k: int| 0 <= k < self.steps@.len() ==> indices@[#[trigger] ids[k]] == k,
                    forall|k: int, j: int|
                        0 <= k < steps.len() && 0 <= j < steps[k].depends_on.len()
                            ==> ids.contains(#[trigger] steps[k].depends_on[j]),
                    forall|m: int|
                        0 <= m < j ==> {
                            &&& (#[trigger] list@[m]) < ids.len()
                            &&& ids[list@[m] as int] == steps[i as int].depends_on[m]
                        },
                decreases self.steps@[i as int].depends_on@.len() - j,
            {
                let dependency = &self.steps[i].depends_on[j];
                proof {
                    assert(dependency@ == steps[i as int].depends_on[j as int]);
                    assert(ids.contains(dependency@));
                    let k = choose|k: int| 0 <= k < ids.len() && ids[k] == dependency@;
                    assert(indices@[ids[k]] == k);
                }
                if let Some(position) = indices.get(dependency) {
                    list.push(*position);
                }
                j += 1;
            }
            positions.push(list);
            i += 1;
        }
        proof {
            let all = graph::edges(positions@);
            assert forall|k: int, j: int| 0 <= k < all.len() && 0 <= j < all[k].len() implies {
                &&& (#[trigger] all[k][j]) < all.len()
                &&& ids[all[k][j] as int] == steps[k].depends_on[j]
            } by {
                assert(all[k][j] == positions@[k]@[j]);
            }
            if graph::orderable(all) {
                let rank = choose|rank: spec_fn(int) -> nat| graph::ranked(all, rank);
                let by_id = |id: Seq<char>| rank(ids.index_of(id));
                assert forall|k: int, j: int|
                    0 <= k < steps.len() && 0 <= j < steps[k].depends_on.len() implies by_id(
                    #[trigger] steps[k].depends_on[j],
                ) < by_id(steps[k].id) by {
                    assert(all[k] == positions@[k]@);
                    assert(rank(all[k][j] as int) < rank(k));
                    assert(ids[k] == steps[k].id);
                    let d = all[k][j] as int;
                    assert(ids[d] == steps[k].depends_on[j]);
                    assert(ids.index_of(ids[d]) == d);
                    assert(ids.index_of(ids[k]) == k);
                }
                assert(self@.ranked_by(by_id));
            }
            if self@.acyclic() {
                let rank = choose|rank: spec_fn(Seq<char>) -> nat| self@.ranked_by(rank);
                let by_position = |k: int| rank(ids[k]);
                assert forall|k: int, j: int|
                    0 <= k < all.len() && 0 <= j < all[k].len() implies by_position(
                    #[trigger] all[k][j] as int,
                ) < by_position(k) by {
                    assert(all[k] == positions@[k]@);
                    assert(rank(steps[k].depends_on[j]) < rank(steps[k].id));
                    assert(ids[k] == steps[k].id);
                }
                assert(graph::ranked(all, by_position));
            }
        }
        positions
    }

    /// Checks that there are steps, that they wait for steps of the workflow
    /// only, and that they can be put in order.
    pub fn validate(&self) -> (outcome: Result<(), WorkflowError>)
        ensures
            match outcome {
                Ok(()) => self@.flaw() is None,
                Err(error) => self@.flaw() == Some(error@),
            },
    {
        if self.steps.len() == 0 {
            return Err(WorkflowError::Empty { workflow: self.id.clone() });
        }
        let ghost ids = self@.step_ids();
        let mut indices: OrderedMap<StepId, usize> = OrderedMap::new();
        let mut repeated = false;
        let mut i: usize = 0;
        while i < self.steps.len()
            invariant
                i <= self.steps.len(),
                ids == self@.step_ids(),
                forall|id: Seq<char>| #[trigger]
                    indices@.contains_key(id) <==> ids.take(i as int).contains(id),
                !repeated ==> ids.take(i as int).no_duplicates(),
                !repeated ==> forall|k: int| 0 <= k < i ==> indices@[#[trigger] ids[k]] == k,
                repeated ==> !ids.no_duplicates(),
            decreases self.steps.len() - i,
        {
            let before = indices.insert(self.steps[i].id.clone(), i);
            proof {
                let (old_ids, now) = (ids.take(i as int), ids.take(i + 1));
                assert(now =~= old_ids.push(ids[i as int]));
                assert(ids[i as int] == self.steps@[i as int]@.id);
                assert forall|id: Seq<char>| #[trigger]
                    indices@.contains_key(id) <==> now.contains(id) by {
                    if old_ids.contains(id) {
                        let k = choose|k: int| 0 <= k < old_ids.len() && old_ids[k] == id;
                        assert(now[k] == id);
                    }
                    if id == ids[i as int] {
                        assert(now[i as int] == id);
                    }
                }
                if before is Some {
                    assert(old_ids.contains(ids[i as int]));
                    let k = choose|k: int| 0 <= k < old_ids.len() && old_ids[k] == ids[i as int];
                    assert(ids[k] == ids[i as int]);
                } else {
                    assert forall|k: int| 0 <= k < i implies #[trigger] ids[k] != ids[i as int] by {
                        assert(old_ids[k] == ids[k]);
                        assert(old_ids.contains(ids[k]));
                    }
                }
            }
            if before.is_some() {
                repeated = true;
            }
            i += 1;
        }
        assert(ids.take(i as int) =~= ids);
        match self.find_unknown(&indices) {
            Ok(()) => {},
            Err(error) => {
                return Err(error);
            },
        }
        if repeated {
            return Err(WorkflowError::DependencyCycle { workflow: self.id.clone() });
        }
        let positions = self.positions(&indices);
        let order = topological_order(&positions);
        if order.len() != self.steps.len() {
            return Err(WorkflowError::DependencyCycle { workflow: self.id.clone() });
        }
        Ok(())
    }
}

proof fn lemma_none_unknown(ids: Seq<Seq<char>>, depends_on: Seq<Seq<char>>)
    requires
        first_unknown(ids, depends_on) is None,
    ensures
        forall|j: int| 0 <= j < depends_on.len() ==> ids.contains(#[trigger] depends_on[j]),
    decreases depends_on.len(),
{
    if depends_on.len() > 0 {
        lemma_none_unknown(ids, depends_on.drop_first());
        assert forall|j: int| 0 <= j < depends_on.len() implies ids.contains(
            #[trigger] depends_on[j],
        ) by {
            if j > 0 {
                assert(depends_on.drop_first()[j - 1] == depends_on[j]);
            }
        }
    }
}

/// Where no unknown dependency is found, every dependency is a step.
pub proof fn lemma_all_known(ids: Seq<Seq<char>>, steps: Seq<StepSpecView>)
    requires
        first_unknown_dependency(ids, steps) is None,
    ensures
        forall|i: int, j: int|
            0 <= i < steps.len() && 0 <= j < steps[i].depends_on.len() ==> ids.contains(
                #[trigger] steps[i].depends_on[j],
            ),
    decreases steps.len(),
{
    if steps.len() > 0 {
        lemma_none_unknown(ids, steps[0].depends_on);
        lemma_all_known(ids, steps.drop_first());
        assert forall|i: int, j: int|
            0 <= i < steps.len() && 0 <= j < steps[i].depends_on.len() implies ids.contains(
            #[trigger] steps[i].depends_on[j],
        ) by {
            if i > 0 {
                assert(steps.drop_first()[i - 1] == steps[i]);
                assert(steps.drop_first()[i - 1].depends_on[j] == steps[i].depends_on[j]);
            }
        }
    }
}

} // verus!
