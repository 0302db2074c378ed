//! The manifest of a run: what it was started with, for the record.
use crate::evaluation::{EvaluationGate, EvaluationGateView};
use crate::ids::{TaskId, WorkflowId};
use crate::ordered::OrderedMap;
use crate::task::{TaskSpec, TaskSpecView};
use crate::text::{same_text, IntoText};
use crate::views::{self, Same};
use crate::workflow::{self, same_gates};
use vstd::prelude::*;

verus! {

/// The version of the records that this library writes and reads.
pub const SCHEMA_VERSION: u32 = 1;

/// Reproducibility and audit information supplied by the application.
#[derive(Debug)]
pub struct RunProvenance {
    pub model: Option<String>,
    pub prompt: Option<String>,
    pub dataset: Option<String>,
    pub input_hash: Option<String>,
    pub calibration: Option<String>,
    pub code_revision: Option<String>,
    pub environment: OrderedMap<String, String>,
}

/// What a `RunProvenance` holds.
#[verifier::ext_equal]
pub struct RunProvenanceView {
    pub model: Option<Seq<char>>,
    pub prompt: Option<Seq<char>>,
    pub dataset: Option<Seq<char>>,
    pub input_hash: Option<Seq<char>>,
    pub calibration: Option<Seq<char>>,
    pub code_revision: Option<Seq<char>>,
    pub environment: Map<Seq<char>, Seq<char>>,
}

impl View for RunProvenance {
    type V = RunProvenanceView;

    open spec fn view(&self) -> RunProvenanceView {
        RunProvenanceView {
            model: views::some_view(self.model),
            prompt: views::some_view(self.prompt),
            dataset: views::some_view(self.dataset),
            input_hash: views::some_view(self.input_hash),
            calibration: views::some_view(self.calibration),
            code_revision: views::some_view(self.code_revision),
            environment: views::map_views(self.environment@),
        }
    }
}

impl Clone for RunProvenance {
    fn clone(&self) -> (copy: Self)
        ensures
            copy@ == self@,
    {
        let copy = RunProvenance {
            model: self.model.clone(),
            prompt: self.prompt.clone(),
            dataset: self.dataset.clone(),
            input_hash: self.input_hash.clone(),
            calibration: self.calibration.clone(),
            code_revision: self.code_revision.clone(),
            environment: self.environment.clone(),
        };
        proof {
            views::lemma_cloned_map(self.environment@, copy.environment@);
        }
        copy
    }
}

impl Same for RunProvenance {
    open spec fn same_spec(&self, other: &Self) -> bool {
        self@ == other@
    }

    fn same(&self, other: &Self) -> (answer: bool) {
        proof {
            views::lemma_same_map(self.environment, other.environment);
        }
        self.model.same(&other.model)
            && self.prompt.same(&other.prompt)
            && self.dataset.same(&other.dataset)
            && self.input_hash.same(&other.input_hash)
            && self.calibration.same(&other.calibration)
            && self.code_revision.same(&other.code_revision)
            && self.environment.same(&other.environment)
    }
}

impl PartialEq for RunProvenance {
    fn eq(&self, other: &Self) -> (answer: bool) {
        self.same(other)
    }
}

impl vstd::std_specs::cmp::PartialEqSpecImpl for RunProvenance {
    open spec fn obeys_eq_spec() -> bool {
        true
    }

    open spec fn eq_spec(&self, other: &Self) -> bool {
        self.same_spec(other)
    }
}


impl RunProvenanceView {
    /// Nothing is known of where the run comes from.
    pub open spec fn none() -> RunProvenanceView {
        RunProvenanceView {
            model: None,
            prompt: None,
            dataset: None,
            input_hash: None,
            calibration: None,
            code_revision: None,
            environment: Map::empty(),
        }
    }
}

impl Default for RunProvenance {
    fn default() -> (provenance: Self)
        ensures
            provenance@ == RunProvenanceView::none(),
    {
        let environment: OrderedMap<String, String> = OrderedMap::new();
        assert(views::map_views(environment@) =~= Map::<Seq<char>, Seq<char>>::empty());
        RunProvenance {
            model: None,
            prompt: None,
            dataset: None,
            input_hash: None,
            calibration: None,
            code_revision: None,
            environment,
        }
    }
}

/// Provenance captured when a workflow starts. Task metadata is intentionally
/// generic: applications can record model, prompt, dataset, code revision, or
/// residency information without making those concepts framework dependencies.
#[derive(Debug)]
pub struct RunManifest {
    pub schema_version: u32,
    pub workflow_id: WorkflowId,
    pub workflow_version: String,
    pub tasks: OrderedMap<TaskId, TaskSpec>,
    pub evaluation_gates: Vec<EvaluationGate>,
    pub provenance: RunProvenance,
    pub metadata: OrderedMap<String, String>,
}

/// What a `RunManifest` holds.
#[verifier::ext_equal]
pub struct RunManifestView {
    pub schema_version: u32,
    pub workflow_id: Seq<char>,
    pub workflow_version: Seq<char>,
    pub tasks: Map<Seq<char>, TaskSpecView>,
    pub evaluation_gates: Seq<EvaluationGateView>,
    pub provenance: RunProvenanceView,
    pub metadata: Map<Seq<char>, Seq<char>>,
}

impl View for RunManifest {
    type V = RunManifestView;

    open spec fn view(&self) -> RunManifestView {
        RunManifestView {
            schema_version: self.schema_version,
            workflow_id: self.workflow_id@,
            workflow_version: self.workflow_version@,
            tasks: views::map_views(self.tasks@),
            evaluation_gates: views::all_views(self.evaluation_gates@),
            provenance: self.provenance@,
            metadata: views::map_views(self.metadata@),
        }
    }
}

impl Clone for RunManifest {
    fn clone(&self) -> (copy: Self)
        ensures
            copy@ == self@,
    {
        let copy = RunManifest {
            schema_version: self.schema_version,
            workflow_id: self.workflow_id.clone(),
            workflow_version: self.workflow_version.clone(),
            tasks: self.tasks.clone(),
            evaluation_gates: self.evaluation_gates.clone(),
            provenance: self.provenance.clone(),
            metadata: self.metadata.clone(),
        };
        proof {
            views::lemma_cloned_map(self.tasks@, copy.tasks@);
            views::lemma_cloned_list(self.evaluation_gates@, copy.evaluation_gates@);
            views::lemma_cloned_map(self.metadata@, copy.metadata@);
        }
        copy
    }
}


impl RunManifestView {
    /// A manifest without gates, provenance or metadata.
    pub open spec fn plain(
        workflow_id: Seq<char>,
        workflow_version: Seq<char>,
        tasks: Map<Seq<char>, TaskSpecView>,
    ) -> RunManifestView {
        RunManifestView {
            schema_version: SCHEMA_VERSION,
            workflow_id,
            workflow_version,
            tasks,
            evaluation_gates: Seq::empty(),
            provenance: RunProvenanceView::none(),
            metadata: Map::empty(),
        }
    }

    /// Equality as manifests are compared: that of floating point on the gates.
    pub open spec fn equals(self, other: RunManifestView) -> bool {
        &&& self.schema_version == other.schema_version
        &&& self.workflow_id == other.workflow_id
        &&& self.workflow_version == other.workflow_version
        &&& self.tasks == other.tasks
        &&& workflow::gates_equal(self.evaluation_gates, other.evaluation_gates)
        &&& self.provenance == other.provenance
        &&& self.metadata == other.metadata
    }
}

impl Same for RunManifest {
    open spec fn same_spec(&self, other: &Self) -> bool {
        self@.equals(other@)
    }

    fn same(&self, other: &Self) -> (answer: bool) {
        proof {
            views::lemma_same_map(self.tasks, other.tasks);
            views::lemma_same_map(self.metadata, other.metadata);
        }
        self.schema_version == other.schema_version && self.workflow_id == other.workflow_id
            && same_text(self.workflow_version.as_str(), other.workflow_version.as_str())
            && self.tasks.same(&other.tasks) && same_gates(
            &self.evaluation_gates,
            &other.evaluation_gates,
        ) && self.provenance.same(&other.provenance) && self.metadata.same(&other.metadata)
    }
}

impl PartialEq for RunManifest {
    fn eq(&self, other: &Self) -> (answer: bool) {
        self.same(other)
    }
}

impl vstd::std_specs::cmp::PartialEqSpecImpl for RunManifest {
    open spec fn obeys_eq_spec() -> bool {
        true
    }

    open spec fn eq_spec(&self, other: &Self) -> bool {
        self.same_spec(other)
    }
}

impl RunManifest {
    /// A manifest without gates, provenance or metadata.
    pub fn new(
        workflow_id: WorkflowId,
        workflow_version: impl IntoText,
        tasks: OrderedMap<TaskId, TaskSpec>,
    ) -> (manifest: Self)
        ensures
            manifest@ == RunManifestView::plain(
                workflow_id@,
                workflow_version.text_view(),
                views::map_views(tasks@),
            ),
    {
        let evaluation_gates: Vec<EvaluationGate> = Vec::new();
        let metadata: OrderedMap<String, String> = OrderedMap::new();
        assert(views::all_views(evaluation_gates@) =~= Seq::<EvaluationGateView>::empty());
        assert(views::map_views(metadata@) =~= Map::<Seq<char>, Seq<char>>::empty());
        RunManifest {
            schema_version: SCHEMA_VERSION,
            workflow_id,
            workflow_version: workflow_version.into_text(),
            tasks,
            evaluation_gates,
            provenance: RunProvenance::default(),
            metadata,
        }
    }

    /// The manifest with the given gates.
    #[must_use]
    pub fn with_evaluation_gates(self, gates: Vec<EvaluationGate>) -> (manifest: Self)
        ensures
            manifest@ == (RunManifestView {
                evaluation_gates: views::all_views(gates@),
                ..self@
            }),
    {
        let mut manifest = self;
        manifest.evaluation_gates = gates;
        manifest
    }

    /// The manifest with the given provenance.
    #[must_use]
    pub fn with_provenance(self, provenance: RunProvenance) -> (manifest: Self)
        ensures
            manifest@ == (RunManifestView { provenance: provenance@, ..self@ }),
    {
        let mut manifest = self;
        manifest.provenance = provenance;
        manifest
    }
}

} // verus!
