//! What a record must look like to be kept, and a request to be accepted.
use crate::error::{RepositoryError, RepositoryErrorView};
use crate::manifest::SCHEMA_VERSION;
use crate::ordered;
use crate::record::{EventEnvelopeView, RunRecord, RunRecordView, RunRequest, RunRequestView};
use crate::task::TaskSpecView;
use crate::text::{self, decimal_text, same_text};
use crate::views::{self, Same};
use crate::workflow::StepSpecView;
use vstd::prelude::*;
use vstd::string::*;

verus! {

/// The first schema version in a log that is not the one in use.
pub open spec fn first_foreign_version(log: Seq<EventEnvelopeView>) -> Option<u32>
    decreases log.len(),
{
    if log.len() == 0 {
        None
    } else if log[0].schema_version != SCHEMA_VERSION {
        Some(log[0].schema_version)
    } else {
        first_foreign_version(log.drop_first())
    }
}

/// What is said of a part of a record that has another schema version.
pub open spec fn version_text(part: Seq<char>, version: u32) -> Seq<char> {
    "unsupported "@ + part + " schema version "@ + text::decimal(version as nat) + "; expected "@
        + text::decimal(SCHEMA_VERSION as nat)
}

impl RunRecordView {
    /// What is wrong with the schema versions of a record: that of the run, else
    /// that of its manifest, else the first of its log.
    pub open spec fn schema_flaw(self) -> Option<Seq<char>> {
        if self.schema_version != SCHEMA_VERSION {
            Some(version_text("run"@, self.schema_version))
        } else if self.manifest.schema_version != SCHEMA_VERSION {
            Some(version_text("manifest"@, self.manifest.schema_version))
        } else {
            match first_foreign_version(self.event_log) {
                Some(version) => Some(version_text("event"@, version)),
                None => None,
            }
        }
    }
}

fn unsupported_version(part: &str, version: u32) -> (words: String)
    ensures
        words@ == version_text(part@, version),
{
    let mut words = "unsupported ".to_owned();
    words.append(part);
    words.append(" schema version ");
    words.append(decimal_text(version as u64).as_str());
    words.append("; expected ");
    words.append(decimal_text(SCHEMA_VERSION as u64).as_str());
    words
}

/// Checks that a record has the schema version in use, throughout.
pub fn validate_run_record_schema(run: &RunRecord) -> (outcome: Result<(), String>)
    ensures
        match outcome {
            Ok(()) => run@.schema_flaw() is None,
            Err(message) => run@.schema_flaw() == Some(message@),
        },
{
    if run.schema_version != SCHEMA_VERSION {
        return Err(unsupported_version("run", run.schema_version));
    }
    if run.manifest.schema_version != SCHEMA_VERSION {
        return Err(unsupported_version("manifest", run.manifest.schema_version));
    }
    let ghost log = run@.event_log;
    let mut i: usize = 0;
    assert(log.skip(0) =~= log);
    while i < run.event_log.len()
        invariant
            i <= run.event_log.len(),
            log == run@.event_log,
            run.schema_version == SCHEMA_VERSION,
            run.manifest.schema_version == SCHEMA_VERSION,
            first_foreign_version(log) == first_foreign_version(log.skip(i as int)),
        decreases run.event_log.len() - i,
    {
        assert(log.skip(i as int)[0] == run.event_log@[i as int]@);
        assert(log.skip(i as int).drop_first() =~= log.skip(i + 1));
        if run.event_log[i].schema_version != SCHEMA_VERSION {
            return Err(unsupported_version("event", run.event_log[i].schema_version));
        }
        i += 1;
    }
    Ok(())
}

/// The first key of a list under which a task of another id is kept.
pub open spec fn first_misfiled(
    keys: Seq<Seq<char>>,
    tasks: Map<Seq<char>,
    TaskSpecView>,
) -> Option<
    Seq<char>,
>
    decreases keys.len(),
{
    if keys.len() == 0 {
        None
    } else if tasks[keys[0]].id != keys[0] {
        Some(keys[0])
    } else {
        first_misfiled(keys.drop_first(), tasks)
    }
}

/// Whether the tasks that a step may run are all there.
pub open spec fn has_tasks_for(tasks: Map<Seq<char>, TaskSpecView>, step: StepSpecView) -> bool {
    &&& tasks.contains_key(step.task)
    &&& step.policy.fallback_task is Some ==> tasks.contains_key(step.policy.fallback_task->0)
}

/// The first step that may run a task which is not there.
pub open spec fn first_without_task(
    steps: Seq<StepSpecView>,
    tasks: Map<Seq<char>, TaskSpecView>,
) -> Option<Seq<char>>
    decreases steps.len(),
{
    if steps.len() == 0 {
        None
    } else if !has_tasks_for(tasks, steps[0]) {
        Some(steps[0].id)
    } else {
        first_without_task(steps.drop_first(), tasks)
    }
}

impl RunRequestView {
    /// Why a request cannot be accepted, in words: its workflow has a flaw; its
    /// manifest has another schema version, is of another workflow, keeps a task
    /// under a key that is not its id, or lacks a task of a step.
    pub open spec fn objection(self) -> Option<Seq<char>> {
        match self.workflow.flaw() {
            Some(error) => Some(error.text()),
            None => if self.manifest.schema_version != SCHEMA_VERSION {
                Some(
                    "unsupported manifest schema version "@ + text::decimal(
                        self.manifest.schema_version as nat,
                    ),
                )
            } else if self.workflow.id != self.manifest.workflow_id || self.workflow.version
                != self.manifest.workflow_version {
                Some("workflow and manifest identities do not match"@)
            } else {
                match first_misfiled(
                    ordered::ascending(self.manifest.tasks.dom()),
                    self.manifest.tasks,
                ) {
                    Some(key) => Some(
                        "manifest task key "@ + key + " does not match task id "@
                            + self.manifest.tasks[key].id,
                    ),
                    None => match first_without_task(self.workflow.steps, self.manifest.tasks) {
                        Some(step) => Some(
                            "manifest does not contain all tasks for step "@ + step,
                        ),
                        None => None,
                    },
                }
            },
        }
    }

    /// The error that a request is refused with.
    pub open spec fn refusal(self) -> Option<RepositoryErrorView> {
        match self.objection() {
            Some(message) => Some(RepositoryErrorView::InvalidRequest { message }),
            None => None,
        }
    }
}

fn find_misfiled(request: &RunRequest) -> (found: Option<String>)
    ensures
        match (
            found,
            first_misfiled(
                ordered::ascending(request@.manifest.tasks.dom()),
                request@.manifest.tasks,
            ),
        ) {
            (Some(words), Some(key)) => words@ == "manifest task key "@ + key
                + " does not match task id "@ + request@.manifest.tasks[key].id,
            (None, None) => true,
            _ => false,
        },
{
    let tasks = &request.manifest.tasks;
    let count = tasks.len();
    let ghost all = request@.manifest.tasks;
    let ghost keys = ordered::ascending(all.dom());
    let mut i: usize = 0;
    assert(all.dom() =~= tasks@.dom());
    assert(keys.skip(0) =~= keys);
    while i < count
        invariant
            i <= count,
            all == views::map_views(tasks@),
            all.dom() == tasks@.dom(),
            keys == ordered::ascending(all.dom()),
            count == keys.len(),
            count == tasks@.len(),
            keys.to_set() == all.dom(),
            first_misfiled(keys, all) == first_misfiled(keys.skip(i as int), all),
            tasks == &request.manifest.tasks,
        decreases count - i,
    {
        let key = tasks.key_at(i);
        let task = tasks.value_at(i);
        proof {
            assert(keys.skip(i as int)[0] == keys[i as int]);
            assert(keys.skip(i as int).drop_first() =~= keys.skip(i + 1));
            assert(keys.contains(keys[i as int]));
            assert(all.dom().contains(keys[i as int]));
        }
        if !key.same(&task.id) {
            let mut words = "manifest task key ".to_owned();
            words.append(key.as_str());
            words.append(" does not match task id ");
            words.append(task.id.as_str());
            return Some(words);
        }
        i += 1;
    }
    None
}

fn find_without_task(request: &RunRequest) -> (found: Option<String>)
    ensures
        match (found, first_without_task(request@.workflow.steps, request@.manifest.tasks)) {
            (Some(words), Some(step)) => words@ == "manifest does not contain all tasks for step "@
                + step,
            (None, None) => true,
            _ => false,
        },
{
    let ghost steps = request@.workflow.steps;
    let ghost tasks = request@.manifest.tasks;
    let mut i: usize = 0;
    assert(steps.skip(0) =~= steps);
    while i < request.workflow.steps.len()
        invariant
            i <= request.workflow.steps.len(),
            steps == request@.workflow.steps,
            tasks == request@.manifest.tasks,
            first_without_task(steps, tasks) == first_without_task(steps.skip(i as int), tasks),
        decreases request.workflow.steps.len() - i,
    {
        let step = &request.workflow.steps[i];
        assert(steps.skip(i as int)[0] == step@);
        assert(steps.skip(i as int).drop_first() =~= steps.skip(i + 1));
        let has_fallback = match &step.policy.fallback_task {
            Some(task) => request.manifest.tasks.contains_key(task),
            None => true,
        };
        if !request.manifest.tasks.contains_key(&step.task) || !has_fallback {
            let mut words = "manifest does not contain all tasks for step ".to_owned();
            words.append(step.id.as_str());
            return Some(words);
        }
        i += 1;
    }
    None
}

/// Checks that a request can be accepted.
pub fn validate_run_request(request: &RunRequest) -> (outcome: Result<(), RepositoryError>)
    ensures
        match outcome {
            Ok(()) => request@.refusal() is None,
            Err(error) => request@.refusal() == Some(error@),
        },
{
    match request.workflow.validate() {
        Ok(()) => {},
        Err(error) => {
            return Err(RepositoryError::InvalidRequest { message: error.message() });
        },
    }
    if request.manifest.schema_version != SCHEMA_VERSION {
        let mut message = "unsupported manifest schema version ".to_owned();
        message.append(decimal_text(request.manifest.schema_version as u64).as_str());
        return Err(RepositoryError::InvalidRequest { message });
    }
    if !request.workflow.id.same(&request.manifest.workflow_id) || !same_text(
        request.workflow.version.as_str(),
        request.manifest.workflow_version.as_str(),
    ) {
        return Err(
            RepositoryError::InvalidRequest {
                message: "workflow and manifest identities do not match".to_owned(),
            },
        );
    }
    match find_misfiled(request) {
        Some(message) => {
            return Err(RepositoryError::InvalidRequest { message });
        },
        None => {},
    }
    match find_without_task(request) {
        Some(message) => Err(RepositoryError::InvalidRequest { message }),
        None => Ok(()),
    }
}

} // verus!
