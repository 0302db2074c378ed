//! Identifiers: text that is never blank, with a type for each thing named.
use crate::error::IdentifierError;
use crate::text::{self, decimal_text, is_blank, join3, same_text, IntoText};
use crate::views::Same;
use vstd::prelude::*;
use vstd::string::*;

verus! {

/// Something that is known by a piece of text.
pub trait Name: View<V = Seq<char>> + Sized {
    /// The text it is known by.
    fn name(&self) -> (text: &str)
        ensures
            text@ == self@,
    ;
}

impl Name for String {
    fn name(&self) -> (text: &str) {
        self.as_str()
    }
}

/// Names one run.
#[derive(Debug, Eq, Hash, PartialOrd, Ord)]
pub struct RunId {
    text: String,
}

impl View for RunId {
    type V = Seq<char>;

    closed spec fn view(&self) -> Seq<char> {
        self.text@
    }
}

impl RunId {
    #[verifier::type_invariant]
    spec fn inv(self) -> bool {
        !text::blank(self.text@)
    }

    /// Creates an identifier after rejecting empty or whitespace-only values.
    pub fn new(value: impl IntoText) -> (made: Result<Self, IdentifierError>)
        ensures
            made is Ok <==> !text::blank(value.text_view()),
            made matches Ok(id) ==> id@ == value.text_view(),
            made matches Err(error) ==> error.kind@ == "RunId"@,
    {
        let text = value.into_text();
        if is_blank(text.as_str()) {
            return Err(IdentifierError { kind: "RunId" });
        }
        Ok(RunId { text })
    }

    /// Returns the identifier as a string slice.
    #[must_use]
    pub fn as_str(&self) -> (text: &str)
        ensures
            text@ == self@,
            !text::blank(text@),
    {
        proof {
            use_type_invariant(self);
        }
        self.text.as_str()
    }
}

impl Name for RunId {
    fn name(&self) -> (text: &str) {
        self.text.as_str()
    }
}

impl Clone for RunId {
    fn clone(&self) -> (copy: Self)
        ensures
            copy@ == self@,
    {
        proof {
            use_type_invariant(self);
        }
        RunId { text: self.text.clone() }
    }
}

impl Same for RunId {
    open spec fn same_spec(&self, other: &Self) -> bool {
        self@ == other@
    }

    fn same(&self, other: &Self) -> (answer: bool) {
        same_text(self.text.as_str(), other.text.as_str())
    }
}

impl PartialEq for RunId {
    fn eq(&self, other: &Self) -> (same: bool) {
        same_text(self.text.as_str(), other.text.as_str())
    }
}

impl vstd::std_specs::cmp::PartialEqSpecImpl for RunId {
    open spec fn obeys_eq_spec() -> bool {
        true
    }

    open spec fn eq_spec(&self, other: &Self) -> bool {
        self@ == other@
    }
}

impl<'a> TryFrom<&'a str> for RunId {
    type Error = IdentifierError;

    fn try_from(value: &'a str) -> (made: Result<Self, IdentifierError>)
        ensures
            made is Ok <==> !text::blank(value@),
            made matches Ok(id) ==> id@ == value@,
            made matches Err(error) ==> error.kind@ == "RunId"@,
    {
        RunId::new(value)
    }
}

impl<'a> vstd::std_specs::convert::TryFromSpecImpl<&'a str> for RunId {
    open spec fn obeys_try_from_spec() -> bool {
        false
    }

    open spec fn try_from_spec(value: &'a str) -> Result<Self, IdentifierError> {
        arbitrary()
    }
}

impl From<RunId> for String {
    fn from(value: RunId) -> (text: String)
        ensures
            text@ == value@,
    {
        value.text
    }
}

impl vstd::std_specs::convert::FromSpecImpl<RunId> for String {
    open spec fn obeys_from_spec() -> bool {
        false
    }

    open spec fn from_spec(value: RunId) -> String {
        arbitrary()
    }
}

/// Names one step of a workflow.
#[derive(Debug, Eq, Hash, PartialOrd, Ord)]
pub struct StepId {
    text: String,
}

impl View for StepId {
    type V = Seq<char>;

    closed spec fn view(&self) -> Seq<char> {
        self.text@
    }
}

impl StepId {
    #[verifier::type_invariant]
    spec fn inv(self) -> bool {
        !text::blank(self.text@)
    }

    /// Creates an identifier after rejecting empty or whitespace-only values.
    pub fn new(value: impl IntoText) -> (made: Result<Self, IdentifierError>)
        ensures
            made is Ok <==> !text::blank(value.text_view()),
            made matches Ok(id) ==> id@ == value.text_view(),
            made matches Err(error) ==> error.kind@ == "StepId"@,
    {
        let text = value.into_text();
        if is_blank(text.as_str()) {
            return Err(IdentifierError { kind: "StepId" });
        }
        Ok(StepId { text })
    }

    /// Returns the identifier as a string slice.
    #[must_use]
    pub fn as_str(&self) -> (text: &str)
        ensures
            text@ == self@,
            !text::blank(text@),
    {
        proof {
            use_type_invariant(self);
        }
        self.text.as_str()
    }
}

impl Name for StepId {
    fn name(&self) -> (text: &str) {
        self.text.as_str()
    }
}

impl Clone for StepId {
    fn clone(&self) -> (copy: Self)
        ensures
            copy@ == self@,
    {
        proof {
            use_type_invariant(self);
        }
        StepId { text: self.text.clone() }
    }
}

impl Same for StepId {
    open spec fn same_spec(&self, other: &Self) -> bool {
        self@ == other@
    }

    fn same(&self, other: &Self) -> (answer: bool) {
        same_text(self.text.as_str(), other.text.as_str())
    }
}

impl PartialEq for StepId {
    fn eq(&self, other: &Self) -> (same: bool) {
        same_text(self.text.as_str(), other.text.as_str())
    }
}

impl vstd::std_specs::cmp::PartialEqSpecImpl for StepId {
    open spec fn obeys_eq_spec() -> bool {
        true
    }

    open spec fn eq_spec(&self, other: &Self) -> bool {
        self@ == other@
    }
}

impl<'a> TryFrom<&'a str> for StepId {
    type Error = IdentifierError;

    fn try_from(value: &'a str) -> (made: Result<Self, IdentifierError>)
        ensures
            made is Ok <==> !text::blank(value@),
            made matches Ok(id) ==> id@ == value@,
            made matches Err(error) ==> error.kind@ == "StepId"@,
    {
        StepId::new(value)
    }
}

impl<'a> vstd::std_specs::convert::TryFromSpecImpl<&'a str> for StepId {
    open spec fn obeys_try_from_spec() -> bool {
        false
    }

    open spec fn try_from_spec(value: &'a str) -> Result<Self, IdentifierError> {
        arbitrary()
    }
}

impl From<StepId> for String {
    fn from(value: StepId) -> (text: String)
        ensures
            text@ == value@,
    {
        value.text
    }
}

impl vstd::std_specs::convert::FromSpecImpl<StepId> for String {
    open spec fn obeys_from_spec() -> bool {
        false
    }

    open spec fn from_spec(value: StepId) -> String {
        arbitrary()
    }
}

/// Names one task.
#[derive(Debug, Eq, Hash, PartialOrd, Ord)]
pub struct TaskId {
    text: String,
}

impl View for TaskId {
    type V = Seq<char>;

    closed spec fn view(&self) -> Seq<char> {
        self.text@
    }
}

impl TaskId {
    #[verifier::type_invariant]
    spec fn inv(self) -> bool {
        !text::blank(self.text@)
    }

    /// Creates an identifier after rejecting empty or whitespace-only values.
    pub fn new(value: impl IntoText) -> (made: Result<Self, IdentifierError>)
        ensures
            made is Ok <==> !text::blank(value.text_view()),
            made matches Ok(id) ==> id@ == value.text_view(),
            made matches Err(error) ==> error.kind@ == "TaskId"@,
    {
        let text = value.into_text();
        if is_blank(text.as_str()) {
            return Err(IdentifierError { kind: "TaskId" });
        }
        Ok(TaskId { text })
    }

    /// Returns the identifier as a string slice.
    #[must_use]
    pub fn as_str(&self) -> (text: &str)
        ensures
            text@ == self@,
            !text::blank(text@),
    {
        proof {
            use_type_invariant(self);
        }
        self.text.as_str()
    }
}

impl Name for TaskId {
    fn name(&self) -> (text: &str) {
        self.text.as_str()
    }
}

impl Clone for TaskId {
    fn clone(&self) -> (copy: Self)
        ensures
            copy@ == self@,
    {
        proof {
            use_type_invariant(self);
        }
        TaskId { text: self.text.clone() }
    }
}

impl Same for TaskId {
    open spec fn same_spec(&self, other: &Self) -> bool {
        self@ == other@
    }

    fn same(&self, other: &Self) -> (answer: bool) {
        same_text(self.text.as_str(), other.text.as_str())
    }
}

impl PartialEq for TaskId {
    fn eq(&self, other: &Self) -> (same: bool) {
        same_text(self.text.as_str(), other.text.as_str())
    }
}

impl vstd::std_specs::cmp::PartialEqSpecImpl for TaskId {
    open spec fn obeys_eq_spec() -> bool {
        true
    }

    open spec fn eq_spec(&self, other: &Self) -> bool {
        self@ == other@
    }
}

impl<'a> TryFrom<&'a str> for TaskId {
    type Error = IdentifierError;

    fn try_from(value: &'a str) -> (made: Result<Self, IdentifierError>)
        ensures
            made is Ok <==> !text::blank(value@),
            made matches Ok(id) ==> id@ == value@,
            made matches Err(error) ==> error.kind@ == "TaskId"@,
    {
        TaskId::new(value)
    }
}

impl<'a> vstd::std_specs::convert::TryFromSpecImpl<&'a str> for TaskId {
    open spec fn obeys_try_from_spec() -> bool {
        false
    }

    open spec fn try_from_spec(value: &'a str) -> Result<Self, IdentifierError> {
        arbitrary()
    }
}

impl From<TaskId> for String {
    fn from(value: TaskId) -> (text: String)
        ensures
            text@ == value@,
    {
        value.text
    }
}

impl vstd::std_specs::convert::FromSpecImpl<TaskId> for String {
    open spec fn obeys_from_spec() -> bool {
        false
    }

    open spec fn from_spec(value: TaskId) -> String {
        arbitrary()
    }
}

/// Names one workflow.
#[derive(Debug, Eq, Hash, PartialOrd, Ord)]
pub struct WorkflowId {
    text: String,
}

impl View for WorkflowId {
    type V = Seq<char>;

    closed spec fn view(&self) -> Seq<char> {
        self.text@
    }
}

impl WorkflowId {
    #[verifier::type_invariant]
    spec fn inv(self) -> bool {
        !text::blank(self.text@)
    }

    /// Creates an identifier after rejecting empty or whitespace-only values.
    pub fn new(value: impl IntoText) -> (made: Result<Self, IdentifierError>)
        ensures
            made is Ok <==> !text::blank(value.text_view()),
            made matches Ok(id) ==> id@ == value.text_view(),
            made matches Err(error) ==> error.kind@ == "WorkflowId"@,
    {
        let text = value.into_text();
        if is_blank(text.as_str()) {
            return Err(IdentifierError { kind: "WorkflowId" });
        }
        Ok(WorkflowId { text })
    }

    /// Returns the identifier as a string slice.
    #[must_use]
    pub fn as_str(&self) -> (text: &str)
        ensures
            text@ == self@,
            !text::blank(text@),
    {
        proof {
            use_type_invariant(self);
        }
        self.text.as_str()
    }
}

impl Name for WorkflowId {
    fn name(&self) -> (text: &str) {
        self.text.as_str()
    }
}

impl Clone for WorkflowId {
    fn clone(&self) -> (copy: Self)
        ensures
            copy@ == self@,
    {
        proof {
            use_type_invariant(self);
        }
        WorkflowId { text: self.text.clone() }
    }
}

impl Same for WorkflowId {
    open spec fn same_spec(&self, other: &Self) -> bool {
        self@ == other@
    }

    fn same(&self, other: &Self) -> (answer: bool) {
        same_text(self.text.as_str(), other.text.as_str())
    }
}

impl PartialEq for WorkflowId {
    fn eq(&self, other: &Self) -> (same: bool) {
        same_text(self.text.as_str(), other.text.as_str())
    }
}

impl vstd::std_specs::cmp::PartialEqSpecImpl for WorkflowId {
    open spec fn obeys_eq_spec() -> bool {
        true
    }

    open spec fn eq_spec(&self, other: &Self) -> bool {
        self@ == other@
    }
}

impl<'a> TryFrom<&'a str> for WorkflowId {
    type Error = IdentifierError;

    fn try_from(value: &'a str) -> (made: Result<Self, IdentifierError>)
        ensures
            made is Ok <==> !text::blank(value@),
            made matches Ok(id) ==> id@ == value@,
            made matches Err(error) ==> error.kind@ == "WorkflowId"@,
    {
        WorkflowId::new(value)
    }
}

impl<'a> vstd::std_specs::convert::TryFromSpecImpl<&'a str> for WorkflowId {
    open spec fn obeys_try_from_spec() -> bool {
        false
    }

    open spec fn try_from_spec(value: &'a str) -> Result<Self, IdentifierError> {
        arbitrary()
    }
}

impl From<WorkflowId> for String {
    fn from(value: WorkflowId) -> (text: String)
        ensures
            text@ == value@,
    {
        value.text
    }
}

impl vstd::std_specs::convert::FromSpecImpl<WorkflowId> for String {
    open spec fn obeys_from_spec() -> bool {
        false
    }

    open spec fn from_spec(value: WorkflowId) -> String {
        arbitrary()
    }
}

/// Names one attempt of a step.
#[derive(Debug, Eq, Hash, PartialOrd, Ord)]
pub struct AttemptId {
    text: String,
}

impl View for AttemptId {
    type V = Seq<char>;

    closed spec fn view(&self) -> Seq<char> {
        self.text@
    }
}

impl AttemptId {
    #[verifier::type_invariant]
    spec fn inv(self) -> bool {
        !text::blank(self.text@)
    }

    /// Creates an identifier after rejecting empty or whitespace-only values.
    pub fn new(value: impl IntoText) -> (made: Result<Self, IdentifierError>)
        ensures
            made is Ok <==> !text::blank(value.text_view()),
            made matches Ok(id) ==> id@ == value.text_view(),
            made matches Err(error) ==> error.kind@ == "AttemptId"@,
    {
        let text = value.into_text();
        if is_blank(text.as_str()) {
            return Err(IdentifierError { kind: "AttemptId" });
        }
        Ok(AttemptId { text })
    }

    /// Returns the identifier as a string slice.
    #[must_use]
    pub fn as_str(&self) -> (text: &str)
        ensures
            text@ == self@,
            !text::blank(text@),
    {
        proof {
            use_type_invariant(self);
        }
        self.text.as_str()
    }
}

impl Name for AttemptId {
    fn name(&self) -> (text: &str) {
        self.text.as_str()
    }
}

impl Clone for AttemptId {
    fn clone(&self) -> (copy: Self)
        ensures
            copy@ == self@,
    {
        proof {
            use_type_invariant(self);
        }
        AttemptId { text: self.text.clone() }
    }
}

impl Same for AttemptId {
    open spec fn same_spec(&self, other: &Self) -> bool {
        self@ == other@
    }

    fn same(&self, other: &Self) -> (answer: bool) {
        same_text(self.text.as_str(), other.text.as_str())
    }
}

impl PartialEq for AttemptId {
    fn eq(&self, other: &Self) -> (same: bool) {
        same_text(self.text.as_str(), other.text.as_str())
    }
}

impl vstd::std_specs::cmp::PartialEqSpecImpl for AttemptId {
    open spec fn obeys_eq_spec() -> bool {
        true
    }

    open spec fn eq_spec(&self, other: &Self) -> bool {
        self@ == other@
    }
}

impl<'a> TryFrom<&'a str> for AttemptId {
    type Error = IdentifierError;

    fn try_from(value: &'a str) -> (made: Result<Self, IdentifierError>)
        ensures
            made is Ok <==> !text::blank(value@),
            made matches Ok(id) ==> id@ == value@,
            made matches Err(error) ==> error.kind@ == "AttemptId"@,
    {
        AttemptId::new(value)
    }
}

impl<'a> vstd::std_specs::convert::TryFromSpecImpl<&'a str> for AttemptId {
    open spec fn obeys_try_from_spec() -> bool {
        false
    }

    open spec fn try_from_spec(value: &'a str) -> Result<Self, IdentifierError> {
        arbitrary()
    }
}

impl From<AttemptId> for String {
    fn from(value: AttemptId) -> (text: String)
        ensures
            text@ == value@,
    {
        value.text
    }
}

impl vstd::std_specs::convert::FromSpecImpl<AttemptId> for String {
    open spec fn obeys_from_spec() -> bool {
        false
    }

    open spec fn from_spec(value: AttemptId) -> String {
        arbitrary()
    }
}

/// Names one stored artifact.
#[derive(Debug, Eq, Hash, PartialOrd, Ord)]
pub struct ArtifactId {
    text: String,
}

impl View for ArtifactId {
    type V = Seq<char>;

    closed spec fn view(&self) -> Seq<char> {
        self.text@
    }
}

impl ArtifactId {
    #[verifier::type_invariant]
    spec fn inv(self) -> bool {
        !text::blank(self.text@)
    }

    /// Creates an identifier after rejecting empty or whitespace-only values.
    pub fn new(value: impl IntoText) -> (made: Result<Self, IdentifierError>)
        ensures
            made is Ok <==> !text::blank(value.text_view()),
            made matches Ok(id) ==> id@ == value.text_view(),
            made matches Err(error) ==> error.kind@ == "ArtifactId"@,
    {
        let text = value.into_text();
        if is_blank(text.as_str()) {
            return Err(IdentifierError { kind: "ArtifactId" });
        }
        Ok(ArtifactId { text })
    }

    /// Returns the identifier as a string slice.
    #[must_use]
    pub fn as_str(&self) -> (text: &str)
        ensures
            text@ == self@,
            !text::blank(text@),
    {
        proof {
            use_type_invariant(self);
        }
        self.text.as_str()
    }
}

impl Name for ArtifactId {
    fn name(&self) -> (text: &str) {
        self.text.as_str()
    }
}

impl Clone for ArtifactId {
    fn clone(&self) -> (copy: Self)
        ensures
            copy@ == self@,
    {
        proof {
            use_type_invariant(self);
        }
        ArtifactId { text: self.text.clone() }
    }
}

impl Same for ArtifactId {
    open spec fn same_spec(&self, other: &Self) -> bool {
        self@ == other@
    }

    fn same(&self, other: &Self) -> (answer: bool) {
        same_text(self.text.as_str(), other.text.as_str())
    }
}

impl PartialEq for ArtifactId {
    fn eq(&self, other: &Self) -> (same: bool) {
        same_text(self.text.as_str(), other.text.as_str())
    }
}

impl vstd::std_specs::cmp::PartialEqSpecImpl for ArtifactId {
    open spec fn obeys_eq_spec() -> bool {
        true
    }

    open spec fn eq_spec(&self, other: &Self) -> bool {
        self@ == other@
    }
}

impl<'a> TryFrom<&'a str> for ArtifactId {
    type Error = IdentifierError;

    fn try_from(value: &'a str) -> (made: Result<Self, IdentifierError>)
        ensures
            made is Ok <==> !text::blank(value@),
            made matches Ok(id) ==> id@ == value@,
            made matches Err(error) ==> error.kind@ == "ArtifactId"@,
    {
        ArtifactId::new(value)
    }
}

impl<'a> vstd::std_specs::convert::TryFromSpecImpl<&'a str> for ArtifactId {
    open spec fn obeys_try_from_spec() -> bool {
        false
    }

    open spec fn try_from_spec(value: &'a str) -> Result<Self, IdentifierError> {
        arbitrary()
    }
}

impl From<ArtifactId> for String {
    fn from(value: ArtifactId) -> (text: String)
        ensures
            text@ == value@,
    {
        value.text
    }
}

impl vstd::std_specs::convert::FromSpecImpl<ArtifactId> for String {
    open spec fn obeys_from_spec() -> bool {
        false
    }

    open spec fn from_spec(value: ArtifactId) -> String {
        arbitrary()
    }
}

/// Names one event of a run.
#[derive(Debug, Eq, Hash, PartialOrd, Ord)]
pub struct EventId {
    text: String,
}

impl View for EventId {
    type V = Seq<char>;

    closed spec fn view(&self) -> Seq<char> {
        self.text@
    }
}

impl EventId {
    #[verifier::type_invariant]
    spec fn inv(self) -> bool {
        !text::blank(self.text@)
    }

    /// Creates an identifier after rejecting empty or whitespace-only values.
    pub fn new(value: impl IntoText) -> (made: Result<Self, IdentifierError>)
        ensures
            made is Ok <==> !text::blank(value.text_view()),
            made matches Ok(id) ==> id@ == value.text_view(),
            made matches Err(error) ==> error.kind@ == "EventId"@,
    {
        let text = value.into_text();
        if is_blank(text.as_str()) {
            return Err(IdentifierError { kind: "EventId" });
        }
        Ok(EventId { text })
    }

    /// Returns the identifier as a string slice.
    #[must_use]
    pub fn as_str(&self) -> (text: &str)
        ensures
            text@ == self@,
            !text::blank(text@),
    {
        proof {
            use_type_invariant(self);
        }
        self.text.as_str()
    }
}

impl Name for EventId {
    fn name(&self) -> (text: &str) {
        self.text.as_str()
    }
}

impl Clone for EventId {
    fn clone(&self) -> (copy: Self)
        ensures
            copy@ == self@,
    {
        proof {
            use_type_invariant(self);
        }
        EventId { text: self.text.clone() }
    }
}

impl Same for EventId {
    open spec fn same_spec(&self, other: &Self) -> bool {
        self@ == other@
    }

    fn same(&self, other: &Self) -> (answer: bool) {
        same_text(self.text.as_str(), other.text.as_str())
    }
}

impl PartialEq for EventId {
    fn eq(&self, other: &Self) -> (same: bool) {
        same_text(self.text.as_str(), other.text.as_str())
    }
}

impl vstd::std_specs::cmp::PartialEqSpecImpl for EventId {
    open spec fn obeys_eq_spec() -> bool {
        true
    }

    open spec fn eq_spec(&self, other: &Self) -> bool {
        self@ == other@
    }
}

impl<'a> TryFrom<&'a str> for EventId {
    type Error = IdentifierError;

    fn try_from(value: &'a str) -> (made: Result<Self, IdentifierError>)
        ensures
            made is Ok <==> !text::blank(value@),
            made matches Ok(id) ==> id@ == value@,
            made matches Err(error) ==> error.kind@ == "EventId"@,
    {
        EventId::new(value)
    }
}

impl<'a> vstd::std_specs::convert::TryFromSpecImpl<&'a str> for EventId {
    open spec fn obeys_try_from_spec() -> bool {
        false
    }

    open spec fn try_from_spec(value: &'a str) -> Result<Self, IdentifierError> {
        arbitrary()
    }
}

impl From<EventId> for String {
    fn from(value: EventId) -> (text: String)
        ensures
            text@ == value@,
    {
        value.text
    }
}

impl vstd::std_specs::convert::FromSpecImpl<EventId> for String {
    open spec fn obeys_from_spec() -> bool {
        false
    }

    open spec fn from_spec(value: EventId) -> String {
        arbitrary()
    }
}

/// Tells repeated submissions of one run from new ones.
#[derive(Debug, Eq, Hash, PartialOrd, Ord)]
pub struct IdempotencyKey {
    text: String,
}

impl View for IdempotencyKey {
    type V = Seq<char>;

    closed spec fn view(&self) -> Seq<char> {
        self.text@
    }
}

impl IdempotencyKey {
    #[verifier::type_invariant]
    spec fn inv(self) -> bool {
        !text::blank(self.text@)
    }

    /// Creates an identifier after rejecting empty or whitespace-only values.
    pub fn new(value: impl IntoText) -> (made: Result<Self, IdentifierError>)
        ensures
            made is Ok <==> !text::blank(value.text_view()),
            made matches Ok(id) ==> id@ == value.text_view(),
            made matches Err(error) ==> error.kind@ == "IdempotencyKey"@,
    {
        let text = value.into_text();
        if is_blank(text.as_str()) {
            return Err(IdentifierError { kind: "IdempotencyKey" });
        }
        Ok(IdempotencyKey { text })
    }

    /// Returns the identifier as a string slice.
    #[must_use]
    pub fn as_str(&self) -> (text: &str)
        ensures
            text@ == self@,
            !text::blank(text@),
    {
        proof {
            use_type_invariant(self);
        }
        self.text.as_str()
    }
}

impl Name for IdempotencyKey {
    fn name(&self) -> (text: &str) {
        self.text.as_str()
    }
}

impl Clone for IdempotencyKey {
    fn clone(&self) -> (copy: Self)
        ensures
            copy@ == self@,
    {
        proof {
            use_type_invariant(self);
        }
        IdempotencyKey { text: self.text.clone() }
    }
}

impl Same for IdempotencyKey {
    open spec fn same_spec(&self, other: &Self) -> bool {
        self@ == other@
    }

    fn same(&self, other: &Self) -> (answer: bool) {
        same_text(self.text.as_str(), other.text.as_str())
    }
}

impl PartialEq for IdempotencyKey {
    fn eq(&self, other: &Self) -> (same: bool) {
        same_text(self.text.as_str(), other.text.as_str())
    }
}

impl vstd::std_specs::cmp::PartialEqSpecImpl for IdempotencyKey {
    open spec fn obeys_eq_spec() -> bool {
        true
    }

    open spec fn eq_spec(&self, other: &Self) -> bool {
        self@ == other@
    }
}

impl<'a> TryFrom<&'a str> for IdempotencyKey {
    type Error = IdentifierError;

    fn try_from(value: &'a str) -> (made: Result<Self, IdentifierError>)
        ensures
            made is Ok <==> !text::blank(value@),
            made matches Ok(id) ==> id@ == value@,
            made matches Err(error) ==> error.kind@ == "IdempotencyKey"@,
    {
        IdempotencyKey::new(value)
    }
}

impl<'a> vstd::std_specs::convert::TryFromSpecImpl<&'a str> for IdempotencyKey {
    open spec fn obeys_try_from_spec() -> bool {
        false
    }

    open spec fn try_from_spec(value: &'a str) -> Result<Self, IdentifierError> {
        arbitrary()
    }
}

impl From<IdempotencyKey> for String {
    fn from(value: IdempotencyKey) -> (text: String)
        ensures
            text@ == value@,
    {
        value.text
    }
}

impl vstd::std_specs::convert::FromSpecImpl<IdempotencyKey> for String {
    open spec fn obeys_from_spec() -> bool {
        false
    }

    open spec fn from_spec(value: IdempotencyKey) -> String {
        arbitrary()
    }
}

/// Names one worker.
#[derive(Debug, Eq, Hash, PartialOrd, Ord)]
pub struct WorkerId {
    text: String,
}

impl View for WorkerId {
    type V = Seq<char>;

    closed spec fn view(&self) -> Seq<char> {
        self.text@
    }
}

impl WorkerId {
    #[verifier::type_invariant]
    spec fn inv(self) -> bool {
        !text::blank(self.text@)
    }

    /// Creates an identifier after rejecting empty or whitespace-only values.
    pub fn new(value: impl IntoText) -> (made: Result<Self, IdentifierError>)
        ensures
            made is Ok <==> !text::blank(value.text_view()),
            made matches Ok(id) ==> id@ == value.text_view(),
            made matches Err(error) ==> error.kind@ == "WorkerId"@,
    {
        let text = value.into_text();
        if is_blank(text.as_str()) {
            return Err(IdentifierError { kind: "WorkerId" });
        }
        Ok(WorkerId { text })
    }

    /// Returns the identifier as a string slice.
    #[must_use]
    pub fn as_str(&self) -> (text: &str)
        ensures
            text@ == self@,
            !text::blank(text@),
    {
        proof {
            use_type_invariant(self);
        }
        self.text.as_str()
    }
}

impl Name for WorkerId {
    fn name(&self) -> (text: &str) {
        self.text.as_str()
    }
}

impl Clone for WorkerId {
    fn clone(&self) -> (copy: Self)
        ensures
            copy@ == self@,
    {
        proof {
            use_type_invariant(self);
        }
        WorkerId { text: self.text.clone() }
    }
}

impl Same for WorkerId {
    open spec fn same_spec(&self, other: &Self) -> bool {
        self@ == other@
    }

    fn same(&self, other: &Self) -> (answer: bool) {
        same_text(self.text.as_str(), other.text.as_str())
    }
}

impl PartialEq for WorkerId {
    fn eq(&self, other: &Self) -> (same: bool) {
        same_text(self.text.as_str(), other.text.as_str())
    }
}

impl vstd::std_specs::cmp::PartialEqSpecImpl for WorkerId {
    open spec fn obeys_eq_spec() -> bool {
        true
    }

    open spec fn eq_spec(&self, other: &Self) -> bool {
        self@ == other@
    }
}

impl<'a> TryFrom<&'a str> for WorkerId {
    type Error = IdentifierError;

    fn try_from(value: &'a str) -> (made: Result<Self, IdentifierError>)
        ensures
            made is Ok <==> !text::blank(value@),
            made matches Ok(id) ==> id@ == value@,
            made matches Err(error) ==> error.kind@ == "WorkerId"@,
    {
        WorkerId::new(value)
    }
}

impl<'a> vstd::std_specs::convert::TryFromSpecImpl<&'a str> for WorkerId {
    open spec fn obeys_try_from_spec() -> bool {
        false
    }

    open spec fn try_from_spec(value: &'a str) -> Result<Self, IdentifierError> {
        arbitrary()
    }
}

impl From<WorkerId> for String {
    fn from(value: WorkerId) -> (text: String)
        ensures
            text@ == value@,
    {
        value.text
    }
}

impl vstd::std_specs::convert::FromSpecImpl<WorkerId> for String {
    open spec fn obeys_from_spec() -> bool {
        false
    }

    open spec fn from_spec(value: WorkerId) -> String {
        arbitrary()
    }
}

/// Names one cached task output.
#[derive(Debug, Eq, Hash, PartialOrd, Ord)]
pub struct CacheKey {
    text: String,
}

impl View for CacheKey {
    type V = Seq<char>;

    closed spec fn view(&self) -> Seq<char> {
        self.text@
    }
}

impl CacheKey {
    #[verifier::type_invariant]
    spec fn inv(self) -> bool {
        !text::blank(self.text@)
    }

    /// Creates an identifier after rejecting empty or whitespace-only values.
    pub fn new(value: impl IntoText) -> (made: Result<Self, IdentifierError>)
        ensures
            made is Ok <==> !text::blank(value.text_view()),
            made matches Ok(id) ==> id@ == value.text_view(),
            made matches Err(error) ==> error.kind@ == "CacheKey"@,
    {
        let text = value.into_text();
        if is_blank(text.as_str()) {
            return Err(IdentifierError { kind: "CacheKey" });
        }
        Ok(CacheKey { text })
    }

    /// Returns the identifier as a string slice.
    #[must_use]
    pub fn as_str(&self) -> (text: &str)
        ensures
            text@ == self@,
            !text::blank(text@),
    {
        proof {
            use_type_invariant(self);
        }
        self.text.as_str()
    }
}

impl Name for CacheKey {
    fn name(&self) -> (text: &str) {
        self.text.as_str()
    }
}

impl Clone for CacheKey {
    fn clone(&self) -> (copy: Self)
        ensures
            copy@ == self@,
    {
        proof {
            use_type_invariant(self);
        }
        CacheKey { text: self.text.clone() }
    }
}

impl Same for CacheKey {
    open spec fn same_spec(&self, other: &Self) -> bool {
        self@ == other@
    }

    fn same(&self, other: &Self) -> (answer: bool) {
        same_text(self.text.as_str(), other.text.as_str())
    }
}

impl PartialEq for CacheKey {
    fn eq(&self, other: &Self) -> (same: bool) {
        same_text(self.text.as_str(), other.text.as_str())
    }
}

impl vstd::std_specs::cmp::PartialEqSpecImpl for CacheKey {
    open spec fn obeys_eq_spec() -> bool {
        true
    }

    open spec fn eq_spec(&self, other: &Self) -> bool {
        self@ == other@
    }
}

impl<'a> TryFrom<&'a str> for CacheKey {
    type Error = IdentifierError;

    fn try_from(value: &'a str) -> (made: Result<Self, IdentifierError>)
        ensures
            made is Ok <==> !text::blank(value@),
            made matches Ok(id) ==> id@ == value@,
            made matches Err(error) ==> error.kind@ == "CacheKey"@,
    {
        CacheKey::new(value)
    }
}

impl<'a> vstd::std_specs::convert::TryFromSpecImpl<&'a str> for CacheKey {
    open spec fn obeys_try_from_spec() -> bool {
        false
    }

    open spec fn try_from_spec(value: &'a str) -> Result<Self, IdentifierError> {
        arbitrary()
    }
}

impl From<CacheKey> for String {
    fn from(value: CacheKey) -> (text: String)
        ensures
            text@ == value@,
    {
        value.text
    }
}

impl vstd::std_specs::convert::FromSpecImpl<CacheKey> for String {
    open spec fn obeys_from_spec() -> bool {
        false
    }

    open spec fn from_spec(value: CacheKey) -> String {
        arbitrary()
    }
}

impl WorkerId {
    /// The worker of a process that runs its own tasks.
    pub fn local() -> (id: WorkerId)
        ensures
            id@ == "local-worker"@,
    {
        proof {
            reveal_strlit("local-worker");
            assert(!text::white_space("local-worker"@[0]));
        }
        WorkerId { text: "local-worker".to_owned() }
    }
}

impl EventId {
    /// The id of the event of a run that has the given sequence number.
    pub fn of_event(run_id: &RunId, sequence: u64) -> (id: EventId)
        ensures
            id@ == run_id@ + "-event-"@ + text::decimal(sequence as nat),
    {
        let number = decimal_text(sequence);
        proof {
            use_type_invariant(run_id);
            text::lemma_not_blank(run_id@, "-event-"@);
            text::lemma_not_blank(run_id@ + "-event-"@, number@);
        }
        EventId { text: join3(run_id.as_str(), "-event-", number.as_str()) }
    }
}

impl AttemptId {
    /// The id of the attempt of a run that was leased under the given token.
    pub fn of_attempt(run_id: &RunId, token: u64) -> (id: AttemptId)
        ensures
            id@ == run_id@ + "-attempt-"@ + text::decimal(token as nat),
    {
        let number = decimal_text(token);
        proof {
            use_type_invariant(run_id);
            text::lemma_not_blank(run_id@, "-attempt-"@);
            text::lemma_not_blank(run_id@ + "-attempt-"@, number@);
        }
        AttemptId { text: join3(run_id.as_str(), "-attempt-", number.as_str()) }
    }
}

/// Whether a text is made of 32 hexadecimal digits in lower case.
pub open spec fn is_token(text: Seq<char>) -> bool {
    &&& text.len() == 32
    &&& forall|i: int|
        0 <= i < text.len() ==> ('0' <= #[trigger] text[i] <= '9' || 'a' <= text[i] <= 'f')
}

/// `Uuid::new_v4` in its simple form: 32 hexadecimal digits in lower case. Which
/// ones is left to chance.
#[verifier::external_body]
fn random_token() -> (token: String)
    ensures
        is_token(token@),
{
    uuid::Uuid::new_v4().simple().to_string()
}

/// The identifier made of a prefix, a token and a number.
pub open spec fn composed_id(prefix: Seq<char>, token: Seq<char>, sequence: u64) -> Seq<char> {
    prefix + "-"@ + token + "-"@ + text::decimal(sequence as nat)
}

/// Makes an identifier out of a prefix, a token and a number.
pub fn compose_id(prefix: &str, token: &str, sequence: u64) -> (id: String)
    ensures
        id@ == composed_id(prefix@, token@, sequence),
        !text::blank(id@),
{
    let mut id = prefix.to_owned();
    id.append("-");
    id.append(token);
    id.append("-");
    id.append(decimal_text(sequence).as_str());
    proof {
        reveal_strlit("-");
        assert(id@[prefix@.len() as int] == '-');
        assert(!text::white_space('-'));
    }
    id
}

/// Generates a process-local identifier suitable for an execution record.
pub fn generated_id(prefix: &str, sequence: u64) -> (id: String)
    ensures
        !text::blank(id@),
        exists|token: Seq<char>|
            is_token(token) && id@ == #[trigger] composed_id(prefix@, token, sequence),
{
    let token = random_token();
    compose_id(prefix, token.as_str(), sequence)
}

} // verus!
