//! The query surface of one Workspace.
//!
//! Seven operations, each a fixed mapping onto a primitive: what the target
//! is, what is shown and what is delivered are the planner's, rules are the
//! resolver's, work is the store's. Nothing here ranks, picks among
//! candidates, pages on its own, or keeps anything between calls. An
//! operation says what to run; what came back is handed to the function
//! that answers for it.

use vstd::prelude::*;

use crate::evidence::{Direction, EvidenceItem, RelationAnswer};
use crate::graph::{GraphEndpoint, RelationKind};
use crate::knowledge::{
    layers_view, ApplicabilityContext, DecisionLineage, KnowledgeError, KnowledgeScope,
    PolicyLineage, RequestDirective, ResolveError, WorkError, WorkHandoff, WorkItem,
    WorkItemStatus,
};
use crate::model::{
    DecisionId, PolicyId, ResourceKind, ResourceLanguage, ResourceRole, WorkItemId, WorkspaceId,
};
use crate::projection::{
    applicability, validate_applicability, ChangeKind, CorrelationField, PreparedProjection,
    ProjectionCorrelation, ProjectionGap, ProjectionIntent, ProjectionKnowledgeRefs,
    ProjectionRequest, ProjectionRequestError, ProjectionTarget,
};
use crate::query::{
    is_listing, Currentness, FileListing, FileQuery, FileQueryView, QueryError, QueryIndex,
    DEFAULT_CANDIDATE_LIMIT,
};
use crate::registry::{
    has_workspace, registry_words, the_workspace, GlobalRegistry, RegistryError,
    WorkspaceRegistryEntry,
};
use crate::text::{
    append_decimal, debug_form, decimal, joined, optional_chars, quoted, same_text, wide_text,
    Chars,
};

verus! {

/// How many WorkItems one listing may name, for each status.
pub const MAX_WORK_ITEM_LIST: usize = 200;

/// How many handoffs one history may hold.
pub const MAX_HANDOFF_HISTORY: usize = 50;

// ---------------------------------------------------------------------
// Requests
// ---------------------------------------------------------------------

/// Every request's identity.
#[derive(Debug, Clone, PartialEq, Eq)]
pub struct QueryContext {
    pub workspace: WorkspaceId,
    /// Opaque: it decides what was delivered already and nothing else.
    pub correlation: Option<ProjectionCorrelation>,
}

/// How much of a projection one page may hold.
#[derive(Debug, Clone, Copy, PartialEq, Eq, Structural)]
pub struct DeliveryBudget {
    pub max_items: Option<usize>,
    pub max_tokens: Option<usize>,
}

/// Where the next page starts.
#[derive(Debug, Clone, PartialEq, Eq)]
pub struct DeliveryContinuation {
    pub token: String,
}

/// Whether the client still has what it was shown.
#[derive(Debug, Clone, Copy, PartialEq, Eq, Structural)]
pub enum ContextRetention {
    Retained,
    Unknown,
}

/// How a projection is to be delivered. There is no default.
#[derive(Debug, Clone, PartialEq, Eq)]
pub struct DeliveryOptions {
    pub budget: DeliveryBudget,
    /// `None` for the first page; else the one that the page before gave.
    pub continuation: Option<DeliveryContinuation>,
    pub retention: ContextRetention,
}

/// One page, not yet acknowledged.
#[derive(Debug, Clone, PartialEq, Eq)]
pub struct PendingDelivery {
    pub receipt: String,
    pub items: Vec<EvidenceItem>,
    pub continuation: Option<DeliveryContinuation>,
}

/// A projection to plan, and how to deliver it.
#[derive(Debug, Clone, PartialEq, Eq)]
pub struct ProjectionCall {
    pub request: ProjectionRequest,
    pub delivery: DeliveryOptions,
}

// ---------------------------------------------------------------------
// Errors
// ---------------------------------------------------------------------

/// What is missing. It is never answered by making it.
#[derive(Debug, Clone, PartialEq, Eq)]
pub enum NotInitialized {
    GlobalDbMissing,
    WorkspaceNotRegistered,
    WorkspaceDbMissing,
    IndexDbMissing,
    WorkspaceUnbound { db: String },
}

/// Why a summary may not be asked for.
#[derive(Debug, Clone, PartialEq, Eq)]
pub struct SummaryRequestError {
    pub detail: String,
}

/// Why a request may not be asked.
#[derive(Debug, Clone, PartialEq, Eq)]
pub enum InvalidRequest {
    Projection(ProjectionRequestError),
    Summary(SummaryRequestError),
    ListLimitTooLarge { limit: usize, max: usize },
    /// A budget or a file size of a text search is zero.
    SearchBudgetInvalid,
}

/// Failure of the planner.
#[derive(Debug, Clone, PartialEq, Eq)]
pub enum PlannerError {
    MissingGlobalDb,
    UnknownWorkspace(WorkspaceId),
    MissingWorkspaceRoot,
    WorkspaceMismatch { bound: WorkspaceId, requested: WorkspaceId },
    Request(ProjectionRequestError),
    Work(WorkError),
    Failed { detail: String },
}

/// Failure delivering a page.
#[derive(Debug, Clone, PartialEq, Eq)]
pub struct DeliveryError {
    pub detail: String,
}

/// Failure reading relations.
#[derive(Debug, Clone, PartialEq, Eq)]
pub struct RelationError {
    pub detail: String,
}

/// Failure of a text search.
#[derive(Debug, Clone, PartialEq, Eq)]
pub struct SearchError {
    pub detail: String,
}

/// Failure loading a Workspace's configuration.
#[derive(Debug, Clone, PartialEq, Eq)]
pub struct ConfigError {
    pub detail: String,
}

/// Failure of a structural summary.
#[derive(Debug, Clone, PartialEq, Eq)]
pub enum SummaryError {
    Invalid(SummaryRequestError),
    Failed { detail: String },
}

/// Failure of an operation.
#[derive(Debug, PartialEq, Eq)]
pub enum CoreError {
    /// Never answered by initializing anything.
    NotInitialized(NotInitialized),
    WorkspaceRootMissing { workspace: WorkspaceId },
    WorkspaceLocatorAmbiguous { workspaces: Vec<WorkspaceId> },
    WorkspaceMismatch { bound: WorkspaceId, requested: WorkspaceId },
    WorkspaceBindingMismatch { db: String, expected: WorkspaceId, found: WorkspaceId },
    /// The WorkItem that the request names is not in the Workspace.
    WorkItemNotFound { work_item: WorkItemId },
    InvalidRequest(InvalidRequest),
    Delivery(DeliveryError),
    Planner(PlannerError),
    Relation(RelationError),
    Knowledge(KnowledgeError),
    Work(WorkError),
    Query(QueryError),
    Search(SearchError),
    Summary(SummaryError),
    Registry(RegistryError),
    Config(ConfigError),
}

/// What a failure to read what is kept is answered with. A WorkItem that
/// the request names and that is not there is named.
pub open spec fn knowledge_failure(
    error: KnowledgeError,
    work_item: Option<WorkItemId>,
) -> CoreError {
    match (error, work_item) {
        (KnowledgeError::NotFound { what, .. }, Some(work_item)) => if what@ == "work_item"@ {
            CoreError::WorkItemNotFound { work_item }
        } else {
            CoreError::Knowledge(error)
        },
        _ => CoreError::Knowledge(error),
    }
}

/// What a failure to read a piece of work is answered with.
pub open spec fn work_failure(error: WorkError, work_item: Option<WorkItemId>) -> CoreError {
    match error {
        WorkError::MissingDatabase { db } => if db@ == "workspace.db"@ {
            CoreError::NotInitialized(NotInitialized::WorkspaceDbMissing)
        } else if db@ == "index.db"@ {
            CoreError::NotInitialized(NotInitialized::IndexDbMissing)
        } else {
            CoreError::Work(error)
        },
        WorkError::UnboundWorkspace { db } => CoreError::NotInitialized(
            NotInitialized::WorkspaceUnbound { db },
        ),
        WorkError::WorkspaceMismatch {
            db,
            expected,
            found,
        } => CoreError::WorkspaceBindingMismatch { db, expected, found },
        WorkError::Knowledge(error) => knowledge_failure(error, work_item),
        WorkError::Failed { .. } => CoreError::Work(error),
    }
}

/// What a failure of the planner is answered with.
pub open spec fn planner_failure(
    error: PlannerError,
    workspace: WorkspaceId,
    work_item: Option<WorkItemId>,
) -> CoreError {
    match error {
        PlannerError::MissingGlobalDb => CoreError::NotInitialized(NotInitialized::GlobalDbMissing),
        PlannerError::UnknownWorkspace(_) => CoreError::NotInitialized(
            NotInitialized::WorkspaceNotRegistered,
        ),
        PlannerError::MissingWorkspaceRoot => CoreError::WorkspaceRootMissing { workspace },
        PlannerError::WorkspaceMismatch { bound, requested } => CoreError::WorkspaceMismatch {
            bound,
            requested,
        },
        PlannerError::Request(error) => CoreError::InvalidRequest(InvalidRequest::Projection(error)),
        PlannerError::Work(error) => work_failure(error, work_item),
        PlannerError::Failed { .. } => CoreError::Planner(error),
    }
}

impl CoreError {
    /// The answer to a failure of the planner. `work_item` is the one that
    /// the request names.
    fn planner(
        error: PlannerError,
        workspace: WorkspaceId,
        work_item: Option<WorkItemId>,
    ) -> (answer: Self)
        ensures
            answer == planner_failure(error, workspace, work_item),
    {
        match error {
            PlannerError::MissingGlobalDb => CoreError::NotInitialized(
                NotInitialized::GlobalDbMissing,
            ),
            PlannerError::UnknownWorkspace(_) => CoreError::NotInitialized(
                NotInitialized::WorkspaceNotRegistered,
            ),
            PlannerError::MissingWorkspaceRoot => CoreError::WorkspaceRootMissing { workspace },
            PlannerError::WorkspaceMismatch { bound, requested } => CoreError::WorkspaceMismatch {
                bound,
                requested,
            },
            PlannerError::Request(error) => CoreError::InvalidRequest(
                InvalidRequest::Projection(error),
            ),
            PlannerError::Work(error) => CoreError::work(error, work_item),
            PlannerError::Failed { detail } => CoreError::Planner(PlannerError::Failed { detail }),
        }
    }

    /// The answer to a failure to read a piece of work.
    fn work(error: WorkError, work_item: Option<WorkItemId>) -> (answer: Self)
        ensures
            answer == work_failure(error, work_item),
    {
        match error {
            WorkError::MissingDatabase { db } => if same_text(db.as_str(), "workspace.db") {
                CoreError::NotInitialized(NotInitialized::WorkspaceDbMissing)
            } else if same_text(db.as_str(), "index.db") {
                CoreError::NotInitialized(NotInitialized::IndexDbMissing)
            } else {
                CoreError::Work(WorkError::MissingDatabase { db })
            },
            WorkError::UnboundWorkspace { db } => CoreError::NotInitialized(
                NotInitialized::WorkspaceUnbound { db },
            ),
            WorkError::WorkspaceMismatch {
                db,
                expected,
                found,
            } => CoreError::WorkspaceBindingMismatch { db, expected, found },
            WorkError::Knowledge(error) => CoreError::knowledge(error, work_item),
            WorkError::Failed { detail } => CoreError::Work(WorkError::Failed { detail }),
        }
    }

    /// The answer to a failure to read what is kept.
    fn knowledge(error: KnowledgeError, work_item: Option<WorkItemId>) -> (answer: Self)
        ensures
            answer == knowledge_failure(error, work_item),
    {
        let named = match &error {
            KnowledgeError::NotFound { what, .. } => same_text(what.as_str(), "work_item"),
            KnowledgeError::Failed { .. } => false,
        };
        match work_item {
            Some(work_item) => if named {
                CoreError::WorkItemNotFound { work_item }
            } else {
                CoreError::Knowledge(error)
            },
            None => CoreError::Knowledge(error),
        }
    }
}

// ---------------------------------------------------------------------
// What failures are reported as
// ---------------------------------------------------------------------

pub open spec fn missing_words(reason: NotInitialized) -> Chars {
    match reason {
        NotInitialized::GlobalDbMissing => "GlobalDbMissing"@,
        NotInitialized::WorkspaceNotRegistered => "WorkspaceNotRegistered"@,
        NotInitialized::WorkspaceDbMissing => "WorkspaceDbMissing"@,
        NotInitialized::IndexDbMissing => "IndexDbMissing"@,
        NotInitialized::WorkspaceUnbound { db } => "WorkspaceUnbound { db: "@ + debug_form(db@)
            + " }"@,
    }
}

pub open spec fn resolve_words(error: ResolveError) -> Chars {
    match error {
        ResolveError::InvalidContext(detail) => "InvalidContext("@ + debug_form(detail@) + ")"@,
        ResolveError::InvalidRequest(detail) => "InvalidRequest("@ + debug_form(detail@) + ")"@,
    }
}

pub open spec fn field_name(field: CorrelationField) -> Chars {
    match field {
        CorrelationField::ClientId => "ClientId"@,
        CorrelationField::SessionId => "SessionId"@,
        CorrelationField::ExternalTaskId => "ExternalTaskId"@,
        CorrelationField::ExternalSubtaskId => "ExternalSubtaskId"@,
    }
}

pub open spec fn request_words(error: ProjectionRequestError) -> Chars {
    match error {
        ProjectionRequestError::MissingTarget => "MissingTarget"@,
        ProjectionRequestError::MissingWorkItem => "MissingWorkItem"@,
        ProjectionRequestError::EmptySelector => "EmptySelector"@,
        ProjectionRequestError::EmptyCorrelationId(field) => "EmptyCorrelationId("@ + field_name(
            field,
        ) + ")"@,
        ProjectionRequestError::InvalidScopeLayer(error) => "InvalidScopeLayer("@ + resolve_words(
            error,
        ) + ")"@,
        ProjectionRequestError::InvalidDirective(error) => "InvalidDirective("@ + resolve_words(
            error,
        ) + ")"@,
        ProjectionRequestError::DirectiveOutsideApplicability {
            directive_id,
        } => "DirectiveOutsideApplicability { directive_id: "@ + debug_form(directive_id@) + " }"@,
    }
}

pub open spec fn invalid_words(reason: InvalidRequest) -> Chars {
    match reason {
        InvalidRequest::Projection(error) => "Projection("@ + request_words(error) + ")"@,
        InvalidRequest::Summary(error) => "Summary(SummaryRequestError { detail: "@ + debug_form(
            error.detail@,
        ) + " })"@,
        InvalidRequest::ListLimitTooLarge { limit, max } => "ListLimitTooLarge { limit: "@
            + decimal(limit as int) + ", max: "@ + decimal(max as int) + " }"@,
        InvalidRequest::SearchBudgetInvalid => "SearchBudgetInvalid"@,
    }
}

pub open spec fn knowledge_words(error: KnowledgeError) -> Chars {
    match error {
        KnowledgeError::NotFound { what, id } => what@ + " "@ + id@ + " was not found"@,
        KnowledgeError::Failed { detail } => detail@,
    }
}

pub open spec fn work_words(error: WorkError) -> Chars {
    match error {
        WorkError::MissingDatabase { db } => db@ + " does not exist"@,
        WorkError::UnboundWorkspace { db } => db@ + " is bound to no Workspace"@,
        WorkError::WorkspaceMismatch { db, expected, found } => db@ + " belongs to Workspace "@
            + decimal(found.value as int) + ", not "@ + decimal(expected.value as int),
        WorkError::Knowledge(error) => knowledge_words(error),
        WorkError::Failed { detail } => detail@,
    }
}

pub open spec fn planner_words(error: PlannerError) -> Chars {
    match error {
        PlannerError::MissingGlobalDb => "the global registry does not exist"@,
        PlannerError::UnknownWorkspace(workspace) => "Workspace "@ + decimal(workspace.value as int)
            + " is not registered"@,
        PlannerError::MissingWorkspaceRoot => "the root of the Workspace does not exist"@,
        PlannerError::WorkspaceMismatch { bound, requested } => "bound to Workspace "@ + decimal(
            bound.value as int,
        ) + ", request names "@ + decimal(requested.value as int),
        PlannerError::Request(error) => request_words(error),
        PlannerError::Work(error) => work_words(error),
        PlannerError::Failed { detail } => detail@,
    }
}

pub open spec fn core_words(error: CoreError) -> Chars {
    match error {
        CoreError::NotInitialized(reason) => "not initialized: "@ + missing_words(reason),
        CoreError::WorkspaceRootMissing { workspace } => "the root of Workspace "@ + decimal(
            workspace.value as int,
        ) + " does not exist"@,
        CoreError::WorkspaceLocatorAmbiguous { workspaces } => decimal(workspaces@.len() as int)
            + " Workspaces are registered at this locator"@,
        CoreError::WorkspaceMismatch { bound, requested } => "bound to Workspace "@ + decimal(
            bound.value as int,
        ) + ", request names "@ + decimal(requested.value as int),
        CoreError::WorkspaceBindingMismatch { db, expected, found } => db@
            + " belongs to Workspace "@ + decimal(found.value as int) + ", not "@ + decimal(
            expected.value as int,
        ),
        CoreError::WorkItemNotFound { work_item } => "WorkItem "@ + decimal(work_item.value as int)
            + " is not in this Workspace"@,
        CoreError::InvalidRequest(reason) => "invalid request: "@ + invalid_words(reason),
        CoreError::Delivery(error) => error.detail@,
        CoreError::Planner(error) => planner_words(error),
        CoreError::Relation(error) => error.detail@,
        CoreError::Knowledge(error) => knowledge_words(error),
        CoreError::Work(error) => work_words(error),
        CoreError::Query(QueryError::UnknownResource { resource_id }) => "no resource row for "@
            + decimal(resource_id.value as int),
        CoreError::Search(error) => error.detail@,
        CoreError::Summary(SummaryError::Invalid(error)) => error.detail@,
        CoreError::Summary(SummaryError::Failed { detail }) => detail@,
        CoreError::Registry(error) => registry_words(error),
        CoreError::Config(error) => error.detail@,
    }
}

fn framed(before: &str, inner: &str, after: &str) -> (text: String)
    ensures
        text@ == before@ + inner@ + after@,
{
    let mut text = joined(before, inner);
    text.append(after);
    text
}

fn missing_text(reason: &NotInitialized) -> (text: String)
    ensures
        text@ == missing_words(*reason),
{
    match reason {
        NotInitialized::GlobalDbMissing => "GlobalDbMissing".to_owned(),
        NotInitialized::WorkspaceNotRegistered => "WorkspaceNotRegistered".to_owned(),
        NotInitialized::WorkspaceDbMissing => "WorkspaceDbMissing".to_owned(),
        NotInitialized::IndexDbMissing => "IndexDbMissing".to_owned(),
        NotInitialized::WorkspaceUnbound { db } => framed(
            "WorkspaceUnbound { db: ",
            quoted(db.as_str()).as_str(),
            " }",
        ),
    }
}

fn resolve_text(error: &ResolveError) -> (text: String)
    ensures
        text@ == resolve_words(*error),
{
    match error {
        ResolveError::InvalidContext(detail) => framed(
            "InvalidContext(",
            quoted(detail.as_str()).as_str(),
            ")",
        ),
        ResolveError::InvalidRequest(detail) => framed(
            "InvalidRequest(",
            quoted(detail.as_str()).as_str(),
            ")",
        ),
    }
}

fn request_text(error: &ProjectionRequestError) -> (text: String)
    ensures
        text@ == request_words(*error),
{
    match error {
        ProjectionRequestError::MissingTarget => "MissingTarget".to_owned(),
        ProjectionRequestError::MissingWorkItem => "MissingWorkItem".to_owned(),
        ProjectionRequestError::EmptySelector => "EmptySelector".to_owned(),
        ProjectionRequestError::EmptyCorrelationId(field) => {
            let name = match field {
                CorrelationField::ClientId => "ClientId",
                CorrelationField::SessionId => "SessionId",
                CorrelationField::ExternalTaskId => "ExternalTaskId",
                CorrelationField::ExternalSubtaskId => "ExternalSubtaskId",
            };
            framed("EmptyCorrelationId(", name, ")")
        },
        ProjectionRequestError::InvalidScopeLayer(error) => framed(
            "InvalidScopeLayer(",
            resolve_text(error).as_str(),
            ")",
        ),
        ProjectionRequestError::InvalidDirective(error) => framed(
            "InvalidDirective(",
            resolve_text(error).as_str(),
            ")",
        ),
        ProjectionRequestError::DirectiveOutsideApplicability { directive_id } => framed(
            "DirectiveOutsideApplicability { directive_id: ",
            quoted(directive_id.as_str()).as_str(),
            " }",
        ),
    }
}

fn invalid_text(reason: &InvalidRequest) -> (text: String)
    ensures
        text@ == invalid_words(*reason),
{
    match reason {
        InvalidRequest::Projection(error) => framed(
            "Projection(",
            request_text(error).as_str(),
            ")",
        ),
        InvalidRequest::Summary(error) => framed(
            "Summary(SummaryRequestError { detail: ",
            quoted(error.detail.as_str()).as_str(),
            " })",
        ),
        InvalidRequest::ListLimitTooLarge { limit, max } => {
            let mut text = "ListLimitTooLarge { limit: ".to_owned();
            append_decimal(&mut text, *limit);
            text.append(", max: ");
            append_decimal(&mut text, *max);
            text.append(" }");
            text
        },
        InvalidRequest::SearchBudgetInvalid => "SearchBudgetInvalid".to_owned(),
    }
}

fn knowledge_text(error: &KnowledgeError) -> (text: String)
    ensures
        text@ == knowledge_words(*error),
{
    match error {
        KnowledgeError::NotFound { what, id } => {
            let mut text = framed(what.as_str(), " ", id.as_str());
            text.append(" was not found");
            text
        },
        KnowledgeError::Failed { detail } => detail.clone(),
    }
}

fn belongs_text(db: &str, expected: WorkspaceId, found: WorkspaceId) -> (text: String)
    ensures
        text@ == db@ + " belongs to Workspace "@ + decimal(found.value as int) + ", not "@
            + decimal(expected.value as int),
{
    let mut text = framed(db, " belongs to Workspace ", wide_text(found.value).as_str());
    text.append(", not ");
    text.append(wide_text(expected.value).as_str());
    text
}

fn bound_text(bound: WorkspaceId, requested: WorkspaceId) -> (text: String)
    ensures
        text@ == "bound to Workspace "@ + decimal(bound.value as int) + ", request names "@
            + decimal(requested.value as int),
{
    let mut text = framed(
        "bound to Workspace ",
        wide_text(bound.value).as_str(),
        ", request names ",
    );
    text.append(wide_text(requested.value).as_str());
    text
}

fn work_text(error: &WorkError) -> (text: String)
    ensures
        text@ == work_words(*error),
{
    match error {
        WorkError::MissingDatabase { db } => joined(db.as_str(), " does not exist"),
        WorkError::UnboundWorkspace { db } => joined(db.as_str(), " is bound to no Workspace"),
        WorkError::WorkspaceMismatch { db, expected, found } => belongs_text(
            db.as_str(),
            *expected,
            *found,
        ),
        WorkError::Knowledge(error) => knowledge_text(error),
        WorkError::Failed { detail } => detail.clone(),
    }
}

fn planner_text(error: &PlannerError) -> (text: String)
    ensures
        text@ == planner_words(*error),
{
    match error {
        PlannerError::MissingGlobalDb => "the global registry does not exist".to_owned(),
        PlannerError::UnknownWorkspace(workspace) => framed(
            "Workspace ",
            wide_text(workspace.value).as_str(),
            " is not registered",
        ),
        PlannerError::MissingWorkspaceRoot => "the root of the Workspace does not exist".to_owned(),
        PlannerError::WorkspaceMismatch { bound, requested } => bound_text(*bound, *requested),
        PlannerError::Request(error) => request_text(error),
        PlannerError::Work(error) => work_text(error),
        PlannerError::Failed { detail } => detail.clone(),
    }
}

impl CoreError {
    pub fn message(&self) -> (text: String)
        ensures
            text@ == core_words(*self),
    {
        match self {
            CoreError::NotInitialized(reason) => joined(
                "not initialized: ",
                missing_text(reason).as_str(),
            ),
            CoreError::WorkspaceRootMissing { workspace } => framed(
                "the root of Workspace ",
                wide_text(workspace.value).as_str(),
                " does not exist",
            ),
            CoreError::WorkspaceLocatorAmbiguous { workspaces } => {
                let mut text = String::new();
                append_decimal(&mut text, workspaces.len());
                text.append(" Workspaces are registered at this locator");
                text
            },
            CoreError::WorkspaceMismatch { bound, requested } => bound_text(*bound, *requested),
            CoreError::WorkspaceBindingMismatch { db, expected, found } => belongs_text(
                db.as_str(),
                *expected,
                *found,
            ),
            CoreError::WorkItemNotFound { work_item } => framed(
                "WorkItem ",
                wide_text(work_item.value).as_str(),
                " is not in this Workspace",
            ),
            CoreError::InvalidRequest(reason) => joined(
                "invalid request: ",
                invalid_text(reason).as_str(),
            ),
            CoreError::Delivery(error) => error.detail.clone(),
            CoreError::Planner(error) => planner_text(error),
            CoreError::Relation(error) => error.detail.clone(),
            CoreError::Knowledge(error) => knowledge_text(error),
            CoreError::Work(error) => work_text(error),
            CoreError::Query(error) => error.message(),
            CoreError::Search(error) => error.detail.clone(),
            CoreError::Summary(error) => match error {
                SummaryError::Invalid(error) => error.detail.clone(),
                SummaryError::Failed { detail } => detail.clone(),
            },
            CoreError::Registry(error) => error.message(),
            CoreError::Config(error) => error.detail.clone(),
        }
    }
}

// ---------------------------------------------------------------------
// Outcomes
// ---------------------------------------------------------------------

/// How the target resolved, as the planner found it.
#[derive(Debug, PartialEq, Eq)]
pub enum TargetResolution {
    Resolved(GraphEndpoint),
    /// Several candidates; the selection shows them.
    MultipleCandidates,
    /// A search matched once, and was not made an identity.
    SingleNonExactCandidate,
    /// No candidate, and nothing that could hide one.
    NotFound,
    NotFoundIncompleteCoverage,
    /// An exact identity that is not current in the index.
    NotCurrent,
    /// A resume without a target.
    NoTarget,
}

/// What a gap says of the target, if it is about the target.
pub open spec fn gap_resolution(gap: ProjectionGap) -> Option<TargetResolution> {
    match gap {
        ProjectionGap::TargetAmbiguous => Some(TargetResolution::MultipleCandidates),
        ProjectionGap::TargetNotExact => Some(TargetResolution::SingleNonExactCandidate),
        ProjectionGap::TargetNotFound => Some(TargetResolution::NotFound),
        ProjectionGap::TargetNotFoundWithIncompleteCoverage => Some(
            TargetResolution::NotFoundIncompleteCoverage,
        ),
        ProjectionGap::TargetNotCurrent => Some(TargetResolution::NotCurrent),
        ProjectionGap::BlueprintNotApplied { .. } => None,
    }
}

/// What the first gap about the target says of it.
pub open spec fn first_resolution(gaps: Seq<ProjectionGap>) -> TargetResolution
    decreases gaps.len(),
{
    if gaps.len() == 0 {
        TargetResolution::NoTarget
    } else {
        match gap_resolution(gaps[0]) {
            Some(resolution) => resolution,
            None => first_resolution(gaps.skip(1)),
        }
    }
}

/// How the target of a projection resolved.
pub open spec fn resolution_of(projection: PreparedProjection) -> TargetResolution {
    match projection.target {
        Some(target) => TargetResolution::Resolved(target),
        None => first_resolution(projection.gaps@),
    }
}

impl TargetResolution {
    /// How the target of a projection resolved.
    pub fn of(projection: &PreparedProjection) -> (resolution: Self)
        ensures
            resolution == resolution_of(*projection),
    {
        if let Some(target) = &projection.target {
            return TargetResolution::Resolved(target.clone());
        }
        let ghost whole = first_resolution(projection.gaps@);
        let ghost gaps = projection.gaps@;
        assert(gaps.skip(0) =~= gaps);
        let mut at: usize = 0;
        while at < projection.gaps.len()
            invariant
                at <= gaps.len(),
                gaps == projection.gaps@,
                projection.target is None,
                whole == first_resolution(projection.gaps@),
                whole == first_resolution(gaps.skip(at as int)),
            decreases gaps.len() - at,
        {
            assert(gaps.skip(at as int)[0] == gaps[at as int]);
            assert(gaps.skip(at as int).skip(1) =~= gaps.skip(at + 1));
            match &projection.gaps[at] {
                ProjectionGap::TargetAmbiguous => return TargetResolution::MultipleCandidates,
                ProjectionGap::TargetNotExact => return TargetResolution::SingleNonExactCandidate,
                ProjectionGap::TargetNotFound => return TargetResolution::NotFound,
                ProjectionGap::TargetNotFoundWithIncompleteCoverage => return TargetResolution::NotFoundIncompleteCoverage,
                ProjectionGap::TargetNotCurrent => return TargetResolution::NotCurrent,
                ProjectionGap::BlueprintNotApplied { .. } => {},
            }
            at = at + 1;
        }
        TargetResolution::NoTarget
    }
}

/// What the evidence says of the index: the first item about it, and
/// current where there is none.
pub open spec fn currentness_of(evidence: Seq<EvidenceItem>) -> Currentness
    decreases evidence.len(),
{
    if evidence.len() == 0 {
        Currentness::Current
    } else {
        match evidence[0] {
            EvidenceItem::IndexCurrentness { currentness, .. } => currentness,
            _ => currentness_of(evidence.skip(1)),
        }
    }
}

/// What the evidence says of the index.
pub fn currentness(evidence: &[EvidenceItem]) -> (found: Currentness)
    ensures
        found == currentness_of(evidence@),
{
    let ghost whole = currentness_of(evidence@);
    assert(evidence@.skip(0) =~= evidence@);
    let mut at: usize = 0;
    while at < evidence.len()
        invariant
            at <= evidence@.len(),
            whole == currentness_of(evidence@),
            whole == currentness_of(evidence@.skip(at as int)),
        decreases evidence@.len() - at,
    {
        assert(evidence@.skip(at as int)[0] == evidence@[at as int]);
        assert(evidence@.skip(at as int).skip(1) =~= evidence@.skip(at + 1));
        match &evidence[at] {
            EvidenceItem::IndexCurrentness { currentness, .. } => return *currentness,
            _ => {},
        }
        at = at + 1;
    }
    Currentness::Current
}

/// A projected answer. How the target resolved and whether the index is
/// current are those of the whole projection, on every page.
#[derive(Debug, PartialEq, Eq)]
pub struct ProjectedAnswer {
    pub target: TargetResolution,
    pub currentness: Currentness,
    /// Not delivered until its receipt is acknowledged.
    pub delivery: PendingDelivery,
}

// ---------------------------------------------------------------------
// Find
// ---------------------------------------------------------------------

/// What a text search looks for.
#[derive(Debug, Clone, PartialEq, Eq)]
pub enum OwnedTextPattern {
    Literal(String),
    Regex(String),
}

/// How far a text search may go.
#[derive(Debug, Clone, Copy, PartialEq, Eq, Structural)]
pub struct SearchBudget {
    pub max_results: usize,
    pub max_files: usize,
    pub max_bytes: u64,
    pub deadline_ns: Option<u128>,
}

/// Why source is searched as text.
#[derive(Debug, Clone, Copy, PartialEq, Eq, Structural)]
pub enum FallbackReason {
    ExplicitTextSearch,
}

/// A text search to run.
#[derive(Debug, Clone, PartialEq, Eq)]
pub struct TextSearch {
    pub pattern: OwnedTextPattern,
    pub case_insensitive: bool,
    pub path_prefix: Option<String>,
    pub reason: FallbackReason,
    pub budget: SearchBudget,
    pub max_file_bytes: u64,
    pub with_preview: bool,
}

/// One line that a text search matched.
#[derive(Debug, Clone, PartialEq, Eq)]
pub struct TextMatch {
    pub path_rel: String,
    pub line: usize,
    pub preview: Option<String>,
}

/// What a text search found.
#[derive(Debug, Clone, PartialEq, Eq)]
pub struct TextSearchResult {
    pub matches: Vec<TextMatch>,
    pub truncated: bool,
}

/// What to find.
#[derive(Debug, Clone, PartialEq, Eq)]
pub enum FindQuery {
    /// The candidates of a selector. It reads no source.
    Target { target: ProjectionTarget, delivery: DeliveryOptions },
    /// The Resource inventory. It reads no source.
    Files {
        directory: Option<String>,
        recursive: bool,
        path_prefix: Option<String>,
        role: Option<ResourceRole>,
        language: Option<ResourceLanguage>,
        kind: Option<ResourceKind>,
        /// At most [`DEFAULT_CANDIDATE_LIMIT`].
        limit: usize,
    },
    /// A text search over the current files, never run on its own after a
    /// structured miss.
    Text {
        pattern: OwnedTextPattern,
        case_insensitive: bool,
        path_prefix: Option<String>,
        budget: SearchBudget,
        max_file_bytes: u64,
        with_preview: bool,
    },
}

#[derive(Debug, Clone, PartialEq, Eq)]
pub struct FindRequest {
    pub context: QueryContext,
    pub query: FindQuery,
}

/// What was found.
#[derive(Debug, PartialEq, Eq)]
pub enum FindResult {
    Target(ProjectedAnswer),
    Files(FileListing),
    Text(TextSearchResult),
}

/// What finding takes next.
#[derive(Debug, PartialEq, Eq)]
pub enum FindStep {
    Project(ProjectionCall),
    Search(TextSearch),
    Done(FindResult),
}

/// A budget or a file size is zero.
pub open spec fn budget_invalid(budget: SearchBudget, max_file_bytes: u64) -> bool {
    budget.max_results == 0 || budget.max_files == 0 || budget.max_bytes == 0 || (
    budget.deadline_ns == Some(0u128)) || max_file_bytes == 0
}

fn is_budget_invalid(budget: &SearchBudget, max_file_bytes: u64) -> (invalid: bool)
    ensures
        invalid == budget_invalid(*budget, max_file_bytes),
{
    let no_time = match budget.deadline_ns {
        Some(deadline) => deadline == 0,
        None => false,
    };
    budget.max_results == 0 || budget.max_files == 0 || budget.max_bytes == 0 || no_time
        || max_file_bytes == 0
}

// ---------------------------------------------------------------------
// Inspect, impact, relations, context
// ---------------------------------------------------------------------

#[derive(Debug, Clone, PartialEq, Eq)]
pub struct InspectRequest {
    pub context: QueryContext,
    pub target: ProjectionTarget,
    pub delivery: DeliveryOptions,
}

#[derive(Debug, Clone, PartialEq, Eq)]
pub struct ImpactRequest {
    pub context: QueryContext,
    pub target: ProjectionTarget,
    pub change: ChangeKind,
    pub delivery: DeliveryOptions,
}

/// Which relations of an anchor are asked for.
#[derive(Debug, Clone, Copy, PartialEq, Eq, Structural)]
pub enum RelationDirection {
    Outgoing,
    Incoming,
    Both,
}

#[derive(Debug, Clone, PartialEq, Eq)]
pub struct RelationsRequest {
    pub context: QueryContext,
    pub target: ProjectionTarget,
    pub direction: RelationDirection,
    /// None means every kind.
    pub kinds: Vec<RelationKind>,
}

/// The anchor to locate, and what to ask of it then.
#[derive(Debug, Clone, PartialEq, Eq)]
pub struct RelationsCall {
    pub locate: ProjectionRequest,
    pub direction: RelationDirection,
    pub kinds: Vec<RelationKind>,
}

/// One query of the relation index.
#[derive(Debug, PartialEq, Eq)]
pub struct RelationQuery {
    pub anchor: GraphEndpoint,
    pub direction: Direction,
}

/// One anchor's whole direct answer, unpaged.
#[derive(Debug, PartialEq, Eq)]
pub struct RelationsResult {
    pub target: TargetResolution,
    /// What locating the anchor showed.
    pub selection: Vec<EvidenceItem>,
    pub currentness: Currentness,
    /// Outgoing before incoming; none unless the target resolved.
    pub answers: Vec<RelationAnswer>,
}

/// What a context is for.
#[allow(inconsistent_fields)]
#[derive(Debug, Clone, PartialEq, Eq)]
pub enum ContextPurpose {
    Change {
        target: ProjectionTarget,
        change: Option<ChangeKind>,
        work_item: Option<WorkItemId>,
    },
    Resume { work_item: WorkItemId, target: Option<ProjectionTarget> },
}

#[derive(Debug, Clone, PartialEq, Eq)]
pub struct ContextRequest {
    pub context: QueryContext,
    pub purpose: ContextPurpose,
    pub scope_layers: Vec<Vec<KnowledgeScope>>,
    pub directives: Vec<RequestDirective>,
    pub knowledge: ProjectionKnowledgeRefs,
    pub delivery: DeliveryOptions,
}

/// The directions to ask in, in their order.
pub open spec fn directions(direction: RelationDirection) -> Seq<Direction> {
    match direction {
        RelationDirection::Outgoing => seq![Direction::Outgoing],
        RelationDirection::Incoming => seq![Direction::Incoming],
        RelationDirection::Both => seq![Direction::Outgoing, Direction::Incoming],
    }
}

/// What to ask the relation index once an anchor was located.
pub open spec fn queries_for(
    resolution: TargetResolution,
    direction: RelationDirection,
) -> Seq<RelationQuery> {
    match resolution {
        TargetResolution::Resolved(anchor) => directions(direction).map_values(
            |direction: Direction| RelationQuery { anchor, direction },
        ),
        _ => seq![],
    }
}

/// What to ask the relation index: nothing unless the anchor resolved.
pub fn relation_queries(
    projection: &PreparedProjection,
    direction: RelationDirection,
) -> (queries: Vec<RelationQuery>)
    ensures
        queries@ == queries_for(resolution_of(*projection), direction),
{
    let mut queries: Vec<RelationQuery> = Vec::new();
    if let TargetResolution::Resolved(anchor) = TargetResolution::of(projection) {
        let (outgoing, incoming) = match direction {
            RelationDirection::Outgoing => (true, false),
            RelationDirection::Incoming => (false, true),
            RelationDirection::Both => (true, true),
        };
        if outgoing {
            queries.push(
                RelationQuery { anchor: anchor.clone(), direction: Direction::Outgoing },
            );
        }
        if incoming {
            queries.push(RelationQuery { anchor, direction: Direction::Incoming });
        }
    }
    assert(queries@ =~= queries_for(resolution_of(*projection), direction));
    queries
}

// ---------------------------------------------------------------------
// Knowledge
// ---------------------------------------------------------------------

/// What a history is asked of.
#[derive(Debug, Clone, Copy, PartialEq, Eq, Structural)]
pub enum LineageTarget {
    ProjectPolicy(PolicyId),
    UserPolicy(PolicyId),
    Decision(DecisionId),
}

#[derive(Debug, Clone, PartialEq, Eq)]
pub enum KnowledgeQuery {
    /// The rules that apply, without a target or a WorkItem.
    Rules {
        scope_layers: Vec<Vec<KnowledgeScope>>,
        directives: Vec<RequestDirective>,
        knowledge: ProjectionKnowledgeRefs,
    },
    /// The WorkItems of each status. Two requests that name the same
    /// statuses are the same request.
    WorkItems {
        statuses: Vec<WorkItemStatus>,
        /// For each status, at most [`MAX_WORK_ITEM_LIST`].
        limit: usize,
    },
    /// One hop of the history of an exact id.
    Lineage(LineageTarget),
    /// The handoffs of a WorkItem, newest first.
    Handoffs {
        work_item: WorkItemId,
        /// At most [`MAX_HANDOFF_HISTORY`].
        limit: usize,
    },
}

#[derive(Debug, Clone, PartialEq, Eq)]
pub struct KnowledgeRequest {
    pub context: QueryContext,
    pub query: KnowledgeQuery,
}

/// What answering takes.
#[derive(Debug, PartialEq, Eq)]
pub enum KnowledgeStep {
    ResolveRules {
        directives: Vec<RequestDirective>,
        knowledge: ProjectionKnowledgeRefs,
        applicability: ApplicabilityContext,
    },
    /// Ask for `fetch` work items of each status, in this order: one more
    /// than the limit, to know whether there are more.
    ListWorkItems { statuses: Vec<WorkItemStatus>, limit: u32, fetch: u32 },
    ReadLineage(LineageTarget),
    /// Ask for `fetch` handoffs: one more than the limit.
    ListHandoffs { work_item: WorkItemId, limit: u32, fetch: u32 },
}

#[derive(Debug, Clone, PartialEq, Eq)]
pub enum KnowledgeResult {
    /// The rules in the planner's order, and the blueprints that were not
    /// applied.
    Rules { evidence: Vec<EvidenceItem>, gaps: Vec<ProjectionGap> },
    WorkItems { items: Vec<WorkItem>, truncated: bool },
    PolicyLineage(PolicyLineage),
    DecisionLineage(DecisionLineage),
    Handoffs { work_item: WorkItemId, handoffs: Vec<WorkHandoff>, truncated: bool },
}

/// The order of the statuses.
pub open spec fn status_order() -> Seq<WorkItemStatus> {
    seq![
        WorkItemStatus::Open,
        WorkItemStatus::Active,
        WorkItemStatus::Blocked,
        WorkItemStatus::Paused,
        WorkItemStatus::Completed,
        WorkItemStatus::Abandoned,
    ]
}

/// The statuses that are named, each once, in their order.
pub open spec fn canonical(statuses: Seq<WorkItemStatus>) -> Seq<WorkItemStatus> {
    status_order().filter(|status: WorkItemStatus| statuses.contains(status))
}

fn holds_status(statuses: &[WorkItemStatus], status: WorkItemStatus) -> (held: bool)
    ensures
        held == statuses@.contains(status),
{
    let mut at: usize = 0;
    while at < statuses.len()
        invariant
            at <= statuses@.len(),
            forall|i: int| 0 <= i < at ==> statuses@[i] != status,
        decreases statuses@.len() - at,
    {
        if statuses[at] == status {
            assert(statuses@[at as int] == status);
            return true;
        }
        at = at + 1;
    }
    false
}

/// The statuses, each once, in their fixed order.
pub fn canonical_statuses(statuses: &[WorkItemStatus]) -> (ordered: Vec<WorkItemStatus>)
    ensures
        ordered@ == canonical(statuses@),
{
    let order = [
        WorkItemStatus::Open,
        WorkItemStatus::Active,
        WorkItemStatus::Blocked,
        WorkItemStatus::Paused,
        WorkItemStatus::Completed,
        WorkItemStatus::Abandoned,
    ];
    let ghost named = |status: WorkItemStatus| statuses@.contains(status);
    let ghost all = order@;
    assert(all =~= status_order());
    let mut ordered: Vec<WorkItemStatus> = Vec::new();
    let mut at: usize = 0;
    reveal_with_fuel(Seq::filter, 1);
    assert(ordered@ =~= all.take(0).filter(named));
    while at < order.len()
        invariant
            at <= all.len(),
            all == order@,
            named == (|status: WorkItemStatus| statuses@.contains(status)),
            ordered@ == all.take(at as int).filter(named),
        decreases all.len() - at,
    {
        proof {
            assert(all.take(at + 1) =~= all.take(at as int).push(all[at as int]));
            all.take(at as int).lemma_filter_push(all[at as int], named);
        }
        if holds_status(statuses, order[at]) {
            ordered.push(order[at]);
        }
        at = at + 1;
    }
    assert(all.take(at as int) =~= all);
    ordered
}

/// Two requests that name the same statuses, in any order and however
/// often, are the same request.
pub proof fn lemma_same_statuses_same_request(
    a: Seq<WorkItemStatus>,
    b: Seq<WorkItemStatus>,
)
    requires
        forall|status: WorkItemStatus| #[trigger] a.contains(status) <==> b.contains(status),
    ensures
        canonical(a) == canonical(b),
{
    let in_a = |status: WorkItemStatus| a.contains(status);
    let in_b = |status: WorkItemStatus| b.contains(status);
    assert(in_a =~= in_b);
}

proof fn lemma_filter_keeps_distinct<T>(all: Seq<T>, keeps: spec_fn(T) -> bool)
    requires
        all.no_duplicates(),
    ensures
        all.filter(keeps).no_duplicates(),
    decreases all.len(),
{
    reveal_with_fuel(Seq::filter, 1);
    if all.len() > 0 {
        let rest = all.drop_last();
        lemma_filter_keeps_distinct(rest, keeps);
        if keeps(all.last()) && rest.filter(keeps).contains(all.last()) {
            rest.lemma_filter_contains_rev(keeps, all.last());
            assert(rest.contains(all.last()));
        }
    }
}

/// What a status appears as in the canonical order: once if it is named,
/// and not otherwise.
pub proof fn lemma_canonical_is_the_set(statuses: Seq<WorkItemStatus>, status: WorkItemStatus)
    ensures
        canonical(statuses).contains(status) <==> statuses.contains(status),
        canonical(statuses).no_duplicates(),
{
    let named = |status: WorkItemStatus| statuses.contains(status);
    let order = status_order();
    assert(order.contains(status)) by {
        match status {
            WorkItemStatus::Open => assert(order[0] == status),
            WorkItemStatus::Active => assert(order[1] == status),
            WorkItemStatus::Blocked => assert(order[2] == status),
            WorkItemStatus::Paused => assert(order[3] == status),
            WorkItemStatus::Completed => assert(order[4] == status),
            WorkItemStatus::Abandoned => assert(order[5] == status),
        }
    }
    assert(order.no_duplicates());
    lemma_filter_keeps_distinct(order, named);
    let at = choose|at: int| 0 <= at < order.len() && order[at] == status;
    if statuses.contains(status) {
        order.lemma_filter_contains(named, at);
    } else if order.filter(named).contains(status) {
        let found = choose|found: int|
            0 <= found < order.filter(named).len() && order.filter(named)[found] == status;
        order.lemma_filter_pred(named, found);
    }
}

// ---------------------------------------------------------------------
// Structure
// ---------------------------------------------------------------------

/// A structural summary of a Workspace.
#[derive(Debug, Clone, PartialEq, Eq)]
pub struct StructuralSummaryRequest {
    pub workspace: WorkspaceId,
    pub directory: Option<String>,
    pub limit: usize,
}

// ---------------------------------------------------------------------
// The surface
// ---------------------------------------------------------------------

/// How often each primitive answered.
#[derive(Debug, Clone, Copy, PartialEq, Eq, Structural)]
pub struct SurfaceStats {
    pub plans: u64,
    pub deliveries: u64,
    pub relation_queries: u64,
    pub file_listings: u64,
    pub text_searches: u64,
    pub rule_resolves: u64,
    pub work_item_lists: u64,
    pub lineage_reads: u64,
    pub handoff_lists: u64,
    pub summaries: u64,
}

impl Default for SurfaceStats {
    fn default() -> (stats: Self)
        ensures
            stats == no_calls(),
    {
        SurfaceStats {
            plans: 0,
            deliveries: 0,
            relation_queries: 0,
            file_listings: 0,
            text_searches: 0,
            rule_resolves: 0,
            work_item_lists: 0,
            lineage_reads: 0,
            handoff_lists: 0,
            summaries: 0,
        }
    }
}

pub open spec fn no_calls() -> SurfaceStats {
    SurfaceStats {
        plans: 0,
        deliveries: 0,
        relation_queries: 0,
        file_listings: 0,
        text_searches: 0,
        rule_resolves: 0,
        work_item_lists: 0,
        lineage_reads: 0,
        handoff_lists: 0,
        summaries: 0,
    }
}

/// The answers that came before the first failure.
pub open spec fn answered<T, E>(outcomes: Seq<Result<T, E>>) -> Seq<T>
    decreases outcomes.len(),
{
    if outcomes.len() == 0 {
        seq![]
    } else {
        match outcomes[0] {
            Ok(answer) => seq![answer] + answered(outcomes.skip(1)),
            Err(_) => seq![],
        }
    }
}

/// The first failure.
pub open spec fn first_failure<T, E>(outcomes: Seq<Result<T, E>>) -> Option<E>
    decreases outcomes.len(),
{
    if outcomes.len() == 0 {
        None
    } else {
        match outcomes[0] {
            Ok(_) => first_failure(outcomes.skip(1)),
            Err(error) => Some(error),
        }
    }
}

/// What a page keeps of a listing that was asked for one more.
pub open spec fn kept_of<T>(page: Seq<T>, limit: int) -> Seq<T> {
    if page.len() > limit {
        page.take(limit)
    } else {
        page
    }
}

/// What the pages keep, one after the other.
pub open spec fn kept_of_all(pages: Seq<Vec<WorkItem>>, limit: int) -> Seq<WorkItem>
    decreases pages.len(),
{
    if pages.len() == 0 {
        seq![]
    } else {
        kept_of_all(pages.drop_last(), limit) + kept_of(pages.last()@, limit)
    }
}

/// Some page had more than the limit.
pub open spec fn any_longer(pages: Seq<Vec<WorkItem>>, limit: int) -> bool {
    exists|i: int| 0 <= i < pages.len() && (#[trigger] pages[i])@.len() > limit
}

/// A limit that a listing may have.
pub open spec fn limit_refused(limit: usize, max: usize) -> Option<CoreError> {
    if limit > max {
        Some(CoreError::InvalidRequest(InvalidRequest::ListLimitTooLarge { limit, max }))
    } else {
        None
    }
}

/// The limit, as a store takes it.
fn limit_at_most(limit: usize, max: usize) -> (outcome: Result<u32, CoreError>)
    requires
        max <= u32::MAX,
    ensures
        match limit_refused(limit, max) {
            Some(error) => outcome == Err::<u32, CoreError>(error),
            None => outcome == Ok::<u32, CoreError>(limit as u32),
        },
{
    if limit > max {
        return Err(CoreError::InvalidRequest(InvalidRequest::ListLimitTooLarge { limit, max }));
    }
    Ok(limit as u32)
}

/// The request for a projection that names its context, its intent and its
/// target, and nothing else.
pub open spec fn plain_request(
    request: ProjectionRequest,
    context: QueryContext,
    intent: ProjectionIntent,
    target: ProjectionTarget,
) -> bool {
    &&& request.workspace == context.workspace
    &&& request.correlation == context.correlation
    &&& request.intent == intent
    &&& request.target == Some(target)
    &&& request.work_item is None
    &&& request.scope_layers@.len() == 0
    &&& request.directives@.len() == 0
    &&& request.knowledge.blueprints@.len() == 0
}

/// The projection that a context asks for.
pub open spec fn context_request(call: ProjectionRequest, request: ContextRequest) -> bool {
    &&& call.workspace == request.context.workspace
    &&& call.correlation == request.context.correlation
    &&& call.scope_layers == request.scope_layers
    &&& call.directives == request.directives
    &&& call.knowledge == request.knowledge
    &&& match request.purpose {
        ContextPurpose::Change { target, change, work_item } => {
            &&& call.intent == ProjectionIntent::Change(change)
            &&& call.target == Some(target)
            &&& call.work_item == work_item
        },
        ContextPurpose::Resume { work_item, target } => {
            &&& call.intent == ProjectionIntent::ResumeHandoff
            &&& call.target == target
            &&& call.work_item == Some(work_item)
        },
    }
}

/// The listing that a request for files asks for.
pub open spec fn asked_files(query: FindQuery) -> FileQueryView {
    match query {
        FindQuery::Files {
            directory,
            recursive,
            path_prefix,
            role,
            language,
            kind,
            limit,
        } => FileQueryView {
            directory: optional_chars(directory),
            recursive,
            path_prefix: optional_chars(path_prefix),
            role,
            language,
            kind,
            limit: Some(limit),
        },
        _ => arbitrary(),
    }
}

/// The search that a request for text asks for.
pub open spec fn asked_text(search: TextSearch, query: FindQuery) -> bool {
    query matches FindQuery::Text {
        pattern,
        case_insensitive,
        path_prefix,
        budget,
        max_file_bytes,
        with_preview,
    } && search == (TextSearch {
        pattern,
        case_insensitive,
        path_prefix,
        reason: FallbackReason::ExplicitTextSearch,
        budget,
        max_file_bytes,
        with_preview,
    })
}

/// What opening a surface comes to: the planner's binding first, then the
/// registry's, then the configuration and the summary.
pub open spec fn opened(
    workspace: WorkspaceId,
    planner: Result<(), PlannerError>,
    registry: Result<GlobalRegistry, RegistryError>,
    config: Result<(), ConfigError>,
    summary: Result<(), SummaryError>,
) -> Option<CoreError> {
    match planner {
        Err(error) => Some(planner_failure(error, workspace, None)),
        Ok(_) => match registry {
            Err(error) => Some(CoreError::Registry(error)),
            Ok(registry) => if !has_workspace(registry.workspaces(), workspace) {
                Some(CoreError::NotInitialized(NotInitialized::WorkspaceNotRegistered))
            } else {
                match config {
                    Err(error) => Some(CoreError::Config(error)),
                    Ok(_) => match summary {
                        Err(error) => Some(CoreError::Summary(error)),
                        Ok(_) => None,
                    },
                }
            },
        },
    }
}

/// The identities of entries, in order.
pub open spec fn entry_ids(entries: Seq<WorkspaceRegistryEntry>) -> Seq<WorkspaceId> {
    entries.map_values(|entry: WorkspaceRegistryEntry| entry.workspace_id)
}

/// The query surface of one Workspace.
#[derive(Debug)]
pub struct CoreQuerySurface {
    workspace: WorkspaceId,
    root: String,
    stats: SurfaceStats,
}

impl CoreQuerySurface {
    pub closed spec fn bound(&self) -> WorkspaceId {
        self.workspace
    }

    /// Where the Workspace is.
    pub closed spec fn located_at(&self) -> Chars {
        self.root@
    }

    pub closed spec fn counted(&self) -> SurfaceStats {
        self.stats
    }

    /// The surface that differs in its counts alone.
    pub open spec fn counts(&self, before: &Self, stats: SurfaceStats) -> bool {
        &&& self.bound() == before.bound()
        &&& self.located_at() == before.located_at()
        &&& self.counted() == stats
    }

    /// Bind to a Workspace, given what opening each of its parts came to.
    /// Nothing is created, initialized or repaired.
    pub fn open(
        workspace: WorkspaceId,
        planner: Result<(), PlannerError>,
        registry: Result<GlobalRegistry, RegistryError>,
        config: Result<(), ConfigError>,
        summary: Result<(), SummaryError>,
    ) -> (outcome: Result<Self, CoreError>)
        requires
            registry matches Ok(held) ==> held.wf(),
        ensures
            match opened(workspace, planner, registry, config, summary) {
                Some(error) => outcome == Err::<Self, CoreError>(error),
                None => outcome matches Ok(surface) && surface.bound() == workspace
                    && surface.counted() == no_calls() && surface.located_at() == the_workspace(
                    registry->Ok_0.workspaces(),
                    workspace,
                ).locator@,
            },
    {
        if let Err(error) = planner {
            return Err(CoreError::planner(error, workspace, None));
        }
        let held = match registry {
            Ok(held) => held,
            Err(error) => return Err(CoreError::Registry(error)),
        };
        let entry = match held.get_workspace(workspace) {
            Some(entry) => entry,
            None => return Err(CoreError::NotInitialized(NotInitialized::WorkspaceNotRegistered)),
        };
        if let Err(error) = config {
            return Err(CoreError::Config(error));
        }
        if let Err(error) = summary {
            return Err(CoreError::Summary(error));
        }
        Ok(CoreQuerySurface { workspace, root: entry.locator, stats: SurfaceStats::default() })
    }

    /// The one Workspace registered at `locator`; none of several. `None`
    /// stands for a registry that does not exist.
    pub fn resolve_workspace(registry: Option<&GlobalRegistry>, locator: &str) -> (outcome: Result<
        WorkspaceId,
        CoreError,
    >)
        ensures
            match registry {
                None => outcome == Err::<WorkspaceId, CoreError>(
                    CoreError::NotInitialized(NotInitialized::GlobalDbMissing),
                ),
                Some(held) => {
                    let there = held.workspaces().filter(
                        |entry: WorkspaceRegistryEntry| entry.locator@ == locator@,
                    );
                    if there.len() == 0 {
                        outcome == Err::<WorkspaceId, CoreError>(
                            CoreError::NotInitialized(NotInitialized::WorkspaceNotRegistered),
                        )
                    } else if there.len() == 1 {
                        outcome == Ok::<WorkspaceId, CoreError>(there[0].workspace_id)
                    } else {
                        outcome matches Err(CoreError::WorkspaceLocatorAmbiguous { workspaces })
                            && workspaces@ == entry_ids(there)
                    }
                },
            },
    {
        let held = match registry {
            Some(held) => held,
            None => return Err(CoreError::NotInitialized(NotInitialized::GlobalDbMissing)),
        };
        let candidates = held.find_by_locator(locator);
        if candidates.workspaces.len() == 0 {
            return Err(CoreError::NotInitialized(NotInitialized::WorkspaceNotRegistered));
        }
        if candidates.workspaces.len() == 1 {
            return Ok(candidates.workspaces[0].workspace_id);
        }
        let ghost there = candidates.workspaces@;
        let mut workspaces: Vec<WorkspaceId> = Vec::new();
        let mut at: usize = 0;
        while at < candidates.workspaces.len()
            invariant
                at <= there.len(),
                there == candidates.workspaces@,
                workspaces@ == entry_ids(there.take(at as int)),
            decreases there.len() - at,
        {
            workspaces.push(candidates.workspaces[at].workspace_id);
            assert(there.take(at + 1) =~= there.take(at as int).push(there[at as int]));
            assert(workspaces@ =~= entry_ids(there.take(at + 1)));
            at = at + 1;
        }
        assert(there.take(at as int) =~= there);
        Err(CoreError::WorkspaceLocatorAmbiguous { workspaces })
    }

    pub fn workspace(&self) -> (workspace: WorkspaceId)
        ensures
            workspace == self.bound(),
    {
        self.workspace
    }

    /// Where the Workspace is.
    pub fn root(&self) -> (root: &str)
        ensures
            root@ == self.located_at(),
    {
        self.root.as_str()
    }

    pub fn stats(&self) -> (stats: SurfaceStats)
        ensures
            stats == self.counted(),
    {
        self.stats
    }

    /// Whether the request is for the bound Workspace.
    fn check(&self, requested: WorkspaceId) -> (outcome: Result<(), CoreError>)
        ensures
            requested == self.bound() ==> outcome == Ok::<(), CoreError>(()),
            requested != self.bound() ==> outcome == Err::<(), CoreError>(
                CoreError::WorkspaceMismatch { bound: self.bound(), requested },
            ),
    {
        if requested == self.workspace {
            Ok(())
        } else {
            Err(CoreError::WorkspaceMismatch { bound: self.workspace, requested })
        }
    }

    /// The request that names its context, its intent and its target.
    fn request(
        &self,
        context: QueryContext,
        intent: ProjectionIntent,
        target: ProjectionTarget,
    ) -> (request: ProjectionRequest)
        ensures
            plain_request(request, context, intent, target),
    {
        let mut request = ProjectionRequest::new(context.workspace, intent);
        request.correlation = context.correlation;
        request.target = Some(target);
        request
    }

    /// A plan came back. Every call plans anew, so what is shown is judged
    /// on what was just verified. `work_item` is the one that the request
    /// names.
    pub fn planned(
        &mut self,
        work_item: Option<WorkItemId>,
        outcome: Result<PreparedProjection, PlannerError>,
    ) -> (answer: Result<PreparedProjection, CoreError>)
        requires
            old(self).counted().plans < u64::MAX,
        ensures
            match outcome {
                Ok(projection) => {
                    &&& answer == Ok::<PreparedProjection, CoreError>(projection)
                    &&& final(self).counts(
                        old(self),
                        SurfaceStats {
                            plans: (old(self).counted().plans + 1) as u64,
                            ..old(self).counted()
                        },
                    )
                },
                Err(error) => {
                    &&& answer == Err::<PreparedProjection, CoreError>(
                        planner_failure(error, old(self).bound(), work_item),
                    )
                    &&& *final(self) == *old(self)
                },
            },
    {
        match outcome {
            Ok(projection) => {
                self.stats.plans = self.stats.plans + 1;
                Ok(projection)
            },
            Err(error) => Err(CoreError::planner(error, self.workspace, work_item)),
        }
    }

    /// A page of the projection came back.
    pub fn delivered(
        &mut self,
        projection: &PreparedProjection,
        outcome: Result<PendingDelivery, DeliveryError>,
    ) -> (answer: Result<ProjectedAnswer, CoreError>)
        requires
            old(self).counted().deliveries < u64::MAX,
        ensures
            match outcome {
                Ok(delivery) => {
                    &&& answer == Ok::<ProjectedAnswer, CoreError>(
                        ProjectedAnswer {
                            target: resolution_of(*projection),
                            currentness: currentness_of(projection.evidence@),
                            delivery,
                        },
                    )
                    &&& final(self).counts(
                        old(self),
                        SurfaceStats {
                            deliveries: (old(self).counted().deliveries + 1) as u64,
                            ..old(self).counted()
                        },
                    )
                },
                Err(error) => {
                    &&& answer == Err::<ProjectedAnswer, CoreError>(CoreError::Delivery(error))
                    &&& *final(self) == *old(self)
                },
            },
    {
        match outcome {
            Ok(delivery) => {
                self.stats.deliveries = self.stats.deliveries + 1;
                Ok(
                    ProjectedAnswer {
                        target: TargetResolution::of(projection),
                        currentness: currentness(projection.evidence.as_slice()),
                        delivery,
                    },
                )
            },
            Err(error) => Err(CoreError::Delivery(error)),
        }
    }

    /// What finding takes. Files are listed here and now.
    pub fn find(&mut self, index: &QueryIndex, request: FindRequest) -> (step: Result<
        FindStep,
        CoreError,
    >)
        requires
            old(self).counted().file_listings < u64::MAX,
        ensures
            request.context.workspace != old(self).bound() ==> step == Err::<FindStep, CoreError>(
                CoreError::WorkspaceMismatch {
                    bound: old(self).bound(),
                    requested: request.context.workspace,
                },
            ) && *final(self) == *old(self),
            request.context.workspace == old(self).bound() ==> match request.query {
                FindQuery::Target { target, delivery } => {
                    &&& step matches Ok(FindStep::Project(call))
                    &&& call.delivery == delivery
                    &&& plain_request(
                        call.request,
                        request.context,
                        ProjectionIntent::Locate,
                        target,
                    )
                    &&& *final(self) == *old(self)
                },
                FindQuery::Files { limit, .. } => match limit_refused(
                    limit,
                    DEFAULT_CANDIDATE_LIMIT,
                ) {
                    Some(error) => step == Err::<FindStep, CoreError>(error) && *final(self)
                        == *old(self),
                    None => {
                        &&& step matches Ok(FindStep::Done(FindResult::Files(listing)))
                        &&& is_listing(
                            index.rows(),
                            index.freshness(),
                            asked_files(request.query),
                            listing,
                        )
                        &&& final(self).counts(
                            old(self),
                            SurfaceStats {
                                file_listings: (old(self).counted().file_listings + 1) as u64,
                                ..old(self).counted()
                            },
                        )
                    },
                },
                FindQuery::Text { budget, max_file_bytes, .. } => {
                    &&& *final(self) == *old(self)
                    &&& if budget_invalid(budget, max_file_bytes) {
                        step == Err::<FindStep, CoreError>(
                            CoreError::InvalidRequest(InvalidRequest::SearchBudgetInvalid),
                        )
                    } else {
                        step matches Ok(FindStep::Search(search)) && asked_text(
                            search,
                            request.query,
                        )
                    }
                },
            },
    {
        if let Err(error) = self.check(request.context.workspace) {
            return Err(error);
        }
        match request.query {
            FindQuery::Target { target, delivery } => {
                let plan = self.request(request.context, ProjectionIntent::Locate, target);
                Ok(FindStep::Project(ProjectionCall { request: plan, delivery }))
            },
            FindQuery::Files { directory, recursive, path_prefix, role, language, kind, limit } => {
                if let Err(error) = limit_at_most(limit, DEFAULT_CANDIDATE_LIMIT) {
                    return Err(error);
                }
                let query = FileQuery {
                    directory: match &directory {
                        Some(text) => Some(text.as_str()),
                        None => None,
                    },
                    recursive,
                    path_prefix: match &path_prefix {
                        Some(text) => Some(text.as_str()),
                        None => None,
                    },
                    role,
                    language,
                    kind,
                    limit: Some(limit),
                };
                let listing = index.list_files(&query);
                self.stats.file_listings = self.stats.file_listings + 1;
                Ok(FindStep::Done(FindResult::Files(listing)))
            },
            FindQuery::Text {
                pattern,
                case_insensitive,
                path_prefix,
                budget,
                max_file_bytes,
                with_preview,
            } => {
                if is_budget_invalid(&budget, max_file_bytes) {
                    return Err(CoreError::InvalidRequest(InvalidRequest::SearchBudgetInvalid));
                }
                Ok(
                    FindStep::Search(
                        TextSearch {
                            pattern,
                            case_insensitive,
                            path_prefix,
                            reason: FallbackReason::ExplicitTextSearch,
                            budget,
                            max_file_bytes,
                            with_preview,
                        },
                    ),
                )
            },
        }
    }

    /// A text search came back.
    pub fn searched(&mut self, outcome: Result<TextSearchResult, SearchError>) -> (answer: Result<
        FindResult,
        CoreError,
    >)
        requires
            old(self).counted().text_searches < u64::MAX,
        ensures
            match outcome {
                Ok(result) => {
                    &&& answer == Ok::<FindResult, CoreError>(FindResult::Text(result))
                    &&& final(self).counts(
                        old(self),
                        SurfaceStats {
                            text_searches: (old(self).counted().text_searches + 1) as u64,
                            ..old(self).counted()
                        },
                    )
                },
                Err(error) => {
                    &&& answer == Err::<FindResult, CoreError>(CoreError::Search(error))
                    &&& *final(self) == *old(self)
                },
            },
    {
        match outcome {
            Ok(result) => {
                self.stats.text_searches = self.stats.text_searches + 1;
                Ok(FindResult::Text(result))
            },
            Err(error) => Err(CoreError::Search(error)),
        }
    }

    /// The target with its current declaration and its direct relations.
    pub fn inspect(&self, request: InspectRequest) -> (call: Result<ProjectionCall, CoreError>)
        ensures
            request.context.workspace != self.bound() ==> call == Err::<ProjectionCall, CoreError>(
                CoreError::WorkspaceMismatch {
                    bound: self.bound(),
                    requested: request.context.workspace,
                },
            ),
            request.context.workspace == self.bound() ==> (call matches Ok(held) && held.delivery
                == request.delivery && plain_request(
                held.request,
                request.context,
                ProjectionIntent::Understand,
                request.target,
            )),
    {
        if let Err(error) = self.check(request.context.workspace) {
            return Err(error);
        }
        let plan = self.request(request.context, ProjectionIntent::Understand, request.target);
        Ok(ProjectionCall { request: plan, delivery: request.delivery })
    }

    /// What a declared change reaches.
    pub fn impact(&self, request: ImpactRequest) -> (call: Result<ProjectionCall, CoreError>)
        ensures
            request.context.workspace != self.bound() ==> call == Err::<ProjectionCall, CoreError>(
                CoreError::WorkspaceMismatch {
                    bound: self.bound(),
                    requested: request.context.workspace,
                },
            ),
            request.context.workspace == self.bound() ==> (call matches Ok(held) && held.delivery
                == request.delivery && plain_request(
                held.request,
                request.context,
                ProjectionIntent::Impact(request.change),
                request.target,
            )),
    {
        if let Err(error) = self.check(request.context.workspace) {
            return Err(error);
        }
        let plan = self.request(
            request.context,
            ProjectionIntent::Impact(request.change),
            request.target,
        );
        Ok(ProjectionCall { request: plan, delivery: request.delivery })
    }

    /// The direct relations of one anchor: locate it first.
    pub fn relations(&self, request: RelationsRequest) -> (call: Result<RelationsCall, CoreError>)
        ensures
            request.context.workspace != self.bound() ==> call == Err::<RelationsCall, CoreError>(
                CoreError::WorkspaceMismatch {
                    bound: self.bound(),
                    requested: request.context.workspace,
                },
            ),
            request.context.workspace == self.bound() ==> (call matches Ok(held) && held.direction
                == request.direction && held.kinds == request.kinds && plain_request(
                held.locate,
                request.context,
                ProjectionIntent::Locate,
                request.target,
            )),
    {
        if let Err(error) = self.check(request.context.workspace) {
            return Err(error);
        }
        let locate = self.request(request.context, ProjectionIntent::Locate, request.target);
        Ok(RelationsCall { locate, direction: request.direction, kinds: request.kinds })
    }

    /// The relation index answered each of the queries, in their order.
    pub fn related(
        &mut self,
        projection: PreparedProjection,
        outcomes: Vec<Result<RelationAnswer, RelationError>>,
    ) -> (answer: Result<RelationsResult, CoreError>)
        requires
            old(self).counted().relation_queries + outcomes@.len() <= u64::MAX,
        ensures
            final(self).counts(
                old(self),
                SurfaceStats {
                    relation_queries: (old(self).counted().relation_queries + answered(
                        outcomes@,
                    ).len()) as u64,
                    ..old(self).counted()
                },
            ),
            match first_failure(outcomes@) {
                Some(error) => answer == Err::<RelationsResult, CoreError>(
                    CoreError::Relation(error),
                ),
                None => answer matches Ok(result) && result.target == resolution_of(projection)
                    && result.currentness == currentness_of(projection.evidence@)
                    && result.selection == projection.evidence && result.answers@ == answered(
                    outcomes@,
                ),
            },
    {
        let ghost all = outcomes@;
        let ghost before = self.counted();
        let mut rest = outcomes;
        let mut answers: Vec<RelationAnswer> = Vec::new();
        while rest.len() > 0
            invariant
                self.counts(
                    old(self),
                    SurfaceStats {
                        relation_queries: (before.relation_queries + answers@.len()) as u64,
                        ..before
                    },
                ),
                before == old(self).counted(),
                all == outcomes@,
                answered(all) == answers@ + answered(rest@),
                first_failure(all) == first_failure(rest@),
                before.relation_queries + answers@.len() + rest@.len() <= u64::MAX,
            decreases rest@.len(),
        {
            let ghost held = rest@;
            let ghost given = answers@;
            let first = rest.remove(0);
            assert(rest@ =~= held.skip(1));
            match first {
                Ok(found) => {
                    answers.push(found);
                    self.stats.relation_queries = self.stats.relation_queries + 1;
                    assert(answered(all) =~= answers@ + answered(rest@));
                },
                Err(error) => {
                    assert(answered(all) =~= given);
                    return Err(CoreError::Relation(error));
                },
            }
        }
        assert(answered(all) =~= answers@);
        Ok(
            RelationsResult {
                target: TargetResolution::of(&projection),
                currentness: currentness(projection.evidence.as_slice()),
                selection: projection.evidence,
                answers,
            },
        )
    }

    /// What a change or a resumed piece of work needs: one request, built
    /// from these fields alone, so that a continuation matches it.
    pub fn context(&self, request: ContextRequest) -> (call: Result<ProjectionCall, CoreError>)
        ensures
            request.context.workspace != self.bound() ==> call == Err::<ProjectionCall, CoreError>(
                CoreError::WorkspaceMismatch {
                    bound: self.bound(),
                    requested: request.context.workspace,
                },
            ),
            request.context.workspace == self.bound() ==> (call matches Ok(held) && held.delivery
                == request.delivery && context_request(held.request, request)),
    {
        if let Err(error) = self.check(request.context.workspace) {
            return Err(error);
        }
        let (intent, target, work_item) = match request.purpose {
            ContextPurpose::Change { target, change, work_item } => (
                ProjectionIntent::Change(change),
                Some(target),
                work_item,
            ),
            ContextPurpose::Resume { work_item, target } => (
                ProjectionIntent::ResumeHandoff,
                target,
                Some(work_item),
            ),
        };
        let plan = ProjectionRequest {
            workspace: request.context.workspace,
            intent,
            target,
            work_item,
            scope_layers: request.scope_layers,
            directives: request.directives,
            knowledge: request.knowledge,
            correlation: request.context.correlation,
        };
        Ok(ProjectionCall { request: plan, delivery: request.delivery })
    }

    /// What answering about rules and work takes.
    pub fn knowledge(&self, request: KnowledgeRequest) -> (step: Result<KnowledgeStep, CoreError>)
        ensures
            request.context.workspace != self.bound() ==> step == Err::<KnowledgeStep, CoreError>(
                CoreError::WorkspaceMismatch {
                    bound: self.bound(),
                    requested: request.context.workspace,
                },
            ),
            request.context.workspace == self.bound() ==> match request.query {
                KnowledgeQuery::Rules {
                    scope_layers,
                    directives,
                    knowledge,
                } => match applicability(
                    self.bound(),
                    layers_view(scope_layers@),
                    directives@,
                    request.context.correlation,
                ) {
                    Err(error) => step matches Err(
                        CoreError::InvalidRequest(InvalidRequest::Projection(held)),
                    ) && held@ == error,
                    Ok(layers) => {
                        &&& step matches Ok(KnowledgeStep::ResolveRules {
                            directives: asked,
                            knowledge: named,
                            applicability: context,
                        })
                        &&& asked == directives
                        &&& named == knowledge
                        &&& context.wf()
                        &&& context@ == layers
                    },
                },
                KnowledgeQuery::WorkItems { statuses, limit } => match limit_refused(
                    limit,
                    MAX_WORK_ITEM_LIST,
                ) {
                    Some(error) => step == Err::<KnowledgeStep, CoreError>(error),
                    None => step matches Ok(
                        KnowledgeStep::ListWorkItems { statuses: asked, limit: held, fetch },
                    ) && asked@ == canonical(statuses@) && held == limit && fetch == limit + 1,
                },
                KnowledgeQuery::Lineage(target) => step == Ok::<KnowledgeStep, CoreError>(
                    KnowledgeStep::ReadLineage(target),
                ),
                KnowledgeQuery::Handoffs { work_item, limit } => match limit_refused(
                    limit,
                    MAX_HANDOFF_HISTORY,
                ) {
                    Some(error) => step == Err::<KnowledgeStep, CoreError>(error),
                    None => step == Ok::<KnowledgeStep, CoreError>(
                        KnowledgeStep::ListHandoffs {
                            work_item,
                            limit: limit as u32,
                            fetch: (limit + 1) as u32,
                        },
                    ),
                },
            },
    {
        if let Err(error) = self.check(request.context.workspace) {
            return Err(error);
        }
        match request.query {
            KnowledgeQuery::Rules { scope_layers, directives, knowledge } => {
                match validate_applicability(
                    request.context.workspace,
                    scope_layers.as_slice(),
                    directives.as_slice(),
                    &request.context.correlation,
                ) {
                    Ok(applicability) => Ok(
                        KnowledgeStep::ResolveRules { directives, knowledge, applicability },
                    ),
                    Err(error) => Err(CoreError::InvalidRequest(InvalidRequest::Projection(error))),
                }
            },
            KnowledgeQuery::WorkItems { statuses, limit } => match limit_at_most(
                limit,
                MAX_WORK_ITEM_LIST,
            ) {
                Ok(limit) => Ok(
                    KnowledgeStep::ListWorkItems {
                        statuses: canonical_statuses(statuses.as_slice()),
                        limit,
                        fetch: limit + 1,
                    },
                ),
                Err(error) => Err(error),
            },
            KnowledgeQuery::Lineage(target) => Ok(KnowledgeStep::ReadLineage(target)),
            KnowledgeQuery::Handoffs { work_item, limit } => match limit_at_most(
                limit,
                MAX_HANDOFF_HISTORY,
            ) {
                Ok(limit) => Ok(
                    KnowledgeStep::ListHandoffs { work_item, limit, fetch: limit + 1 },
                ),
                Err(error) => Err(error),
            },
        }
    }

    /// The rules came back.
    pub fn rules_resolved(
        &mut self,
        outcome: Result<(Vec<EvidenceItem>, Vec<ProjectionGap>), PlannerError>,
    ) -> (answer: Result<KnowledgeResult, CoreError>)
        requires
            old(self).counted().rule_resolves < u64::MAX,
        ensures
            match outcome {
                Ok((evidence, gaps)) => {
                    &&& answer == Ok::<KnowledgeResult, CoreError>(
                        KnowledgeResult::Rules { evidence, gaps },
                    )
                    &&& final(self).counts(
                        old(self),
                        SurfaceStats {
                            rule_resolves: (old(self).counted().rule_resolves + 1) as u64,
                            ..old(self).counted()
                        },
                    )
                },
                Err(error) => {
                    &&& answer == Err::<KnowledgeResult, CoreError>(
                        planner_failure(error, old(self).bound(), None),
                    )
                    &&& *final(self) == *old(self)
                },
            },
    {
        match outcome {
            Ok((evidence, gaps)) => {
                self.stats.rule_resolves = self.stats.rule_resolves + 1;
                Ok(KnowledgeResult::Rules { evidence, gaps })
            },
            Err(error) => Err(CoreError::planner(error, self.workspace, None)),
        }
    }

    /// A page for each status came back, in their order. Each was asked for
    /// one more than the limit, which tells whether there is more.
    pub fn work_items_listed(
        &mut self,
        limit: u32,
        pages: Vec<Result<Vec<WorkItem>, KnowledgeError>>,
    ) -> (answer: Result<KnowledgeResult, CoreError>)
        requires
            old(self).counted().work_item_lists + pages@.len() <= u64::MAX,
        ensures
            final(self).counts(
                old(self),
                SurfaceStats {
                    work_item_lists: (old(self).counted().work_item_lists + answered(
                        pages@,
                    ).len()) as u64,
                    ..old(self).counted()
                },
            ),
            match first_failure(pages@) {
                Some(error) => answer == Err::<KnowledgeResult, CoreError>(
                    CoreError::Knowledge(error),
                ),
                None => answer matches Ok(KnowledgeResult::WorkItems { items, truncated }) && items@
                    == kept_of_all(answered(pages@), limit as int) && truncated == any_longer(
                    answered(pages@),
                    limit as int,
                ),
            },
    {
        let ghost all = pages@;
        let ghost before = self.counted();
        let ghost mut given: Seq<Vec<WorkItem>> = seq![];
        let mut rest = pages;
        let mut items: Vec<WorkItem> = Vec::new();
        let mut truncated = false;
        while rest.len() > 0
            invariant
                self.counts(
                    old(self),
                    SurfaceStats {
                        work_item_lists: (before.work_item_lists + given.len()) as u64,
                        ..before
                    },
                ),
                before == old(self).counted(),
                all == pages@,
                answered(all) == given + answered(rest@),
                first_failure(all) == first_failure(rest@),
                items@ == kept_of_all(given, limit as int),
                truncated == any_longer(given, limit as int),
                before.work_item_lists + given.len() + rest@.len() <= u64::MAX,
            decreases rest@.len(),
        {
            let ghost held = rest@;
            let ghost earlier = given;
            let first = rest.remove(0);
            assert(rest@ =~= held.skip(1));
            match first {
                Ok(found) => {
                    proof {
                        given = earlier.push(found);
                        assert(given.drop_last() =~= earlier);
                        assert(answered(all) =~= given + answered(rest@));
                    }
                    self.stats.work_item_lists = self.stats.work_item_lists + 1;
                    if found.len() > limit as usize {
                        truncated = true;
                        assert(given[earlier.len() as int]@.len() > limit);
                    }
                    proof {
                        if any_longer(earlier, limit as int) {
                            let i = choose|i: int|
                                0 <= i < earlier.len() && (#[trigger] earlier[i])@.len() > limit;
                            assert(given[i]@.len() > limit);
                        }
                        if any_longer(given, limit as int) {
                            let i = choose|i: int|
                                0 <= i < given.len() && (#[trigger] given[i])@.len() > limit;
                            if i < earlier.len() {
                                assert(earlier[i]@.len() > limit);
                            }
                        }
                    }
                    let ghost whole = found@;
                    let mut page = found;
                    page.truncate(limit as usize);
                    assert(page@ =~= kept_of(whole, limit as int));
                    items.append(&mut page);
                    assert(items@ =~= kept_of_all(given, limit as int));
                },
                Err(error) => {
                    assert(answered(all) =~= given);
                    return Err(CoreError::Knowledge(error));
                },
            }
        }
        assert(answered(all) =~= given);
        Ok(KnowledgeResult::WorkItems { items, truncated })
    }

    /// One hop of a history came back.
    pub fn lineage_read(&mut self, outcome: Result<KnowledgeResult, KnowledgeError>) -> (answer:
        Result<KnowledgeResult, CoreError>)
        requires
            old(self).counted().lineage_reads < u64::MAX,
        ensures
            match outcome {
                Ok(result) => {
                    &&& answer == Ok::<KnowledgeResult, CoreError>(result)
                    &&& final(self).counts(
                        old(self),
                        SurfaceStats {
                            lineage_reads: (old(self).counted().lineage_reads + 1) as u64,
                            ..old(self).counted()
                        },
                    )
                },
                Err(error) => {
                    &&& answer == Err::<KnowledgeResult, CoreError>(CoreError::Knowledge(error))
                    &&& *final(self) == *old(self)
                },
            },
    {
        match outcome {
            Ok(result) => {
                self.stats.lineage_reads = self.stats.lineage_reads + 1;
                Ok(result)
            },
            Err(error) => Err(CoreError::Knowledge(error)),
        }
    }

    /// The handoffs of a WorkItem came back, having been asked for one more
    /// than the limit.
    pub fn handoffs_listed(
        &mut self,
        work_item: WorkItemId,
        limit: u32,
        outcome: Result<Vec<WorkHandoff>, KnowledgeError>,
    ) -> (answer: Result<KnowledgeResult, CoreError>)
        requires
            old(self).counted().handoff_lists < u64::MAX,
        ensures
            match outcome {
                Ok(found) => {
                    &&& answer matches Ok(
                        KnowledgeResult::Handoffs { work_item: named, handoffs, truncated },
                    )
                    &&& named == work_item
                    &&& handoffs@ == kept_of(found@, limit as int)
                    &&& truncated == (found@.len() > limit)
                    &&& final(self).counts(
                        old(self),
                        SurfaceStats {
                            handoff_lists: (old(self).counted().handoff_lists + 1) as u64,
                            ..old(self).counted()
                        },
                    )
                },
                Err(error) => {
                    &&& answer == Err::<KnowledgeResult, CoreError>(
                        knowledge_failure(error, Some(work_item)),
                    )
                    &&& *final(self) == *old(self)
                },
            },
    {
        match outcome {
            Ok(found) => {
                self.stats.handoff_lists = self.stats.handoff_lists + 1;
                let truncated = found.len() > limit as usize;
                let ghost whole = found@;
                let mut handoffs = found;
                handoffs.truncate(limit as usize);
                assert(handoffs@ =~= kept_of(whole, limit as int));
                Ok(KnowledgeResult::Handoffs { work_item, handoffs, truncated })
            },
            Err(error) => Err(CoreError::knowledge(error, Some(work_item))),
        }
    }

    /// Whether a structural summary may be asked for.
    pub fn structure(&self, request: &StructuralSummaryRequest) -> (outcome: Result<(), CoreError>)
        ensures
            request.workspace == self.bound() ==> outcome == Ok::<(), CoreError>(()),
            request.workspace != self.bound() ==> outcome == Err::<(), CoreError>(
                CoreError::WorkspaceMismatch {
                    bound: self.bound(),
                    requested: request.workspace,
                },
            ),
    {
        self.check(request.workspace)
    }

    /// A structural summary came back. It is answered as it is.
    pub fn summarized<S>(&mut self, outcome: Result<S, SummaryError>) -> (answer: Result<
        S,
        CoreError,
    >)
        requires
            old(self).counted().summaries < u64::MAX,
        ensures
            match outcome {
                Ok(summary) => {
                    &&& answer == Ok::<S, CoreError>(summary)
                    &&& final(self).counts(
                        old(self),
                        SurfaceStats {
                            summaries: (old(self).counted().summaries + 1) as u64,
                            ..old(self).counted()
                        },
                    )
                },
                Err(SummaryError::Invalid(error)) => {
                    &&& answer == Err::<S, CoreError>(
                        CoreError::InvalidRequest(InvalidRequest::Summary(error)),
                    )
                    &&& *final(self) == *old(self)
                },
                Err(error) => {
                    &&& answer == Err::<S, CoreError>(CoreError::Summary(error))
                    &&& *final(self) == *old(self)
                },
            },
    {
        match outcome {
            Ok(summary) => {
                self.stats.summaries = self.stats.summaries + 1;
                Ok(summary)
            },
            Err(SummaryError::Invalid(error)) => Err(
                CoreError::InvalidRequest(InvalidRequest::Summary(error)),
            ),
            Err(SummaryError::Failed { detail }) => Err(
                CoreError::Summary(SummaryError::Failed { detail }),
            ),
        }
    }
}

} // verus!
