//! How values and failures are put into words.

use vstd::prelude::*;

use crate::json::{json_form, json_forms, list_form, member_forms, JsonView, NumberView};
use crate::knowledge::{KnowledgeError, ResolveError, WorkError};
use crate::model::{ProjectId, ResourceId, WorkItemId, WorkspaceId};
use crate::projection::{CorrelationField, ProjectionRequestError};
use crate::python_semantic::conversation::{batch_words, BatchError};
use crate::python_semantic::coordinates::{Position, Range};
use crate::python_semantic::forms::{
    call_form, location_form, option_form, optional_text_form, position_form, range_form,
    response_form, type_form,
};
use crate::python_semantic::protocol::{
    IncomingCallView, LocationView, ResponseView, TypeAnswerView,
};
use crate::query::QueryError;
use crate::query_surface::{
    core_words, invalid_words, knowledge_words, missing_words, planner_words, request_words,
    resolve_words, work_words, CoreError, InvalidRequest, NotInitialized, PlannerError,
};
use crate::registry::{registry_words, RegistryError};
use crate::runtime::{failure_words, HostError, RequestFailure};
use crate::scan_error::{error_words, ScanErrorView};
use crate::text::{debug_form, decimal, join, Chars};

verus! {

// ---------------------------------------------------------------------
// Debugging forms
// ---------------------------------------------------------------------

/// A place shows its line before its character, and a range its start before
/// its end.
pub proof fn law_a_place_shows_line_then_character(line: u32, character: u32, start: Position, end: Position)
    ensures
        position_form(Position { line, character }) == "Position { line: "@ + decimal(line as int)
            + ", character: "@ + decimal(character as int) + " }"@,
        range_form(Range { start, end }) == "Range { start: "@ + position_form(start) + ", end: "@
            + position_form(end) + " }"@,
{
}

/// A location shows its document quoted, then its range.
pub proof fn law_a_location_shows_its_document_and_range(uri: Chars, range: Range)
    ensures
        location_form(LocationView { uri, range }) == "Location { uri: "@ + debug_form(uri)
            + ", range: "@ + range_form(range) + " }"@,
{
}

/// What may be missing shows as `Some(..)` or `None`, a text in quotes.
pub proof fn law_what_may_be_missing_shows_it(form: Chars, text: Chars)
    ensures
        option_form(Some(form)) == "Some"@ + "("@ + form + ")"@,
        option_form(None) == "None"@,
        optional_text_form(Some(text)) == "Some"@ + "("@ + debug_form(text) + ")"@,
        optional_text_form(None) == "None"@,
{
}

/// A type shows its declaration, its module's name and its module's document,
/// in that order.
pub proof fn law_a_type_shows_all_it_names(
    declaration: LocationView,
    module_name: Option<Chars>,
    module_uri: Option<Chars>,
)
    ensures
        type_form(TypeAnswerView { declaration: None, module_name, module_uri })
            == "TypeAnswer { declaration: "@ + "None"@ + ", module_name: "@ + optional_text_form(
            module_name,
        ) + ", module_uri: "@ + optional_text_form(module_uri) + " }"@,
        type_form(TypeAnswerView { declaration: Some(declaration), module_name, module_uri })
            == "TypeAnswer { declaration: "@ + ("Some"@ + "("@ + location_form(declaration) + ")"@)
            + ", module_name: "@ + optional_text_form(module_name) + ", module_uri: "@
            + optional_text_form(module_uri) + " }"@,
{
}

/// A caller shows where it is, then the ranges it calls from.
pub proof fn law_a_caller_shows_its_ranges(from: LocationView, from_ranges: Seq<Range>)
    ensures
        call_form(IncomingCallView { from, from_ranges }) == "IncomingCall { from: "@
            + location_form(from) + ", from_ranges: "@ + list_form(
            from_ranges.map_values(|range: Range| range_form(range)),
        ) + " }"@,
{
}

/// A list shows its items between square brackets, in order.
pub proof fn law_a_list_shows_its_items(items: Seq<Chars>, one: Chars, next: Chars)
    ensures
        list_form(items) == "["@ + join(items, ", "@) + "]"@,
        list_form(Seq::empty()) == "["@ + "]"@,
        list_form(seq![one, next]) == "["@ + (one + ", "@ + next) + "]"@,
{
    reveal_with_fuel(join, 3);
    assert(seq![one, next].drop_last() =~= seq![one]);
    assert("["@ + Seq::<char>::empty() =~= "["@);
}

/// An answer shows the name of its kind and what it holds.
pub proof fn law_an_answer_shows_its_kind(
    version: Chars,
    snapshot: u64,
    uri: Option<Chars>,
    locations: Seq<LocationView>,
    paths: Seq<Chars>,
)
    ensures
        response_form(ResponseView::ProtocolVersion(version)) == "ProtocolVersion"@ + "("@
            + debug_form(version) + ")"@,
        response_form(ResponseView::Snapshot(snapshot)) == "Snapshot"@ + "("@ + decimal(
            snapshot as int,
        ) + ")"@,
        response_form(ResponseView::SearchPaths(paths)) == "SearchPaths"@ + "("@ + list_form(
            paths.map_values(|path: Chars| debug_form(path)),
        ) + ")"@,
        response_form(ResponseView::Import(uri)) == "Import"@ + "("@ + optional_text_form(uri)
            + ")"@,
        response_form(ResponseView::Type(None)) == "Type"@ + "("@ + "None"@ + ")"@,
        response_form(ResponseView::Locations(locations)) == "Locations"@ + "("@ + list_form(
            locations.map_values(|location: LocationView| location_form(location)),
        ) + ")"@,
        response_form(ResponseView::Unsupported(version)) == "Unsupported"@ + "("@ + debug_form(
            version,
        ) + ")"@,
        response_form(ResponseView::SnapshotStale) == "SnapshotStale"@,
        response_form(ResponseView::Delivered) == "Delivered"@,
{
}

/// A JSON value shows the name of its kind and what it holds: items and
/// members in their order, each member behind its quoted name.
pub proof fn law_a_value_shows_its_kind(
    text: Chars,
    number: u64,
    items: Seq<JsonView>,
    next: JsonView,
    members: Seq<(Chars, JsonView)>,
    name: Chars,
)
    ensures
        json_form(JsonView::Null) == "Null"@,
        json_form(JsonView::Bool(true)) == "Bool(true)"@,
        json_form(JsonView::Bool(false)) == "Bool(false)"@,
        json_form(JsonView::Text(text)) == "String("@ + debug_form(text) + ")"@,
        json_form(JsonView::Number(NumberView::Unsigned(number))) == "Number("@ + decimal(
            number as int,
        ) + ")"@,
        json_form(JsonView::Number(NumberView::Literal(text))) == "Number("@ + text + ")"@,
        json_form(JsonView::Array(items)) == "Array "@ + list_form(json_forms(items)),
        json_form(JsonView::Object(members)) == "Object {"@ + join(member_forms(members), ", "@)
            + "}"@,
        json_forms(items.push(next)) == json_forms(items).push(json_form(next)),
        member_forms(members.push((name, next))) == member_forms(members).push(
            debug_form(name) + ": "@ + json_form(next),
        ),
{
    assert(items.push(next).subrange(0, items.len() as int) =~= items);
    assert(members.push((name, next)).subrange(0, members.len() as int) =~= members);
}

// ---------------------------------------------------------------------
// Failures
// ---------------------------------------------------------------------

/// A request that failed says how.
pub proof fn law_a_failed_request_says_how(error: HostError, after_ms: u64)
    ensures
        failure_words(RequestFailure::Backend(error)) == error.message@,
        failure_words(RequestFailure::TimedOut { after_ms }) == "timed out after "@ + decimal(
            after_ms as int,
        ) + " ms"@,
        failure_words(RequestFailure::Cancelled) == "cancelled"@,
{
}

/// A batch that failed says how, and how often it was tried.
pub proof fn law_a_failed_batch_says_how(attempts: u32, failure: RequestFailure, detail: String)
    ensures
        batch_words(BatchError::SnapshotStale) == "the backend snapshot moved"@,
        batch_words(BatchError::RetriesExhausted { attempts })
            == "the backend snapshot moved on every one of "@ + decimal(attempts as int)
            + " attempts"@,
        batch_words(BatchError::Request(failure)) == failure_words(failure),
        batch_words(BatchError::Protocol(detail)) == "unexpected backend answer: "@ + detail@,
{
}

/// A scan that came to nothing says why.
pub proof fn law_a_failed_scan_says_why(detail: Chars)
    ensures
        error_words(ScanErrorView::ClockNotBootstrapped)
            == "the workspace clock is not bootstrapped"@,
        error_words(ScanErrorView::InputChanged(detail)) == "the input changed: "@ + detail,
        error_words(ScanErrorView::InvariantViolated(detail)) == "resource invariant violated: "@
            + detail,
        error_words(ScanErrorView::Failed(detail)) == detail,
{
}

/// A registry conflict names the identity, where it is and where it was
/// wanted.
pub proof fn law_a_conflict_names_both_places(
    project_id: ProjectId,
    workspace_id: WorkspaceId,
    other_project_id: ProjectId,
    existing_locator: String,
    requested_locator: String,
)
    ensures
        registry_words(RegistryError::UnknownProject { project_id })
            == "no registry entry for project "@ + decimal(project_id.value as int),
        registry_words(RegistryError::UnknownWorkspace { workspace_id })
            == "no registry entry for workspace "@ + decimal(workspace_id.value as int),
        registry_words(
            RegistryError::ProjectLocatorConflict {
                project_id,
                existing_locator,
                requested_locator,
            },
        ) == "project "@ + decimal(project_id.value as int) + " is already registered at "@
            + existing_locator@ + " (requested "@ + requested_locator@ + ")"@,
        registry_words(
            RegistryError::WorkspaceIdentityConflict {
                workspace_id,
                existing_project_id: project_id,
                existing_locator,
                requested_project_id: other_project_id,
                requested_locator,
            },
        ) == "workspace "@ + decimal(workspace_id.value as int)
            + " is already registered as project "@ + decimal(project_id.value as int) + " at "@
            + existing_locator@ + " (requested project "@ + decimal(other_project_id.value as int)
            + " at "@ + requested_locator@ + ")"@,
{
}

/// A request that is refused says what is wrong with it.
pub proof fn law_a_refused_request_says_why(
    detail: String,
    field: CorrelationField,
    limit: usize,
    max: usize,
    error: ResolveError,
)
    ensures
        request_words(ProjectionRequestError::MissingTarget) == "MissingTarget"@,
        request_words(ProjectionRequestError::MissingWorkItem) == "MissingWorkItem"@,
        request_words(ProjectionRequestError::EmptySelector) == "EmptySelector"@,
        request_words(ProjectionRequestError::EmptyCorrelationId(field))
            == "EmptyCorrelationId("@ + match field {
            CorrelationField::ClientId => "ClientId"@,
            CorrelationField::SessionId => "SessionId"@,
            CorrelationField::ExternalTaskId => "ExternalTaskId"@,
            CorrelationField::ExternalSubtaskId => "ExternalSubtaskId"@,
        } + ")"@,
        request_words(ProjectionRequestError::InvalidScopeLayer(error)) == "InvalidScopeLayer("@
            + resolve_words(error) + ")"@,
        request_words(ProjectionRequestError::InvalidDirective(error)) == "InvalidDirective("@
            + resolve_words(error) + ")"@,
        request_words(
            ProjectionRequestError::DirectiveOutsideApplicability { directive_id: detail },
        ) == "DirectiveOutsideApplicability { directive_id: "@ + debug_form(detail@) + " }"@,
        resolve_words(ResolveError::InvalidContext(detail)) == "InvalidContext("@ + debug_form(
            detail@,
        ) + ")"@,
        resolve_words(ResolveError::InvalidRequest(detail)) == "InvalidRequest("@ + debug_form(
            detail@,
        ) + ")"@,
        invalid_words(InvalidRequest::ListLimitTooLarge { limit, max })
            == "ListLimitTooLarge { limit: "@ + decimal(limit as int) + ", max: "@ + decimal(
            max as int,
        ) + " }"@,
        invalid_words(InvalidRequest::SearchBudgetInvalid) == "SearchBudgetInvalid"@,
{
}

/// What is not there, or belongs elsewhere, is named.
pub proof fn law_what_belongs_elsewhere_is_named(
    db: String,
    bound: WorkspaceId,
    requested: WorkspaceId,
    work_item: WorkItemId,
    resource_id: ResourceId,
    what: String,
)
    ensures
        missing_words(NotInitialized::GlobalDbMissing) == "GlobalDbMissing"@,
        missing_words(NotInitialized::WorkspaceNotRegistered) == "WorkspaceNotRegistered"@,
        missing_words(NotInitialized::WorkspaceDbMissing) == "WorkspaceDbMissing"@,
        missing_words(NotInitialized::IndexDbMissing) == "IndexDbMissing"@,
        missing_words(NotInitialized::WorkspaceUnbound { db }) == "WorkspaceUnbound { db: "@
            + debug_form(db@) + " }"@,
        core_words(CoreError::WorkspaceRootMissing { workspace: bound })
            == "the root of Workspace "@ + decimal(bound.value as int) + " does not exist"@,
        core_words(CoreError::WorkspaceMismatch { bound, requested }) == "bound to Workspace "@
            + decimal(bound.value as int) + ", request names "@ + decimal(requested.value as int),
        core_words(
            CoreError::WorkspaceBindingMismatch { db, expected: bound, found: requested },
        ) == db@ + " belongs to Workspace "@ + decimal(requested.value as int) + ", not "@
            + decimal(bound.value as int),
        core_words(CoreError::WorkItemNotFound { work_item }) == "WorkItem "@ + decimal(
            work_item.value as int,
        ) + " is not in this Workspace"@,
        core_words(CoreError::Query(QueryError::UnknownResource { resource_id }))
            == "no resource row for "@ + decimal(resource_id.value as int),
        work_words(WorkError::MissingDatabase { db }) == db@ + " does not exist"@,
        work_words(WorkError::UnboundWorkspace { db }) == db@ + " is bound to no Workspace"@,
        work_words(WorkError::WorkspaceMismatch { db, expected: bound, found: requested }) == db@
            + " belongs to Workspace "@ + decimal(requested.value as int) + ", not "@ + decimal(
            bound.value as int,
        ),
        knowledge_words(KnowledgeError::NotFound { what, id: db }) == what@ + " "@ + db@
            + " was not found"@,
        planner_words(PlannerError::UnknownWorkspace(bound)) == "Workspace "@ + decimal(
            bound.value as int,
        ) + " is not registered"@,
        planner_words(PlannerError::WorkspaceMismatch { bound, requested })
            == "bound to Workspace "@ + decimal(bound.value as int) + ", request names "@ + decimal(
            requested.value as int,
        ),
{
}

} // verus!
