//! What the operations of the query surface ask for and answer.

use vstd::prelude::*;

use crate::evidence::{
    AnswerState, CoverageEvidence, CoverageLimit, Direction, EvidenceItem, EvidenceOrigin,
};
use crate::graph::GraphEndpoint;
use crate::knowledge::{
    base_layers, in_layers, layer_refused, narrows, KnowledgeError, RequestDirective, ScopeKind,
    ScopeView, WorkError, WorkItem, WorkItemStatus,
};
use crate::model::{WorkItemId, WorkspaceId};
use crate::projection::{
    applicability, empty_id, incomplete, layers_after, outside, CorrelationField,
    PreparedProjection, ProjectionCorrelation, ProjectionGap, ProjectionIntent, ProjectionRequest,
    ProjectionTarget, RequestErrorView, ResourceTarget, SymbolName,
};
use crate::query::Currentness;
use crate::query_surface::{
    answered, any_longer, asked_files, asked_text, budget_invalid, canonical, context_request,
    currentness_of, first_failure, first_resolution, kept_of, kept_of_all, knowledge_failure,
    lemma_canonical_is_the_set, limit_refused, opened, plain_request, planner_failure, queries_for,
    resolution_of, status_order, work_failure, ConfigError, ContextPurpose, ContextRequest,
    CoreError, FindQuery, InvalidRequest, MAX_HANDOFF_HISTORY, MAX_WORK_ITEM_LIST, NotInitialized,
    PlannerError, QueryContext, RelationDirection, RelationQuery, SearchBudget, SummaryError,
    TargetResolution, TextSearch,
};
use crate::registry::{has_workspace, GlobalRegistry, RegistryError};
use crate::text::{decimal, optional_chars, Chars};

verus! {

// ---------------------------------------------------------------------
// Relations
// ---------------------------------------------------------------------

/// A query in that direction is asked.
pub open spec fn asks(queries: Seq<RelationQuery>, direction: Direction) -> bool {
    exists|i: int| 0 <= i < queries.len() && (#[trigger] queries[i]).direction == direction
}

/// The relations of an anchor are asked for in the direction of the request:
/// outgoing ones where it is for outgoing or both, incoming ones where it is
/// for incoming or both, each once, outgoing first, and about that anchor.
pub proof fn law_relations_are_asked_in_the_requested_direction(
    projection: PreparedProjection,
    anchor: GraphEndpoint,
    direction: RelationDirection,
)
    requires
        projection.target == Some(anchor),
    ensures
        ({
            let queries = queries_for(resolution_of(projection), direction);
            &&& asks(queries, Direction::Outgoing) <==> direction == RelationDirection::Outgoing
                || direction == RelationDirection::Both
            &&& asks(queries, Direction::Incoming) <==> direction == RelationDirection::Incoming
                || direction == RelationDirection::Both
            &&& forall|i: int, j: int|
                0 <= i < j < queries.len() ==> (#[trigger] queries[i]).direction
                    == Direction::Outgoing && (#[trigger] queries[j]).direction
                    == Direction::Incoming
            &&& forall|i: int|
                0 <= i < queries.len() ==> (#[trigger] queries[i]).anchor == anchor
        }),
{
    let queries = queries_for(resolution_of(projection), direction);
    if direction == RelationDirection::Outgoing {
        assert(queries[0].direction == Direction::Outgoing);
    } else if direction == RelationDirection::Incoming {
        assert(queries[0].direction == Direction::Incoming);
    } else {
        assert(queries[0].direction == Direction::Outgoing);
        assert(queries[1].direction == Direction::Incoming);
    }
}

/// Nothing is asked of the relation index about a target that did not
/// resolve.
pub proof fn law_no_relations_without_an_anchor(
    projection: PreparedProjection,
    direction: RelationDirection,
)
    requires
        projection.target is None,
    ensures
        queries_for(resolution_of(projection), direction).len() == 0,
{
    lemma_no_resolution_by_gaps(projection.gaps@);
}

proof fn lemma_no_resolution_by_gaps(gaps: Seq<ProjectionGap>)
    ensures
        !(first_resolution(gaps) is Resolved),
    decreases gaps.len(),
{
    if gaps.len() > 0 {
        lemma_no_resolution_by_gaps(gaps.skip(1));
    }
}

/// A target resolves exactly when the projection names the one thing that it
/// is, and then to that thing.
pub proof fn law_a_target_resolves_to_what_was_found(projection: PreparedProjection)
    ensures
        resolution_of(projection) is Resolved <==> projection.target is Some,
        projection.target matches Some(target) ==> resolution_of(projection)
            == TargetResolution::Resolved(target),
{
    lemma_no_resolution_by_gaps(projection.gaps@);
}

/// A target that did not resolve is told as its first gap says: ambiguity
/// stays several candidates, a single match of a search is not made an
/// identity, and a miss under incomplete coverage is no plain miss.
pub proof fn law_the_first_gap_tells_of_the_target(
    projection: PreparedProjection,
    gap: ProjectionGap,
    at: int,
)
    requires
        projection.target is None,
        0 <= at < projection.gaps@.len(),
        projection.gaps@[at] == gap,
        !(gap is BlueprintNotApplied),
        forall|i: int|
            0 <= i < at ==> (#[trigger] projection.gaps@[i]) is BlueprintNotApplied,
    ensures
        gap is TargetAmbiguous ==> resolution_of(projection)
            == TargetResolution::MultipleCandidates,
        gap is TargetNotExact ==> resolution_of(projection)
            == TargetResolution::SingleNonExactCandidate,
        gap is TargetNotFound ==> resolution_of(projection) == TargetResolution::NotFound,
        gap is TargetNotFoundWithIncompleteCoverage ==> resolution_of(projection)
            == TargetResolution::NotFoundIncompleteCoverage,
        gap is TargetNotCurrent ==> resolution_of(projection) == TargetResolution::NotCurrent,
{
    lemma_first_gap(projection.gaps@, at);
}

proof fn lemma_first_gap(gaps: Seq<ProjectionGap>, at: int)
    requires
        0 <= at < gaps.len(),
        forall|i: int| 0 <= i < at ==> (#[trigger] gaps[i]) is BlueprintNotApplied,
    ensures
        !(gaps[at] is BlueprintNotApplied) ==> first_resolution(gaps) == first_resolution(
            gaps.skip(at),
        ),
    decreases at,
{
    if at == 0 {
        assert(gaps.skip(0) =~= gaps);
    } else {
        assert(gaps[0] is BlueprintNotApplied);
        assert forall|i: int| 0 <= i < at - 1 implies (
        #[trigger] gaps.skip(1)[i]) is BlueprintNotApplied by {
            assert(gaps.skip(1)[i] == gaps[i + 1]);
        }
        lemma_first_gap(gaps.skip(1), at - 1);
        assert(gaps.skip(1).skip(at - 1) =~= gaps.skip(at));
        assert(gaps.skip(1)[at - 1] == gaps[at]);
    }
}

/// A projection without a target and without a gap about one has no target.
pub proof fn law_without_a_gap_there_is_no_target(projection: PreparedProjection)
    requires
        projection.target is None,
        forall|i: int|
            0 <= i < projection.gaps@.len() ==> (
            #[trigger] projection.gaps@[i]) is BlueprintNotApplied,
    ensures
        resolution_of(projection) == TargetResolution::NoTarget,
{
    lemma_only_blueprints(projection.gaps@);
}

proof fn lemma_only_blueprints(gaps: Seq<ProjectionGap>)
    requires
        forall|i: int| 0 <= i < gaps.len() ==> (#[trigger] gaps[i]) is BlueprintNotApplied,
    ensures
        first_resolution(gaps) == TargetResolution::NoTarget,
    decreases gaps.len(),
{
    if gaps.len() > 0 {
        assert(gaps[0] is BlueprintNotApplied);
        assert forall|i: int| 0 <= i < gaps.skip(1).len() implies (
        #[trigger] gaps.skip(1)[i]) is BlueprintNotApplied by {
            assert(gaps.skip(1)[i] == gaps[i + 1]);
        }
        lemma_only_blueprints(gaps.skip(1));
    }
}

/// An answer claims the currentness that the first evidence about the index
/// claims, and is current where no evidence is about the index.
pub proof fn law_an_answer_is_as_current_as_its_evidence(
    evidence: Seq<EvidenceItem>,
    at: int,
)
    requires
        0 <= at <= evidence.len(),
        forall|i: int| 0 <= i < at ==> !((#[trigger] evidence[i]) is IndexCurrentness),
    ensures
        at < evidence.len() ==> (evidence[at] matches EvidenceItem::IndexCurrentness {
            currentness,
            ..
        } ==> currentness_of(evidence) == currentness),
        at == evidence.len() ==> currentness_of(evidence) == Currentness::Current,
    decreases evidence.len(),
{
    if evidence.len() > 0 && at > 0 {
        assert(!(evidence[0] is IndexCurrentness));
        assert forall|i: int| 0 <= i < at - 1 implies !((
        #[trigger] evidence.skip(1)[i]) is IndexCurrentness) by {
            assert(evidence.skip(1)[i] == evidence[i + 1]);
        }
        law_an_answer_is_as_current_as_its_evidence(evidence.skip(1), at - 1);
    }
}

// ---------------------------------------------------------------------
// Outcomes that come one after another
// ---------------------------------------------------------------------

/// Where every step succeeded there is no failure, and the answers are theirs
/// in order; where one failed, the first failure is the answer, and what came
/// before it is what was answered.
pub proof fn law_the_first_failure_ends_the_answers<T, E>(outcomes: Seq<Result<T, E>>, at: int)
    requires
        0 <= at <= outcomes.len(),
        forall|i: int| 0 <= i < at ==> (#[trigger] outcomes[i]) is Ok,
        at < outcomes.len() ==> outcomes[at] is Err,
    ensures
        answered(outcomes).len() == at,
        forall|i: int| 0 <= i < at ==> (#[trigger] answered(outcomes)[i]) == outcomes[i]->Ok_0,
        first_failure(outcomes) == if at < outcomes.len() {
            Some(outcomes[at]->Err_0)
        } else {
            None
        },
    decreases at,
{
    if at > 0 {
        assert(outcomes[0] is Ok);
        let rest = outcomes.skip(1);
        assert forall|i: int| 0 <= i < at - 1 implies (#[trigger] rest[i]) is Ok by {
            assert(rest[i] == outcomes[i + 1]);
        }
        law_the_first_failure_ends_the_answers(rest, at - 1);
        assert forall|i: int| 0 <= i < at implies (#[trigger] answered(outcomes)[i])
            == outcomes[i]->Ok_0 by {
            if i > 0 {
                assert(answered(rest)[i - 1] == rest[i - 1]->Ok_0);
            }
        }
    }
}

/// What a listing keeps of a page: all of one within the limit, and the first
/// ones up to the limit of a longer one, which is told to be cut.
pub proof fn law_a_page_is_kept_up_to_its_limit<T>(page: Seq<T>, limit: int)
    requires
        0 <= limit,
    ensures
        kept_of(page, limit).len() == if page.len() <= limit {
            page.len() as int
        } else {
            limit
        },
        forall|i: int|
            0 <= i < kept_of(page, limit).len() ==> #[trigger] kept_of(page, limit)[i] == page[i],
{
}

/// The pages are answered one after the other, each up to the limit, and the
/// whole is cut exactly where some page was longer.
pub proof fn law_pages_are_answered_in_order(
    pages: Seq<Vec<WorkItem>>,
    page: Vec<WorkItem>,
    limit: int,
)
    ensures
        kept_of_all(pages.push(page), limit) == kept_of_all(pages, limit) + kept_of(page@, limit),
        kept_of_all(Seq::empty(), limit).len() == 0,
        any_longer(pages.push(page), limit) <==> any_longer(pages, limit) || page@.len() > limit,
        !any_longer(Seq::empty(), limit),
{
    let all = pages.push(page);
    assert(all.drop_last() =~= pages);
    assert(all[pages.len() as int] == page);
    if any_longer(pages, limit) {
        let i = choose|i: int| 0 <= i < pages.len() && (#[trigger] pages[i])@.len() > limit;
        assert(all[i]@.len() > limit);
    }
    if any_longer(all, limit) && page@.len() <= limit {
        let i = choose|i: int| 0 <= i < all.len() && (#[trigger] all[i])@.len() > limit;
        assert(pages[i]@.len() > limit);
    }
}

/// A listing may name two hundred WorkItems of a status, a history fifty
/// handoffs, and a limit beyond that is refused with both numbers.
pub proof fn law_limits_are_two_hundred_and_fifty(limit: usize)
    ensures
        limit_refused(limit, MAX_WORK_ITEM_LIST) is None <==> limit <= 200,
        limit_refused(limit, MAX_HANDOFF_HISTORY) is None <==> limit <= 50,
        limit_refused(limit, crate::query::DEFAULT_CANDIDATE_LIMIT) is None <==> limit <= 200,
        limit > 200 ==> limit_refused(limit, MAX_WORK_ITEM_LIST) == Some(
            CoreError::InvalidRequest(InvalidRequest::ListLimitTooLarge { limit, max: 200 }),
        ),
        limit > 50 ==> limit_refused(limit, MAX_HANDOFF_HISTORY) == Some(
            CoreError::InvalidRequest(InvalidRequest::ListLimitTooLarge { limit, max: 50 }),
        ),
{
}

/// Where a status stands in the order that WorkItems are listed in.
pub open spec fn rank(status: WorkItemStatus) -> int {
    match status {
        WorkItemStatus::Open => 0,
        WorkItemStatus::Active => 1,
        WorkItemStatus::Blocked => 2,
        WorkItemStatus::Paused => 3,
        WorkItemStatus::Completed => 4,
        WorkItemStatus::Abandoned => 5,
    }
}

/// The statuses of a listing are those that were named, each once, from open
/// over active, blocked, paused and completed to abandoned.
pub proof fn law_statuses_are_listed_in_their_order(statuses: Seq<WorkItemStatus>)
    ensures
        forall|status: WorkItemStatus|
            canonical(statuses).contains(status) <==> statuses.contains(status),
        forall|i: int, j: int|
            0 <= i < j < canonical(statuses).len() ==> rank(canonical(statuses)[i]) < rank(
                canonical(statuses)[j],
            ),
{
    assert forall|status: WorkItemStatus|
        canonical(statuses).contains(status) <==> statuses.contains(status) by {
        lemma_canonical_is_the_set(statuses, status);
    }
    let order = status_order();
    let named = |status: WorkItemStatus| statuses.contains(status);
    assert forall|i: int, j: int| 0 <= i < j < order.len() implies rank(order[i]) < rank(
        order[j],
    ) by {}
    lemma_filter_keeps_ranks(order, named);
}

proof fn lemma_filter_keeps_ranks(
    all: Seq<WorkItemStatus>,
    keeps: spec_fn(WorkItemStatus) -> bool,
)
    requires
        forall|i: int, j: int| 0 <= i < j < all.len() ==> rank(all[i]) < rank(all[j]),
    ensures
        forall|i: int, j: int|
            0 <= i < j < all.filter(keeps).len() ==> rank(all.filter(keeps)[i]) < rank(
                all.filter(keeps)[j],
            ),
    decreases all.len(),
{
    reveal(Seq::filter);
    if all.len() > 0 {
        let rest = all.drop_last();
        lemma_filter_keeps_ranks(rest, keeps);
        let kept = rest.filter(keeps);
        assert forall|i: int| 0 <= i < kept.len() implies rank(#[trigger] kept[i]) < rank(
            all.last(),
        ) by {
            assert(kept.contains(kept[i]));
            rest.lemma_filter_contains_rev(keeps, kept[i]);
            let k = choose|k: int| 0 <= k < rest.len() && rest[k] == kept[i];
            assert(all[k] == kept[i]);
        }
    }
}

// ---------------------------------------------------------------------
// What is passed on
// ---------------------------------------------------------------------

/// A request that names a target passes on its Workspace, its correlation and
/// its target under its intent, and adds nothing.
pub proof fn law_a_plain_request_adds_nothing(
    request: ProjectionRequest,
    context: QueryContext,
    intent: ProjectionIntent,
    target: ProjectionTarget,
)
    requires
        plain_request(request, context, intent, target),
    ensures
        request.workspace == context.workspace,
        request.correlation == context.correlation,
        request.intent == intent,
        request.target == Some(target),
        request.work_item is None,
        request.scope_layers@.len() == 0,
        request.directives@.len() == 0,
        request.knowledge.blueprints@.len() == 0,
{
}

/// A context request passes on all that it was given: the change or the
/// resumed work it is for, and the scopes, directives and references that
/// apply.
pub proof fn law_a_context_request_passes_everything_on(
    call: ProjectionRequest,
    request: ContextRequest,
)
    requires
        context_request(call, request),
    ensures
        call.workspace == request.context.workspace,
        call.correlation == request.context.correlation,
        call.scope_layers == request.scope_layers,
        call.directives == request.directives,
        call.knowledge == request.knowledge,
        request.purpose matches ContextPurpose::Change { target, change, work_item } ==> {
            &&& call.intent == ProjectionIntent::Change(change)
            &&& call.target == Some(target)
            &&& call.work_item == work_item
        },
        request.purpose matches ContextPurpose::Resume { work_item, target } ==> {
            &&& call.intent == ProjectionIntent::ResumeHandoff
            &&& call.target == target
            &&& call.work_item == Some(work_item)
        },
{
}

/// A request for files or text is passed on field by field.
pub proof fn law_a_find_request_is_passed_on(query: FindQuery, search: TextSearch)
    ensures
        query matches FindQuery::Files {
            directory,
            recursive,
            path_prefix,
            role,
            language,
            kind,
            limit,
        } ==> {
            let asked = asked_files(query);
            &&& asked.directory == optional_chars(directory)
            &&& asked.recursive == recursive
            &&& asked.path_prefix == optional_chars(path_prefix)
            &&& asked.role == role
            &&& asked.language == language
            &&& asked.kind == kind
            &&& asked.limit == Some(limit)
        },
        asked_text(search, query) ==> (query matches FindQuery::Text {
            pattern,
            case_insensitive,
            path_prefix,
            budget,
            max_file_bytes,
            with_preview,
        } && search.pattern == pattern && search.case_insensitive == case_insensitive
            && search.path_prefix == path_prefix && search.budget == budget
            && search.max_file_bytes == max_file_bytes && search.with_preview == with_preview),
{
}

/// A text search needs room: no result, no file, no byte, no time or no file
/// size at all is refused, and nothing else is.
pub proof fn law_a_search_needs_room(budget: SearchBudget, max_file_bytes: u64)
    ensures
        !budget_invalid(budget, max_file_bytes) <==> budget.max_results > 0 && budget.max_files
            > 0 && budget.max_bytes > 0 && max_file_bytes > 0 && (budget.deadline_ns is None
            || budget.deadline_ns->0 > 0),
{
}

// ---------------------------------------------------------------------
// Failures
// ---------------------------------------------------------------------

/// Opening a surface succeeds exactly when every part of it opened and the
/// registry knows the Workspace; else the first part that did not is told.
pub proof fn law_a_surface_opens_when_its_parts_do(
    workspace: WorkspaceId,
    planner: Result<(), PlannerError>,
    registry: Result<GlobalRegistry, RegistryError>,
    config: Result<(), ConfigError>,
    summary: Result<(), SummaryError>,
)
    ensures
        opened(workspace, planner, registry, config, summary) is None <==> planner is Ok
            && registry is Ok && config is Ok && summary is Ok && has_workspace(
            registry->Ok_0.workspaces(),
            workspace,
        ),
        planner is Ok && registry is Err ==> opened(workspace, planner, registry, config, summary)
            == Some(CoreError::Registry(registry->Err_0)),
        planner is Ok && registry is Ok && !has_workspace(
            registry->Ok_0.workspaces(),
            workspace,
        ) ==> opened(workspace, planner, registry, config, summary) == Some(
            CoreError::NotInitialized(NotInitialized::WorkspaceNotRegistered),
        ),
        planner == Err::<(), PlannerError>(PlannerError::MissingGlobalDb) ==> opened(
            workspace,
            planner,
            registry,
            config,
            summary,
        ) == Some(CoreError::NotInitialized(NotInitialized::GlobalDbMissing)),
        planner == Err::<(), PlannerError>(PlannerError::MissingWorkspaceRoot) ==> opened(
            workspace,
            planner,
            registry,
            config,
            summary,
        ) == Some(CoreError::WorkspaceRootMissing { workspace }),
{
}

/// What is not initialized is told as that and never as something else: a
/// missing registry, an unknown Workspace and a missing database each have
/// their name.
pub proof fn law_what_is_missing_is_named(
    workspace: WorkspaceId,
    unknown: WorkspaceId,
    work_item: Option<WorkItemId>,
    db: String,
)
    ensures
        planner_failure(PlannerError::MissingGlobalDb, workspace, work_item)
            == CoreError::NotInitialized(NotInitialized::GlobalDbMissing),
        planner_failure(PlannerError::UnknownWorkspace(unknown), workspace, work_item)
            == CoreError::NotInitialized(NotInitialized::WorkspaceNotRegistered),
        planner_failure(PlannerError::MissingWorkspaceRoot, workspace, work_item)
            == (CoreError::WorkspaceRootMissing { workspace }),
        db@ == "workspace.db"@ ==> work_failure(WorkError::MissingDatabase { db }, work_item)
            == CoreError::NotInitialized(NotInitialized::WorkspaceDbMissing),
        db@ == "index.db"@ ==> work_failure(WorkError::MissingDatabase { db }, work_item)
            == CoreError::NotInitialized(NotInitialized::IndexDbMissing),
        db@ != "workspace.db"@ && db@ != "index.db"@ ==> work_failure(
            WorkError::MissingDatabase { db },
            work_item,
        ) == CoreError::Work(WorkError::MissingDatabase { db }),
        work_failure(WorkError::UnboundWorkspace { db }, work_item) == CoreError::NotInitialized(
            NotInitialized::WorkspaceUnbound { db },
        ),
{
    reveal_strlit("workspace.db");
    reveal_strlit("index.db");
    assert("workspace.db"@.len() == 12);
    assert("index.db"@.len() == 8);
}

/// A WorkItem that a request names and that is not kept is told by its id;
/// another thing that is missing, or a miss without a named WorkItem, stays
/// what it is, however deep the failure came from.
pub proof fn law_a_missing_work_item_is_named(
    workspace: WorkspaceId,
    error: KnowledgeError,
    work_item: Option<WorkItemId>,
)
    ensures
        ({
            let answer = planner_failure(
                PlannerError::Work(WorkError::Knowledge(error)),
                workspace,
                work_item,
            );
            &&& answer == knowledge_failure(error, work_item)
            &&& answer == work_failure(WorkError::Knowledge(error), work_item)
            &&& match error {
                KnowledgeError::NotFound { what, .. } => if what@ == "work_item"@ && work_item
                    is Some {
                    answer == (CoreError::WorkItemNotFound { work_item: work_item->0 })
                } else {
                    answer == CoreError::Knowledge(error)
                },
                KnowledgeError::Failed { .. } => answer == CoreError::Knowledge(error),
            }
        }),
{
}

/// A request or a database of another Workspace is told with both, each on
/// its side.
pub proof fn law_a_mismatch_names_both_sides(
    workspace: WorkspaceId,
    bound: WorkspaceId,
    requested: WorkspaceId,
    db: String,
    work_item: Option<WorkItemId>,
)
    ensures
        planner_failure(
            PlannerError::WorkspaceMismatch { bound, requested },
            workspace,
            work_item,
        ) == (CoreError::WorkspaceMismatch { bound, requested }),
        work_failure(
            WorkError::WorkspaceMismatch { db, expected: bound, found: requested },
            work_item,
        ) == (CoreError::WorkspaceBindingMismatch { db, expected: bound, found: requested }),
{
}

// ---------------------------------------------------------------------
// What a request may ask
// ---------------------------------------------------------------------

/// The text that a target selects by, if it selects by one.
pub open spec fn selecting_text(target: ProjectionTarget) -> Option<Chars> {
    match target {
        ProjectionTarget::Resource(ResourceTarget::Path(text)) => Some(text@),
        ProjectionTarget::Resource(ResourceTarget::Basename(text)) => Some(text@),
        ProjectionTarget::Resource(ResourceTarget::PathPrefix(text)) => Some(text@),
        ProjectionTarget::Resource(ResourceTarget::Id(_)) => None,
        ProjectionTarget::Symbol(symbol) => match symbol.name {
            SymbolName::QualifiedName(text) => Some(text@),
            SymbolName::Name(text) => Some(text@),
            SymbolName::PartialName(text) => Some(text@),
            SymbolName::Id(_) => None,
        },
        ProjectionTarget::Endpoint(_) => None,
    }
}

/// A request is complete when it names a target, or the work that it resumes,
/// and selects by no empty text; a resumed piece of work needs no target.
pub proof fn law_a_complete_request_names_what_it_is_about(request: ProjectionRequest)
    ensures
        incomplete(request) is None <==> (request.target matches Some(target)
            ==> selecting_text(target) != Some(Seq::<char>::empty())) && if request.intent
            == ProjectionIntent::ResumeHandoff {
            request.work_item is Some
        } else {
            request.target is Some
        },
        request.intent == ProjectionIntent::ResumeHandoff && request.work_item is None
            ==> incomplete(request) == Some(RequestErrorView::MissingWorkItem),
        request.intent != ProjectionIntent::ResumeHandoff && request.target is None ==> incomplete(
            request,
        ) == Some(RequestErrorView::MissingTarget),
        (request.target matches Some(target) && selecting_text(target) == Some(
            Seq::<char>::empty(),
        )) && (request.intent == ProjectionIntent::ResumeHandoff ==> request.work_item is Some)
            ==> incomplete(request) == Some(RequestErrorView::EmptySelector),
{
    if let Some(target) = request.target {
        if let Some(text) = selecting_text(target) {
            if text.len() == 0 {
                assert(text =~= Seq::empty());
            }
        }
    }
}

/// An id that a client supplies may not be empty, and the first that is is
/// named; ids that are not supplied are no fault.
pub proof fn law_a_supplied_id_may_not_be_empty(correlation: ProjectionCorrelation)
    ensures
        ({
            let empty = |id: Option<String>| id is Some && (id->0)@.len() == 0;
            let client = empty(correlation.client_id);
            let session = empty(correlation.session_id);
            let task = empty(correlation.external_task_id);
            let subtask = empty(correlation.external_subtask_id);
            &&& empty_id(correlation) is None <==> !client && !session && !task && !subtask
            &&& client ==> empty_id(correlation) == Some(CorrelationField::ClientId)
            &&& session && !client ==> empty_id(correlation) == Some(CorrelationField::SessionId)
            &&& task && !client && !session ==> empty_id(correlation) == Some(
                CorrelationField::ExternalTaskId,
            )
            &&& subtask && !client && !session && !task ==> empty_id(correlation) == Some(
                CorrelationField::ExternalSubtaskId,
            )
        }),
{
}

/// A scope stands in one of the layers.
pub open spec fn stands_in(layers: Seq<Seq<ScopeView>>, scope: ScopeView) -> bool {
    exists|i: int, k: int|
        0 <= i < layers.len() && 0 <= k < layers[i].len() && #[trigger] layers[i][k] == scope
}

/// What applies to a request is the User, then the Project, then its own
/// Workspace, and then the layers that it names, in order; every directive
/// stands in one of these, and has an id that no other has.
pub proof fn law_what_applies_to_a_request(
    workspace: WorkspaceId,
    scope_layers: Seq<Seq<ScopeView>>,
    directives: Seq<RequestDirective>,
    correlation: Option<ProjectionCorrelation>,
    layers: Seq<Seq<ScopeView>>,
)
    requires
        applicability(workspace, scope_layers, directives, correlation) == Ok::<
            Seq<Seq<ScopeView>>,
            RequestErrorView,
        >(layers),
    ensures
        layers.len() == scope_layers.len() + 3,
        layers[0] == seq![ScopeView { kind: ScopeKind::User, key: None }],
        layers[1] == seq![ScopeView { kind: ScopeKind::Project, key: None }],
        layers[2] == seq![
            ScopeView {
                kind: ScopeKind::Workspace,
                key: Some(decimal(workspace.value as int)),
            },
        ],
        forall|i: int| 0 <= i < scope_layers.len() ==> #[trigger] layers[i + 3] == scope_layers[i],
        forall|i: int|
            0 <= i < scope_layers.len() ==> (#[trigger] scope_layers[i]).len() > 0 && (forall|
                k: int,
            |
                0 <= k < scope_layers[i].len() ==> (#[trigger] scope_layers[i][k]).kind
                    == ScopeKind::Package || scope_layers[i][k].kind == ScopeKind::Module),
        forall|d: int|
            0 <= d < directives.len() ==> stands_in(layers, (#[trigger] directives[d]).scope@)
                && directives[d].id@.len() > 0,
        forall|d: int, e: int|
            0 <= d < e < directives.len() ==> (#[trigger] directives[d]).id@ != (
            #[trigger] directives[e]).id@,
{
    let base = base_layers(Some(workspace));
    lemma_layers_added(base, scope_layers);
    lemma_none_outside(layers, directives);
    assert forall|i: int| 0 <= i < scope_layers.len() implies #[trigger] layers[i + 3]
        == scope_layers[i] by {
        assert((base + scope_layers)[i + 3] == scope_layers[i]);
    }
    assert forall|d: int, e: int| 0 <= d < e < directives.len() implies (
    #[trigger] directives[d]).id@ != (#[trigger] directives[e]).id@ by {
        let ids = crate::knowledge::directive_ids(directives);
        assert(ids[d] != ids[e]);
    }
    assert forall|d: int| 0 <= d < directives.len() implies stands_in(
        layers,
        (#[trigger] directives[d]).scope@,
    ) && directives[d].id@.len() > 0 by {
        assert(in_layers(layers, directives[d].scope@));
        let i = choose|i: int|
            0 <= i < layers.len() && (#[trigger] layers[i]).contains(directives[d].scope@);
        let k = choose|k: int| 0 <= k < layers[i].len() && layers[i][k] == directives[d].scope@;
        assert(layers[i][k] == directives[d].scope@);
    }
}

proof fn lemma_layers_added(base: Seq<Seq<ScopeView>>, more: Seq<Seq<ScopeView>>)
    ensures
        layers_after(base, more) matches Ok(layers) ==> layers == base + more && forall|i: int|
            0 <= i < more.len() ==> (#[trigger] more[i]).len() > 0 && forall|k: int|
                0 <= k < more[i].len() ==> (#[trigger] more[i][k]).kind == ScopeKind::Package
                    || more[i][k].kind == ScopeKind::Module,
    decreases more.len(),
{
    if more.len() == 0 {
        assert(base + more =~= base);
    } else {
        lemma_layers_added(base.push(more[0]), more.skip(1));
        assert(base.push(more[0]) + more.skip(1) =~= base + more);
        if layers_after(base, more) is Ok {
            assert forall|i: int| 0 <= i < more.len() implies (#[trigger] more[i]).len() > 0
                && forall|k: int|
                0 <= k < more[i].len() ==> (#[trigger] more[i][k]).kind == ScopeKind::Package
                    || more[i][k].kind == ScopeKind::Module by {
                if i > 0 {
                    assert(more.skip(1)[i - 1] == more[i]);
                } else {
                    assert(layer_refused(base, more[0]) is None);
                    assert forall|k: int| 0 <= k < more[0].len() implies (
                    #[trigger] more[0][k]).kind == ScopeKind::Package || more[0][k].kind
                        == ScopeKind::Module by {
                        assert(narrows(more[0][k].kind));
                    }
                }
            }
        }
    }
}

proof fn lemma_none_outside(layers: Seq<Seq<ScopeView>>, directives: Seq<RequestDirective>)
    ensures
        outside(layers, directives) is None ==> forall|d: int|
            0 <= d < directives.len() ==> in_layers(layers, (#[trigger] directives[d]).scope@),
        outside(layers, directives) matches Some(id) ==> exists|d: int|
            0 <= d < directives.len() && (#[trigger] directives[d]).id@ == id && !in_layers(
                layers,
                directives[d].scope@,
            ),
    decreases directives.len(),
{
    if directives.len() > 0 {
        let rest = directives.skip(1);
        lemma_none_outside(layers, rest);
        assert forall|d: int|
            0 <= d < directives.len() && outside(layers, directives) is None implies in_layers(
            layers,
            (#[trigger] directives[d]).scope@,
        ) by {
            if d > 0 {
                assert(rest[d - 1] == directives[d]);
            }
        }
        if let Some(id) = outside(layers, directives) {
            if !in_layers(layers, directives[0].scope@) {
                assert(directives[0].id@ == id);
            } else {
                let d = choose|d: int|
                    0 <= d < rest.len() && (#[trigger] rest[d]).id@ == id && !in_layers(
                        layers,
                        rest[d].scope@,
                    );
                assert(directives[d + 1].id@ == id);
            }
        }
    }
}

/// A directive of another Workspace does not apply: one whose scope is none
/// of the layers is refused by its id.
pub proof fn law_a_directive_from_elsewhere_is_refused(
    workspace: WorkspaceId,
    directives: Seq<RequestDirective>,
    id: Chars,
)
    ensures
        applicability(workspace, Seq::empty(), directives, None) == Err::<
            Seq<Seq<ScopeView>>,
            RequestErrorView,
        >(RequestErrorView::DirectiveOutsideApplicability(id)) ==> exists|d: int|
            0 <= d < directives.len() && (#[trigger] directives[d]).id@ == id
                && directives[d].scope@ != (ScopeView {
                kind: ScopeKind::Workspace,
                key: Some(decimal(workspace.value as int)),
            }) && directives[d].scope@ != (ScopeView { kind: ScopeKind::User, key: None })
                && directives[d].scope@ != (ScopeView { kind: ScopeKind::Project, key: None }),
{
    let layers = base_layers(Some(workspace));
    lemma_none_outside(layers, directives);
    if applicability(workspace, Seq::empty(), directives, None) == Err::<
        Seq<Seq<ScopeView>>,
        RequestErrorView,
    >(RequestErrorView::DirectiveOutsideApplicability(id)) {
        let d = choose|d: int|
            0 <= d < directives.len() && (#[trigger] directives[d]).id@ == id && !in_layers(
                layers,
                directives[d].scope@,
            );
        assert(layers[0][0].kind == ScopeKind::User);
        assert(layers[0].contains(layers[0][0]));
        assert(layers[1].contains(layers[1][0]));
        assert(layers[2].contains(layers[2][0]));
        assert(directives[d].id@ == id);
    }
}

/// A layer is refused exactly when it is empty, names something wider than a
/// package or a module, or names a scope a second time.
pub proof fn law_a_layer_is_refused_when_it_widens_or_repeats(
    layers: Seq<Seq<ScopeView>>,
    layer: Seq<ScopeView>,
)
    ensures
        layer_refused(layers, layer) is None <==> layer.len() > 0 && (forall|k: int|
            0 <= k < layer.len() ==> (#[trigger] layer[k]).kind == ScopeKind::Package
                || layer[k].kind == ScopeKind::Module) && (forall|k: int, l: int|
            0 <= k < l < layer.len() ==> layer[k] != layer[l]) && (forall|k: int|
            0 <= k < layer.len() ==> !stands_in(layers, #[trigger] layer[k])),
{
    assert forall|scope: ScopeView| in_layers(layers, scope) <==> stands_in(layers, scope) by {
        if in_layers(layers, scope) {
            let i = choose|i: int| 0 <= i < layers.len() && (#[trigger] layers[i]).contains(scope);
            let k = choose|k: int| 0 <= k < layers[i].len() && layers[i][k] == scope;
            assert(layers[i][k] == scope);
        }
        if stands_in(layers, scope) {
            let (i, k) = choose|i: int, k: int|
                0 <= i < layers.len() && 0 <= k < layers[i].len() && #[trigger] layers[i][k]
                    == scope;
            assert(layers[i].contains(scope));
        }
    }
    assert(crate::knowledge::all_narrow(layer) <==> forall|k: int|
        0 <= k < layer.len() ==> (#[trigger] layer[k]).kind == ScopeKind::Package || layer[k].kind
            == ScopeKind::Module);
}

// ---------------------------------------------------------------------
// What an answer may claim
// ---------------------------------------------------------------------

/// Nothing found may be relied on only under complete coverage: a single
/// limit makes it an open question, and a confirmed result needs no coverage.
pub proof fn law_nothing_found_is_safe_under_complete_coverage_alone(
    evidence: CoverageEvidence,
    limit: CoverageLimit,
)
    ensures
        evidence.state() == AnswerState::NoneUnderCompleteCoverage ==> evidence.confirmed == 0
            && !evidence.report@.contains(limit),
        evidence.confirmed > 0 <==> evidence.state() == AnswerState::Confirmed,
        evidence.confirmed == 0 && evidence.report@.contains(limit) ==> evidence.state()
            == AnswerState::NoneWithIncompleteCoverage,
        evidence.confirmed == 0 && evidence.report@ == Set::<CoverageLimit>::empty()
            ==> evidence.state() == AnswerState::NoneUnderCompleteCoverage,
{
}

/// Evidence says where it comes from: what the index or the store keeps is
/// stored, current source and the request's own directives are observed, and
/// all else is derived.
pub proof fn law_evidence_says_where_it_comes_from(item: EvidenceItem)
    ensures
        item.comes_from() == EvidenceOrigin::Observed <==> item is CurrentSource || item
            is Directive,
        item.comes_from() == EvidenceOrigin::Stored <==> item is Resource || item is Symbol || item
            is Relation || item is RelationGap || item is Policy || item is Decision || item
            is WorkingState,
        item is SourceUnavailable || item is RelatedTest || item is Coverage || item
            is TargetSelection || item is IndexCurrentness || item is KnowledgeConflict || item
            is WorkOverlap || item is GenerationReference || item is WorkStaleness
            ==> item.comes_from() == EvidenceOrigin::Derived,
{
}

} // verus!
