use brainprint_engine::component::FreshnessState;
use brainprint_engine::evidence::{Direction, EvidenceItem, RelationAnswer};
use brainprint_engine::graph::{GraphEndpoint, RelationKind};
use brainprint_engine::knowledge::{
    DirectiveTarget, KnowledgeError, KnowledgeScope, RequestDirective, ScopeKind, WorkError,
    WorkHandoff, WorkItem, WorkItemStatus,
};
use brainprint_engine::model::{
    PolicyId, Resource, ResourceId, ResourceKind, ResourceLanguage, ResourceRole, ResourceState,
    WorkItemId, WorkspaceId, ProjectId,
};
use brainprint_engine::projection::{
    ChangeKind, ImpactIntent, PreparedProjection, ProjectionCorrelation, ProjectionGap,
    ProjectionIntent, ProjectionKnowledgeRefs, ProjectionRequestError, ProjectionTarget,
    ResourceTarget,
};
use brainprint_engine::query::{
    Currentness, IndexedResource, NotCurrentReason, QueryError, QueryIndex,
};
use brainprint_engine::query_surface::{
    canonical_statuses, currentness, relation_queries, ConfigError, ContextPurpose,
    ContextRequest, ContextRetention, CoreError, CoreQuerySurface, DeliveryBudget, DeliveryError,
    DeliveryOptions, FallbackReason, FindQuery, FindRequest, FindResult, FindStep, ImpactRequest,
    InspectRequest, InvalidRequest, KnowledgeQuery, KnowledgeRequest, KnowledgeResult,
    KnowledgeStep, LineageTarget, NotInitialized, OwnedTextPattern, PendingDelivery,
    PlannerError, QueryContext, RelationDirection, RelationError, RelationsRequest, SearchBudget,
    SearchError, StructuralSummaryRequest, SummaryError, SummaryRequestError, SurfaceStats,
    TargetResolution, TextSearchResult, MAX_HANDOFF_HISTORY, MAX_WORK_ITEM_LIST,
};
use brainprint_engine::registry::{GlobalRegistry, RegistryError};

const HERE: WorkspaceId = WorkspaceId { value: 5 };
const ELSEWHERE: WorkspaceId = WorkspaceId { value: 6 };
const WORK: WorkItemId = WorkItemId { value: 40 };

fn registry() -> GlobalRegistry {
    let mut registry = GlobalRegistry::empty();
    let project = ProjectId { value: 1 };
    registry.register_project(project, "/repo", "t0").expect("registered");
    registry
        .register_workspace(HERE, project, "/repo", true, "t0")
        .expect("registered");
    registry
        .register_workspace(ELSEWHERE, project, "/repo/worktrees/x", false, "t0")
        .expect("registered");
    registry
        .register_workspace(WorkspaceId { value: 7 }, project, "/repo/worktrees/x", false, "t0")
        .expect("registered");
    registry
}

fn surface() -> CoreQuerySurface {
    CoreQuerySurface::open(HERE, Ok(()), Ok(registry()), Ok(()), Ok(())).expect("bound")
}

fn context(workspace: WorkspaceId) -> QueryContext {
    QueryContext {
        workspace,
        correlation: None,
    }
}

fn delivery() -> DeliveryOptions {
    DeliveryOptions {
        budget: DeliveryBudget {
            max_items: Some(10),
            max_tokens: None,
        },
        continuation: None,
        retention: ContextRetention::Unknown,
    }
}

fn target() -> ProjectionTarget {
    ProjectionTarget::Resource(ResourceTarget::Path("src/auth.rs".to_owned()))
}

fn endpoint() -> GraphEndpoint {
    GraphEndpoint::Resource(ResourceId { value: 9 })
}

fn projection(target: Option<GraphEndpoint>, gaps: Vec<ProjectionGap>) -> PreparedProjection {
    PreparedProjection {
        target,
        evidence: Vec::new(),
        gaps,
    }
}

fn page() -> PendingDelivery {
    PendingDelivery {
        receipt: "r-1".to_owned(),
        items: Vec::new(),
        continuation: None,
    }
}

fn mismatch() -> CoreError {
    CoreError::WorkspaceMismatch {
        bound: HERE,
        requested: ELSEWHERE,
    }
}

fn index() -> QueryIndex {
    let row = |value: u128, rel: &str| {
        IndexedResource::new(
            Resource {
                id: ResourceId { value },
                path_rel: rel.to_owned(),
                path_key: rel.to_owned(),
                kind: ResourceKind::File,
                role: ResourceRole::Source,
                language: Some(ResourceLanguage::Rust),
                size_bytes: 1,
                mtime_ns: 0,
                fingerprint: String::new(),
                content_hash: None,
                state: ResourceState::Active,
                resource_revision: "1".to_owned(),
                generated_kind: None,
                container_resource_id: None,
            },
            None,
            None,
            Vec::new(),
        )
    };
    QueryIndex::from_rows(
        vec![row(2, "src/b.rs"), row(1, "src/a.rs"), row(3, "docs.rs")],
        Some(FreshnessState::Current),
    )
}

fn files(limit: usize) -> FindQuery {
    FindQuery::Files {
        directory: Some("src".to_owned()),
        recursive: false,
        path_prefix: None,
        role: None,
        language: None,
        kind: None,
        limit,
    }
}

fn budget() -> SearchBudget {
    SearchBudget {
        max_results: 5,
        max_files: 5,
        max_bytes: 1000,
        deadline_ns: Some(1),
    }
}

fn text(budget: SearchBudget, max_file_bytes: u64) -> FindQuery {
    FindQuery::Text {
        pattern: OwnedTextPattern::Literal("login".to_owned()),
        case_insensitive: true,
        path_prefix: Some("src".to_owned()),
        budget,
        max_file_bytes,
        with_preview: false,
    }
}

fn find(surface: &mut CoreQuerySurface, query: FindQuery) -> Result<FindStep, CoreError> {
    surface.find(&index(), FindRequest { context: context(HERE), query })
}

#[test]
fn a_surface_opens_only_where_every_part_does() {
    let ok = surface();
    assert_eq!(ok.workspace(), HERE);
    assert_eq!(ok.root(), "/repo");
    assert_eq!(ok.stats(), SurfaceStats::default());
    let missing = CoreQuerySurface::open(
        HERE,
        Err(PlannerError::MissingGlobalDb),
        Ok(registry()),
        Ok(()),
        Ok(()),
    );
    assert_eq!(
        missing.err(),
        Some(CoreError::NotInitialized(NotInitialized::GlobalDbMissing))
    );
    let unreadable = CoreQuerySurface::open(
        HERE,
        Ok(()),
        Err(RegistryError::UnknownWorkspace { workspace_id: HERE }),
        Ok(()),
        Ok(()),
    );
    assert_eq!(
        unreadable.err(),
        Some(CoreError::Registry(RegistryError::UnknownWorkspace { workspace_id: HERE }))
    );
    let unregistered =
        CoreQuerySurface::open(HERE, Ok(()), Ok(GlobalRegistry::empty()), Ok(()), Ok(()));
    assert_eq!(
        unregistered.err(),
        Some(CoreError::NotInitialized(NotInitialized::WorkspaceNotRegistered))
    );
    let config = ConfigError { detail: "no config".to_owned() };
    let unconfigured =
        CoreQuerySurface::open(HERE, Ok(()), Ok(registry()), Err(config.clone()), Ok(()));
    assert_eq!(unconfigured.err(), Some(CoreError::Config(config)));
    let failed = SummaryError::Failed { detail: "no index".to_owned() };
    let unsummarized =
        CoreQuerySurface::open(HERE, Ok(()), Ok(registry()), Ok(()), Err(failed.clone()));
    assert_eq!(unsummarized.err(), Some(CoreError::Summary(failed)));
}

#[test]
fn a_workspace_is_resolved_only_where_exactly_one_is_registered() {
    let registry = registry();
    assert_eq!(
        CoreQuerySurface::resolve_workspace(None, "/repo"),
        Err(CoreError::NotInitialized(NotInitialized::GlobalDbMissing))
    );
    assert_eq!(
        CoreQuerySurface::resolve_workspace(Some(&registry), "/nowhere"),
        Err(CoreError::NotInitialized(NotInitialized::WorkspaceNotRegistered))
    );
    assert_eq!(CoreQuerySurface::resolve_workspace(Some(&registry), "/repo"), Ok(HERE));
    let ambiguous = CoreQuerySurface::resolve_workspace(Some(&registry), "/repo/worktrees/x")
        .expect_err("two are registered there");
    assert_eq!(
        ambiguous,
        CoreError::WorkspaceLocatorAmbiguous {
            workspaces: vec![ELSEWHERE, WorkspaceId { value: 7 }]
        }
    );
    assert_eq!(
        ambiguous.message(),
        "2 Workspaces are registered at this locator"
    );
}

#[test]
fn every_operation_refuses_another_workspace() {
    let mut surface = surface();
    assert_eq!(
        surface.find(&index(), FindRequest { context: context(ELSEWHERE), query: files(5) }),
        Err(mismatch())
    );
    assert_eq!(
        surface.inspect(InspectRequest {
            context: context(ELSEWHERE),
            target: target(),
            delivery: delivery(),
        }),
        Err(mismatch())
    );
    assert_eq!(
        surface.impact(ImpactRequest {
            context: context(ELSEWHERE),
            target: target(),
            change: ChangeKind::Delete,
            delivery: delivery(),
        }),
        Err(mismatch())
    );
    assert_eq!(
        surface.relations(RelationsRequest {
            context: context(ELSEWHERE),
            target: target(),
            direction: RelationDirection::Both,
            kinds: Vec::new(),
        }),
        Err(mismatch())
    );
    assert_eq!(
        surface.context(ContextRequest {
            context: context(ELSEWHERE),
            purpose: ContextPurpose::Resume { work_item: WORK, target: None },
            scope_layers: Vec::new(),
            directives: Vec::new(),
            knowledge: ProjectionKnowledgeRefs::default(),
            delivery: delivery(),
        }),
        Err(mismatch())
    );
    assert_eq!(
        surface.knowledge(KnowledgeRequest {
            context: context(ELSEWHERE),
            query: KnowledgeQuery::Lineage(LineageTarget::UserPolicy(PolicyId { value: 1 })),
        }),
        Err(mismatch())
    );
    assert_eq!(
        surface.structure(&StructuralSummaryRequest {
            workspace: ELSEWHERE,
            directory: None,
            limit: 1,
        }),
        Err(mismatch())
    );
    assert_eq!(surface.stats(), SurfaceStats::default());
    assert_eq!(mismatch().message(), "bound to Workspace 5, request names 6");
}

#[test]
fn files_are_listed_from_the_index_within_the_limit() {
    let mut surface = surface();
    let Ok(FindStep::Done(FindResult::Files(listing))) = find(&mut surface, files(1)) else {
        panic!("a listing");
    };
    assert_eq!(listing.entries.len(), 1);
    assert_eq!(listing.entries[0].path_rel, "src/a.rs");
    assert!(listing.truncated);
    assert_eq!(surface.stats().file_listings, 1);
    let error = find(&mut surface, files(201)).expect_err("too many");
    assert_eq!(
        error,
        CoreError::InvalidRequest(InvalidRequest::ListLimitTooLarge { limit: 201, max: 200 })
    );
    assert_eq!(
        error.message(),
        "invalid request: ListLimitTooLarge { limit: 201, max: 200 }"
    );
    assert_eq!(surface.stats().file_listings, 1);
}

#[test]
fn a_text_search_is_run_only_with_a_budget() {
    let mut surface = surface();
    let Ok(FindStep::Search(search)) = find(&mut surface, text(budget(), 10)) else {
        panic!("a search");
    };
    assert_eq!(search.reason, FallbackReason::ExplicitTextSearch);
    assert_eq!(search.pattern, OwnedTextPattern::Literal("login".to_owned()));
    assert_eq!(search.path_prefix.as_deref(), Some("src"));
    assert!(search.case_insensitive && !search.with_preview);
    let invalid = Err(CoreError::InvalidRequest(InvalidRequest::SearchBudgetInvalid));
    for zero in [
        text(SearchBudget { max_results: 0, ..budget() }, 10),
        text(SearchBudget { max_files: 0, ..budget() }, 10),
        text(SearchBudget { max_bytes: 0, ..budget() }, 10),
        text(SearchBudget { deadline_ns: Some(0), ..budget() }, 10),
        text(budget(), 0),
    ] {
        assert_eq!(find(&mut surface, zero), invalid);
    }
    let found = TextSearchResult { matches: Vec::new(), truncated: true };
    assert_eq!(
        surface.searched(Ok(found.clone())),
        Ok(FindResult::Text(found))
    );
    let failed = SearchError { detail: "bad pattern".to_owned() };
    assert_eq!(surface.searched(Err(failed.clone())), Err(CoreError::Search(failed)));
    assert_eq!(surface.stats().text_searches, 1);
}

#[test]
fn each_operation_asks_for_its_own_projection() {
    let mut surface = surface();
    let correlated = QueryContext {
        workspace: HERE,
        correlation: Some(ProjectionCorrelation {
            session_id: Some("s".to_owned()),
            ..ProjectionCorrelation::default()
        }),
    };
    let Ok(FindStep::Project(located)) = surface.find(
        &index(),
        FindRequest {
            context: correlated.clone(),
            query: FindQuery::Target { target: target(), delivery: delivery() },
        },
    ) else {
        panic!("a projection");
    };
    assert_eq!(located.request.intent, ProjectionIntent::Locate);
    assert_eq!(located.request.target, Some(target()));
    assert_eq!(located.request.correlation, correlated.correlation);
    assert_eq!(located.delivery, delivery());
    let inspected = surface
        .inspect(InspectRequest {
            context: context(HERE),
            target: target(),
            delivery: delivery(),
        })
        .expect("a projection");
    assert_eq!(inspected.request.intent, ProjectionIntent::Understand);
    let change = ChangeKind::Form(ImpactIntent::Rename);
    let impact = surface
        .impact(ImpactRequest {
            context: context(HERE),
            target: target(),
            change,
            delivery: delivery(),
        })
        .expect("a projection");
    assert_eq!(impact.request.intent, ProjectionIntent::Impact(change));
    let changed = surface
        .context(ContextRequest {
            context: context(HERE),
            purpose: ContextPurpose::Change {
                target: target(),
                change: Some(change),
                work_item: Some(WORK),
            },
            scope_layers: vec![vec![
                KnowledgeScope::keyed(ScopeKind::Package, "backend").expect("a key")
            ]],
            directives: Vec::new(),
            knowledge: ProjectionKnowledgeRefs {
                blueprints: vec!["b".to_owned()],
            },
            delivery: delivery(),
        })
        .expect("a projection");
    assert_eq!(changed.request.intent, ProjectionIntent::Change(Some(change)));
    assert_eq!(changed.request.work_item, Some(WORK));
    assert_eq!(changed.request.scope_layers.len(), 1);
    assert_eq!(changed.request.knowledge.blueprints, vec!["b".to_owned()]);
    let resumed = surface
        .context(ContextRequest {
            context: context(HERE),
            purpose: ContextPurpose::Resume { work_item: WORK, target: None },
            scope_layers: Vec::new(),
            directives: Vec::new(),
            knowledge: ProjectionKnowledgeRefs::default(),
            delivery: delivery(),
        })
        .expect("a projection");
    assert_eq!(resumed.request.intent, ProjectionIntent::ResumeHandoff);
    assert_eq!(resumed.request.work_item, Some(WORK));
    assert_eq!(resumed.request.target, None);
}

#[test]
fn a_target_resolves_as_the_planner_found_it() {
    assert_eq!(
        TargetResolution::of(&projection(Some(endpoint()), vec![ProjectionGap::TargetAmbiguous])),
        TargetResolution::Resolved(endpoint())
    );
    for (gap, expected) in [
        (ProjectionGap::TargetAmbiguous, TargetResolution::MultipleCandidates),
        (ProjectionGap::TargetNotExact, TargetResolution::SingleNonExactCandidate),
        (ProjectionGap::TargetNotFound, TargetResolution::NotFound),
        (
            ProjectionGap::TargetNotFoundWithIncompleteCoverage,
            TargetResolution::NotFoundIncompleteCoverage,
        ),
        (ProjectionGap::TargetNotCurrent, TargetResolution::NotCurrent),
        (
            ProjectionGap::BlueprintNotApplied { blueprint: "c".to_owned() },
            TargetResolution::NoTarget,
        ),
    ] {
        let skipped = ProjectionGap::BlueprintNotApplied { blueprint: "b".to_owned() };
        assert_eq!(TargetResolution::of(&projection(None, vec![skipped, gap])), expected);
    }
}

#[test]
fn an_index_is_current_unless_the_evidence_says_otherwise() {
    assert_eq!(currentness(&[]), Currentness::Current);
    let stale = Currentness::NotCurrent(NotCurrentReason::ResourceIndexDirty);
    let item = |currentness| EvidenceItem::IndexCurrentness { workspace: HERE, currentness };
    assert_eq!(currentness(&[item(stale), item(Currentness::Current)]), stale);
}

#[test]
fn a_plan_and_its_page_are_counted_only_when_they_came_back() {
    let mut surface = surface();
    let plan = surface
        .planned(None, Ok(projection(Some(endpoint()), Vec::new())))
        .expect("planned");
    let answer = surface.delivered(&plan, Ok(page())).expect("delivered");
    assert_eq!(answer.target, TargetResolution::Resolved(endpoint()));
    assert_eq!(answer.currentness, Currentness::Current);
    assert_eq!(answer.delivery, page());
    let failed = DeliveryError { detail: "stale continuation".to_owned() };
    assert_eq!(
        surface.delivered(&plan, Err(failed.clone())),
        Err(CoreError::Delivery(failed))
    );
    assert_eq!(
        surface.planned(None, Err(PlannerError::MissingWorkspaceRoot)),
        Err(CoreError::WorkspaceRootMissing { workspace: HERE })
    );
    assert_eq!((surface.stats().plans, surface.stats().deliveries), (1, 1));
}

#[test]
fn planner_failures_are_answered_by_what_they_mean() {
    let mut surface = surface();
    let mut answer = |error, work_item| {
        surface
            .planned(work_item, Err(error))
            .expect_err("a failure")
    };
    assert_eq!(
        answer(PlannerError::MissingGlobalDb, None),
        CoreError::NotInitialized(NotInitialized::GlobalDbMissing)
    );
    assert_eq!(
        answer(PlannerError::UnknownWorkspace(ELSEWHERE), None),
        CoreError::NotInitialized(NotInitialized::WorkspaceNotRegistered)
    );
    assert_eq!(
        answer(
            PlannerError::WorkspaceMismatch { bound: HERE, requested: ELSEWHERE },
            None
        ),
        mismatch()
    );
    assert_eq!(
        answer(PlannerError::Request(ProjectionRequestError::MissingTarget), None),
        CoreError::InvalidRequest(InvalidRequest::Projection(
            ProjectionRequestError::MissingTarget
        ))
    );
    let database = |db: &str| {
        PlannerError::Work(WorkError::MissingDatabase { db: db.to_owned() })
    };
    assert_eq!(
        answer(database("workspace.db"), None),
        CoreError::NotInitialized(NotInitialized::WorkspaceDbMissing)
    );
    assert_eq!(
        answer(database("index.db"), None),
        CoreError::NotInitialized(NotInitialized::IndexDbMissing)
    );
    assert_eq!(
        answer(database("other.db"), None),
        CoreError::Work(WorkError::MissingDatabase { db: "other.db".to_owned() })
    );
    assert_eq!(
        answer(
            PlannerError::Work(WorkError::UnboundWorkspace { db: "index.db".to_owned() }),
            None
        )
        .message(),
        "not initialized: WorkspaceUnbound { db: \"index.db\" }"
    );
    assert_eq!(
        answer(
            PlannerError::Work(WorkError::WorkspaceMismatch {
                db: "index.db".to_owned(),
                expected: HERE,
                found: ELSEWHERE,
            }),
            None
        )
        .message(),
        "index.db belongs to Workspace 6, not 5"
    );
    let absent = || {
        PlannerError::Work(WorkError::Knowledge(KnowledgeError::NotFound {
            what: "work_item".to_owned(),
            id: "40".to_owned(),
        }))
    };
    assert_eq!(
        answer(absent(), Some(WORK)),
        CoreError::WorkItemNotFound { work_item: WORK }
    );
    assert!(matches!(answer(absent(), None), CoreError::Knowledge(_)));
    let failed = PlannerError::Failed { detail: "broken".to_owned() };
    assert_eq!(answer(failed.clone(), None), CoreError::Planner(failed));
}

#[test]
fn relations_are_asked_outgoing_first_and_only_of_a_resolved_anchor() {
    let mut surface = surface();
    let call = surface
        .relations(RelationsRequest {
            context: context(HERE),
            target: target(),
            direction: RelationDirection::Both,
            kinds: vec![RelationKind::Calls],
        })
        .expect("a call");
    assert_eq!(call.locate.intent, ProjectionIntent::Locate);
    assert_eq!(call.kinds, vec![RelationKind::Calls]);
    let resolved = projection(Some(endpoint()), Vec::new());
    let asked: Vec<Direction> = relation_queries(&resolved, call.direction)
        .into_iter()
        .map(|query| query.direction)
        .collect();
    assert_eq!(asked, vec![Direction::Outgoing, Direction::Incoming]);
    let one: Vec<Direction> = relation_queries(&resolved, RelationDirection::Incoming)
        .into_iter()
        .map(|query| query.direction)
        .collect();
    assert_eq!(one, vec![Direction::Incoming]);
    assert!(relation_queries(&projection(None, Vec::new()), call.direction).is_empty());

    let found = |direction| RelationAnswer {
        direction,
        relations: Vec::new(),
        gaps: Vec::new(),
    };
    let result = surface
        .related(
            resolved,
            vec![Ok(found(Direction::Outgoing)), Ok(found(Direction::Incoming))],
        )
        .expect("answered");
    assert_eq!(
        result.answers,
        vec![found(Direction::Outgoing), found(Direction::Incoming)]
    );
    assert_eq!(surface.stats().relation_queries, 2);
    let failed = RelationError { detail: "no index".to_owned() };
    assert_eq!(
        surface.related(
            projection(Some(endpoint()), Vec::new()),
            vec![
                Ok(found(Direction::Outgoing)),
                Err(failed.clone()),
                Ok(found(Direction::Incoming))
            ],
        ),
        Err(CoreError::Relation(failed))
    );
    assert_eq!(surface.stats().relation_queries, 3, "what came back before is counted");
}

#[test]
fn two_requests_that_name_the_same_statuses_are_the_same_request() {
    let first = canonical_statuses(&[
        WorkItemStatus::Paused,
        WorkItemStatus::Open,
        WorkItemStatus::Paused,
    ]);
    let second = canonical_statuses(&[WorkItemStatus::Open, WorkItemStatus::Paused]);
    assert_eq!(first, second);
    assert_eq!(first, vec![WorkItemStatus::Open, WorkItemStatus::Paused]);
    assert!(canonical_statuses(&[]).is_empty());
}

fn knowledge(query: KnowledgeQuery) -> Result<KnowledgeStep, CoreError> {
    surface().knowledge(KnowledgeRequest { context: context(HERE), query })
}

#[test]
fn knowledge_lists_are_bounded() {
    assert_eq!(
        knowledge(KnowledgeQuery::WorkItems {
            statuses: vec![WorkItemStatus::Active, WorkItemStatus::Open],
            limit: MAX_WORK_ITEM_LIST,
        }),
        Ok(KnowledgeStep::ListWorkItems {
            statuses: vec![WorkItemStatus::Open, WorkItemStatus::Active],
            limit: 200,
            fetch: 201,
        })
    );
    assert!(knowledge(KnowledgeQuery::WorkItems { statuses: Vec::new(), limit: 201 }).is_err());
    assert_eq!(
        knowledge(KnowledgeQuery::Handoffs { work_item: WORK, limit: MAX_HANDOFF_HISTORY }),
        Ok(KnowledgeStep::ListHandoffs { work_item: WORK, limit: 50, fetch: 51 })
    );
    assert_eq!(
        knowledge(KnowledgeQuery::Handoffs { work_item: WORK, limit: 51 }),
        Err(CoreError::InvalidRequest(InvalidRequest::ListLimitTooLarge {
            limit: 51,
            max: 50
        }))
    );
    let lineage = LineageTarget::ProjectPolicy(PolicyId { value: 3 });
    assert_eq!(
        knowledge(KnowledgeQuery::Lineage(lineage)),
        Ok(KnowledgeStep::ReadLineage(lineage))
    );
}

#[test]
fn rules_are_resolved_for_what_applies_and_nothing_else() {
    let directive = |scope| RequestDirective {
        id: "d".to_owned(),
        target: DirectiveTarget::Policy,
        subject_key: "style".to_owned(),
        scope,
        summary: "use tabs".to_owned(),
    };
    let rules = |scope| {
        knowledge(KnowledgeQuery::Rules {
            scope_layers: Vec::new(),
            directives: vec![directive(scope)],
            knowledge: ProjectionKnowledgeRefs::default(),
        })
    };
    let Ok(KnowledgeStep::ResolveRules { applicability, directives, .. }) =
        rules(KnowledgeScope::workspace(HERE))
    else {
        panic!("rules to resolve");
    };
    assert_eq!(directives.len(), 1);
    assert_eq!(applicability.layers().len(), 3);
    let error = rules(KnowledgeScope::workspace(ELSEWHERE)).expect_err("another Workspace");
    assert_eq!(
        error.message(),
        "invalid request: Projection(DirectiveOutsideApplicability { directive_id: \"d\" })"
    );
    let mut surface = surface();
    assert_eq!(
        surface.rules_resolved(Ok((Vec::new(), Vec::new()))),
        Ok(KnowledgeResult::Rules { evidence: Vec::new(), gaps: Vec::new() })
    );
    assert!(surface.rules_resolved(Err(PlannerError::MissingGlobalDb)).is_err());
    assert_eq!(surface.stats().rule_resolves, 1);
}

fn work_item(value: u128) -> WorkItem {
    WorkItem {
        id: WorkItemId { value },
        status: WorkItemStatus::Open,
        title: String::new(),
    }
}

#[test]
fn a_page_longer_than_its_limit_is_cut_and_says_so() {
    let mut surface = surface();
    assert_eq!(
        surface.work_items_listed(
            2,
            vec![
                Ok(vec![work_item(1), work_item(2), work_item(3)]),
                Ok(vec![work_item(4)]),
            ]
        ),
        Ok(KnowledgeResult::WorkItems {
            items: vec![work_item(1), work_item(2), work_item(4)],
            truncated: true,
        })
    );
    assert_eq!(
        surface.work_items_listed(2, vec![Ok(vec![work_item(1), work_item(2)])]),
        Ok(KnowledgeResult::WorkItems {
            items: vec![work_item(1), work_item(2)],
            truncated: false,
        })
    );
    let failed = KnowledgeError::Failed { detail: "locked".to_owned() };
    assert_eq!(
        surface.work_items_listed(2, vec![Ok(Vec::new()), Err(failed.clone())]),
        Err(CoreError::Knowledge(failed))
    );
    assert_eq!(surface.stats().work_item_lists, 4);

    let handoff = |summary: &str| WorkHandoff {
        work_item: WORK,
        summary: summary.to_owned(),
        created_at: "t0".to_owned(),
    };
    assert_eq!(
        surface.handoffs_listed(WORK, 1, Ok(vec![handoff("b"), handoff("a")])),
        Ok(KnowledgeResult::Handoffs {
            work_item: WORK,
            handoffs: vec![handoff("b")],
            truncated: true,
        })
    );
    let absent = KnowledgeError::NotFound {
        what: "work_item".to_owned(),
        id: "40".to_owned(),
    };
    assert_eq!(
        surface.handoffs_listed(WORK, 1, Err(absent)).expect_err("absent").message(),
        "WorkItem 40 is not in this Workspace"
    );
    assert_eq!(surface.stats().handoff_lists, 1);
}

#[test]
fn a_history_and_a_summary_are_answered_as_they_are() {
    let mut surface = surface();
    let result = KnowledgeResult::WorkItems { items: Vec::new(), truncated: false };
    assert_eq!(surface.lineage_read(Ok(result.clone())), Ok(result));
    let absent = KnowledgeError::NotFound { what: "policy".to_owned(), id: "3".to_owned() };
    assert_eq!(
        surface.lineage_read(Err(absent.clone())),
        Err(CoreError::Knowledge(absent))
    );
    assert_eq!(surface.summarized(Ok(17)), Ok(17));
    let invalid = SummaryRequestError { detail: "no limit".to_owned() };
    assert_eq!(
        surface.summarized::<u8>(Err(SummaryError::Invalid(invalid))).expect_err("invalid").message(),
        "invalid request: Summary(SummaryRequestError { detail: \"no limit\" })"
    );
    assert_eq!(surface.stats().summaries, 1);
    assert_eq!(surface.stats().lineage_reads, 1);
    assert_eq!(
        CoreError::Query(QueryError::UnknownResource { resource_id: ResourceId { value: 2 } })
            .message(),
        "no resource row for 2"
    );
}
