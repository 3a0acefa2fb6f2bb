use brainprint_engine::component::{FreshnessState, ProcessingState, ResourceIndexState};
use brainprint_engine::index_tables::{
    GenerationRecord, GenerationState, IndexTables, JournalEntry, JournalState, ResourceChange,
    WatchEventKind, WatcherContinuity,
};
use brainprint_engine::model::{
    Resource, ResourceId, ResourceKind, ResourceLanguage, ResourceRole, ResourceState,
};
use brainprint_engine::refresh::{
    check_target, obsolete_reason_text, Classification, DeferReason, ObsoleteReason, ParseStatus,
    PathFacts, RefreshError, RefreshFacts, RefreshOutcome, StructuralResult, TargetRecheck,
    TargetedRefresh,
};
use brainprint_engine::scan_error::ScanError;

const BASELINE_REVISION: &str = "workspace-rev-1";

fn resource(value: u128, rel: &str, revision: &str) -> Resource {
    Resource {
        id: ResourceId { value },
        path_rel: rel.to_owned(),
        path_key: rel.to_owned(),
        kind: ResourceKind::File,
        role: ResourceRole::Source,
        language: Some(ResourceLanguage::TypeScript),
        size_bytes: 12,
        mtime_ns: 1,
        fingerprint: format!("fp-{rel}-{revision}"),
        content_hash: Some(format!("hash-{rel}-{revision}")),
        state: ResourceState::Active,
        resource_revision: revision.to_owned(),
        generated_kind: None,
        container_resource_id: None,
    }
}

fn candidate(seq: i64, kind: WatchEventKind, target: Option<u128>, rel: &str) -> JournalEntry {
    JournalEntry {
        seq,
        event_kind: kind,
        processing_state: JournalState::Pending,
        resource_id: target.map(|value| ResourceId { value }),
        path_before: Some(rel.to_owned()),
        path_after: Some(rel.to_owned()),
        coalesced_into_seq: None,
        applied_generation_id: None,
    }
}

/// The tables as a first scan left them.
fn baseline(resources: Vec<Resource>) -> IndexTables {
    IndexTables {
        revision: Some(BASELINE_REVISION.to_owned()),
        change_seq: 0,
        last_reconcile_seq: 0,
        continuity: WatcherContinuity::Continuous,
        journal: Vec::new(),
        generations: vec![GenerationRecord {
            id: 1,
            state: GenerationState::Stable,
            basis_workspace_revision: BASELINE_REVISION.to_owned(),
            abort_reason: None,
        }],
        next_generation_id: 2,
        stable_generation_id: Some(1),
        component: Some(ResourceIndexState {
            processing_state: ProcessingState::Ready,
            freshness_state: FreshnessState::Current,
            basis_workspace_revision: BASELINE_REVISION.to_owned(),
            stable_generation_id: Some(1),
            last_error_code: None,
        }),
        resources,
    }
}

fn dirty(mut tables: IndexTables) -> IndexTables {
    if let Some(component) = tables.component.as_mut() {
        component.processing_state = ProcessingState::Queued;
        component.freshness_state = FreshnessState::Dirty;
    }
    tables
}

const APP: &str = "src/app.ts";

fn app(revision: &str) -> Resource {
    resource(1, APP, revision)
}

/// A published index in which `src/app.ts` was saved.
fn saved() -> IndexTables {
    let mut tables = dirty(baseline(vec![app("1"), resource(2, "lib.py", "1")]));
    tables.journal.push(candidate(1, WatchEventKind::Modify, Some(1), APP));
    tables
}

/// What is observed of an edited, well-formed `src/app.ts`.
fn edited() -> RefreshFacts {
    RefreshFacts {
        path: PathFacts {
            ignored: false,
            classified: Some(Classification {
                kind: ResourceKind::File,
                role: ResourceRole::Source,
                language: Some(ResourceLanguage::TypeScript),
            }),
        },
        observed_path_key: APP.to_owned(),
        observed_hash: app("2").content_hash,
        read_hash: app("2").content_hash.expect("hashed"),
        changes: vec![ResourceChange::Update(app("2"))],
        structure: StructuralResult::Accepted { symbols: 3, occurrences: 5 },
        recheck: TargetRecheck {
            ignored: false,
            present: Ok(true),
            drift: Ok(None),
        },
        written: Ok(()),
    }
}

fn run(
    tables: IndexTables,
    facts: &RefreshFacts,
) -> (Result<RefreshOutcome, RefreshError>, IndexTables) {
    let mut engine = TargetedRefresh::open(tables);
    let input = engine.snapshot_input().expect("snapshot");
    let outcome = engine.run(&input, facts);
    (outcome, engine.into_tables())
}

fn freshness(tables: &IndexTables) -> FreshnessState {
    tables.component.as_ref().expect("published").freshness_state
}

fn aborted(tables: &IndexTables) -> usize {
    tables
        .generations
        .iter()
        .filter(|generation| generation.state == GenerationState::Aborted)
        .count()
}

#[test]
fn one_saved_file_is_republished_without_walking_the_workspace() {
    let (outcome, tables) = run(saved(), &edited());
    let outcome = outcome.expect("refresh should not fail");
    let published = outcome.published().expect("a targeted publication");
    assert_eq!(published.resource_id, ResourceId { value: 1 }, "the stable id is kept");
    assert_eq!(published.path_rel, "src/app.ts");
    assert_eq!(published.resource_revision, "2");
    assert_eq!((published.symbols, published.occurrences), (3, 5));

    // The other Resources were not touched in any way.
    assert_eq!(tables.resources[1], resource(2, "lib.py", "1"));
    assert_eq!(tables.resources[0], app("2"));
    assert_eq!(tables.change_seq, 1, "exactly one input change");
    assert_eq!(tables.revision.as_deref(), Some("1"));
    assert_eq!(published.workspace_revision, "1");
    let component = tables.component.as_ref().expect("published");
    assert_eq!(component.freshness_state, FreshnessState::Current);
    assert_eq!(component.processing_state, ProcessingState::Ready);
    assert_eq!(tables.stable_generation_id, Some(published.generation.id));
    assert_eq!(published.generation.state, GenerationState::Stable);
    assert_eq!(
        (
            tables.journal[0].processing_state,
            tables.journal[0].applied_generation_id
        ),
        (JournalState::Applied, Some(published.generation.id)),
        "the candidate is resolved, attributed to the generation that published it"
    );
    assert!(
        tables
            .generations
            .iter()
            .all(|generation| generation.state != GenerationState::Building),
        "no BUILDING generation is left behind, let alone exposed as current"
    );
    assert_eq!(tables.last_reconcile_seq, 0, "a refresh is no reconcile");
}

#[test]
fn a_touch_that_changed_nothing_publishes_nothing() {
    let mut facts = edited();
    facts.observed_hash = app("1").content_hash;
    facts.read_hash = app("1").content_hash.expect("hashed");
    facts.changes = vec![ResourceChange::Unchanged { id: ResourceId { value: 1 } }];
    let (outcome, tables) = run(saved(), &facts);
    assert!(
        matches!(outcome, Ok(RefreshOutcome::NoOp { ref path_rel, .. }) if path_rel == "src/app.ts"),
        "unexpected outcome: {outcome:?}"
    );
    assert_eq!(tables.revision.as_deref(), Some(BASELINE_REVISION));
    assert_eq!(tables.change_seq, 0);
    assert_eq!(tables.stable_generation_id, Some(1));
    assert_eq!(
        tables.resources[0].resource_revision, "1",
        "no resource revision moved either"
    );
    assert_eq!(tables.generations.len(), 1, "no new generation");
    // The candidate is resolved and the component is current again.
    assert_eq!(tables.journal[0].processing_state, JournalState::Applied);
    assert_eq!(tables.journal[0].applied_generation_id, None);
    assert_eq!(freshness(&tables), FreshnessState::Current);
}

#[test]
fn a_second_save_during_the_refresh_discards_the_analysis() {
    // The plan is made, then a second save is journalled, then the
    // publication attempt is supposed to notice.
    let engine = TargetedRefresh::open(saved());
    let input = engine.snapshot_input().expect("snapshot");
    let mut tables = engine.into_tables();
    tables.journal.push(candidate(2, WatchEventKind::Modify, Some(1), APP));
    let mut engine = TargetedRefresh::open(tables);
    let outcome = engine
        .run(&input, &edited())
        .expect("an obsolete refresh is a normal outcome, not an error");
    assert_eq!(
        outcome,
        RefreshOutcome::Obsolete(ObsoleteReason::JournalAdvanced { from_seq: 1, to_seq: 2 })
    );
    let tables = engine.into_tables();
    assert_eq!(tables.revision.as_deref(), Some(BASELINE_REVISION));
    assert_eq!(tables.change_seq, 0);
    assert_eq!(tables.stable_generation_id, Some(1));
    assert_eq!(tables.resources[0], app("1"), "stale analysis is not published");
    assert!(
        tables
            .journal
            .iter()
            .all(|entry| entry.processing_state != JournalState::Applied),
        "nothing was accounted for, so the candidates stay outstanding"
    );
    assert_eq!(freshness(&tables), FreshnessState::Dirty);
    assert_eq!(
        aborted(&tables),
        1,
        "the started generation is explicitly aborted, never left BUILDING"
    );
}

#[test]
fn a_target_that_moved_under_the_analysis_discards_it() {
    let mut drifted = edited();
    drifted.recheck.drift = Ok(Some("the content hash differs".to_owned()));
    let mut vanished = edited();
    vanished.recheck.present = Ok(false);
    let mut excluded = edited();
    excluded.recheck.ignored = true;
    for (facts, expected) in [
        (drifted, "the content hash differs"),
        (vanished, "the file disappeared during the refresh"),
        (excluded, "the path became excluded during the refresh"),
    ] {
        let (outcome, tables) = run(saved(), &facts);
        let Ok(RefreshOutcome::Obsolete(ObsoleteReason::TargetChangedDuringRefresh {
            path_rel,
            detail,
        })) = outcome
        else {
            panic!("unexpected outcome: {outcome:?}");
        };
        assert_eq!((path_rel.as_str(), detail.as_str()), (APP, expected));
        assert_eq!(aborted(&tables), 1);
        assert_eq!(tables.resources[0], app("1"));
    }
    let mut between = edited();
    between.read_hash = "other".to_owned();
    let (outcome, tables) = run(saved(), &between);
    assert!(matches!(
        outcome,
        Ok(RefreshOutcome::Obsolete(ObsoleteReason::TargetChangedDuringRefresh { .. }))
    ));
    assert_eq!(tables, saved(), "no generation was started");
}

#[test]
fn a_clock_that_moved_discards_the_analysis() {
    let engine = TargetedRefresh::open(saved());
    let input = engine.snapshot_input().expect("snapshot");
    let mut tables = engine.into_tables();
    tables.revision = Some("9".to_owned());
    let mut engine = TargetedRefresh::open(tables);
    let outcome = engine.run(&input, &edited()).expect("obsolete");
    assert_eq!(
        outcome,
        RefreshOutcome::Obsolete(ObsoleteReason::ClockAdvanced {
            detail: "workspace revision moved from \"workspace-rev-1\" to \"9\" during the refresh"
                .to_owned()
        })
    );
}

#[test]
fn an_unrelated_pending_resource_defers_instead_of_claiming_the_workspace_is_current() {
    let two = || {
        let mut tables = saved();
        tables.journal.push(candidate(2, WatchEventKind::Modify, Some(2), "lib.py"));
        tables
    };
    let (outcome, after) = run(two(), &edited());
    assert!(
        matches!(
            outcome,
            Ok(RefreshOutcome::Deferred(DeferReason::MultiplePendingResources { resources: 2 }))
        ),
        "unexpected outcome: {outcome:?}"
    );
    assert_eq!(after, two(), "nothing at all was written");
    assert_eq!(freshness(&after), FreshnessState::Dirty);
}

#[test]
fn a_continuity_loss_or_a_bulk_hint_is_reconciles_problem() {
    let mut lost = dirty(baseline(vec![app("1")]));
    lost.continuity = WatcherContinuity::Lost;
    lost.journal.push(candidate(1, WatchEventKind::BulkHint, None, ""));
    let (outcome, mut tables) = run(lost, &edited());
    assert!(
        matches!(
            outcome,
            Ok(RefreshOutcome::Deferred(DeferReason::WatcherContinuityLost))
        ),
        "a lost event stream means the pending set is not the change set"
    );
    assert_eq!(freshness(&tables), FreshnessState::Dirty);

    // Even once the backend reports itself healthy again, the
    // BULK_HINT candidate it left behind is still a whole-Workspace
    // question that only reconcile can answer.
    tables.continuity = WatcherContinuity::Continuous;
    let (outcome, _) = run(tables, &edited());
    assert!(
        matches!(
            outcome,
            Ok(RefreshOutcome::Deferred(DeferReason::UnsupportedEvent {
                kind: WatchEventKind::BulkHint
            }))
        ),
        "a bulk hint is not a single-file modify"
    );
}

#[test]
fn a_move_or_a_delete_then_create_defers_rather_than_guessing_identity() {
    let mut moved = dirty(baseline(vec![app("1")]));
    moved.journal.push(candidate(1, WatchEventKind::Move, Some(1), APP));
    let (outcome, _) = run(moved, &edited());
    assert!(
        matches!(
            outcome,
            Ok(RefreshOutcome::Deferred(DeferReason::UnsupportedEvent {
                kind: WatchEventKind::Move
            }))
        ),
        "a rename is an identity decision, and reconcile owns it"
    );

    let mut recreated = dirty(baseline(vec![app("1")]));
    recreated.journal.push(candidate(1, WatchEventKind::Delete, Some(1), APP));
    recreated.journal.push(candidate(2, WatchEventKind::Create, None, APP));
    let (outcome, tables) = run(recreated, &edited());
    assert!(
        matches!(
            outcome,
            Ok(RefreshOutcome::Deferred(DeferReason::UnsupportedEvent { .. }))
        ),
        "a delete followed by a create is exactly the identity guess to avoid"
    );
    assert_eq!(
        tables.resources[0],
        app("1"),
        "and the previously published structure is left alone"
    );
}

#[test]
fn nothing_pending_or_no_resource_behind_it_defers() {
    let (outcome, _) = run(baseline(vec![app("1")]), &edited());
    assert_eq!(outcome, Ok(RefreshOutcome::Deferred(DeferReason::NothingPending)));
    let mut unknown = dirty(baseline(vec![app("1")]));
    unknown.journal.push(candidate(1, WatchEventKind::Modify, Some(77), "new.ts"));
    let (outcome, _) = run(unknown, &edited());
    assert!(matches!(
        outcome,
        Ok(RefreshOutcome::Deferred(DeferReason::NotAnExistingResource { .. }))
    ));
    let mut tombstone = app("1");
    tombstone.state = ResourceState::Deleted;
    let mut deleted = dirty(baseline(vec![tombstone]));
    deleted.journal.push(candidate(1, WatchEventKind::Modify, Some(1), APP));
    let (outcome, _) = run(deleted, &edited());
    assert_eq!(
        outcome,
        Ok(RefreshOutcome::Deferred(DeferReason::NotAnExistingResource {
            path: Some(APP.to_owned())
        }))
    );
}

#[test]
fn a_path_that_is_no_longer_what_was_indexed_defers() {
    let excluded = PathFacts { ignored: true, classified: edited().path.classified };
    assert_eq!(
        check_target(&app("1"), excluded),
        Some(DeferReason::TargetExcluded { path_rel: APP.to_owned() })
    );
    let missing = PathFacts { ignored: false, classified: None };
    assert_eq!(
        check_target(&app("1"), missing),
        Some(DeferReason::TargetPathMissing { path_rel: APP.to_owned() })
    );
    let reclassified = PathFacts {
        ignored: false,
        classified: Some(Classification {
            kind: ResourceKind::File,
            role: ResourceRole::Test,
            language: Some(ResourceLanguage::TypeScript),
        }),
    };
    assert_eq!(
        check_target(&app("1"), reclassified),
        Some(DeferReason::ClassificationChanged { path_rel: APP.to_owned() })
    );
    assert_eq!(check_target(&app("1"), edited().path), None);
}

#[test]
fn an_incomplete_parse_keeps_the_previously_accepted_structure() {
    // A half-typed edit: a real, current file that the grammar cannot
    // accept as a whole.
    let mut facts = edited();
    facts.structure = StructuralResult::NotAccepted(ParseStatus::Partial);
    let (outcome, after) = run(saved(), &facts);
    assert!(
        matches!(
            outcome,
            Ok(RefreshOutcome::Deferred(DeferReason::ExtractionNotAccepted {
                parse_status: ParseStatus::Partial,
                ..
            }))
        ),
        "unexpected outcome: {outcome:?}"
    );
    assert_eq!(after, saved(), "a broken edit never blanks a file's structure");
    assert_eq!(freshness(&after), FreshnessState::Dirty);
    assert!(after
        .journal
        .iter()
        .all(|entry| entry.processing_state == JournalState::Pending));
}

#[test]
fn what_has_no_structure_or_no_continuity_defers_and_a_broken_parser_fails() {
    let mut plain = edited();
    plain.structure = StructuralResult::NotStructural;
    let (outcome, after) = run(saved(), &plain);
    assert_eq!(
        outcome,
        Ok(RefreshOutcome::Deferred(DeferReason::NotStructuralSource {
            path_rel: APP.to_owned()
        }))
    );
    assert_eq!(after, saved());

    let mut replaced = edited();
    replaced.changes = vec![ResourceChange::Create(resource(9, APP, "1"))];
    let (outcome, after) = run(saved(), &replaced);
    assert_eq!(
        outcome,
        Ok(RefreshOutcome::Deferred(DeferReason::IdentityNotContinuous {
            path_rel: APP.to_owned()
        }))
    );
    assert_eq!(after, saved());

    let mut broken = edited();
    broken.structure = StructuralResult::ParseFailed("no grammar".to_owned());
    let (outcome, after) = run(saved(), &broken);
    assert_eq!(outcome, Err(RefreshError::Parse("no grammar".to_owned())));
    assert_eq!(after, saved());
}

#[test]
fn a_failed_publication_rolls_back_everything_and_aborts_its_generation() {
    let mut facts = edited();
    facts.written = Err("injected failure".to_owned());
    let (outcome, after) = run(saved(), &facts);
    let error = outcome.expect_err("the publication must fail");
    assert!(
        matches!(error, RefreshError::Symbol(_)),
        "unexpected: {}",
        error.message()
    );

    assert_eq!(after.revision.as_deref(), Some(BASELINE_REVISION));
    assert_eq!(after.change_seq, 0);
    assert_eq!(after.stable_generation_id, Some(1));
    assert_eq!(after.resources[0].resource_revision, "1");
    assert!(after
        .journal
        .iter()
        .all(|entry| entry.processing_state == JournalState::Pending));
    assert_eq!(freshness(&after), FreshnessState::Dirty);
    assert_eq!(aborted(&after), 1);
    assert_eq!(
        after.generations[1].abort_reason.as_deref(),
        Some("targeted refresh failed: structural write failed: injected failure")
    );
}

#[test]
fn a_target_that_cannot_be_looked_at_again_aborts_the_publication() {
    let unreadable = || ScanError::Failed { detail: "permission denied".to_owned() };
    let mut lost = edited();
    lost.recheck.present = Err(unreadable());
    let mut unread = edited();
    unread.recheck.drift = Err(unreadable());
    for facts in [lost, unread] {
        let (outcome, after) = run(saved(), &facts);
        assert_eq!(outcome, Err(RefreshError::Scan(unreadable())));
        assert_eq!(after.revision.as_deref(), Some(BASELINE_REVISION));
        assert_eq!(after.stable_generation_id, Some(1));
        assert_eq!(after.resources, saved().resources);
        assert_eq!(after.journal, saved().journal);
        assert_eq!(freshness(&after), FreshnessState::Dirty);
        assert_eq!(aborted(&after), 1);
    }
}

#[test]
fn a_row_that_does_not_describe_the_published_bytes_is_refused() {
    let mut facts = edited();
    facts.observed_path_key = "src/other.ts".to_owned();
    let (outcome, after) = run(saved(), &facts);
    assert_eq!(
        outcome,
        Err(RefreshError::InvariantViolated {
            detail: "resource \"src/app.ts\" does not describe the published bytes after its update"
                .to_owned()
        })
    );
    assert_eq!(aborted(&after), 1);
    let mut vanished = edited();
    vanished.changes = vec![ResourceChange::Update(resource(9, APP, "2"))];
    let (outcome, _) = run(saved(), &vanished);
    assert_eq!(
        outcome,
        Err(RefreshError::InvariantViolated {
            detail: "resource 9 vanished during its own update".to_owned()
        })
    );
}

#[test]
fn a_touch_needs_a_stable_generation() {
    let mut tables = saved();
    tables.stable_generation_id = None;
    let mut facts = edited();
    facts.changes = vec![ResourceChange::Unchanged { id: ResourceId { value: 1 } }];
    let (outcome, _) = run(tables, &facts);
    assert_eq!(
        outcome,
        Err(RefreshError::InvariantViolated {
            detail: "a no-op refresh requires an existing stable generation".to_owned()
        })
    );
}

#[test]
fn without_a_clock_there_is_nothing_to_refresh_against() {
    let mut tables = saved();
    tables.revision = None;
    let engine = TargetedRefresh::open(tables);
    assert_eq!(
        engine.snapshot_input(),
        Err(RefreshError::Scan(ScanError::ClockNotBootstrapped))
    );
    assert_eq!(engine.pending_target(), Ok(app("1")));
    assert_eq!(engine.resources().len(), 2);
}

#[test]
fn obsolete_reasons_are_reported_in_words() {
    let text = obsolete_reason_text(&ObsoleteReason::JournalAdvanced { from_seq: 1, to_seq: 2 });
    assert!(text.contains('1') && text.contains('2'), "{text}");
}
