use std::collections::BTreeMap;

use brainprint_engine::component::{
    FreshnessState, ProcessingState, ResourceIndexState, RECONCILE_FAILED_CODE,
};
use brainprint_engine::index_tables::{
    apply_changes, is_actual_change, mark_applied, max_journal_seq, next_workspace_revision,
    GenerationRecord, GenerationState, IndexTables, JournalEntry, JournalState, ResourceChange,
    WatchEventKind, WatcherContinuity,
};
use brainprint_engine::model::{
    Resource, ResourceId, ResourceKind, ResourceLanguage, ResourceRole, ResourceState,
};
use brainprint_engine::reconcile::{MoveEvidence, Reconcile, ReconcileReport, Recheck};
use brainprint_engine::scan_error::ScanError;

const BASELINE_REVISION: &str = "workspace-rev-1";

fn resource(value: u128, rel: &str, revision: &str) -> Resource {
    Resource {
        id: ResourceId { value },
        path_rel: rel.to_owned(),
        path_key: rel.to_owned(),
        kind: ResourceKind::File,
        role: ResourceRole::Source,
        language: Some(ResourceLanguage::TypeScript),
        size_bytes: 12,
        mtime_ns: 1,
        fingerprint: format!("fp-{rel}-{revision}"),
        content_hash: Some(format!("hash-{rel}-{revision}")),
        state: ResourceState::Active,
        resource_revision: revision.to_owned(),
        generated_kind: None,
        container_resource_id: None,
    }
}

fn candidate(seq: i64, kind: WatchEventKind, target: Option<u128>, rel: &str) -> JournalEntry {
    JournalEntry {
        seq,
        event_kind: kind,
        processing_state: JournalState::Pending,
        resource_id: target.map(|value| ResourceId { value }),
        path_before: Some(rel.to_owned()),
        path_after: Some(rel.to_owned()),
        coalesced_into_seq: None,
        applied_generation_id: None,
    }
}

/// The tables as a first scan left them.
fn baseline(resources: Vec<Resource>) -> IndexTables {
    IndexTables {
        revision: Some(BASELINE_REVISION.to_owned()),
        change_seq: 0,
        last_reconcile_seq: 0,
        continuity: WatcherContinuity::Continuous,
        journal: Vec::new(),
        generations: vec![GenerationRecord {
            id: 1,
            state: GenerationState::Stable,
            basis_workspace_revision: BASELINE_REVISION.to_owned(),
            abort_reason: None,
        }],
        next_generation_id: 2,
        stable_generation_id: Some(1),
        component: Some(ResourceIndexState {
            processing_state: ProcessingState::Ready,
            freshness_state: FreshnessState::Current,
            basis_workspace_revision: BASELINE_REVISION.to_owned(),
            stable_generation_id: Some(1),
            last_error_code: None,
        }),
        resources,
    }
}

fn dirty(mut tables: IndexTables) -> IndexTables {
    if let Some(component) = tables.component.as_mut() {
        component.processing_state = ProcessingState::Queued;
        component.freshness_state = FreshnessState::Dirty;
    }
    tables
}

fn unchanged() -> Recheck {
    Recheck {
        drift: None,
        outside: Ok(()),
    }
}

fn run(
    engine: &mut Reconcile,
    changes: Vec<ResourceChange>,
    recheck: &Recheck,
) -> Result<ReconcileReport, ScanError> {
    let input = engine.snapshot_input()?;
    engine.run(&input, changes, Vec::new(), recheck)
}

/// Every ACTIVE Resource as `path_rel` to `(id, revision)`.
fn inventory(engine: &Reconcile) -> BTreeMap<String, (ResourceId, String)> {
    engine
        .resources()
        .iter()
        .filter(|resource| resource.state == ResourceState::Active)
        .map(|resource| {
            (
                resource.path_rel.clone(),
                (resource.id, resource.resource_revision.clone()),
            )
        })
        .collect()
}

fn index_state(engine: &Reconcile) -> &ResourceIndexState {
    engine
        .resource_index_state()
        .as_ref()
        .expect("the baseline published a component row")
}

fn assert_ready_and_current(engine: &Reconcile) {
    let state = index_state(engine);
    assert_eq!(state.processing_state, ProcessingState::Ready);
    assert_eq!(state.freshness_state, FreshnessState::Current);
}

fn lib() -> Resource {
    resource(1, "lib.rs", "1")
}

fn edited(revision: &str) -> Vec<ResourceChange> {
    vec![ResourceChange::Update(resource(1, "lib.rs", revision))]
}

#[test]
fn a_missed_create_is_recovered_from_the_filesystem_with_no_journal_at_all() {
    let mut engine = Reconcile::open(baseline(vec![lib()]));
    let changes = vec![
        ResourceChange::Unchanged { id: ResourceId { value: 1 } },
        ResourceChange::Create(resource(2, "extra.rs", "1")),
    ];
    let report = run(&mut engine, changes, &unchanged()).expect("reconcile should succeed");
    assert!(report.published(), "a missed create is an actual change");
    assert!(engine.journal().is_empty());
    assert!(inventory(&engine).contains_key("extra.rs"));
    assert_ready_and_current(&engine);
}

#[test]
fn a_missed_delete_is_recovered_from_the_filesystem_with_no_journal_at_all() {
    let mut engine = Reconcile::open(baseline(vec![lib(), resource(2, "gone.rs", "1")]));
    let before = inventory(&engine);
    let changes = vec![ResourceChange::Delete {
        id: ResourceId { value: 2 },
        resource_revision: "2".to_owned(),
    }];
    let report = run(&mut engine, changes, &unchanged()).expect("reconcile should succeed");

    assert!(report.published());
    let after = inventory(&engine);
    assert!(!after.contains_key("gone.rs"), "the deletion must be seen");
    assert_eq!(
        after["lib.rs"], before["lib.rs"],
        "an untouched Resource keeps its id and revision"
    );
    let tombstone = engine
        .resources()
        .iter()
        .find(|resource| resource.id == before["gone.rs"].0)
        .expect("the tombstone keeps the identity");
    assert_eq!(tombstone.state, ResourceState::Deleted);
    assert_eq!(tombstone.resource_revision, "2");
}

#[test]
fn a_missed_modify_is_recovered_from_the_filesystem_with_no_journal_at_all() {
    let mut engine = Reconcile::open(baseline(vec![lib()]));
    let before = inventory(&engine);
    let report = run(&mut engine, edited("2"), &unchanged()).expect("reconcile should succeed");
    assert!(report.published());
    let after = inventory(&engine);
    assert_eq!(after["lib.rs"].0, before["lib.rs"].0, "identity survives");
    assert_eq!(after["lib.rs"].1, "2", "content change advances revision");
}

#[test]
fn a_bulk_change_after_a_continuity_loss_is_recovered_and_continuity_stays_lost() {
    let mut tables = dirty(baseline(vec![lib(), resource(2, "old.rs", "1")]));
    tables.continuity = WatcherContinuity::Lost;
    let mut engine = Reconcile::open(tables);
    assert_eq!(index_state(&engine).freshness_state, FreshnessState::Dirty);
    let changes = vec![
        ResourceChange::Update(resource(1, "lib.rs", "2")),
        ResourceChange::Create(resource(3, "new.rs", "1")),
        ResourceChange::Delete {
            id: ResourceId { value: 2 },
            resource_revision: "2".to_owned(),
        },
    ];
    let report = run(&mut engine, changes, &unchanged()).expect("reconcile should succeed");

    assert!(report.published());
    let after = inventory(&engine);
    assert!(after.contains_key("new.rs"));
    assert!(!after.contains_key("old.rs"));
    assert_eq!(after["lib.rs"].1, "2");
    assert_ready_and_current(&engine);
    assert_eq!(
        report.watcher_continuity,
        WatcherContinuity::Lost,
        "recovering the index does not repair the event stream"
    );
}

#[test]
fn an_explicit_paired_rename_keeps_the_resource_identity() {
    let mut engine = Reconcile::open(baseline(vec![resource(1, "before.rs", "1")]));
    let input = engine.snapshot_input().expect("bootstrapped");
    let evidence = MoveEvidence {
        from_path: "before.rs".to_owned(),
        to_path: "after.rs".to_owned(),
    };
    let report = engine
        .run(
            &input,
            vec![ResourceChange::Update(resource(1, "after.rs", "2"))],
            vec![evidence],
            &unchanged(),
        )
        .expect("reconcile should succeed");
    assert_eq!(report.move_evidence.len(), 1);
    let after = inventory(&engine);
    assert!(!after.contains_key("before.rs"));
    assert_eq!(after["after.rs"], (ResourceId { value: 1 }, "2".to_owned()));
}

#[test]
fn a_no_op_reconcile_advances_no_revision_and_publishes_no_generation() {
    let mut tables = dirty(baseline(vec![lib()]));
    tables.journal.push(candidate(1, WatchEventKind::Modify, Some(1), "lib.rs"));
    let mut engine = Reconcile::open(tables);
    let before = inventory(&engine);
    let changes = vec![ResourceChange::Unchanged { id: ResourceId { value: 1 } }];
    let report = run(&mut engine, changes, &unchanged()).expect("reconcile should succeed");

    assert!(!report.published(), "nothing changed, so nothing publishes");
    assert_eq!(report.workspace_revision, BASELINE_REVISION);
    assert_eq!(
        engine.workspace_revision().expect("revision ok"),
        BASELINE_REVISION
    );
    assert_eq!(inventory(&engine), before, "no Resource revision moves");
    assert_eq!(
        engine.current_stable().expect("stable exists").id,
        1,
        "the baseline generation stays current"
    );
    // The candidate is still resolved, and the bookkeeping recorded it.
    let journal = engine.journal();
    assert_eq!(journal[0].processing_state, JournalState::Applied);
    assert_eq!(journal[0].applied_generation_id, None);
    assert_eq!(engine.last_reconcile_seq(), journal[0].seq);
    assert_ready_and_current(&engine);
}

#[test]
fn a_successful_reconcile_links_the_journal_to_the_generation_that_applied_it() {
    let mut tables = dirty(baseline(vec![lib()]));
    // Two rapid MODIFYs, so one row coalesces into the other.
    let mut first = candidate(1, WatchEventKind::Modify, Some(1), "lib.rs");
    first.processing_state = JournalState::Coalesced;
    first.coalesced_into_seq = Some(2);
    tables.journal.push(first);
    tables.journal.push(candidate(2, WatchEventKind::Modify, Some(1), "lib.rs"));
    let mut engine = Reconcile::open(tables);
    let report = run(&mut engine, edited("2"), &unchanged()).expect("reconcile should succeed");
    let generation = report.generation.as_ref().expect("a change was published");

    assert_eq!(generation.state, GenerationState::Stable);
    let journal = engine.journal();
    assert_eq!(journal.len(), 2, "no journal row is ever deleted");
    assert_eq!(
        journal[0].processing_state,
        JournalState::Coalesced,
        "superseded evidence is preserved as it was"
    );
    assert_eq!(journal[0].coalesced_into_seq, Some(journal[1].seq));
    assert_eq!(journal[0].applied_generation_id, None);
    assert_eq!(journal[1].processing_state, JournalState::Applied);
    assert_eq!(journal[1].applied_generation_id, Some(generation.id));
    assert_eq!(engine.last_reconcile_seq(), journal[1].seq);
    assert_eq!(report.journal_seq_through, journal[1].seq);
}

#[test]
fn a_confirmed_change_advances_the_workspace_revision_as_the_input_change_sequence() {
    let mut engine = Reconcile::open(baseline(vec![lib()]));
    let first = run(&mut engine, edited("2"), &unchanged()).expect("reconcile should succeed");
    let second = run(&mut engine, edited("3"), &unchanged()).expect("reconcile should succeed");

    assert_eq!(first.workspace_revision, "1");
    assert_eq!(second.workspace_revision, "2");
    for report in [&first, &second] {
        let generation = report.generation.as_ref().expect("published");
        assert_eq!(
            generation.basis_workspace_revision, report.workspace_revision,
            "the generation basis is the revision the advance established"
        );
    }
    assert_eq!(
        index_state(&engine).basis_workspace_revision,
        second.workspace_revision
    );

    // A third reconcile with nothing to find must not move it again.
    let nothing = vec![ResourceChange::Unchanged { id: ResourceId { value: 1 } }];
    let third = run(&mut engine, nothing, &unchanged()).expect("reconcile should succeed");
    assert!(!third.published());
    assert_eq!(third.workspace_revision, "2");
}

#[test]
fn a_filesystem_change_during_the_reconcile_keeps_the_previous_stable_generation() {
    let mut engine = Reconcile::open(baseline(vec![lib()]));
    let before = inventory(&engine);
    // A plan made against a snapshot that the filesystem then leaves
    // behind -- the shape of any edit landing mid-reconcile.
    let raced = Recheck {
        drift: Some("lib.rs changed during the reconcile".to_owned()),
        outside: Ok(()),
    };
    let error = run(&mut engine, edited("2"), &raced)
        .expect_err("a mid-reconcile change must not be published as current");

    assert!(matches!(error, ScanError::InputChanged { .. }));
    assert!(error.is_retryable());
    assert_eq!(inventory(&engine), before, "nothing was applied");
    assert_eq!(
        engine.current_stable().expect("stable exists").id,
        1,
        "the previous stable generation survives"
    );
    assert_eq!(
        engine.workspace_revision().expect("revision ok"),
        BASELINE_REVISION,
        "an aborted reconcile advances no revision"
    );
    let tables = engine.into_tables();
    assert_eq!(tables.generations.len(), 2);
    assert_eq!(tables.generations[1].state, GenerationState::Aborted);
}

#[test]
fn a_failed_publication_rolls_back_and_leaves_the_index_dirty() {
    let mut tables = dirty(baseline(vec![lib()]));
    tables.journal.push(candidate(1, WatchEventKind::Modify, Some(1), "lib.rs"));
    let mut engine = Reconcile::open(tables);
    let raced = Recheck {
        drift: Some("lib.rs changed during the reconcile".to_owned()),
        outside: Ok(()),
    };
    run(&mut engine, edited("2"), &raced).expect_err("the publication must fail");

    let state = index_state(&engine);
    assert_eq!(state.processing_state, ProcessingState::Queued);
    assert_eq!(
        state.freshness_state,
        FreshnessState::Dirty,
        "a failed reconcile never claims the index is current"
    );
    assert!(state.stable_generation_id.is_some(), "last valid snapshot");
    assert_eq!(state.last_error_code.as_deref(), Some(RECONCILE_FAILED_CODE));
    assert_eq!(
        engine.journal()[0].processing_state,
        JournalState::Pending,
        "a failed reconcile does not mark candidates handled"
    );
    let building = engine
        .journal()
        .iter()
        .filter_map(|entry| entry.applied_generation_id)
        .count();
    assert_eq!(building, 0);
}

#[test]
fn a_candidate_journalled_during_the_reconcile_blocks_the_publication() {
    let engine = Reconcile::open(baseline(vec![lib()]));
    let input = engine.snapshot_input().expect("bootstrapped");
    // The watcher reports something after the plan was made. The
    // filesystem still matches, so only the journal guard can catch it.
    let mut tables = engine.into_tables();
    tables.journal.push(candidate(1, WatchEventKind::Modify, Some(1), "lib.rs"));
    let mut engine = Reconcile::open(tables);
    let error = engine
        .run(&input, edited("2"), Vec::new(), &unchanged())
        .expect_err("a newer candidate must block the publication");
    assert!(matches!(error, ScanError::InputChanged { .. }));
    assert_eq!(engine.journal()[0].processing_state, JournalState::Pending);
}

#[test]
fn a_failure_outside_the_tables_is_reported_as_it_is() {
    let mut engine = Reconcile::open(baseline(vec![lib()]));
    let broken = Recheck {
        drift: None,
        outside: Err(ScanError::Failed { detail: "disk full".to_owned() }),
    };
    let error = run(&mut engine, edited("2"), &broken).expect_err("the write failed");
    assert_eq!(error, ScanError::Failed { detail: "disk full".to_owned() });
    assert!(!error.is_retryable());
    assert_eq!(index_state(&engine).freshness_state, FreshnessState::Dirty);
}

#[test]
fn without_a_clock_nothing_can_be_planned() {
    let mut tables = baseline(vec![lib()]);
    tables.revision = None;
    let engine = Reconcile::open(tables);
    assert_eq!(engine.snapshot_input(), Err(ScanError::ClockNotBootstrapped));
    assert_eq!(engine.workspace_revision(), Err(ScanError::ClockNotBootstrapped));
}

#[test]
fn two_worktrees_reconcile_independently() {
    let mut left = Reconcile::open(baseline(vec![lib()]));
    let mut right = Reconcile::open(baseline(vec![lib()]));
    let right_before = inventory(&right);

    let created = vec![ResourceChange::Create(resource(2, "only-left.rs", "1"))];
    assert!(run(&mut left, created, &unchanged()).expect("reconcile ok").published());

    assert!(inventory(&left).contains_key("only-left.rs"));
    assert!(!inventory(&right).contains_key("only-left.rs"));
    let nothing = vec![ResourceChange::Unchanged { id: ResourceId { value: 1 } }];
    let right_report = run(&mut right, nothing, &unchanged()).expect("reconcile ok");
    assert!(!right_report.published(), "the other worktree is unchanged");
    assert_eq!(inventory(&right), right_before);
    assert_eq!(right_report.workspace_revision, BASELINE_REVISION);
}

#[test]
fn the_first_reconcile_publishes_even_an_empty_inventory() {
    let mut tables = baseline(Vec::new());
    tables.stable_generation_id = None;
    tables.generations.clear();
    let mut engine = Reconcile::open(tables);
    let report = run(&mut engine, Vec::new(), &unchanged()).expect("reconcile should succeed");
    assert!(report.published(), "a current index has a stable generation");
    assert_eq!(engine.current_stable().expect("stable exists").id, 2);
}

#[test]
fn changes_apply_in_order_and_only_actual_ones_count() {
    let refreshed = ResourceChange::MetadataRefresh {
        id: ResourceId { value: 1 },
        size_bytes: 99,
        mtime_ns: 7,
    };
    assert!(!is_actual_change(&refreshed));
    assert!(!is_actual_change(&ResourceChange::Unchanged { id: ResourceId { value: 1 } }));
    assert!(is_actual_change(&ResourceChange::Create(lib())));
    let rows = apply_changes(&[lib()], &[refreshed]);
    assert_eq!(rows[0].size_bytes, 99);
    assert_eq!(rows[0].mtime_ns, 7);
    assert_eq!(rows[0].resource_revision, "1", "a touch moves no revision");
}

#[test]
fn the_journal_is_applied_up_to_a_sequence() {
    let journal = vec![
        candidate(1, WatchEventKind::Modify, Some(1), "a"),
        candidate(5, WatchEventKind::Modify, Some(2), "b"),
    ];
    assert_eq!(max_journal_seq(&journal), 5);
    assert_eq!(max_journal_seq(&[]), 0);
    let after = mark_applied(&journal, 4, Some(9));
    assert_eq!(after[0].processing_state, JournalState::Applied);
    assert_eq!(after[0].applied_generation_id, Some(9));
    assert_eq!(after[1], journal[1]);
}

#[test]
fn a_revision_is_the_change_sequence_unless_it_is_taken() {
    assert_eq!(next_workspace_revision(1, BASELINE_REVISION), (1, "1".to_owned()));
    assert_eq!(next_workspace_revision(1, "1"), (2, "2".to_owned()));
}

#[test]
fn scan_errors_are_reported_in_words() {
    assert_eq!(
        ScanError::InputChanged { detail: "moved".to_owned() }.message(),
        "the input changed: moved"
    );
}

#[test]
fn generations_are_in_order_when_none_builds_and_readers_see_a_stable_one() {
    assert!(baseline(Vec::new()).is_in_order());

    let mut taken = baseline(Vec::new());
    taken.next_generation_id = 1;
    assert!(!taken.is_in_order());

    let mut building = baseline(Vec::new());
    building.generations[0].state = GenerationState::Building;
    building.stable_generation_id = None;
    assert!(!building.is_in_order());

    let mut dangling = baseline(Vec::new());
    dangling.stable_generation_id = Some(9);
    assert!(!dangling.is_in_order());
}

#[test]
fn a_leftover_building_generation_is_no_obstacle_and_never_seen() {
    let left_over = || {
        let mut tables = baseline(vec![lib()]);
        tables.generations.push(GenerationRecord {
            id: 2,
            state: GenerationState::Building,
            basis_workspace_revision: BASELINE_REVISION.to_owned(),
            abort_reason: None,
        });
        tables.next_generation_id = 3;
        tables
    };
    let mut engine = Reconcile::open(left_over());
    let report = run(&mut engine, edited("rev-2"), &unchanged()).expect("reconciled");
    assert_eq!(report.generation.expect("published").id, 3);
    assert_eq!(engine.current_stable().expect("stable").id, 3);

    let mut tables = left_over();
    tables.stable_generation_id = Some(2);
    let mut engine = Reconcile::open(tables);
    assert!(engine.current_stable().is_none(), "never one that is still building");
    let report = run(&mut engine, Vec::new(), &unchanged()).expect("reconciled");
    assert!(report.published(), "there was no baseline to be current as of");
}

#[test]
fn an_observation_that_failed_leaves_the_index_dirty() {
    let mut engine = Reconcile::open(baseline(vec![lib()]));
    let before = inventory(&engine);
    engine.mark_recovery_required();
    assert_eq!(index_state(&engine).freshness_state, FreshnessState::Dirty);
    assert_eq!(index_state(&engine).processing_state, ProcessingState::Queued);
    assert_eq!(inventory(&engine), before);
    assert_eq!(engine.current_stable().expect("stable").id, 1);
}
