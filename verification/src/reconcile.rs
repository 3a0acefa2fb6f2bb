//! Recovering Resource correctness from the current filesystem alone.
//!
//! The watcher's journal is a pile of candidates. Reconcile does not depend
//! on it being right: the filesystem is re-read and believed, and the
//! journal contributes move evidence and nothing else. A confirmed change
//! is published together with the revision advance that it is; a reconcile
//! that finds nothing advances neither the Workspace revision nor any
//! Resource's.

use vstd::prelude::*;

use crate::component::{FreshnessState, ProcessingState, ResourceIndexState};
use crate::index_tables::{
    after_change, after_changes, apply_changes, changes_input, current_component, dirty_component,
    generations_view, in_order, is_actual_change, journal_after,
    lemma_readers_see_a_stable_generation, lemma_revision_advances, made_current, made_dirty,
    mark_applied, max_journal_seq, max_seq, next_revision, next_workspace_revision,
    optional_component, snapshot_of, stable_of, GenerationRecord, GenerationState, GenerationView,
    IndexTables, InputSnapshot, JournalEntry, ResourceChange, TablesView, WatcherContinuity,
};
use crate::model::Resource;
use crate::scan_error::{error_words, ScanError, ScanErrorView};
use crate::text::{debug_form, decimal, decimal_text, joined, quoted, same_text, Chars};

verus! {

/// A rename that the watcher's backend itself vouched for.
#[derive(Debug, PartialEq, Eq)]
pub struct MoveEvidence {
    pub from_path: String,
    pub to_path: String,
}

/// What a completed reconcile established.
#[derive(Debug, PartialEq, Eq)]
pub struct ReconcileReport {
    /// The generation that was published, or none where the filesystem
    /// already agreed with the inventory.
    pub generation: Option<GenerationRecord>,
    /// The Workspace revision in force afterwards.
    pub workspace_revision: String,
    /// Every identity decision of the comparison.
    pub changes: Vec<ResourceChange>,
    /// The move evidence that the journal could confirm and that was
    /// offered to the comparison.
    pub move_evidence: Vec<MoveEvidence>,
    /// The journal was accounted for up to and including this number.
    pub journal_seq_through: i64,
    /// The watcher's own continuity state, untouched by a reconcile.
    pub watcher_continuity: WatcherContinuity,
}

impl ReconcileReport {
    /// Whether a new stable generation was published.
    pub fn published(&self) -> (published: bool)
        ensures
            published == self.generation is Some,
    {
        self.generation.is_some()
    }
}

/// What was found when the plan was checked again, before committing.
#[derive(Debug, PartialEq, Eq)]
pub struct Recheck {
    /// How a second observation differs from the one that was planned
    /// against, if it does.
    pub drift: Option<String>,
    /// What the steps outside the tables came to: the invariants of the
    /// inventory, and the structure of what changed.
    pub outside: Result<(), ScanError>,
}

/// What moved since the plan was made, if anything did: the clock, the
/// journal or the filesystem.
pub open spec fn input_moved(
    tables: TablesView,
    input: InputSnapshot,
    drift: Option<String>,
) -> Option<ScanErrorView> {
    match tables.revision {
        None => Some(ScanErrorView::ClockNotBootstrapped),
        Some(current) => if current != input.workspace_revision@ {
            Some(
                ScanErrorView::InputChanged(
                    "workspace revision moved from "@ + debug_form(input.workspace_revision@)
                        + " to "@ + debug_form(current) + " during the reconcile"@,
                ),
            )
        } else if tables.change_seq != input.change_seq {
            Some(
                ScanErrorView::InputChanged(
                    "the input change sequence advanced during the reconcile"@,
                ),
            )
        } else if max_seq(tables.journal) != input.journal_seq {
            Some(
                ScanErrorView::InputChanged(
                    "the watcher journalled candidate "@ + decimal(max_seq(tables.journal) as int)
                        + " during the reconcile"@,
                ),
            )
        } else {
            match drift {
                Some(detail) => Some(ScanErrorView::InputChanged(detail@)),
                None => None,
            }
        },
    }
}

/// Why a reconcile fails, if it does: what moved, and else what the steps
/// outside the tables came to.
pub open spec fn failure(
    tables: TablesView,
    input: InputSnapshot,
    recheck: Recheck,
) -> Option<ScanErrorView> {
    match input_moved(tables, input, recheck.drift) {
        Some(error) => Some(error),
        None => match recheck.outside {
            Ok(_) => None,
            Err(error) => Some(error@),
        },
    }
}

/// Whether a reconcile publishes: there is an actual change, or no baseline
/// has ever been published, so that "current" never means "current as of no
/// generation".
pub open spec fn must_publish(tables: TablesView, changes: Seq<ResourceChange>) -> bool {
    stable_of(tables) is None || exists|i: int|
        0 <= i < changes.len() && changes_input(#[trigger] changes[i])
}

/// The sequence and revision that a publication establishes.
pub open spec fn established(input: InputSnapshot) -> (int, Chars) {
    next_revision(input.change_seq + 1, input.workspace_revision@)
}

/// The generation that a publication establishes.
pub open spec fn published_generation(tables: TablesView, input: InputSnapshot) -> GenerationView {
    GenerationView {
        id: tables.next_generation_id,
        state: GenerationState::Stable,
        basis: established(input).1,
        abort_reason: None,
    }
}

/// The tables after a publication: the revision advance, the Resource rows,
/// the component, the journal and the stable generation, together.
pub open spec fn after_publication(
    tables: TablesView,
    input: InputSnapshot,
    changes: Seq<ResourceChange>,
) -> TablesView {
    let id = tables.next_generation_id;
    TablesView {
        revision: Some(established(input).1),
        change_seq: established(input).0 as i64,
        last_reconcile_seq: input.journal_seq,
        journal: journal_after(tables.journal, input.journal_seq, Some(id)),
        generations: tables.generations.push(published_generation(tables, input)),
        next_generation_id: (id + 1) as i64,
        stable: Some(id),
        component: Some(made_current(established(input).1, id)),
        resources: after_changes(tables.resources, changes),
        ..tables
    }
}

/// The tables after a reconcile that found nothing: bookkeeping alone.
pub open spec fn after_no_op(
    tables: TablesView,
    input: InputSnapshot,
    changes: Seq<ResourceChange>,
) -> TablesView {
    TablesView {
        last_reconcile_seq: input.journal_seq,
        journal: journal_after(tables.journal, input.journal_seq, None),
        component: Some(made_current(input.workspace_revision@, tables.stable->0)),
        resources: after_changes(tables.resources, changes),
        ..tables
    }
}

/// The tables once another reconcile is required: the index could not be
/// confirmed, and nothing else of it is touched.
pub open spec fn recovery_required(tables: TablesView) -> TablesView {
    match tables.revision {
        Some(revision) => TablesView {
            component: Some(made_dirty(tables.component, revision)),
            ..tables
        },
        None => tables,
    }
}

/// The tables after a failed publication: its generation is aborted, and
/// another reconcile is required.
pub open spec fn after_abort(
    tables: TablesView,
    basis: Chars,
    reason: Chars,
) -> TablesView {
    recovery_required(
        TablesView {
            generations: tables.generations.push(
                GenerationView {
                    id: tables.next_generation_id,
                    state: GenerationState::Aborted,
                    basis,
                    abort_reason: Some(reason),
                },
            ),
            next_generation_id: (tables.next_generation_id + 1) as i64,
            ..tables
        },
    )
}

/// What a reconcile leaves of the tables.
pub open spec fn after_reconcile(
    tables: TablesView,
    input: InputSnapshot,
    changes: Seq<ResourceChange>,
    recheck: Recheck,
) -> TablesView {
    match failure(tables, input, recheck) {
        None => if must_publish(tables, changes) {
            after_publication(tables, input, changes)
        } else {
            after_no_op(tables, input, changes)
        },
        Some(error) => if must_publish(tables, changes) {
            after_abort(tables, established(input).1, error_words(error))
        } else {
            recovery_required(tables)
        },
    }
}

// ---------------------------------------------------------------------
// Laws
// ---------------------------------------------------------------------

/// A failed reconcile leaves the previous stable generation, the Resource
/// rows, the revision and the journal exactly as they were, never claims
/// that the index is current, and keeps an earlier error code.
pub proof fn lemma_failure_keeps_the_last_valid_index(
    tables: TablesView,
    input: InputSnapshot,
    changes: Seq<ResourceChange>,
    recheck: Recheck,
)
    requires
        failure(tables, input, recheck) is Some,
    ensures
        ({
            let after = after_reconcile(tables, input, changes, recheck);
            &&& after.revision == tables.revision
            &&& after.change_seq == tables.change_seq
            &&& after.last_reconcile_seq == tables.last_reconcile_seq
            &&& after.continuity == tables.continuity
            &&& after.journal == tables.journal
            &&& after.stable == tables.stable
            &&& after.resources == tables.resources
            &&& tables.revision is Some ==> after.component is Some
                && after.component->0.freshness == FreshnessState::Dirty
                && after.component->0.processing == ProcessingState::Queued
            &&& tables.component matches Some(held) ==> (held.code is Some && tables.revision
                is Some ==> after.component->0.code == held.code)
        }),
{
}

/// A publication advances the revision visibly, and the generation that it
/// publishes is based on exactly that revision.
pub proof fn lemma_publication_advances_the_revision(
    tables: TablesView,
    input: InputSnapshot,
    changes: Seq<ResourceChange>,
)
    requires
        snapshot_of(input, tables),
        input.change_seq < i64::MAX - 1,
    ensures
        after_publication(tables, input, changes).revision != tables.revision,
        after_publication(tables, input, changes).change_seq > tables.change_seq,
        after_publication(tables, input, changes).revision == Some(
            published_generation(tables, input).basis,
        ),
        after_publication(tables, input, changes).component == Some(
            made_current(
                published_generation(tables, input).basis,
                published_generation(tables, input).id,
            ),
        ),
{
    lemma_revision_advances(input.change_seq + 1, input.workspace_revision@);
}

proof fn lemma_harmless_changes(rows: Seq<Resource>, changes: Seq<ResourceChange>)
    requires
        forall|i: int| 0 <= i < changes.len() ==> !changes_input(#[trigger] changes[i]),
    ensures
        after_changes(rows, changes).len() == rows.len(),
        forall|k: int|
            0 <= k < rows.len() ==> (#[trigger] after_changes(rows, changes)[k]).id == rows[k].id
                && after_changes(rows, changes)[k].resource_revision == rows[k].resource_revision
                && after_changes(rows, changes)[k].fingerprint == rows[k].fingerprint
                && after_changes(rows, changes)[k].state == rows[k].state,
    decreases changes.len(),
{
    if changes.len() > 0 {
        let earlier = changes.drop_last();
        assert forall|i: int| 0 <= i < earlier.len() implies !changes_input(
            #[trigger] earlier[i],
        ) by {
            assert(earlier[i] == changes[i]);
        }
        lemma_harmless_changes(rows, earlier);
        assert(!changes_input(changes[changes.len() - 1]));
        let before = after_changes(rows, earlier);
        let after = after_change(before, changes.last());
        assert forall|k: int| 0 <= k < rows.len() implies (#[trigger] after_changes(
            rows,
            changes,
        )[k]).id == rows[k].id && after_changes(rows, changes)[k].resource_revision
            == rows[k].resource_revision && after_changes(rows, changes)[k].fingerprint
            == rows[k].fingerprint && after_changes(rows, changes)[k].state == rows[k].state by {
            assert(before[k].id == rows[k].id);
            assert(after[k] == crate::index_tables::row_after(before[k], changes.last()));
        }
    }
}

/// A reconcile that finds nothing moves no identity, no Resource revision,
/// no Workspace revision and no generation.
pub proof fn lemma_no_op_moves_nothing(
    tables: TablesView,
    input: InputSnapshot,
    changes: Seq<ResourceChange>,
    recheck: Recheck,
)
    requires
        !must_publish(tables, changes),
    ensures
        ({
            let after = after_reconcile(tables, input, changes, recheck);
            &&& after.revision == tables.revision
            &&& after.change_seq == tables.change_seq
            &&& after.generations == tables.generations
            &&& after.stable == tables.stable
            &&& after.resources.len() == tables.resources.len()
            &&& forall|k: int|
                0 <= k < tables.resources.len() ==> (#[trigger] after.resources[k]).id
                    == tables.resources[k].id && after.resources[k].resource_revision
                    == tables.resources[k].resource_revision
        }),
{
    assert forall|i: int| 0 <= i < changes.len() implies !changes_input(#[trigger] changes[i]) by {}
    lemma_harmless_changes(tables.resources, changes);
}

/// The tables stay in order whatever a reconcile comes to: no generation is
/// left building, and readers see a stable one.
pub proof fn lemma_tables_stay_in_order(
    tables: TablesView,
    input: InputSnapshot,
    changes: Seq<ResourceChange>,
    recheck: Recheck,
)
    requires
        in_order(tables),
        tables.next_generation_id < i64::MAX,
    ensures
        in_order(after_reconcile(tables, input, changes, recheck)),
{
    let after = after_reconcile(tables, input, changes, recheck);
    let last = tables.generations.len() as int;
    if failure(tables, input, recheck) is None && must_publish(tables, changes) {
        assert(after.generations[last].id == tables.next_generation_id);
    } else if let Some(stable) = tables.stable {
        let i = choose|i: int|
            0 <= i < tables.generations.len() && (#[trigger] tables.generations[i]).id == stable
                && tables.generations[i].state == GenerationState::Stable;
        assert(after.generations[i] == tables.generations[i]);
    }
    assert forall|i: int| 0 <= i < after.generations.len() implies (
    #[trigger] after.generations[i]).id < after.next_generation_id && after.generations[i].state
        != GenerationState::Building by {
        if i < last {
            assert(after.generations[i] == tables.generations[i]);
        }
    }
}

/// A reconcile does not repair the event stream: the watcher's continuity
/// is its own.
pub proof fn lemma_continuity_is_the_watchers(
    tables: TablesView,
    input: InputSnapshot,
    changes: Seq<ResourceChange>,
    recheck: Recheck,
)
    ensures
        after_reconcile(tables, input, changes, recheck).continuity == tables.continuity,
{
}

// ---------------------------------------------------------------------
// The engine
// ---------------------------------------------------------------------

/// One Workspace's reconcile path.
#[derive(Debug)]
pub struct Reconcile {
    tables: IndexTables,
}

impl Reconcile {
    pub closed spec fn tables(&self) -> TablesView {
        self.tables@
    }

    /// The reconcile path over the tables of a Workspace.
    pub fn open(tables: IndexTables) -> (engine: Self)
        ensures
            engine.tables() == tables@,
    {
        Reconcile { tables }
    }

    /// The tables, to be persisted.
    pub fn into_tables(self) -> (tables: IndexTables)
        ensures
            tables@ == self.tables(),
    {
        self.tables
    }

    /// The Resource inventory that this reconcile corrects.
    pub fn resources(&self) -> (resources: &Vec<Resource>)
        ensures
            resources@ == self.tables().resources,
    {
        &self.tables.resources
    }

    /// The current stable generation. Never one that is still building.
    pub fn current_stable(&self) -> (found: Option<&GenerationRecord>)
        ensures
            match found {
                Some(record) => stable_of(self.tables()) == Some(record@),
                None => stable_of(self.tables()) is None,
            },
    {
        self.tables.current_stable()
    }

    /// The component's persisted state.
    pub fn resource_index_state(&self) -> (state: &Option<ResourceIndexState>)
        ensures
            optional_component(*state) == self.tables().component,
    {
        &self.tables.component
    }

    /// Every journal row, oldest first.
    pub fn journal(&self) -> (journal: &Vec<JournalEntry>)
        ensures
            journal@ == self.tables().journal,
    {
        &self.tables.journal
    }

    /// How far the last completed reconcile accounted for the journal.
    pub fn last_reconcile_seq(&self) -> (seq: i64)
        ensures
            seq == self.tables().last_reconcile_seq,
    {
        self.tables.last_reconcile_seq
    }

    /// The current Workspace revision.
    pub fn workspace_revision(&self) -> (revision: Result<String, ScanError>)
        ensures
            match self.tables().revision {
                Some(held) => revision matches Ok(text) && text@ == held,
                None => revision == Err::<String, ScanError>(ScanError::ClockNotBootstrapped),
            },
    {
        match &self.tables.revision {
            Some(revision) => Ok(revision.clone()),
            None => Err(ScanError::ClockNotBootstrapped),
        }
    }

    /// What a plan is made against.
    pub fn snapshot_input(&self) -> (input: Result<InputSnapshot, ScanError>)
        ensures
            self.tables().revision is None ==> input == Err::<InputSnapshot, ScanError>(
                ScanError::ClockNotBootstrapped,
            ),
            self.tables().revision is Some ==> input is Ok,
            input matches Ok(held) ==> snapshot_of(held, self.tables()),
    {
        match self.tables.snapshot_input() {
            Some(input) => Ok(input),
            None => Err(ScanError::ClockNotBootstrapped),
        }
    }

    /// Whether everything that the plan assumed is still true.
    fn verify_unchanged_input(&self, input: &InputSnapshot, drift: &Option<String>) -> (outcome:
        Result<(), ScanError>)
        ensures
            match input_moved(self.tables(), *input, *drift) {
                Some(error) => outcome is Err && outcome->Err_0@ == error,
                None => outcome is Ok,
            },
    {
        let current = match &self.tables.revision {
            Some(current) => current,
            None => return Err(ScanError::ClockNotBootstrapped),
        };
        if !same_text(current.as_str(), input.workspace_revision.as_str()) {
            let mut detail = joined(
                "workspace revision moved from ",
                quoted(input.workspace_revision.as_str()).as_str(),
            );
            detail.append(" to ");
            detail.append(quoted(current.as_str()).as_str());
            detail.append(" during the reconcile");
            return Err(ScanError::InputChanged { detail });
        }
        if self.tables.change_seq != input.change_seq {
            return Err(
                ScanError::InputChanged {
                    detail: "the input change sequence advanced during the reconcile".to_owned(),
                },
            );
        }
        let journal_seq: i64 = max_journal_seq(self.tables.journal.as_slice());
        if journal_seq != input.journal_seq {
            let mut detail = joined(
                "the watcher journalled candidate ",
                decimal_text(journal_seq).as_str(),
            );
            detail.append(" during the reconcile");
            return Err(ScanError::InputChanged { detail });
        }
        match drift {
            Some(detail) => Err(ScanError::InputChanged { detail: detail.clone() }),
            None => Ok(()),
        }
    }

    fn check(&self, input: &InputSnapshot, recheck: &Recheck) -> (outcome: Result<(), ScanError>)
        ensures
            match failure(self.tables(), *input, *recheck) {
                Some(error) => outcome is Err && outcome->Err_0@ == error,
                None => outcome is Ok,
            },
    {
        match self.verify_unchanged_input(input, &recheck.drift) {
            Ok(()) => match &recheck.outside {
                Ok(()) => Ok(()),
                Err(error) => Err(error.clone()),
            },
            Err(error) => Err(error),
        }
    }

    /// Take note that the index could not be confirmed, and that another
    /// reconcile is required. An error code that is already there is kept.
    pub fn mark_recovery_required(&mut self)
        ensures
            final(self).tables() == recovery_required(old(self).tables()),
    {
        let state = match &self.tables.revision {
            Some(revision) => dirty_component(&self.tables.component, revision.as_str()),
            None => return,
        };
        self.tables.component = Some(state);
    }

    /// The confirmed-change path: advance the revision and publish, all of
    /// it or nothing.
    fn reconcile_changed(
        &mut self,
        input: &InputSnapshot,
        changes: &[ResourceChange],
        recheck: &Recheck,
    ) -> (outcome: Result<GenerationRecord, ScanError>)
        requires
            old(self).tables().next_generation_id < i64::MAX,
            input.change_seq < i64::MAX - 1,
        ensures
            match failure(old(self).tables(), *input, *recheck) {
                None => {
                    &&& outcome matches Ok(record)
                    &&& record@ == published_generation(old(self).tables(), *input)
                    &&& final(self).tables() == after_publication(
                        old(self).tables(),
                        *input,
                        changes@,
                    )
                },
                Some(error) => {
                    &&& outcome is Err
                    &&& outcome->Err_0@ == error
                    &&& final(self).tables() == after_abort(
                        old(self).tables(),
                        established(*input).1,
                        error_words(error),
                    )
                },
            },
    {
        let (change_seq, revision) = next_workspace_revision(
            input.change_seq + 1,
            input.workspace_revision.as_str(),
        );
        let id: i64 = self.tables.next_generation_id;
        let ghost held = generations_view(self.tables.generations@);
        let checked = self.check(input, recheck);
        self.tables.next_generation_id = id + 1;
        match checked {
            Ok(()) => {
                let record = GenerationRecord {
                    id,
                    state: GenerationState::Stable,
                    basis_workspace_revision: revision.clone(),
                    abort_reason: None,
                };
                self.tables.resources = apply_changes(self.tables.resources.as_slice(), changes);
                self.tables.journal = mark_applied(
                    self.tables.journal.as_slice(),
                    input.journal_seq,
                    Some(id),
                );
                self.tables.component = Some(current_component(revision.as_str(), id));
                self.tables.change_seq = change_seq;
                self.tables.revision = Some(revision);
                self.tables.last_reconcile_seq = input.journal_seq;
                self.tables.stable_generation_id = Some(id);
                self.tables.generations.push(record.clone());
                assert(generations_view(self.tables.generations@) =~= held.push(record@));
                Ok(record)
            },
            Err(error) => {
                let record = GenerationRecord {
                    id,
                    state: GenerationState::Aborted,
                    basis_workspace_revision: revision,
                    abort_reason: Some(error.message()),
                };
                self.tables.generations.push(record);
                assert(generations_view(self.tables.generations@) =~= held.push(record@));
                self.mark_recovery_required();
                Err(error)
            },
        }
    }

    /// The path on which the filesystem and the inventory agree: no
    /// identity, no revision and no generation may move. What is written is
    /// bookkeeping.
    fn reconcile_no_op(
        &mut self,
        input: &InputSnapshot,
        changes: &[ResourceChange],
        recheck: &Recheck,
    ) -> (outcome: Result<(), ScanError>)
        requires
            old(self).tables().stable is Some,
        ensures
            match failure(old(self).tables(), *input, *recheck) {
                None => outcome is Ok && final(self).tables() == after_no_op(
                    old(self).tables(),
                    *input,
                    changes@,
                ),
                Some(error) => outcome is Err && outcome->Err_0@ == error && final(self).tables()
                    == recovery_required(old(self).tables()),
            },
    {
        match self.check(input, recheck) {
            Ok(()) => {
                if let Some(stable) = self.tables.stable_generation_id {
                    self.tables.component = Some(
                        current_component(input.workspace_revision.as_str(), stable),
                    );
                }
                self.tables.resources = apply_changes(self.tables.resources.as_slice(), changes);
                self.tables.journal = mark_applied(
                    self.tables.journal.as_slice(),
                    input.journal_seq,
                    None,
                );
                self.tables.last_reconcile_seq = input.journal_seq;
                Ok(())
            },
            Err(error) => {
                self.mark_recovery_required();
                Err(error)
            },
        }
    }

    fn publishes(&self, changes: &[ResourceChange]) -> (publishes: bool)
        ensures
            publishes == must_publish(self.tables(), changes@),
    {
        if self.tables.current_stable().is_none() {
            return true;
        }
        let mut at: usize = 0;
        while at < changes.len()
            invariant
                at <= changes@.len(),
                forall|i: int| 0 <= i < at ==> !changes_input(#[trigger] changes@[i]),
            decreases changes@.len() - at,
        {
            if is_actual_change(&changes[at]) {
                return true;
            }
            at = at + 1;
        }
        false
    }

    /// Re-establish Resource correctness from what was observed of the
    /// current filesystem.
    ///
    /// A new stable generation is published if, and only if, the verified
    /// comparison found an actual change or no baseline has ever been
    /// published. On any failure a started generation is aborted, the
    /// previous stable generation and its Resource rows are left exactly as
    /// they were, the index is dirty rather than claimed current, and the
    /// journal keeps every candidate pending.
    pub fn run(
        &mut self,
        input: &InputSnapshot,
        changes: Vec<ResourceChange>,
        move_evidence: Vec<MoveEvidence>,
        recheck: &Recheck,
    ) -> (outcome: Result<ReconcileReport, ScanError>)
        requires
            old(self).tables().next_generation_id < i64::MAX,
            input.change_seq < i64::MAX - 1,
        ensures
            in_order(old(self).tables()) ==> in_order(final(self).tables()),
            final(self).tables() == after_reconcile(
                old(self).tables(),
                *input,
                changes@,
                *recheck,
            ),
            match failure(old(self).tables(), *input, *recheck) {
                Some(error) => outcome is Err && outcome->Err_0@ == error,
                None => {
                    &&& outcome matches Ok(report)
                    &&& report.generation is Some == must_publish(old(self).tables(), changes@)
                    &&& report.generation matches Some(record) ==> record@ == published_generation(
                        old(self).tables(),
                        *input,
                    )
                    &&& final(self).tables().revision == Some(report.workspace_revision@)
                    &&& report.changes == changes
                    &&& report.move_evidence == move_evidence
                    &&& report.journal_seq_through == input.journal_seq
                    &&& report.watcher_continuity == old(self).tables().continuity
                },
            },
    {
        proof {
            lemma_readers_see_a_stable_generation(self.tables());
            if in_order(self.tables()) {
                lemma_tables_stay_in_order(self.tables(), *input, changes@, *recheck);
            }
        }
        let continuity = self.tables.continuity;
        if self.publishes(changes.as_slice()) {
            match self.reconcile_changed(input, changes.as_slice(), recheck) {
                Ok(record) => Ok(
                    ReconcileReport {
                        workspace_revision: record.basis_workspace_revision.clone(),
                        generation: Some(record),
                        changes,
                        move_evidence,
                        journal_seq_through: input.journal_seq,
                        watcher_continuity: continuity,
                    },
                ),
                Err(error) => Err(error),
            }
        } else {
            match self.reconcile_no_op(input, changes.as_slice(), recheck) {
                Ok(()) => Ok(
                    ReconcileReport {
                        workspace_revision: input.workspace_revision.clone(),
                        generation: None,
                        changes,
                        move_evidence,
                        journal_seq_through: input.journal_seq,
                        watcher_continuity: continuity,
                    },
                ),
                Err(error) => Err(error),
            }
        }
    }
}

} // verus!
