//! When one saved file is published on its own, and what that leaves.

use vstd::prelude::*;

use crate::component::{FreshnessState, ProcessingState};
use crate::index_tables::{
    max_seq, stable_of, GenerationState, InputSnapshot, JournalEntry, JournalState, ResourceChange,
    TablesView, WatchEventKind, WatcherContinuity,
};
use crate::laws::inventory::{
    law_the_highest_number_of_the_journal, law_the_next_revision_is_the_first_that_differs,
};
use crate::model::{Resource, ResourceId, ResourceState};
use crate::refresh::{
    clock_or_journal_moved, first_unhandled, ineligible, named_resources, obsolete_words,
    outstanding, pending_target_of, refresh_tables, refresh_words, row_by_id, row_unfaithful,
    rows_with, seen_at, target_moved, unhandled, DeferView, ObsoleteView, OutcomeView, PathFacts,
    RefreshErrorView, RefreshFacts, StructuralResult, TargetRecheck,
};
use crate::scan_error::ScanErrorView;
use crate::text::{decimal, optional_chars, Chars};

verus! {

// ---------------------------------------------------------------------
// Choosing the target
// ---------------------------------------------------------------------

/// A candidate is outstanding exactly while it is pending.
pub proof fn law_pending_candidates_are_outstanding(
    journal: Seq<JournalEntry>,
    entry: JournalEntry,
)
    ensures
        outstanding(journal).contains(entry) <==> journal.contains(entry)
            && entry.processing_state == JournalState::Pending,
{
    let pending = |entry: JournalEntry| entry.processing_state == JournalState::Pending;
    if outstanding(journal).contains(entry) {
        journal.lemma_filter_contains_rev(pending, entry);
        let i = choose|i: int|
            0 <= i < outstanding(journal).len() && outstanding(journal)[i] == entry;
        journal.lemma_filter_pred(pending, i);
    }
    if journal.contains(entry) && entry.processing_state == JournalState::Pending {
        let i = choose|i: int| 0 <= i < journal.len() && journal[i] == entry;
        journal.lemma_filter_contains(pending, i);
    }
}

/// A candidate can be handled exactly when it is a modification of a known
/// Resource; otherwise it says what stands in the way.
pub proof fn law_only_a_modification_is_handled(entry: JournalEntry)
    ensures
        unhandled(entry) is None <==> entry.event_kind == WatchEventKind::Modify
            && entry.resource_id is Some,
        entry.event_kind != WatchEventKind::Modify ==> unhandled(entry) == Some(
            DeferView::UnsupportedEvent(entry.event_kind),
        ),
        entry.event_kind == WatchEventKind::Modify && entry.resource_id is None ==> unhandled(entry)
            == Some(DeferView::NotAnExistingResource(seen_at(entry))),
        entry.path_after matches Some(path) ==> seen_at(entry) == Some(path@),
        entry.path_after is None ==> seen_at(entry) == optional_chars(entry.path_before),
{
}

proof fn lemma_all_handled(pending: Seq<JournalEntry>)
    ensures
        first_unhandled(pending) is None <==> forall|i: int|
            0 <= i < pending.len() ==> unhandled(#[trigger] pending[i]) is None,
    decreases pending.len(),
{
    if pending.len() > 0 {
        let earlier = pending.drop_last();
        lemma_all_handled(earlier);
        if forall|i: int| 0 <= i < pending.len() ==> unhandled(#[trigger] pending[i]) is None {
            assert forall|i: int| 0 <= i < earlier.len() implies unhandled(
                #[trigger] earlier[i],
            ) is None by {
                assert(earlier[i] == pending[i]);
            }
            assert(pending[pending.len() - 1] == pending.last());
        }
        if first_unhandled(pending) is None {
            assert forall|i: int| 0 <= i < pending.len() implies unhandled(
                #[trigger] pending[i],
            ) is None by {
                if i < earlier.len() {
                    assert(earlier[i] == pending[i]);
                }
            }
        }
    }
}

/// The reason that is told is that of the first candidate that cannot be
/// handled.
pub proof fn law_the_first_unhandled_candidate_is_told(pending: Seq<JournalEntry>, at: int)
    requires
        0 <= at < pending.len(),
        unhandled(pending[at]) is Some,
        forall|i: int| 0 <= i < at ==> unhandled(#[trigger] pending[i]) is None,
    ensures
        first_unhandled(pending) == unhandled(pending[at]),
    decreases pending.len(),
{
    let earlier = pending.drop_last();
    if at == pending.len() - 1 {
        lemma_all_handled(earlier);
        assert forall|i: int| 0 <= i < earlier.len() implies unhandled(
            #[trigger] earlier[i],
        ) is None by {
            assert(earlier[i] == pending[i]);
        }
    } else {
        assert(earlier[at] == pending[at]);
        assert forall|i: int| 0 <= i < at implies unhandled(#[trigger] earlier[i]) is None by {
            assert(earlier[i] == pending[i]);
        }
        law_the_first_unhandled_candidate_is_told(earlier, at);
    }
}

/// Each Resource that the candidates name is named once, and no other is.
pub proof fn law_each_resource_is_named_once(pending: Seq<JournalEntry>, id: ResourceId)
    ensures
        named_resources(pending).no_duplicates(),
        named_resources(pending).contains(id) <==> exists|i: int|
            0 <= i < pending.len() && (#[trigger] pending[i]).resource_id == Some(id),
    decreases pending.len(),
{
    if pending.len() > 0 {
        let earlier = pending.drop_last();
        law_each_resource_is_named_once(earlier, id);
        let before = named_resources(earlier);
        let all = named_resources(pending);
        if all.contains(id) {
            let at = choose|at: int| 0 <= at < all.len() && all[at] == id;
            if at < before.len() {
                assert(before[at] == id);
                let i = choose|i: int|
                    0 <= i < earlier.len() && (#[trigger] earlier[i]).resource_id == Some(id);
                assert(pending[i].resource_id == Some(id));
            } else {
                assert(pending[pending.len() - 1].resource_id == Some(id));
            }
        }
        if exists|i: int|
            0 <= i < pending.len() && (#[trigger] pending[i]).resource_id == Some(id) {
            let i = choose|i: int|
                0 <= i < pending.len() && (#[trigger] pending[i]).resource_id == Some(id);
            if i < earlier.len() {
                assert(earlier[i].resource_id == Some(id));
                let at = choose|at: int| 0 <= at < before.len() && before[at] == id;
                assert(all[at] == id);
            } else if !before.contains(id) {
                assert(all[all.len() - 1] == id);
            }
        }
    }
}

proof fn lemma_row_by_id(rows: Seq<Resource>, id: ResourceId)
    ensures
        row_by_id(rows, id) matches Some(row) ==> row.id == id && rows.contains(row),
        row_by_id(rows, id) is None <==> forall|i: int|
            0 <= i < rows.len() ==> (#[trigger] rows[i]).id != id,
    decreases rows.len(),
{
    if rows.len() > 0 {
        let rest = rows.skip(1);
        lemma_row_by_id(rest, id);
        if rows[0].id == id {
            assert(rows.contains(rows[0]));
        } else {
            if let Some(row) = row_by_id(rows, id) {
                let i = choose|i: int| 0 <= i < rest.len() && rest[i] == row;
                assert(rows[i + 1] == row);
            }
            if forall|i: int| 0 <= i < rows.len() ==> (#[trigger] rows[i]).id != id {
                assert forall|i: int| 0 <= i < rest.len() implies (#[trigger] rest[i]).id != id by {
                    assert(rest[i] == rows[i + 1]);
                }
            }
            if row_by_id(rows, id) is None {
                assert forall|i: int| 0 <= i < rows.len() implies (#[trigger] rows[i]).id != id by {
                    if i > 0 {
                        assert(rest[i - 1] == rows[i]);
                    }
                }
            }
        }
    }
}

/// A target is chosen only where no event was lost, something is pending,
/// and everything pending is a modification of that one active Resource.
pub proof fn law_a_target_is_all_that_is_pending(tables: TablesView, target: Resource, at: int)
    requires
        pending_target_of(tables) == Ok::<Resource, DeferView>(target),
        0 <= at < tables.journal.len(),
        tables.journal[at].processing_state == JournalState::Pending,
    ensures
        tables.continuity != WatcherContinuity::Lost,
        target.state == ResourceState::Active,
        tables.resources.contains(target),
        tables.journal[at].event_kind == WatchEventKind::Modify,
        tables.journal[at].resource_id == Some(target.id),
        exists|i: int|
            0 <= i < tables.journal.len() && (#[trigger] tables.journal[i]).processing_state
                == JournalState::Pending,
{
    let pending = outstanding(tables.journal);
    let entry = tables.journal[at];
    law_pending_candidates_are_outstanding(tables.journal, entry);
    lemma_all_handled(pending);
    let i = choose|i: int| 0 <= i < pending.len() && pending[i] == entry;
    assert(unhandled(pending[i]) is None);
    let id = entry.resource_id->0;
    law_each_resource_is_named_once(pending, id);
    let named = named_resources(pending);
    let k = choose|k: int| 0 <= k < named.len() && named[k] == id;
    assert(named[0] == id);
    lemma_row_by_id(tables.resources, id);
}

/// Nothing is chosen where events were lost, or where nothing is pending.
pub proof fn law_nothing_is_guessed(tables: TablesView)
    ensures
        tables.continuity == WatcherContinuity::Lost ==> pending_target_of(tables) == Err::<
            Resource,
            DeferView,
        >(DeferView::WatcherContinuityLost),
        tables.continuity != WatcherContinuity::Lost && (forall|i: int|
            0 <= i < tables.journal.len() ==> (#[trigger] tables.journal[i]).processing_state
                != JournalState::Pending) ==> pending_target_of(tables) == Err::<
            Resource,
            DeferView,
        >(DeferView::NothingPending),
{
    let pending = outstanding(tables.journal);
    if (forall|i: int|
        0 <= i < tables.journal.len() ==> (#[trigger] tables.journal[i]).processing_state
            != JournalState::Pending) && pending.len() > 0 {
        law_pending_candidates_are_outstanding(tables.journal, pending[0]);
        assert(pending.contains(pending[0]));
        let i = choose|i: int| 0 <= i < tables.journal.len() && tables.journal[i] == pending[0];
        assert(tables.journal[i].processing_state != JournalState::Pending);
    }
}

/// One pending modification of an active Resource is a target.
pub proof fn law_a_single_save_is_a_target(tables: TablesView, target: Resource)
    requires
        tables.continuity != WatcherContinuity::Lost,
        outstanding(tables.journal).len() > 0,
        forall|i: int|
            0 <= i < outstanding(tables.journal).len() ==> (#[trigger] outstanding(
                tables.journal,
            )[i]).event_kind == WatchEventKind::Modify && outstanding(tables.journal)[i].resource_id
                == Some(target.id),
        row_by_id(tables.resources, target.id) == Some(target),
        target.state == ResourceState::Active,
    ensures
        pending_target_of(tables) == Ok::<Resource, DeferView>(target),
{
    let pending = outstanding(tables.journal);
    lemma_all_handled(pending);
    assert forall|i: int| 0 <= i < pending.len() implies unhandled(#[trigger] pending[i]) is None by {
        assert(pending[i].event_kind == WatchEventKind::Modify);
    }
    let named = named_resources(pending);
    law_each_resource_is_named_once(pending, target.id);
    assert(pending[0].resource_id == Some(target.id));
    assert(named.contains(target.id));
    assert forall|k: int| 0 <= k < named.len() implies named[k] == target.id by {
        law_each_resource_is_named_once(pending, named[k]);
        assert(named.contains(named[k]));
        let i = choose|i: int|
            0 <= i < pending.len() && (#[trigger] pending[i]).resource_id == Some(named[k]);
        assert(pending[i].resource_id == Some(target.id));
    }
    if named.len() > 1 {
        assert(named[0] == named[1]);
    }
}

/// Candidates of several Resources are not published one by one: how many
/// there are is told.
pub proof fn law_several_resources_are_left_to_reconcile(tables: TablesView, i: int, j: int)
    requires
        tables.continuity != WatcherContinuity::Lost,
        first_unhandled(outstanding(tables.journal)) is None,
        0 <= i < outstanding(tables.journal).len(),
        0 <= j < outstanding(tables.journal).len(),
        outstanding(tables.journal)[i].resource_id != outstanding(tables.journal)[j].resource_id,
    ensures
        pending_target_of(tables) == Err::<Resource, DeferView>(
            DeferView::MultiplePendingResources(named_resources(outstanding(tables.journal)).len()),
        ),
        named_resources(outstanding(tables.journal)).len() >= 2,
{
    let pending = outstanding(tables.journal);
    lemma_all_handled(pending);
    assert(unhandled(pending[i]) is None);
    assert(unhandled(pending[j]) is None);
    let a = pending[i].resource_id->0;
    let b = pending[j].resource_id->0;
    law_each_resource_is_named_once(pending, a);
    law_each_resource_is_named_once(pending, b);
    assert(pending[i].resource_id == Some(a));
    assert(pending[j].resource_id == Some(b));
    let named = named_resources(pending);
    let x = choose|x: int| 0 <= x < named.len() && named[x] == a;
    let y = choose|y: int| 0 <= y < named.len() && named[y] == b;
    assert(x != y);
}

/// A target stays eligible exactly when its path is not excluded, is a file,
/// and has the kind, role and language that it had.
pub proof fn law_a_reclassified_target_is_not_eligible(resource: Resource, facts: PathFacts)
    ensures
        ineligible(resource, facts) is None <==> !facts.ignored && (facts.classified
            matches Some(found) && found.kind == resource.kind && found.role == resource.role
            && found.language == resource.language),
        facts.ignored ==> ineligible(resource, facts) == Some(
            DeferView::TargetExcluded(resource.path_rel@),
        ),
        !facts.ignored && facts.classified is None ==> ineligible(resource, facts) == Some(
            DeferView::TargetPathMissing(resource.path_rel@),
        ),
        !facts.ignored && facts.classified is Some && ineligible(resource, facts) is Some
            ==> ineligible(resource, facts) == Some(
            DeferView::ClassificationChanged(resource.path_rel@),
        ),
{
}

// ---------------------------------------------------------------------
// What moved
// ---------------------------------------------------------------------

/// Nothing moved in the tables exactly when the revision, the input sequence
/// and the journal's highest number are those of the plan.
pub proof fn law_a_moved_clock_is_noticed(tables: TablesView, input: InputSnapshot)
    ensures
        clock_or_journal_moved(tables, input) == Ok::<Option<ObsoleteView>, RefreshErrorView>(None)
            <==> tables.revision == Some(input.workspace_revision@) && tables.change_seq
            == input.change_seq && max_seq(tables.journal) == input.journal_seq,
        tables.revision is None ==> clock_or_journal_moved(tables, input) == Err::<
            Option<ObsoleteView>,
            RefreshErrorView,
        >(RefreshErrorView::Scan(ScanErrorView::ClockNotBootstrapped)),
        tables.revision == Some(input.workspace_revision@) && tables.change_seq == input.change_seq
            && max_seq(tables.journal) != input.journal_seq ==> clock_or_journal_moved(
            tables,
            input,
        ) == Ok::<Option<ObsoleteView>, RefreshErrorView>(
            Some(ObsoleteView::JournalAdvanced(input.journal_seq, max_seq(tables.journal))),
        ),
        tables.revision is Some && (tables.revision != Some(input.workspace_revision@)
            || tables.change_seq != input.change_seq) ==> (clock_or_journal_moved(tables, input)
            matches Ok(Some(ObsoleteView::ClockAdvanced(_)))),
{
}

/// The target stands exactly when it is not excluded, is still there and
/// looks as it did.
pub proof fn law_a_moved_target_is_noticed(path_rel: Chars, recheck: TargetRecheck)
    ensures
        target_moved(path_rel, recheck) == Ok::<Option<ObsoleteView>, RefreshErrorView>(None)
            <==> !recheck.ignored && recheck.present == Ok::<bool, crate::scan_error::ScanError>(
            true,
        ) && (recheck.drift matches Ok(None)),
        !recheck.ignored && (recheck.present matches Ok(true)) && (recheck.drift matches Ok(
            Some(_),
        )) ==> target_moved(path_rel, recheck) == Ok::<Option<ObsoleteView>, RefreshErrorView>(
            Some(
                ObsoleteView::TargetChangedDuringRefresh(path_rel, recheck.drift->Ok_0->0@),
            ),
        ),
        target_moved(path_rel, recheck) is Err <==> !recheck.ignored && (recheck.present is Err || (
        recheck.present == Ok::<bool, crate::scan_error::ScanError>(true) && recheck.drift is Err)),
{
}

// ---------------------------------------------------------------------
// What is published
// ---------------------------------------------------------------------

/// A refresh publishes only where the target was chosen and is eligible, the
/// bytes that were read are those that were observed, the comparison is one
/// update of it, the whole file was accepted, nothing moved, and the
/// structure was written.
pub proof fn law_what_a_targeted_publication_needs(
    tables: TablesView,
    input: InputSnapshot,
    facts: RefreshFacts,
)
    ensures
        (refresh_tables(tables, input, facts).outcome matches Ok(OutcomeView::Published(_))) <==> {
            &&& pending_target_of(tables) matches Ok(target)
            &&& ineligible(target, facts.path) is None
            &&& optional_chars(facts.observed_hash) == Some(facts.read_hash@)
            &&& facts.changes@.len() == 1
            &&& facts.changes@[0] matches ResourceChange::Update(updated)
            &&& facts.structure is Accepted
            &&& tables.revision == Some(input.workspace_revision@)
            &&& tables.change_seq == input.change_seq
            &&& max_seq(tables.journal) == input.journal_seq
            &&& !facts.recheck.ignored
            &&& facts.recheck.present matches Ok(true)
            &&& facts.recheck.drift matches Ok(None)
            &&& row_unfaithful(rows_with(tables.resources, updated), updated, facts) is None
            &&& facts.written is Ok
        },
{
}

/// A publication writes the updated row whole and no other row, makes one
/// stable generation at a new revision, accounts for what was pending, and
/// leaves the index current; it tells what it wrote.
pub proof fn law_a_targeted_publication_moves_one_row(
    tables: TablesView,
    input: InputSnapshot,
    facts: RefreshFacts,
    updated: Resource,
    k: int,
)
    requires
        refresh_tables(tables, input, facts).outcome matches Ok(OutcomeView::Published(_)),
        facts.changes@[0] == ResourceChange::Update(updated),
        0 <= k < tables.resources.len(),
        tables.next_generation_id < i64::MAX,
        input.change_seq < i64::MAX - 1,
    ensures
        ({
            let after = refresh_tables(tables, input, facts).tables;
            let made = after.generations.last();
            let told = refresh_tables(tables, input, facts).outcome->Ok_0->Published_0;
            &&& after.resources.len() == tables.resources.len()
            &&& tables.resources[k].id == updated.id ==> after.resources[k] == updated
            &&& tables.resources[k].id != updated.id ==> after.resources[k] == tables.resources[k]
            &&& after.generations.drop_last() == tables.generations
            &&& made.id == tables.next_generation_id
            &&& made.state == GenerationState::Stable
            &&& made.abort_reason is None
            &&& after.next_generation_id == tables.next_generation_id + 1
            &&& after.stable == Some(made.id)
            &&& after.revision == Some(made.basis)
            &&& after.revision != tables.revision
            &&& made.basis == decimal(after.change_seq as int)
            &&& after.change_seq > tables.change_seq
            &&& after.last_reconcile_seq == tables.last_reconcile_seq
            &&& after.continuity == tables.continuity
            &&& after.component is Some
            &&& after.component->0.processing == ProcessingState::Ready
            &&& after.component->0.freshness == FreshnessState::Current
            &&& after.component->0.basis == made.basis
            &&& after.component->0.stable == Some(made.id)
            &&& after.component->0.code is None
            &&& told.resource_id == updated.id
            &&& told.path_rel == updated.path_rel@
            &&& told.resource_revision == updated.resource_revision@
            &&& told.workspace_revision == made.basis
            &&& told.generation == made
            &&& facts.structure == (StructuralResult::Accepted {
                symbols: told.symbols,
                occurrences: told.occurrences,
            })
        }),
{
    law_the_next_revision_is_the_first_that_differs(
        input.change_seq + 1,
        input.workspace_revision@,
    );
    let changes = seq![ResourceChange::Update(updated)];
    assert(changes.drop_last() =~= Seq::<ResourceChange>::empty());
    reveal_with_fuel(crate::index_tables::after_changes, 2);
    assert(rows_with(tables.resources, updated) =~= tables.resources.map_values(
        |row: Resource|
            if row.id == updated.id {
                updated
            } else {
                row
            },
    ));
}

/// After a publication every pending candidate that the plan saw is applied
/// by the new generation, and nothing else in the journal moves.
pub proof fn law_a_targeted_publication_accounts_for_the_journal(
    tables: TablesView,
    input: InputSnapshot,
    facts: RefreshFacts,
    i: int,
)
    requires
        refresh_tables(tables, input, facts).outcome matches Ok(OutcomeView::Published(_)),
        0 <= i < tables.journal.len(),
    ensures
        ({
            let after = refresh_tables(tables, input, facts).tables.journal;
            let held = tables.journal[i];
            &&& after.len() == tables.journal.len()
            &&& after[i].seq == held.seq
            &&& after[i].resource_id == held.resource_id
            &&& held.processing_state != JournalState::Pending ==> after[i] == held
            &&& held.processing_state == JournalState::Pending ==> after[i].processing_state
                == JournalState::Applied && after[i].applied_generation_id == Some(
                tables.next_generation_id,
            )
        }),
{
    law_the_highest_number_of_the_journal(tables.journal);
}

/// A touch that changed nothing makes no generation and no revision: it
/// resolves the candidates and confirms the index over the stable generation
/// that is there.
pub proof fn law_a_touch_confirms(
    tables: TablesView,
    input: InputSnapshot,
    facts: RefreshFacts,
    i: int,
)
    requires
        refresh_tables(tables, input, facts).outcome matches Ok(OutcomeView::NoOp(_, _)),
        0 <= i < tables.journal.len(),
    ensures
        ({
            let after = refresh_tables(tables, input, facts).tables;
            let told = refresh_tables(tables, input, facts).outcome->Ok_0;
            &&& after.generations == tables.generations
            &&& after.next_generation_id == tables.next_generation_id
            &&& after.stable == tables.stable
            &&& after.revision == tables.revision
            &&& after.change_seq == tables.change_seq
            &&& stable_of(tables) is Some
            &&& after.component is Some
            &&& after.component->0.processing == ProcessingState::Ready
            &&& after.component->0.freshness == FreshnessState::Current
            &&& after.component->0.basis == input.workspace_revision@
            &&& after.component->0.stable == tables.stable
            &&& tables.journal[i].processing_state == JournalState::Pending
                ==> after.journal[i].processing_state == JournalState::Applied
                && after.journal[i].applied_generation_id is None
            &&& pending_target_of(tables) matches Ok(target) ==> told == OutcomeView::NoOp(
                target.id,
                target.path_rel@,
            )
        }),
{
    law_the_highest_number_of_the_journal(tables.journal);
}

/// The bytes that were read have to be those that were observed, and the
/// comparison has to be one decision about the same identity.
pub proof fn law_other_bytes_are_not_published(
    tables: TablesView,
    input: InputSnapshot,
    facts: RefreshFacts,
    target: Resource,
)
    requires
        pending_target_of(tables) == Ok::<Resource, DeferView>(target),
        ineligible(target, facts.path) is None,
    ensures
        optional_chars(facts.observed_hash) != Some(facts.read_hash@) ==> refresh_tables(
            tables,
            input,
            facts,
        ).outcome == Ok::<OutcomeView, RefreshErrorView>(
            OutcomeView::Obsolete(
                ObsoleteView::TargetChangedDuringRefresh(
                    target.path_rel@,
                    "the file changed between hashing and reading it"@,
                ),
            ),
        ) && refresh_tables(tables, input, facts).tables == tables,
        optional_chars(facts.observed_hash) == Some(facts.read_hash@) && (facts.changes@.len() != 1
            || facts.changes@[0] is Create || facts.changes@[0] is Delete) ==> refresh_tables(
            tables,
            input,
            facts,
        ).outcome == Ok::<OutcomeView, RefreshErrorView>(
            OutcomeView::Deferred(DeferView::IdentityNotContinuous(target.path_rel@)),
        ),
{
}

/// Only a parse of the whole file may replace anything: one that failed is
/// an error, one that was not accepted is left to reconcile with its status,
/// and a file without structure is left too.
pub proof fn law_only_a_whole_parse_replaces(
    tables: TablesView,
    input: InputSnapshot,
    facts: RefreshFacts,
    target: Resource,
    updated: Resource,
)
    requires
        pending_target_of(tables) == Ok::<Resource, DeferView>(target),
        ineligible(target, facts.path) is None,
        optional_chars(facts.observed_hash) == Some(facts.read_hash@),
        facts.changes@.len() == 1,
        facts.changes@[0] == ResourceChange::Update(updated),
    ensures
        !(facts.structure is Accepted) ==> refresh_tables(tables, input, facts).tables == tables,
        facts.structure is NotStructural ==> refresh_tables(tables, input, facts).outcome == Ok::<
            OutcomeView,
            RefreshErrorView,
        >(OutcomeView::Deferred(DeferView::NotStructuralSource(updated.path_rel@))),
        facts.structure matches StructuralResult::ParseFailed(detail) ==> refresh_tables(
            tables,
            input,
            facts,
        ).outcome == Err::<OutcomeView, RefreshErrorView>(RefreshErrorView::Parse(detail@)),
        facts.structure matches StructuralResult::NotAccepted(status) ==> refresh_tables(
            tables,
            input,
            facts,
        ).outcome == Ok::<OutcomeView, RefreshErrorView>(
            OutcomeView::Deferred(DeferView::ExtractionNotAccepted(updated.path_rel@, status)),
        ),
{
}

/// The row describes the published bytes exactly when it is there, active,
/// under the observed key, with the observed hash and the new revision.
pub proof fn law_a_published_row_describes_its_bytes(
    rows: Seq<Resource>,
    updated: Resource,
    facts: RefreshFacts,
)
    ensures
        row_unfaithful(rows, updated, facts) is None <==> (row_by_id(rows, updated.id)
            matches Some(stored) && stored.state == ResourceState::Active && stored.path_key@
            == facts.observed_path_key@ && optional_chars(stored.content_hash) == optional_chars(
            facts.observed_hash,
        ) && stored.resource_revision@ == updated.resource_revision@),
{
}

/// A discarded analysis is aborted for what moved, and a failed one for its
/// error, each in its own words.
pub proof fn law_an_abort_says_what_moved(
    path_rel: Chars,
    detail: Chars,
    from_seq: i64,
    to_seq: i64,
)
    ensures
        obsolete_words(ObsoleteView::TargetChangedDuringRefresh(path_rel, detail)) == "target "@
            + path_rel + " changed during the refresh: "@ + detail,
        obsolete_words(ObsoleteView::JournalAdvanced(from_seq, to_seq))
            == "the watcher journalled candidates "@ + decimal(from_seq as int) + ".."@ + decimal(
            to_seq as int,
        ) + " during the refresh"@,
        obsolete_words(ObsoleteView::ClockAdvanced(detail)) == detail,
        refresh_words(RefreshErrorView::Symbol(detail)) == "structural write failed: "@ + detail,
        refresh_words(RefreshErrorView::Parse(detail)) == "parse failed: "@ + detail,
        refresh_words(RefreshErrorView::InvariantViolated(detail))
            == "resource invariant violated, so the targeted publication was rolled back: "@
            + detail,
{
}

/// A publication that was begun and discarded is aborted for what moved, and
/// one that failed for its error; either way under the revision that it would
/// have established, and readers see what they saw.
pub proof fn law_a_begun_publication_is_aborted_for_its_reason(
    tables: TablesView,
    input: InputSnapshot,
    facts: RefreshFacts,
)
    requires
        crate::refresh::begins_publication(tables, facts),
    ensures
        ({
            let refreshed = refresh_tables(tables, input, facts);
            let made = refreshed.tables.generations.last();
            &&& refreshed.outcome matches Err(error) ==> made.state == GenerationState::Aborted
                && made.id == tables.next_generation_id && made.abort_reason == Some(
                "targeted refresh failed: "@ + refresh_words(error),
            ) && refreshed.tables.stable == tables.stable
            &&& refreshed.outcome matches Ok(OutcomeView::Obsolete(reason)) ==> made.state
                == GenerationState::Aborted && made.id == tables.next_generation_id
                && made.abort_reason == Some(obsolete_words(reason)) && refreshed.tables.stable
                == tables.stable && refreshed.tables.component == tables.component
        }),
{
}

} // verus!
