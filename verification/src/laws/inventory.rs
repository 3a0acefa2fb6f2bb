//! What a reconcile does to the Resource inventory and the tables around it.

use vstd::prelude::*;

use crate::component::{FreshnessState, ProcessingState};
use crate::index_tables::{
    after_change, after_changes, changes_input, max_seq, next_revision, row_after, snapshot_of,
    stable_of, GenerationState, InputSnapshot, JournalEntry, JournalState, ResourceChange,
    TablesView,
};
use crate::model::{Resource, ResourceId, ResourceState};
use crate::reconcile::{after_reconcile, failure, must_publish, Recheck};
use crate::scan_error::ScanErrorView;
use crate::text::{decimal, lemma_decimal_injective, Chars};

verus! {

/// The identity that a decision is about.
pub open spec fn decided_about(change: ResourceChange) -> ResourceId {
    match change {
        ResourceChange::Create(resource) => resource.id,
        ResourceChange::Update(resource) => resource.id,
        ResourceChange::MetadataRefresh { id, .. } => id,
        ResourceChange::Unchanged { id } => id,
        ResourceChange::Delete { id, .. } => id,
    }
}

/// None of the decisions from there on is about that identity.
pub open spec fn undecided_from(changes: Seq<ResourceChange>, from: int, id: ResourceId) -> bool {
    forall|j: int| from <= j < changes.len() ==> decided_about(#[trigger] changes[j]) != id
}

/// How many of the decisions create a Resource.
pub open spec fn creations(changes: Seq<ResourceChange>) -> nat
    decreases changes.len(),
{
    if changes.len() == 0 {
        0
    } else {
        creations(changes.drop_last()) + if changes.last() is Create {
            1nat
        } else {
            0nat
        }
    }
}

/// Every row keeps its place and its identity, and a new row stands behind
/// them.
proof fn lemma_places_hold(rows: Seq<Resource>, changes: Seq<ResourceChange>)
    ensures
        after_changes(rows, changes).len() == rows.len() + creations(changes),
        forall|k: int|
            0 <= k < rows.len() ==> (#[trigger] after_changes(rows, changes)[k]).id == rows[k].id,
    decreases changes.len(),
{
    if changes.len() > 0 {
        lemma_places_hold(rows, changes.drop_last());
        let before = after_changes(rows, changes.drop_last());
        let after = after_change(before, changes.last());
        assert(after == after_changes(rows, changes));
        assert forall|k: int| 0 <= k < rows.len() implies (#[trigger] after[k]).id == rows[k].id by {
            assert(before[k].id == rows[k].id);
            if !(changes.last() is Create) {
                assert(after[k] == row_after(before[k], changes.last()));
            }
        }
    }
}

/// A decision about another identity leaves a row as it is.
proof fn lemma_others_are_left(rows: Seq<Resource>, change: ResourceChange, id: ResourceId)
    requires
        decided_about(change) != id,
    ensures
        forall|k: int|
            0 <= k < after_change(rows, change).len() && (#[trigger] after_change(
                rows,
                change,
            )[k]).id == id ==> k < rows.len() && after_change(rows, change)[k] == rows[k],
        forall|k: int|
            0 <= k < rows.len() && (#[trigger] rows[k]).id == id ==> after_change(rows, change)[k]
                == rows[k],
{
    let after = after_change(rows, change);
    assert forall|k: int| 0 <= k < after.len() && (#[trigger] after[k]).id == id implies k
        < rows.len() && after[k] == rows[k] by {
        if !(change is Create) {
            assert(after[k] == row_after(rows[k], change));
        }
    }
    assert forall|k: int| 0 <= k < rows.len() && (#[trigger] rows[k]).id == id implies after[k]
        == rows[k] by {
        if !(change is Create) {
            assert(after[k] == row_after(rows[k], change));
        }
    }
}

/// Once no further decision is about an identity, its rows are those that
/// the decisions up to there left.
proof fn lemma_rows_settle(
    rows: Seq<Resource>,
    changes: Seq<ResourceChange>,
    from: int,
    id: ResourceId,
)
    requires
        0 <= from <= changes.len(),
        undecided_from(changes, from, id),
    ensures
        forall|k: int|
            0 <= k < after_changes(rows, changes).len() && (#[trigger] after_changes(
                rows,
                changes,
            )[k]).id == id ==> k < after_changes(rows, changes.take(from)).len() && after_changes(
                rows,
                changes,
            )[k] == after_changes(rows, changes.take(from))[k],
        forall|k: int|
            0 <= k < after_changes(rows, changes.take(from)).len() && (#[trigger] after_changes(
                rows,
                changes.take(from),
            )[k]).id == id ==> k < after_changes(rows, changes).len() && after_changes(
                rows,
                changes,
            )[k] == after_changes(rows, changes.take(from))[k],
    decreases changes.len(),
{
    if from == changes.len() {
        assert(changes.take(from) =~= changes);
    } else {
        let earlier = changes.drop_last();
        assert forall|j: int| from <= j < earlier.len() implies decided_about(
            #[trigger] earlier[j],
        ) != id by {
            assert(earlier[j] == changes[j]);
        }
        lemma_rows_settle(rows, earlier, from, id);
        assert(earlier.take(from) =~= changes.take(from));
        assert(decided_about(changes[changes.len() - 1]) != id);
        lemma_others_are_left(after_changes(rows, earlier), changes.last(), id);
        lemma_places_hold(rows, changes);
        let before = after_changes(rows, earlier);
        let after = after_changes(rows, changes);
        assert(after == after_change(before, changes.last()));
        assert(after.len() >= before.len());
    }
}

/// An update is published whole. Where a reconcile succeeds and nothing is
/// decided about the identity after the update, every row of that identity is
/// the updated Resource: its path, language, size, time, hash and revision.
pub proof fn law_an_update_is_published_whole(
    tables: TablesView,
    input: InputSnapshot,
    changes: Seq<ResourceChange>,
    recheck: Recheck,
    at: int,
    updated: Resource,
)
    requires
        failure(tables, input, recheck) is None,
        0 <= at < changes.len(),
        changes[at] == ResourceChange::Update(updated),
        undecided_from(changes, at + 1, updated.id),
    ensures
        ({
            let rows = after_reconcile(tables, input, changes, recheck).resources;
            &&& forall|k: int|
                0 <= k < rows.len() && (#[trigger] rows[k]).id == updated.id ==> {
                    &&& rows[k].path_rel == updated.path_rel
                    &&& rows[k].path_key == updated.path_key
                    &&& rows[k].kind == updated.kind
                    &&& rows[k].role == updated.role
                    &&& rows[k].language == updated.language
                    &&& rows[k].size_bytes == updated.size_bytes
                    &&& rows[k].mtime_ns == updated.mtime_ns
                    &&& rows[k].fingerprint == updated.fingerprint
                    &&& rows[k].content_hash == updated.content_hash
                    &&& rows[k].state == updated.state
                    &&& rows[k].resource_revision == updated.resource_revision
                    &&& rows[k].generated_kind == updated.generated_kind
                    &&& rows[k].container_resource_id == updated.container_resource_id
                    &&& rows[k] == updated
                }
            &&& forall|k: int|
                0 <= k < tables.resources.len() && (#[trigger] tables.resources[k]).id
                    == updated.id ==> k < rows.len() && rows[k] == updated
        }),
{
    let rows = tables.resources;
    let upto = changes.take(at + 1);
    assert(upto.drop_last() =~= changes.take(at));
    assert(upto.last() == changes[at]);
    let before = after_changes(rows, changes.take(at));
    let then = after_changes(rows, upto);
    assert(then == after_change(before, changes[at]));
    lemma_rows_settle(rows, changes, at + 1, updated.id);
    lemma_places_hold(rows, changes);
    lemma_places_hold(rows, changes.take(at));
    assert forall|k: int| 0 <= k < then.len() && (#[trigger] then[k]).id == updated.id implies then[k]
        == updated by {
        assert(then[k] == row_after(before[k], changes[at]));
    }
}

/// A created Resource is published as it was observed: where nothing is
/// decided about it afterwards, it has a row, and that is the Resource.
pub proof fn law_a_created_resource_has_its_row(
    tables: TablesView,
    input: InputSnapshot,
    changes: Seq<ResourceChange>,
    recheck: Recheck,
    at: int,
    created: Resource,
)
    requires
        failure(tables, input, recheck) is None,
        0 <= at < changes.len(),
        changes[at] == ResourceChange::Create(created),
        undecided_from(changes, at + 1, created.id),
    ensures
        after_reconcile(tables, input, changes, recheck).resources.contains(created),
        after_reconcile(tables, input, changes, recheck).resources.len() > tables.resources.len(),
{
    let rows = tables.resources;
    let upto = changes.take(at + 1);
    assert(upto.drop_last() =~= changes.take(at));
    assert(upto.last() == changes[at]);
    let before = after_changes(rows, changes.take(at));
    let then = after_changes(rows, upto);
    assert(then == before.push(created));
    lemma_rows_settle(rows, changes, at + 1, created.id);
    let place = before.len() as int;
    assert(then[place] == created);
    lemma_places_hold(rows, changes.take(at));
    assert(after_changes(rows, changes)[place] == created);
}

/// A deleted Resource stays as a tombstone: its row is marked deleted at the
/// revision of the deletion, and all else of it is what the row said.
pub proof fn law_a_deleted_resource_leaves_a_tombstone(
    tables: TablesView,
    input: InputSnapshot,
    changes: Seq<ResourceChange>,
    recheck: Recheck,
    at: int,
    id: ResourceId,
    revision: String,
    k: int,
)
    requires
        failure(tables, input, recheck) is None,
        0 <= at < changes.len(),
        changes[at] == (ResourceChange::Delete { id, resource_revision: revision }),
        undecided_from(changes, at + 1, id),
        undecided_from(changes.take(at), 0, id),
        0 <= k < tables.resources.len(),
        tables.resources[k].id == id,
    ensures
        ({
            let row = after_reconcile(tables, input, changes, recheck).resources[k];
            let held = tables.resources[k];
            &&& k < after_reconcile(tables, input, changes, recheck).resources.len()
            &&& row.state == ResourceState::Deleted
            &&& row.resource_revision == revision
            &&& row.id == id
            &&& row.path_rel == held.path_rel
            &&& row.path_key == held.path_key
            &&& row.kind == held.kind
            &&& row.role == held.role
            &&& row.language == held.language
            &&& row.size_bytes == held.size_bytes
            &&& row.mtime_ns == held.mtime_ns
            &&& row.fingerprint == held.fingerprint
            &&& row.content_hash == held.content_hash
            &&& row.generated_kind == held.generated_kind
            &&& row.container_resource_id == held.container_resource_id
        }),
{
    lemma_decided_once(tables.resources, changes, at, id, k);
}

/// Where one decision alone is about an identity, its row is the old one
/// after that decision.
proof fn lemma_decided_once(
    rows: Seq<Resource>,
    changes: Seq<ResourceChange>,
    at: int,
    id: ResourceId,
    k: int,
)
    requires
        0 <= at < changes.len(),
        !(changes[at] is Create),
        undecided_from(changes, at + 1, id),
        undecided_from(changes.take(at), 0, id),
        0 <= k < rows.len(),
        rows[k].id == id,
    ensures
        k < after_changes(rows, changes).len(),
        after_changes(rows, changes)[k] == row_after(rows[k], changes[at]),
{
    let upto = changes.take(at + 1);
    assert(upto.drop_last() =~= changes.take(at));
    assert(upto.last() == changes[at]);
    let before = after_changes(rows, changes.take(at));
    let then = after_changes(rows, upto);
    lemma_rows_settle(rows, changes.take(at), 0, id);
    assert(changes.take(at).take(0) =~= Seq::empty());
    assert(after_changes(rows, changes.take(at).take(0)) == rows);
    assert(before[k] == rows[k]);
    assert(then[k] == row_after(before[k], changes[at]));
    lemma_places_hold(rows, upto);
    lemma_rows_settle(rows, changes, at + 1, id);
}

/// A refresh of size and time moves these two and nothing else.
pub proof fn law_a_metadata_refresh_moves_size_and_time_alone(
    tables: TablesView,
    input: InputSnapshot,
    changes: Seq<ResourceChange>,
    recheck: Recheck,
    at: int,
    id: ResourceId,
    size_bytes: u64,
    mtime_ns: i64,
    k: int,
)
    requires
        failure(tables, input, recheck) is None,
        0 <= at < changes.len(),
        changes[at] == (ResourceChange::MetadataRefresh { id, size_bytes, mtime_ns }),
        undecided_from(changes, at + 1, id),
        undecided_from(changes.take(at), 0, id),
        0 <= k < tables.resources.len(),
        tables.resources[k].id == id,
    ensures
        ({
            let row = after_reconcile(tables, input, changes, recheck).resources[k];
            let held = tables.resources[k];
            &&& row.size_bytes == size_bytes
            &&& row.mtime_ns == mtime_ns
            &&& row.id == id
            &&& row.path_rel == held.path_rel
            &&& row.path_key == held.path_key
            &&& row.kind == held.kind
            &&& row.role == held.role
            &&& row.language == held.language
            &&& row.fingerprint == held.fingerprint
            &&& row.content_hash == held.content_hash
            &&& row.state == held.state
            &&& row.resource_revision == held.resource_revision
            &&& row.generated_kind == held.generated_kind
            &&& row.container_resource_id == held.container_resource_id
        }),
{
    lemma_decided_once(tables.resources, changes, at, id, k);
}

/// A row that nothing is decided about stays exactly as it is, as does one
/// that was found unchanged; no row is dropped, and only created Resources
/// come in.
pub proof fn law_undecided_rows_stay(
    tables: TablesView,
    input: InputSnapshot,
    changes: Seq<ResourceChange>,
    recheck: Recheck,
    k: int,
)
    requires
        0 <= k < tables.resources.len(),
        forall|j: int|
            0 <= j < changes.len() && decided_about(#[trigger] changes[j])
                == tables.resources[k].id ==> changes[j] is Unchanged,
    ensures
        ({
            let rows = after_reconcile(tables, input, changes, recheck).resources;
            &&& rows.len() == tables.resources.len() + if failure(tables, input, recheck) is None {
                creations(changes)
            } else {
                0
            }
            &&& rows[k] == tables.resources[k]
        }),
{
    lemma_places_hold(tables.resources, changes);
    lemma_unchanged_rows_stay(tables.resources, changes, k);
}

proof fn lemma_unchanged_rows_stay(rows: Seq<Resource>, changes: Seq<ResourceChange>, k: int)
    requires
        0 <= k < rows.len(),
        forall|j: int|
            0 <= j < changes.len() && decided_about(#[trigger] changes[j]) == rows[k].id
                ==> changes[j] is Unchanged,
    ensures
        k < after_changes(rows, changes).len(),
        after_changes(rows, changes)[k] == rows[k],
    decreases changes.len(),
{
    lemma_places_hold(rows, changes);
    if changes.len() > 0 {
        let earlier = changes.drop_last();
        assert forall|j: int|
            0 <= j < earlier.len() && decided_about(#[trigger] earlier[j])
                == rows[k].id implies earlier[j] is Unchanged by {
            assert(earlier[j] == changes[j]);
        }
        lemma_unchanged_rows_stay(rows, earlier, k);
        let before = after_changes(rows, earlier);
        let last = changes[changes.len() - 1];
        assert(last == changes.last());
        if decided_about(last) != rows[k].id {
            lemma_others_are_left(before, last, rows[k].id);
        } else {
            assert(after_change(before, last)[k] == row_after(before[k], last));
        }
    }
}

/// A decision is an actual change exactly when it creates, updates or
/// deletes; drift of size and time never is.
pub proof fn law_only_real_changes_publish(
    tables: TablesView,
    changes: Seq<ResourceChange>,
    at: int,
)
    requires
        0 <= at < changes.len(),
    ensures
        changes[at] is Create || changes[at] is Update || changes[at] is Delete ==> must_publish(
            tables,
            changes,
        ),
        stable_of(tables) is None ==> must_publish(tables, changes),
        stable_of(tables) is Some && (forall|j: int|
            0 <= j < changes.len() ==> (#[trigger] changes[j]) is MetadataRefresh || changes[j]
                is Unchanged) ==> !must_publish(tables, changes),
{
    if changes[at] is Create || changes[at] is Update || changes[at] is Delete {
        assert(changes_input(changes[at]));
    }
    if forall|j: int|
        0 <= j < changes.len() ==> (#[trigger] changes[j]) is MetadataRefresh || changes[j]
            is Unchanged {
        assert forall|j: int| 0 <= j < changes.len() implies !changes_input(
            #[trigger] changes[j],
        ) by {
            assert(changes[j] is MetadataRefresh || changes[j] is Unchanged);
        }
    }
}

/// A reconcile goes through exactly when the Workspace revision, the change
/// sequence and the journal are those of the plan, nothing drifted, and what
/// was done outside the tables went well. What moved first is what is told.
pub proof fn law_a_reconcile_goes_through_when_nothing_moved(
    tables: TablesView,
    input: InputSnapshot,
    recheck: Recheck,
)
    ensures
        failure(tables, input, recheck) is None <==> tables.revision == Some(
            input.workspace_revision@,
        ) && tables.change_seq == input.change_seq && (forall|i: int|
            0 <= i < tables.journal.len() ==> (#[trigger] tables.journal[i]).seq
                <= input.journal_seq) && (input.journal_seq == 0 || exists|i: int|
            0 <= i < tables.journal.len() && (#[trigger] tables.journal[i]).seq
                == input.journal_seq) && input.journal_seq >= 0 && recheck.drift is None
            && recheck.outside is Ok,
        tables.revision is None ==> failure(tables, input, recheck) == Some(
            ScanErrorView::ClockNotBootstrapped,
        ),
        snapshot_of(input, tables) && recheck.drift is Some ==> failure(tables, input, recheck)
            == Some(ScanErrorView::InputChanged((recheck.drift->0)@)),
        snapshot_of(input, tables) && recheck.drift is None && recheck.outside is Err ==> failure(
            tables,
            input,
            recheck,
        ) == Some((recheck.outside->Err_0)@),
{
    law_the_highest_number_of_the_journal(tables.journal);
    if (forall|i: int|
        0 <= i < tables.journal.len() ==> (#[trigger] tables.journal[i]).seq
            <= input.journal_seq) && input.journal_seq != 0 && exists|i: int|
        0 <= i < tables.journal.len() && (#[trigger] tables.journal[i]).seq == input.journal_seq {
        let i = choose|i: int|
            0 <= i < tables.journal.len() && (#[trigger] tables.journal[i]).seq
                == input.journal_seq;
        assert(tables.journal[i].seq <= max_seq(tables.journal));
    }
}

/// The highest sequence number of a journal is one of its rows', and no row
/// has a higher one; it is zero where no row has a positive one.
pub proof fn law_the_highest_number_of_the_journal(journal: Seq<JournalEntry>)
    ensures
        max_seq(journal) >= 0,
        forall|i: int| 0 <= i < journal.len() ==> (#[trigger] journal[i]).seq <= max_seq(journal),
        max_seq(journal) != 0 ==> exists|i: int|
            0 <= i < journal.len() && (#[trigger] journal[i]).seq == max_seq(journal),
    decreases journal.len(),
{
    if journal.len() > 0 {
        let earlier = journal.drop_last();
        law_the_highest_number_of_the_journal(earlier);
        assert(journal[journal.len() - 1] == journal.last());
        assert forall|i: int| 0 <= i < journal.len() implies (#[trigger] journal[i]).seq <= max_seq(
            journal,
        ) by {
            if i < earlier.len() {
                assert(earlier[i] == journal[i]);
            }
        }
        if max_seq(journal) != 0 && max_seq(journal) != journal.last().seq {
            let i = choose|i: int|
                0 <= i < earlier.len() && (#[trigger] earlier[i]).seq == max_seq(earlier);
            assert(journal[i].seq == max_seq(journal));
        }
    }
}

/// What a publication does to the journal: a pending candidate that the plan
/// saw is applied by the new generation, every other row stays, and no row
/// is dropped.
pub proof fn law_the_journal_is_accounted_for(
    tables: TablesView,
    input: InputSnapshot,
    changes: Seq<ResourceChange>,
    recheck: Recheck,
    i: int,
)
    requires
        0 <= i < tables.journal.len(),
    ensures
        ({
            let after = after_reconcile(tables, input, changes, recheck).journal;
            let held = tables.journal[i];
            let went_through = failure(tables, input, recheck) is None;
            &&& after.len() == tables.journal.len()
            &&& after[i].seq == held.seq
            &&& after[i].event_kind == held.event_kind
            &&& after[i].resource_id == held.resource_id
            &&& after[i].path_before == held.path_before
            &&& after[i].path_after == held.path_after
            &&& after[i].coalesced_into_seq == held.coalesced_into_seq
            &&& !went_through ==> after[i] == held
            &&& held.processing_state != JournalState::Pending ==> after[i] == held
            &&& held.seq > input.journal_seq ==> after[i] == held
            &&& went_through && held.processing_state == JournalState::Pending && held.seq
                <= input.journal_seq ==> {
                &&& after[i].processing_state == JournalState::Applied
                &&& after[i].applied_generation_id == if must_publish(tables, changes) {
                    Some(tables.next_generation_id)
                } else {
                    None
                }
            }
        }),
{
}

/// A publication is one step forward for all the tables: the revision is
/// another one and is the generation's basis, the generation is new, stable
/// and the one that readers see, the component is ready and current on it,
/// and the journal is accounted for up to the plan.
pub proof fn law_a_publication_moves_the_tables_together(
    tables: TablesView,
    input: InputSnapshot,
    changes: Seq<ResourceChange>,
    recheck: Recheck,
)
    requires
        failure(tables, input, recheck) is None,
        must_publish(tables, changes),
        tables.next_generation_id < i64::MAX,
        input.change_seq < i64::MAX - 1,
    ensures
        ({
            let after = after_reconcile(tables, input, changes, recheck);
            let made = after.generations.last();
            &&& after.generations.len() == tables.generations.len() + 1
            &&& after.generations.drop_last() == tables.generations
            &&& made.id == tables.next_generation_id
            &&& made.state == GenerationState::Stable
            &&& made.abort_reason is None
            &&& after.next_generation_id == tables.next_generation_id + 1
            &&& after.stable == Some(made.id)
            &&& after.revision == Some(made.basis)
            &&& after.revision != tables.revision
            &&& made.basis == decimal(after.change_seq as int)
            &&& after.change_seq > tables.change_seq
            &&& after.change_seq <= tables.change_seq + 2
            &&& (decimal(tables.change_seq + 1) != input.workspace_revision@ ==> after.change_seq
                == tables.change_seq + 1)
            &&& after.last_reconcile_seq == input.journal_seq
            &&& after.component matches Some(component)
            &&& component.processing == ProcessingState::Ready
            &&& component.freshness == FreshnessState::Current
            &&& component.basis == made.basis
            &&& component.stable == Some(made.id)
            &&& component.code is None
            &&& after.continuity == tables.continuity
        }),
{
    if decimal(input.change_seq + 1) == decimal(input.change_seq + 2) {
        lemma_decimal_injective(input.change_seq + 1, input.change_seq + 2);
    }
    let after = after_reconcile(tables, input, changes, recheck);
    assert(after.generations.drop_last() =~= tables.generations);
}

/// A reconcile that finds nothing says so: no generation, no revision, and
/// the component is ready and current on what readers already see.
pub proof fn law_a_reconcile_without_changes_confirms(
    tables: TablesView,
    input: InputSnapshot,
    changes: Seq<ResourceChange>,
    recheck: Recheck,
)
    requires
        failure(tables, input, recheck) is None,
        !must_publish(tables, changes),
    ensures
        ({
            let after = after_reconcile(tables, input, changes, recheck);
            &&& after.generations == tables.generations
            &&& after.next_generation_id == tables.next_generation_id
            &&& after.revision == tables.revision
            &&& after.change_seq == tables.change_seq
            &&& after.stable == tables.stable
            &&& after.last_reconcile_seq == input.journal_seq
            &&& after.component matches Some(component)
            &&& component.processing == ProcessingState::Ready
            &&& component.freshness == FreshnessState::Current
            &&& Some(component.basis) == tables.revision
            &&& component.stable == tables.stable
            &&& component.code is None
        }),
{
    crate::index_tables::lemma_readers_see_a_stable_generation(tables);
}

/// A reconcile that fails is told: a generation that it began is aborted with
/// the reason, the component is queued and dirty at the current revision, and
/// an earlier error code stays the reason.
pub proof fn law_a_failed_reconcile_is_told(
    tables: TablesView,
    input: InputSnapshot,
    changes: Seq<ResourceChange>,
    recheck: Recheck,
)
    requires
        failure(tables, input, recheck) is Some,
        tables.next_generation_id < i64::MAX,
    ensures
        ({
            let after = after_reconcile(tables, input, changes, recheck);
            &&& after.stable == tables.stable
            &&& after.resources == tables.resources
            &&& after.journal == tables.journal
            &&& !must_publish(tables, changes) ==> after.generations == tables.generations
                && after.next_generation_id == tables.next_generation_id
            &&& must_publish(tables, changes) ==> {
                let made = after.generations.last();
                &&& after.generations.len() == tables.generations.len() + 1
                &&& after.generations.drop_last() == tables.generations
                &&& made.id == tables.next_generation_id
                &&& made.state == GenerationState::Aborted
                &&& made.abort_reason == Some(
                    crate::scan_error::error_words(failure(tables, input, recheck)->0),
                )
                &&& after.next_generation_id == tables.next_generation_id + 1
            }
            &&& tables.revision matches Some(revision) ==> {
                &&& after.component matches Some(component)
                &&& component.processing == ProcessingState::Queued
                &&& component.freshness == FreshnessState::Dirty
                &&& component.basis == revision
                &&& component.stable == (match tables.component {
                    Some(held) => held.stable,
                    None => None,
                })
                &&& tables.component is Some && tables.component->0.code is Some ==> component.code
                    == tables.component->0.code
                &&& tables.component is None || tables.component->0.code is None ==> component.code
                    == Some("RECONCILE_FAILED"@)
            }
            &&& tables.revision is None ==> after.component == tables.component
        }),
{
    let after = after_reconcile(tables, input, changes, recheck);
    if must_publish(tables, changes) {
        assert(after.generations.drop_last() =~= tables.generations);
    }
}

/// The next revision is the first number from the sequence on that does not
/// read like the current one.
pub proof fn law_the_next_revision_is_the_first_that_differs(change_seq: int, current: Chars)
    ensures
        ({
            let (seq, revision) = next_revision(change_seq, current);
            &&& revision == decimal(seq)
            &&& revision != current
            &&& seq >= change_seq
            &&& forall|n: int| change_seq <= n < seq ==> #[trigger] decimal(n) == current
        }),
{
    if decimal(change_seq) == decimal(change_seq + 1) {
        lemma_decimal_injective(change_seq, change_seq + 1);
    }
}

} // verus!
