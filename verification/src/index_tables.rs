//! The tables that the Resource index is made of: the clock, the watcher's
//! journal, the generations, the component's state and the Resource rows.
//!
//! One publication writes several of them, and they change together or not
//! at all.

use vstd::prelude::*;

use crate::component::{FreshnessState, ProcessingState, ResourceIndexState, RECONCILE_FAILED_CODE};
use crate::model::{Resource, ResourceId, ResourceState};
use crate::text::{
    copy_optional, decimal, decimal_text, lemma_decimal_injective, optional_chars, same_text,
    Chars,
};

verus! {

// ---------------------------------------------------------------------
// Rows
// ---------------------------------------------------------------------

/// What the watcher saw happen to a path.
#[derive(Debug, Clone, Copy, PartialEq, Eq, Structural)]
pub enum WatchEventKind {
    Create,
    Modify,
    Delete,
    Move,
    /// Something happened somewhere below.
    BulkHint,
}

/// Whether the event stream has gaps.
#[derive(Debug, Clone, Copy, PartialEq, Eq, Structural)]
pub enum WatcherContinuity {
    Continuous,
    Lost,
}

/// What became of a candidate.
#[derive(Debug, Clone, Copy, PartialEq, Eq, Structural)]
pub enum JournalState {
    Pending,
    /// Superseded by a later row, and kept as evidence.
    Coalesced,
    Applied,
}

/// One candidate of the watcher's.
#[derive(Debug, PartialEq, Eq)]
pub struct JournalEntry {
    pub seq: i64,
    pub event_kind: WatchEventKind,
    pub processing_state: JournalState,
    pub resource_id: Option<ResourceId>,
    pub path_before: Option<String>,
    pub path_after: Option<String>,
    pub coalesced_into_seq: Option<i64>,
    pub applied_generation_id: Option<i64>,
}

impl Clone for JournalEntry {
    fn clone(&self) -> (copy: Self)
        ensures
            copy == *self,
    {
        JournalEntry {
            seq: self.seq,
            event_kind: self.event_kind,
            processing_state: self.processing_state,
            resource_id: self.resource_id,
            path_before: copy_optional(&self.path_before),
            path_after: copy_optional(&self.path_after),
            coalesced_into_seq: self.coalesced_into_seq,
            applied_generation_id: self.applied_generation_id,
        }
    }
}

/// How far a generation has come.
#[derive(Debug, Clone, Copy, PartialEq, Eq, Structural)]
pub enum GenerationState {
    Building,
    Stable,
    Aborted,
}

/// One generation of the index.
#[derive(Debug, PartialEq, Eq)]
pub struct GenerationRecord {
    pub id: i64,
    pub state: GenerationState,
    /// The Workspace revision that it describes.
    pub basis_workspace_revision: String,
    pub abort_reason: Option<String>,
}

pub ghost struct GenerationView {
    pub id: i64,
    pub state: GenerationState,
    pub basis: Chars,
    pub abort_reason: Option<Chars>,
}

impl View for GenerationRecord {
    type V = GenerationView;

    open spec fn view(&self) -> GenerationView {
        GenerationView {
            id: self.id,
            state: self.state,
            basis: self.basis_workspace_revision@,
            abort_reason: optional_chars(self.abort_reason),
        }
    }
}

impl Clone for GenerationRecord {
    fn clone(&self) -> (copy: Self)
        ensures
            copy == *self,
    {
        GenerationRecord {
            id: self.id,
            state: self.state,
            basis_workspace_revision: self.basis_workspace_revision.clone(),
            abort_reason: copy_optional(&self.abort_reason),
        }
    }
}

pub ghost struct ComponentView {
    pub processing: ProcessingState,
    pub freshness: FreshnessState,
    pub basis: Chars,
    pub stable: Option<i64>,
    pub code: Option<Chars>,
}

pub open spec fn component_view(state: ResourceIndexState) -> ComponentView {
    ComponentView {
        processing: state.processing_state,
        freshness: state.freshness_state,
        basis: state.basis_workspace_revision@,
        stable: state.stable_generation_id,
        code: optional_chars(state.last_error_code),
    }
}

pub open spec fn optional_component(state: Option<ResourceIndexState>) -> Option<ComponentView> {
    match state {
        Some(held) => Some(component_view(held)),
        None => None,
    }
}

// ---------------------------------------------------------------------
// Planned changes
// ---------------------------------------------------------------------

/// What a comparison decided about one Resource.
#[derive(Debug, PartialEq, Eq)]
pub enum ResourceChange {
    Create(Resource),
    /// The same identity with other content or at another path.
    Update(Resource),
    /// Size and time drifted while the content held.
    MetadataRefresh { id: ResourceId, size_bytes: u64, mtime_ns: i64 },
    Unchanged { id: ResourceId },
    Delete { id: ResourceId, resource_revision: String },
}

/// Whether a decision is an actual input change: the only kind that may
/// advance the Workspace revision.
pub open spec fn changes_input(change: ResourceChange) -> bool {
    change is Create || change is Update || change is Delete
}

/// Whether a decision is an actual input change.
pub fn is_actual_change(change: &ResourceChange) -> (actual: bool)
    ensures
        actual == changes_input(*change),
{
    match change {
        ResourceChange::Create(_) => true,
        ResourceChange::Update(_) => true,
        ResourceChange::Delete { .. } => true,
        ResourceChange::MetadataRefresh { .. } => false,
        ResourceChange::Unchanged { .. } => false,
    }
}

/// The Resource that a decision re-analyzes, if it re-analyzes one: a
/// created or updated one, and no other.
pub open spec fn reanalyzed(change: ResourceChange) -> Option<Resource> {
    match change {
        ResourceChange::Create(resource) => Some(resource),
        ResourceChange::Update(resource) => Some(resource),
        _ => None,
    }
}

/// The Resource that a decision re-analyzes, if it re-analyzes one.
pub fn changed_resource(change: &ResourceChange) -> (resource: Option<&Resource>)
    ensures
        match resource {
            Some(held) => reanalyzed(*change) == Some(*held),
            None => reanalyzed(*change) is None,
        },
{
    match change {
        ResourceChange::Create(resource) => Some(resource),
        ResourceChange::Update(resource) => Some(resource),
        ResourceChange::MetadataRefresh { .. } => None,
        ResourceChange::Unchanged { .. } => None,
        ResourceChange::Delete { .. } => None,
    }
}

/// A row after a decision about its Resource.
pub open spec fn row_after(row: Resource, change: ResourceChange) -> Resource {
    match change {
        ResourceChange::Create(_) => row,
        ResourceChange::Update(resource) => if row.id == resource.id {
            resource
        } else {
            row
        },
        ResourceChange::MetadataRefresh { id, size_bytes, mtime_ns } => if row.id == id {
            Resource { size_bytes, mtime_ns, ..row }
        } else {
            row
        },
        ResourceChange::Unchanged { .. } => row,
        ResourceChange::Delete { id, resource_revision } => if row.id == id {
            Resource { state: ResourceState::Deleted, resource_revision, ..row }
        } else {
            row
        },
    }
}

/// The rows after one decision.
pub open spec fn after_change(rows: Seq<Resource>, change: ResourceChange) -> Seq<Resource> {
    match change {
        ResourceChange::Create(resource) => rows.push(resource),
        _ => rows.map_values(|row: Resource| row_after(row, change)),
    }
}

/// The rows after every decision, one after the other.
pub open spec fn after_changes(rows: Seq<Resource>, changes: Seq<ResourceChange>) -> Seq<Resource>
    decreases changes.len(),
{
    if changes.len() == 0 {
        rows
    } else {
        after_change(after_changes(rows, changes.drop_last()), changes.last())
    }
}

fn apply_to_row(row: &Resource, change: &ResourceChange) -> (after: Resource)
    ensures
        after == row_after(*row, *change),
{
    let mut after = row.clone();
    match change {
        ResourceChange::Create(_) => {},
        ResourceChange::Update(resource) => {
            if row.id == resource.id {
                after = resource.clone();
            }
        },
        ResourceChange::MetadataRefresh { id, size_bytes, mtime_ns } => {
            if row.id == *id {
                after.size_bytes = *size_bytes;
                after.mtime_ns = *mtime_ns;
            }
        },
        ResourceChange::Unchanged { .. } => {},
        ResourceChange::Delete { id, resource_revision } => {
            if row.id == *id {
                after.state = ResourceState::Deleted;
                after.resource_revision = resource_revision.clone();
            }
        },
    }
    after
}

fn apply_change(rows: &[Resource], change: &ResourceChange) -> (after: Vec<Resource>)
    ensures
        after@ == after_change(rows@, *change),
{
    let mut after: Vec<Resource> = Vec::new();
    let mut at: usize = 0;
    while at < rows.len()
        invariant
            at <= rows@.len(),
            after@.len() == at,
            forall|i: int| 0 <= i < at ==> (#[trigger] after@[i]) == row_after(rows@[i], *change),
        decreases rows@.len() - at,
    {
        after.push(apply_to_row(&rows[at], change));
        at = at + 1;
    }
    match change {
        ResourceChange::Create(resource) => {
            assert(after@ =~= rows@);
            after.push(resource.clone());
        },
        _ => {
            assert(after@ =~= rows@.map_values(|row: Resource| row_after(row, *change)));
        },
    }
    after
}

fn copy_rows(rows: &[Resource]) -> (copies: Vec<Resource>)
    ensures
        copies@ == rows@,
{
    let mut copies: Vec<Resource> = Vec::new();
    let mut at: usize = 0;
    while at < rows.len()
        invariant
            at <= rows@.len(),
            copies@.len() == at,
            forall|i: int| 0 <= i < at ==> (#[trigger] copies@[i]) == rows@[i],
        decreases rows@.len() - at,
    {
        copies.push(rows[at].clone());
        at = at + 1;
    }
    assert(copies@ =~= rows@);
    copies
}

/// The rows after every decision.
pub fn apply_changes(rows: &[Resource], changes: &[ResourceChange]) -> (after: Vec<Resource>)
    ensures
        after@ == after_changes(rows@, changes@),
{
    let mut after = copy_rows(rows);
    let mut at: usize = 0;
    assert(changes@.take(0) =~= Seq::empty());
    while at < changes.len()
        invariant
            at <= changes@.len(),
            after@ == after_changes(rows@, changes@.take(at as int)),
        decreases changes@.len() - at,
    {
        assert(changes@.take(at + 1).drop_last() =~= changes@.take(at as int));
        after = apply_change(after.as_slice(), &changes[at]);
        at = at + 1;
    }
    assert(changes@.take(at as int) =~= changes@);
    after
}

// ---------------------------------------------------------------------
// The tables
// ---------------------------------------------------------------------

/// The tables of one Workspace's Resource index.
#[derive(Debug, PartialEq, Eq)]
pub struct IndexTables {
    /// The current Workspace revision, once the clock is bootstrapped.
    pub revision: Option<String>,
    /// The monotonic input-change sequence.
    pub change_seq: i64,
    pub last_reconcile_seq: i64,
    pub continuity: WatcherContinuity,
    pub journal: Vec<JournalEntry>,
    pub generations: Vec<GenerationRecord>,
    /// The id that the next generation gets.
    pub next_generation_id: i64,
    /// The generation that readers see.
    pub stable_generation_id: Option<i64>,
    pub component: Option<ResourceIndexState>,
    pub resources: Vec<Resource>,
}

pub ghost struct TablesView {
    pub revision: Option<Chars>,
    pub change_seq: i64,
    pub last_reconcile_seq: i64,
    pub continuity: WatcherContinuity,
    pub journal: Seq<JournalEntry>,
    pub generations: Seq<GenerationView>,
    pub next_generation_id: i64,
    pub stable: Option<i64>,
    pub component: Option<ComponentView>,
    pub resources: Seq<Resource>,
}

pub open spec fn generations_view(generations: Seq<GenerationRecord>) -> Seq<GenerationView> {
    generations.map_values(|generation: GenerationRecord| generation@)
}

impl View for IndexTables {
    type V = TablesView;

    open spec fn view(&self) -> TablesView {
        TablesView {
            revision: optional_chars(self.revision),
            change_seq: self.change_seq,
            last_reconcile_seq: self.last_reconcile_seq,
            continuity: self.continuity,
            journal: self.journal@,
            generations: generations_view(self.generations@),
            next_generation_id: self.next_generation_id,
            stable: self.stable_generation_id,
            component: optional_component(self.component),
            resources: self.resources@,
        }
    }
}

/// The tables are in order: every generation came before the next id, none
/// is left building, and readers see a stable one.
pub open spec fn in_order(tables: TablesView) -> bool {
    &&& forall|i: int|
        0 <= i < tables.generations.len() ==> (#[trigger] tables.generations[i]).id
            < tables.next_generation_id && tables.generations[i].state
            != GenerationState::Building
    &&& tables.stable matches Some(stable) ==> exists|i: int|
        0 <= i < tables.generations.len() && (#[trigger] tables.generations[i]).id == stable
            && tables.generations[i].state == GenerationState::Stable
}

/// The first stable generation of that id.
pub open spec fn stable_among(generations: Seq<GenerationView>, id: i64) -> Option<GenerationView>
    decreases generations.len(),
{
    if generations.len() == 0 {
        None
    } else if generations[0].id == id && generations[0].state == GenerationState::Stable {
        Some(generations[0])
    } else {
        stable_among(generations.skip(1), id)
    }
}

/// The stable generation that readers see. Never one that is still
/// building, whatever the tables name.
pub open spec fn stable_of(tables: TablesView) -> Option<GenerationView> {
    match tables.stable {
        Some(id) => stable_among(tables.generations, id),
        None => None,
    }
}

proof fn lemma_stable_among(generations: Seq<GenerationView>, id: i64)
    ensures
        stable_among(generations, id) matches Some(found) ==> found.id == id && found.state
            == GenerationState::Stable && generations.contains(found),
        stable_among(generations, id) is None ==> forall|i: int|
            0 <= i < generations.len() ==> (#[trigger] generations[i]).id != id
                || generations[i].state != GenerationState::Stable,
    decreases generations.len(),
{
    if generations.len() > 0 {
        let rest = generations.skip(1);
        lemma_stable_among(rest, id);
        if let Some(found) = stable_among(rest, id) {
            let i = choose|i: int| 0 <= i < rest.len() && rest[i] == found;
            assert(generations[i + 1] == found);
        }
        assert forall|i: int|
            0 <= i < generations.len() && stable_among(generations, id) is None implies (
        #[trigger] generations[i]).id != id || generations[i].state != GenerationState::Stable by {
            if i > 0 {
                assert(rest[i - 1] == generations[i]);
            }
        }
        assert(generations[0] == generations.first());
    }
}

/// What readers see is a stable generation of the tables, the one that they
/// name; and tables in order have one wherever they name one.
pub proof fn lemma_readers_see_a_stable_generation(tables: TablesView)
    ensures
        stable_of(tables) matches Some(found) ==> tables.stable == Some(found.id) && found.state
            == GenerationState::Stable && tables.generations.contains(found),
        in_order(tables) ==> (stable_of(tables) is Some <==> tables.stable is Some),
{
    if let Some(id) = tables.stable {
        lemma_stable_among(tables.generations, id);
    }
}

/// The highest sequence number of the journal: zero where it is empty.
pub open spec fn max_seq(journal: Seq<JournalEntry>) -> i64
    decreases journal.len(),
{
    if journal.len() == 0 {
        0
    } else {
        let earlier = max_seq(journal.drop_last());
        if journal.last().seq > earlier {
            journal.last().seq
        } else {
            earlier
        }
    }
}

/// The highest sequence number of the journal.
pub fn max_journal_seq(journal: &[JournalEntry]) -> (seq: i64)
    ensures
        seq == max_seq(journal@),
{
    let mut seq: i64 = 0;
    let mut at: usize = 0;
    assert(journal@.take(0) =~= Seq::empty());
    while at < journal.len()
        invariant
            at <= journal@.len(),
            seq == max_seq(journal@.take(at as int)),
        decreases journal@.len() - at,
    {
        assert(journal@.take(at + 1).drop_last() =~= journal@.take(at as int));
        if journal[at].seq > seq {
            seq = journal[at].seq;
        }
        at = at + 1;
    }
    assert(journal@.take(at as int) =~= journal@);
    seq
}

/// A journal row once everything up to a sequence number is accounted for.
pub open spec fn accounted(
    entry: JournalEntry,
    through: i64,
    generation: Option<i64>,
) -> JournalEntry {
    if entry.processing_state == JournalState::Pending && entry.seq <= through {
        JournalEntry {
            processing_state: JournalState::Applied,
            applied_generation_id: generation,
            ..entry
        }
    } else {
        entry
    }
}

/// The journal once everything up to a sequence number is accounted for.
/// No row is ever deleted.
pub open spec fn journal_after(
    journal: Seq<JournalEntry>,
    through: i64,
    generation: Option<i64>,
) -> Seq<JournalEntry> {
    journal.map_values(|entry: JournalEntry| accounted(entry, through, generation))
}

/// Mark the outstanding candidates up to a sequence number applied.
pub fn mark_applied(journal: &[JournalEntry], through: i64, generation: Option<i64>) -> (after: Vec<
    JournalEntry,
>)
    ensures
        after@ == journal_after(journal@, through, generation),
{
    let mut after: Vec<JournalEntry> = Vec::new();
    let mut at: usize = 0;
    while at < journal.len()
        invariant
            at <= journal@.len(),
            after@.len() == at,
            forall|i: int|
                0 <= i < at ==> (#[trigger] after@[i]) == accounted(
                    journal@[i],
                    through,
                    generation,
                ),
        decreases journal@.len() - at,
    {
        let mut entry = journal[at].clone();
        if entry.processing_state == JournalState::Pending && entry.seq <= through {
            entry.processing_state = JournalState::Applied;
            entry.applied_generation_id = generation;
        }
        after.push(entry);
        at = at + 1;
    }
    assert(after@ =~= journal_after(journal@, through, generation));
    after
}

/// The component's row once the index is known to be current.
pub open spec fn made_current(revision: Chars, generation: i64) -> ComponentView {
    ComponentView {
        processing: ProcessingState::Ready,
        freshness: FreshnessState::Current,
        basis: revision,
        stable: Some(generation),
        code: None,
    }
}

/// The component's row once the index could not be confirmed: an existing
/// error code is kept, since a later failure does not replace the earlier
/// reason.
pub open spec fn made_dirty(component: Option<ComponentView>, revision: Chars) -> ComponentView {
    ComponentView {
        processing: ProcessingState::Queued,
        freshness: FreshnessState::Dirty,
        basis: revision,
        stable: match component {
            Some(held) => held.stable,
            None => None,
        },
        code: match component {
            Some(held) => match held.code {
                Some(code) => Some(code),
                None => Some(RECONCILE_FAILED_CODE@),
            },
            None => Some(RECONCILE_FAILED_CODE@),
        },
    }
}

/// The component's row once the index is known to be current.
pub fn current_component(revision: &str, generation: i64) -> (state: ResourceIndexState)
    ensures
        component_view(state) == made_current(revision@, generation),
{
    ResourceIndexState {
        processing_state: ProcessingState::Ready,
        freshness_state: FreshnessState::Current,
        basis_workspace_revision: revision.to_owned(),
        stable_generation_id: Some(generation),
        last_error_code: None,
    }
}

/// The component's row once the index could not be confirmed.
pub fn dirty_component(component: &Option<ResourceIndexState>, revision: &str) -> (state:
    ResourceIndexState)
    ensures
        component_view(state) == made_dirty(optional_component(*component), revision@),
{
    let (stable_generation_id, last_error_code) = match component {
        Some(held) => (
            held.stable_generation_id,
            match &held.last_error_code {
                Some(code) => code.clone(),
                None => RECONCILE_FAILED_CODE.to_owned(),
            },
        ),
        None => (None, RECONCILE_FAILED_CODE.to_owned()),
    };
    ResourceIndexState {
        processing_state: ProcessingState::Queued,
        freshness_state: FreshnessState::Dirty,
        basis_workspace_revision: revision.to_owned(),
        stable_generation_id,
        last_error_code: Some(last_error_code),
    }
}

// ---------------------------------------------------------------------
// The Workspace revision
// ---------------------------------------------------------------------

/// The next change sequence and Workspace revision: the sequence itself, or
/// the one after it where that would read like the revision it replaces.
pub open spec fn next_revision(change_seq: int, current: Chars) -> (int, Chars) {
    if decimal(change_seq) == current {
        (change_seq + 1, decimal(change_seq + 1))
    } else {
        (change_seq, decimal(change_seq))
    }
}

/// A revision advance is visible: the new revision differs from the one it
/// replaces, and the sequence never goes back.
pub proof fn lemma_revision_advances(change_seq: int, current: Chars)
    ensures
        next_revision(change_seq, current).1 != current,
        next_revision(change_seq, current).0 >= change_seq,
        next_revision(change_seq, current).1 == decimal(next_revision(change_seq, current).0),
{
    if decimal(change_seq) == decimal(change_seq + 1) {
        lemma_decimal_injective(change_seq, change_seq + 1);
    }
}

/// The next change sequence and Workspace revision.
pub fn next_workspace_revision(change_seq: i64, current: &str) -> (next: (i64, String))
    requires
        change_seq < i64::MAX,
    ensures
        next.0 == next_revision(change_seq as int, current@).0,
        next.1@ == next_revision(change_seq as int, current@).1,
{
    let candidate = decimal_text(change_seq);
    if same_text(candidate.as_str(), current) {
        let later: i64 = change_seq + 1;
        (later, decimal_text(later))
    } else {
        (change_seq, candidate)
    }
}

/// What a plan was made against, so that a publication can prove none of it
/// moved before committing.
#[derive(Debug, PartialEq, Eq)]
pub struct InputSnapshot {
    pub workspace_revision: String,
    pub change_seq: i64,
    pub journal_seq: i64,
}

/// Whether a snapshot was taken of the tables as they are.
pub open spec fn snapshot_of(input: InputSnapshot, tables: TablesView) -> bool {
    &&& tables.revision == Some(input.workspace_revision@)
    &&& tables.change_seq == input.change_seq
    &&& max_seq(tables.journal) == input.journal_seq
}

impl IndexTables {
    /// The stable generation that readers see.
    pub fn current_stable(&self) -> (found: Option<&GenerationRecord>)
        ensures
            match found {
                Some(record) => stable_of(self@) == Some(record@),
                None => stable_of(self@) is None,
            },
    {
        let stable: i64 = match self.stable_generation_id {
            Some(stable) => stable,
            None => return None,
        };
        let ghost all = generations_view(self.generations@);
        let mut at: usize = 0;
        assert(all.skip(0) =~= all);
        while at < self.generations.len()
            invariant
                at <= self.generations@.len(),
                all == generations_view(self.generations@),
                all == self@.generations,
                self.stable_generation_id == Some(stable),
                stable_among(all, stable) == stable_among(all.skip(at as int), stable),
            decreases self.generations@.len() - at,
        {
            assert(all[at as int] == self.generations@[at as int]@);
            assert(all.skip(at as int).skip(1) =~= all.skip(at + 1));
            if self.generations[at].id == stable && self.generations[at].state
                == GenerationState::Stable {
                return Some(&self.generations[at]);
            }
            at = at + 1;
        }
        None
    }

    /// Whether the tables are in order.
    pub fn is_in_order(&self) -> (held: bool)
        ensures
            held == in_order(self@),
    {
        let ghost all = generations_view(self.generations@);
        let mut found = self.stable_generation_id.is_none();
        let mut at: usize = 0;
        while at < self.generations.len()
            invariant
                at <= self.generations@.len(),
                all == generations_view(self.generations@),
                all == self@.generations,
                forall|k: int|
                    0 <= k < at ==> (#[trigger] all[k]).id < self.next_generation_id && all[k].state
                        != GenerationState::Building,
                found <==> (self.stable_generation_id matches Some(stable) ==> exists|k: int|
                    0 <= k < at && (#[trigger] all[k]).id == stable && all[k].state
                        == GenerationState::Stable),
            decreases self.generations@.len() - at,
        {
            let record = &self.generations[at];
            assert(all[at as int] == record@);
            if record.id >= self.next_generation_id || record.state == GenerationState::Building {
                return false;
            }
            if let Some(stable) = self.stable_generation_id {
                if record.id == stable && record.state == GenerationState::Stable {
                    found = true;
                }
            }
            at = at + 1;
        }
        found
    }

    /// What a plan is made against.
    pub fn snapshot_input(&self) -> (input: Option<InputSnapshot>)
        ensures
            input is Some == self@.revision is Some,
            input matches Some(held) ==> snapshot_of(held, self@),
    {
        match &self.revision {
            Some(revision) => Some(
                InputSnapshot {
                    workspace_revision: revision.clone(),
                    change_seq: self.change_seq,
                    journal_seq: max_journal_seq(self.journal.as_slice()),
                },
            ),
            None => None,
        }
    }
}

} // verus!
