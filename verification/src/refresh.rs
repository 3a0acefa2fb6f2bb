//! The targeted refresh: one saved file becomes one published generation,
//! without re-walking the Workspace.
//!
//! Eligibility is a refusal, not a guess. The fast path exists for one
//! shape: a single modification of a single existing active Resource whose
//! classification did not change. Anything else is deferred to reconcile,
//! and if anything pending is not about the target this path does not
//! publish, because the index would then be called current over changes
//! that nobody has looked at.

use vstd::prelude::*;

use crate::index_tables::{
    after_changes, apply_changes, current_component, generations_view, in_order, journal_after,
    lemma_readers_see_a_stable_generation, made_current, made_dirty, mark_applied,
    max_journal_seq, max_seq, next_workspace_revision, snapshot_of, stable_of, GenerationRecord, GenerationState,
    GenerationView, IndexTables, InputSnapshot, JournalEntry, JournalState, ResourceChange,
    TablesView, WatchEventKind, WatcherContinuity,
};
use crate::model::{
    Resource, ResourceId, ResourceKind, ResourceLanguage, ResourceRole, ResourceState,
};
use crate::reconcile::{after_abort, established, recovery_required};
use crate::scan_error::{error_words, ScanError, ScanErrorView};
use crate::text::{
    copy_optional, debug_form, decimal, decimal_text, joined, optional_chars, quoted,
    same_optional, same_text, wide_text, Chars,
};

verus! {

// ---------------------------------------------------------------------
// Outcomes
// ---------------------------------------------------------------------

/// How much of a file a parse accepted.
#[derive(Debug, Clone, Copy, PartialEq, Eq, Structural)]
pub enum ParseStatus {
    Complete,
    Partial,
    ContainerOnly,
}

/// Why the fast path handed the situation to reconcile. Each is a case
/// where a targeted publication could only proceed by guessing.
#[derive(Debug, PartialEq, Eq)]
pub enum DeferReason {
    /// There is nothing to refresh.
    NothingPending,
    /// The watcher lost events, so the pending set is not the change set.
    WatcherContinuityLost,
    /// A candidate that is not a plain modification.
    UnsupportedEvent { kind: WatchEventKind },
    /// A candidate whose path no active Resource occupies.
    NotAnExistingResource { path: Option<String> },
    /// More than one Resource has outstanding candidates. Publishing one of
    /// them cannot make the Workspace current.
    MultiplePendingResources { resources: usize },
    /// The target is no longer a file on disk.
    TargetPathMissing { path_rel: String },
    /// The target's path is now excluded.
    TargetExcluded { path_rel: String },
    /// Kind, role or language changed.
    ClassificationChanged { path_rel: String },
    /// There is no structural result to publish.
    NotStructuralSource { path_rel: String },
    /// The parse did not accept the whole file. The previously accepted
    /// structure is kept exactly as it was.
    ExtractionNotAccepted { path_rel: String, parse_status: ParseStatus },
    /// The comparison produced something other than a modification of the
    /// same identity.
    IdentityNotContinuous { path_rel: String },
}

pub ghost enum DeferView {
    NothingPending,
    WatcherContinuityLost,
    UnsupportedEvent(WatchEventKind),
    NotAnExistingResource(Option<Chars>),
    MultiplePendingResources(nat),
    TargetPathMissing(Chars),
    TargetExcluded(Chars),
    ClassificationChanged(Chars),
    NotStructuralSource(Chars),
    ExtractionNotAccepted(Chars, ParseStatus),
    IdentityNotContinuous(Chars),
}

impl View for DeferReason {
    type V = DeferView;

    open spec fn view(&self) -> DeferView {
        match self {
            DeferReason::NothingPending => DeferView::NothingPending,
            DeferReason::WatcherContinuityLost => DeferView::WatcherContinuityLost,
            DeferReason::UnsupportedEvent { kind } => DeferView::UnsupportedEvent(*kind),
            DeferReason::NotAnExistingResource { path } => DeferView::NotAnExistingResource(
                optional_chars(*path),
            ),
            DeferReason::MultiplePendingResources { resources } =>
                DeferView::MultiplePendingResources(*resources as nat),
            DeferReason::TargetPathMissing { path_rel } => DeferView::TargetPathMissing(path_rel@),
            DeferReason::TargetExcluded { path_rel } => DeferView::TargetExcluded(path_rel@),
            DeferReason::ClassificationChanged { path_rel } => DeferView::ClassificationChanged(
                path_rel@,
            ),
            DeferReason::NotStructuralSource { path_rel } => DeferView::NotStructuralSource(
                path_rel@,
            ),
            DeferReason::ExtractionNotAccepted { path_rel, parse_status } =>
                DeferView::ExtractionNotAccepted(path_rel@, *parse_status),
            DeferReason::IdentityNotContinuous { path_rel } => DeferView::IdentityNotContinuous(
                path_rel@,
            ),
        }
    }
}

/// Why an in-flight refresh was discarded.
#[derive(Debug, PartialEq, Eq)]
pub enum ObsoleteReason {
    /// The target changed again after it was read.
    TargetChangedDuringRefresh { path_rel: String, detail: String },
    /// A new candidate was journalled during the refresh.
    JournalAdvanced { from_seq: i64, to_seq: i64 },
    /// The Workspace revision or the input-change sequence moved.
    ClockAdvanced { detail: String },
}

pub ghost enum ObsoleteView {
    TargetChangedDuringRefresh(Chars, Chars),
    JournalAdvanced(i64, i64),
    ClockAdvanced(Chars),
}

impl View for ObsoleteReason {
    type V = ObsoleteView;

    open spec fn view(&self) -> ObsoleteView {
        match self {
            ObsoleteReason::TargetChangedDuringRefresh { path_rel, detail } =>
                ObsoleteView::TargetChangedDuringRefresh(path_rel@, detail@),
            ObsoleteReason::JournalAdvanced { from_seq, to_seq } => ObsoleteView::JournalAdvanced(
                *from_seq,
                *to_seq,
            ),
            ObsoleteReason::ClockAdvanced { detail } => ObsoleteView::ClockAdvanced(detail@),
        }
    }
}

/// What a discarded refresh's generation was aborted for.
pub open spec fn obsolete_words(reason: ObsoleteView) -> Chars {
    match reason {
        ObsoleteView::TargetChangedDuringRefresh(path_rel, detail) => "target "@ + path_rel
            + " changed during the refresh: "@ + detail,
        ObsoleteView::JournalAdvanced(from_seq, to_seq) => "the watcher journalled candidates "@
            + decimal(from_seq as int) + ".."@ + decimal(to_seq as int) + " during the refresh"@,
        ObsoleteView::ClockAdvanced(detail) => detail,
    }
}

/// What a discarded refresh's generation was aborted for.
pub fn obsolete_reason_text(reason: &ObsoleteReason) -> (text: String)
    ensures
        text@ == obsolete_words(reason@),
{
    match reason {
        ObsoleteReason::TargetChangedDuringRefresh { path_rel, detail } => {
            let mut text = joined("target ", path_rel.as_str());
            text.append(" changed during the refresh: ");
            text.append(detail.as_str());
            text
        },
        ObsoleteReason::JournalAdvanced { from_seq, to_seq } => {
            let mut text = joined(
                "the watcher journalled candidates ",
                decimal_text(*from_seq).as_str(),
            );
            text.append("..");
            text.append(decimal_text(*to_seq).as_str());
            text.append(" during the refresh");
            text
        },
        ObsoleteReason::ClockAdvanced { detail } => detail.clone(),
    }
}

/// Failure of a targeted refresh. The fast path was eligible and something
/// went wrong.
#[derive(Debug, PartialEq, Eq)]
pub enum RefreshError {
    Scan(ScanError),
    /// The structure could not be written.
    Symbol(String),
    Parse(String),
    /// The Resource row did not describe the published bytes after the
    /// update was applied. A bug, not a race.
    InvariantViolated { detail: String },
}

pub ghost enum RefreshErrorView {
    Scan(ScanErrorView),
    Symbol(Chars),
    Parse(Chars),
    InvariantViolated(Chars),
}

impl View for RefreshError {
    type V = RefreshErrorView;

    open spec fn view(&self) -> RefreshErrorView {
        match self {
            RefreshError::Scan(error) => RefreshErrorView::Scan(error@),
            RefreshError::Symbol(detail) => RefreshErrorView::Symbol(detail@),
            RefreshError::Parse(detail) => RefreshErrorView::Parse(detail@),
            RefreshError::InvariantViolated { detail } => RefreshErrorView::InvariantViolated(
                detail@,
            ),
        }
    }
}

/// The error in words.
pub open spec fn refresh_words(error: RefreshErrorView) -> Chars {
    match error {
        RefreshErrorView::Scan(source) => error_words(source),
        RefreshErrorView::Symbol(detail) => "structural write failed: "@ + detail,
        RefreshErrorView::Parse(detail) => "parse failed: "@ + detail,
        RefreshErrorView::InvariantViolated(detail) =>
            "resource invariant violated, so the targeted publication was rolled back: "@ + detail,
    }
}

impl RefreshError {
    /// The error in words.
    pub fn message(&self) -> (text: String)
        ensures
            text@ == refresh_words(self@),
    {
        match self {
            RefreshError::Scan(error) => error.message(),
            RefreshError::Symbol(detail) => joined("structural write failed: ", detail.as_str()),
            RefreshError::Parse(detail) => joined("parse failed: ", detail.as_str()),
            RefreshError::InvariantViolated { detail } => joined(
                "resource invariant violated, so the targeted publication was rolled back: ",
                detail.as_str(),
            ),
        }
    }

    /// What the generation of a failed refresh is aborted for.
    pub fn abort_reason(&self) -> (text: String)
        ensures
            text@ == "targeted refresh failed: "@ + refresh_words(self@),
    {
        joined("targeted refresh failed: ", self.message().as_str())
    }
}

/// What a successful targeted publication established.
#[derive(Debug, PartialEq, Eq)]
pub struct RefreshPublication {
    pub resource_id: ResourceId,
    pub path_rel: String,
    /// The Resource's new revision.
    pub resource_revision: String,
    /// The Workspace revision that this publication established.
    pub workspace_revision: String,
    pub generation: GenerationRecord,
    pub symbols: usize,
    pub occurrences: usize,
}

pub ghost struct PublicationView {
    pub resource_id: ResourceId,
    pub path_rel: Chars,
    pub resource_revision: Chars,
    pub workspace_revision: Chars,
    pub generation: GenerationView,
    pub symbols: usize,
    pub occurrences: usize,
}

impl View for RefreshPublication {
    type V = PublicationView;

    open spec fn view(&self) -> PublicationView {
        PublicationView {
            resource_id: self.resource_id,
            path_rel: self.path_rel@,
            resource_revision: self.resource_revision@,
            workspace_revision: self.workspace_revision@,
            generation: self.generation@,
            symbols: self.symbols,
            occurrences: self.occurrences,
        }
    }
}

/// What a targeted refresh attempt did.
#[derive(Debug, PartialEq, Eq)]
pub enum RefreshOutcome {
    /// The target's new structure was published.
    Published(RefreshPublication),
    /// The verified content is what is indexed already. No revision moved
    /// and no generation was created.
    NoOp { resource_id: ResourceId, path_rel: String },
    /// The fast path does not cover this situation. Nothing was written.
    Deferred(DeferReason),
    /// The Workspace moved while the refresh was running. Nothing is
    /// published, and nothing is retried automatically.
    Obsolete(ObsoleteReason),
}

pub ghost enum OutcomeView {
    Published(PublicationView),
    NoOp(ResourceId, Chars),
    Deferred(DeferView),
    Obsolete(ObsoleteView),
}

impl View for RefreshOutcome {
    type V = OutcomeView;

    open spec fn view(&self) -> OutcomeView {
        match self {
            RefreshOutcome::Published(publication) => OutcomeView::Published(publication@),
            RefreshOutcome::NoOp { resource_id, path_rel } => OutcomeView::NoOp(
                *resource_id,
                path_rel@,
            ),
            RefreshOutcome::Deferred(reason) => OutcomeView::Deferred(reason@),
            RefreshOutcome::Obsolete(reason) => OutcomeView::Obsolete(reason@),
        }
    }
}

impl RefreshOutcome {
    /// What was published, if anything was.
    pub fn published(&self) -> (publication: Option<&RefreshPublication>)
        ensures
            match *self {
                RefreshOutcome::Published(held) => publication == Some(&held),
                _ => publication is None,
            },
    {
        match self {
            RefreshOutcome::Published(publication) => Some(publication),
            _ => None,
        }
    }
}

// ---------------------------------------------------------------------
// Selecting the target
// ---------------------------------------------------------------------

/// The candidates that are still outstanding, oldest first.
pub open spec fn outstanding(journal: Seq<JournalEntry>) -> Seq<JournalEntry> {
    journal.filter(|entry: JournalEntry| entry.processing_state == JournalState::Pending)
}

/// Where a candidate was seen last.
pub open spec fn seen_at(entry: JournalEntry) -> Option<Chars> {
    match entry.path_after {
        Some(path) => Some(path@),
        None => optional_chars(entry.path_before),
    }
}

/// Why a candidate is one that the fast path cannot handle, if it is.
pub open spec fn unhandled(entry: JournalEntry) -> Option<DeferView> {
    if entry.event_kind != WatchEventKind::Modify {
        Some(DeferView::UnsupportedEvent(entry.event_kind))
    } else if entry.resource_id is None {
        Some(DeferView::NotAnExistingResource(seen_at(entry)))
    } else {
        None
    }
}

/// The first candidate that the fast path cannot handle.
pub open spec fn first_unhandled(pending: Seq<JournalEntry>) -> Option<DeferView>
    decreases pending.len(),
{
    if pending.len() == 0 {
        None
    } else {
        match first_unhandled(pending.drop_last()) {
            Some(reason) => Some(reason),
            None => unhandled(pending.last()),
        }
    }
}

/// The Resources that candidates are about, each once.
pub open spec fn named_resources(pending: Seq<JournalEntry>) -> Seq<ResourceId>
    decreases pending.len(),
{
    if pending.len() == 0 {
        Seq::empty()
    } else {
        let earlier = named_resources(pending.drop_last());
        match pending.last().resource_id {
            Some(id) => if earlier.contains(id) {
                earlier
            } else {
                earlier.push(id)
            },
            None => earlier,
        }
    }
}

/// The first row of that id, in whatever state.
pub open spec fn row_by_id(rows: Seq<Resource>, id: ResourceId) -> Option<Resource>
    decreases rows.len(),
{
    if rows.len() == 0 {
        None
    } else if rows[0].id == id {
        Some(rows[0])
    } else {
        row_by_id(rows.skip(1), id)
    }
}

/// The one Resource that everything outstanding is a modification of, or
/// the reason there is none.
pub open spec fn pending_target_of(tables: TablesView) -> Result<Resource, DeferView> {
    let pending = outstanding(tables.journal);
    if tables.continuity == WatcherContinuity::Lost {
        Err(DeferView::WatcherContinuityLost)
    } else if pending.len() == 0 {
        Err(DeferView::NothingPending)
    } else {
        match first_unhandled(pending) {
            Some(reason) => Err(reason),
            None => if named_resources(pending).len() != 1 {
                Err(DeferView::MultiplePendingResources(named_resources(pending).len()))
            } else {
                match row_by_id(tables.resources, named_resources(pending)[0]) {
                    None => Err(DeferView::NotAnExistingResource(None)),
                    Some(resource) => if resource.state != ResourceState::Active {
                        Err(DeferView::NotAnExistingResource(Some(resource.path_rel@)))
                    } else {
                        Ok(resource)
                    },
                }
            },
        }
    }
}

/// How a path is classified on disk.
#[derive(Debug, Clone, Copy, PartialEq, Eq, Structural)]
pub struct Classification {
    pub kind: ResourceKind,
    pub role: ResourceRole,
    pub language: Option<ResourceLanguage>,
}

/// What was found of one path on disk.
#[derive(Debug, Clone, Copy, PartialEq, Eq, Structural)]
pub struct PathFacts {
    /// Whether the discovery rules exclude it.
    pub ignored: bool,
    pub classified: Option<Classification>,
}

/// Why the target is not eligible after all, if it is not.
pub open spec fn ineligible(resource: Resource, facts: PathFacts) -> Option<DeferView> {
    if facts.ignored {
        Some(DeferView::TargetExcluded(resource.path_rel@))
    } else {
        match facts.classified {
            None => Some(DeferView::TargetPathMissing(resource.path_rel@)),
            Some(found) => if found.kind != resource.kind || found.role != resource.role
                || found.language != resource.language {
                Some(DeferView::ClassificationChanged(resource.path_rel@))
            } else {
                None
            },
        }
    }
}

/// The outstanding candidates of a journal.
pub fn pending_candidates(journal: &[JournalEntry]) -> (pending: Vec<JournalEntry>)
    ensures
        pending@ == outstanding(journal@),
{
    let ghost pred = |entry: JournalEntry| entry.processing_state == JournalState::Pending;
    let mut pending: Vec<JournalEntry> = Vec::new();
    let mut at: usize = 0;
    reveal_with_fuel(Seq::filter, 1);
    assert(pending@ =~= journal@.take(0).filter(pred));
    while at < journal.len()
        invariant
            at <= journal@.len(),
            pred == (|entry: JournalEntry| entry.processing_state == JournalState::Pending),
            pending@ == journal@.take(at as int).filter(pred),
        decreases journal@.len() - at,
    {
        let ghost held = journal@.take(at as int);
        proof {
            assert(journal@.take(at + 1) =~= held.push(journal@[at as int]));
            held.lemma_filter_push(journal@[at as int], pred);
        }
        if journal[at].processing_state == JournalState::Pending {
            pending.push(journal[at].clone());
        }
        at = at + 1;
    }
    assert(journal@.take(at as int) =~= journal@);
    pending
}

proof fn lemma_unhandled_stays(pending: Seq<JournalEntry>, at: int)
    requires
        0 <= at <= pending.len(),
        first_unhandled(pending.take(at)) is Some,
    ensures
        first_unhandled(pending) == first_unhandled(pending.take(at)),
    decreases pending.len(),
{
    if at == pending.len() {
        assert(pending.take(at) =~= pending);
    } else {
        assert(pending.drop_last().take(at) =~= pending.take(at));
        lemma_unhandled_stays(pending.drop_last(), at);
    }
}

/// The first pending candidate that the fast path cannot handle, if there
/// is one: a move, a bulk hint, a create or a delete all leave the identity
/// question open, and answering it is reconcile's job.
pub fn unsupported_candidate(pending: &[JournalEntry]) -> (reason: Option<DeferReason>)
    ensures
        match reason {
            Some(held) => first_unhandled(pending@) == Some(held@),
            None => first_unhandled(pending@) is None,
        },
{
    let mut at: usize = 0;
    assert(pending@.take(0) =~= Seq::empty());
    while at < pending.len()
        invariant
            at <= pending@.len(),
            first_unhandled(pending@.take(at as int)) is None,
        decreases pending@.len() - at,
    {
        assert(pending@.take(at + 1).drop_last() =~= pending@.take(at as int));
        assert(pending@.take(at + 1).last() == pending@[at as int]);
        if pending[at].event_kind != WatchEventKind::Modify {
            proof {
                lemma_unhandled_stays(pending@, at + 1);
            }
            return Some(DeferReason::UnsupportedEvent { kind: pending[at].event_kind });
        }
        if pending[at].resource_id.is_none() {
            proof {
                lemma_unhandled_stays(pending@, at + 1);
            }
            let path = match &pending[at].path_after {
                Some(path) => Some(path.clone()),
                None => copy_optional(&pending[at].path_before),
            };
            return Some(DeferReason::NotAnExistingResource { path });
        }
        at = at + 1;
    }
    assert(pending@.take(at as int) =~= pending@);
    None
}

fn resources_named(pending: &[JournalEntry]) -> (ids: Vec<ResourceId>)
    ensures
        ids@ == named_resources(pending@),
{
    let mut ids: Vec<ResourceId> = Vec::new();
    let mut at: usize = 0;
    assert(pending@.take(0) =~= Seq::empty());
    while at < pending.len()
        invariant
            at <= pending@.len(),
            ids@ == named_resources(pending@.take(at as int)),
        decreases pending@.len() - at,
    {
        assert(pending@.take(at + 1).drop_last() =~= pending@.take(at as int));
        assert(pending@.take(at + 1).last() == pending@[at as int]);
        if let Some(id) = pending[at].resource_id {
            let mut known = false;
            let mut next: usize = 0;
            while next < ids.len()
                invariant
                    next <= ids@.len(),
                    known == exists|k: int| 0 <= k < next && ids@[k] == id,
                decreases ids@.len() - next,
            {
                if ids[next] == id {
                    known = true;
                }
                next = next + 1;
            }
            if !known {
                ids.push(id);
            }
        }
        at = at + 1;
    }
    assert(pending@.take(at as int) =~= pending@);
    ids
}

fn find_row(rows: &[Resource], id: ResourceId) -> (found: Option<&Resource>)
    ensures
        match found {
            Some(row) => row_by_id(rows@, id) == Some(*row),
            None => row_by_id(rows@, id) is None,
        },
{
    let mut at: usize = 0;
    assert(rows@.skip(0) =~= rows@);
    while at < rows.len()
        invariant
            at <= rows@.len(),
            row_by_id(rows@, id) == row_by_id(rows@.skip(at as int), id),
        decreases rows@.len() - at,
    {
        assert(rows@.skip(at as int).skip(1) =~= rows@.skip(at + 1));
        if rows[at].id == id {
            return Some(&rows[at]);
        }
        at = at + 1;
    }
    None
}

/// Why the target is not eligible after all, if it is not. One path is
/// classified, not a Workspace enumerated.
pub fn check_target(resource: &Resource, facts: PathFacts) -> (reason: Option<DeferReason>)
    ensures
        match reason {
            Some(held) => ineligible(*resource, facts) == Some(held@),
            None => ineligible(*resource, facts) is None,
        },
{
    if facts.ignored {
        return Some(DeferReason::TargetExcluded { path_rel: resource.path_rel.clone() });
    }
    match facts.classified {
        None => Some(DeferReason::TargetPathMissing { path_rel: resource.path_rel.clone() }),
        Some(found) => {
            let same_language = match (found.language, resource.language) {
                (Some(left), Some(right)) => left == right,
                (None, None) => true,
                _ => false,
            };
            if found.kind != resource.kind || found.role != resource.role || !same_language {
                Some(DeferReason::ClassificationChanged { path_rel: resource.path_rel.clone() })
            } else {
                None
            }
        },
    }
}

// ---------------------------------------------------------------------
// What follows the observation
// ---------------------------------------------------------------------

/// What the structural analysis of the target came to.
#[derive(Debug, PartialEq, Eq)]
pub enum StructuralResult {
    /// No structural dialect covers the target.
    NotStructural,
    ParseFailed(String),
    NotAccepted(ParseStatus),
    Accepted { symbols: usize, occurrences: usize },
}

/// What was found when the target was looked at again, before committing.
#[derive(Debug, PartialEq, Eq)]
pub struct TargetRecheck {
    pub ignored: bool,
    /// Whether the path is still there, if that could be found out.
    pub present: Result<bool, ScanError>,
    /// How a second observation differs from the first, if it does and if
    /// one could be made.
    pub drift: Result<Option<String>, ScanError>,
}

/// Everything that was observed of the target, outside the tables.
#[derive(Debug, PartialEq, Eq)]
pub struct RefreshFacts {
    pub path: PathFacts,
    /// The key and content hash that the target was observed with.
    pub observed_path_key: String,
    pub observed_hash: Option<String>,
    /// The content hash of the bytes that were then read.
    pub read_hash: String,
    /// What a comparison of the one Resource decided.
    pub changes: Vec<ResourceChange>,
    pub structure: StructuralResult,
    pub recheck: TargetRecheck,
    /// What writing the structure came to.
    pub written: Result<(), String>,
}

/// What moved in the clock or the journal since the plan was made. Without
/// a revision nothing can be said.
pub open spec fn clock_or_journal_moved(
    tables: TablesView,
    input: InputSnapshot,
) -> Result<Option<ObsoleteView>, RefreshErrorView> {
    match tables.revision {
        None => Err(RefreshErrorView::Scan(ScanErrorView::ClockNotBootstrapped)),
        Some(current) => if current != input.workspace_revision@ {
            Ok(
                Some(
                    ObsoleteView::ClockAdvanced(
                        "workspace revision moved from "@ + debug_form(input.workspace_revision@)
                            + " to "@ + debug_form(current) + " during the refresh"@,
                    ),
                ),
            )
        } else if tables.change_seq != input.change_seq {
            Ok(
                Some(
                    ObsoleteView::ClockAdvanced(
                        "the input change sequence advanced during the refresh"@,
                    ),
                ),
            )
        } else if max_seq(tables.journal) != input.journal_seq {
            Ok(
                Some(
                    ObsoleteView::JournalAdvanced(input.journal_seq, max_seq(tables.journal)),
                ),
            )
        } else {
            Ok(None)
        },
    }
}

/// How the target changed since it was read, if it did, or why that could
/// not be found out.
pub open spec fn target_moved(
    path_rel: Chars,
    recheck: TargetRecheck,
) -> Result<Option<ObsoleteView>, RefreshErrorView> {
    if recheck.ignored {
        Ok(
            Some(
                ObsoleteView::TargetChangedDuringRefresh(
                    path_rel,
                    "the path became excluded during the refresh"@,
                ),
            ),
        )
    } else {
        match (recheck.present, recheck.drift) {
            (Err(error), _) => Err(RefreshErrorView::Scan(error@)),
            (Ok(false), _) => Ok(
                Some(
                    ObsoleteView::TargetChangedDuringRefresh(
                        path_rel,
                        "the file disappeared during the refresh"@,
                    ),
                ),
            ),
            (Ok(true), Err(error)) => Err(RefreshErrorView::Scan(error@)),
            (Ok(true), Ok(Some(detail))) => Ok(
                Some(ObsoleteView::TargetChangedDuringRefresh(path_rel, detail@)),
            ),
            (Ok(true), Ok(None)) => Ok(None),
        }
    }
}

/// What moved since the analysis was made: the clock, the journal, or the
/// target.
pub open spec fn anything_moved(
    tables: TablesView,
    input: InputSnapshot,
    path_rel: Chars,
    recheck: TargetRecheck,
) -> Result<Option<ObsoleteView>, RefreshErrorView> {
    match clock_or_journal_moved(tables, input) {
        Ok(None) => target_moved(path_rel, recheck),
        other => other,
    }
}

/// Why the updated row does not describe the published bytes, if it does
/// not.
pub open spec fn row_unfaithful(
    rows: Seq<Resource>,
    updated: Resource,
    facts: RefreshFacts,
) -> Option<Chars> {
    match row_by_id(rows, updated.id) {
        None => Some(
            "resource "@ + decimal(updated.id.value as int) + " vanished during its own update"@,
        ),
        Some(stored) => if stored.state != ResourceState::Active || stored.path_key@
            != facts.observed_path_key@ || optional_chars(stored.content_hash) != optional_chars(
            facts.observed_hash,
        ) || stored.resource_revision@ != updated.resource_revision@ {
            Some(
                "resource "@ + debug_form(stored.path_rel@)
                    + " does not describe the published bytes after its update"@,
            )
        } else {
            None
        },
    }
}

/// The rows once the target was updated.
pub open spec fn rows_with(rows: Seq<Resource>, updated: Resource) -> Seq<Resource> {
    after_changes(rows, seq![ResourceChange::Update(updated)])
}

/// Why a publication fails, once nothing moved.
pub open spec fn publication_fails(
    tables: TablesView,
    updated: Resource,
    facts: RefreshFacts,
) -> Option<RefreshErrorView> {
    match row_unfaithful(rows_with(tables.resources, updated), updated, facts) {
        Some(detail) => Some(RefreshErrorView::InvariantViolated(detail)),
        None => match facts.written {
            Ok(_) => None,
            Err(detail) => Some(RefreshErrorView::Symbol(detail@)),
        },
    }
}

/// The generation that a targeted publication establishes.
pub open spec fn refreshed_generation(tables: TablesView, input: InputSnapshot) -> GenerationView {
    GenerationView {
        id: tables.next_generation_id,
        state: GenerationState::Stable,
        basis: established(input).1,
        abort_reason: None,
    }
}

/// The tables after a targeted publication: the revision advance, the one
/// Resource row, the journal, the component and the stable generation,
/// together.
pub open spec fn after_targeted(
    tables: TablesView,
    input: InputSnapshot,
    updated: Resource,
) -> TablesView {
    let id = tables.next_generation_id;
    TablesView {
        revision: Some(established(input).1),
        change_seq: established(input).0 as i64,
        journal: journal_after(tables.journal, input.journal_seq, Some(id)),
        generations: tables.generations.push(refreshed_generation(tables, input)),
        next_generation_id: (id + 1) as i64,
        stable: Some(id),
        component: Some(made_current(established(input).1, id)),
        resources: rows_with(tables.resources, updated),
        ..tables
    }
}

/// The tables once an obsolete analysis was discarded: its generation is
/// aborted, and nothing else is touched.
pub open spec fn after_discard(
    tables: TablesView,
    basis: Chars,
    reason: Chars,
) -> TablesView {
    TablesView {
        generations: tables.generations.push(
            GenerationView {
                id: tables.next_generation_id,
                state: GenerationState::Aborted,
                basis,
                abort_reason: Some(reason),
            },
        ),
        next_generation_id: (tables.next_generation_id + 1) as i64,
        ..tables
    }
}

/// The tables once a touch that changed nothing was resolved.
pub open spec fn after_touch(
    tables: TablesView,
    input: InputSnapshot,
    changes: Seq<ResourceChange>,
) -> TablesView {
    TablesView {
        journal: journal_after(tables.journal, input.journal_seq, None),
        component: Some(made_current(input.workspace_revision@, tables.stable->0)),
        resources: after_changes(tables.resources, changes),
        ..tables
    }
}

/// What a refresh comes to, and what it leaves of the tables.
pub ghost struct Refreshed {
    pub outcome: Result<OutcomeView, RefreshErrorView>,
    pub tables: TablesView,
}

pub open spec fn deferred(tables: TablesView, reason: DeferView) -> Refreshed {
    Refreshed { outcome: Ok(OutcomeView::Deferred(reason)), tables }
}

/// The path of a touch that changed nothing.
pub open spec fn resolve_touch(
    tables: TablesView,
    input: InputSnapshot,
    target: Resource,
    changes: Seq<ResourceChange>,
) -> Refreshed {
    match clock_or_journal_moved(tables, input) {
        Err(error) => Refreshed { outcome: Err(error), tables },
        Ok(Some(reason)) => Refreshed { outcome: Ok(OutcomeView::Obsolete(reason)), tables },
        Ok(None) => if stable_of(tables) is None {
            Refreshed {
                outcome: Err(
                    RefreshErrorView::InvariantViolated(
                        "a no-op refresh requires an existing stable generation"@,
                    ),
                ),
                tables,
            }
        } else {
            Refreshed {
                outcome: Ok(OutcomeView::NoOp(target.id, target.path_rel@)),
                tables: after_touch(tables, input, changes),
            }
        },
    }
}

/// The path of an accepted change.
pub open spec fn publish_change(
    tables: TablesView,
    input: InputSnapshot,
    target: Resource,
    updated: Resource,
    facts: RefreshFacts,
    symbols: usize,
    occurrences: usize,
) -> Refreshed {
    let basis = established(input).1;
    match anything_moved(tables, input, target.path_rel@, facts.recheck) {
        Err(error) => Refreshed {
            outcome: Err(error),
            tables: after_abort(tables, basis, "targeted refresh failed: "@ + refresh_words(error)),
        },
        Ok(Some(reason)) => Refreshed {
            outcome: Ok(OutcomeView::Obsolete(reason)),
            tables: after_discard(tables, basis, obsolete_words(reason)),
        },
        Ok(None) => match publication_fails(tables, updated, facts) {
            Some(error) => Refreshed {
                outcome: Err(error),
                tables: after_abort(
                    tables,
                    basis,
                    "targeted refresh failed: "@ + refresh_words(error),
                ),
            },
            None => Refreshed {
                outcome: Ok(
                    OutcomeView::Published(
                        PublicationView {
                            resource_id: updated.id,
                            path_rel: updated.path_rel@,
                            resource_revision: updated.resource_revision@,
                            workspace_revision: basis,
                            generation: refreshed_generation(tables, input),
                            symbols,
                            occurrences,
                        },
                    ),
                ),
                tables: after_targeted(tables, input, updated),
            },
        },
    }
}

/// The confirmed-change path. Only a whole-file complete parse may replace
/// anything.
pub open spec fn refresh_change(
    tables: TablesView,
    input: InputSnapshot,
    target: Resource,
    updated: Resource,
    facts: RefreshFacts,
) -> Refreshed {
    match facts.structure {
        StructuralResult::NotStructural => deferred(
            tables,
            DeferView::NotStructuralSource(updated.path_rel@),
        ),
        StructuralResult::ParseFailed(detail) => Refreshed {
            outcome: Err(RefreshErrorView::Parse(detail@)),
            tables,
        },
        StructuralResult::NotAccepted(status) => deferred(
            tables,
            DeferView::ExtractionNotAccepted(updated.path_rel@, status),
        ),
        StructuralResult::Accepted { symbols, occurrences } => publish_change(
            tables,
            input,
            target,
            updated,
            facts,
            symbols,
            occurrences,
        ),
    }
}

/// What follows the observation of an eligible target.
pub open spec fn refresh_target(
    tables: TablesView,
    input: InputSnapshot,
    target: Resource,
    facts: RefreshFacts,
) -> Refreshed {
    let changes = facts.changes@;
    if optional_chars(facts.observed_hash) != Some(facts.read_hash@) {
        Refreshed {
            outcome: Ok(
                OutcomeView::Obsolete(
                    ObsoleteView::TargetChangedDuringRefresh(
                        target.path_rel@,
                        "the file changed between hashing and reading it"@,
                    ),
                ),
            ),
            tables,
        }
    } else if changes.len() == 1 && (changes[0] is Unchanged || changes[0] is MetadataRefresh) {
        resolve_touch(tables, input, target, changes)
    } else if changes.len() == 1 && changes[0] is Update {
        refresh_change(tables, input, target, changes[0]->Update_0, facts)
    } else {
        deferred(tables, DeferView::IdentityNotContinuous(target.path_rel@))
    }
}

/// What a targeted refresh comes to, and what it leaves of the tables.
pub open spec fn refresh_tables(
    tables: TablesView,
    input: InputSnapshot,
    facts: RefreshFacts,
) -> Refreshed {
    match pending_target_of(tables) {
        Err(reason) => deferred(tables, reason),
        Ok(target) => match ineligible(target, facts.path) {
            Some(reason) => deferred(tables, reason),
            None => refresh_target(tables, input, target, facts),
        },
    }
}

// ---------------------------------------------------------------------
// Laws
// ---------------------------------------------------------------------

/// Whatever is not published leaves the revision, the Resource revisions'
/// rows, the stable generation and the watcher's state as they were. Only a
/// touch that changed nothing resolves candidates without publishing.
pub proof fn lemma_only_a_publication_moves_the_index(
    tables: TablesView,
    input: InputSnapshot,
    facts: RefreshFacts,
)
    requires
        !(refresh_tables(tables, input, facts).outcome matches Ok(OutcomeView::Published(_))),
    ensures
        ({
            let refreshed = refresh_tables(tables, input, facts);
            let after = refreshed.tables;
            &&& after.revision == tables.revision
            &&& after.change_seq == tables.change_seq
            &&& after.stable == tables.stable
            &&& after.continuity == tables.continuity
            &&& after.last_reconcile_seq == tables.last_reconcile_seq
            &&& !(refreshed.outcome matches Ok(OutcomeView::NoOp(_, _))) ==> after.journal
                == tables.journal && after.resources == tables.resources
        }),
{
}

/// A refresh that is deferred writes nothing at all.
pub proof fn lemma_a_deferral_writes_nothing(
    tables: TablesView,
    input: InputSnapshot,
    facts: RefreshFacts,
)
    requires
        refresh_tables(tables, input, facts).outcome matches Ok(OutcomeView::Deferred(_)),
    ensures
        refresh_tables(tables, input, facts).tables == tables,
{
}

/// Whether a refresh gets as far as beginning a publication.
pub open spec fn begins_publication(tables: TablesView, facts: RefreshFacts) -> bool {
    &&& pending_target_of(tables) matches Ok(target)
    &&& ineligible(target, facts.path) is None
    &&& optional_chars(facts.observed_hash) == Some(facts.read_hash@)
    &&& facts.changes@.len() == 1
    &&& facts.changes@[0] is Update
    &&& facts.structure is Accepted
}

/// A publication that was begun and failed, for whichever reason, is
/// aborted: readers see what they saw, no row, revision or candidate moved,
/// and the index is dirty until another reconcile confirms it.
pub proof fn lemma_a_failed_publication_is_aborted(
    tables: TablesView,
    input: InputSnapshot,
    facts: RefreshFacts,
)
    requires
        begins_publication(tables, facts),
        refresh_tables(tables, input, facts).outcome is Err,
    ensures
        ({
            let after = refresh_tables(tables, input, facts).tables;
            &&& after.generations.len() == tables.generations.len() + 1
            &&& after.generations.last().id == tables.next_generation_id
            &&& after.generations.last().state == GenerationState::Aborted
            &&& after.generations.drop_last() == tables.generations
            &&& after.stable == tables.stable
            &&& after.revision == tables.revision
            &&& after.change_seq == tables.change_seq
            &&& after.journal == tables.journal
            &&& after.resources == tables.resources
            &&& tables.revision matches Some(revision) ==> after.component == Some(
                made_dirty(tables.component, revision),
            )
        }),
{
    let after = refresh_tables(tables, input, facts).tables;
    assert(after.generations.drop_last() =~= tables.generations);
}

/// The tables stay in order whatever a refresh comes to: no generation is
/// left building, and readers see a stable one.
pub proof fn lemma_refresh_keeps_order(
    tables: TablesView,
    input: InputSnapshot,
    facts: RefreshFacts,
)
    requires
        in_order(tables),
        tables.next_generation_id < i64::MAX,
    ensures
        in_order(refresh_tables(tables, input, facts).tables),
{
    let after = refresh_tables(tables, input, facts).tables;
    let last = tables.generations.len() as int;
    if after.stable == Some(tables.next_generation_id) && after.generations.len() > last {
        if after.generations[last].state == GenerationState::Stable {
            assert(after.generations[last].id == tables.next_generation_id);
        }
    }
    if let Some(stable) = tables.stable {
        let i = choose|i: int|
            0 <= i < tables.generations.len() && (#[trigger] tables.generations[i]).id == stable
                && tables.generations[i].state == GenerationState::Stable;
        assert(after.generations[i] == tables.generations[i]);
    }
    assert forall|i: int| 0 <= i < after.generations.len() implies (
    #[trigger] after.generations[i]).id < after.next_generation_id && after.generations[i].state
        != GenerationState::Building by {
        if i < last {
            assert(after.generations[i] == tables.generations[i]);
        }
    }
}

// ---------------------------------------------------------------------
// The engine
// ---------------------------------------------------------------------

/// One Workspace's targeted refresh path.
#[derive(Debug)]
pub struct TargetedRefresh {
    tables: IndexTables,
}

impl TargetedRefresh {
    pub closed spec fn tables(&self) -> TablesView {
        self.tables@
    }

    /// The refresh path over the tables of a Workspace.
    pub fn open(tables: IndexTables) -> (engine: Self)
        ensures
            engine.tables() == tables@,
    {
        TargetedRefresh { tables }
    }

    /// The tables, to be persisted.
    pub fn into_tables(self) -> (tables: IndexTables)
        ensures
            tables@ == self.tables(),
    {
        self.tables
    }

    pub fn resources(&self) -> (resources: &Vec<Resource>)
        ensures
            resources@ == self.tables().resources,
    {
        &self.tables.resources
    }

    /// What the analysis is made against.
    pub fn snapshot_input(&self) -> (input: Result<InputSnapshot, RefreshError>)
        ensures
            self.tables().revision is None ==> input == Err::<InputSnapshot, RefreshError>(
                RefreshError::Scan(ScanError::ClockNotBootstrapped),
            ),
            self.tables().revision is Some ==> input is Ok,
            input matches Ok(held) ==> snapshot_of(held, self.tables()),
    {
        match self.tables.snapshot_input() {
            Some(input) => Ok(input),
            None => Err(RefreshError::Scan(ScanError::ClockNotBootstrapped)),
        }
    }

    /// The one Resource that everything outstanding is a modification of,
    /// or the reason there is none. It reads the journal and no path.
    pub fn pending_target(&self) -> (target: Result<Resource, DeferReason>)
        ensures
            match pending_target_of(self.tables()) {
                Ok(resource) => target == Ok::<Resource, DeferReason>(resource),
                Err(reason) => target is Err && target->Err_0@ == reason,
            },
    {
        if self.tables.continuity == WatcherContinuity::Lost {
            return Err(DeferReason::WatcherContinuityLost);
        }
        let pending = pending_candidates(self.tables.journal.as_slice());
        if pending.len() == 0 {
            return Err(DeferReason::NothingPending);
        }
        if let Some(reason) = unsupported_candidate(pending.as_slice()) {
            return Err(reason);
        }
        let ids = resources_named(pending.as_slice());
        if ids.len() != 1 {
            return Err(DeferReason::MultiplePendingResources { resources: ids.len() });
        }
        match find_row(self.tables.resources.as_slice(), ids[0]) {
            None => Err(DeferReason::NotAnExistingResource { path: None }),
            Some(resource) => if resource.state != ResourceState::Active {
                Err(
                    DeferReason::NotAnExistingResource { path: Some(resource.path_rel.clone()) },
                )
            } else {
                Ok(resource.clone())
            },
        }
    }

    /// The clock and the journal, still as the analysis assumed.
    fn verify_clock_and_journal(&self, input: &InputSnapshot) -> (moved: Result<
        Option<ObsoleteReason>,
        RefreshError,
    >)
        ensures
            match clock_or_journal_moved(self.tables(), *input) {
                Err(error) => moved is Err && moved->Err_0@ == error,
                Ok(None) => moved matches Ok(None),
                Ok(Some(reason)) => moved matches Ok(Some(held)) && held@ == reason,
            },
    {
        let current = match &self.tables.revision {
            Some(current) => current,
            None => return Err(RefreshError::Scan(ScanError::ClockNotBootstrapped)),
        };
        if !same_text(current.as_str(), input.workspace_revision.as_str()) {
            let mut detail = joined(
                "workspace revision moved from ",
                quoted(input.workspace_revision.as_str()).as_str(),
            );
            detail.append(" to ");
            detail.append(quoted(current.as_str()).as_str());
            detail.append(" during the refresh");
            return Ok(Some(ObsoleteReason::ClockAdvanced { detail }));
        }
        if self.tables.change_seq != input.change_seq {
            return Ok(
                Some(
                    ObsoleteReason::ClockAdvanced {
                        detail: "the input change sequence advanced during the refresh".to_owned(),
                    },
                ),
            );
        }
        let journal_seq: i64 = max_journal_seq(self.tables.journal.as_slice());
        if journal_seq != input.journal_seq {
            return Ok(
                Some(
                    ObsoleteReason::JournalAdvanced {
                        from_seq: input.journal_seq,
                        to_seq: journal_seq,
                    },
                ),
            );
        }
        Ok(None)
    }

    /// The clock, the journal and the target, all still as the analysis
    /// assumed.
    fn verify_unchanged(
        &self,
        input: &InputSnapshot,
        path_rel: &str,
        recheck: &TargetRecheck,
    ) -> (moved: Result<Option<ObsoleteReason>, RefreshError>)
        ensures
            match anything_moved(self.tables(), *input, path_rel@, *recheck) {
                Err(error) => moved is Err && moved->Err_0@ == error,
                Ok(None) => moved matches Ok(None),
                Ok(Some(reason)) => moved matches Ok(Some(held)) && held@ == reason,
            },
    {
        match self.verify_clock_and_journal(input) {
            Ok(None) => {},
            other => return other,
        }
        let detail = if recheck.ignored {
            "the path became excluded during the refresh".to_owned()
        } else {
            match (&recheck.present, &recheck.drift) {
                (Err(error), _) => return Err(RefreshError::Scan(error.clone())),
                (Ok(false), _) => "the file disappeared during the refresh".to_owned(),
                (Ok(true), Err(error)) => return Err(RefreshError::Scan(error.clone())),
                (Ok(true), Ok(Some(detail))) => detail.clone(),
                (Ok(true), Ok(None)) => return Ok(None),
            }
        };
        Ok(
            Some(
                ObsoleteReason::TargetChangedDuringRefresh { path_rel: path_rel.to_owned(), detail },
            ),
        )
    }

    fn mark_recovery_required(&mut self)
        ensures
            final(self).tables() == recovery_required(old(self).tables()),
    {
        let state = match &self.tables.revision {
            Some(revision) => crate::index_tables::dirty_component(
                &self.tables.component,
                revision.as_str(),
            ),
            None => return,
        };
        self.tables.component = Some(state);
    }

    fn abort(&mut self, basis: String, reason: String)
        requires
            old(self).tables().next_generation_id < i64::MAX,
        ensures
            final(self).tables() == after_discard(old(self).tables(), basis@, reason@),
    {
        let ghost held = generations_view(self.tables.generations@);
        let record = GenerationRecord {
            id: self.tables.next_generation_id,
            state: GenerationState::Aborted,
            basis_workspace_revision: basis,
            abort_reason: Some(reason),
        };
        self.tables.next_generation_id = self.tables.next_generation_id + 1;
        self.tables.generations.push(record);
        assert(generations_view(self.tables.generations@) =~= held.push(record@));
    }

    /// The verified-identical path: the file was touched, and its content
    /// is what is already indexed.
    fn finish_no_op(
        &mut self,
        input: &InputSnapshot,
        target: &Resource,
        changes: &[ResourceChange],
    ) -> (outcome: Result<RefreshOutcome, RefreshError>)
        ensures
            results_in(
                resolve_touch(old(self).tables(), *input, *target, changes@),
                outcome,
                final(self).tables(),
            ),
    {
        match self.verify_clock_and_journal(input) {
            Err(error) => return Err(error),
            Ok(Some(reason)) => return Ok(RefreshOutcome::Obsolete(reason)),
            Ok(None) => {},
        }
        proof {
            lemma_readers_see_a_stable_generation(self.tables());
        }
        let stable: i64 = match self.tables.current_stable() {
            Some(record) => record.id,
            None => return Err(
                RefreshError::InvariantViolated {
                    detail: "a no-op refresh requires an existing stable generation".to_owned(),
                },
            ),
        };
        self.tables.resources = apply_changes(self.tables.resources.as_slice(), changes);
        self.tables.journal = mark_applied(
            self.tables.journal.as_slice(),
            input.journal_seq,
            None,
        );
        self.tables.component = Some(
            current_component(input.workspace_revision.as_str(), stable),
        );
        Ok(RefreshOutcome::NoOp { resource_id: target.id, path_rel: target.path_rel.clone() })
    }

    /// The whole targeted publication, all of it or nothing.
    fn publish(
        &mut self,
        input: &InputSnapshot,
        target: &Resource,
        updated: &Resource,
        facts: &RefreshFacts,
        symbols: usize,
        occurrences: usize,
    ) -> (outcome: Result<RefreshOutcome, RefreshError>)
        requires
            old(self).tables().next_generation_id < i64::MAX,
            input.change_seq < i64::MAX - 1,
        ensures
            results_in(
                publish_change(
                    old(self).tables(),
                    *input,
                    *target,
                    *updated,
                    *facts,
                    symbols,
                    occurrences,
                ),
                outcome,
                final(self).tables(),
            ),
    {
        let (change_seq, revision) = next_workspace_revision(
            input.change_seq + 1,
            input.workspace_revision.as_str(),
        );
        match self.verify_unchanged(input, target.path_rel.as_str(), &facts.recheck) {
            Err(error) => {
                self.abort(revision, error.abort_reason());
                self.mark_recovery_required();
                return Err(error);
            },
            Ok(Some(reason)) => {
                self.abort(revision, obsolete_reason_text(&reason));
                return Ok(RefreshOutcome::Obsolete(reason));
            },
            Ok(None) => {},
        }
        let mut change: Vec<ResourceChange> = Vec::new();
        change.push(ResourceChange::Update(updated.clone()));
        assert(change@ =~= seq![ResourceChange::Update(*updated)]);
        let rows = apply_changes(self.tables.resources.as_slice(), change.as_slice());
        let failed = match verify_target_row(rows.as_slice(), updated, facts) {
            Err(error) => Some(error),
            Ok(()) => match &facts.written {
                Ok(()) => None,
                Err(detail) => Some(RefreshError::Symbol(detail.clone())),
            },
        };
        if let Some(error) = failed {
            self.abort(revision, error.abort_reason());
            self.mark_recovery_required();
            return Err(error);
        }
        let ghost held = generations_view(self.tables.generations@);
        let id: i64 = self.tables.next_generation_id;
        let record = GenerationRecord {
            id,
            state: GenerationState::Stable,
            basis_workspace_revision: revision.clone(),
            abort_reason: None,
        };
        self.tables.next_generation_id = id + 1;
        self.tables.resources = rows;
        self.tables.journal = mark_applied(
            self.tables.journal.as_slice(),
            input.journal_seq,
            Some(id),
        );
        self.tables.component = Some(current_component(revision.as_str(), id));
        self.tables.change_seq = change_seq;
        self.tables.stable_generation_id = Some(id);
        self.tables.generations.push(record.clone());
        assert(generations_view(self.tables.generations@) =~= held.push(record@));
        let publication = RefreshPublication {
            resource_id: updated.id,
            path_rel: updated.path_rel.clone(),
            resource_revision: updated.resource_revision.clone(),
            workspace_revision: revision.clone(),
            generation: record,
            symbols,
            occurrences,
        };
        self.tables.revision = Some(revision);
        Ok(RefreshOutcome::Published(publication))
    }

    /// The confirmed-change path.
    fn refresh_changed(
        &mut self,
        input: &InputSnapshot,
        target: &Resource,
        updated: &Resource,
        facts: &RefreshFacts,
    ) -> (outcome: Result<RefreshOutcome, RefreshError>)
        requires
            old(self).tables().next_generation_id < i64::MAX,
            input.change_seq < i64::MAX - 1,
        ensures
            results_in(
                refresh_change(old(self).tables(), *input, *target, *updated, *facts),
                outcome,
                final(self).tables(),
            ),
    {
        match &facts.structure {
            StructuralResult::NotStructural => Ok(
                RefreshOutcome::Deferred(
                    DeferReason::NotStructuralSource { path_rel: updated.path_rel.clone() },
                ),
            ),
            StructuralResult::ParseFailed(detail) => Err(RefreshError::Parse(detail.clone())),
            StructuralResult::NotAccepted(status) => Ok(
                RefreshOutcome::Deferred(
                    DeferReason::ExtractionNotAccepted {
                        path_rel: updated.path_rel.clone(),
                        parse_status: *status,
                    },
                ),
            ),
            StructuralResult::Accepted { symbols, occurrences } => self.publish(
                input,
                target,
                updated,
                facts,
                *symbols,
                *occurrences,
            ),
        }
    }

    fn refresh_observed(
        &mut self,
        input: &InputSnapshot,
        target: &Resource,
        facts: &RefreshFacts,
    ) -> (outcome: Result<RefreshOutcome, RefreshError>)
        requires
            old(self).tables().next_generation_id < i64::MAX,
            input.change_seq < i64::MAX - 1,
        ensures
            results_in(
                refresh_target(old(self).tables(), *input, *target, *facts),
                outcome,
                final(self).tables(),
            ),
    {
        let same = match &facts.observed_hash {
            Some(hash) => same_text(hash.as_str(), facts.read_hash.as_str()),
            None => false,
        };
        if !same {
            return Ok(
                RefreshOutcome::Obsolete(
                    ObsoleteReason::TargetChangedDuringRefresh {
                        path_rel: target.path_rel.clone(),
                        detail: "the file changed between hashing and reading it".to_owned(),
                    },
                ),
            );
        }
        if facts.changes.len() == 1 {
            match &facts.changes[0] {
                ResourceChange::Unchanged { .. } => return self.finish_no_op(
                    input,
                    target,
                    facts.changes.as_slice(),
                ),
                ResourceChange::MetadataRefresh { .. } => return self.finish_no_op(
                    input,
                    target,
                    facts.changes.as_slice(),
                ),
                ResourceChange::Update(updated) => return self.refresh_changed(
                    input,
                    target,
                    updated,
                    facts,
                ),
                _ => {},
            }
        }
        Ok(
            RefreshOutcome::Deferred(
                DeferReason::IdentityNotContinuous { path_rel: target.path_rel.clone() },
            ),
        )
    }

    /// Try to bring the structural index up to date for one saved file,
    /// given what was observed of the target that the tables name.
    pub fn run(&mut self, input: &InputSnapshot, facts: &RefreshFacts) -> (outcome: Result<
        RefreshOutcome,
        RefreshError,
    >)
        requires
            old(self).tables().next_generation_id < i64::MAX,
            input.change_seq < i64::MAX - 1,
        ensures
            in_order(old(self).tables()) ==> in_order(final(self).tables()),
            results_in(
                refresh_tables(old(self).tables(), *input, *facts),
                outcome,
                final(self).tables(),
            ),
    {
        proof {
            if in_order(self.tables()) {
                lemma_refresh_keeps_order(self.tables(), *input, *facts);
            }
        }
        let target = match self.pending_target() {
            Ok(target) => target,
            Err(reason) => return Ok(RefreshOutcome::Deferred(reason)),
        };
        if let Some(reason) = check_target(&target, facts.path) {
            return Ok(RefreshOutcome::Deferred(reason));
        }
        self.refresh_observed(input, &target, facts)
    }
}

/// The outcome and the tables are what a refresh comes to.
pub open spec fn results_in(
    refreshed: Refreshed,
    outcome: Result<RefreshOutcome, RefreshError>,
    tables: TablesView,
) -> bool {
    &&& tables == refreshed.tables
    &&& match refreshed.outcome {
        Ok(held) => outcome matches Ok(found) && found@ == held,
        Err(error) => outcome is Err && outcome->Err_0@ == error,
    }
}

/// The one row that a publication wrote describes the bytes that it was
/// published from.
fn verify_target_row(rows: &[Resource], updated: &Resource, facts: &RefreshFacts) -> (outcome:
    Result<(), RefreshError>)
    ensures
        match row_unfaithful(rows@, *updated, *facts) {
            Some(detail) => outcome is Err && outcome->Err_0@
                == RefreshErrorView::InvariantViolated(detail),
            None => outcome is Ok,
        },
{
    let stored = match find_row(rows, updated.id) {
        Some(stored) => stored,
        None => {
            let mut detail = joined("resource ", wide_text(updated.id.value).as_str());
            detail.append(" vanished during its own update");
            return Err(RefreshError::InvariantViolated { detail });
        },
    };
    if stored.state != ResourceState::Active || !same_text(
        stored.path_key.as_str(),
        facts.observed_path_key.as_str(),
    ) || !same_optional(&stored.content_hash, &facts.observed_hash) || !same_text(
        stored.resource_revision.as_str(),
        updated.resource_revision.as_str(),
    ) {
        let mut detail = joined("resource ", quoted(stored.path_rel.as_str()).as_str());
        detail.append(" does not describe the published bytes after its update");
        return Err(RefreshError::InvariantViolated { detail });
    }
    Ok(())
}

} // verus!
