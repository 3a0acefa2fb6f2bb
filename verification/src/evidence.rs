//! What a projection shows: facts with their origin, and what is not known.

use vstd::prelude::*;

use crate::graph::{GraphEndpoint, IntendedRelation, RelationKind, UnresolvedReason};
use crate::knowledge::{
    Decision, GenerationReference, KnowledgeConflict, Policy, RequestDirective, Resolved,
    Staleness, WorkOverlap, WorkingState,
};
use crate::model::{
    OccurrenceKind, Resource, ResourceId, SourceSpan, SymbolId, WorkItemId, WorkspaceId,
};
use crate::projection::ProjectionTarget;
use crate::query::{Currentness, Located, SymbolCandidate};
use crate::semantic::{Dispatch, Support};

verus! {

// ---------------------------------------------------------------------
// Relations
// ---------------------------------------------------------------------

/// Whether a relation describes its Resource as it is now.
#[derive(Debug, Clone, Copy, PartialEq, Eq, Structural)]
pub enum Freshness {
    Fresh,
    Stale,
}

/// How far a relation was established.
#[derive(Debug, Clone, Copy, PartialEq, Eq, Structural)]
pub enum Resolution {
    Resolved,
    Candidate,
    Unresolved,
}

/// Whether the target of a relation is part of the Workspace.
#[derive(Debug, Clone, Copy, PartialEq, Eq, Structural)]
pub enum TargetScope {
    Internal,
    External,
}

/// Which end of a relation was asked about.
#[derive(Debug, Clone, Copy, PartialEq, Eq, Structural)]
pub enum Direction {
    Outgoing,
    Incoming,
}

/// Where a relation is written.
#[derive(Debug, Clone, PartialEq, Eq)]
pub struct EvidenceLocation {
    pub resource: ResourceId,
    pub containing_symbol: Option<SymbolId>,
    pub occurrence_kind: OccurrenceKind,
    pub span: SourceSpan,
    pub basis_revision: String,
    pub support: Support,
    pub freshness: Freshness,
}

/// One relation, with every place that it is written at. It holds places
/// and no source.
#[derive(Debug, Clone, PartialEq, Eq)]
pub struct RelationResult {
    pub kind: RelationKind,
    pub source: GraphEndpoint,
    pub target: GraphEndpoint,
    pub direction: Direction,
    pub dispatch: Dispatch,
    pub target_scope: TargetScope,
    pub resolution: Resolution,
    pub support: Support,
    pub freshness: Freshness,
    pub evidence: Vec<EvidenceLocation>,
}

/// A place whose relation was not established.
#[derive(Debug, Clone, PartialEq, Eq)]
pub struct RelationGap {
    pub location: EvidenceLocation,
    pub intended: IntendedRelation,
    pub lookup_name: String,
    pub module_hint: Option<String>,
    pub reason: UnresolvedReason,
    pub resolution: Resolution,
    pub candidates: Vec<GraphEndpoint>,
    pub candidate_truncated: bool,
    pub resolution_context_key: Option<String>,
}

/// Everything that one end of an anchor's relations came to.
#[derive(Debug, Clone, PartialEq, Eq)]
pub struct RelationAnswer {
    pub direction: Direction,
    pub relations: Vec<RelationResult>,
    pub gaps: Vec<RelationGap>,
}

// ---------------------------------------------------------------------
// Source
// ---------------------------------------------------------------------

/// What a range of source is shown for.
#[derive(Debug, Clone, Copy, PartialEq, Eq, Structural)]
pub enum RangeRole {
    Declaration,
    EvidenceSpan,
}

/// What the bytes were held against before they were shown.
#[derive(Debug, Clone, PartialEq, Eq)]
pub struct SourceVerification {
    pub expected_content_hash: String,
    pub observed_content_hash: String,
    pub currentness: Currentness,
}

/// A range of source, as it is now.
#[derive(Debug, Clone, PartialEq, Eq)]
pub struct PreparedRange {
    pub resource: ResourceId,
    pub path_rel: String,
    pub resource_revision: String,
    pub span: SourceSpan,
    pub source: String,
    pub role: RangeRole,
    pub verification: SourceVerification,
}

/// Why a range of source is not shown.
#[derive(Debug, Clone, PartialEq, Eq)]
pub enum SourceUnavailable {
    NoCurrentSource { detail: String },
    StaleBasis { basis_revision: String, current_revision: String },
}

/// How a test relates to what is asked about.
#[derive(Debug, Clone, Copy, PartialEq, Eq, Structural)]
pub enum ProjectionBasis {
    DirectRelation(RelationKind),
    Traversal,
}

/// A test that may cover what is asked about.
#[derive(Debug, Clone, PartialEq, Eq)]
pub struct RelatedTestCandidate {
    pub resource: ResourceId,
    pub path_rel: String,
    pub endpoints: Vec<GraphEndpoint>,
    pub distance: usize,
    pub basis: ProjectionBasis,
    pub paths: Vec<Vec<GraphEndpoint>>,
    pub paths_truncated: bool,
    pub support: Support,
    pub freshness: Freshness,
}

// ---------------------------------------------------------------------
// Coverage
// ---------------------------------------------------------------------

/// What kept an answer from being complete.
#[derive(Debug, Clone, Copy, PartialEq, Eq, Structural)]
pub enum CoverageLimit {
    UnresolvedEvidence,
    TraversalTruncated,
    IncompleteStructure,
    NotCurrent,
}

/// Everything that kept an answer from being complete.
#[derive(Debug, Clone, PartialEq, Eq)]
pub struct CoverageReport {
    limits: Vec<CoverageLimit>,
}

impl View for CoverageReport {
    type V = Set<CoverageLimit>;

    closed spec fn view(&self) -> Set<CoverageLimit> {
        self.limits@.to_set()
    }
}

impl CoverageReport {
    pub fn new() -> (report: Self)
        ensures
            report@ == Set::<CoverageLimit>::empty(),
    {
        let report = CoverageReport { limits: Vec::new() };
        assert(report@ =~= Set::<CoverageLimit>::empty());
        report
    }

    pub fn note(&mut self, limit: CoverageLimit)
        ensures
            final(self)@ == old(self)@.insert(limit),
    {
        let ghost before = self.limits@;
        if !self.has(limit) {
            self.limits.push(limit);
            proof {
                broadcast use vstd::seq_lib::group_seq_properties;

                assert(self.limits@ == before.push(limit));
            }
        }
        assert(self@ =~= before.to_set().insert(limit));
    }

    pub fn has(&self, limit: CoverageLimit) -> (held: bool)
        ensures
            held == self@.contains(limit),
    {
        let mut at: usize = 0;
        while at < self.limits.len()
            invariant
                at <= self.limits@.len(),
                forall|i: int| 0 <= i < at ==> self.limits@[i] != limit,
            decreases self.limits@.len() - at,
        {
            if self.limits[at] == limit {
                assert(self.limits@[at as int] == limit);
                return true;
            }
            at = at + 1;
        }
        false
    }

    /// Whether nothing kept the answer from being complete.
    pub fn is_complete(&self) -> (complete: bool)
        ensures
            complete == (self@ == Set::<CoverageLimit>::empty()),
    {
        if self.limits.len() == 0 {
            assert(self@ =~= Set::<CoverageLimit>::empty());
            true
        } else {
            assert(self@.contains(self.limits@[0]));
            false
        }
    }
}

/// What an answer may be taken for.
#[derive(Debug, Clone, Copy, PartialEq, Eq, Structural)]
pub enum AnswerState {
    Confirmed,
    NoneUnderCompleteCoverage,
    NoneWithIncompleteCoverage,
}

impl AnswerState {
    /// Whether there being nothing may be relied on.
    pub fn is_safe_negative(self) -> (safe: bool)
        ensures
            safe == (self == AnswerState::NoneUnderCompleteCoverage),
    {
        match self {
            AnswerState::NoneUnderCompleteCoverage => true,
            _ => false,
        }
    }
}

/// What an answer is about.
#[derive(Debug, Clone, PartialEq, Eq)]
pub enum CoverageSubject {
    Relations { anchor: GraphEndpoint, direction: Direction, kinds: Vec<RelationKind> },
    Selection { selector: ProjectionTarget },
}

/// How complete an answer is.
#[derive(Debug, Clone, PartialEq, Eq)]
pub struct CoverageEvidence {
    pub subject: CoverageSubject,
    pub report: CoverageReport,
    /// How many results were confirmed.
    pub confirmed: usize,
}

impl CoverageEvidence {
    pub open spec fn state(&self) -> AnswerState {
        if self.confirmed > 0 {
            AnswerState::Confirmed
        } else if self.report@ == Set::<CoverageLimit>::empty() {
            AnswerState::NoneUnderCompleteCoverage
        } else {
            AnswerState::NoneWithIncompleteCoverage
        }
    }

    pub fn answer_state(&self) -> (state: AnswerState)
        ensures
            state == self.state(),
    {
        if self.confirmed > 0 {
            AnswerState::Confirmed
        } else if self.report.is_complete() {
            AnswerState::NoneUnderCompleteCoverage
        } else {
            AnswerState::NoneWithIncompleteCoverage
        }
    }
}

// ---------------------------------------------------------------------
// Evidence
// ---------------------------------------------------------------------

/// Where a piece of evidence comes from. There is no value for a guess.
#[derive(Debug, Clone, Copy, PartialEq, Eq, Structural)]
pub enum EvidenceOrigin {
    /// Read from the Workspace or the request itself.
    Observed,
    /// Read from what is kept.
    Stored,
    /// Computed from the others, the same way each time.
    Derived,
}

/// What a selector selected. It chooses nothing.
#[derive(Debug, Clone, PartialEq, Eq)]
pub struct TargetSelection {
    pub selector: ProjectionTarget,
    pub located: Located<GraphEndpoint>,
}

/// What a generation is to a piece of work.
#[derive(Debug, Clone, Copy, PartialEq, Eq, Structural)]
pub enum GenerationBasis {
    Baseline,
    LastObserved,
}

/// One thing that a projection shows.
#[derive(Debug, Clone, PartialEq, Eq)]
pub enum EvidenceItem {
    Resource(Resource),
    Symbol(SymbolCandidate),
    Relation(RelationResult),
    RelationGap(RelationGap),
    CurrentSource(PreparedRange),
    SourceUnavailable { resource: ResourceId, span: SourceSpan, reason: SourceUnavailable },
    RelatedTest { target: GraphEndpoint, candidate: RelatedTestCandidate },
    Policy(Resolved<Policy>),
    Decision(Resolved<Decision>),
    Directive(Resolved<RequestDirective>),
    KnowledgeConflict(KnowledgeConflict),
    WorkingState(WorkingState),
    WorkOverlap { work_item: WorkItemId, overlap: WorkOverlap },
    GenerationReference {
        work_item: WorkItemId,
        basis: GenerationBasis,
        reference: GenerationReference,
    },
    WorkStaleness { work_item: WorkItemId, staleness: Staleness },
    Coverage(CoverageEvidence),
    TargetSelection(TargetSelection),
    IndexCurrentness { workspace: WorkspaceId, currentness: Currentness },
}

impl EvidenceItem {
    pub open spec fn comes_from(&self) -> EvidenceOrigin {
        match self {
            EvidenceItem::Resource(_)
            | EvidenceItem::Symbol(_)
            | EvidenceItem::Relation(_)
            | EvidenceItem::RelationGap(_)
            | EvidenceItem::Policy(_)
            | EvidenceItem::Decision(_)
            | EvidenceItem::WorkingState(_) => EvidenceOrigin::Stored,
            EvidenceItem::CurrentSource(_) | EvidenceItem::Directive(_) => EvidenceOrigin::Observed,
            _ => EvidenceOrigin::Derived,
        }
    }

    /// Where it comes from, which its kind alone decides.
    pub fn origin(&self) -> (origin: EvidenceOrigin)
        ensures
            origin == self.comes_from(),
    {
        match self {
            EvidenceItem::Resource(_) => EvidenceOrigin::Stored,
            EvidenceItem::Symbol(_) => EvidenceOrigin::Stored,
            EvidenceItem::Relation(_) => EvidenceOrigin::Stored,
            EvidenceItem::RelationGap(_) => EvidenceOrigin::Stored,
            EvidenceItem::Policy(_) => EvidenceOrigin::Stored,
            EvidenceItem::Decision(_) => EvidenceOrigin::Stored,
            EvidenceItem::WorkingState(_) => EvidenceOrigin::Stored,
            EvidenceItem::CurrentSource(_) => EvidenceOrigin::Observed,
            EvidenceItem::Directive(_) => EvidenceOrigin::Observed,
            _ => EvidenceOrigin::Derived,
        }
    }
}

} // verus!
