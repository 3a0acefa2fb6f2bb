//! Rules and work that a Project keeps: where each applies, and what a
//! request may add to them.

use vstd::prelude::*;

use crate::model::{DecisionId, PolicyId, ResourceId, WorkItemId, WorkspaceId};
use crate::text::{
    copy_optional, decimal, optional_chars, same_optional, same_text, wide_text, Chars,
};

verus! {

// ---------------------------------------------------------------------
// Scopes
// ---------------------------------------------------------------------

/// What a scope covers.
#[derive(Debug, Clone, Copy, PartialEq, Eq, Structural)]
pub enum ScopeKind {
    User,
    Project,
    Workspace,
    Package,
    Module,
}

/// Where a rule applies.
#[derive(Debug, PartialEq, Eq)]
pub struct KnowledgeScope {
    pub kind: ScopeKind,
    /// Which one of its kind; the User and the Project have none.
    pub key: Option<String>,
}

pub ghost struct ScopeView {
    pub kind: ScopeKind,
    pub key: Option<Chars>,
}

impl View for KnowledgeScope {
    type V = ScopeView;

    open spec fn view(&self) -> ScopeView {
        ScopeView { kind: self.kind, key: optional_chars(self.key) }
    }
}

impl Clone for KnowledgeScope {
    fn clone(&self) -> (copy: Self)
        ensures
            copy == *self,
    {
        KnowledgeScope { kind: self.kind, key: copy_optional(&self.key) }
    }
}

pub open spec fn user_scope() -> ScopeView {
    ScopeView { kind: ScopeKind::User, key: None }
}

pub open spec fn project_scope() -> ScopeView {
    ScopeView { kind: ScopeKind::Project, key: None }
}

pub open spec fn workspace_scope(workspace: WorkspaceId) -> ScopeView {
    ScopeView { kind: ScopeKind::Workspace, key: Some(decimal(workspace.value as int)) }
}

/// The kinds of scope that a request may name beyond its base.
pub open spec fn narrows(kind: ScopeKind) -> bool {
    kind is Package || kind is Module
}

impl KnowledgeScope {
    pub fn user() -> (scope: Self)
        ensures
            scope@ == user_scope(),
    {
        KnowledgeScope { kind: ScopeKind::User, key: None }
    }

    pub fn project() -> (scope: Self)
        ensures
            scope@ == project_scope(),
    {
        KnowledgeScope { kind: ScopeKind::Project, key: None }
    }

    pub fn workspace(workspace: WorkspaceId) -> (scope: Self)
        ensures
            scope@ == workspace_scope(workspace),
    {
        KnowledgeScope { kind: ScopeKind::Workspace, key: Some(wide_text(workspace.value)) }
    }

    /// A scope by its key. Only what narrows a Workspace has one to choose.
    pub fn keyed(kind: ScopeKind, key: &str) -> (scope: Option<Self>)
        ensures
            scope is Some <==> narrows(kind) && key@.len() > 0,
            scope matches Some(held) ==> held@ == (ScopeView { kind, key: Some(key@) }),
    {
        let narrowing = match kind {
            ScopeKind::Package => true,
            ScopeKind::Module => true,
            _ => false,
        };
        if narrowing && key.unicode_len() > 0 {
            Some(KnowledgeScope { kind, key: Some(key.to_owned()) })
        } else {
            None
        }
    }
}

pub fn same_scope(a: &KnowledgeScope, b: &KnowledgeScope) -> (same: bool)
    ensures
        same == (a@ == b@),
{
    a.kind == b.kind && same_optional(&a.key, &b.key)
}

pub open spec fn scopes_view(scopes: Seq<KnowledgeScope>) -> Seq<ScopeView> {
    scopes.map_values(|scope: KnowledgeScope| scope@)
}

pub open spec fn layers_view(layers: Seq<Vec<KnowledgeScope>>) -> Seq<Seq<ScopeView>> {
    layers.map_values(|layer: Vec<KnowledgeScope>| scopes_view(layer@))
}

fn holds_scope(scopes: &[KnowledgeScope], scope: &KnowledgeScope) -> (held: bool)
    ensures
        held == scopes_view(scopes@).contains(scope@),
{
    let ghost all = scopes_view(scopes@);
    let mut at: usize = 0;
    while at < scopes.len()
        invariant
            at <= scopes@.len(),
            all == scopes_view(scopes@),
            forall|i: int| 0 <= i < at ==> all[i] != scope@,
        decreases scopes@.len() - at,
    {
        if same_scope(&scopes[at], scope) {
            assert(all[at as int] == scope@);
            return true;
        }
        at = at + 1;
    }
    false
}

// ---------------------------------------------------------------------
// Applicability
// ---------------------------------------------------------------------

/// Failure resolving what applies.
#[derive(Debug, Clone, PartialEq, Eq)]
pub enum ResolveError {
    InvalidContext(String),
    InvalidRequest(String),
}

pub ghost enum ResolveErrorView {
    InvalidContext(Chars),
    InvalidRequest(Chars),
}

impl View for ResolveError {
    type V = ResolveErrorView;

    open spec fn view(&self) -> ResolveErrorView {
        match self {
            ResolveError::InvalidContext(detail) => ResolveErrorView::InvalidContext(detail@),
            ResolveError::InvalidRequest(detail) => ResolveErrorView::InvalidRequest(detail@),
        }
    }
}

/// Whether some layer holds the scope.
pub open spec fn in_layers(layers: Seq<Seq<ScopeView>>, scope: ScopeView) -> bool {
    exists|i: int| 0 <= i < layers.len() && (#[trigger] layers[i]).contains(scope)
}

/// No scope stands in two places.
pub open spec fn layers_distinct(layers: Seq<Seq<ScopeView>>) -> bool {
    &&& forall|i: int| 0 <= i < layers.len() ==> (#[trigger] layers[i]).no_duplicates()
    &&& forall|i: int, j: int, scope: ScopeView|
        0 <= i < layers.len() && 0 <= j < layers.len() && (#[trigger] layers[i].contains(scope))
            && (#[trigger] layers[j].contains(scope)) ==> i == j
}

/// Every scope of a layer may be named by a request.
pub open spec fn all_narrow(layer: Seq<ScopeView>) -> bool {
    forall|i: int| 0 <= i < layer.len() ==> narrows((#[trigger] layer[i]).kind)
}

/// A layer names something that an earlier layer names.
pub open spec fn repeats(layers: Seq<Seq<ScopeView>>, layer: Seq<ScopeView>) -> bool {
    exists|i: int| 0 <= i < layer.len() && in_layers(layers, #[trigger] layer[i])
}

/// Why a layer cannot be added, if it cannot.
pub open spec fn layer_refused(
    layers: Seq<Seq<ScopeView>>,
    layer: Seq<ScopeView>,
) -> Option<Chars> {
    if layer.len() == 0 {
        Some("a scope layer is empty"@)
    } else if !all_narrow(layer) {
        Some("a scope layer names a base scope"@)
    } else if !layer.no_duplicates() || repeats(layers, layer) {
        Some("a scope is named twice"@)
    } else {
        None
    }
}

/// The layers that apply to everything in a Workspace.
pub open spec fn base_layers(workspace: Option<WorkspaceId>) -> Seq<Seq<ScopeView>> {
    match workspace {
        Some(workspace) => seq![
            seq![user_scope()],
            seq![project_scope()],
            seq![workspace_scope(workspace)],
        ],
        None => seq![seq![user_scope()], seq![project_scope()]],
    }
}

/// The scopes that apply to a request, from the widest layer to the
/// narrowest.
#[derive(Debug, PartialEq, Eq)]
pub struct ApplicabilityContext {
    layers: Vec<Vec<KnowledgeScope>>,
}

impl View for ApplicabilityContext {
    type V = Seq<Seq<ScopeView>>;

    closed spec fn view(&self) -> Seq<Seq<ScopeView>> {
        layers_view(self.layers@)
    }
}

impl ApplicabilityContext {
    /// No scope stands in two places.
    pub open spec fn wf(&self) -> bool {
        layers_distinct(self@)
    }

    /// The User, the Project and, where there is one, the Workspace.
    pub fn base(workspace: Option<WorkspaceId>) -> (context: Self)
        ensures
            context.wf(),
            context@ == base_layers(workspace),
    {
        let mut layers: Vec<Vec<KnowledgeScope>> = Vec::new();
        let user = vec![KnowledgeScope::user()];
        let project = vec![KnowledgeScope::project()];
        assert(scopes_view(user@) =~= seq![user_scope()]);
        assert(scopes_view(project@) =~= seq![project_scope()]);
        layers.push(user);
        layers.push(project);
        if let Some(workspace) = workspace {
            let own = vec![KnowledgeScope::workspace(workspace)];
            assert(scopes_view(own@) =~= seq![workspace_scope(workspace)]);
            layers.push(own);
        }
        let context = ApplicabilityContext { layers };
        proof {
            assert(context@ =~= base_layers(workspace));
            let found = context@;
            assert forall|i: int, j: int, scope: ScopeView|
                0 <= i < found.len() && 0 <= j < found.len() && (#[trigger] found[i].contains(
                    scope,
                )) && (#[trigger] found[j].contains(scope)) implies i == j by {
                assert(found[i][0] == scope && found[j][0] == scope);
            }
        }
        context
    }

    pub fn layers(&self) -> (layers: &Vec<Vec<KnowledgeScope>>)
        ensures
            layers_view(layers@) == self@,
    {
        &self.layers
    }

    /// Which layer a scope is in.
    pub fn layer_of(&self, scope: &KnowledgeScope) -> (found: Option<usize>)
        ensures
            found is Some <==> in_layers(self@, scope@),
            found matches Some(at) ==> at < self@.len() && self@[at as int].contains(scope@) && (
            forall|i: int| 0 <= i < at ==> !(#[trigger] self@[i].contains(scope@))),
    {
        let mut at: usize = 0;
        while at < self.layers.len()
            invariant
                at <= self.layers@.len(),
                forall|i: int| 0 <= i < at ==> !(#[trigger] self@[i].contains(scope@)),
            decreases self.layers@.len() - at,
        {
            if holds_scope(self.layers[at].as_slice(), scope) {
                assert(self@[at as int].contains(scope@));
                return Some(at);
            }
            assert(self@[at as int] == scopes_view(self.layers@[at as int]@));
            at = at + 1;
        }
        None
    }

    fn refusal(&self, layer: &[KnowledgeScope]) -> (reason: Option<&'static str>)
        ensures
            match layer_refused(self@, scopes_view(layer@)) {
                Some(detail) => reason matches Some(held) && held@ == detail,
                None => reason is None,
            },
    {
        let ghost all = scopes_view(layer@);
        if layer.len() == 0 {
            return Some("a scope layer is empty");
        }
        let mut at: usize = 0;
        while at < layer.len()
            invariant
                at <= layer@.len(),
                all == scopes_view(layer@),
                forall|i: int| 0 <= i < at ==> narrows((#[trigger] all[i]).kind),
            decreases layer@.len() - at,
        {
            assert(all[at as int] == layer@[at as int]@);
            match layer[at].kind {
                ScopeKind::Package => {},
                ScopeKind::Module => {},
                _ => return Some("a scope layer names a base scope"),
            }
            at = at + 1;
        }
        let mut next: usize = 0;
        while next < layer.len()
            invariant
                next <= layer@.len(),
                layer@.len() > 0,
                all == scopes_view(layer@),
                all_narrow(all),
                all.take(next as int).no_duplicates(),
                forall|i: int| 0 <= i < next ==> !in_layers(self@, #[trigger] all[i]),
            decreases layer@.len() - next,
        {
            let ghost before = all.take(next as int);
            assert(before =~= scopes_view(layer@.take(next as int)));
            let mut earlier: usize = 0;
            while earlier < next
                invariant
                    earlier <= next < layer@.len(),
                    all == scopes_view(layer@),
                    all_narrow(all),
                    forall|i: int| 0 <= i < earlier ==> all[i] != all[next as int],
                decreases next - earlier,
            {
                assert(all[earlier as int] == layer@[earlier as int]@);
                assert(all[next as int] == layer@[next as int]@);
                if same_scope(&layer[earlier], &layer[next]) {
                    assert(!all.no_duplicates());
                    return Some("a scope is named twice");
                }
                earlier = earlier + 1;
            }
            assert(all[next as int] == layer@[next as int]@);
            if let Some(_) = self.layer_of(&layer[next]) {
                assert(in_layers(self@, all[next as int]));
                return Some("a scope is named twice");
            }
            assert(all.take(next + 1) =~= before.push(all[next as int]));
            next = next + 1;
        }
        assert(all.take(next as int) =~= all);
        None
    }

    /// The context with one more layer, narrower than the others.
    pub fn with_layer(self, layer: Vec<KnowledgeScope>) -> (outcome: Result<Self, ResolveError>)
        requires
            self.wf(),
        ensures
            match layer_refused(self@, scopes_view(layer@)) {
                Some(detail) => outcome is Err && outcome->Err_0@
                    == ResolveErrorView::InvalidContext(detail),
                None => outcome matches Ok(context) && context.wf() && context@ == self@.push(
                    scopes_view(layer@),
                ),
            },
    {
        if let Some(detail) = self.refusal(layer.as_slice()) {
            return Err(ResolveError::InvalidContext(detail.to_owned()));
        }
        let ghost before = self@;
        let ghost added = scopes_view(layer@);
        let mut layers = self.layers;
        layers.push(layer);
        let context = ApplicabilityContext { layers };
        proof {
            assert(context@ =~= before.push(added));
            let found = context@;
            let last = before.len() as int;
            assert forall|i: int| 0 <= i < found.len() implies (
            #[trigger] found[i]).no_duplicates() by {
                if i < last {
                    assert(found[i] == before[i]);
                }
            }
            assert forall|i: int, j: int, scope: ScopeView|
                0 <= i < found.len() && 0 <= j < found.len() && (#[trigger] found[i].contains(
                    scope,
                )) && (#[trigger] found[j].contains(scope)) implies i == j by {
                if i < last && j < last {
                    assert(before[i].contains(scope) && before[j].contains(scope));
                } else if i < last {
                    let at = choose|at: int| 0 <= at < added.len() && added[at] == scope;
                    assert(before[i].contains(added[at]));
                    assert(in_layers(before, added[at]));
                } else if j < last {
                    let at = choose|at: int| 0 <= at < added.len() && added[at] == scope;
                    assert(before[j].contains(added[at]));
                    assert(in_layers(before, added[at]));
                }
            }
        }
        Ok(context)
    }
}

// ---------------------------------------------------------------------
// Directives
// ---------------------------------------------------------------------

/// What a directive is about.
#[derive(Debug, Clone, Copy, PartialEq, Eq, Structural)]
pub enum DirectiveTarget {
    Policy,
    Decision,
}

/// What a request itself asks for, over the rules that are kept.
#[derive(Debug, Clone, PartialEq, Eq)]
pub struct RequestDirective {
    pub id: String,
    pub target: DirectiveTarget,
    pub subject_key: String,
    pub scope: KnowledgeScope,
    pub summary: String,
}

/// The ids of the directives.
pub open spec fn directive_ids(directives: Seq<RequestDirective>) -> Seq<Chars> {
    directives.map_values(|directive: RequestDirective| directive.id@)
}

/// Why directives are malformed, if they are.
pub open spec fn directives_refused(directives: Seq<RequestDirective>) -> Option<Chars> {
    if exists|i: int| 0 <= i < directives.len() && (#[trigger] directives[i]).id@.len() == 0 {
        Some("a directive has no id"@)
    } else if !directive_ids(directives).no_duplicates() {
        Some("two directives share an id"@)
    } else {
        None
    }
}

/// Whether each directive has an id of its own.
pub fn check_directives(directives: &[RequestDirective]) -> (outcome: Result<(), ResolveError>)
    ensures
        match directives_refused(directives@) {
            Some(detail) => outcome is Err && outcome->Err_0@ == ResolveErrorView::InvalidRequest(
                detail,
            ),
            None => outcome is Ok,
        },
{
    let ghost ids = directive_ids(directives@);
    let mut at: usize = 0;
    while at < directives.len()
        invariant
            at <= directives@.len(),
            forall|i: int| 0 <= i < at ==> (#[trigger] directives@[i]).id@.len() != 0,
        decreases directives@.len() - at,
    {
        if directives[at].id.as_str().unicode_len() == 0 {
            return Err(ResolveError::InvalidRequest("a directive has no id".to_owned()));
        }
        at = at + 1;
    }
    let mut next: usize = 0;
    while next < directives.len()
        invariant
            next <= directives@.len(),
            ids == directive_ids(directives@),
            forall|i: int| 0 <= i < directives@.len() ==> (#[trigger] directives@[i]).id@.len() != 0,
            ids.take(next as int).no_duplicates(),
        decreases directives@.len() - next,
    {
        let mut earlier: usize = 0;
        while earlier < next
            invariant
                earlier <= next < directives@.len(),
                ids == directive_ids(directives@),
                forall|i: int|
                    0 <= i < directives@.len() ==> (#[trigger] directives@[i]).id@.len() != 0,
                forall|i: int| 0 <= i < earlier ==> ids[i] != ids[next as int],
            decreases next - earlier,
        {
            assert(ids[earlier as int] == directives@[earlier as int].id@);
            assert(ids[next as int] == directives@[next as int].id@);
            if same_text(directives[earlier].id.as_str(), directives[next].id.as_str()) {
                assert(!ids.no_duplicates());
                return Err(ResolveError::InvalidRequest("two directives share an id".to_owned()));
            }
            earlier = earlier + 1;
        }
        assert(ids.take(next + 1) =~= ids.take(next as int).push(ids[next as int]));
        next = next + 1;
    }
    assert(ids.take(next as int) =~= ids);
    Ok(())
}

// ---------------------------------------------------------------------
// What is kept
// ---------------------------------------------------------------------

/// Where a rule came from.
#[derive(Debug, Clone, Copy, PartialEq, Eq, Structural)]
pub enum SourceKind {
    UserExplicit,
    Observed,
}

/// Who stated a rule, and where it can be found again.
#[derive(Debug, Clone, PartialEq, Eq)]
pub struct Provenance {
    pub source_kind: SourceKind,
    pub locator: Option<String>,
}

impl Provenance {
    pub fn new(source_kind: SourceKind) -> (provenance: Self)
        ensures
            provenance.source_kind == source_kind,
            provenance.locator is None,
    {
        Provenance { source_kind, locator: None }
    }

    pub fn with_locator(self, locator: &str) -> (provenance: Self)
        ensures
            provenance.source_kind == self.source_kind,
            optional_chars(provenance.locator) == Some(locator@),
    {
        Provenance { source_kind: self.source_kind, locator: Some(locator.to_owned()) }
    }
}

#[derive(Debug, Clone, Copy, PartialEq, Eq, Structural)]
pub enum ProtectionClass {
    Normal,
    Protected,
}

#[derive(Debug, Clone, Copy, PartialEq, Eq, Structural)]
pub enum PriorityClass {
    Default,
    High,
}

#[derive(Debug, Clone, Copy, PartialEq, Eq, Structural)]
pub enum PolicyStatus {
    Active,
    Superseded,
}

/// A rule of a Project or a User.
#[derive(Debug, Clone, PartialEq, Eq)]
pub struct Policy {
    pub uid: PolicyId,
    pub scope: KnowledgeScope,
    pub policy_key: Option<String>,
    pub title: String,
    pub rule_text: String,
    pub structured_rule: Option<String>,
    pub protection_class: ProtectionClass,
    pub priority_class: PriorityClass,
    pub status: PolicyStatus,
    pub provenance: Provenance,
    pub created_at: String,
    pub updated_at: String,
}

#[derive(Debug, Clone, Copy, PartialEq, Eq, Structural)]
pub enum DecisionStatus {
    Active,
    Superseded,
}

/// A choice that a Project made.
#[derive(Debug, Clone, PartialEq, Eq)]
pub struct Decision {
    pub uid: DecisionId,
    pub scope: KnowledgeScope,
    pub topic: String,
    pub chosen_summary: String,
    pub rationale: String,
    pub status: DecisionStatus,
    pub provenance: Provenance,
    pub created_at: String,
    pub updated_at: String,
}

/// Who a resolved rule speaks for.
#[derive(Debug, Clone, Copy, PartialEq, Eq, Structural)]
pub enum Origin {
    Request,
    User,
    Project,
}

/// Why a rule was selected.
#[derive(Debug, Clone, Copy, PartialEq, Eq, Structural)]
pub enum ResolutionReason {
    RequestExplicit,
    SelectedPolicy,
    SelectedDecision,
}

/// A rule that applies, with the layer that it applies from.
#[derive(Debug, Clone, PartialEq, Eq)]
pub struct Resolved<T> {
    pub item: T,
    pub origin: Origin,
    pub layer: usize,
    pub reason: ResolutionReason,
}

#[derive(Debug, Clone, Copy, PartialEq, Eq, Structural)]
pub enum ConflictKind {
    ProtectedOverrideRejected,
    SameLayerDisagreement,
}

#[derive(Debug, Clone, Copy, PartialEq, Eq, Structural)]
pub enum EvidenceCategory {
    Policy,
    Decision,
    Directive,
}

/// One side of a conflict.
#[derive(Debug, Clone, PartialEq, Eq)]
pub struct EvidenceRef {
    pub category: EvidenceCategory,
    pub id: String,
    pub origin: Origin,
    pub scope: KnowledgeScope,
    pub layer: usize,
    pub source_kind: Option<SourceKind>,
    pub status: Option<String>,
}

/// Rules that cannot all apply.
#[derive(Debug, Clone, PartialEq, Eq)]
pub struct KnowledgeConflict {
    pub kind: ConflictKind,
    pub subject: Option<String>,
    pub involved: Vec<EvidenceRef>,
}

// ---------------------------------------------------------------------
// Work
// ---------------------------------------------------------------------

/// How far a WorkItem has come, in the order of its vocabulary.
#[derive(Debug, Clone, Copy, PartialEq, Eq, Structural)]
pub enum WorkItemStatus {
    Open,
    Active,
    Blocked,
    Paused,
    Completed,
    Abandoned,
}

/// A piece of work that a Workspace keeps.
#[derive(Debug, Clone, PartialEq, Eq)]
pub struct WorkItem {
    pub id: WorkItemId,
    pub status: WorkItemStatus,
    pub title: String,
}

/// One hand-over of a WorkItem.
#[derive(Debug, Clone, PartialEq, Eq)]
pub struct WorkHandoff {
    pub work_item: WorkItemId,
    pub summary: String,
    pub created_at: String,
}

#[derive(Debug, Clone, Copy, PartialEq, Eq, Structural)]
pub enum DirtyObservation {
    Clean,
    Dirty,
    Unknown,
}

/// Where the work on a WorkItem stands.
#[derive(Debug, Clone, PartialEq, Eq)]
pub struct WorkingState {
    pub work_item: WorkItemId,
    pub baseline_workspace_revision: String,
    pub baseline_index_incarnation: Option<String>,
    pub baseline_generation_no: i64,
    pub baseline_head: Option<String>,
    pub baseline_dirty: DirtyObservation,
    pub current_step: Option<String>,
    pub progress_summary: Option<String>,
    pub remaining_summary: Option<String>,
    pub blocker_summary: Option<String>,
    pub owner_agent: Option<String>,
    pub last_observed_workspace_revision: String,
    pub updated_at: String,
}

#[derive(Debug, Clone, Copy, PartialEq, Eq, Structural)]
pub enum WorkResourceRole {
    Target,
    Touched,
}

/// Two WorkItems that share a Resource.
#[derive(Debug, Clone, PartialEq, Eq)]
pub struct WorkOverlap {
    pub other: WorkItemId,
    pub other_status: WorkItemStatus,
    pub resource: ResourceId,
    pub this_roles: Vec<WorkResourceRole>,
    pub other_roles: Vec<WorkResourceRole>,
}

#[derive(Debug, Clone, Copy, PartialEq, Eq, Structural)]
pub enum GenerationReferenceState {
    Current,
    Historical,
    HistoricalMissingOrReused,
}

/// A generation that a piece of work refers to.
#[derive(Debug, Clone, PartialEq, Eq)]
pub struct GenerationReference {
    pub index_incarnation: Option<String>,
    pub generation_no: i64,
    pub workspace_revision: String,
    pub state: GenerationReferenceState,
}

#[derive(Debug, Clone, Copy, PartialEq, Eq, Structural)]
pub enum Staleness {
    Fresh,
    PossiblyStale,
}

/// What a policy replaced, and what replaced it.
#[derive(Debug, Clone, PartialEq, Eq)]
pub struct PolicyLineage {
    pub policy: Policy,
    pub supersedes: Vec<PolicyId>,
    pub superseded_by: Vec<PolicyId>,
}

/// What a decision replaced, and what replaced it.
#[derive(Debug, Clone, PartialEq, Eq)]
pub struct DecisionLineage {
    pub decision: Decision,
    pub supersedes: Vec<DecisionId>,
    pub superseded_by: Vec<DecisionId>,
}

/// Failure reading what is kept.
#[derive(Debug, Clone, PartialEq, Eq)]
pub enum KnowledgeError {
    NotFound { what: String, id: String },
    Failed { detail: String },
}

/// Failure reading a piece of work.
#[derive(Debug, Clone, PartialEq, Eq)]
pub enum WorkError {
    MissingDatabase { db: String },
    UnboundWorkspace { db: String },
    WorkspaceMismatch { db: String, expected: WorkspaceId, found: WorkspaceId },
    Knowledge(KnowledgeError),
    Failed { detail: String },
}

} // verus!
