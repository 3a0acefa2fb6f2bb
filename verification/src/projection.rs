//! What a request for a projection asks, and whether it may be asked.

use std::collections::BTreeSet;

use vstd::prelude::*;

use crate::evidence::EvidenceItem;
use crate::graph::GraphEndpoint;
use crate::knowledge::{
    base_layers, check_directives, directives_refused, in_layers, layer_refused, layers_view,
    scopes_view, ApplicabilityContext, KnowledgeScope, RequestDirective, ResolveError,
    ResolveErrorView, ScopeView,
};
use crate::model::{ResourceId, ResourceLanguage, SymbolId, SymbolKind, WorkItemId, WorkspaceId};
use crate::query::{ResourceLocator, ResourceScope, SymbolQuery, SymbolSelector};
use crate::text::Chars;

verus! {

// ---------------------------------------------------------------------
// Targets
// ---------------------------------------------------------------------

/// A Resource, as a request names it.
#[derive(Debug, Clone, PartialEq, Eq)]
pub enum ResourceTarget {
    Id(ResourceId),
    Path(String),
    /// Possibly several: never taken for a path.
    Basename(String),
    PathPrefix(String),
}

impl ResourceTarget {
    /// The same locator, as the query takes it.
    pub fn locator(&self) -> (locator: ResourceLocator<'_>)
        ensures
            match *self {
                ResourceTarget::Id(id) => locator == ResourceLocator::Id(id),
                ResourceTarget::Path(path) => locator matches ResourceLocator::Path(held) && held@
                    == path@,
                ResourceTarget::Basename(name) => locator matches ResourceLocator::Basename(held)
                    && held@ == name@,
                ResourceTarget::PathPrefix(prefix) => locator matches ResourceLocator::PathPrefix(
                    held,
                ) && held@ == prefix@,
            },
    {
        match self {
            ResourceTarget::Id(id) => ResourceLocator::Id(*id),
            ResourceTarget::Path(path) => ResourceLocator::Path(path.as_str()),
            ResourceTarget::Basename(name) => ResourceLocator::Basename(name.as_str()),
            ResourceTarget::PathPrefix(prefix) => ResourceLocator::PathPrefix(prefix.as_str()),
        }
    }
}

/// A Symbol's name, as a request gives it.
#[derive(Debug, Clone, PartialEq, Eq)]
pub enum SymbolName {
    Id(SymbolId),
    QualifiedName(String),
    Name(String),
    PartialName(String),
}

/// A Symbol, as a request names it.
#[derive(Debug, Clone, PartialEq, Eq)]
pub struct SymbolTarget {
    pub name: SymbolName,
    pub resource: Option<ResourceId>,
    pub kind: Option<SymbolKind>,
    pub language: Option<ResourceLanguage>,
}

/// The selector means what the name says.
pub open spec fn selects(selector: SymbolSelector, name: SymbolName) -> bool {
    match name {
        SymbolName::Id(id) => selector == SymbolSelector::Id(id),
        SymbolName::QualifiedName(text) => selector matches SymbolSelector::QualifiedName(held)
            && held@ == text@,
        SymbolName::Name(text) => selector matches SymbolSelector::Name(held) && held@ == text@,
        SymbolName::PartialName(text) => selector matches SymbolSelector::PartialName(held)
            && held@ == text@,
    }
}

impl SymbolTarget {
    /// A target with no narrowing beyond its name.
    pub fn new(name: SymbolName) -> (target: Self)
        ensures
            target == (SymbolTarget { name, resource: None, kind: None, language: None }),
    {
        SymbolTarget { name, resource: None, kind: None, language: None }
    }

    /// The same search, as the query takes it. The query's own limit
    /// applies.
    pub fn query(&self) -> (query: SymbolQuery<'_>)
        ensures
            selects(query.selector, self.name),
            match self.resource {
                Some(resource) => query.scope == Some(ResourceScope::Id(resource)),
                None => query.scope is None,
            },
            query.kind == self.kind,
            query.language == self.language,
            query.limit is None,
    {
        let selector = match &self.name {
            SymbolName::Id(id) => SymbolSelector::Id(*id),
            SymbolName::QualifiedName(text) => SymbolSelector::QualifiedName(text.as_str()),
            SymbolName::Name(text) => SymbolSelector::Name(text.as_str()),
            SymbolName::PartialName(text) => SymbolSelector::PartialName(text.as_str()),
        };
        let scope = match self.resource {
            Some(resource) => Some(ResourceScope::Id(resource)),
            None => None,
        };
        SymbolQuery { selector, scope, kind: self.kind, language: self.language, limit: None }
    }
}

/// What a request is about.
#[derive(Debug, Clone, PartialEq, Eq)]
pub enum ProjectionTarget {
    Resource(ResourceTarget),
    Symbol(SymbolTarget),
    /// An identity that is exact already.
    Endpoint(GraphEndpoint),
}

/// The target selects by a text that is empty.
pub open spec fn selects_nothing(target: ProjectionTarget) -> bool {
    match target {
        ProjectionTarget::Resource(ResourceTarget::Path(text)) => text@.len() == 0,
        ProjectionTarget::Resource(ResourceTarget::Basename(text)) => text@.len() == 0,
        ProjectionTarget::Resource(ResourceTarget::PathPrefix(text)) => text@.len() == 0,
        ProjectionTarget::Symbol(symbol) => match symbol.name {
            SymbolName::Id(_) => false,
            SymbolName::QualifiedName(text) => text@.len() == 0,
            SymbolName::Name(text) => text@.len() == 0,
            SymbolName::PartialName(text) => text@.len() == 0,
        },
        _ => false,
    }
}

fn has_empty_selector(target: &ProjectionTarget) -> (empty: bool)
    ensures
        empty == selects_nothing(*target),
{
    match target {
        ProjectionTarget::Resource(resource) => match resource {
            ResourceTarget::Id(_) => false,
            ResourceTarget::Path(text) => text.as_str().unicode_len() == 0,
            ResourceTarget::Basename(text) => text.as_str().unicode_len() == 0,
            ResourceTarget::PathPrefix(text) => text.as_str().unicode_len() == 0,
        },
        ProjectionTarget::Symbol(symbol) => match &symbol.name {
            SymbolName::Id(_) => false,
            SymbolName::QualifiedName(text) => text.as_str().unicode_len() == 0,
            SymbolName::Name(text) => text.as_str().unicode_len() == 0,
            SymbolName::PartialName(text) => text.as_str().unicode_len() == 0,
        },
        ProjectionTarget::Endpoint(_) => false,
    }
}

// ---------------------------------------------------------------------
// Intents
// ---------------------------------------------------------------------

/// The forms of a change that impact is traced for.
#[derive(Debug, Clone, Copy, PartialEq, Eq, Structural)]
pub enum ImpactIntent {
    PublicSignatureChange,
    Rename,
    ModuleMove,
    BaseInterfaceChange,
}

/// The form of a declared change.
#[derive(Debug, Clone, Copy, PartialEq, Eq, Structural)]
pub enum ChangeKind {
    Form(ImpactIntent),
    Delete,
    DomainContractChange,
}

/// What a projection is for.
#[derive(Debug, Clone, Copy, PartialEq, Eq, Structural)]
pub enum ProjectionIntent {
    Locate,
    Understand,
    Change(Option<ChangeKind>),
    Impact(ChangeKind),
    ResumeHandoff,
}

// ---------------------------------------------------------------------
// Correlation
// ---------------------------------------------------------------------

/// Who asks, as the client tells it. It is opaque: it adds no scope, no
/// authority and no target.
#[derive(Debug, Clone, Default, PartialEq, Eq)]
pub struct ProjectionCorrelation {
    pub client_id: Option<String>,
    pub session_id: Option<String>,
    pub external_task_id: Option<String>,
    pub external_subtask_id: Option<String>,
    pub role_hint: Option<String>,
    pub team_hint: Option<String>,
    pub persona_traits: BTreeSet<String>,
}

/// An id of a correlation.
#[derive(Debug, Clone, Copy, PartialEq, Eq, Structural)]
pub enum CorrelationField {
    ClientId,
    SessionId,
    ExternalTaskId,
    ExternalSubtaskId,
}

/// An id was supplied, and it is empty.
pub open spec fn supplied_empty(id: Option<String>) -> bool {
    match id {
        Some(text) => text@.len() == 0,
        None => false,
    }
}

/// The first id that was supplied empty.
pub open spec fn empty_id(correlation: ProjectionCorrelation) -> Option<CorrelationField> {
    if supplied_empty(correlation.client_id) {
        Some(CorrelationField::ClientId)
    } else if supplied_empty(correlation.session_id) {
        Some(CorrelationField::SessionId)
    } else if supplied_empty(correlation.external_task_id) {
        Some(CorrelationField::ExternalTaskId)
    } else if supplied_empty(correlation.external_subtask_id) {
        Some(CorrelationField::ExternalSubtaskId)
    } else {
        None
    }
}

fn is_supplied_empty(id: &Option<String>) -> (empty: bool)
    ensures
        empty == supplied_empty(*id),
{
    match id {
        Some(text) => text.as_str().unicode_len() == 0,
        None => false,
    }
}

fn first_empty_id(correlation: &ProjectionCorrelation) -> (found: Option<CorrelationField>)
    ensures
        found == empty_id(*correlation),
{
    if is_supplied_empty(&correlation.client_id) {
        Some(CorrelationField::ClientId)
    } else if is_supplied_empty(&correlation.session_id) {
        Some(CorrelationField::SessionId)
    } else if is_supplied_empty(&correlation.external_task_id) {
        Some(CorrelationField::ExternalTaskId)
    } else if is_supplied_empty(&correlation.external_subtask_id) {
        Some(CorrelationField::ExternalSubtaskId)
    } else {
        None
    }
}

// ---------------------------------------------------------------------
// Requests
// ---------------------------------------------------------------------

/// The blueprints that a request refers to, by their keys.
#[derive(Debug, Clone, Default, PartialEq, Eq)]
pub struct ProjectionKnowledgeRefs {
    pub blueprints: Vec<String>,
}

/// Why a request may not be asked.
#[derive(Debug, Clone, PartialEq, Eq)]
pub enum ProjectionRequestError {
    MissingTarget,
    MissingWorkItem,
    EmptySelector,
    EmptyCorrelationId(CorrelationField),
    InvalidScopeLayer(ResolveError),
    InvalidDirective(ResolveError),
    DirectiveOutsideApplicability { directive_id: String },
}

pub ghost enum RequestErrorView {
    MissingTarget,
    MissingWorkItem,
    EmptySelector,
    EmptyCorrelationId(CorrelationField),
    InvalidScopeLayer(ResolveErrorView),
    InvalidDirective(ResolveErrorView),
    DirectiveOutsideApplicability(Chars),
}

impl View for ProjectionRequestError {
    type V = RequestErrorView;

    open spec fn view(&self) -> RequestErrorView {
        match self {
            ProjectionRequestError::MissingTarget => RequestErrorView::MissingTarget,
            ProjectionRequestError::MissingWorkItem => RequestErrorView::MissingWorkItem,
            ProjectionRequestError::EmptySelector => RequestErrorView::EmptySelector,
            ProjectionRequestError::EmptyCorrelationId(
                field,
            ) => RequestErrorView::EmptyCorrelationId(*field),
            ProjectionRequestError::InvalidScopeLayer(error) => RequestErrorView::InvalidScopeLayer(
                error@,
            ),
            ProjectionRequestError::InvalidDirective(error) => RequestErrorView::InvalidDirective(
                error@,
            ),
            ProjectionRequestError::DirectiveOutsideApplicability {
                directive_id,
            } => RequestErrorView::DirectiveOutsideApplicability(directive_id@),
        }
    }
}

/// The layers, each added in its turn, or why one cannot be.
pub open spec fn layers_after(
    base: Seq<Seq<ScopeView>>,
    more: Seq<Seq<ScopeView>>,
) -> Result<Seq<Seq<ScopeView>>, Chars>
    decreases more.len(),
{
    if more.len() == 0 {
        Ok(base)
    } else {
        match layer_refused(base, more[0]) {
            Some(detail) => Err(detail),
            None => layers_after(base.push(more[0]), more.skip(1)),
        }
    }
}

/// The id of the first directive whose scope is in no layer.
pub open spec fn outside(
    layers: Seq<Seq<ScopeView>>,
    directives: Seq<RequestDirective>,
) -> Option<Chars>
    decreases directives.len(),
{
    if directives.len() == 0 {
        None
    } else if !in_layers(layers, directives[0].scope@) {
        Some(directives[0].id@)
    } else {
        outside(layers, directives.skip(1))
    }
}

/// What applies to a request, or why it may not be asked.
pub open spec fn applicability(
    workspace: WorkspaceId,
    scope_layers: Seq<Seq<ScopeView>>,
    directives: Seq<RequestDirective>,
    correlation: Option<ProjectionCorrelation>,
) -> Result<Seq<Seq<ScopeView>>, RequestErrorView> {
    if correlation is Some && empty_id(correlation->0) is Some {
        Err(RequestErrorView::EmptyCorrelationId(empty_id(correlation->0)->0))
    } else {
        match layers_after(base_layers(Some(workspace)), scope_layers) {
            Err(detail) => Err(
                RequestErrorView::InvalidScopeLayer(ResolveErrorView::InvalidContext(detail)),
            ),
            Ok(layers) => match directives_refused(directives) {
                Some(detail) => Err(
                    RequestErrorView::InvalidDirective(ResolveErrorView::InvalidRequest(detail)),
                ),
                None => match outside(layers, directives) {
                    Some(id) => Err(RequestErrorView::DirectiveOutsideApplicability(id)),
                    None => Ok(layers),
                },
            },
        }
    }
}

/// A copy of scopes.
fn copy_scopes(scopes: &Vec<KnowledgeScope>) -> (copy: Vec<KnowledgeScope>)
    ensures
        copy@ == scopes@,
{
    let mut copy: Vec<KnowledgeScope> = Vec::new();
    let mut at: usize = 0;
    while at < scopes.len()
        invariant
            at <= scopes@.len(),
            copy@ == scopes@.take(at as int),
        decreases scopes@.len() - at,
    {
        copy.push(scopes[at].clone());
        assert(scopes@.take(at + 1) =~= scopes@.take(at as int).push(scopes@[at as int]));
        at = at + 1;
    }
    assert(scopes@.take(at as int) =~= scopes@);
    copy
}

/// What applies to a request. Nothing is added to make a directive fit.
pub fn validate_applicability(
    workspace: WorkspaceId,
    scope_layers: &[Vec<KnowledgeScope>],
    directives: &[RequestDirective],
    correlation: &Option<ProjectionCorrelation>,
) -> (outcome: Result<ApplicabilityContext, ProjectionRequestError>)
    ensures
        match applicability(workspace, layers_view(scope_layers@), directives@, *correlation) {
            Ok(layers) => outcome matches Ok(context) && context.wf() && context@ == layers,
            Err(error) => outcome is Err && outcome->Err_0@ == error,
        },
{
    if let Some(supplied) = correlation {
        if let Some(field) = first_empty_id(supplied) {
            return Err(ProjectionRequestError::EmptyCorrelationId(field));
        }
    }
    let ghost all = layers_view(scope_layers@);
    let ghost whole = layers_after(base_layers(Some(workspace)), all);
    let mut context = ApplicabilityContext::base(Some(workspace));
    let mut at: usize = 0;
    assert(all.skip(0) =~= all);
    while at < scope_layers.len()
        invariant
            at <= scope_layers@.len(),
            all == layers_view(scope_layers@),
            context.wf(),
            !(*correlation is Some && empty_id((*correlation)->0) is Some),
            whole == layers_after(base_layers(Some(workspace)), all),
            whole == layers_after(context@, all.skip(at as int)),
        decreases scope_layers@.len() - at,
    {
        let layer = copy_scopes(&scope_layers[at]);
        assert(all.skip(at as int)[0] == scopes_view(layer@));
        assert(all.skip(at as int).skip(1) =~= all.skip(at + 1));
        match context.with_layer(layer) {
            Ok(next) => {
                context = next;
            },
            Err(error) => {
                return Err(ProjectionRequestError::InvalidScopeLayer(error));
            },
        }
        at = at + 1;
    }
    if let Err(error) = check_directives(directives) {
        return Err(ProjectionRequestError::InvalidDirective(error));
    }
    let ghost missing = outside(context@, directives@);
    let mut next: usize = 0;
    assert(directives@.skip(0) =~= directives@);
    while next < directives.len()
        invariant
            next <= directives@.len(),
            !(*correlation is Some && empty_id((*correlation)->0) is Some),
            whole == layers_after(base_layers(Some(workspace)), layers_view(scope_layers@)),
            whole == Ok::<Seq<Seq<ScopeView>>, Chars>(context@),
            directives_refused(directives@) is None,
            missing == outside(context@, directives@),
            missing == outside(context@, directives@.skip(next as int)),
        decreases directives@.len() - next,
    {
        assert(directives@.skip(next as int)[0] == directives@[next as int]);
        assert(directives@.skip(next as int).skip(1) =~= directives@.skip(next + 1));
        if context.layer_of(&directives[next].scope).is_none() {
            return Err(
                ProjectionRequestError::DirectiveOutsideApplicability {
                    directive_id: directives[next].id.clone(),
                },
            );
        }
        next = next + 1;
    }
    Ok(context)
}

/// One request for a projection. The Workspace is its only identity.
#[derive(Debug, Clone, PartialEq, Eq)]
pub struct ProjectionRequest {
    pub workspace: WorkspaceId,
    pub intent: ProjectionIntent,
    pub target: Option<ProjectionTarget>,
    pub work_item: Option<WorkItemId>,
    pub scope_layers: Vec<Vec<KnowledgeScope>>,
    pub directives: Vec<RequestDirective>,
    pub knowledge: ProjectionKnowledgeRefs,
    pub correlation: Option<ProjectionCorrelation>,
}

/// What a request names is missing, if it is.
pub open spec fn incomplete(request: ProjectionRequest) -> Option<RequestErrorView> {
    if request.intent is ResumeHandoff {
        if request.work_item is None {
            Some(RequestErrorView::MissingWorkItem)
        } else if request.target is Some && selects_nothing(request.target->0) {
            Some(RequestErrorView::EmptySelector)
        } else {
            None
        }
    } else if request.target is None {
        Some(RequestErrorView::MissingTarget)
    } else if selects_nothing(request.target->0) {
        Some(RequestErrorView::EmptySelector)
    } else {
        None
    }
}

impl ProjectionRequest {
    /// A request that names nothing but its Workspace and its intent.
    pub fn new(workspace: WorkspaceId, intent: ProjectionIntent) -> (request: Self)
        ensures
            request.workspace == workspace,
            request.intent == intent,
            request.target is None,
            request.work_item is None,
            request.scope_layers@.len() == 0,
            request.directives@.len() == 0,
            request.knowledge.blueprints@.len() == 0,
            request.correlation is None,
    {
        ProjectionRequest {
            workspace,
            intent,
            target: None,
            work_item: None,
            scope_layers: Vec::new(),
            directives: Vec::new(),
            knowledge: ProjectionKnowledgeRefs { blueprints: Vec::new() },
            correlation: None,
        }
    }

    /// What applies to the request, or why it may not be asked.
    pub fn validate(&self) -> (outcome: Result<ApplicabilityContext, ProjectionRequestError>)
        ensures
            match incomplete(*self) {
                Some(error) => outcome is Err && outcome->Err_0@ == error,
                None => match applicability(
                    self.workspace,
                    layers_view(self.scope_layers@),
                    self.directives@,
                    self.correlation,
                ) {
                    Ok(layers) => outcome matches Ok(context) && context.wf() && context@ == layers,
                    Err(error) => outcome is Err && outcome->Err_0@ == error,
                },
            },
    {
        match self.intent {
            ProjectionIntent::ResumeHandoff => {
                if self.work_item.is_none() {
                    return Err(ProjectionRequestError::MissingWorkItem);
                }
            },
            _ => {
                if self.target.is_none() {
                    return Err(ProjectionRequestError::MissingTarget);
                }
            },
        }
        if let Some(target) = &self.target {
            if has_empty_selector(target) {
                return Err(ProjectionRequestError::EmptySelector);
            }
        }
        validate_applicability(
            self.workspace,
            self.scope_layers.as_slice(),
            self.directives.as_slice(),
            &self.correlation,
        )
    }
}

/// Who asks changes nothing of what applies, beyond the ids that it may not
/// leave empty.
pub proof fn lemma_correlation_is_opaque(
    workspace: WorkspaceId,
    scope_layers: Seq<Seq<ScopeView>>,
    directives: Seq<RequestDirective>,
    correlation: ProjectionCorrelation,
)
    requires
        empty_id(correlation) is None,
    ensures
        applicability(workspace, scope_layers, directives, Some(correlation)) == applicability(
            workspace,
            scope_layers,
            directives,
            None,
        ),
{
}

// ---------------------------------------------------------------------
// Projections
// ---------------------------------------------------------------------

/// What a projection could not show.
#[derive(Debug, Clone, PartialEq, Eq)]
pub enum ProjectionGap {
    TargetAmbiguous,
    /// A search selector matched once.
    TargetNotExact,
    TargetNotFound,
    TargetNotFoundWithIncompleteCoverage,
    TargetNotCurrent,
    BlueprintNotApplied { blueprint: String },
}

/// A projection, before it is delivered.
#[derive(Debug, Clone, PartialEq, Eq)]
pub struct PreparedProjection {
    /// The one thing that the target is, where it is exactly one.
    pub target: Option<GraphEndpoint>,
    pub evidence: Vec<EvidenceItem>,
    pub gaps: Vec<ProjectionGap>,
}

} // verus!
