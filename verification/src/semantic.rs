//! What a semantic backend establishes, and under which identity.

use vstd::prelude::*;

use crate::fingerprint::{fingerprint, fingerprint_text, Fields};
use crate::graph::{endpoints_view, EndpointView, GraphEndpoint, RelationKind, UnresolvedReason};
use crate::model::{OccurrenceRef, ResourceId, ResourceLanguage, WorkspaceId};
use crate::text::{optional_chars, Chars};

verus! {

/// How well something is covered.
#[derive(Debug, Clone, Copy, PartialEq, Eq, Structural)]
pub enum Support {
    Supported,
    Partial,
    Unsupported,
}

/// Whether the target of a call is known to be what runs.
#[derive(Debug, Clone, Copy, PartialEq, Eq, Structural)]
pub enum Dispatch {
    Static,
    Unknown,
}

/// What a semantic backend may be able to answer.
#[derive(Debug, Clone, Copy, PartialEq, Eq, Structural)]
pub enum SemanticCapability {
    ResourceDiscovery,
    ImportBinding,
    AliasResolution,
    ReexportResolution,
    ExternalSymbolResolution,
    SymbolDefinition,
    References,
    CallsIntraFile,
    CallsCrossFile,
    StaticDispatchTarget,
    TypeResolution,
    Inheritance,
    Overrides,
    Implements,
    ImplementationTarget,
}

/// What became of a site.
#[derive(Debug, PartialEq, Eq)]
pub enum SemanticOutcome {
    Resolved { target: GraphEndpoint },
    /// Several targets, and nothing that chooses.
    Candidates { targets: Vec<GraphEndpoint> },
    Unresolved { reason: UnresolvedReason },
}

pub ghost enum OutcomeView {
    Resolved(EndpointView),
    Candidates(Seq<EndpointView>),
    Unresolved(UnresolvedReason),
}

impl View for SemanticOutcome {
    type V = OutcomeView;

    open spec fn view(&self) -> OutcomeView {
        match self {
            SemanticOutcome::Resolved { target } => OutcomeView::Resolved(target@),
            SemanticOutcome::Candidates { targets } => OutcomeView::Candidates(
                endpoints_view(targets@),
            ),
            SemanticOutcome::Unresolved { reason } => OutcomeView::Unresolved(*reason),
        }
    }
}

/// What a piece of evidence was produced from.
#[derive(Debug, PartialEq, Eq)]
pub struct EvidenceBasis {
    pub owner_resource: ResourceId,
    pub owner_resource_revision: String,
    pub generation_id: i64,
    pub analysis_profile_id: i64,
    pub resolution_context_key: Option<String>,
}

pub ghost struct BasisView {
    pub owner_resource: ResourceId,
    pub owner_resource_revision: Chars,
    pub generation_id: i64,
    pub analysis_profile_id: i64,
    pub resolution_context_key: Option<Chars>,
}

impl View for EvidenceBasis {
    type V = BasisView;

    open spec fn view(&self) -> BasisView {
        BasisView {
            owner_resource: self.owner_resource,
            owner_resource_revision: self.owner_resource_revision@,
            generation_id: self.generation_id,
            analysis_profile_id: self.analysis_profile_id,
            resolution_context_key: optional_chars(self.resolution_context_key),
        }
    }
}

/// One thing that a backend established about one site.
#[derive(Debug, PartialEq, Eq)]
pub struct SemanticEvidence {
    pub context_key: String,
    pub capability: SemanticCapability,
    pub relation_kind: Option<RelationKind>,
    pub basis: EvidenceBasis,
    pub occurrence: Option<OccurrenceRef>,
    pub source: Option<GraphEndpoint>,
    pub outcome: SemanticOutcome,
    pub support: Support,
    pub dispatch: Dispatch,
}

pub ghost struct EvidenceView {
    pub context_key: Chars,
    pub capability: SemanticCapability,
    pub relation_kind: Option<RelationKind>,
    pub basis: BasisView,
    pub occurrence: Option<OccurrenceRef>,
    pub source: Option<EndpointView>,
    pub outcome: OutcomeView,
    pub support: Support,
    pub dispatch: Dispatch,
}

pub open spec fn optional_endpoint(endpoint: Option<GraphEndpoint>) -> Option<EndpointView> {
    match endpoint {
        Some(held) => Some(held@),
        None => None,
    }
}

impl View for SemanticEvidence {
    type V = EvidenceView;

    open spec fn view(&self) -> EvidenceView {
        EvidenceView {
            context_key: self.context_key@,
            capability: self.capability,
            relation_kind: self.relation_kind,
            basis: self.basis@,
            occurrence: self.occurrence,
            source: optional_endpoint(self.source),
            outcome: self.outcome@,
            support: self.support,
            dispatch: self.dispatch,
        }
    }
}

/// What pieces of evidence say, in order.
pub open spec fn evidence_view(evidence: Seq<SemanticEvidence>) -> Seq<EvidenceView> {
    evidence.map_values(|item: SemanticEvidence| item@)
}

// ---------------------------------------------------------------------
// Contexts and capabilities
// ---------------------------------------------------------------------

/// The toolchain that a semantic result depends on.
#[derive(Debug, PartialEq, Eq)]
pub struct ToolchainIdentity {
    pub backend_version: String,
    pub backend_compatibility_class: String,
    pub environment_fingerprint: String,
}

/// What one analysis is of: a Workspace, a language, a project root and a
/// toolchain.
#[derive(Debug, PartialEq, Eq)]
pub struct AnalysisContext {
    pub workspace: WorkspaceId,
    pub language: ResourceLanguage,
    pub project_root: String,
    pub toolchain: ToolchainIdentity,
}

/// The fields that a context key is made of.
pub open spec fn context_fields(context: AnalysisContext) -> Fields {
    seq![
        ("workspace"@, crate::text::decimal(context.workspace.value as int)),
        ("language"@, language_name(context.language)),
        ("project_root"@, context.project_root@),
        ("backend_version"@, context.toolchain.backend_version@),
        ("backend_class"@, context.toolchain.backend_compatibility_class@),
        ("environment"@, context.toolchain.environment_fingerprint@),
    ]
}

pub open spec fn language_name(language: ResourceLanguage) -> Chars {
    match language {
        ResourceLanguage::Python => "PYTHON"@,
        ResourceLanguage::Rust => "RUST"@,
        ResourceLanguage::TypeScript => "TYPESCRIPT"@,
        ResourceLanguage::JavaScript => "JAVASCRIPT"@,
        ResourceLanguage::Svelte => "SVELTE"@,
    }
}

fn language_text(language: ResourceLanguage) -> (name: &'static str)
    ensures
        name@ == language_name(language),
{
    match language {
        ResourceLanguage::Python => "PYTHON",
        ResourceLanguage::Rust => "RUST",
        ResourceLanguage::TypeScript => "TYPESCRIPT",
        ResourceLanguage::JavaScript => "JAVASCRIPT",
        ResourceLanguage::Svelte => "SVELTE",
    }
}

impl AnalysisContext {
    /// The key that everything published under this context is kept by.
    pub open spec fn key(&self) -> Chars {
        fingerprint_text("analysis-context-1"@, context_fields(*self))
    }

    /// The key that everything published under this context is kept by.
    pub fn context_key(&self) -> (key: String)
        ensures
            key@ == self.key(),
    {
        let workspace = crate::text::wide_text(self.workspace.value);
        let fields: [(&str, &str); 6] = [
            ("workspace", workspace.as_str()),
            ("language", language_text(self.language)),
            ("project_root", self.project_root.as_str()),
            ("backend_version", self.toolchain.backend_version.as_str()),
            ("backend_class", self.toolchain.backend_compatibility_class.as_str()),
            ("environment", self.toolchain.environment_fingerprint.as_str()),
        ];
        assert(crate::fingerprint::fields_view(fields@) =~= context_fields(*self));
        fingerprint("analysis-context-1", fields.as_slice())
    }
}

/// What a backend answers, capability by capability.
#[derive(Debug, PartialEq, Eq)]
pub struct CapabilityReport {
    declared: Vec<(SemanticCapability, Support)>,
}

/// The last support declared for a capability; an undeclared one is
/// unsupported.
pub open spec fn declared_support(
    declared: Seq<(SemanticCapability, Support)>,
    capability: SemanticCapability,
) -> Support
    decreases declared.len(),
{
    if declared.len() == 0 {
        Support::Unsupported
    } else if declared.last().0 == capability {
        declared.last().1
    } else {
        declared_support(declared.drop_last(), capability)
    }
}

pub open spec fn capability_name(capability: SemanticCapability) -> Chars {
    match capability {
        SemanticCapability::ResourceDiscovery => "ResourceDiscovery"@,
        SemanticCapability::ImportBinding => "ImportBinding"@,
        SemanticCapability::AliasResolution => "AliasResolution"@,
        SemanticCapability::ReexportResolution => "ReexportResolution"@,
        SemanticCapability::ExternalSymbolResolution => "ExternalSymbolResolution"@,
        SemanticCapability::SymbolDefinition => "SymbolDefinition"@,
        SemanticCapability::References => "References"@,
        SemanticCapability::CallsIntraFile => "CallsIntraFile"@,
        SemanticCapability::CallsCrossFile => "CallsCrossFile"@,
        SemanticCapability::StaticDispatchTarget => "StaticDispatchTarget"@,
        SemanticCapability::TypeResolution => "TypeResolution"@,
        SemanticCapability::Inheritance => "Inheritance"@,
        SemanticCapability::Overrides => "Overrides"@,
        SemanticCapability::Implements => "Implements"@,
        SemanticCapability::ImplementationTarget => "ImplementationTarget"@,
    }
}

pub fn capability_text(capability: SemanticCapability) -> (name: &'static str)
    ensures
        name@ == capability_name(capability),
{
    match capability {
        SemanticCapability::ResourceDiscovery => "ResourceDiscovery",
        SemanticCapability::ImportBinding => "ImportBinding",
        SemanticCapability::AliasResolution => "AliasResolution",
        SemanticCapability::ReexportResolution => "ReexportResolution",
        SemanticCapability::ExternalSymbolResolution => "ExternalSymbolResolution",
        SemanticCapability::SymbolDefinition => "SymbolDefinition",
        SemanticCapability::References => "References",
        SemanticCapability::CallsIntraFile => "CallsIntraFile",
        SemanticCapability::CallsCrossFile => "CallsCrossFile",
        SemanticCapability::StaticDispatchTarget => "StaticDispatchTarget",
        SemanticCapability::TypeResolution => "TypeResolution",
        SemanticCapability::Inheritance => "Inheritance",
        SemanticCapability::Overrides => "Overrides",
        SemanticCapability::Implements => "Implements",
        SemanticCapability::ImplementationTarget => "ImplementationTarget",
    }
}

pub open spec fn support_name(support: Support) -> Chars {
    match support {
        Support::Supported => "SUPPORTED"@,
        Support::Partial => "PARTIAL"@,
        Support::Unsupported => "UNSUPPORTED"@,
    }
}

fn support_text(support: Support) -> (name: &'static str)
    ensures
        name@ == support_name(support),
{
    match support {
        Support::Supported => "SUPPORTED",
        Support::Partial => "PARTIAL",
        Support::Unsupported => "UNSUPPORTED",
    }
}

/// The fields that declarations are.
pub open spec fn declaration_fields(declared: Seq<(SemanticCapability, Support)>) -> Fields {
    declared.map_values(
        |declaration: (SemanticCapability, Support)|
            (capability_name(declaration.0), support_name(declaration.1)),
    )
}

impl CapabilityReport {
    /// The declarations, in the order they were made.
    pub closed spec fn declared(&self) -> Seq<(SemanticCapability, Support)> {
        self.declared@
    }

    /// What the fingerprint of the report is.
    pub open spec fn identity(&self) -> Chars {
        fingerprint_text("semantic-capabilities-1"@, declaration_fields(self.declared()))
    }

    pub fn fingerprint(&self) -> (text: String)
        ensures
            text@ == self.identity(),
    {
        let mut fields: Vec<(&str, &str)> = Vec::new();
        let mut at: usize = 0;
        while at < self.declared.len()
            invariant
                at <= self.declared@.len(),
                fields@.len() == at,
                forall|i: int|
                    0 <= i < at ==> (#[trigger] fields@[i]).0@ == capability_name(
                        self.declared@[i].0,
                    ) && fields@[i].1@ == support_name(self.declared@[i].1),
            decreases self.declared@.len() - at,
        {
            fields.push((capability_text(self.declared[at].0), support_text(self.declared[at].1)));
            at = at + 1;
        }
        assert(crate::fingerprint::fields_view(fields@) =~= declaration_fields(self.declared@));
        fingerprint("semantic-capabilities-1", fields.as_slice())
    }

    /// A report that declares nothing.
    pub fn new() -> (report: Self)
        ensures
            report.declared().len() == 0,
    {
        CapabilityReport { declared: Vec::new() }
    }

    /// Declare the support of a capability.
    pub fn declare(&mut self, capability: SemanticCapability, support: Support)
        ensures
            final(self).declared() == old(self).declared().push((capability, support)),
    {
        self.declared.push((capability, support));
    }

    /// The declared support of a capability.
    pub fn support(&self, capability: SemanticCapability) -> (support: Support)
        ensures
            support == declared_support(self.declared(), capability),
    {
        let mut at: usize = self.declared.len();
        assert(self.declared@.take(at as int) =~= self.declared@);
        while at > 0
            invariant
                at <= self.declared@.len(),
                declared_support(self.declared@, capability) == declared_support(
                    self.declared@.take(at as int),
                    capability,
                ),
            decreases at,
        {
            assert(self.declared@.take(at as int).drop_last() =~= self.declared@.take(at - 1));
            if self.declared[at - 1].0 == capability {
                return self.declared[at - 1].1;
            }
            at = at - 1;
        }
        Support::Unsupported
    }
}

} // verus!
