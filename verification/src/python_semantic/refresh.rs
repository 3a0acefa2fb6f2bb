//! Refreshing one Resource's semantic contribution: what it depends on,
//! what is collected, and what is published.

use vstd::prelude::*;

use crate::fingerprint::{
    fields_view, fingerprint, fingerprint_text, lemma_fingerprint_identifies_its_inputs, Fields,
};
use crate::graph::{GraphEndpoint, PersistedUnresolved, UnresolvedReason};
use crate::index_tables::{
    generations_view, in_order, GenerationRecord, GenerationState, GenerationView, IndexTables,
    TablesView,
};
use crate::model::{
    Occurrence, OccurrenceRef, Resource, ResourceId, ResourceLanguage, ResourceState, SymbolId,
};
use crate::paths::{join_path, path_join};
use crate::python_semantic::adapter::{
    ascending, declared_overrides, declares_override, decorators_asked, decorators_stopped,
    established_by, owner_uri_of, produces, reads_after_lists, resolve_resource, stopped,
    transcript, AnswerView, DecoratorSite, DeferredGap, RequestView, ResourceEvidence,
    ResourceRequest,
};
use crate::python_semantic::batch::{
    all_attempted, attempted, decided_by, ended_at_snapshot, exchanged, paths_answered, run_batch,
    search_paths, Attempt, BatchBody, BatchPolicy,
};
use crate::python_semantic::conversation::{
    batch_answer, batch_words, coherent, genuine, Batch, BatchError, Conversation, Exchange,
    PythonQueries,
};
use crate::python_semantic::environment::EnvironmentIdentity;
use crate::python_semantic::host::{settings_inputs, PythonSettings};
use crate::python_semantic::launcher::PyrightInstall;
use crate::python_semantic::normalize::{
    import_roots, reads_view, Normalizer, Reads, SourceText, SymbolAnchor, WorkspaceFacts,
};
use crate::python_semantic::protocol::{
    LocationView, PythonRequest, PythonResponse, COMPATIBILITY_CLASS,
};
use crate::python_semantic::uri::{path_to_uri, uri_of_path};
use crate::semantic::{
    capability_name, capability_text, evidence_view, AnalysisContext, BasisView, CapabilityReport,
    EvidenceBasis, EvidenceView, OutcomeView, SemanticCapability, SemanticEvidence,
    SemanticOutcome, Support, ToolchainIdentity,
};
use crate::semantic_index::{
    fallen_source, index_words, lemma_a_moved_source_is_noticed, lemma_publishing_again_replaces,
    lemma_publishing_is_local, put_source, sources_stand, sources_view, status_in,
    with_publication, with_source_at, ConfigBasis, CurrentInputs, ObsoleteReason, OwnerView,
    RowView, SemanticBasis, SemanticBasisView, SemanticCandidate, SemanticIndex,
    SemanticIndexError, SemanticOwner, SemanticPublication, SemanticState, SemanticStatus, Sources,
    StatusView,
};
use crate::text::{
    all_chars, count_text, decimal, joined, lemma_sorting, lemma_sorting_exists, sorted_texts,
    sorting, wide_text, Chars,
};

verus! {

/// How well the expected type of a place is covered: it is answered for an
/// argument or a return position, and nowhere else.
pub const EXPECTED_TYPE_SUPPORT: Support = Support::Partial;

/// How well a base list is covered. A base that is not a name or an
/// attribute expression has no declaration site to anchor an edge to.
pub const INHERITANCE_SUPPORT: Support = Support::Partial;

/// How well overrides are covered.
pub const OVERRIDES_SUPPORT: Support = Support::Partial;

/// How well a call site's bound target is covered. A call through a typed
/// receiver binds to the declaration that the type names, which is not
/// necessarily the code that runs.
pub const STATIC_DISPATCH_SUPPORT: Support = Support::Partial;

// ---------------------------------------------------------------------
// Capabilities and identity
// ---------------------------------------------------------------------

/// What the Python backend answers, as it is wired up here.
pub open spec fn python_support(capability: SemanticCapability) -> Support {
    match capability {
        SemanticCapability::ResourceDiscovery => Support::Unsupported,
        SemanticCapability::ImportBinding => Support::Supported,
        SemanticCapability::AliasResolution => Support::Supported,
        SemanticCapability::ReexportResolution => Support::Supported,
        SemanticCapability::ExternalSymbolResolution => Support::Supported,
        SemanticCapability::SymbolDefinition => Support::Supported,
        SemanticCapability::References => Support::Supported,
        SemanticCapability::CallsIntraFile => Support::Supported,
        SemanticCapability::CallsCrossFile => Support::Supported,
        SemanticCapability::StaticDispatchTarget => STATIC_DISPATCH_SUPPORT,
        SemanticCapability::TypeResolution => EXPECTED_TYPE_SUPPORT,
        SemanticCapability::Inheritance => INHERITANCE_SUPPORT,
        SemanticCapability::Overrides => OVERRIDES_SUPPORT,
        SemanticCapability::Implements => Support::Unsupported,
        SemanticCapability::ImplementationTarget => Support::Unsupported,
    }
}

/// What the Python backend answers, capability by capability. Declared from
/// what is implemented and not from the backend's theoretical surface.
pub fn capability_report() -> (report: CapabilityReport)
    ensures
        forall|capability: SemanticCapability|
            #[trigger] crate::semantic::declared_support(report.declared(), capability)
                == python_support(capability),
{
    let mut report = CapabilityReport::new();
    report.declare(SemanticCapability::ImportBinding, Support::Supported);
    report.declare(SemanticCapability::AliasResolution, Support::Supported);
    report.declare(SemanticCapability::ReexportResolution, Support::Supported);
    report.declare(SemanticCapability::ExternalSymbolResolution, Support::Supported);
    report.declare(SemanticCapability::SymbolDefinition, Support::Supported);
    report.declare(SemanticCapability::References, Support::Supported);
    report.declare(SemanticCapability::CallsIntraFile, Support::Supported);
    report.declare(SemanticCapability::CallsCrossFile, Support::Supported);
    report.declare(SemanticCapability::StaticDispatchTarget, STATIC_DISPATCH_SUPPORT);
    report.declare(SemanticCapability::TypeResolution, EXPECTED_TYPE_SUPPORT);
    report.declare(SemanticCapability::Inheritance, INHERITANCE_SUPPORT);
    report.declare(SemanticCapability::Overrides, OVERRIDES_SUPPORT);
    report.declare(SemanticCapability::Implements, Support::Unsupported);
    report.declare(SemanticCapability::ImplementationTarget, Support::Unsupported);
    proof {
        let declared = report.declared();
        let all: Seq<(SemanticCapability, Support)> = seq![
            (SemanticCapability::ImportBinding, Support::Supported),
            (SemanticCapability::AliasResolution, Support::Supported),
            (SemanticCapability::ReexportResolution, Support::Supported),
            (SemanticCapability::ExternalSymbolResolution, Support::Supported),
            (SemanticCapability::SymbolDefinition, Support::Supported),
            (SemanticCapability::References, Support::Supported),
            (SemanticCapability::CallsIntraFile, Support::Supported),
            (SemanticCapability::CallsCrossFile, Support::Supported),
            (SemanticCapability::StaticDispatchTarget, STATIC_DISPATCH_SUPPORT),
            (SemanticCapability::TypeResolution, EXPECTED_TYPE_SUPPORT),
            (SemanticCapability::Inheritance, INHERITANCE_SUPPORT),
            (SemanticCapability::Overrides, OVERRIDES_SUPPORT),
            (SemanticCapability::Implements, Support::Unsupported),
            (SemanticCapability::ImplementationTarget, Support::Unsupported),
        ];
        assert(declared =~= all);
        assert forall|capability: SemanticCapability|
            #[trigger] crate::semantic::declared_support(declared, capability) == python_support(
                capability,
            ) by {
            reveal_with_fuel(crate::semantic::declared_support, 15);
        }
    }
    report
}

/// The toolchain that a Python semantic result depends on. Where the type
/// server lives is not in it; the environment that imports resolve through
/// is. Everything is known before anything is started.
pub fn toolchain_identity(install: &PyrightInstall, environment: &EnvironmentIdentity) -> (identity:
    ToolchainIdentity)
    ensures
        identity.backend_version == install.package_version,
        identity.backend_compatibility_class@ == COMPATIBILITY_CLASS@,
        identity.environment_fingerprint == environment.fingerprint,
{
    ToolchainIdentity {
        backend_version: install.package_version.clone(),
        backend_compatibility_class: COMPATIBILITY_CLASS.to_owned(),
        environment_fingerprint: environment.fingerprint.clone(),
    }
}

/// The content identity of a file: the hash of its content where there is
/// one, and else its fingerprint.
pub open spec fn content_identity(resource: Option<&Resource>) -> Chars {
    match resource {
        Some(held) => match held.content_hash {
            Some(hash) => hash@,
            None => held.fingerprint@,
        },
        None => Seq::empty(),
    }
}

/// The content identity of a file.
pub fn content_of(resource: Option<&Resource>) -> (identity: String)
    ensures
        identity@ == content_identity(resource),
{
    match resource {
        Some(held) => match &held.content_hash {
            Some(hash) => hash.clone(),
            None => held.fingerprint.clone(),
        },
        None => String::new(),
    }
}

/// What the settings say of the analysis itself. The interpreter and the
/// `venv` are the environment's business.
pub open spec fn governing_inputs(settings: PythonSettings) -> Fields {
    seq![settings_inputs(settings)[0], settings_inputs(settings)[2]]
}

/// The basis with what the settings say of the analysis itself.
pub fn with_governing_inputs(basis: ConfigBasis, settings: &PythonSettings) -> (after: ConfigBasis)
    ensures
        after.inputs() == basis.inputs() + governing_inputs(*settings),
{
    let inputs = settings.basis_inputs();
    assert(crate::fingerprint::pairs_view(inputs@).len() == inputs@.len());
    assert(crate::fingerprint::pairs_view(inputs@)[0] == (inputs@[0].0@, inputs@[0].1@));
    assert(crate::fingerprint::pairs_view(inputs@)[2] == (inputs@[2].0@, inputs@[2].1@));
    let first = basis.with(inputs[0].0.as_str(), inputs[0].1.as_str());
    let after = first.with(inputs[2].0.as_str(), inputs[2].1.as_str());
    assert(after.inputs() =~= basis.inputs() + governing_inputs(*settings));
    after
}

/// The configuration that a Python semantic result depends on. The file
/// enters by its content identity, so that nothing re-reads it.
pub fn config_basis(settings: &PythonSettings, config_file: Option<&Resource>) -> (basis:
    ConfigBasis)
    ensures
        basis.inputs() == seq![("pyright_config"@, content_identity(config_file))]
            + governing_inputs(*settings),
{
    let content = content_of(config_file);
    let start = ConfigBasis::new().with("pyright_config", content.as_str());
    assert(start.inputs() =~= seq![("pyright_config"@, content_identity(config_file))]);
    with_governing_inputs(start, settings)
}

/// Whether a Resource is part of the module set of a language.
pub open spec fn is_module(resource: Resource, language: ResourceLanguage) -> bool {
    resource.state == ResourceState::Active && resource.language == Some(language)
}

/// The keys of the active Resources of a language.
pub open spec fn module_keys(resources: Seq<Resource>, language: ResourceLanguage) -> Seq<Chars>
    decreases resources.len(),
{
    if resources.len() == 0 {
        Seq::empty()
    } else {
        let earlier = module_keys(resources.drop_last(), language);
        if is_module(resources.last(), language) {
            earlier.push(resources.last().path_key@)
        } else {
            earlier
        }
    }
}

pub open spec fn module_fields(keys: Seq<Chars>) -> Fields {
    keys.map_values(|key: Chars| ("module"@, key))
}

/// The identity of the module set that a resolution happens against: the
/// sorted keys of the active Resources of a language. No source is read.
pub open spec fn inventory_identity(resources: Seq<Resource>, language: ResourceLanguage) -> Chars {
    fingerprint_text(
        "python-semantic-inventory-1"@,
        module_fields(sorting(module_keys(resources, language))),
    )
}

/// The identity of the module set that a resolution happens against.
pub fn inventory_fingerprint(resources: &[Resource], language: ResourceLanguage) -> (text: String)
    ensures
        text@ == inventory_identity(resources@, language),
{
    let mut keys: Vec<String> = Vec::new();
    let mut at: usize = 0;
    assert(all_chars(keys@) =~= module_keys(resources@.take(0), language));
    while at < resources.len()
        invariant
            at <= resources@.len(),
            all_chars(keys@) == module_keys(resources@.take(at as int), language),
        decreases resources@.len() - at,
    {
        let ghost held = all_chars(keys@);
        assert(resources@.take(at + 1).drop_last() =~= resources@.take(at as int));
        let counts = match resources[at].language {
            Some(held) => held == language && resources[at].state == ResourceState::Active,
            None => false,
        };
        if counts {
            let key = resources[at].path_key.clone();
            keys.push(key);
            assert(all_chars(keys@) =~= held.push(key@));
        }
        at = at + 1;
    }
    assert(resources@.take(at as int) =~= resources@);
    let sorted = sorted_texts(keys.as_slice());
    proof {
        lemma_sorting(all_chars(sorted@), all_chars(keys@));
    }
    let mut fields: Vec<(&str, &str)> = Vec::new();
    let mut next: usize = 0;
    while next < sorted.len()
        invariant
            next <= sorted@.len(),
            fields@.len() == next,
            forall|i: int|
                0 <= i < next ==> (#[trigger] fields@[i]).0@ == "module"@ && fields@[i].1@
                    == sorted@[i]@,
        decreases sorted@.len() - next,
    {
        fields.push(("module", sorted[next].as_str()));
        next = next + 1;
    }
    assert(fields_view(fields@) =~= module_fields(all_chars(sorted@)));
    fingerprint("python-semantic-inventory-1", fields.as_slice())
}

/// The identity of the module set moves exactly when the set does: it does
/// not depend on the order of the rows, nor on anything but their keys.
pub proof fn lemma_inventory_is_the_module_set(
    a: Seq<Resource>,
    b: Seq<Resource>,
    language: ResourceLanguage,
)
    ensures
        inventory_identity(a, language) == inventory_identity(b, language) <==> module_keys(
            a,
            language,
        ).to_multiset() == module_keys(b, language).to_multiset(),
{
    let left = module_keys(a, language);
    let right = module_keys(b, language);
    lemma_sorting_exists(left);
    lemma_sorting_exists(right);
    lemma_fingerprint_identifies_its_inputs(
        "python-semantic-inventory-1"@,
        module_fields(sorting(left)),
        "python-semantic-inventory-1"@,
        module_fields(sorting(right)),
    );
    if left.to_multiset() == right.to_multiset() {
        lemma_sorting(sorting(left), right);
    }
    if module_fields(sorting(left)) == module_fields(sorting(right)) {
        assert(sorting(left).len() == module_fields(sorting(left)).len());
        assert(sorting(right).len() == module_fields(sorting(right)).len());
        assert forall|i: int| 0 <= i < sorting(left).len() implies sorting(left)[i] == sorting(
            right,
        )[i] by {
            assert(module_fields(sorting(left))[i] == ("module"@, sorting(left)[i]));
            assert(module_fields(sorting(right))[i] == ("module"@, sorting(right)[i]));
        }
        assert(sorting(left) =~= sorting(right));
    }
}

// ---------------------------------------------------------------------
// Refresh
// ---------------------------------------------------------------------

/// Why the graph refused what was merged into it.
#[derive(Debug, PartialEq, Eq)]
pub struct MergeError {
    pub detail: String,
}

/// Why a refresh produced nothing.
#[derive(Debug, PartialEq, Eq)]
pub enum PythonSemanticError {
    /// The Resource is not in the current Workspace inventory.
    UnknownResource(ResourceId),
    /// Its bytes could not be read, so no span could be converted.
    UnreadableSource { path_rel: String, detail: String },
    Backend(BatchError),
    Index(SemanticIndexError),
    Merge(MergeError),
    /// The index could not be read.
    Sqlite(String),
}

/// An error of a refresh in words.
pub open spec fn semantic_words(error: PythonSemanticError) -> Chars {
    match error {
        PythonSemanticError::UnknownResource(resource) => decimal(resource.value as int)
            + " is not an active Resource"@,
        PythonSemanticError::UnreadableSource { path_rel, detail } => "could not read "@
            + path_rel@ + ": "@ + detail@,
        PythonSemanticError::Backend(error) => "python semantic backend: "@ + batch_words(error),
        PythonSemanticError::Index(error) => "semantic publication: "@ + index_words(error),
        PythonSemanticError::Merge(error) => "semantic merge: "@ + error.detail@,
        PythonSemanticError::Sqlite(detail) => "index: "@ + detail@,
    }
}

impl PythonSemanticError {
    /// The error in words.
    pub fn message(&self) -> (text: String)
        ensures
            text@ == semantic_words(*self),
    {
        match self {
            PythonSemanticError::UnknownResource(resource) => joined(
                wide_text(resource.value).as_str(),
                " is not an active Resource",
            ),
            PythonSemanticError::UnreadableSource { path_rel, detail } => {
                let mut text = joined("could not read ", path_rel.as_str());
                text.append(": ");
                text.append(detail.as_str());
                text
            },
            PythonSemanticError::Backend(error) => joined(
                "python semantic backend: ",
                error.message().as_str(),
            ),
            PythonSemanticError::Index(error) => joined(
                "semantic publication: ",
                error.message().as_str(),
            ),
            PythonSemanticError::Merge(error) => joined("semantic merge: ", error.detail.as_str()),
            PythonSemanticError::Sqlite(detail) => joined("index: ", detail.as_str()),
        }
    }
}

/// Whether one of the gaps is at that site.
pub open spec fn asks_about(gaps: Seq<PersistedUnresolved>, site: OccurrenceRef) -> bool {
    exists|i: int| 0 <= i < gaps.len() && (#[trigger] gaps[i]).occurrence == site
}

/// The gaps that are still open, with those that are held closed and whose
/// site is not among them: otherwise a second refresh would withdraw its
/// own work.
pub open spec fn gaps_with_held(
    open: Seq<PersistedUnresolved>,
    held: Seq<PersistedUnresolved>,
) -> Seq<PersistedUnresolved>
    decreases held.len(),
{
    if held.len() == 0 {
        open
    } else {
        let earlier = gaps_with_held(open, held.drop_last());
        if asks_about(earlier, held.last().occurrence) {
            earlier
        } else {
            earlier.push(held.last())
        }
    }
}

/// The gaps to ask about.
pub fn gaps_to_ask(open: Vec<PersistedUnresolved>, held: Vec<PersistedUnresolved>) -> (gaps: Vec<
    PersistedUnresolved,
>)
    ensures
        gaps@ == gaps_with_held(open@, held@),
{
    let ghost all = held@;
    let mut gaps = open;
    let mut rest = held;
    let ghost mut taken: int = 0;
    assert(all.take(0) =~= Seq::empty());
    assert(all.skip(0) =~= all);
    while rest.len() > 0
        invariant
            0 <= taken <= all.len(),
            rest@ == all.skip(taken),
            gaps@ == gaps_with_held(open@, all.take(taken)),
        decreases rest@.len(),
    {
        let gap = rest.remove(0);
        proof {
            assert(all.take(taken + 1).drop_last() =~= all.take(taken));
            assert(all.take(taken + 1).last() == gap);
            assert(rest@ =~= all.skip(taken + 1));
        }
        let mut known = false;
        let mut at: usize = 0;
        while at < gaps.len()
            invariant
                at <= gaps@.len(),
                known == exists|i: int|
                    0 <= i < at && (#[trigger] gaps@[i]).occurrence == gap.occurrence,
            decreases gaps@.len() - at,
        {
            if gaps[at].occurrence == gap.occurrence {
                known = true;
            }
            at = at + 1;
        }
        if !known {
            gaps.push(gap);
        }
        proof {
            taken = taken + 1;
        }
    }
    assert(all.take(taken) =~= all);
    gaps
}

/// A gap is asked about exactly when it is open or held closed: a refresh
/// that closed some of the gaps leaves the next one the same sites to ask
/// about, as long as none was dropped.
pub proof fn lemma_held_gaps_are_asked_again(
    open: Seq<PersistedUnresolved>,
    held: Seq<PersistedUnresolved>,
    site: OccurrenceRef,
)
    ensures
        asks_about(gaps_with_held(open, held), site) <==> asks_about(open, site) || asks_about(
            held,
            site,
        ),
    decreases held.len(),
{
    if held.len() > 0 {
        let fewer = held.drop_last();
        let earlier = gaps_with_held(open, fewer);
        let all = gaps_with_held(open, held);
        lemma_held_gaps_are_asked_again(open, fewer, site);
        assert(held[held.len() - 1] == held.last());
        if asks_about(held, site) {
            let i = choose|i: int|
                0 <= i < held.len() && (#[trigger] held[i]).occurrence == site;
            if i < fewer.len() {
                assert(fewer[i].occurrence == site);
            }
        }
        if asks_about(fewer, site) {
            let i = choose|i: int|
                0 <= i < fewer.len() && (#[trigger] fewer[i]).occurrence == site;
            assert(held[i].occurrence == site);
        }
        if all.len() > earlier.len() {
            assert(all[earlier.len() as int] == held.last());
            if asks_about(earlier, site) {
                let i = choose|i: int|
                    0 <= i < earlier.len() && (#[trigger] earlier[i]).occurrence == site;
                assert(all[i].occurrence == site);
            }
            if asks_about(all, site) {
                let i = choose|i: int|
                    0 <= i < all.len() && (#[trigger] all[i]).occurrence == site;
                if i < earlier.len() {
                    assert(earlier[i].occurrence == site);
                }
            }
        }
    }
}

/// One Resource's semantic refresh.
pub struct RefreshRequest<'a> {
    pub context: &'a AnalysisContext,
    /// Where the Workspace is now. A locator, never identity.
    pub workspace_root: &'a str,
    pub owner: ResourceId,
    pub config: &'a ConfigBasis,
    pub capabilities: &'a CapabilityReport,
    pub policy: BatchPolicy,
}

/// The Workspace as a refresh reads it.
pub struct RefreshInputs<'a> {
    pub resources: &'a [Resource],
    pub anchors: &'a [SymbolAnchor],
    pub texts: &'a [SourceText],
    /// The owner's text, or why it could not be read.
    pub owner_text: &'a Result<String, String>,
    pub occurrences: &'a [Occurrence],
    pub gaps: &'a [PersistedUnresolved],
    /// The decorators named `override` in the owner's text.
    pub decorators: &'a [DecoratorSite],
    pub analysis_profile_id: i64,
}

/// What one coherent batch collected.
#[derive(Debug, PartialEq, Eq)]
pub struct Collected {
    pub produced: ResourceEvidence,
    /// The members that carry a decorator that really is `override`.
    pub declared: Vec<SymbolId>,
    /// Every Resource that was read, with its revision.
    pub sources: Vec<(ResourceId, String)>,
}

/// The first active Resource of that id.
pub open spec fn active_by_id(resources: Seq<Resource>, id: ResourceId) -> Option<Resource>
    decreases resources.len(),
{
    if resources.len() == 0 {
        None
    } else if resources[0].id == id && resources[0].state == ResourceState::Active {
        Some(resources[0])
    } else {
        active_by_id(resources.skip(1), id)
    }
}

/// The first active Resource of that id.
pub fn resource_by_id<'a>(resources: &'a [Resource], id: ResourceId) -> (found: Option<
    &'a Resource,
>)
    ensures
        found is Some == active_by_id(resources@, id) is Some,
        found matches Some(resource) ==> active_by_id(resources@, id) == Some(*resource),
{
    let mut at: usize = 0;
    assert(resources@.skip(0) =~= resources@);
    while at < resources.len()
        invariant
            at <= resources@.len(),
            active_by_id(resources@, id) == active_by_id(resources@.skip(at as int), id),
        decreases resources@.len() - at,
    {
        assert(resources@.skip(at as int).skip(1) =~= resources@.skip(at + 1));
        if resources[at].id == id && resources[at].state == ResourceState::Active {
            return Some(&resources[at]);
        }
        at = at + 1;
    }
    None
}

/// What is asked for a Resource, stamped with no generation yet.
pub open spec fn request_for(
    owner: Resource,
    inputs: RefreshInputs<'_>,
    context_key: Chars,
) -> RequestView {
    RequestView {
        owner,
        gaps: inputs.gaps@,
        occurrences: inputs.occurrences@,
        generation_id: 0,
        analysis_profile_id: inputs.analysis_profile_id,
        context_key,
    }
}

pub open spec fn facts_of(
    inputs: RefreshInputs<'_>,
    root: Chars,
    search_paths: Seq<Chars>,
) -> WorkspaceFacts {
    WorkspaceFacts {
        resources: inputs.resources@,
        anchors: inputs.anchors@,
        texts: inputs.texts@,
        root,
        search_paths: import_roots(search_paths),
    }
}

/// What was collected follows from the answers, the Workspace and the
/// import roots that the backend reported, and from nothing else.
#[verifier::opaque]
pub open spec fn follows(
    collected: Collected,
    inputs: RefreshInputs<'_>,
    root: Chars,
    request: RequestView,
    paths: Seq<Chars>,
    answers: Seq<AnswerView>,
    found: Seq<Seq<LocationView>>,
) -> bool {
    let facts = facts_of(inputs, root, paths);
    let established = established_by(Seq::empty(), facts, request, answers);
    &&& answers.len() == inputs.gaps@.len()
    &&& found.len() == inputs.decorators@.len()
    &&& produces(collected.produced, established)
    &&& ascending(collected.declared@)
    &&& forall|member: SymbolId| #[trigger]
        collected.declared@.contains(member) <==> declares_override(
            facts,
            inputs.decorators@,
            found,
            member,
        )
    &&& reads_view(collected.sources@) == reads_after_lists(established.reads, facts, found)
}

/// What passed between one attempt and the backend: the import roots that
/// were asked for first, then the questions about each gap, then those about
/// each decorator.
pub ghost struct Session {
    pub first: Exchange,
    pub paths: Vec<String>,
    pub about_gaps: Seq<Seq<Exchange>>,
    pub answers: Seq<AnswerView>,
    pub about_decorators: Seq<Seq<Exchange>>,
    pub found: Seq<Seq<LocationView>>,
}

impl Session {
    /// Every exchange, in order.
    pub open spec fn log(self) -> Seq<Exchange> {
        seq![self.first] + self.about_gaps.flatten() + self.about_decorators.flatten()
    }

    pub open spec fn asks_for_paths(self, uri: Chars) -> bool {
        self.first.request matches PythonRequest::SearchPaths { from_uri, .. } && from_uri@ == uri
    }

    pub open spec fn paths_given(self) -> bool {
        paths_answered(batch_answer(self.first.answer), Ok(self.paths))
    }

    /// The import roots were refused.
    pub open spec fn ends_at_paths(self, error: BatchError) -> bool {
        &&& paths_answered(batch_answer(self.first.answer), Err(error))
        &&& self.about_gaps.len() == 0
        &&& self.about_decorators.len() == 0
    }

    /// A question about a gap was answered by an error.
    pub open spec fn ends_at_a_gap(
        self,
        inputs: RefreshInputs<'_>,
        text: Chars,
        uri: Chars,
        error: BatchError,
    ) -> bool {
        &&& self.paths_given()
        &&& stopped(text, uri, inputs.gaps@, self.about_gaps, self.answers, error)
        &&& self.about_decorators.len() == 0
    }

    /// Every gap was asked about.
    pub open spec fn gaps_asked(
        self,
        inputs: RefreshInputs<'_>,
        text: Chars,
        uri: Chars,
    ) -> bool {
        &&& self.paths_given()
        &&& self.answers.len() == inputs.gaps@.len()
        &&& transcript(text, uri, inputs.gaps@, self.about_gaps, self.answers)
    }

    /// A question about a decorator was answered by an error.
    pub open spec fn ends_at_a_decorator(
        self,
        inputs: RefreshInputs<'_>,
        text: Chars,
        uri: Chars,
        error: BatchError,
    ) -> bool {
        &&& self.gaps_asked(inputs, text, uri)
        &&& decorators_stopped(
            text,
            uri,
            inputs.decorators@,
            self.about_decorators,
            self.found,
            error,
        )
    }

    /// Everything was asked about, and what was collected follows.
    pub open spec fn yields(
        self,
        inputs: RefreshInputs<'_>,
        root: Chars,
        request: RequestView,
        text: Chars,
        uri: Chars,
        collected: Collected,
    ) -> bool {
        &&& self.gaps_asked(inputs, text, uri)
        &&& self.found.len() == inputs.decorators@.len()
        &&& decorators_asked(text, uri, inputs.decorators@, self.about_decorators, self.found)
        &&& follows(
            collected,
            inputs,
            root,
            request,
            all_chars(self.paths@),
            self.answers,
            self.found,
        )
    }
}

/// What passed in an attempt at a Resource, and what it came to: every
/// question is answered by the backend and carried on the snapshot, the
/// first error ends the attempt, and without one everything is asked.
#[verifier::opaque]
pub open spec fn session_ran<Q: PythonQueries>(
    session: Session,
    queries: Q,
    snapshot: u64,
    inputs: RefreshInputs<'_>,
    root: Chars,
    owner: Resource,
    text: Chars,
    context_key: Chars,
    outcome: Result<Collected, BatchError>,
) -> bool {
    let uri = uri_of_path(path_join(root, owner.path_rel@));
    &&& genuine(session.log(), queries)
    &&& coherent(session.log(), snapshot)
    &&& session.asks_for_paths(uri)
    &&& match outcome {
        Err(error) => {
            ||| session.ends_at_paths(error)
            ||| session.ends_at_a_gap(inputs, text, uri, error)
            ||| session.ends_at_a_decorator(inputs, text, uri, error)
        },
        Ok(collected) => session.yields(
            inputs,
            root,
            request_for(owner, inputs, context_key),
            text,
            uri,
            collected,
        ),
    }
}

struct Collector<'a> {
    inputs: RefreshInputs<'a>,
    root: &'a str,
    owner: &'a Resource,
    owner_text: &'a str,
    owner_uri: &'a str,
    context_key: &'a str,
}

fn copy_reads(reads: &Vec<(ResourceId, String)>) -> (copies: Vec<(ResourceId, String)>)
    ensures
        reads_view(copies@) == reads_view(reads@),
{
    let mut copies: Vec<(ResourceId, String)> = Vec::new();
    let mut at: usize = 0;
    while at < reads.len()
        invariant
            at <= reads@.len(),
            copies@.len() == at,
            forall|i: int| 0 <= i < at ==> (#[trigger] copies@[i]) == reads@[i],
        decreases reads@.len() - at,
    {
        copies.push((reads[at].0, reads[at].1.clone()));
        at = at + 1;
    }
    assert(reads_view(copies@) =~= reads_view(reads@));
    copies
}

proof fn lemma_nothing_flattened()
    ensures
        Seq::<Seq<Exchange>>::empty().flatten() == Seq::<Exchange>::empty(),
{
}

impl<'a, Q: PythonQueries> BatchBody<Q> for Collector<'a> {
    type Output = Collected;

    closed spec fn allows(
        &self,
        queries: Q,
        snapshot: u64,
        exchanges: Seq<Exchange>,
        outcome: Result<Collected, BatchError>,
    ) -> bool {
        self.owner_uri@ == uri_of_path(path_join(self.root@, self.owner.path_rel@)) ==> exists|
            session: Session,
        |
            #[trigger] session_ran(
                session,
                queries,
                snapshot,
                self.inputs,
                self.root@,
                *self.owner,
                self.owner_text@,
                self.context_key@,
                outcome,
            ) && session.log() == exchanges
    }

    fn attempt(&mut self, batch: &mut Batch<'_, Q>) -> (outcome: Result<Collected, BatchError>) {
        let ghost queries = batch.backend();
        let ghost snapshot = batch.carried();
        let ghost start = batch.log();
        let ghost mut session: Session = Session {
            first: arbitrary(),
            paths: arbitrary(),
            about_gaps: Seq::empty(),
            answers: Seq::empty(),
            about_decorators: Seq::empty(),
            found: Seq::empty(),
        };
        let asked = search_paths(batch, self.owner_uri);
        proof {
            reveal(session_ran);
            session.first = batch.log().last();
            lemma_nothing_flattened();
            assert(batch.log() =~= seq![session.first]);
            assert(session.log() =~= batch.log());
        }
        let paths = match asked {
            Ok(paths) => paths,
            Err(error) => {
                assert(session_ran(
                    session,
                    queries,
                    snapshot,
                    self.inputs,
                    self.root@,
                    *self.owner,
                    self.owner_text@,
                    self.context_key@,
                    Err(error),
                ) || self.owner_uri@ != uri_of_path(path_join(self.root@, self.owner.path_rel@)));
                return Err(error);
            },
        };
        proof {
            session.paths = paths;
        }
        let mut normalizer = Normalizer::new(
            self.inputs.resources,
            self.inputs.anchors,
            self.inputs.texts,
            self.root,
            paths.as_slice(),
        );
        let request = ResourceRequest {
            owner: self.owner,
            owner_text: self.owner_text,
            gaps: self.inputs.gaps,
            occurrences: self.inputs.occurrences,
            generation_id: 0,
            analysis_profile_id: self.inputs.analysis_profile_id,
            context_key: self.context_key,
        };
        let ghost facts = normalizer.facts();
        let ghost first = batch.log();
        assert(normalizer.reads() =~= Seq::empty());
        let resolved = resolve_resource(batch, &mut normalizer, &request);
        let ghost reads = normalizer.reads();
        let ghost second = batch.log();
        let ghost uri = owner_uri_of(facts, request@);
        let produced = match resolved {
            Ok(produced) => produced,
            Err(error) => {
                proof {
                    let (exchanged, answers) = choose|
                        exchanged: Seq<Seq<Exchange>>,
                        answers: Seq<AnswerView>,
                    |
                        second == first + exchanged.flatten() && #[trigger] stopped(
                            request.owner_text@,
                            uri,
                            request.gaps@,
                            exchanged,
                            answers,
                            error,
                        );
                    session.about_gaps = exchanged;
                    session.answers = answers;
                    assert(session.log() =~= second);
                    assert(session_ran(
                        session,
                        queries,
                        snapshot,
                        self.inputs,
                        self.root@,
                        *self.owner,
                        self.owner_text@,
                        self.context_key@,
                        Err(error),
                    ) || self.owner_uri@ != uri);
                }
                return Err(error);
            },
        };
        proof {
            let (exchanged, answers) = choose|
                exchanged: Seq<Seq<Exchange>>,
                answers: Seq<AnswerView>,
            |
                {
                    &&& second == first + exchanged.flatten()
                    &&& answers.len() == request.gaps@.len()
                    &&& #[trigger] transcript(
                        request.owner_text@,
                        uri,
                        request.gaps@,
                        exchanged,
                        answers,
                    )
                    &&& produces(produced, established_by(Seq::empty(), facts, request@, answers))
                    &&& reads == established_by(Seq::empty(), facts, request@, answers).reads
                };
            session.about_gaps = exchanged;
            session.answers = answers;
            assert(session.log() =~= second);
        }
        let checked = declared_overrides(
            batch,
            &mut normalizer,
            self.owner_uri,
            self.owner_text,
            self.inputs.decorators,
        );
        let declared = match checked {
            Ok(declared) => declared,
            Err(error) => {
                proof {
                    let (exchanged, found) = choose|
                        exchanged: Seq<Seq<Exchange>>,
                        found: Seq<Seq<LocationView>>,
                    |
                        batch.log() == second + exchanged.flatten()
                            && #[trigger] decorators_stopped(
                            self.owner_text@,
                            self.owner_uri@,
                            self.inputs.decorators@,
                            exchanged,
                            found,
                            error,
                        );
                    session.about_decorators = exchanged;
                    session.found = found;
                    assert(session.log() =~= batch.log());
                    assert(session_ran(
                        session,
                        queries,
                        snapshot,
                        self.inputs,
                        self.root@,
                        *self.owner,
                        self.owner_text@,
                        self.context_key@,
                        Err(error),
                    ) || self.owner_uri@ != uri);
                }
                return Err(error);
            },
        };
        let sources = copy_reads(normalizer.sources_read());
        let collected = Collected { produced, declared, sources };
        proof {
            let (exchanged, found) = choose|
                exchanged: Seq<Seq<Exchange>>,
                found: Seq<Seq<LocationView>>,
            |
                {
                    &&& batch.log() == second + exchanged.flatten()
                    &&& found.len() == self.inputs.decorators@.len()
                    &&& #[trigger] decorators_asked(
                        self.owner_text@,
                        self.owner_uri@,
                        self.inputs.decorators@,
                        exchanged,
                        found,
                    )
                    &&& forall|member: SymbolId| #[trigger]
                        declared@.contains(member) <==> declares_override(
                            facts,
                            self.inputs.decorators@,
                            found,
                            member,
                        )
                    &&& normalizer.reads() == reads_after_lists(reads, facts, found)
                };
            session.about_decorators = exchanged;
            session.found = found;
            assert(session.log() =~= batch.log());
            assert(follows(
                collected,
                self.inputs,
                self.root@,
                request_for(*self.owner, self.inputs, self.context_key@),
                all_chars(paths@),
                session.answers,
                found,
            )) by {
                reveal(follows);
            }
            assert(session_ran(
                session,
                queries,
                snapshot,
                self.inputs,
                self.root@,
                *self.owner,
                self.owner_text@,
                self.context_key@,
                Ok(collected),
            ) || self.owner_uri@ != uri);
        }
        Ok(collected)
    }
}

/// The Resource that a refresh is of, with its text.
pub open spec fn refreshable(
    inputs: RefreshInputs<'_>,
    owner: ResourceId,
) -> Option<(Resource, Chars)> {
    match active_by_id(inputs.resources@, owner) {
        Some(resource) => match inputs.owner_text {
            Ok(text) => Some((resource, text@)),
            Err(_) => None,
        },
        None => None,
    }
}

/// One attempt at a Resource: the backend was asked for a snapshot, and
/// everything else on the one it named; where it named none the attempt
/// ended there.
pub open spec fn attempt_at<Q: PythonQueries>(
    queries: Q,
    inputs: RefreshInputs<'_>,
    root: Chars,
    owner: Resource,
    text: Chars,
    context_key: Chars,
    attempt: Attempt<Collected>,
) -> bool {
    &&& attempt.began.request == PythonRequest::Snapshot
    &&& match attempt.began.answer {
        Ok(PythonResponse::Snapshot(snapshot)) => exists|session: Session|
            #[trigger] session_ran(
                session,
                queries,
                snapshot,
                inputs,
                root,
                owner,
                text,
                context_key,
                attempt.outcome,
            ) && session.log() == attempt.exchanges,
        _ => ended_at_snapshot(attempt),
    }
}

/// The attempts at the Resource that a refresh is of, and the one that
/// decided.
pub open spec fn collection_decided<Q: PythonQueries>(
    queries: Q,
    request: RefreshRequest<'_>,
    inputs: RefreshInputs<'_>,
    attempts: Seq<Attempt<Collected>>,
    result: Result<Collected, BatchError>,
) -> bool {
    &&& refreshable(inputs, request.owner) matches Some((owner, text))
    &&& forall|i: int|
        0 <= i < attempts.len() ==> attempt_at(
            queries,
            inputs,
            request.workspace_root@,
            owner,
            text,
            request.context.key(),
            #[trigger] attempts[i],
        )
    &&& decided_by(attempts, request.policy, result)
}

/// Whether a refresh reports what its batch came to.
pub open spec fn reports(
    outcome: Result<Collected, PythonSemanticError>,
    result: Result<Collected, BatchError>,
) -> bool {
    match result {
        Ok(collected) => outcome == Ok::<Collected, PythonSemanticError>(collected),
        Err(error) => outcome == Err::<Collected, PythonSemanticError>(
            PythonSemanticError::Backend(error),
        ),
    }
}

/// Resolve one Resource's semantic gaps in one coherent batch, restarted
/// whole where the backend invalidates its snapshot partway through.
///
/// Nothing is published yet: what the analysis depends on has to name every
/// Resource that it read, and that is only known once the backend has
/// answered.
pub fn collect_evidence<Q: PythonQueries>(
    queries: &mut Conversation<'_, Q>,
    request: &RefreshRequest<'_>,
    inputs: RefreshInputs<'_>,
) -> (outcome: Result<Collected, PythonSemanticError>)
    requires
        old(queries).wf(),
    ensures
        final(queries).wf(),
        final(queries).backend() == old(queries).backend(),
        active_by_id(inputs.resources@, request.owner) is None ==> outcome == Err::<
            Collected,
            PythonSemanticError,
        >(PythonSemanticError::UnknownResource(request.owner)),
        active_by_id(inputs.resources@, request.owner) matches Some(owner) ==> (
        inputs.owner_text matches Err(why) ==> outcome is Err && (
        outcome->Err_0 matches PythonSemanticError::UnreadableSource { path_rel, detail }
            && path_rel@ == owner.path_rel@ && detail@ == why@)),
        refreshable(inputs, request.owner) is None ==> final(queries).log() == old(queries).log(),
        refreshable(inputs, request.owner) is Some ==> exists|
            attempts: Seq<Attempt<Collected>>,
            result: Result<Collected, BatchError>,
        |
            {
                &&& #[trigger] collection_decided(
                    old(queries).backend(),
                    *request,
                    inputs,
                    attempts,
                    result,
                )
                &&& final(queries).log() == old(queries).log() + exchanged(attempts)
                &&& reports(outcome, result)
            },
        outcome is Err ==> outcome->Err_0 != PythonSemanticError::Backend(
            BatchError::SnapshotStale,
        ),
{
    let owner = match resource_by_id(inputs.resources, request.owner) {
        Some(owner) => owner,
        None => return Err(PythonSemanticError::UnknownResource(request.owner)),
    };
    let owner_text = match inputs.owner_text {
        Ok(text) => text.as_str(),
        Err(why) => return Err(
            PythonSemanticError::UnreadableSource {
                path_rel: owner.path_rel.clone(),
                detail: why.clone(),
            },
        ),
    };
    let path = join_path(request.workspace_root, owner.path_rel.as_str());
    let owner_uri = path_to_uri(path.as_str());
    let context_key = request.context.context_key();
    let mut collector = Collector {
        inputs,
        root: request.workspace_root,
        owner,
        owner_text,
        owner_uri: owner_uri.as_str(),
        context_key: context_key.as_str(),
    };
    let ghost body = collector;
    let ghost backend = queries.backend();
    let ghost before = queries.log();
    let result = run_batch(queries, request.policy, &mut collector);
    proof {
        let attempts = choose|attempts: Seq<Attempt<Collected>>|
            {
                &&& #[trigger] all_attempted(body, backend, attempts)
                &&& decided_by(attempts, request.policy, result)
                &&& queries.log() == before + exchanged(attempts)
            };
        assert forall|i: int| 0 <= i < attempts.len() implies attempt_at(
            backend,
            inputs,
            request.workspace_root@,
            *owner,
            owner_text@,
            request.context.key(),
            #[trigger] attempts[i],
        ) by {
            assert(attempted(body, backend, attempts[i]));
        }
        assert(collection_decided(backend, *request, inputs, attempts, result));
    }
    match result {
        Ok(collected) => Ok(collected),
        Err(error) => Err(PythonSemanticError::Backend(error)),
    }
}

/// Why a member that claims to override could not be shown to.
#[derive(Debug, Clone, Copy, PartialEq, Eq, Structural)]
pub enum UnprovenReason {
    /// No ancestor declares the member.
    NoAncestorMember,
    /// More than one ancestor does, and nothing orders them.
    AmbiguousAncestors { candidates: usize },
    /// An ancestor lies outside the Workspace.
    OpaqueAncestor,
}

/// A declaration that claims an override which the evidence could not prove.
#[derive(Debug, Clone, Copy, PartialEq, Eq, Structural)]
pub struct UnprovenOverride {
    pub method: SymbolId,
    pub reason: UnprovenReason,
}

/// What was derived from the inheritance that a pass established.
#[derive(Debug, PartialEq, Eq)]
pub struct Derivation {
    pub evidence: Vec<SemanticEvidence>,
    /// Where the ancestors are declared that the proof rests on.
    pub ancestor_resources: Vec<ResourceId>,
    pub unproven: Vec<UnprovenOverride>,
}

/// What a merge did to the graph.
#[derive(Debug, Clone, Copy, PartialEq, Eq, Structural)]
pub struct MergeOutcome {
    pub gaps_resolved: usize,
    pub gaps_restored: usize,
    pub corroborated: usize,
    pub relations_created: usize,
    pub relations_removed: usize,
    pub conflicts: usize,
}

/// What a refresh published.
#[derive(Debug, PartialEq, Eq)]
pub struct RefreshOutcome {
    pub publication: SemanticPublication,
    /// What merging the evidence into the graph did.
    pub merged: MergeOutcome,
    /// Gap kinds that the backend does not answer, with the reason.
    pub deferred: Vec<DeferredGap>,
    /// Declarations that claim an override which the evidence could not
    /// prove.
    pub unproven_overrides: Vec<UnprovenOverride>,
    pub evidence_count: usize,
    /// One line for each piece of evidence: the capability, the site and
    /// what it resolved to. Diagnostic only.
    pub report: Vec<String>,
}

/// The sources with every ancestor that is there, at its revision.
pub open spec fn with_ancestors(
    reads: Reads,
    ancestors: Seq<ResourceId>,
    resources: Seq<Resource>,
) -> Reads
    decreases ancestors.len(),
{
    if ancestors.len() == 0 {
        reads
    } else {
        let earlier = with_ancestors(reads, ancestors.drop_last(), resources);
        match active_by_id(resources, ancestors.last()) {
            Some(ancestor) => with_source_at(
                earlier,
                ancestor.id,
                ancestor.resource_revision@,
            ),
            None => earlier,
        }
    }
}

/// The sources, each at its revision, put over those that are there.
pub open spec fn with_sources_at(sources: Sources, more: Sources) -> Sources
    decreases more.len(),
{
    if more.len() == 0 {
        sources
    } else {
        with_source_at(
            with_sources_at(sources, more.drop_last()),
            more.last().0,
            more.last().1,
        )
    }
}

/// The sources that a publication depends on, each with its revision: the
/// owner, everything that was read, and the ancestors that are there.
pub open spec fn publication_sources(
    owner: Resource,
    reads: Reads,
    ancestors: Seq<ResourceId>,
    resources: Seq<Resource>,
) -> Sources {
    with_sources_at(
        with_source_at(Seq::empty(), owner.id, owner.resource_revision@),
        with_ancestors(reads, ancestors, resources),
    )
}

/// What a publication depends on.
pub open spec fn basis_for_publication(
    request: RefreshRequest<'_>,
    owner: Resource,
    reads: Reads,
    ancestors: Seq<ResourceId>,
    resources: Seq<Resource>,
) -> SemanticBasisView {
    SemanticBasisView {
        owner: owner.id,
        sources: publication_sources(owner, reads, ancestors, resources),
        config: request.config.identity(),
        environment: request.context.toolchain.environment_fingerprint@,
        inventory: Some(inventory_identity(resources, request.context.language)),
    }
}

/// What a publication depends on. An ancestor's declaration is part of the
/// proof of an override, so it has to be named here too.
pub fn publication_basis(
    request: &RefreshRequest<'_>,
    owner: &Resource,
    sources: Vec<(ResourceId, String)>,
    ancestors: &[ResourceId],
    resources: &[Resource],
) -> (basis: SemanticBasis)
    ensures
        basis@ == basis_for_publication(
            *request,
            *owner,
            reads_view(sources@),
            ancestors@,
            resources@,
        ),
{
    let ghost reads = reads_view(sources@);
    let mut extra = sources;
    let mut next: usize = 0;
    assert(ancestors@.take(0) =~= Seq::empty());
    while next < ancestors.len()
        invariant
            next <= ancestors@.len(),
            reads_view(extra@) == with_ancestors(reads, ancestors@.take(next as int), resources@),
        decreases ancestors@.len() - next,
    {
        assert(ancestors@.take(next + 1).drop_last() =~= ancestors@.take(next as int));
        assert(ancestors@.take(next + 1).last() == ancestors@[next as int]);
        if let Some(ancestor) = resource_by_id(resources, ancestors[next]) {
            assert(sources_view(extra@) =~= reads_view(extra@));
            put_source(&mut extra, ancestor.id, ancestor.resource_revision.clone());
            assert(sources_view(extra@) =~= reads_view(extra@));
        }
        next = next + 1;
    }
    assert(ancestors@.take(next as int) =~= ancestors@);
    let ghost all = reads_view(extra@);
    let mut basis = SemanticBasis::new(request.context, request.config, owner.id).with_source(
        owner.id,
        owner.resource_revision.as_str(),
    );
    let ghost start = basis@;
    let mut at: usize = 0;
    assert(all.take(0) =~= Seq::empty());
    while at < extra.len()
        invariant
            at <= extra@.len(),
            all == reads_view(extra@),
            basis@ == (SemanticBasisView {
                sources: with_sources_at(start.sources, all.take(at as int)),
                ..start
            }),
        decreases extra@.len() - at,
    {
        proof {
            assert(all[at as int] == (extra@[at as int].0, extra@[at as int].1@));
            assert(all.take(at + 1).drop_last() =~= all.take(at as int));
            assert(all.take(at + 1).last() == all[at as int]);
        }
        basis = basis.with_source(extra[at].0, extra[at].1.as_str());
        at = at + 1;
    }
    assert(all.take(at as int) =~= all);
    basis.with_inventory(inventory_fingerprint(resources, request.context.language))
}

/// Evidence stamped with the generation that it is published under.
pub open spec fn stamped(item: EvidenceView, generation_id: i64) -> EvidenceView {
    EvidenceView { basis: BasisView { generation_id, ..item.basis }, ..item }
}

fn stamp(item: SemanticEvidence, generation_id: i64) -> (after: SemanticEvidence)
    ensures
        after@ == stamped(item@, generation_id),
{
    SemanticEvidence {
        context_key: item.context_key,
        capability: item.capability,
        relation_kind: item.relation_kind,
        basis: EvidenceBasis {
            owner_resource: item.basis.owner_resource,
            owner_resource_revision: item.basis.owner_resource_revision,
            generation_id,
            analysis_profile_id: item.basis.analysis_profile_id,
            resolution_context_key: item.basis.resolution_context_key,
        },
        occurrence: item.occurrence,
        source: item.source,
        outcome: item.outcome,
        support: item.support,
        dispatch: item.dispatch,
    }
}

/// Stamp evidence with the generation that it is published under.
pub fn stamp_all(evidence: Vec<SemanticEvidence>, generation_id: i64) -> (after: Vec<
    SemanticEvidence,
>)
    ensures
        evidence_view(after@) == evidence_view(evidence@).map_values(
            |item: EvidenceView| stamped(item, generation_id),
        ),
{
    let ghost all = evidence_view(evidence@);
    let ghost seal = |item: EvidenceView| stamped(item, generation_id);
    let mut rest = evidence;
    let mut after: Vec<SemanticEvidence> = Vec::new();
    let ghost mut taken: int = 0;
    assert(evidence_view(after@) =~= all.take(0).map_values(seal));
    assert(rest@ =~= evidence@.skip(0));
    while rest.len() > 0
        invariant
            0 <= taken <= evidence@.len(),
            all == evidence_view(evidence@),
            seal == (|item: EvidenceView| stamped(item, generation_id)),
            rest@ == evidence@.skip(taken),
            evidence_view(after@) == all.take(taken).map_values(seal),
        decreases rest@.len(),
    {
        let ghost held = evidence_view(after@);
        let item = rest.remove(0);
        proof {
            assert(item == evidence@[taken]);
            assert(all[taken] == item@);
            assert(rest@ =~= evidence@.skip(taken + 1));
        }
        let sealed = stamp(item, generation_id);
        after.push(sealed);
        proof {
            assert(evidence_view(after@) =~= held.push(sealed@));
            assert(evidence_view(after@) =~= all.take(taken + 1).map_values(seal));
            taken = taken + 1;
        }
    }
    assert(all.take(taken) =~= all);
    after
}

/// What a site resolved to, in words.
pub open spec fn outcome_words(outcome: OutcomeView) -> Chars {
    match outcome {
        OutcomeView::Resolved(target) => "RESOLVED "@ + endpoint_kind(target),
        OutcomeView::Candidates(targets) => "CANDIDATES "@ + decimal(targets.len() as int),
        OutcomeView::Unresolved(reason) => "UNRESOLVED "@ + reason_name(reason),
    }
}

pub open spec fn endpoint_kind(endpoint: crate::graph::EndpointView) -> Chars {
    match endpoint {
        crate::graph::EndpointView::Resource(_) => "Resource"@,
        crate::graph::EndpointView::Symbol(_) => "Symbol"@,
        crate::graph::EndpointView::Logical(_) => "LogicalSymbol"@,
        crate::graph::EndpointView::External(_) => "ExternalEntity"@,
        crate::graph::EndpointView::Domain(_) => "DomainEntity"@,
    }
}

pub open spec fn reason_name(reason: UnresolvedReason) -> Chars {
    match reason {
        UnresolvedReason::NoStructuralBinding => "NoStructuralBinding"@,
        UnresolvedReason::AmbiguousCandidates => "AmbiguousCandidates"@,
        UnresolvedReason::MissingRelativeTarget => "MissingRelativeTarget"@,
        UnresolvedReason::ImportTargetUnresolved => "ImportTargetUnresolved"@,
        UnresolvedReason::TypeSemanticsRequired => "TypeSemanticsRequired"@,
    }
}

pub open spec fn site_start(item: EvidenceView) -> int {
    match item.occurrence {
        Some(site) => site.start_byte as int,
        None => 0,
    }
}

pub open spec fn site_end(item: EvidenceView) -> int {
    match item.occurrence {
        Some(site) => site.end_byte as int,
        None => 0,
    }
}

/// One line about a piece of evidence.
pub open spec fn evidence_line(item: EvidenceView) -> Chars {
    capability_name(item.capability) + " @"@ + decimal(site_start(item)) + ".."@ + decimal(
        site_end(item),
    ) + " -> "@ + outcome_words(item.outcome)
}

fn words_of_outcome(outcome: &SemanticOutcome) -> (text: String)
    ensures
        text@ == outcome_words(outcome@),
{
    match outcome {
        SemanticOutcome::Resolved { target } => {
            let kind = match target {
                GraphEndpoint::Resource(_) => "Resource",
                GraphEndpoint::Symbol(_) => "Symbol",
                GraphEndpoint::Logical(_) => "LogicalSymbol",
                GraphEndpoint::External(_) => "ExternalEntity",
                GraphEndpoint::Domain(_) => "DomainEntity",
            };
            joined("RESOLVED ", kind)
        },
        SemanticOutcome::Candidates { targets } => {
            let count = count_text(targets.len() as u64);
            joined("CANDIDATES ", count.as_str())
        },
        SemanticOutcome::Unresolved { reason } => {
            let name = match reason {
                UnresolvedReason::NoStructuralBinding => "NoStructuralBinding",
                UnresolvedReason::AmbiguousCandidates => "AmbiguousCandidates",
                UnresolvedReason::MissingRelativeTarget => "MissingRelativeTarget",
                UnresolvedReason::ImportTargetUnresolved => "ImportTargetUnresolved",
                UnresolvedReason::TypeSemanticsRequired => "TypeSemanticsRequired",
            };
            joined("UNRESOLVED ", name)
        },
    }
}

/// One line about a piece of evidence.
pub fn report_line(item: &SemanticEvidence) -> (line: String)
    ensures
        line@ == evidence_line(item@),
{
    let (start, end): (usize, usize) = match item.occurrence {
        Some(site) => (site.start_byte, site.end_byte),
        None => (0, 0),
    };
    let mut line = joined(capability_text(item.capability), " @");
    line.append(count_text(start as u64).as_str());
    line.append("..");
    line.append(count_text(end as u64).as_str());
    line.append(" -> ");
    line.append(words_of_outcome(&item.outcome).as_str());
    line
}

fn report_of(evidence: &[SemanticEvidence]) -> (report: Vec<String>)
    ensures
        all_chars(report@) == evidence_view(evidence@).map_values(
            |item: EvidenceView| evidence_line(item),
        ),
{
    let mut report: Vec<String> = Vec::new();
    let mut at: usize = 0;
    while at < evidence.len()
        invariant
            at <= evidence@.len(),
            report@.len() == at,
            forall|i: int|
                0 <= i < at ==> (#[trigger] report@[i])@ == evidence_line(evidence@[i]@),
        decreases evidence@.len() - at,
    {
        report.push(report_line(&evidence[at]));
        at = at + 1;
    }
    assert(all_chars(report@) =~= evidence_view(evidence@).map_values(
        |item: EvidenceView| evidence_line(item),
    ));
    report
}

/// The Workspace as it is at the moment of publication.
pub struct PublicationMoment<'a> {
    pub resources: &'a [Resource],
    pub workspace_revision: &'a str,
}

/// What was published, before it is merged into the graph.
#[derive(Debug, PartialEq, Eq)]
pub struct PublishedEvidence {
    pub publication: SemanticPublication,
    /// What the index says of the owner now: only a current publication may
    /// change the graph.
    pub status: SemanticStatus,
    /// What is to be merged, stamped with its generation.
    pub evidence: Vec<SemanticEvidence>,
    pub deferred: Vec<DeferredGap>,
    pub unproven_overrides: Vec<UnprovenOverride>,
}

/// The owner's row in the index.
pub open spec fn owner_view(request: RefreshRequest<'_>, owner: ResourceId) -> OwnerView {
    OwnerView { context_key: request.context.key(), owner }
}

/// Why what was collected may not be published any more: a source is no
/// longer as it was read, the module set is another one, or the Workspace
/// moved on.
pub open spec fn publication_obsolete(
    basis: SemanticBasisView,
    language: ResourceLanguage,
    begun_at: Chars,
    resources: Seq<Resource>,
    workspace_revision: Chars,
) -> Option<ObsoleteReason> {
    match fallen_source(basis.sources, resources) {
        Some(resource) => Some(ObsoleteReason::SourceRevisionMoved { resource }),
        None => if basis.inventory != Some(inventory_identity(resources, language)) {
            Some(ObsoleteReason::InventoryMoved)
        } else if begun_at != workspace_revision {
            Some(ObsoleteReason::WorkspaceMoved)
        } else {
            None
        },
    }
}

/// The row that a Resource's analysis is published as.
pub open spec fn refreshed_row(
    request: RefreshRequest<'_>,
    owner: ResourceId,
    basis: SemanticBasisView,
    generation_id: i64,
) -> RowView {
    RowView {
        owner: owner_view(request, owner),
        status: StatusView {
            state: SemanticState::Current,
            support: Some(Support::Supported),
            stable_generation_id: Some(generation_id),
            basis: Some(basis),
            last_error_code: None,
        },
        profile: request.capabilities.identity(),
    }
}

/// The evidence that is handed over to be merged: what was collected and
/// what was derived, stamped with the generation.
pub open spec fn handed_over(
    collected: Seq<EvidenceView>,
    derived: Seq<EvidenceView>,
    generation_id: i64,
) -> Seq<EvidenceView> {
    (collected + derived).map_values(|item: EvidenceView| stamped(item, generation_id))
}

/// Publish what was collected and derived for a Resource under a
/// generation.
///
/// The evidence was collected before the candidate was begun, because what
/// it depends on is only known once the backend has answered. A Resource
/// that moved while the backend was thinking makes the candidate obsolete,
/// and nothing is written. Otherwise the owner's own row becomes current,
/// and no other row moves.
pub fn publish_evidence(
    index: &mut SemanticIndex,
    request: &RefreshRequest<'_>,
    owner: &Resource,
    resources: &[Resource],
    collected: Collected,
    derived: Derivation,
    generation_id: i64,
    begun_at: &str,
    now: &PublicationMoment<'_>,
) -> (outcome: Result<PublishedEvidence, PythonSemanticError>)
    requires
        collected.produced.evidence@.len() + derived.evidence@.len() <= usize::MAX,
    ensures
        ({
            let basis = basis_for_publication(
                *request,
                *owner,
                reads_view(collected.sources@),
                derived.ancestor_resources@,
                resources@,
            );
            match publication_obsolete(
                basis,
                request.context.language,
                begun_at@,
                now.resources@,
                now.workspace_revision@,
            ) {
                Some(reason) => {
                    &&& outcome == Err::<PublishedEvidence, PythonSemanticError>(
                        PythonSemanticError::Index(
                            SemanticIndexError::Obsolete { generation_id, reason },
                        ),
                    )
                    &&& final(index).rows() == old(index).rows()
                },
                None => {
                    &&& outcome matches Ok(published)
                    &&& final(index).rows() == with_publication(
                        old(index).rows(),
                        refreshed_row(*request, owner.id, basis, generation_id),
                    )
                    &&& published.publication.generation_id == generation_id
                    &&& published.publication.basis@ == basis
                    &&& published.status@ == status_in(
                        final(index).rows(),
                        owner_view(*request, owner.id),
                    )
                    &&& evidence_view(published.evidence@) == handed_over(
                        evidence_view(collected.produced.evidence@),
                        evidence_view(derived.evidence@),
                        generation_id,
                    )
                    &&& published.deferred == collected.produced.deferred
                    &&& published.unproven_overrides == derived.unproven
                },
            }
        }),
{
    let basis = publication_basis(
        request,
        owner,
        collected.sources,
        derived.ancestor_resources.as_slice(),
        resources,
    );
    let context_key = request.context.context_key();
    let semantic_owner = SemanticOwner::new(context_key.as_str(), owner.id);
    let inventory = inventory_fingerprint(now.resources, request.context.language);
    let current = CurrentInputs::new(
        request.context,
        request.config,
        request.capabilities,
    ).with_inventory(inventory.as_str());
    let candidate = SemanticCandidate {
        owner: semantic_owner.clone(),
        basis,
        profile_fingerprint: request.capabilities.fingerprint(),
        support: Support::Supported,
        generation_id,
        workspace_revision: begun_at.to_owned(),
    };
    let publication = match index.publish(
        candidate,
        &current,
        now.resources,
        now.workspace_revision,
    ) {
        Ok(publication) => publication,
        Err(error) => return Err(PythonSemanticError::Index(error)),
    };
    let status = index.status(&semantic_owner);
    let mut evidence = collected.produced.evidence;
    let mut more = derived.evidence;
    let ghost joined_evidence = evidence_view(evidence@) + evidence_view(more@);
    evidence.append(&mut more);
    assert(evidence_view(evidence@) =~= joined_evidence);
    Ok(
        PublishedEvidence {
            publication,
            status,
            evidence: stamp_all(evidence, generation_id),
            deferred: collected.produced.deferred,
            unproven_overrides: derived.unproven,
        },
    )
}

/// A candidate is published exactly when every source that it names is still
/// there as it was read, the module set is the same one, and the Workspace
/// has not moved on: a Resource that moved while the backend was thinking
/// keeps it out.
pub proof fn lemma_a_moved_source_rejects_the_candidate(
    basis: SemanticBasisView,
    language: ResourceLanguage,
    begun_at: Chars,
    resources: Seq<Resource>,
    workspace_revision: Chars,
)
    ensures
        publication_obsolete(basis, language, begun_at, resources, workspace_revision) is None
            <==> sources_stand(basis.sources, resources) && basis.inventory == Some(
            inventory_identity(resources, language),
        ) && begun_at == workspace_revision,
{
    lemma_a_moved_source_is_noticed(basis.sources, resources);
}

/// The same answers came back, in the same order.
pub open spec fn answered_alike(a: Seq<Exchange>, b: Seq<Exchange>) -> bool {
    &&& a.len() == b.len()
    &&& forall|i: int| 0 <= i < a.len() ==> (#[trigger] a[i]).answer == b[i].answer
}

pub open spec fn all_answered_alike(a: Seq<Seq<Exchange>>, b: Seq<Seq<Exchange>>) -> bool {
    &&& a.len() == b.len()
    &&& forall|i: int| 0 <= i < a.len() ==> answered_alike(#[trigger] a[i], b[i])
}

/// The backend gave the same answers in both sessions.
pub open spec fn went_alike(a: Session, b: Session) -> bool {
    &&& a.first.answer == b.first.answer
    &&& all_answered_alike(a.about_gaps, b.about_gaps)
    &&& all_answered_alike(a.about_decorators, b.about_decorators)
}

proof fn lemma_alike_sessions_read_alike(
    a: Session,
    b: Session,
    inputs: RefreshInputs<'_>,
    text: Chars,
    uri: Chars,
)
    requires
        went_alike(a, b),
        a.gaps_asked(inputs, text, uri),
        b.gaps_asked(inputs, text, uri),
        a.found.len() == inputs.decorators@.len(),
        b.found.len() == inputs.decorators@.len(),
        decorators_asked(text, uri, inputs.decorators@, a.about_decorators, a.found),
        decorators_asked(text, uri, inputs.decorators@, b.about_decorators, b.found),
    ensures
        all_chars(a.paths@) == all_chars(b.paths@),
        a.answers == b.answers,
        a.found == b.found,
{
    assert(all_chars(a.paths@) =~= all_chars(b.paths@));
    assert forall|i: int| 0 <= i < a.answers.len() implies a.answers[i] == b.answers[i] by {
        assert(answered_alike(a.about_gaps[i], b.about_gaps[i]));
        let one = a.about_gaps[i];
        let other = b.about_gaps[i];
        if one.len() > 0 {
            assert(one[0].answer == other[0].answer);
        }
        if one.len() > 1 {
            assert(one[1].answer == other[1].answer);
        }
    }
    assert(a.answers =~= b.answers);
    assert forall|i: int| 0 <= i < a.found.len() implies a.found[i] == b.found[i] by {
        assert(answered_alike(a.about_decorators[i], b.about_decorators[i]));
        let one = a.about_decorators[i];
        let other = b.about_decorators[i];
        if one.len() > 0 {
            assert(one[0].answer == other[0].answer);
        }
    }
    assert(a.found =~= b.found);
}

/// What is collected is a function of the Workspace and the answers: the
/// same rows and the same answers again, from whichever backend and on
/// whichever snapshot, give the same evidence, name the same gaps and
/// overrides, and read the same sources.
pub proof fn lemma_same_answers_same_evidence<Q: PythonQueries, R: PythonQueries>(
    inputs: RefreshInputs<'_>,
    root: Chars,
    owner: Resource,
    text: Chars,
    context_key: Chars,
    queries: Q,
    snapshot: u64,
    session: Session,
    first: Collected,
    queries_again: R,
    snapshot_again: u64,
    session_again: Session,
    second: Collected,
)
    requires
        session_ran(
            session,
            queries,
            snapshot,
            inputs,
            root,
            owner,
            text,
            context_key,
            Ok(first),
        ),
        session_ran(
            session_again,
            queries_again,
            snapshot_again,
            inputs,
            root,
            owner,
            text,
            context_key,
            Ok(second),
        ),
        went_alike(session, session_again),
    ensures
        evidence_view(second.produced.evidence@) == evidence_view(first.produced.evidence@),
        second.produced.deferred@ == first.produced.deferred@,
        second.produced.resolved_bases@ == first.produced.resolved_bases@,
        forall|member: SymbolId| #[trigger]
            second.declared@.contains(member) <==> first.declared@.contains(member),
        reads_view(second.sources@) == reads_view(first.sources@),
{
    reveal(session_ran);
    reveal(follows);
    lemma_alike_sessions_read_alike(
        session,
        session_again,
        inputs,
        text,
        uri_of_path(path_join(root, owner.path_rel@)),
    );
}

/// A second refresh over the same rows and answers adds nothing: it rests on
/// the same basis, it hands over the very same evidence under its own
/// generation, the owner's row is replaced and stays current, and no other
/// row comes, goes or moves.
pub proof fn lemma_a_second_refresh_adds_nothing<Q: PythonQueries>(
    rows: Seq<RowView>,
    request: RefreshRequest<'_>,
    owner: Resource,
    resources: Seq<Resource>,
    inputs: RefreshInputs<'_>,
    text: Chars,
    queries: Q,
    snapshot: u64,
    session: Session,
    first: Collected,
    snapshot_again: u64,
    session_again: Session,
    second: Collected,
    derived: Derivation,
    generation_id: i64,
    next_generation_id: i64,
    other: OwnerView,
)
    requires
        session_ran(
            session,
            queries,
            snapshot,
            inputs,
            request.workspace_root@,
            owner,
            text,
            request.context.key(),
            Ok(first),
        ),
        session_ran(
            session_again,
            queries,
            snapshot_again,
            inputs,
            request.workspace_root@,
            owner,
            text,
            request.context.key(),
            Ok(second),
        ),
        went_alike(session, session_again),
    ensures
        ({
            let ancestors = derived.ancestor_resources@;
            let basis = basis_for_publication(
                request,
                owner,
                reads_view(first.sources@),
                ancestors,
                resources,
            );
            let once = with_publication(
                rows,
                refreshed_row(request, owner.id, basis, generation_id),
            );
            let twice = with_publication(
                once,
                refreshed_row(request, owner.id, basis, next_generation_id),
            );
            &&& basis_for_publication(
                request,
                owner,
                reads_view(second.sources@),
                ancestors,
                resources,
            ) == basis
            &&& handed_over(
                evidence_view(second.produced.evidence@),
                evidence_view(derived.evidence@),
                next_generation_id,
            ) == handed_over(
                evidence_view(first.produced.evidence@),
                evidence_view(derived.evidence@),
                next_generation_id,
            )
            &&& handed_over(
                evidence_view(second.produced.evidence@),
                evidence_view(derived.evidence@),
                next_generation_id,
            ).len() == handed_over(
                evidence_view(first.produced.evidence@),
                evidence_view(derived.evidence@),
                generation_id,
            ).len()
            &&& twice.len() == once.len()
            &&& twice == with_publication(
                rows,
                refreshed_row(request, owner.id, basis, next_generation_id),
            )
            &&& status_in(twice, owner_view(request, owner.id)).state == SemanticState::Current
            &&& other != owner_view(request, owner.id) ==> status_in(twice, other) == status_in(
                rows,
                other,
            )
        }),
{
    lemma_same_answers_same_evidence(
        inputs,
        request.workspace_root@,
        owner,
        text,
        request.context.key(),
        queries,
        snapshot,
        session,
        first,
        queries,
        snapshot_again,
        session_again,
        second,
    );
    let basis = basis_for_publication(
        request,
        owner,
        reads_view(first.sources@),
        derived.ancestor_resources@,
        resources,
    );
    let before = refreshed_row(request, owner.id, basis, generation_id);
    let after = refreshed_row(request, owner.id, basis, next_generation_id);
    lemma_publishing_again_replaces(rows, before, after);
    lemma_publishing_is_local(rows, after, other);
}

// ---------------------------------------------------------------------
// Merging
// ---------------------------------------------------------------------

/// The tables after a merge. It is made under a generation of its own at the
/// Workspace revision as it stands: one that was merged becomes the stable
/// one, and one that was refused is aborted and leaves everything else as it
/// was.
pub open spec fn after_merge(
    tables: TablesView,
    revision: Chars,
    merged: Result<MergeOutcome, MergeError>,
) -> TablesView {
    let id = tables.next_generation_id;
    match merged {
        Ok(_) => TablesView {
            generations: tables.generations.push(
                GenerationView {
                    id,
                    state: GenerationState::Stable,
                    basis: revision,
                    abort_reason: None,
                },
            ),
            next_generation_id: (id + 1) as i64,
            stable: Some(id),
            ..tables
        },
        Err(error) => TablesView {
            generations: tables.generations.push(
                GenerationView {
                    id,
                    state: GenerationState::Aborted,
                    basis: revision,
                    abort_reason: Some(error.detail@),
                },
            ),
            next_generation_id: (id + 1) as i64,
            ..tables
        },
    }
}

/// Account for one contribution that was merged into the graph, or refused.
pub fn merge_evidence(
    tables: &mut IndexTables,
    merged: Result<MergeOutcome, MergeError>,
) -> (outcome: Result<MergeOutcome, PythonSemanticError>)
    requires
        old(tables)@.next_generation_id < i64::MAX,
    ensures
        match old(tables)@.revision {
            None => {
                &&& outcome == Err::<MergeOutcome, PythonSemanticError>(
                    PythonSemanticError::Index(SemanticIndexError::ClockNotBootstrapped),
                )
                &&& final(tables)@ == old(tables)@
            },
            Some(revision) => {
                &&& outcome == match merged {
                    Ok(done) => Ok::<MergeOutcome, PythonSemanticError>(done),
                    Err(error) => Err(PythonSemanticError::Merge(error)),
                }
                &&& final(tables)@ == after_merge(old(tables)@, revision, merged)
            },
        },
{
    let revision = match &tables.revision {
        Some(revision) => revision.clone(),
        None => return Err(PythonSemanticError::Index(SemanticIndexError::ClockNotBootstrapped)),
    };
    let ghost held = generations_view(tables.generations@);
    let id: i64 = tables.next_generation_id;
    tables.next_generation_id = id + 1;
    match merged {
        Ok(done) => {
            let record = GenerationRecord {
                id,
                state: GenerationState::Stable,
                basis_workspace_revision: revision,
                abort_reason: None,
            };
            tables.generations.push(record);
            tables.stable_generation_id = Some(id);
            assert(generations_view(tables.generations@) =~= held.push(record@));
            Ok(done)
        },
        Err(error) => {
            let record = GenerationRecord {
                id,
                state: GenerationState::Aborted,
                basis_workspace_revision: revision,
                abort_reason: Some(error.detail.clone()),
            };
            tables.generations.push(record);
            assert(generations_view(tables.generations@) =~= held.push(record@));
            Err(PythonSemanticError::Merge(error))
        },
    }
}

/// A refused merge writes nothing at all: nothing but its own aborted
/// generation is new, and readers see what they saw.
pub proof fn lemma_a_refused_merge_writes_nothing(
    tables: TablesView,
    revision: Chars,
    error: MergeError,
)
    ensures
        ({
            let after = after_merge(tables, revision, Err(error));
            &&& after.stable == tables.stable
            &&& after.revision == tables.revision
            &&& after.change_seq == tables.change_seq
            &&& after.resources == tables.resources
            &&& after.journal == tables.journal
            &&& after.component == tables.component
            &&& after.generations.drop_last() == tables.generations
            &&& after.generations.last().state == GenerationState::Aborted
        }),
{
    let after = after_merge(tables, revision, Err(error));
    assert(after.generations.drop_last() =~= tables.generations);
}

/// Merging keeps the tables in order: no generation is left building, and
/// readers see a stable one.
pub proof fn lemma_merging_keeps_order(
    tables: TablesView,
    revision: Chars,
    merged: Result<MergeOutcome, MergeError>,
)
    requires
        in_order(tables),
        tables.next_generation_id < i64::MAX,
    ensures
        in_order(after_merge(tables, revision, merged)),
{
    let after = after_merge(tables, revision, merged);
    let last = tables.generations.len() as int;
    if merged is Ok {
        assert(after.generations[last].id == tables.next_generation_id);
    } else if let Some(stable) = tables.stable {
        let i = choose|i: int|
            0 <= i < tables.generations.len() && (#[trigger] tables.generations[i]).id == stable
                && tables.generations[i].state == GenerationState::Stable;
        assert(after.generations[i] == tables.generations[i]);
    }
    assert forall|i: int| 0 <= i < after.generations.len() implies (
    #[trigger] after.generations[i]).id < after.next_generation_id && after.generations[i].state
        != GenerationState::Building by {
        if i < last {
            assert(after.generations[i] == tables.generations[i]);
        }
    }
}

/// What a refresh came to, once its evidence was merged or refused.
pub fn finish_refresh(
    tables: &mut IndexTables,
    published: PublishedEvidence,
    merged: Result<MergeOutcome, MergeError>,
) -> (outcome: Result<RefreshOutcome, PythonSemanticError>)
    requires
        old(tables)@.next_generation_id < i64::MAX,
    ensures
        match old(tables)@.revision {
            None => {
                &&& outcome == Err::<RefreshOutcome, PythonSemanticError>(
                    PythonSemanticError::Index(SemanticIndexError::ClockNotBootstrapped),
                )
                &&& final(tables)@ == old(tables)@
            },
            Some(revision) => {
                &&& final(tables)@ == after_merge(old(tables)@, revision, merged)
                &&& match merged {
                    Err(error) => outcome == Err::<RefreshOutcome, PythonSemanticError>(
                        PythonSemanticError::Merge(error),
                    ),
                    Ok(done) => {
                        &&& outcome matches Ok(refreshed)
                        &&& refreshed.publication == published.publication
                        &&& refreshed.merged == done
                        &&& refreshed.deferred == published.deferred
                        &&& refreshed.unproven_overrides == published.unproven_overrides
                        &&& refreshed.evidence_count == published.evidence@.len()
                        &&& all_chars(refreshed.report@) == evidence_view(
                            published.evidence@,
                        ).map_values(|item: EvidenceView| evidence_line(item))
                    },
                }
            },
        },
{
    let done = match merge_evidence(tables, merged) {
        Ok(done) => done,
        Err(error) => return Err(error),
    };
    let report = report_of(published.evidence.as_slice());
    Ok(
        RefreshOutcome {
            publication: published.publication,
            merged: done,
            deferred: published.deferred,
            unproven_overrides: published.unproven_overrides,
            evidence_count: published.evidence.len(),
            report,
        },
    )
}

// ---------------------------------------------------------------------
// One refresh after another
// ---------------------------------------------------------------------

/// How much the graph holds.
pub struct GraphCounts {
    pub relations: nat,
    pub evidence: nat,
    pub conflicts: nat,
}

/// What a refresh changes: the owners' rows, the generations, and the graph.
pub struct Standing<G> {
    pub rows: Seq<RowView>,
    pub tables: TablesView,
    pub graph: G,
}

/// How evidence is merged into a graph, under the owner's status.
pub type Merging<G> = spec_fn(G, StatusView, Seq<EvidenceView>) -> (
    G,
    Result<MergeOutcome, MergeError>,
);

/// What was collected and derived for an owner.
pub struct Contribution {
    pub sources: Sources,
    pub ancestors: Seq<ResourceId>,
    pub collected: Seq<EvidenceView>,
    pub derived: Seq<EvidenceView>,
}

pub open spec fn contribution_of(collected: Collected, derived: Derivation) -> Contribution {
    Contribution {
        sources: reads_view(collected.sources@),
        ancestors: derived.ancestor_resources@,
        collected: evidence_view(collected.produced.evidence@),
        derived: evidence_view(derived.evidence@),
    }
}

/// One refresh as a whole: the contribution is published under a
/// generation, and its evidence is merged under the status that this gave
/// the owner. A candidate that is obsolete changes nothing, and a merge that
/// is refused leaves the graph.
pub open spec fn refreshed_once<G>(
    standing: Standing<G>,
    merging: Merging<G>,
    request: RefreshRequest<'_>,
    owner: Resource,
    resources: Seq<Resource>,
    contribution: Contribution,
    generation_id: i64,
    begun_at: Chars,
    now: Seq<Resource>,
    revision: Chars,
) -> (Standing<G>, Option<MergeOutcome>) {
    let basis = basis_for_publication(
        request,
        owner,
        contribution.sources,
        contribution.ancestors,
        resources,
    );
    if publication_obsolete(basis, request.context.language, begun_at, now, revision) is Some {
        (standing, None)
    } else {
        let rows = with_publication(
            standing.rows,
            refreshed_row(request, owner.id, basis, generation_id),
        );
        let (graph, merged) = merging(
            standing.graph,
            status_in(rows, owner_view(request, owner.id)),
            handed_over(contribution.collected, contribution.derived, generation_id),
        );
        let tables = after_merge(standing.tables, revision, merged);
        match merged {
            Ok(done) => (Standing { rows, tables, graph }, Some(done)),
            Err(_) => (Standing { rows, tables, ..standing }, None),
        }
    }
}

/// Merging evidence that was merged before finds nothing open and writes
/// nothing new: it only says again, under a later generation, what the graph
/// holds.
pub open spec fn repeats_itself<G>(
    merging: Merging<G>,
    counted: spec_fn(G) -> GraphCounts,
    graph: G,
    status: StatusView,
    evidence: Seq<EvidenceView>,
    later: StatusView,
    evidence_again: Seq<EvidenceView>,
) -> bool {
    let (once, merged) = merging(graph, status, evidence);
    let (twice, merged_again) = merging(once, later, evidence_again);
    merged is Ok ==> {
        &&& merged_again matches Ok(done)
        &&& done.gaps_resolved == 0
        &&& done.gaps_restored == 0
        &&& done.relations_created == 0
        &&& done.relations_removed == 0
        &&& counted(twice) == counted(once)
    }
}

/// A refresh is idempotent: where merging the same evidence again repeats
/// itself, a second refresh over the same rows and answers succeeds, closes
/// no gap and creates no relation, and leaves as many relations, pieces of
/// evidence, conflicts and publications as there were. The owner stays
/// current, no other owner moves, and all that is new in the tables is the
/// generation that it was made under.
pub proof fn lemma_a_refresh_is_idempotent<G, Q: PythonQueries>(
    standing: Standing<G>,
    merging: Merging<G>,
    counted: spec_fn(G) -> GraphCounts,
    request: RefreshRequest<'_>,
    owner: Resource,
    resources: Seq<Resource>,
    inputs: RefreshInputs<'_>,
    text: Chars,
    queries: Q,
    snapshot: u64,
    session: Session,
    first: Collected,
    snapshot_again: u64,
    session_again: Session,
    second: Collected,
    derived: Derivation,
    generation_id: i64,
    next_generation_id: i64,
    now: Seq<Resource>,
    revision: Chars,
    other: OwnerView,
)
    requires
        session_ran(
            session,
            queries,
            snapshot,
            inputs,
            request.workspace_root@,
            owner,
            text,
            request.context.key(),
            Ok(first),
        ),
        session_ran(
            session_again,
            queries,
            snapshot_again,
            inputs,
            request.workspace_root@,
            owner,
            text,
            request.context.key(),
            Ok(second),
        ),
        went_alike(session, session_again),
        refreshed_once(
            standing,
            merging,
            request,
            owner,
            resources,
            contribution_of(first, derived),
            generation_id,
            revision,
            now,
            revision,
        ).1 is Some,
        ({
            let contribution = contribution_of(first, derived);
            let basis = basis_for_publication(
                request,
                owner,
                contribution.sources,
                contribution.ancestors,
                resources,
            );
            repeats_itself(
                merging,
                counted,
                standing.graph,
                refreshed_row(request, owner.id, basis, generation_id).status,
                handed_over(contribution.collected, contribution.derived, generation_id),
                refreshed_row(request, owner.id, basis, next_generation_id).status,
                handed_over(contribution.collected, contribution.derived, next_generation_id),
            )
        }),
    ensures
        ({
            let (once, _) = refreshed_once(
                standing,
                merging,
                request,
                owner,
                resources,
                contribution_of(first, derived),
                generation_id,
                revision,
                now,
                revision,
            );
            let (twice, outcome) = refreshed_once(
                once,
                merging,
                request,
                owner,
                resources,
                contribution_of(second, derived),
                next_generation_id,
                revision,
                now,
                revision,
            );
            &&& outcome matches Some(done)
            &&& done.gaps_resolved == 0
            &&& done.relations_created == 0
            &&& done.relations_removed == 0
            &&& counted(twice.graph) == counted(once.graph)
            &&& twice.rows.len() == once.rows.len()
            &&& status_in(twice.rows, owner_view(request, owner.id)).state
                == SemanticState::Current
            &&& status_in(twice.rows, owner_view(request, owner.id)).basis == status_in(
                once.rows,
                owner_view(request, owner.id),
            ).basis
            &&& other != owner_view(request, owner.id) ==> status_in(twice.rows, other)
                == status_in(once.rows, other)
            &&& twice.tables.generations.drop_last() == once.tables.generations
            &&& twice.tables.resources == once.tables.resources
            &&& twice.tables.journal == once.tables.journal
            &&& twice.tables.revision == once.tables.revision
            &&& twice.tables.change_seq == once.tables.change_seq
        }),
{
    lemma_same_answers_same_evidence(
        inputs,
        request.workspace_root@,
        owner,
        text,
        request.context.key(),
        queries,
        snapshot,
        session,
        first,
        queries,
        snapshot_again,
        session_again,
        second,
    );
    assert(contribution_of(second, derived) == contribution_of(first, derived));
    let contribution = contribution_of(first, derived);
    let basis = basis_for_publication(
        request,
        owner,
        contribution.sources,
        contribution.ancestors,
        resources,
    );
    let before = refreshed_row(request, owner.id, basis, generation_id);
    let after = refreshed_row(request, owner.id, basis, next_generation_id);
    let rows = with_publication(standing.rows, before);
    lemma_publishing_again_replaces(standing.rows, before, after);
    lemma_publishing_is_local(standing.rows, before, other);
    lemma_publishing_is_local(rows, after, other);
    let (once, _) = refreshed_once(
        standing,
        merging,
        request,
        owner,
        resources,
        contribution,
        generation_id,
        revision,
        now,
        revision,
    );
    let (twice, _) = refreshed_once(
        once,
        merging,
        request,
        owner,
        resources,
        contribution,
        next_generation_id,
        revision,
        now,
        revision,
    );
    assert(twice.tables.generations.drop_last() =~= once.tables.generations);
}

} // verus!
