use std::collections::BTreeMap;
use std::sync::Mutex;

use brainprint_engine::graph::{
    IntendedRelation, PersistedUnresolved, RelationKind, UnresolvedReason,
};
use brainprint_engine::index_tables::{IndexTables, WatcherContinuity};
use brainprint_engine::model::{
    Occurrence, OccurrenceKind, OccurrenceRef, Resource, ResourceId, ResourceKind,
    ResourceLanguage, ResourceRole, ResourceState, SourcePoint, SourceSpan, SymbolId, WorkspaceId,
};
use brainprint_engine::python_semantic::batch::{notify_watched_files, BatchPolicy};
use brainprint_engine::python_semantic::conversation::{Conversation, PythonQueries};
use brainprint_engine::python_semantic::coordinates::{Position, Range};
use brainprint_engine::python_semantic::environment::{EnvironmentAssurance, EnvironmentIdentity};
use brainprint_engine::python_semantic::host::PythonSettings;
use brainprint_engine::python_semantic::lifecycle::{
    availability, current_inputs, declares_pyright, discover_config, invalidate_for_config,
    mark_unavailable, plan_changes, refresh_owners, revalidate_context, total_merged,
    watched_changes, withdraw_affected, BackendReadiness, ChangeKind, ConfigSource, OwnerOutcome,
    PythonProjectConfig, ResourceChange, SemanticAvailability,
};
use brainprint_engine::python_semantic::normalize::{SourceText, SymbolAnchor};
use brainprint_engine::python_semantic::protocol::{
    Location, PythonRequest, PythonResponse, TypeAnswer, WatchedChangeKind, COMPATIBILITY_CLASS,
    FORBIDDEN_SYNC_METHODS, TESTED_PROTOCOL_VERSION,
};
use brainprint_engine::python_semantic::refresh::{
    capability_report, collect_evidence, config_basis, finish_refresh, gaps_to_ask,
    inventory_fingerprint, publish_evidence, Collected, Derivation, MergeOutcome,
    PublicationMoment, PythonSemanticError, RefreshInputs, RefreshOutcome, RefreshRequest,
};
use brainprint_engine::python_semantic::uri::path_to_uri;
use brainprint_engine::runtime::{RequestFailure, RuntimeState};
use brainprint_engine::semantic::{
    AnalysisContext, SemanticCapability, Support, ToolchainIdentity,
};
use brainprint_engine::semantic_index::{
    CurrentInputs, PublicationRow, SemanticIndex, SemanticOwner, SemanticState, SemanticStatus,
    BACKEND_UNAVAILABLE_CODE, CONFIG_CHANGED_CODE, ENVIRONMENT_CHANGED_CODE,
    ENVIRONMENT_UNPROVEN_CODE, INVENTORY_CHANGED_CODE, PROFILE_CHANGED_CODE, SOURCE_CHANGED_CODE,
};

const ROOT: &str = "/w";

const IMPL: &str = "import json\n\nfrom .base import Base\n\n\nclass Impl(Base):\n    \
def run(self, value: int) -> str:\n        return json.dumps(value)\n\n\n\
def call(x: Base):\n    return x.run(1)\n";
const BASE: &str = "class Base:\n    def run(self, value: int) -> str:\n        ...\n";
const TWIN: &str = "class Other:\n    def run(self, value: int) -> str:\n        ...\n";
const IMPORTS: &str =
    "from .base import Base\nfrom pkg.base import Base as Absolute\nfrom ..outside import thing\n";
const USES: &str = "from .exports import Exported\n\n\ndef make():\n    return Exported()\n";
const UNICODE_CASE: &str = "from .base import Base\n\n\ndef call(x: Base, value):\n    \
변수 = x.run(1)\n    return 변수 + str(value)\n";

/// An indexed Python Workspace.
struct Fixture {
    resources: Vec<Resource>,
    texts: Vec<SourceText>,
    anchors: Vec<SymbolAnchor>,
}

fn resource_row(value: u128, rel: &str, language: Option<ResourceLanguage>) -> Resource {
    Resource {
        id: ResourceId { value },
        path_rel: rel.to_owned(),
        path_key: rel.to_owned(),
        kind: ResourceKind::File,
        role: ResourceRole::Source,
        language,
        size_bytes: 1,
        mtime_ns: 0,
        fingerprint: format!("fp-{rel}"),
        content_hash: Some(format!("hash-{rel}")),
        state: ResourceState::Active,
        resource_revision: format!("rev-{rel}"),
        generated_kind: None,
        container_resource_id: None,
    }
}

/// Where the nth `needle` starts.
fn find_nth(text: &str, needle: &str, nth: usize) -> usize {
    let mut from = 0;
    let mut at = 0;
    for _ in 0..=nth {
        at = text[from..].find(needle).expect("needle") + from;
        from = at + 1;
    }
    at
}

impl Fixture {
    fn create() -> Self {
        let sources = [
            ("pkg/base.py", BASE),
            ("pkg/impl.py", IMPL),
            ("pkg/imports.py", IMPORTS),
            ("pkg/twin.py", TWIN),
            ("pkg/unicode_case.py", UNICODE_CASE),
            ("pkg/uses.py", USES),
        ];
        let mut fixture = Fixture {
            resources: Vec::new(),
            texts: Vec::new(),
            anchors: Vec::new(),
        };
        for (at, (rel, text)) in sources.iter().enumerate() {
            let row = resource_row(at as u128 + 1, rel, Some(ResourceLanguage::Python));
            fixture.texts.push(SourceText {
                resource: row.id,
                text: (*text).to_owned(),
            });
            fixture.resources.push(row);
        }
        fixture
            .resources
            .push(resource_row(90, "pyrightconfig.json", None));
        for (value, rel, name) in [
            (1, "pkg/base.py", "Base"),
            (2, "pkg/base.py", "run"),
            (3, "pkg/impl.py", "Impl"),
            (4, "pkg/impl.py", "run"),
            (5, "pkg/impl.py", "call"),
            (6, "pkg/twin.py", "Other"),
            (7, "pkg/twin.py", "run"),
        ] {
            let start_byte = fixture.text(rel).find(name).expect("declared");
            fixture.anchors.push(SymbolAnchor {
                resource: fixture.resource(rel).id,
                start_byte,
                end_byte: start_byte + name.len(),
                symbol: SymbolId { value },
            });
        }
        fixture
    }

    fn resource(&self, rel: &str) -> Resource {
        self.resources
            .iter()
            .find(|resource| resource.path_key == rel)
            .unwrap_or_else(|| panic!("{rel} is indexed"))
            .clone()
    }

    fn text(&self, rel: &str) -> String {
        let id = self.resource(rel).id;
        self.texts
            .iter()
            .find(|held| held.resource == id)
            .expect("source")
            .text
            .clone()
    }

    fn uri(&self, rel: &str) -> String {
        path_to_uri(&format!("{ROOT}/{rel}"))
    }

    /// The Symbol that is declared under this name in this file.
    fn symbol(&self, rel: &str, name: &str) -> SymbolId {
        let id = self.resource(rel).id;
        let text = self.text(rel);
        self.anchors
            .iter()
            .find(|anchor| {
                anchor.resource == id && &text[anchor.start_byte..anchor.end_byte] == name
            })
            .expect("declared")
            .symbol
    }

    /// The zero-based position of the nth `needle`.
    fn position(&self, rel: &str, needle: &str, nth: usize) -> Position {
        let text = self.text(rel);
        let at = find_nth(&text, needle, nth);
        let line = text[..at].matches('\n').count();
        let line_start = text[..at].rfind('\n').map_or(0, |index| index + 1);
        Position::new(
            u32::try_from(line).expect("line fits"),
            u32::try_from(text[line_start..at].encode_utf16().count()).expect("character fits"),
        )
    }

    /// The range of the nth `needle`.
    fn range(&self, rel: &str, needle: &str, nth: usize) -> Range {
        let start = self.position(rel, needle, nth);
        Range::new(
            start,
            Position::new(
                start.line,
                start.character + u32::try_from(needle.encode_utf16().count()).expect("width fits"),
            ),
        )
    }

    /// A location naming the nth `needle`, the way the backend names a
    /// definition.
    fn location(&self, rel: &str, needle: &str, nth: usize) -> Location {
        Location {
            uri: self.uri(rel),
            range: self.range(rel, needle, nth),
        }
    }

    /// The sites that structure alone could not resolve, with their kinds.
    fn sites(&self, rel: &str) -> Vec<(OccurrenceRef, RelationKind, &'static str)> {
        let site = |kind, needle: &str, nth| {
            let text = self.text(rel);
            let start_byte = find_nth(&text, needle, nth);
            OccurrenceRef {
                kind,
                start_byte,
                end_byte: start_byte + needle.len(),
            }
        };
        match rel {
            "pkg/impl.py" => vec![
                (site(OccurrenceKind::TypeSite, "int", 0), RelationKind::UsesType, "int"),
                (site(OccurrenceKind::TypeSite, "str", 0), RelationKind::UsesType, "str"),
                (site(OccurrenceKind::CallSite, "json.dumps", 0), RelationKind::Calls, "dumps"),
                (site(OccurrenceKind::ReferenceSite, "value", 1), RelationKind::References, "value"),
                (site(OccurrenceKind::CallSite, "x.run", 0), RelationKind::Calls, "run"),
            ],
            "pkg/unicode_case.py" => vec![
                (site(OccurrenceKind::CallSite, "x.run", 0), RelationKind::Calls, "run"),
                (site(OccurrenceKind::CallSite, "str", 0), RelationKind::Calls, "str"),
            ],
            "pkg/uses.py" => vec![(
                site(OccurrenceKind::CallSite, "Exported", 1),
                RelationKind::Calls,
                "Exported",
            )],
            _ => Vec::new(),
        }
    }

    fn occurrences(&self, rel: &str) -> Vec<Occurrence> {
        self.sites(rel)
            .into_iter()
            .map(|(site, _, _)| Occurrence {
                kind: site.kind,
                span: SourceSpan {
                    start_byte: site.start_byte,
                    end_byte: site.end_byte,
                    start: SourcePoint { line: 0, column: 0 },
                    end: SourcePoint { line: 0, column: 0 },
                },
                containing_symbol_id: None,
                resource_revision: self.resource(rel).resource_revision,
                generation_id: 1,
            })
            .collect()
    }

    fn gaps(&self, rel: &str) -> Vec<PersistedUnresolved> {
        self.sites(rel)
            .into_iter()
            .map(|(occurrence, kind, name)| PersistedUnresolved {
                occurrence,
                intended: IntendedRelation::Known(kind),
                lookup_name: name.to_owned(),
                module_hint: if kind == RelationKind::Calls && name != "str" && name != "Exported" {
                    Some("receiver".to_owned())
                } else {
                    None
                },
                reason: UnresolvedReason::TypeSemanticsRequired,
                candidate_truncated: false,
                candidates: Vec::new(),
                resolution_context_key: None,
            })
            .collect()
    }
}

struct State {
    snapshot: u64,
    /// While positive, every snapshot-carrying query is refused and the
    /// snapshot moves.
    stale_budget: u32,
    calls: Vec<PythonRequest>,
}

/// Answers the questions it was told the answers to, and nothing else.
struct ScriptedBackend {
    state: Mutex<State>,
    definitions: BTreeMap<String, Vec<Location>>,
    imports: BTreeMap<String, String>,
    types: BTreeMap<String, TypeAnswer>,
    search_paths: Vec<String>,
    timed_out: bool,
}

#[allow(dead_code)]
impl ScriptedBackend {
    fn new() -> Self {
        ScriptedBackend {
            state: Mutex::new(State {
                snapshot: 7,
                stale_budget: 0,
                calls: Vec::new(),
            }),
            definitions: BTreeMap::new(),
            imports: BTreeMap::new(),
            types: BTreeMap::new(),
            search_paths: Vec::new(),
            timed_out: false,
        }
    }

    fn with_definition(mut self, uri: &str, at: Position, locations: Vec<Location>) -> Self {
        self.definitions.insert(position_key(uri, at), locations);
        self
    }

    fn with_import(mut self, uri: &str, dots: u32, parts: &[&str], to: &str) -> Self {
        self.imports
            .insert(format!("{uri}|{dots}|{}", parts.join(".")), to.to_owned());
        self
    }

    fn with_type(mut self, uri: &str, range: Range, answer: TypeAnswer) -> Self {
        self.types.insert(range_key(uri, range), answer);
        self
    }

    fn with_search_paths(mut self, paths: Vec<String>) -> Self {
        self.search_paths = paths;
        self
    }

    /// Refuse the next `count` snapshot-carrying queries as stale, moving
    /// the snapshot each time.
    fn with_stale_budget(self, count: u32) -> Self {
        self.state.lock().expect("lock").stale_budget = count;
        self
    }

    fn starting_at(self, snapshot: u64) -> Self {
        self.state.lock().expect("lock").snapshot = snapshot;
        self
    }

    fn timing_out(mut self) -> Self {
        self.timed_out = true;
        self
    }

    fn calls(&self) -> Vec<PythonRequest> {
        self.state.lock().expect("lock").calls.clone()
    }

    fn snapshots_seen(&self) -> Vec<u64> {
        self.calls().iter().filter_map(PythonRequest::snapshot).collect()
    }
}

impl PythonQueries for ScriptedBackend {
    fn call(&self, request: &PythonRequest) -> Result<PythonResponse, RequestFailure> {
        if self.timed_out {
            return Err(RequestFailure::TimedOut { after_ms: 50 });
        }
        let mut state = self.state.lock().expect("lock");
        state.calls.push(request.clone());
        if request.snapshot().is_some() && state.stale_budget > 0 {
            state.stale_budget -= 1;
            state.snapshot += 1;
            return Ok(PythonResponse::SnapshotStale);
        }
        let snapshot = state.snapshot;
        drop(state);
        Ok(match request {
            PythonRequest::Snapshot => PythonResponse::Snapshot(snapshot),
            PythonRequest::ProtocolVersion => {
                PythonResponse::ProtocolVersion(TESTED_PROTOCOL_VERSION.to_owned())
            }
            PythonRequest::SearchPaths { .. } => {
                PythonResponse::SearchPaths(self.search_paths.clone())
            }
            PythonRequest::ResolveImport { source_uri, module, .. } => PythonResponse::Import(
                self.imports
                    .get(&format!(
                        "{source_uri}|{}|{}",
                        module.leading_dots,
                        module.name_parts.join(".")
                    ))
                    .cloned(),
            ),
            PythonRequest::DeclaredType { uri, range, .. }
            | PythonRequest::ComputedType { uri, range, .. }
            | PythonRequest::ExpectedType { uri, range, .. } => {
                PythonResponse::Type(self.types.get(&range_key(uri, *range)).cloned())
            }
            PythonRequest::Definition { uri, position }
            | PythonRequest::Declaration { uri, position }
            | PythonRequest::TypeDefinition { uri, position } => PythonResponse::Locations(
                self.definitions
                    .get(&position_key(uri, *position))
                    .cloned()
                    .unwrap_or_default(),
            ),
            PythonRequest::References { .. } => PythonResponse::Locations(Vec::new()),
            PythonRequest::PrepareCallHierarchy { .. } => {
                PythonResponse::CallHierarchyItems(Vec::new())
            }
            PythonRequest::IncomingCalls { .. } => PythonResponse::IncomingCalls(Vec::new()),
            PythonRequest::WatchedFilesChanged { .. } => PythonResponse::Delivered,
        })
    }
}

fn position_key(uri: &str, at: Position) -> String {
    format!("{uri}#{}:{}", at.line, at.character)
}

fn range_key(uri: &str, range: Range) -> String {
    format!(
        "{uri}#{}:{}-{}:{}",
        range.start.line, range.start.character, range.end.line, range.end.character
    )
}

fn context() -> AnalysisContext {
    AnalysisContext {
        workspace: WorkspaceId { value: 5 },
        language: ResourceLanguage::Python,
        project_root: "pkg".to_owned(),
        toolchain: ToolchainIdentity {
            backend_version: "1.1.414".to_owned(),
            backend_compatibility_class: COMPATIBILITY_CLASS.to_owned(),
            environment_fingerprint: "sha256:test-env".to_owned(),
        },
    }
}

/// The position of the last character of the nth `needle`, which is where
/// the adapter asks.
fn last_character(fixture: &Fixture, rel: &str, needle: &str, nth: usize) -> Position {
    let range = fixture.range(rel, needle, nth);
    Position::new(range.end.line, range.end.character - 1)
}

/// Collect the evidence of one Resource against a scripted backend.
fn collect(
    fixture: &Fixture,
    backend: &ScriptedBackend,
    rel: &str,
    extra: Vec<PersistedUnresolved>,
) -> Result<Collected, PythonSemanticError> {
    let context = context();
    let capabilities = capability_report();
    let config = config_basis(&PythonSettings::default(), None);
    let occurrences = fixture.occurrences(rel);
    let gaps = gaps_to_ask(fixture.gaps(rel), extra);
    let owner_text = Ok(fixture.text(rel));
    collect_evidence(
        &mut Conversation::new(backend),
        &RefreshRequest {
            context: &context,
            workspace_root: ROOT,
            owner: fixture.resource(rel).id,
            config: &config,
            capabilities: &capabilities,
            policy: BatchPolicy::default(),
        },
        RefreshInputs {
            resources: &fixture.resources,
            anchors: &fixture.anchors,
            texts: &fixture.texts,
            owner_text: &owner_text,
            occurrences: &occurrences,
            gaps: &gaps,
            decorators: &[],
            analysis_profile_id: 1,
        },
    )
}

/// Collect the evidence of one Resource and publish it.
fn refresh(
    index: &mut SemanticIndex,
    fixture: &Fixture,
    backend: &ScriptedBackend,
    rel: &str,
    generation_id: i64,
) -> Result<RefreshOutcome, PythonSemanticError> {
    let collected = collect(fixture, backend, rel, Vec::new())?;
    let context = context();
    let capabilities = capability_report();
    let config = config_basis(&PythonSettings::default(), None);
    let published = publish_evidence(
        index,
        &RefreshRequest {
            context: &context,
            workspace_root: ROOT,
            owner: fixture.resource(rel).id,
            config: &config,
            capabilities: &capabilities,
            policy: BatchPolicy::default(),
        },
        &fixture.resource(rel),
        &fixture.resources,
        collected,
        Derivation {
            evidence: Vec::new(),
            ancestor_resources: Vec::new(),
            unproven: Vec::new(),
        },
        generation_id,
        "w1",
        &PublicationMoment {
            resources: &fixture.resources,
            workspace_revision: "w1",
        },
    )?;
    finish_refresh(&mut tables(), published, Ok(NOTHING_MERGED))
}

const NOTHING_MERGED: MergeOutcome = MergeOutcome {
    gaps_resolved: 0,
    gaps_restored: 0,
    corroborated: 0,
    relations_created: 0,
    relations_removed: 0,
    conflicts: 0,
};

/// The tables of an indexed Workspace.
fn tables() -> IndexTables {
    IndexTables {
        revision: Some("w1".to_owned()),
        change_seq: 0,
        last_reconcile_seq: 0,
        continuity: WatcherContinuity::Continuous,
        journal: Vec::new(),
        generations: Vec::new(),
        next_generation_id: 1,
        stable_generation_id: None,
        component: None,
        resources: Vec::new(),
    }
}

fn owner_of(fixture: &Fixture, rel: &str) -> SemanticOwner {
    SemanticOwner::new(&context().context_key(), fixture.resource(rel).id)
}

/// The scripted answers the fixture needs, for any file.
fn backend(fixture: &Fixture) -> ScriptedBackend {
    ScriptedBackend::new()
        .with_search_paths(Vec::new())
        // `x.run(1)` -> Base.run.
        .with_definition(
            &fixture.uri("pkg/impl.py"),
            last_character(fixture, "pkg/impl.py", "x.run", 0),
            vec![fixture.location("pkg/base.py", "run", 0)],
        )
        // A re-export chain that structure stops at, so `uses.py` has a
        // contribution of its own to be left alone.
        .with_definition(
            &fixture.uri("pkg/uses.py"),
            last_character(fixture, "pkg/uses.py", "Exported", 1),
            vec![fixture.location("pkg/base.py", "Base", 0)],
        )
}

fn state_of(index: &SemanticIndex, fixture: &Fixture, rel: &str) -> SemanticState {
    index.status(&owner_of(fixture, rel)).state
}

/// An index in which each of the files is published, each in a generation
/// of its own.
fn published(fixture: &Fixture, rels: &[&str]) -> SemanticIndex {
    let mut index = SemanticIndex::empty();
    for (at, rel) in rels.iter().enumerate() {
        refresh(&mut index, fixture, &backend(fixture), rel, at as i64 + 1).expect("published");
    }
    index
}

fn defaults() -> PythonProjectConfig {
    PythonProjectConfig {
        source: ConfigSource::Defaults,
        resource: None,
    }
}

fn proven() -> EnvironmentIdentity {
    EnvironmentIdentity {
        fingerprint: "sha256:test-env".to_owned(),
        assurance: EnvironmentAssurance::Proven,
        distributions: 1,
    }
}

fn unproven() -> EnvironmentIdentity {
    EnvironmentIdentity {
        fingerprint: "sha256:test-env".to_owned(),
        assurance: EnvironmentAssurance::Unknown {
            reason: "nothing was observed".to_owned(),
        },
        distributions: 0,
    }
}

fn inputs(fixture: &Fixture, environment: &EnvironmentIdentity) -> CurrentInputs {
    current_inputs(
        &context(),
        &config_basis(&PythonSettings::default(), None),
        &capability_report(),
        &inventory_fingerprint(&fixture.resources, ResourceLanguage::Python),
        environment,
    )
}

fn merged(gaps_restored: usize, relations_removed: usize) -> MergeOutcome {
    MergeOutcome {
        gaps_resolved: 0,
        gaps_restored,
        corroborated: 0,
        relations_created: 0,
        relations_removed,
        conflicts: 0,
    }
}

#[test]
fn two_resources_in_one_context_hold_independent_publications() {
    let fixture = Fixture::create();
    let index = published(&fixture, &["pkg/impl.py", "pkg/twin.py"]);

    assert_eq!(state_of(&index, &fixture, "pkg/impl.py"), SemanticState::Current);
    assert_eq!(state_of(&index, &fixture, "pkg/twin.py"), SemanticState::Current);
    assert_eq!(
        index.owners_of_context(&context().context_key()).len(),
        2,
        "one row per owner, not one per context"
    );
    // Different generations, both current: sharing a backend process is
    // not sharing a currentness flag.
    let first = index.status(&owner_of(&fixture, "pkg/impl.py")).stable_generation_id;
    let second = index.status(&owner_of(&fixture, "pkg/twin.py")).stable_generation_id;
    assert_ne!(first, second);
}

#[test]
fn refreshing_one_owner_neither_revalidates_nor_dirties_another() {
    let fixture = Fixture::create();
    let mut index = published(&fixture, &["pkg/twin.py"]);
    let before = index.status(&owner_of(&fixture, "pkg/twin.py"));

    refresh(&mut index, &fixture, &backend(&fixture), "pkg/impl.py", 2).expect("A");
    let after = index.status(&owner_of(&fixture, "pkg/twin.py"));

    assert_eq!(before.state, SemanticState::Current);
    assert_eq!(after.state, SemanticState::Current);
    assert_eq!(
        before.stable_generation_id, after.stable_generation_id,
        "A's publication must not silently vouch for B"
    );
}

#[test]
fn an_owner_goes_dirty_only_when_its_own_basis_moves() {
    let fixture = Fixture::create();
    let mut index = published(&fixture, &["pkg/impl.py", "pkg/twin.py"]);

    // impl.py's basis names base.py; twin.py's does not.
    let touched = index.owners_depending_on(fixture.resource("pkg/base.py").id);
    assert!(touched.contains(&owner_of(&fixture, "pkg/impl.py")));
    assert!(!touched.contains(&owner_of(&fixture, "pkg/twin.py")));
    for owner in &touched {
        index.mark_dirty(owner, SOURCE_CHANGED_CODE);
    }

    assert_eq!(state_of(&index, &fixture, "pkg/impl.py"), SemanticState::Dirty);
    assert_eq!(state_of(&index, &fixture, "pkg/twin.py"), SemanticState::Current);
}

#[test]
fn a_withdrawal_reports_what_it_undid_and_dirties_the_owner() {
    let fixture = Fixture::create();
    let mut index = published(&fixture, &["pkg/impl.py"]);
    let affected = index.owners_depending_on(fixture.resource("pkg/base.py").id);
    assert!(affected.contains(&owner_of(&fixture, "pkg/impl.py")));
    let report = withdraw_affected(
        &mut index,
        &affected,
        &[merged(3, 2)],
        BACKEND_UNAVAILABLE_CODE,
    );
    assert_eq!(report.gaps_restored, 3, "displaced gaps come back");
    assert_eq!(report.relations_removed, 2, "semantic-only edges are removed");
    assert_eq!(report.owners, affected);
    assert_eq!(state_of(&index, &fixture, "pkg/impl.py"), SemanticState::Dirty);
}

#[test]
fn withdrawing_one_owner_keeps_another_current() {
    let fixture = Fixture::create();
    let mut index = published(&fixture, &["pkg/impl.py", "pkg/uses.py"]);
    let only_a = [owner_of(&fixture, "pkg/impl.py")];
    withdraw_affected(&mut index, &only_a, &[merged(0, 0)], BACKEND_UNAVAILABLE_CODE);
    assert_eq!(state_of(&index, &fixture, "pkg/uses.py"), SemanticState::Current);
    assert_eq!(state_of(&index, &fixture, "pkg/impl.py"), SemanticState::Dirty);
}

#[test]
fn an_unrelated_owner_is_never_in_the_affected_set() {
    let fixture = Fixture::create();
    let index = published(&fixture, &["pkg/impl.py", "pkg/twin.py"]);
    let plan = plan_changes(
        &index,
        &context(),
        &[ResourceChange::new(
            fixture.resource("pkg/base.py").id,
            ChangeKind::Changed,
            "pkg/base.py",
        )],
        &defaults(),
        &[],
    );
    assert!(plan.affected.contains(&owner_of(&fixture, "pkg/impl.py")));
    assert!(!plan.affected.contains(&owner_of(&fixture, "pkg/twin.py")));
    assert!(!plan.inventory_moved, "a content edit moves no module");
}

#[test]
fn adding_or_removing_a_module_reaches_every_owner_in_the_context() {
    let fixture = Fixture::create();
    let index = published(&fixture, &["pkg/impl.py", "pkg/twin.py"]);
    for kind in [ChangeKind::Added, ChangeKind::Deleted, ChangeKind::Moved] {
        let plan = plan_changes(
            &index,
            &context(),
            &[ResourceChange::new(
                fixture.resource("pkg/base.py").id,
                kind,
                "pkg/new_module.py",
            )],
            &defaults(),
            &[],
        );
        assert!(plan.inventory_moved, "{kind:?} moves the module set");
        // Python resolves modules program-wide, so an untouched file's
        // imports can mean something else afterwards.
        assert!(plan.affected.contains(&owner_of(&fixture, "pkg/twin.py")));
    }
}

#[test]
fn a_non_python_change_does_not_move_the_python_inventory() {
    let fixture = Fixture::create();
    let index = published(&fixture, &["pkg/impl.py"]);
    let plan = plan_changes(
        &index,
        &context(),
        &[ResourceChange::new(
            fixture.resource("pkg/base.py").id,
            ChangeKind::Added,
            "docs/readme.md",
        )
        .with_language(None)],
        &defaults(),
        &[],
    );
    assert!(
        !plan.inventory_moved,
        "a markdown file is not a Python module"
    );
}

#[test]
fn a_change_batch_becomes_one_deduped_watched_file_notification() {
    let fixture = Fixture::create();
    let changes = vec![
        ResourceChange::new(
            fixture.resource("pkg/impl.py").id,
            ChangeKind::Changed,
            "pkg/impl.py",
        ),
        // The same file again, from a second owner's refresh.
        ResourceChange::new(
            fixture.resource("pkg/impl.py").id,
            ChangeKind::Changed,
            "pkg/impl.py",
        ),
        ResourceChange::new(
            fixture.resource("pkg/base.py").id,
            ChangeKind::Added,
            "pkg/added.py",
        ),
        ResourceChange::new(
            fixture.resource("pkg/twin.py").id,
            ChangeKind::Deleted,
            "pkg/gone.py",
        ),
        ResourceChange::new(
            fixture.resource("pkg/uses.py").id,
            ChangeKind::Moved,
            "pkg/new_name.py",
        )
        .from_previous("pkg/old_name.py"),
    ];

    let watched = watched_changes(ROOT, &changes);
    let kinds: Vec<(String, WatchedChangeKind)> = watched
        .iter()
        .map(|change| {
            (
                change.uri.rsplit('/').next().unwrap_or_default().to_owned(),
                change.kind,
            )
        })
        .collect();
    assert!(kinds.contains(&("impl.py".to_owned(), WatchedChangeKind::Changed)));
    assert!(kinds.contains(&("added.py".to_owned(), WatchedChangeKind::Created)));
    assert!(kinds.contains(&("gone.py".to_owned(), WatchedChangeKind::Deleted)));
    // A move is a delete of the old locator and a change at the new one.
    assert!(kinds.contains(&("old_name.py".to_owned(), WatchedChangeKind::Deleted)));
    assert!(kinds.contains(&("new_name.py".to_owned(), WatchedChangeKind::Changed)));
    assert_eq!(kinds.len(), 5, "the duplicate impl.py collapsed: {kinds:?}");

    // Deterministic order, so one Workspace operation is one batch.
    let again = watched_changes(ROOT, &changes);
    assert_eq!(watched, again);
}

#[test]
fn the_lifecycle_never_emits_a_document_overlay() {
    let fixture = Fixture::create();
    let scripted = backend(&fixture);
    let mut index = SemanticIndex::empty();
    refresh(&mut index, &fixture, &scripted, "pkg/impl.py", 1).expect("published");
    let changes = vec![ResourceChange::new(
        fixture.resource("pkg/impl.py").id,
        ChangeKind::Changed,
        "pkg/impl.py",
    )];
    notify_watched_files(&scripted, watched_changes(ROOT, &changes)).expect("notified");

    for request in scripted.calls() {
        let (method, _) = request.wire();
        assert!(
            !FORBIDDEN_SYNC_METHODS.contains(&method),
            "{method} installs an editor overlay over Workspace truth"
        );
    }
    assert!(
        scripted
            .calls()
            .iter()
            .any(|request| matches!(request, PythonRequest::WatchedFilesChanged { .. })),
        "the filesystem change is announced the supported way"
    );
}

#[test]
fn config_discovery_follows_the_backends_own_precedence() {
    let fixture = Fixture::create();
    // The fixture ships a pyrightconfig.json.
    let selected = discover_config(&fixture.resources, &fixture.texts, "");
    assert_eq!(selected.source, ConfigSource::PyrightConfig);
    assert_eq!(
        selected.resource.as_ref().map(|r| r.path_key.as_str()),
        Some("pyrightconfig.json")
    );
}

/// The fixture with a `pyproject.toml` in place of its own configuration.
fn with_pyproject(text: &str) -> Fixture {
    let mut fixture = Fixture::create();
    fixture
        .resources
        .retain(|row| row.path_key != "pyrightconfig.json");
    let row = resource_row(91, "pyproject.toml", None);
    fixture.texts.push(SourceText {
        resource: row.id,
        text: text.to_owned(),
    });
    fixture.resources.push(row);
    fixture
}

#[test]
fn a_pyproject_without_a_pyright_table_is_not_the_config() {
    let other = with_pyproject("[project]\nname = \"x\"\n");
    let selected = discover_config(&other.resources, &other.texts, "");
    assert_eq!(
        selected.source,
        ConfigSource::Defaults,
        "a pyproject that configures something else is not the project config"
    );

    // Give it a [tool.pyright] table and it becomes the selection.
    let governed = with_pyproject(
        "[project]\nname = \"x\"\n\n[tool.pyright]\ntypeCheckingMode = \"strict\"\n",
    );
    let selected = discover_config(&governed.resources, &governed.texts, "");
    assert_eq!(selected.source, ConfigSource::PyProject);
}

#[test]
fn a_pyright_table_is_one_whose_header_names_it() {
    assert!(declares_pyright("  [tool.pyright]  \n"));
    assert!(declares_pyright("[tool.pyright.executionEnvironments]\n"));
    assert!(!declares_pyright("# [tool.pyright]\n"));
    assert!(!declares_pyright("[tool.pyrightish]\n"));
    assert!(!declares_pyright("key = \"[tool.pyright]\"\n"));
}

#[test]
fn changing_which_file_governs_changes_the_config_basis() {
    let settings = PythonSettings::default();
    let fixture = Fixture::create();
    let with_pyright = discover_config(&fixture.resources, &fixture.texts, "");
    let governed = with_pyproject("[tool.pyright]\ntypeCheckingMode = \"strict\"\n");
    let with_pyproject = discover_config(&governed.resources, &governed.texts, "");
    assert_ne!(
        with_pyright.basis(&settings).fingerprint(),
        with_pyproject.basis(&settings).fingerprint(),
        "which file governs is part of the basis, not only its bytes"
    );
}

#[test]
fn a_config_change_dirties_every_owner_in_the_context() {
    let fixture = Fixture::create();
    let mut index = published(&fixture, &["pkg/impl.py", "pkg/twin.py"]);
    let touched = invalidate_for_config(&mut index, &context());
    assert_eq!(touched.len(), 2);
    for rel in ["pkg/impl.py", "pkg/twin.py"] {
        assert_eq!(state_of(&index, &fixture, rel), SemanticState::Dirty);
    }
}

#[test]
fn an_unrelated_json_or_toml_change_is_not_a_config_change() {
    let fixture = Fixture::create();
    let index = published(&fixture, &["pkg/impl.py"]);
    let config = discover_config(&fixture.resources, &fixture.texts, "");
    let plan = plan_changes(
        &index,
        &context(),
        &[ResourceChange::new(
            fixture.resource("pkg/twin.py").id,
            ChangeKind::Changed,
            "tools/other.json",
        )
        .with_language(None)],
        &config,
        &[],
    );
    assert!(!plan.config_moved, "only the selected config counts");

    let governing = fixture.resource("pyrightconfig.json");
    let plan = plan_changes(
        &index,
        &context(),
        &[ResourceChange::new(governing.id, ChangeKind::Changed, "pyrightconfig.json")
            .with_language(None)],
        &config,
        &[],
    );
    assert!(plan.config_moved);
    assert!(plan.affected.contains(&owner_of(&fixture, "pkg/impl.py")));
}

#[test]
fn a_reopen_under_a_proven_unchanged_environment_restores_current_without_a_backend() {
    let fixture = Fixture::create();
    let mut index = published(&fixture, &["pkg/impl.py"]);
    let answers = revalidate_context(
        &mut index,
        &context(),
        &inputs(&fixture, &proven()),
        &fixture.resources,
    );
    assert!(answers.iter().all(|(_, status)| status.is_current()));
    assert_eq!(answers.len(), 1);
}

#[test]
fn a_reopen_under_an_unknown_environment_cannot_restore_current() {
    let fixture = Fixture::create();
    let mut index = published(&fixture, &["pkg/impl.py"]);
    let now = inputs(&fixture, &unproven());
    // Every other input compares equal; only the assurance differs.
    assert_eq!(
        inputs(&fixture, &unproven())
            .with_environment_proven(true)
            .environment_fingerprint,
        now.environment_fingerprint
    );
    let answers = revalidate_context(&mut index, &context(), &now, &fixture.resources);

    let (_, status) = &answers[0];
    assert_eq!(status.state, SemanticState::Dirty);
    assert_eq!(
        status.last_error_code.as_deref(),
        Some(ENVIRONMENT_UNPROVEN_CODE)
    );
    assert!(status.has_last_valid(), "the last valid answer is kept");
}

#[test]
fn a_live_refresh_under_an_unknown_environment_still_publishes_current() {
    let fixture = Fixture::create();
    assert!(!unproven().assurance.is_proven());

    // The backend just analyzed the filesystem as it is, so the result
    // describes the live environment whatever can be proven later.
    let mut index = published(&fixture, &["pkg/impl.py"]);
    assert_eq!(state_of(&index, &fixture, "pkg/impl.py"), SemanticState::Current);

    // And the very next reopen owes a refresh, because that is the
    // claim that cannot be proven from persisted metadata alone.
    let answers = revalidate_context(
        &mut index,
        &context(),
        &inputs(&fixture, &unproven()),
        &fixture.resources,
    );
    assert_eq!(answers[0].1.state, SemanticState::Dirty);
}

#[test]
fn a_changed_proven_environment_invalidates_only_the_owner_publications() {
    let fixture = Fixture::create();
    let mut index = published(&fixture, &["pkg/impl.py"]);
    let mut now = inputs(&fixture, &proven());
    now.environment_fingerprint = "sha256:after-an-install".to_owned();
    let answers = revalidate_context(&mut index, &context(), &now, &fixture.resources);

    assert_eq!(answers[0].1.state, SemanticState::Dirty);
    assert_eq!(
        answers[0].1.last_error_code.as_deref(),
        Some(ENVIRONMENT_CHANGED_CODE)
    );
}

#[test]
fn each_input_that_moved_is_named() {
    let fixture = Fixture::create();
    let code = |now: &CurrentInputs, resources: &[Resource]| {
        let mut index = published(&fixture, &["pkg/impl.py"]);
        index
            .revalidate(&owner_of(&fixture, "pkg/impl.py"), now, resources)
            .last_error_code
    };
    let mut config = inputs(&fixture, &proven());
    config.config_fingerprint = "other".to_owned();
    assert_eq!(code(&config, &fixture.resources).as_deref(), Some(CONFIG_CHANGED_CODE));
    let mut profile = inputs(&fixture, &proven());
    profile.profile_fingerprint = "other".to_owned();
    assert_eq!(code(&profile, &fixture.resources).as_deref(), Some(PROFILE_CHANGED_CODE));
    let mut inventory = inputs(&fixture, &proven());
    inventory.inventory_fingerprint = Some("other".to_owned());
    assert_eq!(code(&inventory, &fixture.resources).as_deref(), Some(INVENTORY_CHANGED_CODE));
    let mut moved = Fixture::create();
    for row in moved.resources.iter_mut() {
        if row.path_key == "pkg/base.py" {
            row.resource_revision = "moved-on".to_owned();
        }
    }
    assert_eq!(
        code(&inputs(&fixture, &proven()), &moved.resources).as_deref(),
        Some(SOURCE_CHANGED_CODE)
    );
    assert_eq!(code(&inputs(&fixture, &proven()), &fixture.resources), None);
}

fn status(state: SemanticState, support: Option<Support>) -> SemanticStatus {
    SemanticStatus {
        state,
        support,
        stable_generation_id: Some(1),
        basis: None,
        last_error_code: None,
    }
}

#[test]
fn availability_separates_a_cold_runtime_from_a_stale_answer() {
    let current = status(SemanticState::Current, Some(Support::Supported));
    let dirty = status(SemanticState::Dirty, Some(Support::Supported));

    // A crash does not invalidate a proof whose inputs still hold.
    assert_eq!(
        availability(&current, RuntimeState::Cold, BackendReadiness::Available),
        SemanticAvailability::CurrentRuntimeCold
    );
    assert_eq!(
        availability(&current, RuntimeState::Ready, BackendReadiness::Available),
        SemanticAvailability::Current
    );
    // No install at all: a current publication is still current, it
    // just cannot be renewed.
    assert_eq!(
        availability(&current, RuntimeState::Cold, BackendReadiness::Unavailable),
        SemanticAvailability::CurrentRuntimeCold
    );
    // An input moved and the backend cannot refresh: not current, and
    // not pretending otherwise.
    assert_eq!(
        availability(&dirty, RuntimeState::Cold, BackendReadiness::Unavailable),
        SemanticAvailability::Unavailable
    );
    assert_eq!(
        availability(&dirty, RuntimeState::Ready, BackendReadiness::Available),
        SemanticAvailability::RefreshRequired
    );
    assert!(!SemanticAvailability::RefreshRequired.serves_current());
    assert!(SemanticAvailability::CurrentRuntimeCold.serves_current());

    // A partial answer is served, and says so.
    let partial = status(SemanticState::Current, Some(Support::Partial));
    assert_eq!(
        availability(&partial, RuntimeState::Ready, BackendReadiness::Available),
        SemanticAvailability::Partial
    );
}

#[test]
fn a_capability_report_does_not_shrink_because_a_process_is_missing() {
    // Implementation support is a product statement; a dead process is
    // a runtime one. Collapsing them would turn a crash into a claim
    // that references cannot be resolved at all.
    let report = capability_report();
    assert_eq!(
        report.support(SemanticCapability::References),
        Support::Supported
    );
    assert_eq!(
        availability(
            &SemanticStatus::none(),
            RuntimeState::Cold,
            BackendReadiness::Unavailable
        ),
        SemanticAvailability::Unavailable,
        "availability is where the outage shows up"
    );
}

#[test]
fn a_crash_with_an_unchanged_basis_keeps_the_publication_current() {
    let fixture = Fixture::create();
    let mut index = published(&fixture, &["pkg/impl.py"]);
    assert_eq!(state_of(&index, &fixture, "pkg/impl.py"), SemanticState::Current);

    // The process dies. Nothing about the Workspace changed, and the
    // environment is still there to be read.
    let status = index.revalidate(
        &owner_of(&fixture, "pkg/impl.py"),
        &inputs(&fixture, &proven()),
        &fixture.resources,
    );
    assert!(
        status.is_current(),
        "a dead process is not a reason to disbelieve a proof: {status:?}"
    );
}

#[test]
fn a_crash_after_an_input_moved_keeps_the_last_answer_and_not_its_currentness() {
    let fixture = Fixture::create();
    let mut index = published(&fixture, &["pkg/impl.py"]);

    // base.py moves, then the backend dies before anything is refreshed.
    let affected = index.owners_depending_on(fixture.resource("pkg/base.py").id);
    withdraw_affected(&mut index, &affected, &[merged(1, 1)], BACKEND_UNAVAILABLE_CODE);
    mark_unavailable(&mut index, &affected, BACKEND_UNAVAILABLE_CODE);

    let status = index.status(&owner_of(&fixture, "pkg/impl.py"));
    assert_eq!(status.state, SemanticState::Unavailable);
    assert!(status.has_last_valid(), "the last valid answer is kept");
}

#[test]
fn a_failed_refresh_keeps_the_last_valid_publication_and_marks_the_owner() {
    let fixture = Fixture::create();
    let mut index = published(&fixture, &["pkg/impl.py"]);
    let published = index.status(&owner_of(&fixture, "pkg/impl.py"));

    let failing = ScriptedBackend::new().timing_out();
    let result = refresh(&mut index, &fixture, &failing, "pkg/impl.py", 2);
    let owners = [owner_of(&fixture, "pkg/impl.py")];
    let outcomes = refresh_owners(&mut index, &owners, vec![result]);

    assert_eq!(outcomes.len(), 1);
    assert!(!outcomes[0].succeeded());
    let after = index.status(&owner_of(&fixture, "pkg/impl.py"));
    assert_eq!(after.state, SemanticState::Dirty);
    assert_eq!(
        after.stable_generation_id, published.stable_generation_id,
        "a failure never replaces a real answer with an empty success"
    );
}

#[test]
fn one_owners_failure_does_not_erase_another_owners_publication() {
    let fixture = Fixture::create();
    let mut index = published(&fixture, &["pkg/twin.py"]);
    let failing = ScriptedBackend::new().timing_out();
    let result = refresh(&mut index, &fixture, &failing, "pkg/impl.py", 2);
    let owners = [owner_of(&fixture, "pkg/impl.py")];
    refresh_owners(&mut index, &owners, vec![result]);
    assert_eq!(state_of(&index, &fixture, "pkg/twin.py"), SemanticState::Current);
}

#[test]
fn a_pass_adds_up_what_its_refreshes_merged() {
    let fixture = Fixture::create();
    let mut index = SemanticIndex::empty();
    let mut done = refresh(&mut index, &fixture, &backend(&fixture), "pkg/impl.py", 1)
        .expect("published");
    done.merged = MergeOutcome {
        gaps_resolved: 2,
        gaps_restored: 1,
        corroborated: 3,
        relations_created: 4,
        relations_removed: 5,
        conflicts: 6,
    };
    let failed = refresh(
        &mut index,
        &fixture,
        &ScriptedBackend::new().timing_out(),
        "pkg/twin.py",
        2,
    );
    let owners = [owner_of(&fixture, "pkg/impl.py"), owner_of(&fixture, "pkg/twin.py")];
    let outcomes = refresh_owners(&mut index, &owners, vec![Ok(done), failed]);
    assert!(outcomes[0].succeeded());
    assert!(matches!(
        &outcomes[1],
        OwnerOutcome::Failed { owner, .. } if *owner == owner_of(&fixture, "pkg/twin.py")
    ));
    assert_eq!(
        total_merged(&outcomes),
        MergeOutcome {
            gaps_resolved: 2,
            gaps_restored: 1,
            corroborated: 3,
            relations_created: 4,
            relations_removed: 5,
            conflicts: 6,
        }
    );
}

#[test]
fn a_reopen_with_an_unchanged_basis_stays_current_without_a_backend() {
    let fixture = Fixture::create();
    let mut index = published(&fixture, &["pkg/impl.py", "pkg/twin.py"]);
    let answers = revalidate_context(
        &mut index,
        &context(),
        &inputs(&fixture, &proven()),
        &fixture.resources,
    );
    assert_eq!(answers.len(), 2);
    assert!(
        answers.iter().all(|(_, status)| status.is_current()),
        "nothing moved, so nothing needed a process to prove it"
    );
}

#[test]
fn a_reopen_after_an_input_moved_reports_dirty_before_any_launch() {
    let fixture = Fixture::create();
    let mut index = published(&fixture, &["pkg/impl.py"]);
    // A different config fingerprint is all it takes.
    let moved = config_basis(
        &PythonSettings {
            type_checking_mode: Some("strict".to_owned()),
            ..PythonSettings::default()
        },
        None,
    );
    let now = current_inputs(
        &context(),
        &moved,
        &capability_report(),
        &inventory_fingerprint(&fixture.resources, ResourceLanguage::Python),
        &proven(),
    );
    let answers = revalidate_context(&mut index, &context(), &now, &fixture.resources);
    assert_eq!(answers.len(), 1);
    assert_eq!(answers[0].1.state, SemanticState::Dirty);
    assert!(answers[0].1.has_last_valid());
}

#[test]
fn a_missed_change_recovered_later_invalidates_the_same_owners() {
    let fixture = Fixture::create();
    let mut index = published(&fixture, &["pkg/impl.py", "pkg/twin.py"]);

    // Reconcile discovers the change a watcher missed. The plan is the
    // same one a live event would have produced.
    let change = || {
        [ResourceChange::new(
            fixture.resource("pkg/base.py").id,
            ChangeKind::Changed,
            "pkg/base.py",
        )]
    };
    let live = plan_changes(&index, &context(), &change(), &defaults(), &[]);
    let recovered = plan_changes(&index, &context(), &change(), &defaults(), &[]);
    assert_eq!(live.affected, recovered.affected);
    assert!(live.affected.contains(&owner_of(&fixture, "pkg/impl.py")));

    // Applying it twice changes nothing the second time.
    withdraw_affected(&mut index, &live.affected, &[merged(1, 1)], BACKEND_UNAVAILABLE_CODE);
    let once = index.status(&owner_of(&fixture, "pkg/impl.py"));
    withdraw_affected(&mut index, &recovered.affected, &[merged(0, 0)], BACKEND_UNAVAILABLE_CODE);
    assert_eq!(index.status(&owner_of(&fixture, "pkg/impl.py")), once);
}

#[test]
fn a_structural_dependent_is_planned_for_withdrawal_too() {
    let fixture = Fixture::create();
    let index = published(&fixture, &["pkg/impl.py", "pkg/imports.py"]);
    // imports.py imports `Base` -- a relation that structure resolved, so
    // base.py never enters its semantic basis, yet a replacement of
    // base.py re-resolves it.
    let change = [ResourceChange::new(
        fixture.resource("pkg/base.py").id,
        ChangeKind::Changed,
        "pkg/base.py",
    )];
    let alone = plan_changes(&index, &context(), &change, &defaults(), &[]);
    assert!(!alone.affected.contains(&owner_of(&fixture, "pkg/imports.py")));
    let dependents = [
        fixture.resource("pkg/imports.py").id,
        fixture.resource("pkg/twin.py").id,
    ];
    let plan = plan_changes(&index, &context(), &change, &defaults(), &dependents);
    assert!(plan.affected.contains(&owner_of(&fixture, "pkg/impl.py")));
    assert!(plan.affected.contains(&owner_of(&fixture, "pkg/imports.py")));
    assert!(
        !plan.affected.contains(&owner_of(&fixture, "pkg/twin.py")),
        "what was never published has nothing to withdraw"
    );
}

#[test]
fn a_plan_over_no_changes_is_empty_and_idempotent() {
    let fixture = Fixture::create();
    let index = published(&fixture, &["pkg/impl.py"]);
    let plan = plan_changes(&index, &context(), &[], &defaults(), &[]);
    assert!(plan.is_empty());
    assert_eq!(state_of(&index, &fixture, "pkg/impl.py"), SemanticState::Current);
}

#[test]
fn another_worktree_cannot_touch_this_ones_semantic_state() {
    let fixture = Fixture::create();
    let other = Fixture::create();
    let here = published(&fixture, &["pkg/impl.py"]);
    let mut there = published(&other, &["pkg/impl.py"]);

    let affected = there.owners_depending_on(other.resource("pkg/base.py").id);
    withdraw_affected(&mut there, &affected, &[merged(0, 0)], BACKEND_UNAVAILABLE_CODE);

    assert_eq!(
        state_of(&here, &fixture, "pkg/impl.py"),
        SemanticState::Current,
        "a separate index is a separate world"
    );
    assert_eq!(state_of(&there, &other, "pkg/impl.py"), SemanticState::Dirty);
}

#[test]
fn an_index_is_what_its_rows_say() {
    let fixture = Fixture::create();
    let owner = owner_of(&fixture, "pkg/impl.py");
    let index = SemanticIndex::from_rows(vec![PublicationRow {
        owner: owner_of(&fixture, "pkg/impl.py"),
        status: status(SemanticState::Dirty, Some(Support::Partial)),
        profile_fingerprint: "profile".to_owned(),
    }]);
    assert_eq!(index.status(&owner), status(SemanticState::Dirty, Some(Support::Partial)));
    assert_eq!(
        index.status(&owner_of(&fixture, "pkg/twin.py")),
        SemanticStatus::none()
    );
}

#[test]
fn marking_twice_is_marking_once() {
    let fixture = Fixture::create();
    let owner = owner_of(&fixture, "pkg/impl.py");
    let mut index = published(&fixture, &["pkg/impl.py"]);
    index.mark_dirty(&owner, "moved");
    let once = index.status(&owner);
    assert_eq!(once.state, SemanticState::Dirty);
    index.mark_dirty(&owner, "moved");
    assert_eq!(index.status(&owner), once);
}

#[test]
fn withdrawing_twice_is_withdrawing_once() {
    let fixture = Fixture::create();
    let mut index = published(&fixture, &["pkg/impl.py", "pkg/uses.py", "pkg/twin.py"]);
    let owners = [
        owner_of(&fixture, "pkg/impl.py"),
        owner_of(&fixture, "pkg/uses.py"),
        owner_of(&fixture, "pkg/base.py"),
    ];
    let outcomes = [merged(0, 0), merged(0, 0), merged(0, 0)];
    withdraw_affected(&mut index, &owners, &outcomes, BACKEND_UNAVAILABLE_CODE);
    let all = ["pkg/impl.py", "pkg/uses.py", "pkg/base.py", "pkg/twin.py"];
    let once = all.map(|rel| index.status(&owner_of(&fixture, rel)));
    withdraw_affected(&mut index, &owners, &outcomes, BACKEND_UNAVAILABLE_CODE);
    assert_eq!(all.map(|rel| index.status(&owner_of(&fixture, rel))), once);
    assert_eq!(once[0].state, SemanticState::Dirty);
    assert_eq!(once[3].state, SemanticState::Current);
}
