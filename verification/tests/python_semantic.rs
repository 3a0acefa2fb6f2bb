use std::collections::{BTreeMap, BTreeSet};
use std::sync::Mutex;

use brainprint_engine::graph::{
    GraphEndpoint, IntendedRelation, PersistedUnresolved, RelationKind, UnresolvedReason,
};
use brainprint_engine::index_tables::{GenerationState, IndexTables, WatcherContinuity};
use brainprint_engine::model::{
    Occurrence, OccurrenceKind, OccurrenceRef, Resource, ResourceId, ResourceKind,
    ResourceLanguage, ResourceRole, ResourceState, SourcePoint, SourceSpan, SymbolId, WorkspaceId,
};
use brainprint_engine::python_semantic::adapter::{
    declared_overrides, normalize_incoming_calls, overrides_declared, resolve_resource,
    DecoratorSite, ResourceEvidence, ResourceRequest,
};
use brainprint_engine::python_semantic::batch::{notify_watched_files, BatchPolicy};
use brainprint_engine::python_semantic::conversation::{
    read_answer, snapshot_of, Batch, BatchError, Conversation, PythonQueries,
};
use brainprint_engine::python_semantic::coordinates::{Position, Range};
use brainprint_engine::python_semantic::environment::{EnvironmentAssurance, EnvironmentIdentity};
use brainprint_engine::python_semantic::host::PythonSettings;
use brainprint_engine::python_semantic::launcher::{PyrightInstall, PythonLauncher};
use brainprint_engine::python_semantic::normalize::{
    external_entity, Normalizer, SourceText, SymbolAnchor, EXTERNAL_MODULE, EXTERNAL_SYMBOL,
};
use brainprint_engine::python_semantic::protocol::{
    IncomingCall, Location, PythonRequest, PythonResponse, TypeAnswer, WatchedChange,
    WatchedChangeKind, COMPATIBILITY_CLASS, TESTED_PROTOCOL_VERSION,
};
use brainprint_engine::python_semantic::refresh::{
    capability_report, collect_evidence, config_basis, finish_refresh, gaps_to_ask,
    inventory_fingerprint, publish_evidence, toolchain_identity, Collected, Derivation,
    MergeError, MergeOutcome, PublicationMoment, PublishedEvidence, PythonSemanticError,
    RefreshInputs, RefreshOutcome, RefreshRequest, UnprovenOverride, UnprovenReason,
    EXPECTED_TYPE_SUPPORT, INHERITANCE_SUPPORT, OVERRIDES_SUPPORT,
};
use brainprint_engine::python_semantic::uri::path_to_uri;
use brainprint_engine::runtime::RequestFailure;
use brainprint_engine::semantic::{
    AnalysisContext, Dispatch, SemanticCapability, SemanticEvidence, SemanticOutcome, Support,
    ToolchainIdentity,
};
use brainprint_engine::semantic_index::{
    same_owner, ObsoleteReason, PublicationRow, SemanticBasis, SemanticIndex, SemanticIndexError,
    SemanticOwner, SemanticState, SemanticStatus, WORKSPACE_MOVED_CODE,
};

const ROOT: &str = "/w";

const IMPL: &str = "import json\n\nfrom .base import Base\n\n\nclass Impl(Base):\n    \
def run(self, value: int) -> str:\n        return json.dumps(value)\n\n\n\
def call(x: Base):\n    return x.run(1)\n";
const BASE: &str = "class Base:\n    def run(self, value: int) -> str:\n        ...\n";
const TWIN: &str = "class Other:\n    def run(self, value: int) -> str:\n        ...\n";
const IMPORTS: &str =
    "from .base import Base\nfrom pkg.base import Base as Absolute\nfrom ..outside import thing\n";
const USES: &str = "from .exports import Exported\n\n\ndef make():\n    return Exported()\n";
const UNICODE_CASE: &str = "from .base import Base\n\n\ndef call(x: Base, value):\n    \
변수 = x.run(1)\n    return 변수 + str(value)\n";

/// An indexed Python Workspace.
struct Fixture {
    resources: Vec<Resource>,
    texts: Vec<SourceText>,
    anchors: Vec<SymbolAnchor>,
}

fn resource_row(value: u128, rel: &str, language: Option<ResourceLanguage>) -> Resource {
    Resource {
        id: ResourceId { value },
        path_rel: rel.to_owned(),
        path_key: rel.to_owned(),
        kind: ResourceKind::File,
        role: ResourceRole::Source,
        language,
        size_bytes: 1,
        mtime_ns: 0,
        fingerprint: format!("fp-{rel}"),
        content_hash: Some(format!("hash-{rel}")),
        state: ResourceState::Active,
        resource_revision: format!("rev-{rel}"),
        generated_kind: None,
        container_resource_id: None,
    }
}

/// Where the nth `needle` starts.
fn find_nth(text: &str, needle: &str, nth: usize) -> usize {
    let mut from = 0;
    let mut at = 0;
    for _ in 0..=nth {
        at = text[from..].find(needle).expect("needle") + from;
        from = at + 1;
    }
    at
}

impl Fixture {
    fn create() -> Self {
        let sources = [
            ("pkg/base.py", BASE),
            ("pkg/impl.py", IMPL),
            ("pkg/imports.py", IMPORTS),
            ("pkg/twin.py", TWIN),
            ("pkg/unicode_case.py", UNICODE_CASE),
            ("pkg/uses.py", USES),
        ];
        let mut fixture = Fixture {
            resources: Vec::new(),
            texts: Vec::new(),
            anchors: Vec::new(),
        };
        for (at, (rel, text)) in sources.iter().enumerate() {
            let row = resource_row(at as u128 + 1, rel, Some(ResourceLanguage::Python));
            fixture.texts.push(SourceText {
                resource: row.id,
                text: (*text).to_owned(),
            });
            fixture.resources.push(row);
        }
        fixture
            .resources
            .push(resource_row(90, "pyrightconfig.json", None));
        for (value, rel, name) in [
            (1, "pkg/base.py", "Base"),
            (2, "pkg/base.py", "run"),
            (3, "pkg/impl.py", "Impl"),
            (4, "pkg/impl.py", "run"),
            (5, "pkg/impl.py", "call"),
            (6, "pkg/twin.py", "Other"),
            (7, "pkg/twin.py", "run"),
        ] {
            let start_byte = fixture.text(rel).find(name).expect("declared");
            fixture.anchors.push(SymbolAnchor {
                resource: fixture.resource(rel).id,
                start_byte,
                end_byte: start_byte + name.len(),
                symbol: SymbolId { value },
            });
        }
        fixture
    }

    fn resource(&self, rel: &str) -> Resource {
        self.resources
            .iter()
            .find(|resource| resource.path_key == rel)
            .unwrap_or_else(|| panic!("{rel} is indexed"))
            .clone()
    }

    fn text(&self, rel: &str) -> String {
        let id = self.resource(rel).id;
        self.texts
            .iter()
            .find(|held| held.resource == id)
            .expect("source")
            .text
            .clone()
    }

    fn uri(&self, rel: &str) -> String {
        path_to_uri(&format!("{ROOT}/{rel}"))
    }

    /// The Symbol that is declared under this name in this file.
    fn symbol(&self, rel: &str, name: &str) -> SymbolId {
        let id = self.resource(rel).id;
        let text = self.text(rel);
        self.anchors
            .iter()
            .find(|anchor| {
                anchor.resource == id && &text[anchor.start_byte..anchor.end_byte] == name
            })
            .expect("declared")
            .symbol
    }

    /// The zero-based position of the nth `needle`.
    fn position(&self, rel: &str, needle: &str, nth: usize) -> Position {
        let text = self.text(rel);
        let at = find_nth(&text, needle, nth);
        let line = text[..at].matches('\n').count();
        let line_start = text[..at].rfind('\n').map_or(0, |index| index + 1);
        Position::new(
            u32::try_from(line).expect("line fits"),
            u32::try_from(text[line_start..at].encode_utf16().count()).expect("character fits"),
        )
    }

    /// The range of the nth `needle`.
    fn range(&self, rel: &str, needle: &str, nth: usize) -> Range {
        let start = self.position(rel, needle, nth);
        Range::new(
            start,
            Position::new(
                start.line,
                start.character + u32::try_from(needle.encode_utf16().count()).expect("width fits"),
            ),
        )
    }

    /// A location naming the nth `needle`, the way the backend names a
    /// definition.
    fn location(&self, rel: &str, needle: &str, nth: usize) -> Location {
        Location {
            uri: self.uri(rel),
            range: self.range(rel, needle, nth),
        }
    }

    /// The sites that structure alone could not resolve, with their kinds.
    fn sites(&self, rel: &str) -> Vec<(OccurrenceRef, RelationKind, &'static str)> {
        let site = |kind, needle: &str, nth| {
            let text = self.text(rel);
            let start_byte = find_nth(&text, needle, nth);
            OccurrenceRef {
                kind,
                start_byte,
                end_byte: start_byte + needle.len(),
            }
        };
        match rel {
            "pkg/impl.py" => vec![
                (site(OccurrenceKind::TypeSite, "int", 0), RelationKind::UsesType, "int"),
                (site(OccurrenceKind::TypeSite, "str", 0), RelationKind::UsesType, "str"),
                (site(OccurrenceKind::CallSite, "json.dumps", 0), RelationKind::Calls, "dumps"),
                (site(OccurrenceKind::ReferenceSite, "value", 1), RelationKind::References, "value"),
                (site(OccurrenceKind::CallSite, "x.run", 0), RelationKind::Calls, "run"),
            ],
            "pkg/unicode_case.py" => vec![
                (site(OccurrenceKind::CallSite, "x.run", 0), RelationKind::Calls, "run"),
                (site(OccurrenceKind::CallSite, "str", 0), RelationKind::Calls, "str"),
            ],
            "pkg/uses.py" => vec![(
                site(OccurrenceKind::CallSite, "Exported", 1),
                RelationKind::Calls,
                "Exported",
            )],
            _ => Vec::new(),
        }
    }

    fn occurrences(&self, rel: &str) -> Vec<Occurrence> {
        self.sites(rel)
            .into_iter()
            .map(|(site, _, _)| Occurrence {
                kind: site.kind,
                span: SourceSpan {
                    start_byte: site.start_byte,
                    end_byte: site.end_byte,
                    start: SourcePoint { line: 0, column: 0 },
                    end: SourcePoint { line: 0, column: 0 },
                },
                containing_symbol_id: None,
                resource_revision: self.resource(rel).resource_revision,
                generation_id: 1,
            })
            .collect()
    }

    fn gaps(&self, rel: &str) -> Vec<PersistedUnresolved> {
        self.sites(rel)
            .into_iter()
            .map(|(occurrence, kind, name)| PersistedUnresolved {
                occurrence,
                intended: IntendedRelation::Known(kind),
                lookup_name: name.to_owned(),
                module_hint: if kind == RelationKind::Calls && name != "str" && name != "Exported" {
                    Some("receiver".to_owned())
                } else {
                    None
                },
                reason: UnresolvedReason::TypeSemanticsRequired,
                candidate_truncated: false,
                candidates: Vec::new(),
                resolution_context_key: None,
            })
            .collect()
    }
}

struct State {
    snapshot: u64,
    /// While positive, every snapshot-carrying query is refused and the
    /// snapshot moves.
    stale_budget: u32,
    calls: Vec<PythonRequest>,
}

/// Answers the questions it was told the answers to, and nothing else.
struct ScriptedBackend {
    state: Mutex<State>,
    definitions: BTreeMap<String, Vec<Location>>,
    imports: BTreeMap<String, String>,
    types: BTreeMap<String, TypeAnswer>,
    search_paths: Vec<String>,
    timed_out: bool,
}

#[allow(dead_code)]
impl ScriptedBackend {
    fn new() -> Self {
        ScriptedBackend {
            state: Mutex::new(State {
                snapshot: 7,
                stale_budget: 0,
                calls: Vec::new(),
            }),
            definitions: BTreeMap::new(),
            imports: BTreeMap::new(),
            types: BTreeMap::new(),
            search_paths: Vec::new(),
            timed_out: false,
        }
    }

    fn with_definition(mut self, uri: &str, at: Position, locations: Vec<Location>) -> Self {
        self.definitions.insert(position_key(uri, at), locations);
        self
    }

    fn with_import(mut self, uri: &str, dots: u32, parts: &[&str], to: &str) -> Self {
        self.imports
            .insert(format!("{uri}|{dots}|{}", parts.join(".")), to.to_owned());
        self
    }

    fn with_type(mut self, uri: &str, range: Range, answer: TypeAnswer) -> Self {
        self.types.insert(range_key(uri, range), answer);
        self
    }

    fn with_search_paths(mut self, paths: Vec<String>) -> Self {
        self.search_paths = paths;
        self
    }

    /// Refuse the next `count` snapshot-carrying queries as stale, moving
    /// the snapshot each time.
    fn with_stale_budget(self, count: u32) -> Self {
        self.state.lock().expect("lock").stale_budget = count;
        self
    }

    fn starting_at(self, snapshot: u64) -> Self {
        self.state.lock().expect("lock").snapshot = snapshot;
        self
    }

    fn timing_out(mut self) -> Self {
        self.timed_out = true;
        self
    }

    fn calls(&self) -> Vec<PythonRequest> {
        self.state.lock().expect("lock").calls.clone()
    }

    fn snapshots_seen(&self) -> Vec<u64> {
        self.calls().iter().filter_map(PythonRequest::snapshot).collect()
    }
}

impl PythonQueries for ScriptedBackend {
    fn call(&self, request: &PythonRequest) -> Result<PythonResponse, RequestFailure> {
        if self.timed_out {
            return Err(RequestFailure::TimedOut { after_ms: 50 });
        }
        let mut state = self.state.lock().expect("lock");
        state.calls.push(request.clone());
        if request.snapshot().is_some() && state.stale_budget > 0 {
            state.stale_budget -= 1;
            state.snapshot += 1;
            return Ok(PythonResponse::SnapshotStale);
        }
        let snapshot = state.snapshot;
        drop(state);
        Ok(match request {
            PythonRequest::Snapshot => PythonResponse::Snapshot(snapshot),
            PythonRequest::ProtocolVersion => {
                PythonResponse::ProtocolVersion(TESTED_PROTOCOL_VERSION.to_owned())
            }
            PythonRequest::SearchPaths { .. } => {
                PythonResponse::SearchPaths(self.search_paths.clone())
            }
            PythonRequest::ResolveImport { source_uri, module, .. } => PythonResponse::Import(
                self.imports
                    .get(&format!(
                        "{source_uri}|{}|{}",
                        module.leading_dots,
                        module.name_parts.join(".")
                    ))
                    .cloned(),
            ),
            PythonRequest::DeclaredType { uri, range, .. }
            | PythonRequest::ComputedType { uri, range, .. }
            | PythonRequest::ExpectedType { uri, range, .. } => {
                PythonResponse::Type(self.types.get(&range_key(uri, *range)).cloned())
            }
            PythonRequest::Definition { uri, position }
            | PythonRequest::Declaration { uri, position }
            | PythonRequest::TypeDefinition { uri, position } => PythonResponse::Locations(
                self.definitions
                    .get(&position_key(uri, *position))
                    .cloned()
                    .unwrap_or_default(),
            ),
            PythonRequest::References { .. } => PythonResponse::Locations(Vec::new()),
            PythonRequest::PrepareCallHierarchy { .. } => {
                PythonResponse::CallHierarchyItems(Vec::new())
            }
            PythonRequest::IncomingCalls { .. } => PythonResponse::IncomingCalls(Vec::new()),
            PythonRequest::WatchedFilesChanged { .. } => PythonResponse::Delivered,
        })
    }
}

fn position_key(uri: &str, at: Position) -> String {
    format!("{uri}#{}:{}", at.line, at.character)
}

fn range_key(uri: &str, range: Range) -> String {
    format!(
        "{uri}#{}:{}-{}:{}",
        range.start.line, range.start.character, range.end.line, range.end.character
    )
}

fn context() -> AnalysisContext {
    AnalysisContext {
        workspace: WorkspaceId { value: 5 },
        language: ResourceLanguage::Python,
        project_root: "pkg".to_owned(),
        toolchain: ToolchainIdentity {
            backend_version: "1.1.414".to_owned(),
            backend_compatibility_class: COMPATIBILITY_CLASS.to_owned(),
            environment_fingerprint: "sha256:test-env".to_owned(),
        },
    }
}

/// The position of the last character of the nth `needle`, which is where
/// the adapter asks.
fn last_character(fixture: &Fixture, rel: &str, needle: &str, nth: usize) -> Position {
    let range = fixture.range(rel, needle, nth);
    Position::new(range.end.line, range.end.character - 1)
}

/// Collect the evidence of one Resource against a scripted backend.
fn collect(
    fixture: &Fixture,
    backend: &ScriptedBackend,
    rel: &str,
    extra: Vec<PersistedUnresolved>,
) -> Result<Collected, PythonSemanticError> {
    let context = context();
    let capabilities = capability_report();
    let config = config_basis(&PythonSettings::default(), None);
    let occurrences = fixture.occurrences(rel);
    let gaps = gaps_to_ask(fixture.gaps(rel), extra);
    let owner_text = Ok(fixture.text(rel));
    collect_evidence(
        &mut Conversation::new(backend),
        &RefreshRequest {
            context: &context,
            workspace_root: ROOT,
            owner: fixture.resource(rel).id,
            config: &config,
            capabilities: &capabilities,
            policy: BatchPolicy::default(),
        },
        RefreshInputs {
            resources: &fixture.resources,
            anchors: &fixture.anchors,
            texts: &fixture.texts,
            owner_text: &owner_text,
            occurrences: &occurrences,
            gaps: &gaps,
            decorators: &[],
            analysis_profile_id: 1,
        },
    )
}

/// Collect the evidence of one Resource and publish it.
fn refresh(
    index: &mut SemanticIndex,
    fixture: &Fixture,
    backend: &ScriptedBackend,
    rel: &str,
    generation_id: i64,
) -> Result<RefreshOutcome, PythonSemanticError> {
    let collected = collect(fixture, backend, rel, Vec::new())?;
    let context = context();
    let capabilities = capability_report();
    let config = config_basis(&PythonSettings::default(), None);
    let published = publish_evidence(
        index,
        &RefreshRequest {
            context: &context,
            workspace_root: ROOT,
            owner: fixture.resource(rel).id,
            config: &config,
            capabilities: &capabilities,
            policy: BatchPolicy::default(),
        },
        &fixture.resource(rel),
        &fixture.resources,
        collected,
        Derivation {
            evidence: Vec::new(),
            ancestor_resources: Vec::new(),
            unproven: Vec::new(),
        },
        generation_id,
        "w1",
        &PublicationMoment {
            resources: &fixture.resources,
            workspace_revision: "w1",
        },
    )?;
    finish_refresh(&mut tables(), published, Ok(NOTHING_MERGED))
}

const NOTHING_MERGED: MergeOutcome = MergeOutcome {
    gaps_resolved: 0,
    gaps_restored: 0,
    corroborated: 0,
    relations_created: 0,
    relations_removed: 0,
    conflicts: 0,
};

/// The tables of an indexed Workspace.
fn tables() -> IndexTables {
    IndexTables {
        revision: Some("w1".to_owned()),
        change_seq: 0,
        last_reconcile_seq: 0,
        continuity: WatcherContinuity::Continuous,
        journal: Vec::new(),
        generations: Vec::new(),
        next_generation_id: 1,
        stable_generation_id: None,
        component: None,
        resources: Vec::new(),
    }
}

fn owner_of(fixture: &Fixture, rel: &str) -> SemanticOwner {
    SemanticOwner::new(&context().context_key(), fixture.resource(rel).id)
}

/// The scripted answers for `pkg/impl.py`.
fn impl_backend(fixture: &Fixture) -> ScriptedBackend {
    let impl_uri = fixture.uri("pkg/impl.py");
    let builtin = |start: u32, end: u32| TypeAnswer {
        declaration: Some(Location {
            uri: path_to_uri("/typeshed/stdlib/builtins.pyi"),
            range: Range::new(Position::new(start, 0), Position::new(end, 57)),
        }),
        module_name: None,
        module_uri: None,
    };
    ScriptedBackend::new()
        .with_search_paths(vec![
            path_to_uri("/typeshed/stdlib"),
            path_to_uri("/venv/site-packages"),
        ])
        // `x.run(1)` -> Base.run, asked at the last character of the
        // callee span, which is inside `run` and not on the receiver.
        .with_definition(
            &impl_uri,
            last_character(fixture, "pkg/impl.py", "x.run", 0),
            vec![fixture.location("pkg/base.py", "run", 0)],
        )
        // `json.dumps(...)` -> the stub and the implementation of the
        // same dependency module.
        .with_definition(
            &impl_uri,
            last_character(fixture, "pkg/impl.py", "json.dumps", 0),
            vec![
                Location {
                    uri: path_to_uri("/typeshed/stdlib/json/__init__.pyi"),
                    range: Range::new(Position::new(10, 4), Position::new(10, 9)),
                },
                Location {
                    uri: path_to_uri("/venv/site-packages/json/__init__.py"),
                    range: Range::new(Position::new(3, 4), Position::new(3, 9)),
                },
            ],
        )
        // The shadowed `value` reference resolves to the parameter's own
        // declaration, which has no Symbol of its own.
        .with_definition(
            &impl_uri,
            last_character(fixture, "pkg/impl.py", "value", 1),
            Vec::new(),
        )
        // `int` and `str` are builtins in the stdlib stub.
        .with_type(&impl_uri, fixture.range("pkg/impl.py", "int", 0), builtin(251, 362))
        .with_type(&impl_uri, fixture.range("pkg/impl.py", "str", 0), builtin(485, 725))
}

/// Resolve one Resource's gaps against a scripted backend.
fn resolve(
    fixture: &Fixture,
    backend: &ScriptedBackend,
    rel: &str,
    extra: Vec<PersistedUnresolved>,
) -> ResourceEvidence {
    collect(fixture, backend, rel, extra).expect("batch").produced
}

fn evidence_at(produced: &ResourceEvidence, start: usize) -> &SemanticEvidence {
    produced
        .evidence
        .iter()
        .find(|item| item.occurrence.is_some_and(|site| site.start_byte == start))
        .unwrap_or_else(|| panic!("evidence for the site at {start}"))
}

#[test]
fn watched_file_changes_are_the_only_synchronization_emitted() {
    let fixture = Fixture::create();
    let backend = ScriptedBackend::new();
    notify_watched_files(
        &backend,
        vec![WatchedChange {
            uri: fixture.uri("pkg/impl.py"),
            kind: WatchedChangeKind::Changed,
        }],
    )
    .expect("notified");
    let calls = backend.calls();
    assert!(matches!(
        calls.as_slice(),
        [PythonRequest::WatchedFilesChanged { .. }]
    ));
    let (method, _) = calls[0].wire();
    assert_eq!(method, "workspace/didChangeWatchedFiles");
}

#[test]
fn every_query_in_a_batch_carries_one_coherent_snapshot() {
    let fixture = Fixture::create();
    let backend = impl_backend(&fixture);
    let produced = resolve(&fixture, &backend, "pkg/impl.py", Vec::new());
    assert!(!produced.evidence.is_empty());

    let snapshots = backend.snapshots_seen();
    assert!(
        snapshots.len() >= 3,
        "several snapshot-carrying queries ran"
    );
    assert!(
        snapshots.windows(2).all(|pair| pair[0] == pair[1]),
        "one candidate must not mix snapshots: {snapshots:?}"
    );
}

#[test]
fn a_stale_snapshot_restarts_the_whole_batch_rather_than_keeping_half() {
    let fixture = Fixture::create();
    // The first snapshot-carrying query is refused, so the batch that
    // had already started is thrown away entirely.
    let backend = impl_backend(&fixture).with_stale_budget(1);
    let produced = resolve(&fixture, &backend, "pkg/impl.py", Vec::new());

    let snapshots = backend.snapshots_seen();
    let distinct: BTreeSet<u64> = snapshots.iter().copied().collect();
    assert_eq!(distinct.len(), 2, "the retry ran on a new snapshot");
    // The surviving evidence is all from the second, coherent attempt.
    let last = *snapshots.last().expect("queries ran");
    assert!(
        snapshots.iter().filter(|value| **value == last).count() >= 3,
        "the whole batch re-ran on the fresh snapshot"
    );
    assert!(!produced.evidence.is_empty());
}

#[test]
fn snapshot_retry_is_bounded_and_exhaustion_publishes_nothing() {
    let fixture = Fixture::create();
    let backend = impl_backend(&fixture).with_stale_budget(u32::MAX);
    let mut index = SemanticIndex::empty();

    let error =
        refresh(&mut index, &fixture, &backend, "pkg/impl.py", 1).expect_err("no publication");
    let PythonSemanticError::Backend(BatchError::RetriesExhausted { attempts }) = error else {
        panic!("expected bounded retry exhaustion, got {}", error.message());
    };
    assert_eq!(attempts, BatchPolicy::default().max_attempts);

    // Nothing was published, and a retryable failure is not zero
    // semantic results.
    let status = index.status(&owner_of(&fixture, "pkg/impl.py"));
    assert_eq!(status.state, SemanticState::Unpublished);
}

#[test]
fn the_backend_snapshot_never_becomes_canonical_identity() {
    let fixture = Fixture::create();
    let mut first = SemanticIndex::empty();
    refresh(&mut first, &fixture, &impl_backend(&fixture), "pkg/impl.py", 1).expect("published");
    // A different backend snapshot number for the identical Workspace.
    let mut second = SemanticIndex::empty();
    let backend = impl_backend(&fixture).starting_at(4711);
    refresh(&mut second, &fixture, &backend, "pkg/impl.py", 1).expect("published");

    let read = |index: &SemanticIndex| {
        let basis = index
            .status(&owner_of(&fixture, "pkg/impl.py"))
            .basis
            .expect("published basis");
        (
            basis.config_fingerprint,
            basis.environment_fingerprint,
            basis.inventory_fingerprint,
        )
    };
    assert_eq!(
        read(&first),
        read(&second),
        "the basis is the same whatever the backend numbered its snapshot"
    );
}

#[test]
fn an_internal_target_resolves_through_resource_identity_and_an_exact_span() {
    let fixture = Fixture::create();
    let produced = resolve(&fixture, &impl_backend(&fixture), "pkg/impl.py", Vec::new());

    let call = produced
        .evidence
        .iter()
        .find(|item| {
            item.relation_kind == Some(RelationKind::Calls)
                && item.occurrence.is_some_and(|site| site.start_byte == 159)
        })
        .expect("the x.run(1) call site");

    // Base.run, not Other.run in twin.py, and not "some symbol named
    // run": the span decided it.
    let base_run = fixture.symbol("pkg/base.py", "run");
    assert_eq!(
        call.outcome,
        SemanticOutcome::Resolved {
            target: GraphEndpoint::Symbol(base_run)
        }
    );
    assert_eq!(call.capability, SemanticCapability::CallsIntraFile);
    assert_eq!(
        call.dispatch,
        Dispatch::Unknown,
        "a member call binds through the receiver's declared type; a subclass may still take over"
    );
    assert_eq!(call.support, Support::Supported);
}

#[test]
fn a_definition_is_matched_by_span_and_never_by_name() {
    let fixture = Fixture::create();
    let impl_uri = fixture.uri("pkg/impl.py");
    // The identical question, answered with the *other* file's `run`.
    let backend = impl_backend(&fixture).with_definition(
        &impl_uri,
        last_character(&fixture, "pkg/impl.py", "x.run", 0),
        vec![fixture.location("pkg/twin.py", "run", 0)],
    );
    let produced = resolve(&fixture, &backend, "pkg/impl.py", Vec::new());

    let twin_run = fixture.symbol("pkg/twin.py", "run");
    assert_eq!(
        evidence_at(&produced, 159).outcome,
        SemanticOutcome::Resolved {
            target: GraphEndpoint::Symbol(twin_run)
        },
        "two Symbols are named `run`; only the answered span picks one"
    );
    assert_ne!(twin_run, fixture.symbol("pkg/base.py", "run"));
}

#[test]
fn several_distinct_internal_targets_stay_candidates_rather_than_a_guess() {
    let fixture = Fixture::create();
    let impl_uri = fixture.uri("pkg/impl.py");
    let backend = impl_backend(&fixture).with_definition(
        &impl_uri,
        last_character(&fixture, "pkg/impl.py", "x.run", 0),
        vec![
            fixture.location("pkg/base.py", "run", 0),
            fixture.location("pkg/twin.py", "run", 0),
        ],
    );
    let produced = resolve(&fixture, &backend, "pkg/impl.py", Vec::new());

    let call = evidence_at(&produced, 159);
    let SemanticOutcome::Candidates { targets } = &call.outcome else {
        panic!("two real targets and nothing choosing: {:?}", call.outcome);
    };
    assert_eq!(targets.len(), 2);
}

#[test]
fn a_dependency_target_becomes_an_external_entity_and_no_resource_row() {
    let fixture = Fixture::create();
    let produced = resolve(&fixture, &impl_backend(&fixture), "pkg/impl.py", Vec::new());

    let call = evidence_at(&produced, 109);
    let SemanticOutcome::Resolved {
        target: GraphEndpoint::External(entity),
    } = &call.outcome
    else {
        panic!("expected one external target, got {:?}", call.outcome);
    };
    // The stub and the implementation are the same module, so two
    // answers collapse to one identity instead of becoming candidates.
    assert_eq!(entity.package_identity, "json");
    assert_eq!(entity.module_identity.as_deref(), Some("json"));
    assert_eq!(entity.symbol_name.as_deref(), Some("dumps"));
    assert_eq!(entity.kind, EXTERNAL_SYMBOL);
    assert_eq!(
        entity.declaration_locator, None,
        "no machine path enters canonical identity"
    );
    assert_eq!(call.capability, SemanticCapability::CallsCrossFile);
}

#[test]
fn absolute_relative_and_external_imports_all_normalize() {
    let fixture = Fixture::create();
    let imports_uri = fixture.uri("pkg/imports.py");
    let text = fixture.text("pkg/imports.py");
    let site = |needle: &str| {
        let start = text.find(needle).expect("import site");
        OccurrenceRef {
            kind: OccurrenceKind::ImportSite,
            start_byte: start,
            end_byte: start + needle.len(),
        }
    };
    let gap = |occurrence: OccurrenceRef, name: &str| PersistedUnresolved {
        occurrence,
        intended: IntendedRelation::Known(RelationKind::Imports),
        lookup_name: name.to_owned(),
        module_hint: None,
        reason: UnresolvedReason::ImportTargetUnresolved,
        candidate_truncated: false,
        candidates: Vec::new(),
        resolution_context_key: None,
    };

    let backend = ScriptedBackend::new()
        .with_search_paths(vec![path_to_uri("/venv/site-packages")])
        .with_import(&imports_uri, 0, &["pkg", "base"], &fixture.uri("pkg/base.py"))
        .with_import(&imports_uri, 1, &["base"], &fixture.uri("pkg/base.py"))
        .with_import(
            &imports_uri,
            2,
            &["outside"],
            &path_to_uri("/venv/site-packages/outside/__init__.py"),
        );

    let produced = resolve(
        &fixture,
        &backend,
        "pkg/imports.py",
        vec![
            gap(site("pkg.base"), "pkg.base"),
            gap(site(".base"), "base"),
            gap(site("..outside"), "outside"),
        ],
    );

    let base = || GraphEndpoint::Resource(fixture.resource("pkg/base.py").id);
    let absolute = evidence_at(&produced, site("pkg.base").start_byte);
    assert_eq!(absolute.outcome, SemanticOutcome::Resolved { target: base() });
    assert_eq!(absolute.capability, SemanticCapability::ImportBinding);
    assert_eq!(absolute.relation_kind, Some(RelationKind::Imports));

    let relative = evidence_at(&produced, site(".base").start_byte);
    assert_eq!(relative.outcome, SemanticOutcome::Resolved { target: base() });

    let external = evidence_at(&produced, site("..outside").start_byte);
    let SemanticOutcome::Resolved {
        target: GraphEndpoint::External(entity),
    } = &external.outcome
    else {
        panic!("expected an external module, got {:?}", external.outcome);
    };
    assert_eq!(entity.package_identity, "outside");
    assert_eq!(entity.kind, EXTERNAL_MODULE);
    assert_eq!(
        external.capability,
        SemanticCapability::ExternalSymbolResolution
    );
}

#[test]
fn declared_and_computed_types_resolve_and_a_bare_display_name_does_not() {
    let fixture = Fixture::create();
    let produced = resolve(&fixture, &impl_backend(&fixture), "pkg/impl.py", Vec::new());
    let int_site = fixture.text("pkg/impl.py").find("int").expect("int");
    let type_evidence = evidence_at(&produced, int_site);
    assert_eq!(type_evidence.capability, SemanticCapability::TypeResolution);
    assert!(matches!(
        type_evidence.outcome,
        SemanticOutcome::Resolved {
            target: GraphEndpoint::External(_)
        }
    ));

    // A type that names itself and declares nothing is not a target.
    // Resolving "Base" by name is exactly the guess this tier refuses.
    let impl_uri = fixture.uri("pkg/impl.py");
    let nameless = impl_backend(&fixture).with_type(
        &impl_uri,
        fixture.range("pkg/impl.py", "int", 0),
        TypeAnswer {
            declaration: None,
            module_name: None,
            module_uri: None,
        },
    );
    let produced = resolve(&fixture, &nameless, "pkg/impl.py", Vec::new());
    assert!(matches!(
        evidence_at(&produced, int_site).outcome,
        SemanticOutcome::Unresolved { .. }
    ));
}

#[test]
fn a_non_ascii_source_resolves_at_the_right_token() {
    let fixture = Fixture::create();
    let uri = fixture.uri("pkg/unicode_case.py");
    let backend = ScriptedBackend::new()
        .with_search_paths(Vec::new())
        .with_definition(
            &uri,
            last_character(&fixture, "pkg/unicode_case.py", "x.run", 0),
            vec![fixture.location("pkg/base.py", "run", 0)],
        );
    let produced = resolve(&fixture, &backend, "pkg/unicode_case.py", Vec::new());

    let text = fixture.text("pkg/unicode_case.py");
    let call_site = text.find("x.run").expect("call site");
    assert_eq!(
        evidence_at(&produced, call_site).outcome,
        SemanticOutcome::Resolved {
            target: GraphEndpoint::Symbol(fixture.symbol("pkg/base.py", "run"))
        }
    );

    // The position asked about is a UTF-16 offset, and it is not the
    // byte offset -- which on this line would be a different token.
    let line_start = text[..call_site].rfind('\n').map_or(0, |index| index + 1);
    let expected_line = u32::try_from(text[..call_site].matches('\n').count()).expect("fits");
    let expected_character = u32::try_from(
        text[line_start..call_site + "x.run".len() - 1]
            .encode_utf16()
            .count(),
    )
    .expect("fits");
    let asked: Vec<Position> = backend
        .calls()
        .into_iter()
        .filter_map(|request| match request {
            PythonRequest::Definition { position, .. } => Some(position),
            _ => None,
        })
        .collect();
    assert!(
        asked.contains(&Position::new(expected_line, expected_character)),
        "asked {asked:?}, wanted the UTF-16 offset {expected_character} on line {expected_line}"
    );
    // And on a line that actually has non-ASCII before the token --
    // `return 변수 + str(value)` -- the two conventions disagree, so
    // the asked offset proves which one reached the backend.
    let start = text.find("str").expect("the str(...) call after the Hangul");
    let site_line_start = text[..start].rfind('\n').map_or(0, |index| index + 1);
    let site_line = u32::try_from(text[..start].matches('\n').count()).expect("fits");
    let last = start + "str".len() - 1;
    let utf16 = u32::try_from(text[site_line_start..last].encode_utf16().count()).expect("fits");
    let bytes = u32::try_from(last - site_line_start).expect("fits");
    assert_ne!(utf16, bytes, "this line discriminates the conventions");
    assert!(
        asked.contains(&Position::new(site_line, utf16)),
        "asked {asked:?}, wanted UTF-16 {utf16} on line {site_line}"
    );
    assert!(
        !asked.contains(&Position::new(site_line, bytes)),
        "a byte offset reached the backend"
    );
}

#[test]
fn the_capability_report_states_what_this_task_implements() {
    let report = capability_report();
    for supported in [
        SemanticCapability::ImportBinding,
        SemanticCapability::ExternalSymbolResolution,
        SemanticCapability::SymbolDefinition,
        SemanticCapability::References,
        SemanticCapability::CallsIntraFile,
        SemanticCapability::CallsCrossFile,
    ] {
        assert_eq!(
            report.support(supported),
            Support::Supported,
            "{supported:?}"
        );
    }
    // Declared and computed types resolve; the expected type does not
    // always, so the capability is partial and not rounded up.
    assert_eq!(
        report.support(SemanticCapability::TypeResolution),
        Support::Partial
    );
    assert_eq!(EXPECTED_TYPE_SUPPORT, Support::Partial);

    // Derived from proven inheritance, and partial for reasons the
    // constants name: an unanchorable qualified base, decorator forms
    // the Symbol model does not distinguish, and same-depth ancestors
    // whose base-list order the graph does not record.
    assert_eq!(
        report.support(SemanticCapability::Inheritance),
        Support::Partial
    );
    assert_eq!(
        report.support(SemanticCapability::Overrides),
        Support::Partial
    );
    assert_eq!(INHERITANCE_SUPPORT, Support::Partial);
    assert_eq!(OVERRIDES_SUPPORT, Support::Partial);

    // Python has no implements clause, and matching members is duck
    // typing rather than evidence.
    for unsupported in [
        SemanticCapability::Implements,
        SemanticCapability::ImplementationTarget,
    ] {
        assert_eq!(
            report.support(unsupported),
            Support::Unsupported,
            "{unsupported:?}"
        );
    }
}

#[test]
fn a_base_list_gap_resolves_and_an_unwritable_kind_is_deferred() {
    let fixture = Fixture::create();
    let text = fixture.text("pkg/impl.py");
    let base_site = text.rfind("Base").expect("a Base type site");
    let site = OccurrenceRef {
        kind: OccurrenceKind::TypeSite,
        start_byte: base_site,
        end_byte: base_site + 4,
    };
    let gap = |intended| PersistedUnresolved {
        occurrence: site,
        intended,
        lookup_name: "Base".to_owned(),
        module_hint: None,
        reason: UnresolvedReason::TypeSemanticsRequired,
        candidate_truncated: false,
        candidates: Vec::new(),
        resolution_context_key: None,
    };

    // A base list is inheritance in Python whichever way the gap is
    // labelled: the language has no implements clause.
    for intended in [
        IntendedRelation::Known(RelationKind::Extends),
        IntendedRelation::Inheritance,
    ] {
        let uri = fixture.uri("pkg/impl.py");
        let backend = impl_backend(&fixture).with_definition(
            &uri,
            last_character(&fixture, "pkg/impl.py", "Base", 2),
            vec![fixture.location("pkg/base.py", "Base", 0)],
        );
        let produced = resolve(&fixture, &backend, "pkg/impl.py", vec![gap(intended)]);
        let resolved = produced
            .evidence
            .iter()
            .find(|item| item.occurrence == Some(site))
            .expect("the base site was answered");
        assert_eq!(resolved.relation_kind, Some(RelationKind::Extends));
        assert_eq!(resolved.capability, SemanticCapability::Inheritance);
        assert!(produced.deferred.is_empty());
    }

    // A relation nobody writes at a site has nowhere to anchor as a
    // gap, and is answered by derivation instead.
    let produced = resolve(
        &fixture,
        &impl_backend(&fixture),
        "pkg/impl.py",
        vec![gap(IntendedRelation::Known(RelationKind::Overrides))],
    );
    assert_eq!(produced.deferred.len(), 1);
    assert_eq!(
        produced.deferred[0].reason,
        "python override/inheritance enrichment is #19 task 7"
    );
    assert!(
        produced
            .evidence
            .iter()
            .all(|item| item.relation_kind != Some(RelationKind::Overrides)),
        "no OVERRIDES comes from a gap"
    );
}

#[test]
fn call_hierarchy_normalizes_only_onto_occurrences_that_exist() {
    let fixture = Fixture::create();
    let owner = fixture.resource("pkg/impl.py");
    let text = fixture.text("pkg/impl.py");
    let occurrences = fixture.occurrences("pkg/impl.py");
    let key = context().context_key();
    let owner_uri = fixture.uri("pkg/impl.py");
    let request = ResourceRequest {
        owner: &owner,
        owner_text: &text,
        gaps: &[],
        occurrences: &occurrences,
        generation_id: 1,
        analysis_profile_id: 1,
        context_key: &key,
    };

    let call_site = fixture.range("pkg/impl.py", "x.run", 0);
    let nowhere = Range::new(Position::new(0, 0), Position::new(0, 4));
    let target = GraphEndpoint::Symbol(fixture.symbol("pkg/base.py", "run"));
    let evidence = normalize_incoming_calls(
        &[
            IncomingCall {
                from: fixture.location("pkg/impl.py", "call", 0),
                from_ranges: vec![call_site, call_site, nowhere],
            },
            IncomingCall {
                from: fixture.location("pkg/unicode_case.py", "x.run", 0),
                from_ranges: vec![fixture.range("pkg/unicode_case.py", "x.run", 0)],
            },
        ],
        &target,
        &request,
        &owner_uri,
    );

    // Two identical call-site ranges are one piece of evidence, a range
    // with no Occurrence under it contributes nothing, and another
    // Resource's sites belong to that Resource's own contribution.
    assert_eq!(evidence.len(), 1);
    assert_eq!(evidence[0].relation_kind, Some(RelationKind::Calls));
    assert_eq!(
        evidence[0].occurrence.expect("anchored").start_byte,
        text.find("x.run").expect("call site")
    );
}

#[test]
fn normalized_evidence_carries_no_backend_identity() {
    let fixture = Fixture::create();
    let produced = resolve(&fixture, &impl_backend(&fixture), "pkg/impl.py", Vec::new());
    assert!(!produced.evidence.is_empty());
    let rendered = format!("{:?}", produced.evidence);
    for leaked in ["file://", "typeServer/", "textDocument/", "snapshot"] {
        assert!(
            !rendered.contains(leaked),
            "{leaked} must not survive normalization: {rendered}"
        );
    }
}

#[test]
fn a_refresh_publishes_a_complete_basis() {
    let fixture = Fixture::create();
    let mut index = SemanticIndex::empty();
    let outcome = refresh(&mut index, &fixture, &impl_backend(&fixture), "pkg/impl.py", 4)
        .expect("published");
    assert!(outcome.evidence_count > 0);
    assert_eq!(outcome.publication.generation_id, 4);
    assert_eq!(outcome.report.len(), outcome.evidence_count);

    let status = index.status(&owner_of(&fixture, "pkg/impl.py"));
    assert_eq!(status.state, SemanticState::Current);
    let basis = &outcome.publication.basis;
    assert_eq!(status.basis.as_ref(), Some(basis));
    assert!(
        basis.inventory_fingerprint.is_some(),
        "the backend's snapshot is program-wide, so the module set is part of the basis"
    );
    assert!(!basis.config_fingerprint.is_empty());
    assert!(!basis.environment_fingerprint.is_empty());
    assert!(
        basis.depends_on(fixture.resource("pkg/impl.py").id),
        "the Resource the analysis read is in its basis"
    );
    assert!(
        basis.depends_on(fixture.resource("pkg/base.py").id),
        "so is the Resource a target was matched in"
    );
    assert!(!basis.depends_on(fixture.resource("pkg/twin.py").id));
}

#[test]
fn a_fact_without_an_occurrence_is_still_reported() {
    let fixture = Fixture::create();
    // A gap whose span no Occurrence covers.
    let phantom = PersistedUnresolved {
        occurrence: OccurrenceRef {
            kind: OccurrenceKind::CallSite,
            start_byte: 3,
            end_byte: 7,
        },
        intended: IntendedRelation::Known(RelationKind::Calls),
        lookup_name: "ghost".to_owned(),
        module_hint: None,
        reason: UnresolvedReason::NoStructuralBinding,
        candidate_truncated: false,
        candidates: Vec::new(),
        resolution_context_key: None,
    };
    let produced = resolve(&fixture, &impl_backend(&fixture), "pkg/impl.py", vec![phantom]);
    assert!(
        produced
            .evidence
            .iter()
            .any(|item| item.occurrence.is_some_and(|site| site.start_byte == 3)),
        "the adapter still reports it; the merge is what refuses it"
    );
}

#[test]
fn a_backend_failure_publishes_nothing() {
    let fixture = Fixture::create();
    let mut index = SemanticIndex::empty();
    let backend = ScriptedBackend::new().timing_out();
    let error =
        refresh(&mut index, &fixture, &backend, "pkg/impl.py", 1).expect_err("no publication");
    assert!(matches!(
        error,
        PythonSemanticError::Backend(BatchError::Request(RequestFailure::TimedOut { .. }))
    ));
    assert_eq!(
        index.status(&owner_of(&fixture, "pkg/impl.py")).state,
        SemanticState::Unpublished
    );
}

#[test]
fn an_unknown_resource_and_an_unread_source_are_told_apart() {
    let fixture = Fixture::create();
    let context = context();
    let capabilities = capability_report();
    let config = config_basis(&PythonSettings::default(), None);
    let attempt = |owner: ResourceId, owner_text: Result<String, String>| {
        collect_evidence(
            &mut Conversation::new(&ScriptedBackend::new()),
            &RefreshRequest {
                context: &context,
                workspace_root: ROOT,
                owner,
                config: &config,
                capabilities: &capabilities,
                policy: BatchPolicy::default(),
            },
            RefreshInputs {
                resources: &fixture.resources,
                anchors: &fixture.anchors,
                texts: &fixture.texts,
                owner_text: &owner_text,
                occurrences: &[],
                gaps: &[],
                decorators: &[],
                analysis_profile_id: 1,
            },
        )
        .expect_err("nothing to collect")
    };
    assert_eq!(
        attempt(
            fixture.resource("pkg/base.py").id,
            Err("permission denied".to_owned())
        ),
        PythonSemanticError::UnreadableSource {
            path_rel: "pkg/base.py".to_owned(),
            detail: "permission denied".to_owned(),
        }
    );
    let absent = ResourceId { value: 999 };
    assert_eq!(
        attempt(absent, Ok(String::new())),
        PythonSemanticError::UnknownResource(absent)
    );
}

#[test]
fn identity_and_basis_inputs_move_only_when_their_inputs_do() {
    let mut fixture = Fixture::create();
    let inventory = inventory_fingerprint(&fixture.resources, ResourceLanguage::Python);
    assert_eq!(
        inventory,
        inventory_fingerprint(&fixture.resources, ResourceLanguage::Python),
        "deterministic"
    );
    // A new module changes the module set; editing one does not.
    for row in fixture.resources.iter_mut() {
        row.content_hash = Some("edited".to_owned());
        row.resource_revision = "edited".to_owned();
    }
    assert_eq!(
        inventory,
        inventory_fingerprint(&fixture.resources, ResourceLanguage::Python)
    );
    for row in fixture.resources.iter_mut() {
        if row.path_key == "pkg/twin.py" {
            row.path_key = "pkg/renamed.py".to_owned();
        }
    }
    assert_ne!(
        inventory,
        inventory_fingerprint(&fixture.resources, ResourceLanguage::Python)
    );

    let environment = EnvironmentIdentity {
        fingerprint: "sha256:env".to_owned(),
        assurance: EnvironmentAssurance::Proven,
        distributions: 1,
    };
    let install = |script: &str| PyrightInstall {
        node: "/usr/bin/node".to_owned(),
        server_script: script.to_owned(),
        package_version: "1.1.414".to_owned(),
    };
    assert_eq!(
        toolchain_identity(&install("/opt/a/pyright-typeserver.js"), &environment),
        toolchain_identity(&install("/opt/b/pyright-typeserver.js"), &environment),
        "where the type server is installed does not change what Python means"
    );
    assert_eq!(
        toolchain_identity(&install("/opt/a/pyright-typeserver.js"), &environment)
            .backend_compatibility_class,
        PythonLauncher::compatibility_class()
    );
}

#[test]
fn config_basis_follows_the_config_file_and_the_settings() {
    let fixture = Fixture::create();
    let config_resource = fixture.resource("pkg/base.py");
    let empty = config_basis(&PythonSettings::default(), None);
    let with_file = config_basis(&PythonSettings::default(), Some(&config_resource));
    assert_ne!(empty.fingerprint(), with_file.fingerprint());

    let with_mode = config_basis(
        &PythonSettings {
            type_checking_mode: Some("strict".to_owned()),
            ..PythonSettings::default()
        },
        Some(&config_resource),
    );
    assert_ne!(with_file.fingerprint(), with_mode.fingerprint());
    // The interpreter belongs to the environment axis, not this one.
    let with_interpreter = config_basis(
        &PythonSettings {
            python_path: Some("/venv/bin/python".to_owned()),
            ..PythonSettings::default()
        },
        Some(&config_resource),
    );
    assert_eq!(with_file.fingerprint(), with_interpreter.fingerprint());
}

#[test]
fn a_call_site_keeps_its_own_relation_kind_and_is_not_also_a_reference() {
    let fixture = Fixture::create();
    let produced = resolve(&fixture, &impl_backend(&fixture), "pkg/impl.py", Vec::new());
    let call_site = fixture.text("pkg/impl.py").find("x.run").expect("the call site");

    let at_call: Vec<&SemanticEvidence> = produced
        .evidence
        .iter()
        .filter(|item| item.occurrence.is_some_and(|site| site.start_byte == call_site))
        .collect();
    assert_eq!(at_call.len(), 1, "one site, one relation");
    assert_eq!(at_call[0].relation_kind, Some(RelationKind::Calls));
    assert!(
        produced
            .evidence
            .iter()
            .filter(|item| item.relation_kind == Some(RelationKind::References))
            .all(|item| item
                .occurrence
                .is_some_and(|site| site.kind == OccurrenceKind::ReferenceSite)),
        "REFERENCES only ever comes from a reference site"
    );
}

#[test]
fn an_ancestor_change_makes_the_publication_not_current() {
    let fixture = Fixture::create();
    let mut index = SemanticIndex::empty();
    refresh(&mut index, &fixture, &impl_backend(&fixture), "pkg/impl.py", 1).expect("published");
    let owner = owner_of(&fixture, "pkg/impl.py");
    assert_eq!(index.status(&owner).state, SemanticState::Current);

    let touched = index.owners_depending_on(fixture.resource("pkg/base.py").id);
    assert!(
        touched.iter().any(|one| same_owner(one, &owner)),
        "invalidated {touched:?}"
    );
    for one in &touched {
        index.mark_dirty(one, WORKSPACE_MOVED_CODE);
    }
    assert_eq!(index.status(&owner).state, SemanticState::Dirty);
}

#[test]
fn a_declared_override_is_a_member_whose_decorator_is_the_typing_one() {
    let fixture = Fixture::create();
    let site = DecoratorSite {
        start_byte: 0,
        end_byte: 8,
        member: SymbolId { value: 4 },
    };
    let search = vec![path_to_uri("/venv/site-packages"), path_to_uri("/typeshed/stdlib")];
    let declared = |uri: &str| {
        let mut normalizer = Normalizer::new(
            &fixture.resources,
            &fixture.anchors,
            &fixture.texts,
            ROOT,
            &search,
        );
        overrides_declared(
            &mut normalizer,
            &[site],
            &[vec![Location {
                uri: path_to_uri(uri),
                range: Range::new(Position::new(3, 4), Position::new(3, 12)),
            }]],
        )
    };
    assert_eq!(declared("/typeshed/stdlib/typing.pyi"), vec![SymbolId { value: 4 }]);
    assert_eq!(declared("/typeshed/stdlib/functools.pyi"), Vec::new());
}

#[test]
fn a_dependency_is_named_below_its_import_root() {
    let roots = vec!["/venv/site-packages".to_owned(), "/venv".to_owned()];
    let entity = external_entity("/venv/site-packages/requests/api.py", &roots, Some("get"))
        .expect("below a root");
    assert_eq!(entity.package_identity, "requests");
    assert_eq!(entity.module_identity.as_deref(), Some("requests.api"));
    assert_eq!(entity.symbol_name.as_deref(), Some("get"));
    assert_eq!(entity.kind, EXTERNAL_SYMBOL);
    assert!(external_entity("/elsewhere/x.py", &roots, None).is_none());
}

#[test]
fn a_batch_answers_what_was_asked_or_says_why_not() {
    let fixture = Fixture::create();
    let backend = impl_backend(&fixture);
    let mut batch = Batch::new(&backend, 7);
    assert_eq!(batch.snapshot(), 7);
    let asked = PythonRequest::SearchPaths {
        from_uri: fixture.uri("pkg/impl.py"),
        snapshot: 1,
    };
    assert!(batch.call(asked).is_ok());
    assert_eq!(backend.snapshots_seen(), vec![7], "the batch's own snapshot is carried");
    assert!(matches!(
        read_answer(Ok(PythonResponse::SnapshotStale)),
        Err(BatchError::SnapshotStale)
    ));
    assert!(matches!(
        read_answer(Err(RequestFailure::Cancelled)),
        Err(BatchError::Request(RequestFailure::Cancelled))
    ));
    assert!(matches!(
        snapshot_of(Ok(PythonResponse::Snapshot(3))),
        Ok(3)
    ));
    assert!(matches!(
        snapshot_of(Ok(PythonResponse::Delivered)),
        Err(BatchError::Protocol(_))
    ));
    assert_eq!(BatchPolicy { max_attempts: 0 }.allowed_attempts(), 1);
    assert_eq!(
        BatchError::RetriesExhausted { attempts: 4 }.message(),
        "the backend snapshot moved on every one of 4 attempts"
    );
}

/// Publish what was collected of `pkg/impl.py`, at that moment.
fn publish_at(
    index: &mut SemanticIndex,
    fixture: &Fixture,
    ancestors: Vec<ResourceId>,
    now: &PublicationMoment<'_>,
) -> Result<PublishedEvidence, PythonSemanticError> {
    let collected = collect(fixture, &impl_backend(fixture), "pkg/impl.py", Vec::new())?;
    let context = context();
    let capabilities = capability_report();
    let config = config_basis(&PythonSettings::default(), None);
    publish_evidence(
        index,
        &RefreshRequest {
            context: &context,
            workspace_root: ROOT,
            owner: fixture.resource("pkg/impl.py").id,
            config: &config,
            capabilities: &capabilities,
            policy: BatchPolicy::default(),
        },
        &fixture.resource("pkg/impl.py"),
        &fixture.resources,
        collected,
        Derivation {
            evidence: Vec::new(),
            ancestor_resources: ancestors,
            unproven: vec![UnprovenOverride {
                method: SymbolId { value: 77 },
                reason: UnprovenReason::OpaqueAncestor,
            }],
        },
        9,
        "w1",
        now,
    )
}

fn obsolete(error: &PythonSemanticError) -> ObsoleteReason {
    let PythonSemanticError::Index(SemanticIndexError::Obsolete {
        generation_id: 9,
        reason,
    }) = error
    else {
        panic!("expected an obsolete basis, got {}", error.message());
    };
    *reason
}

#[test]
fn a_source_change_while_the_backend_thinks_rejects_the_candidate() {
    let fixture = Fixture::create();
    let owner = fixture.resource("pkg/impl.py").id;
    // The Workspace moves on after the analysis read the Resource and
    // before the candidate is published.
    let mut moved = fixture.resources.clone();
    for resource in &mut moved {
        if resource.id == owner {
            resource.resource_revision = "moved-on".to_owned();
        }
    }
    let mut index = SemanticIndex::empty();
    let error = publish_at(
        &mut index,
        &fixture,
        Vec::new(),
        &PublicationMoment {
            resources: &moved,
            workspace_revision: "w1",
        },
    )
    .expect_err("obsolete");
    assert_eq!(
        obsolete(&error),
        ObsoleteReason::SourceRevisionMoved { resource: owner }
    );
    assert_eq!(
        error.message(),
        "semantic publication: generation 9 is obsolete: SOURCE_CHANGED"
    );
    assert_eq!(
        index.status(&owner_of(&fixture, "pkg/impl.py")).state,
        SemanticState::Unpublished,
        "nothing is written"
    );
}

#[test]
fn a_moved_module_set_or_workspace_rejects_the_candidate_too() {
    let fixture = Fixture::create();
    let mut index = SemanticIndex::empty();
    let mut grown = fixture.resources.clone();
    let mut extra = fixture.resource("pkg/impl.py");
    extra.id = ResourceId { value: 9_999 };
    extra.path_key = "pkg/new.py".to_owned();
    grown.push(extra);
    let error = publish_at(
        &mut index,
        &fixture,
        Vec::new(),
        &PublicationMoment {
            resources: &grown,
            workspace_revision: "w1",
        },
    )
    .expect_err("obsolete");
    assert_eq!(obsolete(&error), ObsoleteReason::InventoryMoved);
    let error = publish_at(
        &mut index,
        &fixture,
        Vec::new(),
        &PublicationMoment {
            resources: &fixture.resources,
            workspace_revision: "w2",
        },
    )
    .expect_err("obsolete");
    assert_eq!(obsolete(&error), ObsoleteReason::WorkspaceMoved);
}

#[test]
fn an_ancestor_is_part_of_what_a_publication_depends_on() {
    let fixture = Fixture::create();
    let mut index = SemanticIndex::empty();
    let twin = fixture.resource("pkg/twin.py").id;
    let base = fixture.resource("pkg/base.py").id;
    let published = publish_at(
        &mut index,
        &fixture,
        vec![twin, ResourceId { value: 123_456 }, base],
        &PublicationMoment {
            resources: &fixture.resources,
            workspace_revision: "w1",
        },
    )
    .expect("published");
    let sources: Vec<ResourceId> = published
        .publication
        .basis
        .sources
        .iter()
        .map(|(resource, _)| *resource)
        .collect();
    assert!(sources.contains(&fixture.resource("pkg/impl.py").id));
    assert!(sources.contains(&twin) && sources.contains(&base));
    assert!(
        sources.windows(2).all(|pair| pair[0].value < pair[1].value),
        "by their ids, and each once: {sources:?}"
    );
    assert!(published
        .evidence
        .iter()
        .all(|item| item.basis.generation_id == 9));
    assert_eq!(published.status.state, SemanticState::Current);
    assert_eq!(published.unproven_overrides.len(), 1);
}

#[test]
fn a_refused_merge_aborts_its_generation_and_writes_nothing_else() {
    let fixture = Fixture::create();
    let mut index = SemanticIndex::empty();
    let now = PublicationMoment {
        resources: &fixture.resources,
        workspace_revision: "w1",
    };
    let mut tables = tables();
    let published = publish_at(&mut index, &fixture, Vec::new(), &now).expect("published");
    let refused = finish_refresh(
        &mut tables,
        published,
        Err(MergeError {
            detail: "not current".to_owned(),
        }),
    )
    .expect_err("refused");
    assert_eq!(refused.message(), "semantic merge: not current");
    assert_eq!(tables.stable_generation_id, None);
    assert_eq!(tables.generations.len(), 1);
    assert_eq!(tables.generations[0].state, GenerationState::Aborted);
    assert_eq!(tables.generations[0].abort_reason.as_deref(), Some("not current"));

    let published = publish_at(&mut index, &fixture, Vec::new(), &now).expect("published");
    let merged = MergeOutcome {
        gaps_resolved: 3,
        ..NOTHING_MERGED
    };
    let outcome = finish_refresh(&mut tables, published, Ok(merged)).expect("merged");
    assert_eq!(outcome.merged, merged);
    assert_eq!(tables.stable_generation_id, Some(2));
    assert_eq!(tables.generations[1].state, GenerationState::Stable);
    assert_eq!(tables.generations[1].basis_workspace_revision, "w1");

    let published = publish_at(&mut index, &fixture, Vec::new(), &now).expect("published");
    let mut unborn = self::tables();
    unborn.revision = None;
    assert_eq!(
        finish_refresh(&mut unborn, published, Ok(NOTHING_MERGED)),
        Err(PythonSemanticError::Index(
            SemanticIndexError::ClockNotBootstrapped
        ))
    );
}

#[test]
fn errors_of_a_refresh_are_told_in_words() {
    let words = |error: PythonSemanticError| error.message();
    assert_eq!(
        words(PythonSemanticError::UnknownResource(ResourceId { value: 5 })),
        "5 is not an active Resource"
    );
    assert_eq!(
        words(PythonSemanticError::UnreadableSource {
            path_rel: "a.py".to_owned(),
            detail: "gone".to_owned()
        }),
        "could not read a.py: gone"
    );
    assert_eq!(
        words(PythonSemanticError::Backend(BatchError::RetriesExhausted {
            attempts: 4
        })),
        "python semantic backend: the backend snapshot moved on every one of 4 attempts"
    );
    assert_eq!(
        words(PythonSemanticError::Backend(BatchError::Request(
            RequestFailure::TimedOut { after_ms: 30 }
        ))),
        "python semantic backend: timed out after 30 ms"
    );
    assert_eq!(
        words(PythonSemanticError::Sqlite("locked".to_owned())),
        "index: locked"
    );
    assert_eq!(
        words(PythonSemanticError::Index(SemanticIndexError::Store(
            "disk full".to_owned()
        ))),
        "semantic publication: disk full"
    );
}

#[test]
fn a_source_stands_at_the_revision_it_was_put_at_last() {
    let basis = SemanticBasis::new(
        &context(),
        &config_basis(&PythonSettings::default(), None),
        ResourceId { value: 7 },
    )
    .with_source(ResourceId { value: 7 }, "r1")
    .with_source(ResourceId { value: 3 }, "r2")
    .with_source(ResourceId { value: 7 }, "r3")
    .with_source(ResourceId { value: 5 }, "r4");
    let sources: Vec<(u128, &str)> = basis
        .sources
        .iter()
        .map(|(resource, revision)| (resource.value, revision.as_str()))
        .collect();
    assert_eq!(sources, [(3, "r2"), (5, "r4"), (7, "r3")]);
}

#[test]
fn every_attempt_asks_for_a_snapshot_of_its_own() {
    let fixture = Fixture::create();
    let backend = impl_backend(&fixture).with_stale_budget(2);
    resolve(&fixture, &backend, "pkg/impl.py", Vec::new());

    let calls = backend.calls();
    let asked: Vec<usize> = (0..calls.len())
        .filter(|at| matches!(calls[*at], PythonRequest::Snapshot))
        .collect();
    assert_eq!(asked, vec![0, 2, 4], "each attempt begins by asking, and then asks on it");
    assert_eq!(
        backend.snapshots_seen()[..3],
        [1, 2, 3].map(|step| backend.snapshots_seen()[0] + step - 1)
    );
}

#[test]
fn a_conversation_opens_a_batch_on_the_snapshot_that_is_named() {
    let fixture = Fixture::create();
    let backend = impl_backend(&fixture);
    let mut conversation = Conversation::new(&backend);
    let mut batch = conversation.open().expect("a snapshot is named");
    assert!(batch
        .call(PythonRequest::SearchPaths {
            from_uri: fixture.uri("pkg/impl.py"),
            snapshot: 0,
        })
        .is_ok());
    assert_eq!(backend.snapshots_seen(), vec![batch.snapshot()]);
    conversation.close(batch);

    let silent = ScriptedBackend::new().timing_out();
    assert!(matches!(
        Conversation::new(&silent).open(),
        Err(BatchError::Request(RequestFailure::TimedOut { .. }))
    ));
}

#[test]
fn a_second_refresh_over_the_same_answers_adds_nothing() {
    let fixture = Fixture::create();
    let mut index = SemanticIndex::empty();
    let owner = owner_of(&fixture, "pkg/impl.py");
    let first = refresh(&mut index, &fixture, &impl_backend(&fixture), "pkg/impl.py", 1)
        .expect("published");
    let twin = index.status(&owner_of(&fixture, "pkg/twin.py"));
    for generation_id in 2..5 {
        let again =
            refresh(&mut index, &fixture, &impl_backend(&fixture), "pkg/impl.py", generation_id)
                .expect("published again");
        assert_eq!(again.report, first.report);
        assert_eq!(again.evidence_count, first.evidence_count);
        assert_eq!(again.publication.basis, first.publication.basis);
        assert_eq!(again.deferred, first.deferred);
    }
    assert_eq!(index.status(&owner).state, SemanticState::Current);
    assert_eq!(index.status(&owner_of(&fixture, "pkg/twin.py")), twin);
    assert_eq!(index.owners_of_context(&context().context_key()).len(), 1);
}

#[test]
fn a_module_file_its_stub_and_its_package_are_one_identity() {
    let roots = vec!["/elsewhere".to_owned(), "/typeshed/stdlib".to_owned()];
    let named = |path: &str| {
        external_entity(&format!("/typeshed/stdlib/{path}"), &roots, Some("json.dumps"))
            .expect("below a root")
    };
    let file = named("os/path.py");
    assert_eq!(file.module_identity.as_deref(), Some("os.path"));
    assert_eq!(file.package_identity, "os");
    assert_eq!(file.qualified_name.as_deref(), Some("os.path.dumps"));
    assert_eq!(named("os/path.pyi"), file);
    assert_eq!(named("os/path/__init__.py"), file);
    assert_eq!(named("os/path/__init__.pyi"), file);
    assert_ne!(named("os/__init__.pyi"), file);
}

/// Answers some definition questions as the scripted backend does, and the
/// next one otherwise.
struct Interrupted {
    backend: ScriptedBackend,
    left: Mutex<usize>,
    then: Result<PythonResponse, RequestFailure>,
}

impl PythonQueries for Interrupted {
    fn call(&self, request: &PythonRequest) -> Result<PythonResponse, RequestFailure> {
        if matches!(request, PythonRequest::Definition { .. }) {
            let mut left = self.left.lock().expect("lock");
            if *left == 0 {
                return self.then.clone();
            }
            *left -= 1;
        }
        self.backend.call(request)
    }
}

fn interrupted(
    fixture: &Fixture,
    left: usize,
    then: Result<PythonResponse, RequestFailure>,
) -> Interrupted {
    Interrupted { backend: impl_backend(fixture), left: Mutex::new(left), then }
}

/// Resolve the two calls of `pkg/impl.py`, the one that leads to
/// `pkg/base.py` first, and tell what was read.
fn calls_resolved(
    fixture: &Fixture,
    backend: &Interrupted,
) -> (Result<ResourceEvidence, BatchError>, Vec<(ResourceId, String)>) {
    let owner = fixture.resource("pkg/impl.py");
    let text = fixture.text("pkg/impl.py");
    let occurrences = fixture.occurrences("pkg/impl.py");
    let mut gaps: Vec<PersistedUnresolved> = fixture
        .gaps("pkg/impl.py")
        .into_iter()
        .filter(|gap| gap.occurrence.kind == OccurrenceKind::CallSite)
        .collect();
    gaps.reverse();
    let key = context().context_key();
    let search = vec![path_to_uri("/typeshed/stdlib")];
    let mut normalizer = Normalizer::new(
        &fixture.resources,
        &fixture.anchors,
        &fixture.texts,
        ROOT,
        &search,
    );
    let outcome = resolve_resource(
        &mut Batch::new(backend, 7),
        &mut normalizer,
        &ResourceRequest {
            owner: &owner,
            owner_text: &text,
            gaps: &gaps,
            occurrences: &occurrences,
            generation_id: 0,
            analysis_profile_id: 1,
            context_key: &key,
        },
    );
    (outcome, normalizer.sources_read().clone())
}

#[test]
fn an_error_partway_keeps_what_was_read_before_it() {
    let fixture = Fixture::create();
    let base = fixture.resource("pkg/base.py");
    let timed_out = || Err(RequestFailure::TimedOut { after_ms: 50 });

    let (outcome, reads) = calls_resolved(&fixture, &interrupted(&fixture, 2, timed_out()));
    assert_eq!(outcome.expect("both were answered").evidence.len(), 2);
    assert_eq!(reads, vec![(base.id, base.resource_revision.clone())]);

    let (outcome, reads) = calls_resolved(&fixture, &interrupted(&fixture, 1, timed_out()));
    assert!(matches!(
        outcome,
        Err(BatchError::Request(RequestFailure::TimedOut { after_ms: 50 }))
    ));
    assert_eq!(reads, vec![(base.id, base.resource_revision)], "the first was answered");

    let (outcome, reads) = calls_resolved(&fixture, &interrupted(&fixture, 0, timed_out()));
    assert!(outcome.is_err());
    assert!(reads.is_empty(), "nothing was answered");
}

#[test]
fn a_decorator_that_cannot_be_asked_about_keeps_what_was_read_before_it() {
    let fixture = Fixture::create();
    let base = fixture.resource("pkg/base.py");
    let text = fixture.text("pkg/impl.py");
    let start_byte = find_nth(&text, "x.run", 0);
    let site = DecoratorSite {
        start_byte,
        end_byte: start_byte + 5,
        member: SymbolId { value: 4 },
    };
    let search = vec![path_to_uri("/typeshed/stdlib")];
    for (left, read) in [(1, vec![(base.id, base.resource_revision.clone())]), (0, Vec::new())] {
        let backend = interrupted(&fixture, left, Err(RequestFailure::Cancelled));
        let mut normalizer = Normalizer::new(
            &fixture.resources,
            &fixture.anchors,
            &fixture.texts,
            ROOT,
            &search,
        );
        let outcome = declared_overrides(
            &mut Batch::new(&backend, 7),
            &mut normalizer,
            &fixture.uri("pkg/impl.py"),
            &text,
            &[site, site],
        );
        assert!(matches!(outcome, Err(BatchError::Request(RequestFailure::Cancelled))));
        assert_eq!(*normalizer.sources_read(), read);
    }
}

#[test]
fn an_answer_of_another_kind_is_quoted_whole() {
    let fixture = Fixture::create();
    let quoted = |then| match calls_resolved(&fixture, &interrupted(&fixture, 0, Ok(then))).0 {
        Err(BatchError::Protocol(detail)) => detail,
        other => panic!("not a protocol error: {other:?}"),
    };
    assert_eq!(quoted(PythonResponse::Snapshot(3)), "Snapshot(3)");
    assert_eq!(
        quoted(PythonResponse::Type(Some(TypeAnswer {
            declaration: None,
            module_name: Some("os".to_owned()),
            module_uri: None,
        }))),
        "Type(Some(TypeAnswer { declaration: None, module_name: Some(\"os\"), \
         module_uri: None }))"
    );
    assert_eq!(quoted(PythonResponse::Import(None)), "Import(None)");
    assert_eq!(
        quoted(PythonResponse::Unsupported("textDocument/definition".to_owned())),
        "textDocument/definition is unsupported"
    );
}

#[test]
fn a_gap_is_asked_about_while_it_is_open_or_held_closed() {
    let fixture = Fixture::create();
    let all = || fixture.gaps("pkg/impl.py");
    let sites = |gaps: Vec<PersistedUnresolved>| -> BTreeSet<usize> {
        gaps.into_iter().map(|gap| gap.occurrence.start_byte).collect()
    };
    for closed in 0..=all().len() {
        let mut held = all();
        let open = held.split_off(closed);
        let asked = gaps_to_ask(open, held);
        assert_eq!(asked.len(), all().len());
        assert_eq!(sites(asked), sites(all()));
    }
    assert_eq!(gaps_to_ask(all(), all()), all(), "no site is asked about twice");
}

#[test]
fn of_two_rows_of_one_owner_the_later_counts() {
    let row = |owner: u128, state| PublicationRow {
        owner: SemanticOwner::new("here", ResourceId { value: owner }),
        status: SemanticStatus { state, ..SemanticStatus::none() },
        profile_fingerprint: String::new(),
    };
    let mut index = SemanticIndex::from_rows(vec![
        row(1, SemanticState::Dirty),
        row(2, SemanticState::Current),
        row(1, SemanticState::Unavailable),
    ]);
    let one = SemanticOwner::new("here", ResourceId { value: 1 });
    assert_eq!(index.status(&one).state, SemanticState::Unavailable);
    index.mark_dirty(&one, WORKSPACE_MOVED_CODE);
    index.mark_dirty(&one, WORKSPACE_MOVED_CODE);
    assert_eq!(index.status(&one).state, SemanticState::Dirty);
    assert_eq!(
        index.status(&SemanticOwner::new("here", ResourceId { value: 2 })).state,
        SemanticState::Current
    );
}
