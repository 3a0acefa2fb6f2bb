//! Finding and starting the pinned type server.
//!
//! The artifact is always a managed or project-local install: a directory
//! that holds `node_modules/pyright-typeserver`. Nothing here searches for
//! another, and a missing install is a typed failure rather than a
//! fallback.

use vstd::prelude::*;

use crate::json::{
    array_view, empty_object, json_number, json_text, json_texts, lemma_array_view, member_text,
    number, parse_text_member, parsed_json, texts_array, with_member, Json, JsonView,
    ObjectBuilder,
};
use crate::paths::{join_path, path_join};
use crate::python_semantic::host::{Connection, PythonSettings};
use crate::python_semantic::method;
use crate::python_semantic::protocol::{
    classification, decoded, wire_method, ProtocolCompatibility, PythonRequest, PythonResponse,
    ResponseView, COMPATIBILITY_CLASS,
};
use crate::runtime::HostError;
use crate::text::{all_chars, joined, optional_chars, same_text, Chars};

verus! {

/// The package that carries the type server.
pub const PACKAGE: &'static str = "pyright-typeserver";

/// When a freshly started type server may be called ready.
///
/// There is no readiness notification in the protocol, so readiness is
/// probed: the backend is ready when it answers a question about the
/// project.
#[derive(Debug, Clone, Copy, PartialEq, Eq, Structural)]
pub struct Readiness {
    pub poll_ms: u64,
    /// How long to keep probing before starting anyway.
    pub timeout_ms: u64,
}

impl Default for Readiness {
    fn default() -> (readiness: Self)
        ensures
            readiness.poll_ms == 50,
            readiness.timeout_ms == 60000,
    {
        Readiness { poll_ms: 50, timeout_ms: 60000 }
    }
}

/// Why the pinned install could not be used.
#[derive(Debug, PartialEq, Eq)]
pub enum InstallError {
    /// There is no package under the configured root.
    PackageMissing { root: String },
    /// The package is there but its entry point is not.
    ScriptMissing { path: String },
    ManifestUnreadable { path: String, detail: String },
    /// The manifest carries no version, so nothing could be recorded as the
    /// backend version that a publication was produced under.
    VersionMissing { path: String },
}

impl InstallError {
    /// The error in words.
    pub fn message(&self) -> (text: String)
        ensures
            text@ == match self {
                InstallError::PackageMissing { root } => "no "@ + PACKAGE@ + " install under "@
                    + root@ + "; Python semantics are unavailable"@,
                InstallError::ScriptMissing { path } => PACKAGE@ + " entry point missing at "@
                    + path@,
                InstallError::ManifestUnreadable { path, detail } => "unreadable "@ + PACKAGE@
                    + " manifest at "@ + path@ + ": "@ + detail@,
                InstallError::VersionMissing { path } => PACKAGE@ + " manifest at "@ + path@
                    + " states no version"@,
            },
    {
        match self {
            InstallError::PackageMissing { root } => {
                let mut text = joined("no ", PACKAGE);
                text.append(" install under ");
                text.append(root.as_str());
                text.append("; Python semantics are unavailable");
                text
            },
            InstallError::ScriptMissing { path } => {
                let mut text = joined(PACKAGE, " entry point missing at ");
                text.append(path.as_str());
                text
            },
            InstallError::ManifestUnreadable { path, detail } => {
                let mut text = joined("unreadable ", PACKAGE);
                text.append(" manifest at ");
                text.append(path.as_str());
                text.append(": ");
                text.append(detail.as_str());
                text
            },
            InstallError::VersionMissing { path } => {
                let mut text = joined(PACKAGE, " manifest at ");
                text.append(path.as_str());
                text.append(" states no version");
                text
            },
        }
    }
}

/// What was found on disk under the root of an install.
#[derive(Debug, PartialEq, Eq)]
pub struct InstallProbe {
    pub package_is_dir: bool,
    pub script_is_file: bool,
    /// The text of the manifest, or why it could not be read.
    pub manifest: Result<String, String>,
}

/// A located, version-pinned type server.
#[derive(Debug, PartialEq, Eq)]
pub struct PyrightInstall {
    /// The runtime to run it with. Explicit rather than discovered.
    pub node: String,
    pub server_script: String,
    /// The package version, straight from the manifest.
    pub package_version: String,
}

/// Where the package is under a root.
pub open spec fn package_path(root: Chars) -> Chars {
    path_join(path_join(root, "node_modules"@), PACKAGE@)
}

pub open spec fn script_path(root: Chars) -> Chars {
    path_join(package_path(root), "pyright-typeserver.js"@)
}

pub open spec fn manifest_path(root: Chars) -> Chars {
    path_join(package_path(root), "package.json"@)
}

/// The version that a manifest states: none where it is empty.
pub open spec fn stated_version(found: Option<Chars>) -> Option<Chars> {
    match found {
        Some(version) => if version.len() > 0 {
            Some(version)
        } else {
            None
        },
        None => None,
    }
}

/// What a manifest that was read comes to.
pub open spec fn manifest_gives(
    root: Chars,
    node: Chars,
    manifest: Result<Option<Chars>, Chars>,
    located: Result<PyrightInstall, InstallError>,
) -> bool {
    match manifest {
        Err(detail) => located is Err && (located->Err_0 matches InstallError::ManifestUnreadable {
            path,
            detail: held,
        } && path@ == manifest_path(root) && held@ == detail),
        Ok(found) => match stated_version(found) {
            None => located is Err && (located->Err_0 matches InstallError::VersionMissing { path }
                && path@ == manifest_path(root)),
            Some(version) => located matches Ok(install) && install.node@ == node
                && install.server_script@ == script_path(root) && install.package_version@
                == version,
        },
    }
}

/// The version that the text of a manifest states, or why it cannot be
/// read.
pub open spec fn manifest_version(text: Chars) -> Result<Option<Chars>, Chars> {
    match parsed_json(text) {
        Ok(value) => Ok(member_text(value, "version"@)),
        Err(detail) => Err(detail),
    }
}

pub open spec fn version_view(version: Result<Option<String>, String>) -> Result<
    Option<Chars>,
    Chars,
> {
    match version {
        Ok(found) => Ok(optional_chars(found)),
        Err(detail) => Err(detail@),
    }
}

impl PyrightInstall {
    pub fn package(root: &str) -> (path: String)
        ensures
            path@ == package_path(root@),
    {
        join_path(join_path(root, "node_modules").as_str(), PACKAGE)
    }

    pub fn script(root: &str) -> (path: String)
        ensures
            path@ == script_path(root@),
    {
        join_path(PyrightInstall::package(root).as_str(), "pyright-typeserver.js")
    }

    pub fn manifest(root: &str) -> (path: String)
        ensures
            path@ == manifest_path(root@),
    {
        join_path(PyrightInstall::package(root).as_str(), "package.json")
    }

    /// What a manifest comes to, once its version was looked for.
    pub fn from_manifest(root: &str, node: &str, version: Result<Option<String>, String>) -> (
        located: Result<Self, InstallError>)
        ensures
            manifest_gives(root@, node@, version_view(version), located),
    {
        match version {
            Err(detail) => Err(
                InstallError::ManifestUnreadable { path: PyrightInstall::manifest(root), detail },
            ),
            Ok(Some(version)) => {
                if version.as_str().is_empty() {
                    return Err(
                        InstallError::VersionMissing { path: PyrightInstall::manifest(root) },
                    );
                }
                Ok(
                    PyrightInstall {
                        node: node.to_owned(),
                        server_script: PyrightInstall::script(root),
                        package_version: version,
                    },
                )
            },
            Ok(None) => Err(InstallError::VersionMissing { path: PyrightInstall::manifest(root) }),
        }
    }

    /// Locate the type server under `root`, given what was found there.
    ///
    /// `node` is the runtime: a parameter and not a lookup, so that the
    /// choice is always someone's decision.
    pub fn locate(root: &str, node: &str, probe: &InstallProbe) -> (located: Result<
        Self,
        InstallError,
    >)
        ensures
            !probe.package_is_dir ==> located is Err && (
            located->Err_0 matches InstallError::PackageMissing { root: held } && held@ == root@),
            probe.package_is_dir && !probe.script_is_file ==> located is Err && (
            located->Err_0 matches InstallError::ScriptMissing { path } && path@ == script_path(
                root@,
            )),
            probe.package_is_dir && probe.script_is_file ==> manifest_gives(
                root@,
                node@,
                match probe.manifest {
                    Ok(text) => manifest_version(text@),
                    Err(detail) => Err(detail@),
                },
                located,
            ),
    {
        if !probe.package_is_dir {
            return Err(InstallError::PackageMissing { root: root.to_owned() });
        }
        if !probe.script_is_file {
            return Err(InstallError::ScriptMissing { path: PyrightInstall::script(root) });
        }
        match &probe.manifest {
            Ok(text) => PyrightInstall::from_manifest(
                root,
                node,
                parse_text_member(text.as_str(), "version"),
            ),
            Err(detail) => PyrightInstall::from_manifest(root, node, Err(detail.clone())),
        }
    }
}

// ---------------------------------------------------------------------
// Starting
// ---------------------------------------------------------------------

/// The project root below a Workspace root.
pub open spec fn project_root_of(workspace_root: Chars, project_root_rel: Chars) -> Chars {
    if project_root_rel.len() == 0 || project_root_rel == "."@ {
        workspace_root
    } else {
        path_join(workspace_root, project_root_rel)
    }
}

/// Starts Python semantic runtimes for one Workspace.
#[derive(Debug)]
pub struct PythonLauncher {
    install: PyrightInstall,
    /// Where the Workspace lives now. A locator, deliberately not part of
    /// any identity.
    workspace_root: String,
    settings: PythonSettings,
    readiness: Readiness,
}

impl PythonLauncher {
    pub closed spec fn located(&self) -> PyrightInstall {
        self.install
    }

    pub closed spec fn root(&self) -> Chars {
        self.workspace_root@
    }

    pub closed spec fn configured(&self) -> PythonSettings {
        self.settings
    }

    pub closed spec fn probing(&self) -> Readiness {
        self.readiness
    }

    pub fn new(install: PyrightInstall, workspace_root: &str, settings: PythonSettings) -> (launcher:
        Self)
        ensures
            launcher.located() == install,
            launcher.root() == workspace_root@,
            launcher.configured() == settings,
            launcher.probing() == (Readiness { poll_ms: 50, timeout_ms: 60000 }),
    {
        PythonLauncher {
            install,
            workspace_root: workspace_root.to_owned(),
            settings,
            readiness: Readiness { poll_ms: 50, timeout_ms: 60000 },
        }
    }

    pub fn with_readiness(self, readiness: Readiness) -> (launcher: Self)
        ensures
            launcher.located() == self.located(),
            launcher.root() == self.root(),
            launcher.configured() == self.configured(),
            launcher.probing() == readiness,
    {
        PythonLauncher {
            install: self.install,
            workspace_root: self.workspace_root,
            settings: self.settings,
            readiness,
        }
    }

    pub fn install(&self) -> (install: &PyrightInstall)
        ensures
            *install == self.located(),
    {
        &self.install
    }

    pub fn settings(&self) -> (settings: &PythonSettings)
        ensures
            *settings == self.configured(),
    {
        &self.settings
    }

    pub fn readiness(&self) -> (readiness: Readiness)
        ensures
            readiness == self.probing(),
    {
        self.readiness
    }

    /// The compatibility class that this launcher will accept: fixed before
    /// anything is started, since the context that selects a runtime cannot
    /// depend on a running one.
    pub fn compatibility_class() -> (class: &'static str)
        ensures
            class@ == COMPATIBILITY_CLASS@,
    {
        COMPATIBILITY_CLASS
    }

    /// Where the project is that a binding names.
    pub fn project_root(&self, project_root_rel: &str) -> (root: String)
        ensures
            root@ == project_root_of(self.root(), project_root_rel@),
    {
        if project_root_rel.is_empty() || same_text(project_root_rel, ".") {
            self.workspace_root.clone()
        } else {
            join_path(self.workspace_root.as_str(), project_root_rel)
        }
    }
}

/// What the version answer of a handshake comes to. An unknown version may
/// have changed a shape without saying so: refusing to start is the safe
/// degradation.
pub open spec fn negotiated(
    answer: JsonView,
    outcome: Result<(String, ProtocolCompatibility), HostError>,
) -> bool {
    match decoded(PythonRequest::ProtocolVersion, answer) {
        Ok(ResponseView::ProtocolVersion(version)) => if classification(version).may_parse() {
            outcome matches Ok((held, class)) && held@ == version && class == classification(
                version,
            )
        } else {
            outcome is Err && outcome->Err_0.message@ == "type server protocol "@ + version
                + " is outside the tested "@ + COMPATIBILITY_CLASS@
                + "; Python semantics degrade rather than parse it"@
        },
        Ok(_) => outcome is Err && outcome->Err_0.message@
            == "the type server reported no protocol version"@,
        Err(detail) => outcome is Err && outcome->Err_0.message@ == wire_method(
            PythonRequest::ProtocolVersion,
        ) + ": "@ + detail,
    }
}

/// What the version answer of a handshake comes to.
pub fn negotiate(answer: &Json) -> (outcome: Result<(String, ProtocolCompatibility), HostError>)
    ensures
        negotiated(answer@, outcome),
{
    let version = match PythonRequest::ProtocolVersion.decode(answer) {
        Ok(PythonResponse::ProtocolVersion(version)) => version,
        Ok(_) => return Err(HostError::new("the type server reported no protocol version")),
        Err(error) => return Err(HostError { message: error.message() }),
    };
    let compatibility = ProtocolCompatibility::classify(version.as_str());
    if !compatibility.usable() {
        let mut text = joined("type server protocol ", version.as_str());
        text.append(" is outside the tested ");
        text.append(COMPATIBILITY_CLASS);
        text.append("; Python semantics degrade rather than parse it");
        return Err(HostError { message: text });
    }
    Ok((version, compatibility))
}

/// What a handshake is waiting for.
#[derive(Debug, Clone, Copy, PartialEq, Eq, Structural)]
pub enum HandshakeStage {
    /// The answer to `initialize`.
    Initializing,
    /// The delivery of `initialized`.
    Announcing,
    /// The answer to the version question.
    Negotiating,
}

/// What a handshake does next.
#[derive(Debug, PartialEq, Eq)]
pub enum HandshakeStep {
    /// Send the request, and come back with its answer.
    Request { waiting: HandshakeStage, method: &'static str, params: Option<Json> },
    /// Send the notification, and come back once it is delivered.
    Notify { waiting: HandshakeStage, method: &'static str, params: Json },
    Finish(Result<(String, ProtocolCompatibility), HostError>),
}

/// The method that a stage of a handshake waits on.
pub open spec fn stage_method(stage: HandshakeStage) -> Chars {
    match stage {
        HandshakeStage::Initializing => method::INITIALIZE@,
        HandshakeStage::Announcing => method::INITIALIZED@,
        HandshakeStage::Negotiating => wire_method(PythonRequest::ProtocolVersion),
    }
}

/// What a step of a handshake puts on the wire.
pub open spec fn sent_by(step: HandshakeStep) -> Seq<Chars> {
    match step {
        HandshakeStep::Request { method, .. } => seq![method@],
        HandshakeStep::Notify { method, .. } => seq![method@],
        HandshakeStep::Finish(_) => Seq::empty(),
    }
}

/// The stage that a step of a handshake leads to, if it goes on.
pub open spec fn stage_after(step: HandshakeStep) -> Option<HandshakeStage> {
    match step {
        HandshakeStep::Request { waiting, .. } => Some(waiting),
        HandshakeStep::Notify { waiting, .. } => Some(waiting),
        HandshakeStep::Finish(_) => None,
    }
}

/// What a handshake has put on the wire once it waits at a stage.
pub open spec fn sent_until(stage: HandshakeStage) -> Seq<Chars> {
    match stage {
        HandshakeStage::Initializing => seq![method::INITIALIZE@],
        HandshakeStage::Announcing => seq![method::INITIALIZE@, method::INITIALIZED@],
        HandshakeStage::Negotiating => seq![
            method::INITIALIZE@,
            method::INITIALIZED@,
            wire_method(PythonRequest::ProtocolVersion),
        ],
    }
}

/// A handshake that comes to a version has put `initialize`, `initialized`
/// and the version question on the wire, in that order, and nothing else.
pub proof fn lemma_a_handshake_sends_its_three_methods(
    stage: HandshakeStage,
    reply: Result<Json, String>,
    step: HandshakeStep,
)
    requires
        follows_in_handshake(stage, reply, step),
    ensures
        stage_after(step) matches Some(next) ==> sent_until(stage) + sent_by(step) == sent_until(
            next,
        ),
        step matches HandshakeStep::Finish(Ok(_)) ==> sent_until(stage) + sent_by(step)
            == sent_until(HandshakeStage::Negotiating),
{
    match stage_after(step) {
        Some(next) => {
            assert(sent_until(stage) + sent_by(step) =~= sent_until(next));
        },
        None => {
            assert(sent_until(stage) + sent_by(step) =~= sent_until(stage));
        },
    }
}

/// The first step of a handshake: `initialize`.
pub fn begin_handshake(connection: &mut Connection, process_id: u64, root_uri: &str) -> (step:
    HandshakeStep)
    ensures
        step matches HandshakeStep::Request { waiting, method, params: Some(params) } && waiting
            == HandshakeStage::Initializing && method@ == method::INITIALIZE@ && params@
            == initialize_view(process_id, root_uri@),
        final(connection).sent() == old(connection).sent() + sent_by(step),
        final(connection).sent() == old(connection).sent() + sent_until(
            HandshakeStage::Initializing,
        ),
{
    connection.put(method::INITIALIZE);
    HandshakeStep::Request {
        waiting: HandshakeStage::Initializing,
        method: method::INITIALIZE,
        params: Some(initialize_params(process_id, root_uri)),
    }
}

/// What follows once a stage of a handshake was answered: `initialize`,
/// `initialized`, the version question, and the first failure ends it.
pub open spec fn follows_in_handshake(
    stage: HandshakeStage,
    reply: Result<Json, String>,
    step: HandshakeStep,
) -> bool {
    match (stage, reply) {
        (_, Err(failure)) => step matches HandshakeStep::Finish(Err(error)) && error.message@
            == stage_method(stage) + " failed: "@ + failure@,
        (HandshakeStage::Initializing, Ok(_)) => step matches HandshakeStep::Notify {
            waiting,
            method,
            params,
        } && waiting == HandshakeStage::Announcing && method@ == method::INITIALIZED@ && params@
            == empty_object(),
        (HandshakeStage::Announcing, Ok(_)) => step matches HandshakeStep::Request {
            waiting,
            method,
            params,
        } && waiting == HandshakeStage::Negotiating && method@ == wire_method(
            PythonRequest::ProtocolVersion,
        ) && params is None,
        (HandshakeStage::Negotiating, Ok(answer)) => step matches HandshakeStep::Finish(outcome)
            && negotiated(answer@, outcome),
    }
}

/// What follows once a stage of a handshake was answered.
pub fn handshake(
    connection: &mut Connection,
    stage: HandshakeStage,
    reply: Result<Json, String>,
) -> (step: HandshakeStep)
    ensures
        follows_in_handshake(stage, reply, step),
        final(connection).sent() == old(connection).sent() + sent_by(step),
{
    let answer = match reply {
        Ok(answer) => answer,
        Err(failure) => {
            let asked = match stage {
                HandshakeStage::Initializing => method::INITIALIZE,
                HandshakeStage::Announcing => method::INITIALIZED,
                HandshakeStage::Negotiating => PythonRequest::ProtocolVersion.wire().0,
            };
            let mut text = joined(asked, " failed: ");
            text.append(failure.as_str());
            return HandshakeStep::Finish(Err(HostError { message: text }));
        },
    };
    match stage {
        HandshakeStage::Initializing => {
            connection.put(method::INITIALIZED);
            HandshakeStep::Notify {
                waiting: HandshakeStage::Announcing,
                method: method::INITIALIZED,
                params: ObjectBuilder::new().build(),
            }
        },
        HandshakeStage::Announcing => {
            let (asked, params) = connection.begin(&PythonRequest::ProtocolVersion);
            HandshakeStep::Request { waiting: HandshakeStage::Negotiating, method: asked, params }
        },
        HandshakeStage::Negotiating => HandshakeStep::Finish(negotiate(&answer)),
    }
}

/// Whether the answers to a readiness probe are about the project: a
/// snapshot, and import roots that are not empty.
pub fn answers_about_the_project(
    snapshot: Option<&PythonResponse>,
    search_paths: Option<&PythonResponse>,
) -> (ready: bool)
    ensures
        ready == ((snapshot matches Some(answer) && answer is Snapshot) && (
        search_paths matches Some(PythonResponse::SearchPaths(paths)) && paths@.len() > 0)),
{
    match (snapshot, search_paths) {
        (Some(PythonResponse::Snapshot(_)), Some(PythonResponse::SearchPaths(paths))) => paths.len()
            > 0,
        _ => false,
    }
}

/// What to do next while waiting for a backend to be ready.
#[derive(Debug, Clone, Copy, PartialEq, Eq, Structural)]
pub enum ReadyStep {
    /// It is ready, or the budget has run out. Starting anyway is no error:
    /// the queries will report what they can.
    Start,
    /// Wait that many milliseconds, then probe again.
    ProbeAfter(u64),
}

/// What to do next while waiting for a backend to be ready.
pub fn ready_step(readiness: Readiness, ready: bool, waited_ms: u64) -> (step: ReadyStep)
    ensures
        step == if ready || waited_ms >= readiness.timeout_ms {
            ReadyStep::Start
        } else {
            ReadyStep::ProbeAfter(readiness.poll_ms)
        },
{
    if ready || waited_ms >= readiness.timeout_ms {
        ReadyStep::Start
    } else {
        ReadyStep::ProbeAfter(readiness.poll_ms)
    }
}

/// The parameters that a connection is initialized with.
pub open spec fn initialize_view(process_id: u64, root_uri: Chars) -> JsonView {
    let folder = with_member(
        with_member(empty_object(), "uri"@, JsonView::Text(root_uri)),
        "name"@,
        JsonView::Text("workspace"@),
    );
    let general = with_member(
        empty_object(),
        "positionEncodings"@,
        texts_array(seq!["utf-16"@]),
    );
    let workspace = with_member(
        with_member(
            with_member(empty_object(), "configuration"@, JsonView::Bool(true)),
            "workspaceFolders"@,
            JsonView::Bool(true),
        ),
        "didChangeWatchedFiles"@,
        with_member(empty_object(), "dynamicRegistration"@, JsonView::Bool(true)),
    );
    let document = with_member(
        with_member(
            with_member(
                with_member(
                    with_member(empty_object(), "definition"@, empty_object()),
                    "declaration"@,
                    empty_object(),
                ),
                "typeDefinition"@,
                empty_object(),
            ),
            "references"@,
            empty_object(),
        ),
        "callHierarchy"@,
        empty_object(),
    );
    let capabilities = with_member(
        with_member(
            with_member(empty_object(), "general"@, general),
            "workspace"@,
            workspace,
        ),
        "textDocument"@,
        document,
    );
    with_member(
        with_member(
            with_member(
                with_member(empty_object(), "processId"@, number(process_id as int)),
                "rootUri"@,
                JsonView::Text(root_uri),
            ),
            "workspaceFolders"@,
            JsonView::Array(seq![folder]),
        ),
        "capabilities"@,
        capabilities,
    )
}

/// The parameters that a connection is initialized with.
pub fn initialize_params(process_id: u64, root_uri: &str) -> (params: Json)
    ensures
        params@ == initialize_view(process_id, root_uri@),
{
    let folder = ObjectBuilder::new().with("uri", json_text(root_uri)).with(
        "name",
        json_text("workspace"),
    ).build();
    let mut folders: Vec<Json> = Vec::new();
    folders.push(folder);
    proof {
        lemma_array_view(folders);
        assert(array_view(folders@) =~= seq![folder@]);
    }
    let mut encodings: Vec<String> = Vec::new();
    encodings.push("utf-16".to_owned());
    assert(all_chars(encodings@) =~= seq!["utf-16"@]);
    let general = ObjectBuilder::new().with(
        "positionEncodings",
        json_texts(encodings.as_slice()),
    ).build();
    let watched = ObjectBuilder::new().with("dynamicRegistration", Json::Bool(true)).build();
    let workspace = ObjectBuilder::new().with("configuration", Json::Bool(true)).with(
        "workspaceFolders",
        Json::Bool(true),
    ).with("didChangeWatchedFiles", watched).build();
    let document = ObjectBuilder::new().with("definition", ObjectBuilder::new().build()).with(
        "declaration",
        ObjectBuilder::new().build(),
    ).with("typeDefinition", ObjectBuilder::new().build()).with(
        "references",
        ObjectBuilder::new().build(),
    ).with("callHierarchy", ObjectBuilder::new().build()).build();
    let capabilities = ObjectBuilder::new().with("general", general).with(
        "workspace",
        workspace,
    ).with("textDocument", document).build();
    ObjectBuilder::new().with("processId", json_number(process_id)).with(
        "rootUri",
        json_text(root_uri),
    ).with("workspaceFolders", Json::Array(folders)).with("capabilities", capabilities).build()
}

} // verus!
