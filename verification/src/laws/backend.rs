//! How a Python backend is started, configured and asked.

use vstd::prelude::*;

use crate::json::{member, Json, JsonView};
use crate::laws::protocol::{document_of, json_of_number, lemma_lookup_push, place_of};
use crate::paths::is_absolute;
use crate::python_semantic::batch::{asked_capability, decided_by, exchanged, Attempt, BatchPolicy};
use crate::python_semantic::conversation::{
    batch_answer, coherent, on_snapshot, BatchError, Exchange,
};
use crate::python_semantic::host::{
    client_answer, reply_means, section_view, settings_inputs, PythonSettings, RpcReply,
};
use crate::python_semantic::launcher::{
    follows_in_handshake, initialize_view, manifest_gives, manifest_path, manifest_version,
    negotiated, package_path, project_root_of, script_path, HandshakeStage, HandshakeStep,
    InstallError, PyrightInstall,
};
use crate::python_semantic::protocol::{
    carried_snapshot, decoded, wire_method, ProtocolCompatibility, PythonRequest, PythonResponse,
};
use crate::runtime::{HostError, RequestFailure};
use crate::semantic::SemanticCapability;
use crate::text::{all_chars, chars_or_empty, is_sorting_of, join, lemma_sorting_exists, Chars};

verus! {

// ---------------------------------------------------------------------
// Snapshots
// ---------------------------------------------------------------------

/// A question is put on a snapshot without being changed otherwise: it then
/// carries that snapshot if it carries any, is still asked under its own
/// method about its own place, and is itself on the snapshot that it had.
pub proof fn law_a_question_is_put_on_a_snapshot(
    request: PythonRequest,
    snapshot: u64,
    other: u64,
)
    ensures
        carried_snapshot(request) is Some ==> carried_snapshot(on_snapshot(request, snapshot))
            == Some(snapshot),
        carried_snapshot(request) is None ==> on_snapshot(request, snapshot) == request,
        carried_snapshot(request) == Some(snapshot) ==> on_snapshot(request, snapshot) == request,
        on_snapshot(on_snapshot(request, other), snapshot) == on_snapshot(request, snapshot),
        wire_method(on_snapshot(request, snapshot)) == wire_method(request),
        document_of(on_snapshot(request, snapshot)) == document_of(request),
        place_of(on_snapshot(request, snapshot)) == place_of(request),
{
}

/// An answer in a batch is taken as it is, except that a snapshot that moved
/// on and a request without an answer end the batch.
pub proof fn law_a_moved_snapshot_is_no_answer(answer: Result<PythonResponse, RequestFailure>)
    ensures
        batch_answer(answer) matches Ok(response) ==> answer == Ok::<
            PythonResponse,
            RequestFailure,
        >(response) && !(response is SnapshotStale),
        answer matches Err(failure) ==> batch_answer(answer) == Err::<PythonResponse, BatchError>(
            BatchError::Request(failure),
        ),
        answer == Ok::<PythonResponse, RequestFailure>(PythonResponse::SnapshotStale)
            <==> batch_answer(answer) == Err::<PythonResponse, BatchError>(
            BatchError::SnapshotStale,
        ),
{
}

/// Every question of a coherent batch that carries a snapshot carries the same
/// one.
pub proof fn law_a_batch_is_asked_on_one_snapshot(
    log: Seq<Exchange>,
    snapshot: u64,
    i: int,
    j: int,
)
    requires
        coherent(log, snapshot),
        0 <= i < log.len(),
        0 <= j < log.len(),
        carried_snapshot(log[i].request) is Some,
        carried_snapshot(log[j].request) is Some,
    ensures
        carried_snapshot(log[i].request) == carried_snapshot(log[j].request),
        carried_snapshot(log[i].request) == Some(snapshot),
{
}

/// A batch is restarted only because its snapshot moved, at most as often as
/// the policy says and once at the least; it is given up exactly when the
/// last attempt that is allowed met a moved snapshot too.
pub proof fn law_a_batch_is_restarted_for_a_moved_snapshot<T>(
    attempts: Seq<Attempt<T>>,
    policy: BatchPolicy,
    result: Result<T, BatchError>,
)
    requires
        decided_by(attempts, policy, result),
    ensures
        attempts.len() >= 1,
        attempts.len() <= policy.max_attempts || attempts.len() == 1,
        forall|i: int|
            0 <= i < attempts.len() - 1 ==> (#[trigger] attempts[i]).outcome == Err::<
                T,
                BatchError,
            >(BatchError::SnapshotStale),
        attempts.last().outcome != Err::<T, BatchError>(BatchError::SnapshotStale) ==> result
            == attempts.last().outcome,
        attempts.last().outcome == Err::<T, BatchError>(BatchError::SnapshotStale) ==> result
            == Err::<T, BatchError>(
            BatchError::RetriesExhausted { attempts: attempts.len() as u32 },
        ) && (policy.max_attempts > 0 ==> attempts.len() == policy.max_attempts),
{
}

/// Everything that passed in the attempts is kept, each attempt behind its own
/// question for a snapshot.
pub proof fn law_each_attempt_asks_for_its_snapshot<T>(
    attempts: Seq<Attempt<T>>,
    attempt: Attempt<T>,
)
    ensures
        exchanged(attempts.push(attempt)) == exchanged(attempts) + seq![attempt.began]
            + attempt.exchanges,
        exchanged(Seq::<Attempt<T>>::empty()).len() == 0,
{
    let all = attempts.push(attempt);
    assert(all.drop_last() =~= attempts);
    assert(exchanged(attempts).push(attempt.began) + attempt.exchanges =~= exchanged(attempts)
        + seq![attempt.began] + attempt.exchanges);
}

/// A question is asked under the capability that it is a question of.
pub proof fn law_a_question_has_its_capability(request: PythonRequest)
    ensures
        asked_capability(request) == SemanticCapability::ImportBinding <==> request
            is ResolveImport,
        asked_capability(request) == SemanticCapability::TypeResolution <==> request
            is DeclaredType || request is ComputedType || request is ExpectedType,
        asked_capability(request) == SemanticCapability::SymbolDefinition <==> request
            is Definition || request is Declaration || request is TypeDefinition,
        asked_capability(request) == SemanticCapability::References <==> request is References,
        asked_capability(request) == SemanticCapability::CallsCrossFile <==> request
            is PrepareCallHierarchy || request is IncomingCalls,
        asked_capability(request) == SemanticCapability::ResourceDiscovery <==> request
            is ProtocolVersion || request is Snapshot || request is SearchPaths || request
            is WatchedFilesChanged,
{
}

// ---------------------------------------------------------------------
// Replies
// ---------------------------------------------------------------------

/// A cancelled request means that its snapshot moved on, an unknown method
/// that the backend does not implement it, and neither is a failure or an
/// empty answer; any other refusal is an error in the backend's words.
pub proof fn law_a_refusal_is_told_by_its_code(
    request: PythonRequest,
    code: i64,
    text: String,
    answer: Result<PythonResponse, HostError>,
)
    requires
        reply_means(request, RpcReply::Refused { code, text }, answer),
    ensures
        code == -32802 ==> answer == Ok::<PythonResponse, HostError>(PythonResponse::SnapshotStale),
        code == -32601 ==> (answer matches Ok(PythonResponse::Unsupported(name)) && name@
            == wire_method(request)),
        code != -32802 && code != -32601 ==> answer is Err && answer->Err_0.message == text,
{
}

/// An answer is what its result decodes to for the request, and one that
/// cannot be decoded is an error that names the method.
pub proof fn law_a_reply_is_read_for_its_request(
    request: PythonRequest,
    result: Json,
    text: String,
    answer: Result<PythonResponse, HostError>,
)
    ensures
        reply_means(request, RpcReply::Answered(result), answer) ==> (answer is Ok <==> decoded(
            request,
            result@,
        ) is Ok),
        reply_means(request, RpcReply::Answered(result), answer) && answer is Ok
            ==> answer->Ok_0@ == decoded(request, result@)->Ok_0,
        reply_means(request, RpcReply::Answered(result), answer) && answer is Err
            ==> answer->Err_0.message@ == wire_method(request) + ": "@ + decoded(
            request,
            result@,
        )->Err_0,
        reply_means(request, RpcReply::Failed { text }, answer) ==> answer is Err
            && answer->Err_0.message == text,
{
}

// ---------------------------------------------------------------------
// Configuration
// ---------------------------------------------------------------------

proof fn lemma_setting_names()
    ensures
        "python"@ != "python.analysis"@,
        "python"@ != "pyright"@,
        "python.analysis"@ != "pyright"@,
        "pythonPath"@ != "venvPath"@,
        "extraPaths"@ != "typeCheckingMode"@,
{
    reveal_strlit("python");
    reveal_strlit("python.analysis");
    reveal_strlit("pyright");
    reveal_strlit("pythonPath");
    reveal_strlit("venvPath");
    reveal_strlit("extraPaths");
    reveal_strlit("typeCheckingMode");
    assert("python"@.len() == 6);
    assert("python.analysis"@.len() == 15);
    assert("pyright"@.len() == 7);
    assert("pythonPath"@.len() == 10);
    assert("venvPath"@.len() == 8);
    assert("extraPaths"@.len() == 10);
    assert("typeCheckingMode"@.len() == 16);
}

/// The text under a name, where one is set.
pub open spec fn set_text(text: Option<String>) -> Option<JsonView> {
    match text {
        Some(held) => Some(JsonView::Text(held@)),
        None => None,
    }
}

/// The backend is told what is set and nothing that is not: the interpreter
/// and the environments under `python`, the extra roots in their order and
/// the checking mode under `python.analysis`, an empty `pyright`, and no value
/// for any other section.
pub proof fn law_a_section_tells_what_is_set(settings: PythonSettings, section: Chars)
    ensures
        section == "python"@ ==> {
            let told = section_view(settings, section);
            &&& told is Object
            &&& member(told, "pythonPath"@) == set_text(settings.python_path)
            &&& member(told, "venvPath"@) == set_text(settings.venv_path)
        },
        section == "python.analysis"@ ==> {
            let told = section_view(settings, section);
            &&& told is Object
            &&& member(told, "typeCheckingMode"@) == set_text(settings.type_checking_mode)
            &&& settings.extra_paths@.len() == 0 ==> member(told, "extraPaths"@) is None
            &&& settings.extra_paths@.len() > 0 ==> (member(told, "extraPaths"@) matches Some(
                JsonView::Array(roots),
            ) && roots == all_chars(settings.extra_paths@).map_values(
                |root: Chars| JsonView::Text(root),
            ))
        },
        section == "pyright"@ ==> section_view(settings, section) == JsonView::Object(Seq::empty()),
        section != "python"@ && section != "python.analysis"@ && section != "pyright"@
            ==> section_view(settings, section) == JsonView::Null,
{
    lemma_setting_names();
    let none = Seq::<(Chars, JsonView)>::empty();
    if section == "python"@ {
        let first = match settings.python_path {
            Some(held) => none.push(("pythonPath"@, JsonView::Text(held@))),
            None => none,
        };
        if let Some(held) = settings.python_path {
            lemma_lookup_push(none, "pythonPath"@, JsonView::Text(held@), "pythonPath"@);
            lemma_lookup_push(none, "pythonPath"@, JsonView::Text(held@), "venvPath"@);
        }
        if let Some(held) = settings.venv_path {
            lemma_lookup_push(first, "venvPath"@, JsonView::Text(held@), "pythonPath"@);
            lemma_lookup_push(first, "venvPath"@, JsonView::Text(held@), "venvPath"@);
        }
    }
    if section == "python.analysis"@ {
        let roots = crate::json::texts_array(all_chars(settings.extra_paths@));
        let first = if settings.extra_paths@.len() > 0 {
            none.push(("extraPaths"@, roots))
        } else {
            none
        };
        lemma_lookup_push(none, "extraPaths"@, roots, "extraPaths"@);
        lemma_lookup_push(none, "extraPaths"@, roots, "typeCheckingMode"@);
        if let Some(held) = settings.type_checking_mode {
            let mode = JsonView::Text(held@);
            lemma_lookup_push(first, "typeCheckingMode"@, mode, "extraPaths"@);
            lemma_lookup_push(first, "typeCheckingMode"@, mode, "typeCheckingMode"@);
        }
    }
}

/// The backend's own requests are answered with one value for each
/// configuration item, in their order; a registration is accepted, and
/// anything else is declined.
pub proof fn law_the_backend_is_answered_item_by_item(
    settings: PythonSettings,
    requested: Chars,
    params: JsonView,
    items: Seq<JsonView>,
    at: int,
)
    requires
        member(params, "items"@) == Some(JsonView::Array(items)),
        0 <= at < items.len(),
    ensures
        requested == "workspace/configuration"@ ==> (client_answer(settings, requested, params)
            matches Some(JsonView::Array(values)) && values.len() == items.len() && (member(
            items[at],
            "section"@,
        ) matches Some(JsonView::Text(section)) ==> values[at] == section_view(settings, section))),
        requested == "client/registerCapability"@ || requested == "client/unregisterCapability"@
            ==> client_answer(settings, requested, params) == Some(JsonView::Null),
        requested != "workspace/configuration"@ && requested != "client/registerCapability"@
            && requested != "client/unregisterCapability"@ ==> client_answer(
            settings,
            requested,
            params,
        ) is None,
{
    reveal_strlit("workspace/configuration");
    reveal_strlit("client/registerCapability");
    reveal_strlit("client/unregisterCapability");
    assert("workspace/configuration"@.len() == 23);
    assert("client/registerCapability"@.len() == 25);
    assert("client/unregisterCapability"@.len() == 27);
}

/// A pair of a name and a value is among the inputs.
pub open spec fn is_input(inputs: Seq<(Chars, Chars)>, name: Chars, value: Chars) -> bool {
    exists|i: int| 0 <= i < inputs.len() && #[trigger] inputs[i] == (name, value)
}

/// Every setting is an input of the configuration, under its name; the extra
/// roots are one input, sorted.
pub proof fn law_every_setting_is_an_input(settings: PythonSettings)
    ensures
        is_input(settings_inputs(settings), "python_path"@, chars_or_empty(settings.python_path)),
        is_input(settings_inputs(settings), "venv_path"@, chars_or_empty(settings.venv_path)),
        is_input(
            settings_inputs(settings),
            "type_checking_mode"@,
            chars_or_empty(settings.type_checking_mode),
        ),
        exists|sorted: Seq<Chars>| #[trigger]
            is_sorting_of(sorted, all_chars(settings.extra_paths@)) && is_input(
                settings_inputs(settings),
                "extra_paths"@,
                join(sorted, "\u{1f}"@),
            ),
        settings_inputs(settings).len() == 4,
{
    let inputs = settings_inputs(settings);
    lemma_sorting_exists(all_chars(settings.extra_paths@));
    let sorted = crate::text::sorting(all_chars(settings.extra_paths@));
    assert(inputs[0] == ("extra_paths"@, join(sorted, "\u{1f}"@)));
    assert(inputs[1] == ("python_path"@, chars_or_empty(settings.python_path)));
    assert(inputs[2] == ("type_checking_mode"@, chars_or_empty(settings.type_checking_mode)));
    assert(inputs[3] == ("venv_path"@, chars_or_empty(settings.venv_path)));
    assert(is_sorting_of(sorted, all_chars(settings.extra_paths@)));
}

// ---------------------------------------------------------------------
// The install
// ---------------------------------------------------------------------

/// The type server is looked for below `node_modules` of the configured root
/// and nowhere else.
pub proof fn law_the_type_server_is_below_node_modules(root: Chars)
    requires
        root.len() > 0,
        root.last() != '/',
    ensures
        package_path(root) == root + "/node_modules/pyright-typeserver"@,
        script_path(root) == root + "/node_modules/pyright-typeserver/pyright-typeserver.js"@,
        manifest_path(root) == root + "/node_modules/pyright-typeserver/package.json"@,
{
    reveal_strlit("/node_modules/pyright-typeserver");
    reveal_strlit("/node_modules/pyright-typeserver/pyright-typeserver.js");
    reveal_strlit("/node_modules/pyright-typeserver/package.json");
    reveal_strlit("node_modules");
    reveal_strlit("pyright-typeserver");
    reveal_strlit("pyright-typeserver.js");
    reveal_strlit("package.json");
    assert(root.push('/') + "node_modules"@ =~= root + "/node_modules"@) by {
        reveal_strlit("/node_modules");
    }
    let modules = root.push('/') + "node_modules"@;
    assert(modules.last() == 's');
    let package = modules.push('/') + "pyright-typeserver"@;
    assert(package =~= root + "/node_modules/pyright-typeserver"@);
    assert(package.last() == 'r');
    assert(package.push('/') + "pyright-typeserver.js"@ =~= root
        + "/node_modules/pyright-typeserver/pyright-typeserver.js"@);
    assert(package.push('/') + "package.json"@ =~= root
        + "/node_modules/pyright-typeserver/package.json"@);
}

/// An install is usable exactly when its manifest could be read and states a
/// version that is not empty; it then is run with the runtime that was chosen,
/// under the version that was stated.
pub proof fn law_an_install_needs_a_stated_version(
    root: Chars,
    node: Chars,
    manifest: Result<Option<Chars>, Chars>,
    located: Result<PyrightInstall, InstallError>,
)
    requires
        manifest_gives(root, node, manifest, located),
    ensures
        located is Ok <==> (manifest matches Ok(Some(version)) && version.len() > 0),
        located matches Ok(install) ==> {
            &&& manifest == Ok::<Option<Chars>, Chars>(Some(install.package_version@))
            &&& install.node@ == node
            &&& install.server_script@ == script_path(root)
        },
        manifest is Err ==> (located matches Err(InstallError::ManifestUnreadable { path, detail })
            && path@ == manifest_path(root) && detail@ == manifest->Err_0),
        (manifest matches Ok(None)) || (manifest matches Ok(Some(version)) && version.len() == 0)
            ==> (located matches Err(InstallError::VersionMissing { path }) && path@
            == manifest_path(root)),
{
}

/// A project at the Workspace's own root is the Workspace; any other relative
/// one lies below it.
pub proof fn law_a_project_lies_in_its_workspace(workspace: Chars, project: Chars)
    ensures
        project.len() == 0 || project == "."@ ==> project_root_of(workspace, project) == workspace,
        project.len() > 0 && project != "."@ && !is_absolute(project) && workspace.len() > 0
            && workspace.last() != '/' ==> project_root_of(workspace, project) == workspace.push(
            '/',
        ) + project,
{
}

// ---------------------------------------------------------------------
// The handshake
// ---------------------------------------------------------------------

/// A backend is used exactly when the version that it reports is `0.4.` and a
/// patch number, and then under that version; any other one is refused rather
/// than parsed.
pub proof fn law_only_a_known_version_is_negotiated(
    version: Chars,
    outcome: Result<(String, ProtocolCompatibility), HostError>,
)
    requires
        negotiated(JsonView::Text(version), outcome),
    ensures
        outcome is Ok <==> exists|patch: Chars|
            patch.len() > 0 && (forall|i: int|
                0 <= i < patch.len() ==> '0' <= #[trigger] patch[i] <= '9') && version
                == #[trigger] ("0.4."@ + patch),
        outcome matches Ok((held, class)) ==> held@ == version && (class
            == ProtocolCompatibility::Tested <==> version == "0.4.1"@),
{
    crate::laws::protocol::law_only_patches_of_one_version_are_parsed(version);
}

/// A backend that reports no version text is not used.
pub proof fn law_a_backend_without_a_version_is_refused(
    answer: JsonView,
    outcome: Result<(String, ProtocolCompatibility), HostError>,
)
    requires
        negotiated(answer, outcome),
        !(answer is Text),
    ensures
        outcome is Err,
{
}

/// Hands are shaken in order: once the backend has initialized it is told so,
/// then it is asked for its version, and what it answers decides; the first
/// failure ends the handshake and names the method it came on.
pub proof fn law_hands_are_shaken_in_order(
    stage: HandshakeStage,
    reply: Result<Json, String>,
    step: HandshakeStep,
)
    requires
        follows_in_handshake(stage, reply, step),
    ensures
        reply is Ok && stage == HandshakeStage::Initializing ==> (step
            matches HandshakeStep::Notify { method, params, .. } && method@ == "initialized"@
            && params@ == JsonView::Object(Seq::empty())),
        reply is Ok && stage == HandshakeStage::Announcing ==> (step
            matches HandshakeStep::Request { method, params, .. } && method@
            == "typeServer/getSupportedProtocolVersion"@ && params is None),
        reply is Ok && stage == HandshakeStage::Negotiating ==> (step
            matches HandshakeStep::Finish(outcome) && negotiated(reply->Ok_0@, outcome)),
        reply matches Err(failure) ==> (step matches HandshakeStep::Finish(Err(error))
            && error.message@ == match stage {
            HandshakeStage::Initializing => "initialize"@,
            HandshakeStage::Announcing => "initialized"@,
            HandshakeStage::Negotiating => "typeServer/getSupportedProtocolVersion"@,
        } + " failed: "@ + failure@),
{
}

proof fn lemma_initialize_names()
    ensures
        "processId"@ != "rootUri"@,
        "processId"@ != "workspaceFolders"@,
        "processId"@ != "capabilities"@,
        "rootUri"@ != "workspaceFolders"@,
        "rootUri"@ != "capabilities"@,
        "workspaceFolders"@ != "capabilities"@,
        "general"@ != "workspace"@,
        "general"@ != "textDocument"@,
        "workspace"@ != "textDocument"@,
        "configuration"@ != "workspaceFolders"@,
        "configuration"@ != "didChangeWatchedFiles"@,
        "workspaceFolders"@ != "didChangeWatchedFiles"@,
        "uri"@ != "name"@,
{
    reveal_strlit("processId");
    reveal_strlit("rootUri");
    reveal_strlit("workspaceFolders");
    reveal_strlit("capabilities");
    reveal_strlit("general");
    reveal_strlit("workspace");
    reveal_strlit("textDocument");
    reveal_strlit("configuration");
    reveal_strlit("didChangeWatchedFiles");
    reveal_strlit("uri");
    reveal_strlit("name");
    assert("processId"@.len() == 9);
    assert("rootUri"@.len() == 7);
    assert("workspaceFolders"@.len() == 16);
    assert("capabilities"@.len() == 12);
    assert("general"@.len() == 7);
    assert("workspace"@.len() == 9);
    assert("textDocument"@.len() == 12);
    assert("configuration"@.len() == 13);
    assert("didChangeWatchedFiles"@.len() == 21);
    assert("uri"@.len() == 3);
    assert("name"@.len() == 4);
}

/// The backend is initialized for the root it is to serve, in UTF-16, with
/// configuration and file watching on this side.
pub proof fn law_a_backend_is_initialized_for_its_root(process_id: u64, root_uri: Chars)
    ensures
        ({
            let params = initialize_view(process_id, root_uri);
            &&& member(params, "processId"@) == Some(json_of_number(process_id))
            &&& member(params, "rootUri"@) == Some(JsonView::Text(root_uri))
            &&& member(params, "workspaceFolders"@) matches Some(JsonView::Array(folders))
            &&& folders.len() == 1
            &&& member(folders[0], "uri"@) == Some(JsonView::Text(root_uri))
            &&& member(params, "capabilities"@) matches Some(capabilities)
            &&& member(capabilities, "general"@) matches Some(general)
            &&& member(general, "positionEncodings"@) == Some(
                JsonView::Array(seq![JsonView::Text("utf-16"@)]),
            )
            &&& member(capabilities, "workspace"@) matches Some(workspace)
            &&& member(workspace, "configuration"@) == Some(JsonView::Bool(true))
            &&& member(workspace, "didChangeWatchedFiles"@) matches Some(watching)
            &&& member(watching, "dynamicRegistration"@) == Some(JsonView::Bool(true))
        }),
{
    lemma_initialize_names();
    let none = Seq::<(Chars, JsonView)>::empty();
    let params = initialize_view(process_id, root_uri);
    let all = params->Object_0;
    let uri = JsonView::Text(root_uri);
    let folder = JsonView::Object(
        none.push(("uri"@, uri)).push(("name"@, JsonView::Text("workspace"@))),
    );
    lemma_lookup_push(none, "uri"@, uri, "uri"@);
    lemma_lookup_push(none.push(("uri"@, uri)), "name"@, JsonView::Text("workspace"@), "uri"@);
    let encodings = crate::json::texts_array(seq!["utf-16"@]);
    assert(encodings == JsonView::Array(seq![JsonView::Text("utf-16"@)])) by {
        assert(encodings->Array_0 =~= seq![JsonView::Text("utf-16"@)]);
    }
    lemma_lookup_push(none, "positionEncodings"@, encodings, "positionEncodings"@);
    let general = JsonView::Object(none.push(("positionEncodings"@, encodings)));
    let yes = JsonView::Bool(true);
    let watching = JsonView::Object(none.push(("dynamicRegistration"@, yes)));
    lemma_lookup_push(none, "dynamicRegistration"@, yes, "dynamicRegistration"@);
    let one = none.push(("configuration"@, yes));
    let two = one.push(("workspaceFolders"@, yes));
    let three = two.push(("didChangeWatchedFiles"@, watching));
    let workspace = JsonView::Object(three);
    lemma_lookup_push(none, "configuration"@, yes, "configuration"@);
    lemma_lookup_push(none, "configuration"@, yes, "didChangeWatchedFiles"@);
    lemma_lookup_push(one, "workspaceFolders"@, yes, "configuration"@);
    lemma_lookup_push(one, "workspaceFolders"@, yes, "didChangeWatchedFiles"@);
    lemma_lookup_push(two, "didChangeWatchedFiles"@, watching, "configuration"@);
    lemma_lookup_push(two, "didChangeWatchedFiles"@, watching, "didChangeWatchedFiles"@);
    let capabilities = all[3].1;
    let document = capabilities->Object_0[2].1;
    let c1 = none.push(("general"@, general));
    let c2 = c1.push(("workspace"@, workspace));
    assert(capabilities == JsonView::Object(c2.push(("textDocument"@, document))));
    lemma_lookup_push(none, "general"@, general, "general"@);
    lemma_lookup_push(none, "general"@, general, "workspace"@);
    lemma_lookup_push(c1, "workspace"@, workspace, "general"@);
    lemma_lookup_push(c1, "workspace"@, workspace, "workspace"@);
    lemma_lookup_push(c2, "textDocument"@, document, "general"@);
    lemma_lookup_push(c2, "textDocument"@, document, "workspace"@);
    let number = json_of_number(process_id);
    let folders = JsonView::Array(seq![folder]);
    let p1 = none.push(("processId"@, number));
    let p2 = p1.push(("rootUri"@, uri));
    let p3 = p2.push(("workspaceFolders"@, folders));
    assert(all == p3.push(("capabilities"@, capabilities)));
    lemma_lookup_push(none, "processId"@, number, "processId"@);
    lemma_lookup_push(none, "processId"@, number, "rootUri"@);
    lemma_lookup_push(none, "processId"@, number, "workspaceFolders"@);
    lemma_lookup_push(none, "processId"@, number, "capabilities"@);
    lemma_lookup_push(p1, "rootUri"@, uri, "processId"@);
    lemma_lookup_push(p1, "rootUri"@, uri, "rootUri"@);
    lemma_lookup_push(p1, "rootUri"@, uri, "workspaceFolders"@);
    lemma_lookup_push(p1, "rootUri"@, uri, "capabilities"@);
    lemma_lookup_push(p2, "workspaceFolders"@, folders, "processId"@);
    lemma_lookup_push(p2, "workspaceFolders"@, folders, "rootUri"@);
    lemma_lookup_push(p2, "workspaceFolders"@, folders, "workspaceFolders"@);
    lemma_lookup_push(p2, "workspaceFolders"@, folders, "capabilities"@);
    lemma_lookup_push(p3, "capabilities"@, capabilities, "processId"@);
    lemma_lookup_push(p3, "capabilities"@, capabilities, "rootUri"@);
    lemma_lookup_push(p3, "capabilities"@, capabilities, "workspaceFolders"@);
    lemma_lookup_push(p3, "capabilities"@, capabilities, "capabilities"@);
}

/// A manifest states the text under `version`; one that is no JSON cannot be
/// read, and says why.
pub proof fn law_a_manifest_states_its_version(text: Chars)
    ensures
        crate::json::parsed_json(text) matches Ok(value) ==> manifest_version(text) == Ok::<
            Option<Chars>,
            Chars,
        >(
            match member(value, "version"@) {
                Some(JsonView::Text(version)) => Some(version),
                _ => None,
            },
        ),
        crate::json::parsed_json(text) matches Err(detail) ==> manifest_version(text) == Err::<
            Option<Chars>,
            Chars,
        >(detail),
{
}

} // verus!
