use brainprint_engine::json::{Json, JsonNumber};
use brainprint_engine::python_semantic::host::{Connection, PyrightHost, PythonSettings};
use brainprint_engine::python_semantic::launcher::{
    answers_about_the_project, begin_handshake, handshake, initialize_params, negotiate,
    ready_step, HandshakeStage, HandshakeStep, InstallError, InstallProbe, PyrightInstall,
    PythonLauncher, Readiness, ReadyStep, PACKAGE,
};
use brainprint_engine::python_semantic::protocol::{
    ProtocolCompatibility, PythonRequest, PythonResponse, COMPATIBILITY_CLASS,
    FORBIDDEN_SYNC_METHODS,
};
use brainprint_engine::runtime::HostError;

const ROOT: &str = "/opt/python-semantics";

fn installed(version: Option<&str>) -> InstallProbe {
    let manifest = match version {
        Some(version) => format!("{{\"name\":\"{PACKAGE}\",\"version\":\"{version}\"}}"),
        None => format!("{{\"name\":\"{PACKAGE}\"}}"),
    };
    InstallProbe {
        package_is_dir: true,
        script_is_file: true,
        manifest: Ok(manifest),
    }
}

fn absent() -> Result<String, String> {
    Err("No such file or directory".to_owned())
}

#[test]
fn a_pinned_local_install_is_located_with_its_version() {
    let install = PyrightInstall::locate(ROOT, "node", &installed(Some("1.1.414"))).expect("located");
    assert_eq!(install.package_version, "1.1.414");
    assert_eq!(
        install.server_script,
        format!("{ROOT}/node_modules/{PACKAGE}/pyright-typeserver.js")
    );
    assert!(
        install.server_script.starts_with(ROOT),
        "the artifact comes from the configured root, not from PATH"
    );
    assert_eq!(install.node, "node");
}

#[test]
fn a_missing_install_is_a_typed_failure_and_never_a_global_fallback() {
    let probe = InstallProbe {
        package_is_dir: false,
        script_is_file: false,
        manifest: absent(),
    };
    let error = PyrightInstall::locate(ROOT, "node", &probe).expect_err("no install");
    assert_eq!(error, InstallError::PackageMissing { root: ROOT.to_owned() });
    // Even with a same-named binary on PATH, nothing is resolved:
    // the only place looked at is the configured root.
    assert!(error.message().contains(ROOT));
}

#[test]
fn a_broken_install_is_reported_rather_than_worked_around() {
    let no_script = InstallProbe {
        package_is_dir: true,
        script_is_file: false,
        manifest: absent(),
    };
    assert!(matches!(
        PyrightInstall::locate(ROOT, "node", &no_script),
        Err(InstallError::ScriptMissing { .. })
    ));

    let no_manifest = InstallProbe {
        package_is_dir: true,
        script_is_file: true,
        manifest: absent(),
    };
    assert!(matches!(
        PyrightInstall::locate(ROOT, "node", &no_manifest),
        Err(InstallError::ManifestUnreadable { .. })
    ));

    assert!(matches!(
        PyrightInstall::locate(ROOT, "node", &installed(None)),
        Err(InstallError::VersionMissing { .. })
    ));
}

#[test]
fn a_manifest_that_is_no_json_is_unreadable() {
    let probe = InstallProbe {
        package_is_dir: true,
        script_is_file: true,
        manifest: Ok("{".to_owned()),
    };
    let error = PyrightInstall::locate(ROOT, "node", &probe).expect_err("no version");
    let InstallError::ManifestUnreadable { path, detail } = &error else {
        panic!("unexpected: {error:?}");
    };
    assert_eq!(path, &format!("{ROOT}/node_modules/{PACKAGE}/package.json"));
    assert!(detail.contains("EOF"), "unexpected: {detail}");
    assert_eq!(
        error.message(),
        format!("unreadable {PACKAGE} manifest at {path}: {detail}")
    );
    let numbered = InstallProbe {
        package_is_dir: true,
        script_is_file: true,
        manifest: Ok("{\"version\": 3}".to_owned()),
    };
    assert!(matches!(
        PyrightInstall::locate(ROOT, "node", &numbered),
        Err(InstallError::VersionMissing { .. })
    ));
}

#[test]
fn install_errors_are_reported_in_words() {
    assert_eq!(
        InstallError::PackageMissing { root: "/r".to_owned() }.message(),
        "no pyright-typeserver install under /r; Python semantics are unavailable"
    );
    assert_eq!(
        InstallError::ScriptMissing { path: "/r/s.js".to_owned() }.message(),
        "pyright-typeserver entry point missing at /r/s.js"
    );
    assert_eq!(
        InstallError::VersionMissing { path: "/r/package.json".to_owned() }.message(),
        "pyright-typeserver manifest at /r/package.json states no version"
    );
}

#[test]
fn the_compatibility_class_is_fixed_before_anything_starts() {
    // The context key is what selects the runtime, and the toolchain
    // identity is part of it -- so the class cannot depend on a running
    // backend.
    assert_eq!(PythonLauncher::compatibility_class(), COMPATIBILITY_CLASS);
}

#[test]
fn a_project_root_is_below_the_workspace_root() {
    let install = PyrightInstall::locate(ROOT, "node", &installed(Some("1.1.414"))).expect("located");
    let launcher = PythonLauncher::new(install, "/w", PythonSettings::default());
    assert_eq!(launcher.project_root(""), "/w");
    assert_eq!(launcher.project_root("."), "/w");
    assert_eq!(launcher.project_root("services/api"), "/w/services/api");
    assert_eq!(launcher.readiness(), Readiness { poll_ms: 50, timeout_ms: 60000 });
    let patient = launcher.with_readiness(Readiness { poll_ms: 5, timeout_ms: 120 });
    assert_eq!(patient.readiness(), Readiness { poll_ms: 5, timeout_ms: 120 });
    assert_eq!(patient.install().package_version, "1.1.414");
    assert_eq!(patient.settings(), &PythonSettings::default());
}

#[test]
fn a_backend_is_ready_once_it_answers_about_the_project() {
    let snapshot = PythonResponse::Snapshot(3);
    let nothing = PythonResponse::SearchPaths(Vec::new());
    let roots = PythonResponse::SearchPaths(vec!["file:///stdlib".to_owned()]);
    assert!(!answers_about_the_project(None, Some(&roots)));
    assert!(!answers_about_the_project(Some(&snapshot), None));
    assert!(!answers_about_the_project(Some(&snapshot), Some(&nothing)));
    assert!(answers_about_the_project(Some(&snapshot), Some(&roots)));

    let readiness = Readiness { poll_ms: 5, timeout_ms: 120 };
    assert_eq!(ready_step(readiness, false, 0), ReadyStep::ProbeAfter(5));
    assert_eq!(ready_step(readiness, true, 0), ReadyStep::Start);
    assert_eq!(ready_step(readiness, false, 120), ReadyStep::Start);
}

#[test]
fn an_unknown_protocol_version_is_not_parsed() {
    let version = |text: &str| Json::Text(text.to_owned());
    assert_eq!(
        negotiate(&version("0.4.1")),
        Ok(("0.4.1".to_owned(), ProtocolCompatibility::Tested))
    );
    assert_eq!(
        negotiate(&version("0.4.7")),
        Ok(("0.4.7".to_owned(), ProtocolCompatibility::CompatiblePatch))
    );
    let error = negotiate(&version("0.5.0")).expect_err("an untested protocol");
    assert_eq!(
        error.message,
        "type server protocol 0.5.0 is outside the tested python-pyright-tsp:0.4; \
         Python semantics degrade rather than parse it"
    );
    assert!(negotiate(&Json::Null).is_err());
}

#[test]
fn a_connection_is_initialized_without_an_editor() {
    let params = initialize_params(42, "file:///w");
    assert_eq!(
        params.get("processId"),
        Some(&Json::Number(JsonNumber::Unsigned(42)))
    );
    assert_eq!(params.get("rootUri"), Some(&Json::Text("file:///w".to_owned())));
    let capabilities = params.get("capabilities").expect("capabilities");
    let document = capabilities.get("textDocument").expect("documents");
    assert!(document.get("definition").is_some());
    assert!(document.get("synchronization").is_none());
    let encodings = capabilities
        .get("general")
        .and_then(|general| general.get("positionEncodings"))
        .and_then(Json::as_array)
        .expect("encodings");
    assert_eq!(encodings, &vec![Json::Text("utf-16".to_owned())]);
}

type Negotiated = Result<(String, ProtocolCompatibility), HostError>;

/// Run a handshake against a peer that answers the way the type server
/// does, and say which methods it was sent.
fn shake_hands(protocol_version: &str) -> (Negotiated, Vec<&'static str>) {
    let mut sent = Vec::new();
    let mut connection = Connection::new();
    let mut step = begin_handshake(&mut connection, 1, "file:///w");
    loop {
        let (waiting, reply) = match step {
            HandshakeStep::Request { waiting, method, .. } => {
                sent.push(method);
                let answer = match method {
                    "initialize" => Json::Object(vec![(
                        "capabilities".to_owned(),
                        Json::Object(vec![("definitionProvider".to_owned(), Json::Bool(true))]),
                    )]),
                    "typeServer/getSupportedProtocolVersion" => {
                        Json::Text(protocol_version.to_owned())
                    }
                    _ => Json::Null,
                };
                (waiting, Ok(answer))
            }
            HandshakeStep::Notify { waiting, method, params } => {
                sent.push(method);
                assert_eq!(params, Json::Object(Vec::new()));
                (waiting, Ok(Json::Null))
            }
            HandshakeStep::Finish(outcome) => {
                let host = PyrightHost::new(
                    connection,
                    protocol_version.to_owned(),
                    ProtocolCompatibility::Tested,
                );
                assert_eq!(host.sent_methods(), &sent, "the host knows what was sent before it");
                return (outcome, sent);
            }
        };
        step = handshake(&mut connection, waiting, reply);
    }
}

#[test]
fn the_handshake_completes_and_records_the_negotiated_protocol_version() {
    let (outcome, sent) = shake_hands("0.4.1");
    let (version, compatibility) = outcome.expect("handshake");
    assert_eq!(version, "0.4.1");
    assert_eq!(compatibility, ProtocolCompatibility::Tested);
    assert_eq!(
        sent,
        [
            "initialize",
            "initialized",
            "typeServer/getSupportedProtocolVersion"
        ]
    );
    for forbidden in FORBIDDEN_SYNC_METHODS {
        assert!(
            !sent.contains(&forbidden),
            "{forbidden} would install an editor overlay over Workspace truth"
        );
    }
}

#[test]
fn an_unknown_protocol_version_degrades_instead_of_being_parsed() {
    let (outcome, _) = shake_hands("0.5.0");
    let error = outcome.expect_err("refused");
    assert!(
        error.message.contains("0.5.0") && error.message.contains("degrade"),
        "unexpected: {}",
        error.message
    );
}

#[test]
fn a_handshake_ends_at_its_first_failure() {
    for (stage, expected) in [
        (HandshakeStage::Initializing, "initialize failed: closed"),
        (HandshakeStage::Announcing, "initialized failed: closed"),
        (
            HandshakeStage::Negotiating,
            "typeServer/getSupportedProtocolVersion failed: closed",
        ),
    ] {
        assert_eq!(
            handshake(&mut Connection::new(), stage, Err("closed".to_owned())),
            HandshakeStep::Finish(Err(HostError::new(expected)))
        );
    }
}

/// Wait for a backend on a clock that only the waiting moves, and say how
/// many probes were made and how long it took.
fn wait_for(readiness: Readiness, mut probe: impl FnMut(usize) -> (Json, Json)) -> (usize, u64) {
    let mut waited_ms = 0;
    let mut probes = 0;
    loop {
        if ready_step(readiness, false, waited_ms) == ReadyStep::Start {
            return (probes, waited_ms);
        }
        let (snapshot, paths) = probe(probes);
        probes += 1;
        let snapshot = PythonRequest::Snapshot.decode(&snapshot).ok();
        let paths = PythonRequest::SearchPaths {
            from_uri: "file:///w".to_owned(),
            snapshot: 3,
        }
        .decode(&paths)
        .ok();
        let ready = answers_about_the_project(snapshot.as_ref(), paths.as_ref());
        match ready_step(readiness, ready, waited_ms) {
            ReadyStep::Start => return (probes, waited_ms),
            ReadyStep::ProbeAfter(pause) => waited_ms += pause,
        }
    }
}

#[test]
fn readiness_waits_until_the_type_server_answers_about_the_project() {
    // A backend that is alive but has not analyzed anything yet: it
    // answers the snapshot question and returns no search paths, until its
    // third probe.
    let mut ready_at = None;
    let (probes, _) = wait_for(
        Readiness {
            poll_ms: 5,
            timeout_ms: 5_000,
        },
        |seen| {
            let paths = if seen < 2 {
                Json::Null
            } else {
                ready_at = Some(seen);
                Json::Array(vec![Json::Text("file:///stdlib".to_owned())])
            };
            (Json::Number(JsonNumber::Unsigned(3)), paths)
        },
    );
    assert_eq!(
        ready_at,
        Some(2),
        "it kept probing while the backend answered null, and stopped as soon as it did not"
    );
    assert_eq!(probes, 3);
}

#[test]
fn readiness_gives_up_rather_than_blocking_forever() {
    // A backend that never answers at all. Starting anyway is the honest
    // outcome.
    let (_, waited_ms) = wait_for(
        Readiness {
            poll_ms: 5,
            timeout_ms: 120,
        },
        |_| (Json::Null, Json::Null),
    );
    assert_eq!(waited_ms, 120);
}
