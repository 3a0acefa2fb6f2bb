use brainprint_engine::json::{Json, JsonNumber};
use brainprint_engine::python_semantic::coordinates::Position;
use brainprint_engine::python_semantic::host::{
    exit_step, read_delivery, read_reply, ClientHandler, Connection, ExitStep, PyrightHost, PythonSettings,
    RpcReply, EXIT_GRACE_MS,
};
use brainprint_engine::python_semantic::method;
use brainprint_engine::python_semantic::protocol::{
    ProtocolCompatibility, PythonRequest, PythonResponse, METHOD_NOT_FOUND, SERVER_CANCELLED,
    TESTED_PROTOCOL_VERSION,
};
use brainprint_engine::runtime::{HostConcurrency, HostError, HostHealth};

fn converted(value: &serde_json::Value) -> Json {
    match value {
        serde_json::Value::Null => Json::Null,
        serde_json::Value::Bool(held) => Json::Bool(*held),
        serde_json::Value::Number(number) => Json::Number(
            if let Some(unsigned) = number.as_u64() {
                JsonNumber::Unsigned(unsigned)
            } else if let Some(signed) = number.as_i64() {
                JsonNumber::Negative(signed)
            } else {
                JsonNumber::Literal(number.to_string())
            },
        ),
        serde_json::Value::String(text) => Json::Text(text.clone()),
        serde_json::Value::Array(items) => Json::Array(items.iter().map(converted).collect()),
        serde_json::Value::Object(members) => Json::Object(
            members
                .iter()
                .map(|(name, held)| (name.clone(), converted(held)))
                .collect(),
        ),
    }
}

fn json(text: &str) -> Json {
    converted(&serde_json::from_str(text).expect("the fixture is JSON"))
}

fn text(value: &str) -> Json {
    Json::Text(value.to_owned())
}

#[test]
fn configuration_answers_only_the_sections_pyright_asks_for() {
    let settings = PythonSettings {
        python_path: Some("/venv/bin/python".to_owned()),
        venv_path: None,
        extra_paths: vec!["src".to_owned()],
        type_checking_mode: Some("standard".to_owned()),
    };
    let handler = ClientHandler::new(settings);
    let answer = handler
        .request(
            method::CONFIGURATION,
            &json(
                r#"{"items": [
                    {"section": "python"},
                    {"section": "python.analysis"},
                    {"section": "pyright"},
                    {"section": "editor.fontSize"}
                ]}"#,
            ),
        )
        .expect("answered");
    let items = answer.as_array().expect("one value per item");
    assert_eq!(items.len(), 4);
    assert_eq!(items[0].get("pythonPath"), Some(&text("/venv/bin/python")));
    assert!(items[0].get("venvPath").is_none(), "unset stays absent");
    assert_eq!(
        items[1].get("extraPaths").and_then(Json::as_array),
        Some(&vec![text("src")])
    );
    assert_eq!(items[1].get("typeCheckingMode"), Some(&text("standard")));
    assert_eq!(items[2], json("{}"));
    assert_eq!(
        items[3],
        Json::Null,
        "an unknown section gets no invented default"
    );
}

#[test]
fn configuration_is_deterministic_for_the_same_settings() {
    let settings = PythonSettings {
        python_path: Some("/venv/bin/python".to_owned()),
        extra_paths: vec!["b".to_owned(), "a".to_owned()],
        ..PythonSettings::default()
    };
    let handler = ClientHandler::new(settings.clone());
    let again = ClientHandler::new(settings);
    let params = json(r#"{"items": [{"section": "python"}, {"section": "python.analysis"}]}"#);
    assert_eq!(
        handler.request(method::CONFIGURATION, &params),
        again.request(method::CONFIGURATION, &params)
    );
}

#[test]
fn settings_contribute_sorted_config_basis_inputs() {
    let settings = PythonSettings {
        python_path: Some("/venv/bin/python".to_owned()),
        extra_paths: vec!["b".to_owned(), "a".to_owned()],
        ..PythonSettings::default()
    };
    let reordered = PythonSettings {
        extra_paths: vec!["a".to_owned(), "b".to_owned()],
        ..settings.clone()
    };
    assert_eq!(settings.basis_inputs(), reordered.basis_inputs());

    let changed = PythonSettings {
        extra_paths: vec!["a".to_owned(), "c".to_owned()],
        ..settings.clone()
    };
    assert_ne!(settings.basis_inputs(), changed.basis_inputs());
}

#[test]
fn a_snapshot_changed_notification_only_counts() {
    let mut handler = ClientHandler::new(PythonSettings::default());
    handler.notification(method::SNAPSHOT_CHANGED, &json(r#"{"old": 3, "new": 4}"#));
    handler.notification(method::SNAPSHOT_CHANGED, &json(r#"{"old": 4, "new": 5}"#));
    handler.notification("window/logMessage", &json("{}"));
    assert_eq!(handler.snapshot_changes(), 2);
}

#[test]
fn unknown_peer_requests_are_declined_rather_than_answered() {
    let handler = ClientHandler::new(PythonSettings::default());
    assert!(handler.request("window/showMessageRequest", &json("{}")).is_none());
    assert_eq!(
        handler.request(method::REGISTER_CAPABILITY, &json("{}")),
        Some(Json::Null)
    );
    assert_eq!(
        handler.request(method::UNREGISTER_CAPABILITY, &json("{}")),
        Some(Json::Null)
    );
}

#[test]
fn a_configuration_request_without_items_gets_an_empty_list() {
    let handler = ClientHandler::new(PythonSettings::default());
    assert_eq!(
        handler.request(method::CONFIGURATION, &json("{}")),
        Some(Json::Array(Vec::new()))
    );
}

fn definition() -> PythonRequest {
    PythonRequest::Definition {
        uri: "file:///w/a.py".to_owned(),
        position: Position::new(0, 0),
    }
}

#[test]
fn a_reply_is_an_answer_a_currentness_signal_or_a_capability_fact() {
    let request = definition();
    assert_eq!(
        read_reply(&request, RpcReply::Answered(Json::Null)),
        Ok(PythonResponse::Locations(Vec::new()))
    );
    assert_eq!(
        read_reply(
            &request,
            RpcReply::Refused { code: SERVER_CANCELLED, text: "moved".to_owned() }
        ),
        Ok(PythonResponse::SnapshotStale)
    );
    assert_eq!(
        read_reply(
            &request,
            RpcReply::Refused { code: METHOD_NOT_FOUND, text: "unknown".to_owned() }
        ),
        Ok(PythonResponse::Unsupported("textDocument/definition".to_owned()))
    );
    assert_eq!(
        read_reply(&request, RpcReply::Refused { code: -32000, text: "broken".to_owned() }),
        Err(HostError { message: "broken".to_owned() })
    );
    assert_eq!(
        read_reply(&request, RpcReply::Failed { text: "closed".to_owned() }),
        Err(HostError { message: "closed".to_owned() })
    );
    assert_eq!(read_delivery(Ok(())), Ok(PythonResponse::Delivered));
    assert_eq!(
        read_delivery(Err("closed".to_owned())),
        Err(HostError { message: "closed".to_owned() })
    );
}

#[test]
fn a_host_records_what_it_sent_and_stops_once() {
    let mut connection = Connection::new();
    connection.put("initialize");
    connection.begin(&PythonRequest::ProtocolVersion);
    let mut host =
        PyrightHost::new(connection, "0.4.1".to_owned(), ProtocolCompatibility::Tested);
    let (name, params) = host.begin(&definition());
    assert_eq!(name, "textDocument/definition");
    assert!(params.is_some());
    assert_eq!(
        host.sent_methods(),
        &["initialize", "typeServer/getSupportedProtocolVersion", "textDocument/definition"]
            .map(str::to_owned)
    );
    assert_eq!(host.protocol_version(), "0.4.1");
    assert_eq!(host.compatibility(), ProtocolCompatibility::Tested);
    assert_eq!(host.concurrency(), HostConcurrency::Serial);
    assert_eq!(host.health(true, false), HostHealth::Healthy);
    assert_eq!(host.health(false, false), HostHealth::Crashed);
    assert_eq!(host.health(true, true), HostHealth::Crashed);
    assert!(host.shutdown());
    assert!(!host.shutdown());
    assert_eq!(host.sent_methods()[3..], ["shutdown", "exit"].map(str::to_owned));
    assert_eq!(host.health(true, false), HostHealth::Crashed);
}

#[test]
fn a_backend_is_given_its_grace_and_then_killed() {
    assert_eq!(exit_step(false, 0), ExitStep::Done);
    assert_eq!(exit_step(true, EXIT_GRACE_MS - 1), ExitStep::Wait);
    assert_eq!(exit_step(true, EXIT_GRACE_MS), ExitStep::Kill);
}

#[test]
fn the_host_is_serial_and_reports_a_dead_connection_as_crashed() {
    let host = PyrightHost::new(
        Connection::new(),
        "0.4.1".to_owned(),
        ProtocolCompatibility::Tested,
    );
    assert_eq!(
        host.concurrency(),
        HostConcurrency::Serial,
        "one connection, and no more"
    );
    assert_eq!(host.health(true, false), HostHealth::Healthy);
    assert_eq!(host.protocol_version(), TESTED_PROTOCOL_VERSION);
    // End of stream is how a child's death reaches the client.
    assert_eq!(host.health(false, false), HostHealth::Crashed);
    assert_eq!(host.health(true, true), HostHealth::Crashed);
}
