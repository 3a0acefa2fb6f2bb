use brainprint_engine::json::{form_of_json, Json, JsonNumber};
use brainprint_engine::python_semantic::coordinates::{Position, Range};
use brainprint_engine::python_semantic::forms::form_of_response;
use brainprint_engine::python_semantic::protocol::{
    IncomingCall, Location, ModuleDescriptor, ProtocolCompatibility, PythonRequest,
    PythonResponse, TypeAnswer, WatchedChange, WatchedChangeKind, FORBIDDEN_SYNC_METHODS,
};

fn converted(value: &serde_json::Value) -> Json {
    match value {
        serde_json::Value::Null => Json::Null,
        serde_json::Value::Bool(held) => Json::Bool(*held),
        serde_json::Value::Number(number) => Json::Number(
            if let Some(unsigned) = number.as_u64() {
                JsonNumber::Unsigned(unsigned)
            } else if let Some(signed) = number.as_i64() {
                JsonNumber::Negative(signed)
            } else {
                JsonNumber::Literal(number.to_string())
            },
        ),
        serde_json::Value::String(text) => Json::Text(text.clone()),
        serde_json::Value::Array(items) => Json::Array(items.iter().map(converted).collect()),
        serde_json::Value::Object(members) => Json::Object(
            members
                .iter()
                .map(|(name, held)| (name.clone(), converted(held)))
                .collect(),
        ),
    }
}

fn json(text: &str) -> Json {
    converted(&serde_json::from_str(text).expect("the fixture is JSON"))
}

fn number(value: u64) -> Json {
    Json::Number(JsonNumber::Unsigned(value))
}

#[test]
fn protocol_compatibility_accepts_only_the_probed_minor() {
    assert_eq!(
        ProtocolCompatibility::classify("0.4.1"),
        ProtocolCompatibility::Tested
    );
    assert_eq!(
        ProtocolCompatibility::classify("0.4.7"),
        ProtocolCompatibility::CompatiblePatch
    );
    for unknown in ["0.5.0", "0.3.9", "1.0.0", "", "0.4", "abc", "0.4.x"] {
        assert_eq!(
            ProtocolCompatibility::classify(unknown),
            ProtocolCompatibility::Unknown,
            "{unknown} must not be parsed as 0.4"
        );
        assert!(!ProtocolCompatibility::classify(unknown).usable());
    }
    assert!(ProtocolCompatibility::classify("0.4.1").usable());
    assert!(ProtocolCompatibility::classify("0.4.9").usable());
}

#[test]
fn a_module_site_is_recognized_without_guessing_from_the_name() {
    assert_eq!(
        ModuleDescriptor::parse_module_site(".base"),
        Some(ModuleDescriptor {
            leading_dots: 1,
            name_parts: vec!["base".to_owned()]
        })
    );
    assert_eq!(
        ModuleDescriptor::parse_module_site("pkg.base"),
        Some(ModuleDescriptor {
            leading_dots: 0,
            name_parts: vec!["pkg".to_owned(), "base".to_owned()]
        })
    );
    assert_eq!(
        ModuleDescriptor::parse_module_site(".."),
        Some(ModuleDescriptor {
            leading_dots: 2,
            name_parts: Vec::new()
        })
    );
    // A bare identifier is ambiguous -- `import json` and
    // `from pkg import json` write the same text -- so it is not
    // resolved as a module.
    assert_eq!(ModuleDescriptor::parse_module_site("json"), None);
    assert_eq!(ModuleDescriptor::parse_module_site("Base"), None);
    assert_eq!(ModuleDescriptor::parse_module_site("a..b"), None);
    assert_eq!(ModuleDescriptor::parse_module_site("2.bad"), None);
}

#[test]
fn a_module_name_may_be_written_in_any_alphabet() {
    assert_eq!(
        ModuleDescriptor::parse_module_site("naïve.été_2"),
        Some(ModuleDescriptor {
            leading_dots: 0,
            name_parts: vec!["naïve".to_owned(), "été_2".to_owned()]
        })
    );
    assert_eq!(ModuleDescriptor::parse_module_site("a.b-c"), None);
}

#[test]
fn requests_render_the_methods_task_five_probed() {
    let (method, params) = PythonRequest::ResolveImport {
        source_uri: "file:///w/pkg/impl.py".to_owned(),
        module: ModuleDescriptor {
            leading_dots: 1,
            name_parts: vec!["base".to_owned()],
        },
        snapshot: 7,
    }
    .wire();
    assert_eq!(method, "typeServer/resolveImport");
    let params = params.expect("params");
    assert_eq!(
        params.get("moduleDescriptor").and_then(|held| held.get("leadingDots")),
        Some(&number(1))
    );
    assert_eq!(params.get("snapshot"), Some(&number(7)));

    let (method, params) = PythonRequest::Definition {
        uri: "file:///w/pkg/impl.py".to_owned(),
        position: Position::new(11, 15),
    }
    .wire();
    assert_eq!(method, "textDocument/definition");
    assert_eq!(
        params
            .expect("params")
            .get("position")
            .and_then(|held| held.get("character")),
        Some(&number(15))
    );
}

fn every_request() -> Vec<PythonRequest> {
    let uri = || "file:///w/a.py".to_owned();
    let range = || Range::new(Position::new(0, 0), Position::new(0, 1));
    vec![
        PythonRequest::ProtocolVersion,
        PythonRequest::Snapshot,
        PythonRequest::SearchPaths {
            from_uri: "file:///w".to_owned(),
            snapshot: 1,
        },
        PythonRequest::ResolveImport {
            source_uri: uri(),
            module: ModuleDescriptor {
                leading_dots: 0,
                name_parts: vec!["a".to_owned(), "b".to_owned()],
            },
            snapshot: 1,
        },
        PythonRequest::DeclaredType { uri: uri(), range: range(), snapshot: 1 },
        PythonRequest::ComputedType { uri: uri(), range: range(), snapshot: 1 },
        PythonRequest::ExpectedType { uri: uri(), range: range(), snapshot: 1 },
        PythonRequest::Definition { uri: uri(), position: Position::new(0, 0) },
        PythonRequest::Declaration { uri: uri(), position: Position::new(0, 0) },
        PythonRequest::TypeDefinition { uri: uri(), position: Position::new(0, 0) },
        PythonRequest::References {
            uri: uri(),
            position: Position::new(0, 0),
            include_declaration: false,
        },
        PythonRequest::PrepareCallHierarchy { uri: uri(), position: Position::new(0, 0) },
        PythonRequest::IncomingCalls { item: json("{}") },
        PythonRequest::WatchedFilesChanged {
            changes: vec![WatchedChange {
                uri: uri(),
                kind: WatchedChangeKind::Changed,
            }],
        },
    ]
}

#[test]
fn no_request_can_render_a_document_sync_notification() {
    // The filesystem-truth decision is structural: there is no
    // variant that produces didOpen or didChange.
    let every = every_request();
    for request in &every {
        let (method, _) = request.wire();
        assert!(
            !FORBIDDEN_SYNC_METHODS.contains(&method),
            "{method} installs an editor overlay over Workspace truth"
        );
    }
    assert_eq!(every.len(), 14, "every variant is covered");
}

#[test]
fn only_the_watched_file_change_is_a_notification() {
    for request in every_request() {
        let watched = matches!(request, PythonRequest::WatchedFilesChanged { .. });
        assert_eq!(request.is_notification(), watched);
    }
    let (method, params) = PythonRequest::WatchedFilesChanged {
        changes: vec![WatchedChange {
            uri: "file:///w/a.py".to_owned(),
            kind: WatchedChangeKind::Deleted,
        }],
    }
    .wire();
    assert_eq!(method, "workspace/didChangeWatchedFiles");
    let changes = params.expect("params");
    let changes = changes.get("changes").and_then(Json::as_array).expect("changes");
    assert_eq!(changes.len(), 1);
    assert_eq!(changes[0].get("uri"), Some(&Json::Text("file:///w/a.py".to_owned())));
    assert_eq!(changes[0].get("type"), Some(&number(3)));
}

#[test]
fn definition_answers_decode_from_every_shape_pyright_uses() {
    let request = PythonRequest::Definition {
        uri: "file:///w/a.py".to_owned(),
        position: Position::new(0, 0),
    };
    let single = r#"{"uri": "file:///w/b.py", "range": {"start": {"line": 1, "character": 8}, "end": {"line": 1, "character": 11}}}"#;
    let expected = Location {
        uri: "file:///w/b.py".to_owned(),
        range: Range::new(Position::new(1, 8), Position::new(1, 11)),
    };
    assert_eq!(
        request.decode(&json(single)),
        Ok(PythonResponse::Locations(vec![expected.clone()]))
    );
    assert_eq!(
        request.decode(&json(&format!("[{single}, {single}]"))),
        Ok(PythonResponse::Locations(vec![expected.clone(), expected]))
    );
    assert_eq!(
        request.decode(&Json::Null),
        Ok(PythonResponse::Locations(Vec::new()))
    );
    let link = json(
        r#"[{
            "targetUri": "file:///w/b.py",
            "targetSelectionRange": {"start": {"line": 2, "character": 0}, "end": {"line": 2, "character": 4}}
        }]"#,
    );
    assert_eq!(
        request.decode(&link),
        Ok(PythonResponse::Locations(vec![Location {
            uri: "file:///w/b.py".to_owned(),
            range: Range::new(Position::new(2, 0), Position::new(2, 4)),
        }]))
    );
}

#[test]
fn a_type_answer_keeps_only_what_a_target_can_be_built_from() {
    let request = PythonRequest::DeclaredType {
        uri: "file:///w/a.py".to_owned(),
        range: Range::new(Position::new(0, 0), Position::new(0, 4)),
        snapshot: 1,
    };
    // A class shape, plus a display name that must not survive decoding.
    let class = json(
        r#"{
            "id": 0, "kind": 3, "flags": 5,
            "declaration": {
                "kind": 0, "category": 6,
                "node": {"uri": "file:///w/base.py", "range": {"start": {"line": 0, "character": 0}, "end": {"line": 2, "character": 11}}},
                "name": "Base"
            }
        }"#,
    );
    let Ok(PythonResponse::Type(Some(answer))) = request.decode(&class) else {
        panic!("a class type decodes");
    };
    assert_eq!(
        answer.declaration.as_ref().map(|node| node.uri.as_str()),
        Some("file:///w/base.py")
    );
    assert_eq!(answer.module_name, None);

    let module = json(
        r#"{"id": 0, "kind": 5, "flags": 5, "moduleName": "json", "uri": "file:///stub/json/__init__.pyi"}"#,
    );
    let Ok(PythonResponse::Type(Some(answer))) = request.decode(&module) else {
        panic!("a module type decodes");
    };
    assert_eq!(answer.module_name.as_deref(), Some("json"));
    assert!(answer.declaration.is_none());

    assert_eq!(request.decode(&Json::Null), Ok(PythonResponse::Type(None)));
    // A type that names nothing resolvable is not a target.
    assert_eq!(
        request.decode(&json(r#"{"id": 0, "kind": 1, "flags": 0}"#)),
        Ok(PythonResponse::Type(None))
    );
}

#[test]
fn incoming_calls_keep_their_exact_call_site_ranges() {
    let request = PythonRequest::IncomingCalls { item: json("{}") };
    let answer = json(
        r#"[{
            "from": {"name": "call", "uri": "file:///w/impl.py", "range": {"start": {"line": 10, "character": 4}, "end": {"line": 10, "character": 8}}},
            "fromRanges": [{"start": {"line": 11, "character": 13}, "end": {"line": 11, "character": 16}}]
        }]"#,
    );
    let Ok(PythonResponse::IncomingCalls(calls)) = request.decode(&answer) else {
        panic!("incoming calls decode");
    };
    assert_eq!(calls.len(), 1);
    assert_eq!(calls[0].from.uri, "file:///w/impl.py");
    assert_eq!(
        calls[0].from_ranges,
        vec![Range::new(Position::new(11, 13), Position::new(11, 16))]
    );
}

#[test]
fn only_snapshot_carrying_requests_can_go_stale() {
    assert_eq!(
        PythonRequest::ResolveImport {
            source_uri: "file:///w/a.py".to_owned(),
            module: ModuleDescriptor {
                leading_dots: 1,
                name_parts: vec!["b".to_owned()]
            },
            snapshot: 9,
        }
        .snapshot(),
        Some(9)
    );
    assert_eq!(
        PythonRequest::Definition {
            uri: "file:///w/a.py".to_owned(),
            position: Position::new(0, 0),
        }
        .snapshot(),
        None
    );
}

#[test]
fn an_answer_of_the_wrong_shape_is_an_error_that_names_the_method() {
    let error = PythonRequest::ProtocolVersion
        .decode(&number(4))
        .expect_err("a number is no version");
    assert!(error
        .message()
        .starts_with("typeServer/getSupportedProtocolVersion: "));
    let error = PythonRequest::Snapshot
        .decode(&Json::Text("x".to_owned()))
        .expect_err("a text is no snapshot");
    assert!(error.message().starts_with("typeServer/getSnapshot: "));
}

#[test]
fn compatibility_has_a_name_of_its_own() {
    assert_eq!(ProtocolCompatibility::Tested.name(), "TESTED");
    assert_eq!(ProtocolCompatibility::CompatiblePatch.name(), "COMPATIBLE_PATCH");
    assert_eq!(ProtocolCompatibility::Unknown.name(), "UNKNOWN");
}

#[test]
fn an_answer_has_a_debugging_form() {
    let here = Location {
        uri: "file:///w/\"a\".py".to_owned(),
        range: Range::new(Position::new(1, 2), Position::new(3, 4)),
    };
    let range = "Range { start: Position { line: 1, character: 2 }, \
                 end: Position { line: 3, character: 4 } }";
    let place = format!("Location {{ uri: \"file:///w/\\\"a\\\".py\", range: {range} }}");
    let cases = [
        (
            PythonResponse::ProtocolVersion("0.4.1".to_owned()),
            "ProtocolVersion(\"0.4.1\")".to_owned(),
        ),
        (PythonResponse::Snapshot(3), "Snapshot(3)".to_owned()),
        (
            PythonResponse::SearchPaths(vec!["/a".to_owned(), "/b".to_owned()]),
            "SearchPaths([\"/a\", \"/b\"])".to_owned(),
        ),
        (PythonResponse::Import(None), "Import(None)".to_owned()),
        (
            PythonResponse::Import(Some("file:///a\n".to_owned())),
            "Import(Some(\"file:///a\\n\"))".to_owned(),
        ),
        (PythonResponse::Type(None), "Type(None)".to_owned()),
        (
            PythonResponse::Type(Some(TypeAnswer {
                declaration: Some(here.clone()),
                module_name: None,
                module_uri: Some("m".to_owned()),
            })),
            format!(
                "Type(Some(TypeAnswer {{ declaration: Some({place}), module_name: None, \
                 module_uri: Some(\"m\") }}))"
            ),
        ),
        (PythonResponse::Locations(Vec::new()), "Locations([])".to_owned()),
        (
            PythonResponse::Locations(vec![here.clone(), here.clone()]),
            format!("Locations([{place}, {place}])"),
        ),
        (
            PythonResponse::IncomingCalls(vec![IncomingCall {
                from: here.clone(),
                from_ranges: vec![here.range],
            }]),
            format!("IncomingCalls([IncomingCall {{ from: {place}, from_ranges: [{range}] }}])"),
        ),
        (PythonResponse::SnapshotStale, "SnapshotStale".to_owned()),
        (
            PythonResponse::Unsupported("x".to_owned()),
            "Unsupported(\"x\")".to_owned(),
        ),
        (PythonResponse::Delivered, "Delivered".to_owned()),
    ];
    for (response, form) in cases {
        assert_eq!(form_of_response(&response), form);
        assert_eq!(format!("{response:?}"), form, "as it is printed");
    }
    assert_eq!(
        form_of_response(&PythonResponse::CallHierarchyItems(vec![
            json("{\"name\": \"run\", \"kind\": 6}"),
            Json::Null,
        ])),
        "CallHierarchyItems([Object {\"kind\": Number(6), \"name\": String(\"run\")}, Null])"
    );
}

#[test]
fn the_debugging_form_of_json_is_the_one_that_serde_json_prints() {
    for text in [
        "null",
        "true",
        "false",
        "0",
        "18446744073709551615",
        "-9223372036854775808",
        "1.5",
        "\"\"",
        "\"a\\\"b\\n\\u00e9\"",
        "[]",
        "[1, [null, false], \"x\"]",
        "{}",
        "{\"b\": {\"c\": []}, \"a\": -1}",
    ] {
        let value: serde_json::Value = serde_json::from_str(text).expect("the fixture is JSON");
        assert_eq!(form_of_json(&converted(&value)), format!("{value:?}"), "{text}");
    }
}
