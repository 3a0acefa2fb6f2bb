//! The backend's wire surface, as typed requests and answers.
//!
//! One type server process answers two protocol families on one connection:
//! the `typeServer/*` requests for snapshots, import resolution and types,
//! and the language-service requests for definition, declaration,
//! references and the call hierarchy.
//!
//! [`PythonRequest`] and [`PythonResponse`] are transport, never truth:
//! nothing in either type can become canonical identity, and the adapter is
//! the only thing that reads them.

use vstd::prelude::*;

use crate::json::{
    array_view, empty_object, items_in, json_number, json_text, json_texts, member, member_text,
    number, text_in, text_member, texts_array, unsigned_in, with_member, Json, JsonView,
    ObjectBuilder,
};
use crate::python_semantic::coordinates::{Position, Range};
use crate::python_semantic::method;
use crate::text::{
    all_chars, ascii_digit, characters_of, holds_character, is_alphabetic, is_alphanumeric, joined,
    optional_chars, same_text, slice_text, split, split_text, Chars,
};

verus! {

// ---------------------------------------------------------------------
// Protocol version
// ---------------------------------------------------------------------

/// The protocol version this adapter is written against.
pub const TESTED_PROTOCOL_VERSION: &'static str = "0.4.1";

/// The compatibility class recorded with every publication: major and
/// minor, not the patch. A patch stays backward compatible while a 0.x
/// minor may break, so the class is exactly the range over which results
/// are comparable.
pub const COMPATIBILITY_CLASS: &'static str = "python-pyright-tsp:0.4";

/// Whether a server's protocol version is one this adapter may parse.
#[derive(Debug, Clone, Copy, PartialEq, Eq, Structural)]
pub enum ProtocolCompatibility {
    /// Exactly [`TESTED_PROTOCOL_VERSION`].
    Tested,
    /// The same major and minor.
    CompatiblePatch,
    /// Anything else, including anything that is not a version. Nothing is
    /// parsed.
    Unknown,
}

/// A version component: one or more ASCII digits.
pub open spec fn version_component(part: Chars) -> bool {
    part.len() > 0 && forall|i: int| 0 <= i < part.len() ==> ascii_digit(#[trigger] part[i])
}

/// Three components, the first two those of the tested version.
pub open spec fn patch_of_tested(version: Chars) -> bool {
    let parts = split(version, '.');
    &&& parts.len() == 3
    &&& forall|i: int| 0 <= i < 3 ==> version_component(#[trigger] parts[i])
    &&& parts[0] == "0"@
    &&& parts[1] == "4"@
}

/// How a version is classified.
pub open spec fn classification(version: Chars) -> ProtocolCompatibility {
    if version == TESTED_PROTOCOL_VERSION@ {
        ProtocolCompatibility::Tested
    } else if patch_of_tested(version) {
        ProtocolCompatibility::CompatiblePatch
    } else {
        ProtocolCompatibility::Unknown
    }
}

fn is_version_component(part: &str) -> (held: bool)
    ensures
        held == version_component(part@),
{
    let characters = characters_of(part);
    if characters.len() == 0 {
        return false;
    }
    let mut at: usize = 0;
    while at < characters.len()
        invariant
            at <= characters@.len(),
            characters@ == part@,
            forall|i: int| 0 <= i < at ==> ascii_digit(#[trigger] part@[i]),
        decreases characters@.len() - at,
    {
        if !('0' <= characters[at] && characters[at] <= '9') {
            assert(!ascii_digit(part@[at as int]));
            return false;
        }
        at = at + 1;
    }
    true
}

impl ProtocolCompatibility {
    /// Which compatibility a reported version has.
    pub fn classify(version: &str) -> (found: Self)
        ensures
            found == classification(version@),
    {
        if same_text(version, TESTED_PROTOCOL_VERSION) {
            return ProtocolCompatibility::Tested;
        }
        let characters = characters_of(version);
        let parts = split_text(characters.as_slice(), '.');
        let ghost pieces = split(version@, '.');
        assert(pieces == all_chars(parts@));
        assert(forall|i: int| 0 <= i < parts@.len() ==> #[trigger] pieces[i] == parts@[i]@);
        if parts.len() == 3 && is_version_component(parts[0].as_str()) && is_version_component(
            parts[1].as_str(),
        ) && is_version_component(parts[2].as_str()) && same_text(parts[0].as_str(), "0")
            && same_text(parts[1].as_str(), "4") {
            return ProtocolCompatibility::CompatiblePatch;
        }
        proof {
            if pieces.len() == 3 {
                assert(pieces[0] == parts@[0]@);
                assert(pieces[1] == parts@[1]@);
                assert(pieces[2] == parts@[2]@);
            }
        }
        ProtocolCompatibility::Unknown
    }

    /// Whether the adapter may issue and parse queries at this version.
    pub open spec fn may_parse(self) -> bool {
        self != ProtocolCompatibility::Unknown
    }

    /// Whether the adapter may issue and parse queries at this version.
    pub fn usable(self) -> (usable: bool)
        ensures
            usable == self.may_parse(),
    {
        match self {
            ProtocolCompatibility::Tested => true,
            ProtocolCompatibility::CompatiblePatch => true,
            ProtocolCompatibility::Unknown => false,
        }
    }

    /// The name it is reported under.
    pub fn name(self) -> (name: &'static str)
        ensures
            name@ == match self {
                ProtocolCompatibility::Tested => "TESTED"@,
                ProtocolCompatibility::CompatiblePatch => "COMPATIBLE_PATCH"@,
                ProtocolCompatibility::Unknown => "UNKNOWN"@,
            },
    {
        match self {
            ProtocolCompatibility::Tested => "TESTED",
            ProtocolCompatibility::CompatiblePatch => "COMPATIBLE_PATCH",
            ProtocolCompatibility::Unknown => "UNKNOWN",
        }
    }
}

// ---------------------------------------------------------------------
// Wire constants
// ---------------------------------------------------------------------

/// JSON-RPC `ServerCancelled`: how the server answers a query carried on a
/// snapshot that it has already invalidated.
pub const SERVER_CANCELLED: i64 = -32802;

/// JSON-RPC `MethodNotFound`: how the server reports an unsupported
/// capability.
pub const METHOD_NOT_FOUND: i64 = -32601;

/// The document-synchronization notifications that are never emitted: they
/// install an overlay over the file on disk, and the Workspace is the one
/// truth.
pub const FORBIDDEN_SYNC_METHODS: [&'static str; 2] = [method::DID_OPEN, method::DID_CHANGE];

// ---------------------------------------------------------------------
// Requests
// ---------------------------------------------------------------------

/// A Python module as an import statement writes it.
#[derive(Debug, Clone, PartialEq, Eq)]
pub struct ModuleDescriptor {
    /// `from . import x` is one dot, `from ..pkg import x` is two.
    pub leading_dots: u32,
    pub name_parts: Vec<String>,
}

/// How many characters at the start of the text are dots.
pub open spec fn leading_dots(text: Chars) -> nat
    decreases text.len(),
{
    if text.len() > 0 && text[0] == '.' {
        1 + leading_dots(text.skip(1))
    } else {
        0
    }
}

/// A Python name: a letter or underscore, then letters, numbers and
/// underscores.
pub open spec fn identifier(text: Chars) -> bool {
    &&& text.len() > 0
    &&& text[0] == '_' || crate::text::alphabetic(text[0])
    &&& forall|i: int|
        1 <= i < text.len() ==> #[trigger] text[i] == '_' || crate::text::alphanumeric(text[i])
}

/// The names written after the leading dots.
pub open spec fn module_parts(text: Chars) -> Seq<Chars> {
    let rest = text.skip(leading_dots(text) as int);
    if rest.len() == 0 {
        Seq::empty()
    } else {
        split(rest, '.')
    }
}

/// Whether the text of an import site is a module path: it has a dot, each
/// part of it is a name, and its leading dots can be counted.
pub open spec fn module_site(text: Chars) -> bool {
    &&& text.contains('.')
    &&& forall|i: int|
        0 <= i < module_parts(text).len() ==> identifier(#[trigger] module_parts(text)[i])
    &&& leading_dots(text) <= u32::MAX
}

proof fn lemma_leading_dots(text: Chars)
    ensures
        leading_dots(text) <= text.len(),
        forall|i: int| 0 <= i < leading_dots(text) ==> #[trigger] text[i] == '.',
        leading_dots(text) < text.len() ==> text[leading_dots(text) as int] != '.',
        text.contains('.') <==> leading_dots(text) > 0 || text.skip(
            leading_dots(text) as int,
        ).contains('.'),
    decreases text.len(),
{
    if text.len() > 0 && text[0] == '.' {
        let rest = text.skip(1);
        lemma_leading_dots(rest);
        let n = leading_dots(rest);
        assert forall|i: int| 0 <= i < leading_dots(text) implies #[trigger] text[i] == '.' by {
            if i > 0 {
                assert(rest[i - 1] == text[i]);
            }
        }
        if leading_dots(text) < text.len() {
            assert(rest[n as int] == text[n as int + 1]);
        }
        assert(text.contains(text[0]));
    } else {
        assert(text.skip(0) =~= text);
    }
}

fn is_identifier(text: &str) -> (held: bool)
    ensures
        held == identifier(text@),
{
    let characters = characters_of(text);
    if characters.len() == 0 {
        return false;
    }
    if characters[0] != '_' && !is_alphabetic(characters[0]) {
        return false;
    }
    let mut at: usize = 1;
    while at < characters.len()
        invariant
            1 <= at <= characters@.len(),
            characters@ == text@,
            forall|i: int|
                1 <= i < at ==> #[trigger] text@[i] == '_' || crate::text::alphanumeric(text@[i]),
        decreases characters@.len() - at,
    {
        if characters[at] != '_' && !is_alphanumeric(characters[at]) {
            return false;
        }
        at = at + 1;
    }
    true
}

impl ModuleDescriptor {
    /// The descriptor that the text of an import site writes.
    ///
    /// `None` when the text is not a module path, which is how a symbol
    /// import site is told apart from a module one without guessing from
    /// the name. A bare identifier is deliberately not a descriptor:
    /// `from pkg import json` writes one, and resolving it as the top-level
    /// `json` module would be a confident wrong answer.
    pub fn parse_module_site(text: &str) -> (found: Option<Self>)
        ensures
            found is Some <==> module_site(text@),
            found matches Some(module) ==> module.leading_dots == leading_dots(text@) && all_chars(
                module.name_parts@,
            ) == module_parts(text@),
    {
        let characters = characters_of(text);
        let total: usize = characters.len();
        let mut dots: usize = 0;
        proof {
            lemma_leading_dots(text@);
            assert(text@.skip(0) =~= text@);
        }
        while dots < total && characters[dots] == '.'
            invariant
                dots <= total == characters@.len(),
                characters@ == text@,
                leading_dots(text@) == dots + leading_dots(text@.skip(dots as int)),
            decreases total - dots,
        {
            assert(text@.skip(dots as int).skip(1) =~= text@.skip(dots + 1));
            assert(text@.skip(dots as int)[0] == '.');
            dots = dots + 1;
        }
        assert(leading_dots(text@) == dots) by {
            assert(dots < total ==> text@.skip(dots as int)[0] == text@[dots as int]);
        }
        let rest = slice_text(characters.as_slice(), dots, total);
        assert(rest@ =~= text@.skip(dots as int));
        let tail = characters_of(rest.as_str());
        if dots == 0 && !holds_character(tail.as_slice(), '.') {
            return None;
        }
        let parts: Vec<String> = if tail.len() == 0 {
            Vec::new()
        } else {
            split_text(tail.as_slice(), '.')
        };
        assert(all_chars(parts@) =~= module_parts(text@));
        let mut at: usize = 0;
        while at < parts.len()
            invariant
                at <= parts@.len(),
                all_chars(parts@) == module_parts(text@),
                forall|i: int| 0 <= i < at ==> identifier(#[trigger] module_parts(text@)[i]),
            decreases parts@.len() - at,
        {
            assert(module_parts(text@)[at as int] == parts@[at as int]@);
            if !is_identifier(parts[at].as_str()) {
                return None;
            }
            at = at + 1;
        }
        if dots > u32::MAX as usize {
            return None;
        }
        Some(ModuleDescriptor { leading_dots: dots as u32, name_parts: parts })
    }
}

/// What kind of filesystem change a watched-file notification reports.
#[derive(Debug, Clone, Copy, PartialEq, Eq, Structural)]
pub enum WatchedChangeKind {
    Created,
    Changed,
    Deleted,
}

impl WatchedChangeKind {
    /// The number that stands for it on the wire.
    pub open spec fn code(self) -> int {
        match self {
            WatchedChangeKind::Created => 1,
            WatchedChangeKind::Changed => 2,
            WatchedChangeKind::Deleted => 3,
        }
    }

    /// The number that stands for it on the wire.
    pub fn wire(self) -> (code: u64)
        ensures
            code == self.code(),
    {
        match self {
            WatchedChangeKind::Created => 1,
            WatchedChangeKind::Changed => 2,
            WatchedChangeKind::Deleted => 3,
        }
    }
}

#[derive(Debug, Clone, PartialEq, Eq)]
pub struct WatchedChange {
    pub uri: String,
    pub kind: WatchedChangeKind,
}

/// One question for the Python backend.
#[derive(Debug, Clone, PartialEq, Eq)]
pub enum PythonRequest {
    ProtocolVersion,
    Snapshot,
    SearchPaths { from_uri: String, snapshot: u64 },
    ResolveImport { source_uri: String, module: ModuleDescriptor, snapshot: u64 },
    DeclaredType { uri: String, range: Range, snapshot: u64 },
    ComputedType { uri: String, range: Range, snapshot: u64 },
    ExpectedType { uri: String, range: Range, snapshot: u64 },
    Definition { uri: String, position: Position },
    Declaration { uri: String, position: Position },
    TypeDefinition { uri: String, position: Position },
    References { uri: String, position: Position, include_declaration: bool },
    PrepareCallHierarchy { uri: String, position: Position },
    /// The item comes from a previous [`Self::PrepareCallHierarchy`] answer
    /// and is echoed back verbatim, as the protocol requires.
    IncomingCalls { item: Json },
    WatchedFilesChanged { changes: Vec<WatchedChange> },
}

pub open spec fn position_json(position: Position) -> JsonView {
    with_member(
        with_member(empty_object(), "line"@, number(position.line as int)),
        "character"@,
        number(position.character as int),
    )
}

pub open spec fn range_view(range: Range) -> JsonView {
    with_member(
        with_member(empty_object(), "start"@, position_json(range.start)),
        "end"@,
        position_json(range.end),
    )
}

/// The parameters of a `typeServer/get*Type` request.
pub open spec fn type_params_view(uri: Chars, range: Range, snapshot: u64) -> JsonView {
    with_member(
        with_member(
            empty_object(),
            "arg"@,
            with_member(
                with_member(empty_object(), "uri"@, JsonView::Text(uri)),
                "range"@,
                range_view(range),
            ),
        ),
        "snapshot"@,
        number(snapshot as int),
    )
}

/// The parameters that name a place in a document.
pub open spec fn document_position_view(uri: Chars, position: Position) -> JsonView {
    with_member(
        with_member(
            empty_object(),
            "textDocument"@,
            with_member(empty_object(), "uri"@, JsonView::Text(uri)),
        ),
        "position"@,
        position_json(position),
    )
}

pub open spec fn change_view(change: WatchedChange) -> JsonView {
    with_member(
        with_member(empty_object(), "uri"@, JsonView::Text(change.uri@)),
        "type"@,
        number(change.kind.code()),
    )
}

/// The method that a request is sent under.
pub open spec fn wire_method(request: PythonRequest) -> Chars {
    match request {
        PythonRequest::ProtocolVersion => method::PROTOCOL_VERSION@,
        PythonRequest::Snapshot => method::SNAPSHOT@,
        PythonRequest::SearchPaths { .. } => method::SEARCH_PATHS@,
        PythonRequest::ResolveImport { .. } => method::RESOLVE_IMPORT@,
        PythonRequest::DeclaredType { .. } => method::DECLARED_TYPE@,
        PythonRequest::ComputedType { .. } => method::COMPUTED_TYPE@,
        PythonRequest::ExpectedType { .. } => method::EXPECTED_TYPE@,
        PythonRequest::Definition { .. } => method::DEFINITION@,
        PythonRequest::Declaration { .. } => method::DECLARATION@,
        PythonRequest::TypeDefinition { .. } => method::TYPE_DEFINITION@,
        PythonRequest::References { .. } => method::REFERENCES@,
        PythonRequest::PrepareCallHierarchy { .. } => method::PREPARE_CALL_HIERARCHY@,
        PythonRequest::IncomingCalls { .. } => method::INCOMING_CALLS@,
        PythonRequest::WatchedFilesChanged { .. } => method::DID_CHANGE_WATCHED_FILES@,
    }
}

/// The parameters that a request is sent with.
pub open spec fn wire_params(request: PythonRequest) -> Option<JsonView> {
    match request {
        PythonRequest::ProtocolVersion => None,
        PythonRequest::Snapshot => None,
        PythonRequest::SearchPaths { from_uri, snapshot } => Some(
            with_member(
                with_member(empty_object(), "fromUri"@, JsonView::Text(from_uri@)),
                "snapshot"@,
                number(snapshot as int),
            ),
        ),
        PythonRequest::ResolveImport { source_uri, module, snapshot } => Some(
            with_member(
                with_member(
                    with_member(empty_object(), "sourceUri"@, JsonView::Text(source_uri@)),
                    "moduleDescriptor"@,
                    with_member(
                        with_member(
                            empty_object(),
                            "leadingDots"@,
                            number(module.leading_dots as int),
                        ),
                        "nameParts"@,
                        texts_array(all_chars(module.name_parts@)),
                    ),
                ),
                "snapshot"@,
                number(snapshot as int),
            ),
        ),
        PythonRequest::DeclaredType { uri, range, snapshot } => Some(
            type_params_view(uri@, range, snapshot),
        ),
        PythonRequest::ComputedType { uri, range, snapshot } => Some(
            type_params_view(uri@, range, snapshot),
        ),
        PythonRequest::ExpectedType { uri, range, snapshot } => Some(
            type_params_view(uri@, range, snapshot),
        ),
        PythonRequest::Definition { uri, position } => Some(document_position_view(uri@, position)),
        PythonRequest::Declaration { uri, position } => Some(
            document_position_view(uri@, position),
        ),
        PythonRequest::TypeDefinition { uri, position } => Some(
            document_position_view(uri@, position),
        ),
        PythonRequest::References { uri, position, include_declaration } => Some(
            with_member(
                document_position_view(uri@, position),
                "context"@,
                with_member(
                    empty_object(),
                    "includeDeclaration"@,
                    JsonView::Bool(include_declaration),
                ),
            ),
        ),
        PythonRequest::PrepareCallHierarchy { uri, position } => Some(
            document_position_view(uri@, position),
        ),
        PythonRequest::IncomingCalls { item } => Some(
            with_member(empty_object(), "item"@, item@),
        ),
        PythonRequest::WatchedFilesChanged { changes } => Some(
            with_member(
                empty_object(),
                "changes"@,
                JsonView::Array(changes@.map_values(|change: WatchedChange| change_view(change))),
            ),
        ),
    }
}

/// The snapshot that a request is carried on, if any.
pub open spec fn carried_snapshot(request: PythonRequest) -> Option<u64> {
    match request {
        PythonRequest::SearchPaths { snapshot, .. } => Some(snapshot),
        PythonRequest::ResolveImport { snapshot, .. } => Some(snapshot),
        PythonRequest::DeclaredType { snapshot, .. } => Some(snapshot),
        PythonRequest::ComputedType { snapshot, .. } => Some(snapshot),
        PythonRequest::ExpectedType { snapshot, .. } => Some(snapshot),
        _ => None,
    }
}

fn position_value(position: Position) -> (value: Json)
    ensures
        value@ == position_json(position),
{
    ObjectBuilder::new().with("line", json_number(position.line as u64)).with(
        "character",
        json_number(position.character as u64),
    ).build()
}

fn range_json(range: Range) -> (value: Json)
    ensures
        value@ == range_view(range),
{
    ObjectBuilder::new().with("start", position_value(range.start)).with(
        "end",
        position_value(range.end),
    ).build()
}

fn type_params(uri: &str, range: Range, snapshot: u64) -> (value: Json)
    ensures
        value@ == type_params_view(uri@, range, snapshot),
{
    let arg = ObjectBuilder::new().with("uri", json_text(uri)).with(
        "range",
        range_json(range),
    ).build();
    ObjectBuilder::new().with("arg", arg).with("snapshot", json_number(snapshot)).build()
}

fn document_position(uri: &str, position: Position) -> (builder: ObjectBuilder)
    ensures
        builder@ == document_position_view(uri@, position),
{
    let document = ObjectBuilder::new().with("uri", json_text(uri)).build();
    ObjectBuilder::new().with("textDocument", document).with("position", position_value(position))
}

fn changes_value(changes: &[WatchedChange]) -> (value: Json)
    ensures
        value@ == JsonView::Array(
            changes@.map_values(|change: WatchedChange| change_view(change)),
        ),
{
    let mut items: Vec<Json> = Vec::new();
    let mut at: usize = 0;
    while at < changes.len()
        invariant
            at <= changes@.len(),
            items@.len() == at,
            forall|i: int| 0 <= i < at ==> (#[trigger] items@[i])@ == change_view(changes@[i]),
        decreases changes@.len() - at,
    {
        let item = ObjectBuilder::new().with("uri", json_text(changes[at].uri.as_str())).with(
            "type",
            json_number(changes[at].kind.wire()),
        ).build();
        items.push(item);
        at = at + 1;
    }
    proof {
        crate::json::lemma_array_view(items);
        assert(array_view(items@) =~= changes@.map_values(
            |change: WatchedChange| change_view(change),
        ));
    }
    Json::Array(items)
}

impl PythonRequest {
    /// The wire method, and the parameters to send with it.
    pub fn wire(&self) -> (rendered: (&'static str, Option<Json>))
        ensures
            rendered.0@ == wire_method(*self),
            rendered.1 is Some == wire_params(*self) is Some,
            rendered.1 matches Some(params) ==> wire_params(*self) == Some(params@),
    {
        match self {
            PythonRequest::ProtocolVersion => (method::PROTOCOL_VERSION, None),
            PythonRequest::Snapshot => (method::SNAPSHOT, None),
            PythonRequest::SearchPaths { from_uri, snapshot } => {
                let params = ObjectBuilder::new().with("fromUri", json_text(from_uri.as_str())).with(
                    "snapshot",
                    json_number(*snapshot),
                ).build();
                (method::SEARCH_PATHS, Some(params))
            },
            PythonRequest::ResolveImport { source_uri, module, snapshot } => {
                let descriptor = ObjectBuilder::new().with(
                    "leadingDots",
                    json_number(module.leading_dots as u64),
                ).with("nameParts", json_texts(module.name_parts.as_slice())).build();
                let params = ObjectBuilder::new().with(
                    "sourceUri",
                    json_text(source_uri.as_str()),
                ).with("moduleDescriptor", descriptor).with("snapshot", json_number(*snapshot)).build();
                (method::RESOLVE_IMPORT, Some(params))
            },
            PythonRequest::DeclaredType { uri, range, snapshot } => (
                method::DECLARED_TYPE,
                Some(type_params(uri.as_str(), *range, *snapshot)),
            ),
            PythonRequest::ComputedType { uri, range, snapshot } => (
                method::COMPUTED_TYPE,
                Some(type_params(uri.as_str(), *range, *snapshot)),
            ),
            PythonRequest::ExpectedType { uri, range, snapshot } => (
                method::EXPECTED_TYPE,
                Some(type_params(uri.as_str(), *range, *snapshot)),
            ),
            PythonRequest::Definition { uri, position } => (
                method::DEFINITION,
                Some(document_position(uri.as_str(), *position).build()),
            ),
            PythonRequest::Declaration { uri, position } => (
                method::DECLARATION,
                Some(document_position(uri.as_str(), *position).build()),
            ),
            PythonRequest::TypeDefinition { uri, position } => (
                method::TYPE_DEFINITION,
                Some(document_position(uri.as_str(), *position).build()),
            ),
            PythonRequest::References { uri, position, include_declaration } => {
                let context = ObjectBuilder::new().with(
                    "includeDeclaration",
                    Json::Bool(*include_declaration),
                ).build();
                let params = document_position(uri.as_str(), *position).with(
                    "context",
                    context,
                ).build();
                (method::REFERENCES, Some(params))
            },
            PythonRequest::PrepareCallHierarchy { uri, position } => (
                method::PREPARE_CALL_HIERARCHY,
                Some(document_position(uri.as_str(), *position).build()),
            ),
            PythonRequest::IncomingCalls { item } => (
                method::INCOMING_CALLS,
                Some(ObjectBuilder::new().with("item", item.clone()).build()),
            ),
            PythonRequest::WatchedFilesChanged { changes } => (
                method::DID_CHANGE_WATCHED_FILES,
                Some(
                    ObjectBuilder::new().with("changes", changes_value(changes.as_slice())).build(),
                ),
            ),
        }
    }

    /// Whether this is a notification rather than a request.
    pub fn is_notification(&self) -> (held: bool)
        ensures
            held == (*self is WatchedFilesChanged),
    {
        match self {
            PythonRequest::WatchedFilesChanged { .. } => true,
            _ => false,
        }
    }

    /// The snapshot this question is carried on, if any. A request without
    /// one cannot go stale.
    pub fn snapshot(&self) -> (carried: Option<u64>)
        ensures
            carried == carried_snapshot(*self),
    {
        match self {
            PythonRequest::SearchPaths { snapshot, .. } => Some(*snapshot),
            PythonRequest::ResolveImport { snapshot, .. } => Some(*snapshot),
            PythonRequest::DeclaredType { snapshot, .. } => Some(*snapshot),
            PythonRequest::ComputedType { snapshot, .. } => Some(*snapshot),
            PythonRequest::ExpectedType { snapshot, .. } => Some(*snapshot),
            _ => None,
        }
    }
}

/// No request is sent as a document-synchronization notification.
pub proof fn lemma_no_request_synchronizes_a_document(request: PythonRequest)
    ensures
        wire_method(request) != method::DID_OPEN@,
        wire_method(request) != method::DID_CHANGE@,
{
    reveal_strlit("textDocument/didOpen");
    reveal_strlit("textDocument/didChange");
    reveal_strlit("typeServer/getSupportedProtocolVersion");
    reveal_strlit("typeServer/getSnapshot");
    reveal_strlit("typeServer/getPythonSearchPaths");
    reveal_strlit("typeServer/resolveImport");
    reveal_strlit("typeServer/getDeclaredType");
    reveal_strlit("typeServer/getComputedType");
    reveal_strlit("typeServer/getExpectedType");
    reveal_strlit("textDocument/definition");
    reveal_strlit("textDocument/declaration");
    reveal_strlit("textDocument/typeDefinition");
    reveal_strlit("textDocument/references");
    reveal_strlit("textDocument/prepareCallHierarchy");
    reveal_strlit("callHierarchy/incomingCalls");
    reveal_strlit("workspace/didChangeWatchedFiles");
    assert(method::DID_OPEN@.len() == 20);
    assert(method::DID_CHANGE@.len() == 22);
    assert(method::RESOLVE_IMPORT@[0] == 't' && method::RESOLVE_IMPORT@[1] == 'y');
    assert(method::SNAPSHOT@[1] == 'y');
    assert(method::DID_OPEN@[1] == 'e');
    assert(method::DID_CHANGE@[1] == 'e');
    assert(method::DEFINITION@.len() == 23);
}

// ---------------------------------------------------------------------
// Answers
// ---------------------------------------------------------------------

/// One place in one document, as the backend names it: a locator, not
/// identity.
#[derive(Debug, Clone, PartialEq, Eq)]
pub struct Location {
    pub uri: String,
    pub range: Range,
}

pub ghost struct LocationView {
    pub uri: Chars,
    pub range: Range,
}

impl View for Location {
    type V = LocationView;

    open spec fn view(&self) -> LocationView {
        LocationView { uri: self.uri@, range: self.range }
    }
}

/// What a `typeServer/get*Type` request established: only the parts that
/// can become a target. A display name is not a target.
#[derive(Debug, Clone, PartialEq, Eq)]
pub struct TypeAnswer {
    /// Where the type is declared, when it has a source declaration.
    pub declaration: Option<Location>,
    /// Set instead of `declaration` when the type is a module.
    pub module_name: Option<String>,
    pub module_uri: Option<String>,
}

pub ghost struct TypeAnswerView {
    pub declaration: Option<LocationView>,
    pub module_name: Option<Chars>,
    pub module_uri: Option<Chars>,
}

pub open spec fn optional_location(location: Option<Location>) -> Option<LocationView> {
    match location {
        Some(held) => Some(held@),
        None => None,
    }
}

impl View for TypeAnswer {
    type V = TypeAnswerView;

    open spec fn view(&self) -> TypeAnswerView {
        TypeAnswerView {
            declaration: optional_location(self.declaration),
            module_name: optional_chars(self.module_name),
            module_uri: optional_chars(self.module_uri),
        }
    }
}

/// One caller of a call-hierarchy item.
#[derive(Debug, Clone, PartialEq, Eq)]
pub struct IncomingCall {
    /// The calling declaration.
    pub from: Location,
    /// The exact call sites inside it.
    pub from_ranges: Vec<Range>,
}

pub ghost struct IncomingCallView {
    pub from: LocationView,
    pub from_ranges: Seq<Range>,
}

impl View for IncomingCall {
    type V = IncomingCallView;

    open spec fn view(&self) -> IncomingCallView {
        IncomingCallView { from: self.from@, from_ranges: self.from_ranges@ }
    }
}

/// What the backend answered.
#[derive(Debug, Clone, PartialEq, Eq)]
pub enum PythonResponse {
    ProtocolVersion(String),
    Snapshot(u64),
    SearchPaths(Vec<String>),
    /// `None` when the module does not resolve. "No such module" is an
    /// answer, not an error.
    Import(Option<String>),
    Type(Option<TypeAnswer>),
    Locations(Vec<Location>),
    /// Opaque call-hierarchy items, to be handed straight back.
    CallHierarchyItems(Vec<Json>),
    IncomingCalls(Vec<IncomingCall>),
    /// The backend refused the request because its snapshot had already
    /// moved on. The whole batch is retried on a fresh snapshot.
    SnapshotStale,
    /// The backend does not implement the method. Recorded rather than
    /// turned into an empty result: an unsupported capability is not zero
    /// findings.
    Unsupported(String),
    /// A notification was delivered. There is nothing to wait for.
    Delivered,
}

pub ghost enum ResponseView {
    ProtocolVersion(Chars),
    Snapshot(u64),
    SearchPaths(Seq<Chars>),
    Import(Option<Chars>),
    Type(Option<TypeAnswerView>),
    Locations(Seq<LocationView>),
    CallHierarchyItems(Seq<JsonView>),
    IncomingCalls(Seq<IncomingCallView>),
    SnapshotStale,
    Unsupported(Chars),
    Delivered,
}

pub open spec fn locations_view(locations: Seq<Location>) -> Seq<LocationView> {
    locations.map_values(|location: Location| location@)
}

pub open spec fn calls_view(calls: Seq<IncomingCall>) -> Seq<IncomingCallView> {
    calls.map_values(|call: IncomingCall| call@)
}

pub open spec fn optional_type(answer: Option<TypeAnswer>) -> Option<TypeAnswerView> {
    match answer {
        Some(held) => Some(held@),
        None => None,
    }
}

impl View for PythonResponse {
    type V = ResponseView;

    open spec fn view(&self) -> ResponseView {
        match self {
            PythonResponse::ProtocolVersion(version) => ResponseView::ProtocolVersion(version@),
            PythonResponse::Snapshot(snapshot) => ResponseView::Snapshot(*snapshot),
            PythonResponse::SearchPaths(paths) => ResponseView::SearchPaths(all_chars(paths@)),
            PythonResponse::Import(uri) => ResponseView::Import(optional_chars(*uri)),
            PythonResponse::Type(answer) => ResponseView::Type(optional_type(*answer)),
            PythonResponse::Locations(found) => ResponseView::Locations(locations_view(found@)),
            PythonResponse::CallHierarchyItems(items) => ResponseView::CallHierarchyItems(
                array_view(items@),
            ),
            PythonResponse::IncomingCalls(calls) => ResponseView::IncomingCalls(calls_view(calls@)),
            PythonResponse::SnapshotStale => ResponseView::SnapshotStale,
            PythonResponse::Unsupported(name) => ResponseView::Unsupported(name@),
            PythonResponse::Delivered => ResponseView::Delivered,
        }
    }
}

/// Why a backend answer could not be read.
#[derive(Debug, Clone, PartialEq, Eq)]
pub struct DecodeError {
    pub method: &'static str,
    pub detail: String,
}

impl DecodeError {
    /// The error in words: the method, a colon, the detail.
    pub fn message(&self) -> (text: String)
        ensures
            text@ == self.method@ + ": "@ + self.detail@,
    {
        joined(joined(self.method, ": ").as_str(), self.detail.as_str())
    }
}

pub open spec fn position_in(value: JsonView) -> Option<Position> {
    match (member(value, "line"@), member(value, "character"@)) {
        (Some(line), Some(character)) => match (unsigned_in(line), unsigned_in(character)) {
            (Some(line), Some(character)) => if line <= u32::MAX && character <= u32::MAX {
                Some(Position { line: line as u32, character: character as u32 })
            } else {
                None
            },
            _ => None,
        },
        _ => None,
    }
}

pub open spec fn range_in(value: JsonView) -> Option<Range> {
    match (member(value, "start"@), member(value, "end"@)) {
        (Some(start), Some(end)) => match (position_in(start), position_in(end)) {
            (Some(start), Some(end)) => Some(Range { start, end }),
            _ => None,
        },
        _ => None,
    }
}

/// The member under the first of the names that the value has.
pub open spec fn either_member(value: JsonView, name: Chars, other: Chars) -> Option<JsonView> {
    match member(value, name) {
        Some(held) => Some(held),
        None => member(value, other),
    }
}

/// A `Location` (`uri`, `range`), or a `LocationLink` (`targetUri`,
/// `targetSelectionRange`, else `targetRange`).
pub open spec fn location_in(value: JsonView) -> Option<LocationView> {
    let uri = match either_member(value, "uri"@, "targetUri"@) {
        Some(held) => text_in(held),
        None => None,
    };
    let range = match member(value, "range"@) {
        Some(held) => range_in(held),
        None => match either_member(value, "targetSelectionRange"@, "targetRange"@) {
            Some(held) => range_in(held),
            None => None,
        },
    };
    match (uri, range) {
        (Some(uri), Some(range)) => Some(LocationView { uri, range }),
        _ => None,
    }
}

/// One location, or the readable ones of an array; anything else holds
/// none.
pub open spec fn locations_in(value: JsonView) -> Seq<LocationView> {
    match value {
        JsonView::Array(items) => items.filter_map(|item: JsonView| location_in(item)),
        JsonView::Object(_) => match location_in(value) {
            Some(location) => seq![location],
            None => Seq::empty(),
        },
        _ => Seq::empty(),
    }
}

/// The type answer in an object that names a declaration or a module; a
/// type with neither says nothing a target can be built from.
pub open spec fn type_in(value: JsonView) -> Option<TypeAnswerView> {
    let declaration = match member(value, "declaration"@) {
        Some(held) => match member(held, "node"@) {
            Some(node) => location_in(node),
            None => None,
        },
        None => None,
    };
    let module_name = member_text(value, "moduleName"@);
    if !(value is Object) || (declaration is None && module_name is None) {
        None
    } else {
        Some(TypeAnswerView { declaration, module_name, module_uri: member_text(value, "uri"@) })
    }
}

pub open spec fn ranges_in(value: JsonView) -> Seq<Range> {
    match items_in(value) {
        Some(items) => items.filter_map(|item: JsonView| range_in(item)),
        None => Seq::empty(),
    }
}

pub open spec fn call_in(value: JsonView) -> Option<IncomingCallView> {
    match member(value, "from"@) {
        Some(held) => match location_in(held) {
            Some(from) => Some(
                IncomingCallView {
                    from,
                    from_ranges: match member(value, "fromRanges"@) {
                        Some(ranges) => ranges_in(ranges),
                        None => Seq::empty(),
                    },
                },
            ),
            None => None,
        },
        None => None,
    }
}

/// What the backend's result for a request says, or why it cannot be read.
pub open spec fn decoded(request: PythonRequest, result: JsonView) -> Result<ResponseView, Chars> {
    match request {
        PythonRequest::ProtocolVersion => match text_in(result) {
            Some(version) => Ok(ResponseView::ProtocolVersion(version)),
            None => Err("expected a version string"@),
        },
        PythonRequest::Snapshot => match unsigned_in(result) {
            Some(snapshot) => Ok(ResponseView::Snapshot(snapshot)),
            None => Err("expected a snapshot number"@),
        },
        PythonRequest::SearchPaths { .. } => Ok(
            ResponseView::SearchPaths(
                match items_in(result) {
                    Some(items) => items.filter_map(|item: JsonView| text_in(item)),
                    None => Seq::empty(),
                },
            ),
        ),
        PythonRequest::ResolveImport { .. } => Ok(ResponseView::Import(text_in(result))),
        PythonRequest::DeclaredType { .. } => Ok(ResponseView::Type(type_in(result))),
        PythonRequest::ComputedType { .. } => Ok(ResponseView::Type(type_in(result))),
        PythonRequest::ExpectedType { .. } => Ok(ResponseView::Type(type_in(result))),
        PythonRequest::Definition { .. } => Ok(ResponseView::Locations(locations_in(result))),
        PythonRequest::Declaration { .. } => Ok(ResponseView::Locations(locations_in(result))),
        PythonRequest::TypeDefinition { .. } => Ok(ResponseView::Locations(locations_in(result))),
        PythonRequest::References { .. } => Ok(ResponseView::Locations(locations_in(result))),
        PythonRequest::PrepareCallHierarchy { .. } => Ok(
            ResponseView::CallHierarchyItems(
                match items_in(result) {
                    Some(items) => items,
                    None => Seq::empty(),
                },
            ),
        ),
        PythonRequest::IncomingCalls { .. } => Ok(
            ResponseView::IncomingCalls(
                match items_in(result) {
                    Some(items) => items.filter_map(|item: JsonView| call_in(item)),
                    None => Seq::empty(),
                },
            ),
        ),
        PythonRequest::WatchedFilesChanged { .. } => Ok(ResponseView::Delivered),
    }
}

fn decode_position(value: &Json) -> (found: Option<Position>)
    ensures
        found == position_in(value@),
{
    let line = match value.get("line") {
        Some(held) => held.as_u64(),
        None => None,
    };
    let character = match value.get("character") {
        Some(held) => held.as_u64(),
        None => None,
    };
    match (line, character) {
        (Some(line), Some(character)) => if line <= u32::MAX as u64 && character <= u32::MAX as u64 {
            Some(Position::new(line as u32, character as u32))
        } else {
            None
        },
        _ => None,
    }
}

fn decode_range(value: &Json) -> (found: Option<Range>)
    ensures
        found == range_in(value@),
{
    let start = match value.get("start") {
        Some(held) => decode_position(held),
        None => None,
    };
    let end = match value.get("end") {
        Some(held) => decode_position(held),
        None => None,
    };
    match (start, end) {
        (Some(start), Some(end)) => Some(Range::new(start, end)),
        _ => None,
    }
}

fn decode_location(value: &Json) -> (found: Option<Location>)
    ensures
        optional_location(found) == location_in(value@),
{
    let uri = match value.get("uri") {
        Some(held) => held.as_str(),
        None => match value.get("targetUri") {
            Some(held) => held.as_str(),
            None => None,
        },
    };
    let range = match value.get("range") {
        Some(held) => decode_range(held),
        None => match value.get("targetSelectionRange") {
            Some(held) => decode_range(held),
            None => match value.get("targetRange") {
                Some(held) => decode_range(held),
                None => None,
            },
        },
    };
    match (uri, range) {
        (Some(uri), Some(range)) => Some(Location { uri: uri.clone(), range }),
        _ => None,
    }
}

fn decode_each_location(items: &[Json]) -> (found: Vec<Location>)
    ensures
        locations_view(found@) == array_view(items@).filter_map(
            |item: JsonView| location_in(item),
        ),
{
    let ghost reading = |item: JsonView| location_in(item);
    let ghost all = array_view(items@);
    let mut found: Vec<Location> = Vec::new();
    let mut at: usize = 0;
    assert(locations_view(found@) =~= all.take(0).filter_map(reading));
    while at < items.len()
        invariant
            at <= items@.len(),
            all == array_view(items@),
            reading == (|item: JsonView| location_in(item)),
            locations_view(found@) == all.take(at as int).filter_map(reading),
        decreases items@.len() - at,
    {
        let ghost held = locations_view(found@);
        assert(all[at as int] == items@[at as int]@);
        proof {
            all.lemma_filter_map_take_succ(reading, at as int);
        }
        match decode_location(&items[at]) {
            Some(location) => {
                let ghost seen = location@;
                found.push(location);
                assert(locations_view(found@) =~= held.push(seen));
            },
            None => {},
        }
        at = at + 1;
    }
    assert(all.take(at as int) =~= all);
    found
}

/// `textDocument/definition` may answer one location, an array, or null,
/// and a `LocationLink` instead of a `Location`. All of them are read;
/// anything else contributes nothing rather than a wrong span.
fn decode_locations(result: &Json) -> (found: Vec<Location>)
    ensures
        locations_view(found@) == locations_in(result@),
{
    match result {
        Json::Array(items) => {
            proof {
                crate::json::lemma_array_view(*items);
            }
            decode_each_location(items.as_slice())
        },
        Json::Object(members) => {
            let mut found: Vec<Location> = Vec::new();
            match decode_location(result) {
                Some(location) => {
                    found.push(location);
                },
                None => {},
            }
            proof {
                crate::json::lemma_object_view(*members);
                assert(locations_view(found@) =~= locations_in(result@));
            }
            found
        },
        _ => {
            let found: Vec<Location> = Vec::new();
            assert(locations_view(found@) =~= Seq::empty());
            found
        },
    }
}

fn decode_type(result: &Json) -> (found: Option<TypeAnswer>)
    ensures
        optional_type(found) == type_in(result@),
{
    match result {
        Json::Object(members) => {
            proof {
                crate::json::lemma_object_view(*members);
            }
            let declaration = match result.get("declaration") {
                Some(held) => match held.get("node") {
                    Some(node) => decode_location(node),
                    None => None,
                },
                None => None,
            };
            let module_name = text_member(result, "moduleName");
            let module_uri = text_member(result, "uri");
            if declaration.is_none() && module_name.is_none() {
                return None;
            }
            Some(TypeAnswer { declaration, module_name, module_uri })
        },
        _ => None,
    }
}

fn decode_texts(items: &[Json]) -> (found: Vec<String>)
    ensures
        all_chars(found@) == array_view(items@).filter_map(|item: JsonView| text_in(item)),
{
    let ghost reading = |item: JsonView| text_in(item);
    let ghost all = array_view(items@);
    let mut found: Vec<String> = Vec::new();
    let mut at: usize = 0;
    assert(all_chars(found@) =~= all.take(0).filter_map(reading));
    while at < items.len()
        invariant
            at <= items@.len(),
            all == array_view(items@),
            reading == (|item: JsonView| text_in(item)),
            all_chars(found@) == all.take(at as int).filter_map(reading),
        decreases items@.len() - at,
    {
        let ghost held = all_chars(found@);
        assert(all[at as int] == items@[at as int]@);
        proof {
            all.lemma_filter_map_take_succ(reading, at as int);
        }
        match items[at].as_str() {
            Some(text) => {
                found.push(text.clone());
                assert(all_chars(found@) =~= held.push(text@));
            },
            None => {},
        }
        at = at + 1;
    }
    assert(all.take(at as int) =~= all);
    found
}

fn decode_ranges(items: &[Json]) -> (found: Vec<Range>)
    ensures
        found@ == array_view(items@).filter_map(|item: JsonView| range_in(item)),
{
    let ghost reading = |item: JsonView| range_in(item);
    let ghost all = array_view(items@);
    let mut found: Vec<Range> = Vec::new();
    let mut at: usize = 0;
    assert(found@ =~= all.take(0).filter_map(reading));
    while at < items.len()
        invariant
            at <= items@.len(),
            all == array_view(items@),
            reading == (|item: JsonView| range_in(item)),
            found@ == all.take(at as int).filter_map(reading),
        decreases items@.len() - at,
    {
        assert(all[at as int] == items@[at as int]@);
        proof {
            all.lemma_filter_map_take_succ(reading, at as int);
        }
        match decode_range(&items[at]) {
            Some(range) => {
                found.push(range);
            },
            None => {},
        }
        at = at + 1;
    }
    assert(all.take(at as int) =~= all);
    found
}

pub open spec fn optional_call(call: Option<IncomingCall>) -> Option<IncomingCallView> {
    match call {
        Some(held) => Some(held@),
        None => None,
    }
}

fn decode_call(item: &Json) -> (found: Option<IncomingCall>)
    ensures
        optional_call(found) == call_in(item@),
{
    let from = match item.get("from") {
        Some(held) => decode_location(held),
        None => None,
    };
    match from {
        Some(from) => {
            let from_ranges: Vec<Range> = match item.get("fromRanges") {
                Some(ranges) => match ranges.as_array() {
                    Some(items) => decode_ranges(items.as_slice()),
                    None => Vec::new(),
                },
                None => Vec::new(),
            };
            Some(IncomingCall { from, from_ranges })
        },
        None => None,
    }
}

fn decode_incoming(items: &[Json]) -> (found: Vec<IncomingCall>)
    ensures
        calls_view(found@) == array_view(items@).filter_map(|item: JsonView| call_in(item)),
{
    let ghost reading = |item: JsonView| call_in(item);
    let ghost all = array_view(items@);
    let mut found: Vec<IncomingCall> = Vec::new();
    let mut at: usize = 0;
    assert(calls_view(found@) =~= all.take(0).filter_map(reading));
    while at < items.len()
        invariant
            at <= items@.len(),
            all == array_view(items@),
            reading == (|item: JsonView| call_in(item)),
            calls_view(found@) == all.take(at as int).filter_map(reading),
        decreases items@.len() - at,
    {
        let ghost held = calls_view(found@);
        assert(all[at as int] == items@[at as int]@);
        proof {
            all.lemma_filter_map_take_succ(reading, at as int);
        }
        match decode_call(&items[at]) {
            Some(call) => {
                let ghost seen = call@;
                found.push(call);
                assert(calls_view(found@) =~= held.push(seen));
            },
            None => {},
        }
        at = at + 1;
    }
    assert(all.take(at as int) =~= all);
    found
}

fn copy_items(items: &[Json]) -> (copies: Vec<Json>)
    ensures
        array_view(copies@) == array_view(items@),
{
    let mut copies: Vec<Json> = Vec::new();
    let mut at: usize = 0;
    while at < items.len()
        invariant
            at <= items@.len(),
            copies@.len() == at,
            forall|i: int| 0 <= i < at ==> (#[trigger] copies@[i])@ == items@[i]@,
        decreases items@.len() - at,
    {
        copies.push(items[at].clone());
        at = at + 1;
    }
    assert(array_view(copies@) =~= array_view(items@));
    copies
}

impl PythonRequest {
    /// Read the backend's result for this request.
    pub fn decode(&self, result: &Json) -> (answer: Result<PythonResponse, DecodeError>)
        ensures
            answer matches Ok(response) ==> decoded(*self, result@) == Ok::<ResponseView, Chars>(
                response@,
            ),
            answer matches Err(error) ==> error.method@ == wire_method(*self) && decoded(
                *self,
                result@,
            ) == Err::<ResponseView, Chars>(error.detail@),
    {
        match self {
            PythonRequest::ProtocolVersion => match result.as_str() {
                Some(version) => Ok(PythonResponse::ProtocolVersion(version.clone())),
                None => Err(
                    DecodeError {
                        method: method::PROTOCOL_VERSION,
                        detail: "expected a version string".to_owned(),
                    },
                ),
            },
            PythonRequest::Snapshot => match result.as_u64() {
                Some(snapshot) => Ok(PythonResponse::Snapshot(snapshot)),
                None => Err(
                    DecodeError {
                        method: method::SNAPSHOT,
                        detail: "expected a snapshot number".to_owned(),
                    },
                ),
            },
            PythonRequest::SearchPaths { .. } => {
                let paths: Vec<String> = match result.as_array() {
                    Some(items) => decode_texts(items.as_slice()),
                    None => Vec::new(),
                };
                assert(items_in(result@) is None ==> all_chars(paths@) =~= Seq::empty());
                Ok(PythonResponse::SearchPaths(paths))
            },
            PythonRequest::ResolveImport { .. } => {
                let uri = match result.as_str() {
                    Some(text) => Some(text.clone()),
                    None => None,
                };
                Ok(PythonResponse::Import(uri))
            },
            PythonRequest::DeclaredType { .. } => Ok(PythonResponse::Type(decode_type(result))),
            PythonRequest::ComputedType { .. } => Ok(PythonResponse::Type(decode_type(result))),
            PythonRequest::ExpectedType { .. } => Ok(PythonResponse::Type(decode_type(result))),
            PythonRequest::Definition { .. } => Ok(
                PythonResponse::Locations(decode_locations(result)),
            ),
            PythonRequest::Declaration { .. } => Ok(
                PythonResponse::Locations(decode_locations(result)),
            ),
            PythonRequest::TypeDefinition { .. } => Ok(
                PythonResponse::Locations(decode_locations(result)),
            ),
            PythonRequest::References { .. } => Ok(
                PythonResponse::Locations(decode_locations(result)),
            ),
            PythonRequest::PrepareCallHierarchy { .. } => {
                let items: Vec<Json> = match result.as_array() {
                    Some(items) => copy_items(items.as_slice()),
                    None => Vec::new(),
                };
                assert(items_in(result@) is None ==> array_view(items@) =~= Seq::empty());
                Ok(PythonResponse::CallHierarchyItems(items))
            },
            PythonRequest::IncomingCalls { .. } => {
                let calls: Vec<IncomingCall> = match result.as_array() {
                    Some(items) => decode_incoming(items.as_slice()),
                    None => Vec::new(),
                };
                assert(items_in(result@) is None ==> calls_view(calls@) =~= Seq::empty());
                Ok(PythonResponse::IncomingCalls(calls))
            },
            PythonRequest::WatchedFilesChanged { .. } => Ok(PythonResponse::Delivered),
        }
    }
}

} // verus!
