//! One live backend: what it is told of the configuration, and how its
//! replies are read.

use vstd::prelude::*;

use crate::fingerprint::{pairs_view, Fields};
use crate::json::{
    array_view, empty_object, items_in, json_text, json_texts, lemma_array_view, member,
    member_text, text_member, texts_array, with_member, Json, JsonView, ObjectBuilder,
};
use crate::python_semantic::method;
use crate::python_semantic::protocol::{
    decoded, wire_method, wire_params, ProtocolCompatibility, PythonRequest, PythonResponse,
    METHOD_NOT_FOUND, SERVER_CANCELLED,
};
use crate::runtime::{HostConcurrency, HostError, HostHealth};
use crate::text::{
    all_chars, chars_or_empty, copy_optional, join, join_texts, lemma_sorting,
    lemma_sorting_exists, or_empty, same_text, sorted_texts, sorting, Chars,
};

verus! {

// ---------------------------------------------------------------------
// Configuration
// ---------------------------------------------------------------------

/// What is answered when the backend asks for configuration.
///
/// Deterministic and small on purpose: the answer comes from project
/// settings and never from a developer's editor. Anything not set is
/// simply absent, which lets the configuration on disk stay the source of
/// truth for the rest.
#[derive(Debug, PartialEq, Eq)]
pub struct PythonSettings {
    /// The interpreter, as a locator.
    pub python_path: Option<String>,
    pub venv_path: Option<String>,
    /// Extra import roots, relative to the project root.
    pub extra_paths: Vec<String>,
    pub type_checking_mode: Option<String>,
}

impl Default for PythonSettings {
    fn default() -> (settings: Self)
        ensures
            settings.python_path is None,
            settings.venv_path is None,
            settings.extra_paths@.len() == 0,
            settings.type_checking_mode is None,
    {
        PythonSettings {
            python_path: None,
            venv_path: None,
            extra_paths: Vec::new(),
            type_checking_mode: None,
        }
    }
}

fn copy_texts(texts: &[String]) -> (copies: Vec<String>)
    ensures
        copies@ == texts@,
{
    let mut copies: Vec<String> = Vec::new();
    let mut at: usize = 0;
    while at < texts.len()
        invariant
            at <= texts@.len(),
            copies@ == texts@.take(at as int),
        decreases texts@.len() - at,
    {
        copies.push(texts[at].clone());
        assert(texts@.take(at + 1) =~= texts@.take(at as int).push(texts@[at as int]));
        at = at + 1;
    }
    assert(texts@.take(at as int) =~= texts@);
    copies
}

impl Clone for PythonSettings {
    fn clone(&self) -> (copy: Self)
        ensures
            copy.python_path == self.python_path,
            copy.venv_path == self.venv_path,
            copy.extra_paths@ == self.extra_paths@,
            copy.type_checking_mode == self.type_checking_mode,
    {
        PythonSettings {
            python_path: copy_optional(&self.python_path),
            venv_path: copy_optional(&self.venv_path),
            extra_paths: copy_texts(self.extra_paths.as_slice()),
            type_checking_mode: copy_optional(&self.type_checking_mode),
        }
    }
}

/// What the settings contribute to a configuration basis, in the order of
/// the names.
pub open spec fn settings_inputs(settings: PythonSettings) -> Fields {
    seq![
        ("extra_paths"@, join(sorting(all_chars(settings.extra_paths@)), "\u{1f}"@)),
        ("python_path"@, chars_or_empty(settings.python_path)),
        ("type_checking_mode"@, chars_or_empty(settings.type_checking_mode)),
        ("venv_path"@, chars_or_empty(settings.venv_path)),
    ]
}

/// The order in which extra import roots are listed is no input.
pub proof fn lemma_root_order_is_no_input(a: PythonSettings, b: PythonSettings)
    requires
        a.python_path == b.python_path,
        a.venv_path == b.venv_path,
        a.type_checking_mode == b.type_checking_mode,
        all_chars(a.extra_paths@).to_multiset() == all_chars(b.extra_paths@).to_multiset(),
    ensures
        settings_inputs(a) == settings_inputs(b),
{
    let sorted = sorting(all_chars(a.extra_paths@));
    lemma_sorting_exists(all_chars(a.extra_paths@));
    lemma_sorting(sorted, all_chars(b.extra_paths@));
}

/// An object with a text member where the text is there.
pub open spec fn with_optional(object: JsonView, name: Chars, text: Option<String>) -> JsonView {
    match text {
        Some(held) => with_member(object, name, JsonView::Text(held@)),
        None => object,
    }
}

/// The value of one configuration section. An unknown section is `null`:
/// the client has no value for it.
pub open spec fn section_view(settings: PythonSettings, section: Chars) -> JsonView {
    if section == "python"@ {
        with_optional(
            with_optional(empty_object(), "pythonPath"@, settings.python_path),
            "venvPath"@,
            settings.venv_path,
        )
    } else if section == "python.analysis"@ {
        with_optional(
            if settings.extra_paths@.len() > 0 {
                with_member(
                    empty_object(),
                    "extraPaths"@,
                    texts_array(all_chars(settings.extra_paths@)),
                )
            } else {
                empty_object()
            },
            "typeCheckingMode"@,
            settings.type_checking_mode,
        )
    } else if section == "pyright"@ {
        empty_object()
    } else {
        JsonView::Null
    }
}

fn add_optional(builder: ObjectBuilder, name: &str, text: &Option<String>) -> (after: ObjectBuilder)
    ensures
        after@ == with_optional(builder@, name@, *text),
{
    match text {
        Some(held) => builder.with(name, json_text(held.as_str())),
        None => builder,
    }
}

impl PythonSettings {
    /// What the settings contribute to a configuration basis: sorted and
    /// fully spelled out, so adding a path or changing the interpreter
    /// moves the fingerprint.
    pub fn basis_inputs(&self) -> (inputs: Vec<(String, String)>)
        ensures
            pairs_view(inputs@) == settings_inputs(*self),
    {
        let sorted = sorted_texts(self.extra_paths.as_slice());
        proof {
            lemma_sorting(all_chars(sorted@), all_chars(self.extra_paths@));
        }
        let extra = join_texts(sorted.as_slice(), "\u{1f}");
        let mut inputs: Vec<(String, String)> = Vec::new();
        inputs.push(("extra_paths".to_owned(), extra));
        inputs.push(("python_path".to_owned(), or_empty(&self.python_path)));
        inputs.push(("type_checking_mode".to_owned(), or_empty(&self.type_checking_mode)));
        inputs.push(("venv_path".to_owned(), or_empty(&self.venv_path)));
        assert(pairs_view(inputs@) =~= settings_inputs(*self));
        inputs
    }

    /// The value of one configuration section.
    pub fn section(&self, section: &str) -> (value: Json)
        ensures
            value@ == section_view(*self, section@),
    {
        if same_text(section, "python") {
            let builder = add_optional(ObjectBuilder::new(), "pythonPath", &self.python_path);
            add_optional(builder, "venvPath", &self.venv_path).build()
        } else if same_text(section, "python.analysis") {
            let builder = if self.extra_paths.len() > 0 {
                ObjectBuilder::new().with("extraPaths", json_texts(self.extra_paths.as_slice()))
            } else {
                ObjectBuilder::new()
            };
            add_optional(builder, "typeCheckingMode", &self.type_checking_mode).build()
        } else if same_text(section, "pyright") {
            ObjectBuilder::new().build()
        } else {
            Json::Null
        }
    }
}

/// Which section a configuration item asks for.
pub open spec fn asked_section(item: JsonView) -> Chars {
    match member_text(item, "section"@) {
        Some(section) => section,
        None => Seq::empty(),
    }
}

/// The items of a configuration request.
pub open spec fn configuration_items(params: JsonView) -> Seq<JsonView> {
    match member(params, "items"@) {
        Some(items) => match items_in(items) {
            Some(held) => held,
            None => Seq::empty(),
        },
        None => Seq::empty(),
    }
}

/// What a request of the backend is answered: one value for each
/// configuration item, nothing but consent for a registration, and no
/// answer at all to anything else.
pub open spec fn client_answer(
    settings: PythonSettings,
    requested: Chars,
    params: JsonView,
) -> Option<JsonView> {
    if requested == method::CONFIGURATION@ {
        Some(
            JsonView::Array(
                configuration_items(params).map_values(
                    |item: JsonView| section_view(settings, asked_section(item)),
                ),
            ),
        )
    } else if requested == method::REGISTER_CAPABILITY@ || requested
        == method::UNREGISTER_CAPABILITY@ {
        Some(JsonView::Null)
    } else {
        None
    }
}

/// Answers the backend's requests and counts its snapshot notifications.
#[derive(Debug)]
pub struct ClientHandler {
    settings: PythonSettings,
    snapshot_changes: u64,
}

impl ClientHandler {
    pub closed spec fn settings(&self) -> PythonSettings {
        self.settings
    }

    /// How many snapshot notifications have arrived.
    pub closed spec fn changes(&self) -> u64 {
        self.snapshot_changes
    }

    pub fn new(settings: PythonSettings) -> (handler: Self)
        ensures
            handler.settings() == settings,
            handler.changes() == 0,
    {
        ClientHandler { settings, snapshot_changes: 0 }
    }

    fn sections(&self, items: &[Json]) -> (values: Json)
        ensures
            values@ == JsonView::Array(
                array_view(items@).map_values(
                    |item: JsonView| section_view(self.settings(), asked_section(item)),
                ),
            ),
    {
        let mut values: Vec<Json> = Vec::new();
        let mut at: usize = 0;
        while at < items.len()
            invariant
                at <= items@.len(),
                values@.len() == at,
                forall|i: int|
                    0 <= i < at ==> (#[trigger] values@[i])@ == section_view(
                        self.settings(),
                        asked_section(items@[i]@),
                    ),
            decreases items@.len() - at,
        {
            let section = or_empty(&text_member(&items[at], "section"));
            values.push(self.settings.section(section.as_str()));
            at = at + 1;
        }
        proof {
            lemma_array_view(values);
            assert(array_view(values@) =~= array_view(items@).map_values(
                |item: JsonView| section_view(self.settings(), asked_section(item)),
            ));
        }
        Json::Array(values)
    }

    /// Answer a request of the backend. Dynamic registration is accepted so
    /// that its file watcher registers; anything unknown is declined rather
    /// than answered.
    pub fn request(&self, requested: &str, params: &Json) -> (answer: Option<Json>)
        ensures
            answer is Some == client_answer(self.settings(), requested@, params@) is Some,
            answer matches Some(value) ==> client_answer(self.settings(), requested@, params@)
                == Some(value@),
    {
        if same_text(requested, method::CONFIGURATION) {
            let nothing: Vec<Json> = Vec::new();
            match params.get("items") {
                Some(held) => match held.as_array() {
                    Some(items) => Some(self.sections(items.as_slice())),
                    None => {
                        assert(array_view(nothing@) =~= Seq::empty());
                        Some(self.sections(nothing.as_slice()))
                    },
                },
                None => {
                    assert(array_view(nothing@) =~= Seq::empty());
                    Some(self.sections(nothing.as_slice()))
                },
            }
        } else if same_text(requested, method::REGISTER_CAPABILITY) || same_text(
            requested,
            method::UNREGISTER_CAPABILITY,
        ) {
            Some(Json::Null)
        } else {
            None
        }
    }

    /// Take note of a notification of the backend. A snapshot change is an
    /// invalidation signal only: it is counted, and publishes nothing.
    pub fn notification(&mut self, notified: &str, _params: &Json)
        ensures
            final(self).settings() == old(self).settings(),
            final(self).changes() == if notified@ == method::SNAPSHOT_CHANGED@ {
                old(self).changes().wrapping_add(1)
            } else {
                old(self).changes()
            },
    {
        if same_text(notified, method::SNAPSHOT_CHANGED) {
            self.snapshot_changes = self.snapshot_changes.wrapping_add(1);
        }
    }

    pub fn snapshot_changes(&self) -> (count: u64)
        ensures
            count == self.changes(),
    {
        self.snapshot_changes
    }
}

// ---------------------------------------------------------------------
// Host
// ---------------------------------------------------------------------

/// What came back for a request on the wire.
#[derive(Debug, PartialEq, Eq)]
pub enum RpcReply {
    Answered(Json),
    /// The backend answered with an error of its own.
    Refused { code: i64, text: String },
    /// The request did not get through, or got no answer.
    Failed { text: String },
}

/// What a reply to a request means.
///
/// A stale snapshot is an answer about currentness and not a failure; an
/// unimplemented method is a capability fact and not zero findings.
pub open spec fn reply_means(
    request: PythonRequest,
    reply: RpcReply,
    answer: Result<PythonResponse, HostError>,
) -> bool {
    match reply {
        RpcReply::Answered(result) => match decoded(request, result@) {
            Ok(response) => answer matches Ok(held) && held@ == response,
            Err(detail) => answer is Err && answer->Err_0.message@ == wire_method(request) + ": "@
                + detail,
        },
        RpcReply::Refused { code, text } => if code == SERVER_CANCELLED {
            answer == Ok::<PythonResponse, HostError>(PythonResponse::SnapshotStale)
        } else if code == METHOD_NOT_FOUND {
            answer matches Ok(PythonResponse::Unsupported(name)) && name@ == wire_method(request)
        } else {
            answer is Err && answer->Err_0.message == text
        },
        RpcReply::Failed { text } => answer is Err && answer->Err_0.message == text,
    }
}

/// What a reply to a request means.
pub fn read_reply(request: &PythonRequest, reply: RpcReply) -> (answer: Result<
    PythonResponse,
    HostError,
>)
    ensures
        reply_means(*request, reply, answer),
{
    match reply {
        RpcReply::Answered(result) => match request.decode(&result) {
            Ok(response) => Ok(response),
            Err(error) => Err(HostError { message: error.message() }),
        },
        RpcReply::Refused { code, text } => if code == SERVER_CANCELLED {
            Ok(PythonResponse::SnapshotStale)
        } else if code == METHOD_NOT_FOUND {
            let (wire, _) = request.wire();
            Ok(PythonResponse::Unsupported(wire.to_owned()))
        } else {
            Err(HostError { message: text })
        },
        RpcReply::Failed { text } => Err(HostError { message: text }),
    }
}

/// What a delivered notification means: there is nothing to wait for.
pub fn read_delivery(delivery: Result<(), String>) -> (answer: Result<PythonResponse, HostError>)
    ensures
        delivery is Ok ==> answer == Ok::<PythonResponse, HostError>(PythonResponse::Delivered),
        delivery matches Err(text) ==> answer is Err && answer->Err_0.message == text,
{
    match delivery {
        Ok(()) => Ok(PythonResponse::Delivered),
        Err(text) => Err(HostError { message: text }),
    }
}

/// What to do next while a backend is shutting down.
#[derive(Debug, Clone, Copy, PartialEq, Eq, Structural)]
pub enum ExitStep {
    /// It is gone, or can no longer be watched.
    Done,
    Kill,
    Wait,
}

/// How long a graceful exit is given before the process is killed, in
/// milliseconds.
pub const EXIT_GRACE_MS: u64 = 2000;

/// What to do next while a backend is shutting down, given whether it is
/// still running and how long it has been given.
pub fn exit_step(running: bool, waited_ms: u64) -> (step: ExitStep)
    ensures
        step == if !running {
            ExitStep::Done
        } else if waited_ms >= EXIT_GRACE_MS {
            ExitStep::Kill
        } else {
            ExitStep::Wait
        },
{
    if !running {
        ExitStep::Done
    } else if waited_ms >= EXIT_GRACE_MS {
        ExitStep::Kill
    } else {
        ExitStep::Wait
    }
}

/// A connection to a backend: every method that was put on it, in order.
#[derive(Debug)]
pub struct Connection {
    sent: Vec<String>,
}

impl Connection {
    /// Every method that was put on the wire.
    pub closed spec fn sent(&self) -> Seq<Chars> {
        all_chars(self.sent@)
    }

    /// A connection that nothing was put on yet.
    pub fn new() -> (connection: Self)
        ensures
            connection.sent() == Seq::<Chars>::empty(),
    {
        let connection = Connection { sent: Vec::new() };
        assert(all_chars(connection.sent@) =~= Seq::empty());
        connection
    }

    /// Take note of a method that goes on the wire.
    pub fn put(&mut self, method: &str)
        ensures
            final(self).sent() == old(self).sent().push(method@),
    {
        let ghost held = all_chars(self.sent@);
        self.sent.push(method.to_owned());
        assert(all_chars(self.sent@) =~= held.push(method@));
    }

    /// Begin to ask a typed question: what goes on the wire for it.
    pub fn begin(&mut self, request: &PythonRequest) -> (rendered: (&'static str, Option<Json>))
        ensures
            rendered.0@ == wire_method(*request),
            rendered.1 is Some == wire_params(*request) is Some,
            rendered.1 matches Some(params) ==> wire_params(*request) == Some(params@),
            final(self).sent() == old(self).sent().push(wire_method(*request)),
    {
        let rendered = request.wire();
        self.put(rendered.0);
        rendered
    }
}

/// What is known of one live backend.
#[derive(Debug)]
pub struct PyrightHost {
    connection: Connection,
    protocol_version: String,
    compatibility: ProtocolCompatibility,
    stopped: bool,
}

impl PyrightHost {
    /// The protocol version that the backend reported at startup.
    pub closed spec fn version(&self) -> Chars {
        self.protocol_version@
    }

    pub closed spec fn class(&self) -> ProtocolCompatibility {
        self.compatibility
    }

    /// Every method that was put on the wire, those before the host was made
    /// among them.
    pub closed spec fn sent(&self) -> Seq<Chars> {
        self.connection.sent()
    }

    pub closed spec fn is_stopped(&self) -> bool {
        self.stopped
    }

    /// The host over a connection that hands were shaken on.
    pub fn new(
        connection: Connection,
        protocol_version: String,
        compatibility: ProtocolCompatibility,
    ) -> (host: Self)
        ensures
            host.version() == protocol_version@,
            host.class() == compatibility,
            host.sent() == connection.sent(),
            !host.is_stopped(),
    {
        PyrightHost { connection, protocol_version, compatibility, stopped: false }
    }

    pub fn protocol_version(&self) -> (version: &str)
        ensures
            version@ == self.version(),
    {
        self.protocol_version.as_str()
    }

    pub fn compatibility(&self) -> (compatibility: ProtocolCompatibility)
        ensures
            compatibility == self.class(),
    {
        self.compatibility
    }

    pub fn sent_methods(&self) -> (methods: &Vec<String>)
        ensures
            all_chars(methods@) == self.sent(),
    {
        &self.connection.sent
    }

    /// Begin to ask a typed question: what goes on the wire for it.
    pub fn begin(&mut self, request: &PythonRequest) -> (rendered: (&'static str, Option<Json>))
        ensures
            rendered.0@ == wire_method(*request),
            rendered.1 is Some == wire_params(*request) is Some,
            rendered.1 matches Some(params) ==> wire_params(*request) == Some(params@),
            final(self).sent() == old(self).sent().push(wire_method(*request)),
            final(self).version() == old(self).version(),
            final(self).class() == old(self).class(),
            final(self).is_stopped() == old(self).is_stopped(),
    {
        self.connection.begin(request)
    }

    /// Whether the backend is still alive, given whether its connection is
    /// open and whether its process has exited.
    pub fn health(&self, open: bool, child_gone: bool) -> (health: HostHealth)
        ensures
            health == if self.is_stopped() || !open || child_gone {
                HostHealth::Crashed
            } else {
                HostHealth::Healthy
            },
    {
        if self.stopped || !open || child_gone {
            HostHealth::Crashed
        } else {
            HostHealth::Healthy
        }
    }

    /// Begin to shut down. Only the first call says that there is anything
    /// to do: the backend is asked to shut down, and then told to exit.
    pub fn shutdown(&mut self) -> (first: bool)
        ensures
            first == !old(self).is_stopped(),
            final(self).is_stopped(),
            final(self).sent() == if first {
                old(self).sent().push(method::SHUTDOWN@).push(method::EXIT@)
            } else {
                old(self).sent()
            },
            final(self).version() == old(self).version(),
            final(self).class() == old(self).class(),
    {
        let first = !self.stopped;
        self.stopped = true;
        if first {
            self.connection.put(method::SHUTDOWN);
            self.connection.put(method::EXIT);
        }
        first
    }

    /// One connection, and one request at a time on it.
    pub fn concurrency(&self) -> (concurrency: HostConcurrency)
        ensures
            concurrency == HostConcurrency::Serial,
    {
        HostConcurrency::Serial
    }
}

} // verus!
