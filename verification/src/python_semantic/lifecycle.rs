//! Wiring the Python semantic tier to the Workspace lifecycle: which
//! owners a change affects, what the backend is told, and what becomes of
//! each publication.
//!
//! A contribution that points at relations which a structural replacement
//! is about to remove has to be withdrawn before that replacement runs.
//! Every step works with no backend at all: the structural answer stays
//! current, and a stale semantic answer is never served as current.

use vstd::prelude::*;

use crate::model::{
    Resource, ResourceId, ResourceKind, ResourceLanguage, ResourceRole, ResourceState,
};
use crate::paths::{join_path, path_join};
use crate::python_semantic::environment::EnvironmentIdentity;
use crate::python_semantic::host::PythonSettings;
use crate::python_semantic::normalize::{
    active_by_key, find_active, find_text, text_of_resource, SourceText,
};
use crate::python_semantic::protocol::{WatchedChange, WatchedChangeKind};
use crate::python_semantic::refresh::{
    content_identity, content_of, governing_inputs, with_governing_inputs, MergeOutcome,
    PythonSemanticError, RefreshOutcome,
};
use crate::python_semantic::uri::{path_to_uri, uri_of_path};
use crate::runtime::RuntimeState;
use crate::semantic::{AnalysisContext, CapabilityReport, Support};
use crate::semantic_index::{
    add_owner, depending, in_context, in_owner_order, lemma_marking_is_local,
    lemma_marking_settles, lemma_revalidating_is_local, marked, owners_view, settled, status_in, with_mark, with_revalidation,
    ConfigBasis, CurrentInputs, OwnerView, RowView, SemanticIndex, SemanticOwner, SemanticState,
    SemanticStatus, StatusView, BACKEND_UNAVAILABLE_CODE, CONFIG_CHANGED_CODE,
};
use crate::text::{
    after_last, all_chars, characters_of, copy_optional, is_before, joined, last_piece,
    lemma_text_order_is_total, optional_chars, same_text, split, split_text, text_before,
    text_starts_with, trim_text, trimmed, Chars,
};

verus! {

// ---------------------------------------------------------------------
// Configuration discovery
// ---------------------------------------------------------------------

/// Which file decides what the backend analyzes.
///
/// The backend's own precedence, not a merge of the two: a
/// `pyrightconfig.json` at the project root wins outright, and a
/// `pyproject.toml` counts only when it carries a `[tool.pyright]` table.
#[derive(Debug, Clone, Copy, PartialEq, Eq, Structural)]
pub enum ConfigSource {
    PyrightConfig,
    PyProject,
    /// Neither file selects the project; the backend uses its defaults.
    Defaults,
}

pub open spec fn source_name(source: ConfigSource) -> Chars {
    match source {
        ConfigSource::PyrightConfig => "PYRIGHTCONFIG_JSON"@,
        ConfigSource::PyProject => "PYPROJECT_TOML"@,
        ConfigSource::Defaults => "DEFAULTS"@,
    }
}

impl ConfigSource {
    pub fn as_str(self) -> (name: &'static str)
        ensures
            name@ == source_name(self),
    {
        match self {
            ConfigSource::PyrightConfig => "PYRIGHTCONFIG_JSON",
            ConfigSource::PyProject => "PYPROJECT_TOML",
            ConfigSource::Defaults => "DEFAULTS",
        }
    }
}

/// The configuration that a context is analyzed under.
#[derive(Debug, PartialEq, Eq)]
pub struct PythonProjectConfig {
    pub source: ConfigSource,
    /// The Resource that decides it, when a file does.
    pub resource: Option<Resource>,
}

pub open spec fn config_path(resource: Option<Resource>) -> Chars {
    match resource {
        Some(held) => held.path_key@,
        None => Seq::empty(),
    }
}

pub open spec fn config_content(resource: Option<Resource>) -> Chars {
    match resource {
        Some(held) => content_identity(Some(&held)),
        None => Seq::empty(),
    }
}

impl PythonProjectConfig {
    /// What this configuration contributes to a basis. The selected source
    /// is part of it: which file governs is a different basis even where no
    /// file's bytes changed.
    pub fn basis(&self, settings: &PythonSettings) -> (basis: ConfigBasis)
        ensures
            basis.inputs() == seq![
                ("config_source"@, source_name(self.source)),
                ("config_content"@, config_content(self.resource)),
                ("config_path"@, config_path(self.resource)),
            ] + governing_inputs(*settings),
    {
        let content = content_of(self.resource.as_ref());
        let path = match &self.resource {
            Some(held) => held.path_key.clone(),
            None => String::new(),
        };
        let start = ConfigBasis::new().with("config_source", self.source.as_str()).with(
            "config_content",
            content.as_str(),
        ).with("config_path", path.as_str());
        assert(start.inputs() =~= seq![
            ("config_source"@, source_name(self.source)),
            ("config_content"@, config_content(self.resource)),
            ("config_path"@, config_path(self.resource)),
        ]);
        with_governing_inputs(start, settings)
    }
}

/// The file names that the backend reads, in its own precedence order.
pub const CONFIG_FILE_NAMES: [(&'static str, ConfigSource); 2] = [
    ("pyrightconfig.json", ConfigSource::PyrightConfig),
    ("pyproject.toml", ConfigSource::PyProject),
];

/// The key of a file at the project root.
pub open spec fn key_at_root(project_root_rel: Chars, name: Chars) -> Chars {
    if project_root_rel.len() == 0 || project_root_rel == "."@ {
        name
    } else {
        project_root_rel + "/"@ + name
    }
}

/// Whether a line starts a table of the backend's own.
pub open spec fn names_pyright(line: Chars) -> bool {
    trimmed(line) == "[tool.pyright]"@ || "[tool.pyright."@.is_prefix_of(trimmed(line))
}

/// Whether a `pyproject.toml` configures the backend at all.
pub open spec fn declares_pyright_in(text: Chars) -> bool {
    exists|i: int| 0 <= i < split(text, '\n').len() && names_pyright(#[trigger] split(text, '\n')[i])
}

/// The row that a configuration file is held as: what identifies it and
/// its content, and nothing else of it.
pub open spec fn config_row(resource: Resource) -> Resource {
    Resource {
        kind: ResourceKind::File,
        role: ResourceRole::Config,
        language: None,
        size_bytes: 0,
        mtime_ns: 0,
        state: ResourceState::Active,
        generated_kind: None,
        container_resource_id: None,
        ..resource
    }
}

/// The configuration that the launched backend will actually use. Only
/// Resources of the Workspace count, and only at the project root.
pub open spec fn discovered(
    resources: Seq<Resource>,
    texts: Seq<SourceText>,
    project_root_rel: Chars,
) -> (ConfigSource, Option<Resource>) {
    match active_by_key(resources, key_at_root(project_root_rel, "pyrightconfig.json"@)) {
        Some(resource) => (ConfigSource::PyrightConfig, Some(config_row(resource))),
        None => match active_by_key(resources, key_at_root(project_root_rel, "pyproject.toml"@)) {
            Some(resource) => match text_of_resource(texts, resource.id) {
                Some(text) => if declares_pyright_in(text) {
                    (ConfigSource::PyProject, Some(config_row(resource)))
                } else {
                    (ConfigSource::Defaults, None)
                },
                None => (ConfigSource::Defaults, None),
            },
            None => (ConfigSource::Defaults, None),
        },
    }
}

fn root_key(project_root_rel: &str, name: &str) -> (key: String)
    ensures
        key@ == key_at_root(project_root_rel@, name@),
{
    if project_root_rel.is_empty() || same_text(project_root_rel, ".") {
        name.to_owned()
    } else {
        joined(joined(project_root_rel, "/").as_str(), name)
    }
}

/// Whether a `pyproject.toml` configures the backend at all.
pub fn declares_pyright(text: &str) -> (held: bool)
    ensures
        held == declares_pyright_in(text@),
{
    let characters = characters_of(text);
    let lines = split_text(characters.as_slice(), '\n');
    let ghost all = all_chars(lines@);
    let mut at: usize = 0;
    while at < lines.len()
        invariant
            at <= lines@.len(),
            all == all_chars(lines@),
            all == split(text@, '\n'),
            forall|i: int| 0 <= i < at ==> !names_pyright(#[trigger] all[i]),
        decreases lines@.len() - at,
    {
        assert(all[at as int] == lines@[at as int]@);
        let line = trim_text(lines[at].as_str());
        if same_text(line.as_str(), "[tool.pyright]") || text_starts_with(
            line.as_str(),
            "[tool.pyright.",
        ) {
            return true;
        }
        at = at + 1;
    }
    false
}

fn as_config_row(resource: &Resource) -> (row: Resource)
    ensures
        row == config_row(*resource),
{
    Resource {
        id: resource.id,
        path_rel: resource.path_rel.clone(),
        path_key: resource.path_key.clone(),
        kind: ResourceKind::File,
        role: ResourceRole::Config,
        language: None,
        size_bytes: 0,
        mtime_ns: 0,
        fingerprint: resource.fingerprint.clone(),
        content_hash: copy_optional(&resource.content_hash),
        state: ResourceState::Active,
        resource_revision: resource.resource_revision.clone(),
        generated_kind: None,
        container_resource_id: None,
    }
}

/// Find the configuration that the launched backend will actually use.
pub fn discover_config(
    resources: &[Resource],
    texts: &[SourceText],
    project_root_rel: &str,
) -> (config: PythonProjectConfig)
    ensures
        (config.source, config.resource) == discovered(resources@, texts@, project_root_rel@),
{
    let pyright = root_key(project_root_rel, "pyrightconfig.json");
    if let Some(resource) = find_active(resources, pyright.as_str()) {
        return PythonProjectConfig {
            source: ConfigSource::PyrightConfig,
            resource: Some(as_config_row(resource)),
        };
    }
    let pyproject = root_key(project_root_rel, "pyproject.toml");
    if let Some(resource) = find_active(resources, pyproject.as_str()) {
        if let Some(text) = find_text(texts, resource.id) {
            if declares_pyright(text) {
                return PythonProjectConfig {
                    source: ConfigSource::PyProject,
                    resource: Some(as_config_row(resource)),
                };
            }
        }
    }
    PythonProjectConfig { source: ConfigSource::Defaults, resource: None }
}

// ---------------------------------------------------------------------
// Change sets
// ---------------------------------------------------------------------

/// What happened to one Resource.
#[derive(Debug, Clone, Copy, PartialEq, Eq, Structural)]
pub enum ChangeKind {
    Added,
    Changed,
    Deleted,
    /// Identity preserved, locator moved.
    Moved,
}

pub open spec fn watched_kind(kind: ChangeKind) -> WatchedChangeKind {
    match kind {
        ChangeKind::Added => WatchedChangeKind::Created,
        ChangeKind::Changed => WatchedChangeKind::Changed,
        ChangeKind::Moved => WatchedChangeKind::Changed,
        ChangeKind::Deleted => WatchedChangeKind::Deleted,
    }
}

/// Whether a change can move a module in or out of the project.
pub open spec fn moves_modules(kind: ChangeKind) -> bool {
    kind == ChangeKind::Added || kind == ChangeKind::Deleted || kind == ChangeKind::Moved
}

impl ChangeKind {
    pub fn watched(self) -> (kind: WatchedChangeKind)
        ensures
            kind == watched_kind(self),
    {
        match self {
            ChangeKind::Added => WatchedChangeKind::Created,
            ChangeKind::Changed => WatchedChangeKind::Changed,
            ChangeKind::Moved => WatchedChangeKind::Changed,
            ChangeKind::Deleted => WatchedChangeKind::Deleted,
        }
    }

    pub fn moves_inventory(self) -> (moves: bool)
        ensures
            moves == moves_modules(self),
    {
        match self {
            ChangeKind::Added => true,
            ChangeKind::Deleted => true,
            ChangeKind::Moved => true,
            ChangeKind::Changed => false,
        }
    }
}

/// One Workspace change.
#[derive(Debug, PartialEq, Eq)]
pub struct ResourceChange {
    pub resource: ResourceId,
    pub kind: ChangeKind,
    /// The current path. For a move, the new one.
    pub path_rel: String,
    /// The path that the Resource used to be at, for a move or a delete.
    pub previous_path_rel: Option<String>,
    pub language: Option<ResourceLanguage>,
}

impl ResourceChange {
    pub fn new(resource: ResourceId, kind: ChangeKind, path_rel: &str) -> (change: Self)
        ensures
            change.resource == resource,
            change.kind == kind,
            change.path_rel@ == path_rel@,
            change.previous_path_rel is None,
            change.language == Some(ResourceLanguage::Python),
    {
        ResourceChange {
            resource,
            kind,
            path_rel: path_rel.to_owned(),
            previous_path_rel: None,
            language: Some(ResourceLanguage::Python),
        }
    }

    pub fn from_previous(self, path_rel: &str) -> (change: Self)
        ensures
            change.resource == self.resource,
            change.kind == self.kind,
            change.path_rel == self.path_rel,
            optional_chars(change.previous_path_rel) == Some(path_rel@),
            change.language == self.language,
    {
        ResourceChange {
            resource: self.resource,
            kind: self.kind,
            path_rel: self.path_rel,
            previous_path_rel: Some(path_rel.to_owned()),
            language: self.language,
        }
    }

    pub fn with_language(self, language: Option<ResourceLanguage>) -> (change: Self)
        ensures
            change == (ResourceChange { language, ..self }),
    {
        ResourceChange {
            resource: self.resource,
            kind: self.kind,
            path_rel: self.path_rel,
            previous_path_rel: self.previous_path_rel,
            language,
        }
    }

    pub fn is_python(&self) -> (python: bool)
        ensures
            python == (self.language == Some(ResourceLanguage::Python)),
    {
        match self.language {
            Some(ResourceLanguage::Python) => true,
            _ => false,
        }
    }
}

/// What one batch of Workspace changes means for one context.
#[derive(Debug, PartialEq, Eq)]
pub struct ChangePlan {
    /// The owner contributions that must stop being current, in order.
    pub affected: Vec<SemanticOwner>,
    /// Whether the module inventory moved, which can change import
    /// resolution for owners that did not change at all.
    pub inventory_moved: bool,
    /// Whether the selected configuration moved.
    pub config_moved: bool,
}

impl ChangePlan {
    pub fn is_empty(&self) -> (empty: bool)
        ensures
            empty == (self.affected@.len() == 0 && !self.inventory_moved && !self.config_moved),
    {
        self.affected.len() == 0 && !self.inventory_moved && !self.config_moved
    }
}

/// Whether a path is one that a configuration file would have.
pub open spec fn config_candidate(path: Chars) -> bool {
    last_piece(path, '/') == "pyrightconfig.json"@ || last_piece(path, '/') == "pyproject.toml"@
}

fn is_config_candidate(path_rel: &str) -> (held: bool)
    ensures
        held == config_candidate(path_rel@),
{
    let name = after_last(path_rel, '/');
    same_text(name.as_str(), "pyrightconfig.json") || same_text(name.as_str(), "pyproject.toml")
}

/// Whether a change is of the selected configuration, or of a file that
/// could be it.
pub open spec fn touches_config(change: ResourceChange, config: PythonProjectConfig) -> bool {
    ||| config.resource matches Some(selected) && selected.id == change.resource
    ||| config_candidate(change.path_rel@)
    ||| change.previous_path_rel matches Some(previous) && config_candidate(previous@)
}

fn is_config_change(change: &ResourceChange, config: &PythonProjectConfig) -> (held: bool)
    ensures
        held == touches_config(*change, *config),
{
    let selected = match &config.resource {
        Some(selected) => selected.id == change.resource,
        None => false,
    };
    let previous = match &change.previous_path_rel {
        Some(previous) => is_config_candidate(previous.as_str()),
        None => false,
    };
    selected || is_config_candidate(change.path_rel.as_str()) || previous
}

/// Whether any of the changes moves the module inventory.
pub open spec fn moves_the_inventory(changes: Seq<ResourceChange>) -> bool {
    exists|i: int|
        0 <= i < changes.len() && (#[trigger] changes[i]).language == Some(
            ResourceLanguage::Python,
        ) && moves_modules(changes[i].kind)
}

/// Whether any of the changes moves the selected configuration.
pub open spec fn moves_the_config(changes: Seq<ResourceChange>, config: PythonProjectConfig) -> bool {
    exists|i: int| 0 <= i < changes.len() && touches_config(#[trigger] changes[i], config)
}

/// Whether an owner's publication depends on a Resource that changed.
pub open spec fn depends_on_change(
    rows: Seq<RowView>,
    changes: Seq<ResourceChange>,
    owner: OwnerView,
) -> bool {
    exists|i: int|
        0 <= i < changes.len() && depending(rows, (#[trigger] changes[i]).resource).contains(owner)
}

/// Whether a change batch invalidates an owner of the context.
///
/// Driven by what was published: a Resource that nobody read invalidates
/// nobody. An inventory or configuration move reaches every owner of the
/// context. A structural replacement also re-resolves every Resource whose
/// relations point into those that changed, so an owner published for one
/// of those dependents is invalidated too.
pub open spec fn is_affected(
    rows: Seq<RowView>,
    context_key: Chars,
    changes: Seq<ResourceChange>,
    config: PythonProjectConfig,
    dependents: Seq<ResourceId>,
    owner: OwnerView,
) -> bool {
    &&& owner.context_key == context_key
    &&& {
        ||| depends_on_change(rows, changes, owner)
        ||| in_context(rows, context_key).contains(owner) && (moves_the_inventory(changes)
            || moves_the_config(changes, config) || dependents.contains(owner.owner))
    }
}

proof fn lemma_take_contains<T>(all: Seq<T>, at: int, item: T)
    requires
        0 <= at < all.len(),
    ensures
        all.take(at + 1).contains(item) <==> all.take(at).contains(item) || item == all[at],
{
    let longer = all.take(at + 1);
    let shorter = all.take(at);
    if shorter.contains(item) {
        let k = choose|k: int| 0 <= k < shorter.len() && shorter[k] == item;
        assert(longer[k] == item);
    }
    if longer.contains(item) {
        let k = choose|k: int| 0 <= k < longer.len() && longer[k] == item;
        if k < at {
            assert(shorter[k] == item);
        }
    }
    assert(longer[at] == all[at]);
}

proof fn lemma_push_contains<T>(all: Seq<T>, last: T, item: T)
    ensures
        all.push(last).contains(item) <==> all.contains(item) || item == last,
{
    let longer = all.push(last);
    assert(longer.take(all.len() as int) =~= all);
    assert(longer.take(all.len() as int + 1) =~= longer);
    lemma_take_contains(longer, all.len() as int, item);
}

fn add_all(owners: &mut Vec<SemanticOwner>, more: &[SemanticOwner], context_key: &str)
    requires
        in_owner_order(owners_view(old(owners)@)),
    ensures
        in_owner_order(owners_view(final(owners)@)),
        forall|owner: OwnerView| #[trigger]
            owners_view(final(owners)@).contains(owner) <==> owners_view(old(owners)@).contains(
                owner,
            ) || (owner.context_key == context_key@ && owners_view(more@).contains(owner)),
{
    let ghost before = owners_view(owners@);
    let ghost all = owners_view(more@);
    let mut at: usize = 0;
    while at < more.len()
        invariant
            at <= more@.len(),
            all == owners_view(more@),
            in_owner_order(owners_view(owners@)),
            forall|owner: OwnerView| #[trigger]
                owners_view(owners@).contains(owner) <==> before.contains(owner) || (
                owner.context_key == context_key@ && all.take(at as int).contains(owner)),
        decreases more@.len() - at,
    {
        let ghost held = owners_view(owners@);
        assert(all[at as int] == more@[at as int]@);
        if same_text(more[at].context_key.as_str(), context_key) {
            add_owner(owners, &more[at]);
        }
        proof {
            let now = owners_view(owners@);
            assert forall|owner: OwnerView| #[trigger] now.contains(owner) <==> before.contains(
                owner,
            ) || (owner.context_key == context_key@ && all.take(at + 1).contains(owner)) by {
                lemma_take_contains(all, at as int, owner);
                assert(held.contains(owner) <==> before.contains(owner) || (owner.context_key
                    == context_key@ && all.take(at as int).contains(owner)));
            }
        }
        at = at + 1;
    }
    assert(all.take(at as int) =~= all);
}

fn holds_resource(resources: &[ResourceId], wanted: ResourceId) -> (held: bool)
    ensures
        held == resources@.contains(wanted),
{
    let mut at: usize = 0;
    while at < resources.len()
        invariant
            at <= resources@.len(),
            forall|k: int| 0 <= k < at ==> resources@[k] != wanted,
        decreases resources@.len() - at,
    {
        if resources[at] == wanted {
            return true;
        }
        at = at + 1;
    }
    false
}

/// Keep those owners whose Resource is among the dependents.
fn dependents_among(owners: &[SemanticOwner], dependents: &[ResourceId]) -> (kept: Vec<
    SemanticOwner,
>)
    ensures
        forall|owner: OwnerView| #[trigger]
            owners_view(kept@).contains(owner) <==> owners_view(owners@).contains(owner)
                && dependents@.contains(owner.owner),
{
    let ghost all = owners_view(owners@);
    let mut kept: Vec<SemanticOwner> = Vec::new();
    let mut at: usize = 0;
    while at < owners.len()
        invariant
            at <= owners@.len(),
            all == owners_view(owners@),
            forall|owner: OwnerView| #[trigger]
                owners_view(kept@).contains(owner) <==> all.take(at as int).contains(owner)
                    && dependents@.contains(owner.owner),
        decreases owners@.len() - at,
    {
        let ghost held = owners_view(kept@);
        assert(all[at as int] == owners@[at as int]@);
        let keeps = holds_resource(dependents, owners[at].owner);
        if keeps {
            kept.push(owners[at].clone());
            assert(owners_view(kept@) =~= held.push(all[at as int]));
        }
        proof {
            let now = owners_view(kept@);
            assert forall|owner: OwnerView| #[trigger] now.contains(owner) <==> all.take(
                at + 1,
            ).contains(owner) && dependents@.contains(owner.owner) by {
                assert(held.contains(owner) <==> all.take(at as int).contains(owner)
                    && dependents@.contains(owner.owner));
                lemma_take_contains(all, at as int, owner);
                lemma_push_contains(held, all[at as int], owner);
            }
        }
        at = at + 1;
    }
    assert(all.take(at as int) =~= all);
    kept
}

/// Which owner contributions a change batch invalidates, given the
/// Resources whose relations point into those that changed.
pub fn plan_changes(
    index: &SemanticIndex,
    context: &AnalysisContext,
    changes: &[ResourceChange],
    config: &PythonProjectConfig,
    dependents: &[ResourceId],
) -> (plan: ChangePlan)
    ensures
        plan.inventory_moved == moves_the_inventory(changes@),
        plan.config_moved == moves_the_config(changes@, *config),
        in_owner_order(owners_view(plan.affected@)),
        forall|owner: OwnerView| #[trigger]
            owners_view(plan.affected@).contains(owner) <==> is_affected(
                index.rows(),
                context.key(),
                changes@,
                *config,
                dependents@,
                owner,
            ),
{
    let context_key = context.context_key();
    let ghost key = context.key();
    let ghost rows = index.rows();
    let mut affected: Vec<SemanticOwner> = Vec::new();
    let mut inventory_moved = false;
    let mut config_moved = false;
    let mut at: usize = 0;
    assert(owners_view(affected@) =~= Seq::empty());
    while at < changes.len()
        invariant
            at <= changes@.len(),
            context_key@ == key,
            rows == index.rows(),
            in_owner_order(owners_view(affected@)),
            inventory_moved == exists|i: int|
                0 <= i < at && (#[trigger] changes@[i]).language == Some(ResourceLanguage::Python)
                    && moves_modules(changes@[i].kind),
            config_moved == exists|i: int|
                0 <= i < at && touches_config(#[trigger] changes@[i], *config),
            forall|owner: OwnerView| #[trigger]
                owners_view(affected@).contains(owner) <==> owner.context_key == key && exists|
                    i: int,
                |
                    0 <= i < at && depending(rows, (#[trigger] changes@[i]).resource).contains(
                        owner,
                    ),
        decreases changes@.len() - at,
    {
        let ghost held = owners_view(affected@);
        let owners = index.owners_depending_on(changes[at].resource);
        add_all(&mut affected, owners.as_slice(), context_key.as_str());
        if changes[at].is_python() && changes[at].kind.moves_inventory() {
            inventory_moved = true;
        }
        if is_config_change(&changes[at], config) {
            config_moved = true;
        }
        proof {
            let now = owners_view(affected@);
            assert forall|owner: OwnerView| #[trigger] now.contains(owner) <==> owner.context_key
                == key && exists|i: int|
                0 <= i < at + 1 && depending(rows, (#[trigger] changes@[i]).resource).contains(
                    owner,
                ) by {
                assert(held.contains(owner) <==> owner.context_key == key && exists|i: int|
                    0 <= i < at && depending(rows, (#[trigger] changes@[i]).resource).contains(
                        owner,
                    ));
                if depending(rows, changes@[at as int].resource).contains(owner) {
                    assert(changes@[at as int].resource == changes@[at as int].resource);
                }
            }
        }
        at = at + 1;
    }
    let published = index.owners_of_context(context_key.as_str());
    let ghost held = owners_view(affected@);
    if inventory_moved || config_moved {
        add_all(&mut affected, published.as_slice(), context_key.as_str());
        proof {
            let now = owners_view(affected@);
            assert forall|owner: OwnerView| #[trigger] now.contains(owner) <==> is_affected(
                rows,
                key,
                changes@,
                *config,
                dependents@,
                owner,
            ) by {
                assert(held.contains(owner) <==> owner.context_key == key && depends_on_change(
                    rows,
                    changes@,
                    owner,
                ));
            }
        }
    } else {
        let more = dependents_among(published.as_slice(), dependents);
        add_all(&mut affected, more.as_slice(), context_key.as_str());
        proof {
            let now = owners_view(affected@);
            assert forall|owner: OwnerView| #[trigger] now.contains(owner) <==> is_affected(
                rows,
                key,
                changes@,
                *config,
                dependents@,
                owner,
            ) by {
                assert(held.contains(owner) <==> owner.context_key == key && depends_on_change(
                    rows,
                    changes@,
                    owner,
                ));
                assert(owners_view(more@).contains(owner) <==> in_context(rows, key).contains(
                    owner,
                ) && dependents@.contains(owner.owner));
            }
        }
    }
    ChangePlan { affected, inventory_moved, config_moved }
}

/// Over no changes, with nothing to re-resolve, no owner is affected.
pub proof fn lemma_no_change_affects_nobody(
    rows: Seq<RowView>,
    context_key: Chars,
    config: PythonProjectConfig,
    owner: OwnerView,
)
    ensures
        !is_affected(rows, context_key, Seq::empty(), config, Seq::empty(), owner),
{
}

/// A module that is added, removed or moved, and any change of the
/// configuration, reaches every owner of the context: modules resolve
/// program-wide, and the configuration is the whole project's.
pub proof fn lemma_program_wide_changes_reach_everyone(
    rows: Seq<RowView>,
    context_key: Chars,
    changes: Seq<ResourceChange>,
    config: PythonProjectConfig,
    dependents: Seq<ResourceId>,
    owner: OwnerView,
)
    requires
        moves_the_inventory(changes) || moves_the_config(changes, config),
        owner.context_key == context_key,
        in_context(rows, context_key).contains(owner),
    ensures
        is_affected(rows, context_key, changes, config, dependents, owner),
{
}

/// Any other change reaches exactly the owners whose publication read a
/// Resource that changed, and those published for a structural dependent.
pub proof fn lemma_other_changes_reach_dependents_only(
    rows: Seq<RowView>,
    context_key: Chars,
    changes: Seq<ResourceChange>,
    config: PythonProjectConfig,
    dependents: Seq<ResourceId>,
    owner: OwnerView,
)
    requires
        !moves_the_inventory(changes),
        !moves_the_config(changes, config),
        owner.context_key == context_key,
    ensures
        is_affected(rows, context_key, changes, config, dependents, owner) <==> depends_on_change(
            rows,
            changes,
            owner,
        ) || (in_context(rows, context_key).contains(owner) && dependents.contains(owner.owner)),
{
}

// ---------------------------------------------------------------------
// Watched-file notification
// ---------------------------------------------------------------------

/// The URI of a path of the Workspace.
pub open spec fn uri_below(root: Chars, path_rel: Chars) -> Chars {
    uri_of_path(path_join(root, path_rel))
}

/// Where a move or a delete left, if that is elsewhere.
pub open spec fn left_behind(change: ResourceChange) -> Option<Chars> {
    match change.previous_path_rel {
        Some(previous) => if previous@ != change.path_rel@ {
            Some(previous@)
        } else {
            None
        },
        None => None,
    }
}

/// What is reported for one URI, once one more change of it is known: a
/// file that was both created and changed in one batch is created once.
pub open spec fn refined(held: WatchedChangeKind, kind: WatchedChangeKind) -> WatchedChangeKind {
    if held == WatchedChangeKind::Changed {
        kind
    } else {
        held
    }
}

/// What is reported, URI by URI. A move is two events, because on the
/// filesystem it is two.
pub open spec fn watched_map(root: Chars, changes: Seq<ResourceChange>) -> Map<
    Chars,
    WatchedChangeKind,
>
    decreases changes.len(),
{
    if changes.len() == 0 {
        Map::empty()
    } else {
        let earlier = watched_map(root, changes.drop_last());
        let change = changes.last();
        let left = match left_behind(change) {
            Some(previous) => earlier.insert(
                uri_below(root, previous),
                WatchedChangeKind::Deleted,
            ),
            None => earlier,
        };
        let uri = uri_below(root, change.path_rel@);
        let kind = watched_kind(change.kind);
        left.insert(
            uri,
            if left.contains_key(uri) {
                refined(left[uri], kind)
            } else {
                kind
            },
        )
    }
}

/// Each URI comes before the next, so that none occurs twice.
pub open spec fn uris_ascend(changes: Seq<WatchedChange>) -> bool {
    forall|i: int, j: int|
        0 <= i < j < changes.len() ==> text_before(changes[i].uri@, changes[j].uri@)
}

/// The changes are the entries of the map, in the order of their URIs.
pub open spec fn lists(changes: Seq<WatchedChange>, map: Map<Chars, WatchedChangeKind>) -> bool {
    &&& uris_ascend(changes)
    &&& forall|i: int|
        0 <= i < changes.len() ==> map.contains_key((#[trigger] changes[i]).uri@)
            && map[changes[i].uri@] == changes[i].kind
    &&& forall|uri: Chars| #[trigger]
        map.contains_key(uri) ==> exists|i: int|
            0 <= i < changes.len() && (#[trigger] changes[i]).uri@ == uri
}

/// Where a URI is listed.
fn find_uri(changes: &[WatchedChange], uri: &str) -> (found: Option<usize>)
    ensures
        found matches Some(at) ==> at < changes@.len() && changes@[at as int].uri@ == uri@,
        found is None ==> forall|i: int|
            0 <= i < changes@.len() ==> (#[trigger] changes@[i]).uri@ != uri@,
{
    let mut at: usize = 0;
    while at < changes.len()
        invariant
            at <= changes@.len(),
            forall|i: int| 0 <= i < at ==> (#[trigger] changes@[i]).uri@ != uri@,
        decreases changes@.len() - at,
    {
        if same_text(changes[at].uri.as_str(), uri) {
            return Some(at);
        }
        at = at + 1;
    }
    None
}

/// List a URI with its kind, in its place.
fn put(changes: &mut Vec<WatchedChange>, uri: String, kind: WatchedChangeKind, Ghost(map): Ghost<
    Map<Chars, WatchedChangeKind>,
>)
    requires
        lists(old(changes)@, map),
    ensures
        lists(final(changes)@, map.insert(uri@, kind)),
{
    let ghost held = changes@;
    let ghost after = map.insert(uri@, kind);
    if let Some(at) = find_uri(changes.as_slice(), uri.as_str()) {
        let row = WatchedChange { uri, kind };
        changes.set(at, row);
        proof {
            assert forall|i: int, j: int| 0 <= i < j < changes@.len() implies text_before(
                changes@[i].uri@,
                changes@[j].uri@,
            ) by {
                assert(text_before(held[i].uri@, held[j].uri@));
            }
            assert forall|i: int| 0 <= i < changes@.len() implies after.contains_key(
                (#[trigger] changes@[i]).uri@,
            ) && after[changes@[i].uri@] == changes@[i].kind by {
                if i != at {
                    assert(changes@[i] == held[i]);
                    if i < at {
                        assert(text_before(held[i].uri@, held[at as int].uri@));
                    } else {
                        assert(text_before(held[at as int].uri@, held[i].uri@));
                    }
                    lemma_text_order_is_total(uri@, uri@, uri@);
                }
            }
            assert forall|other: Chars| #[trigger] after.contains_key(other) implies exists|i: int|
                0 <= i < changes@.len() && (#[trigger] changes@[i]).uri@ == other by {
                if other == uri@ {
                    assert(changes@[at as int].uri@ == other);
                } else {
                    assert(map.contains_key(other));
                    let i = choose|i: int| 0 <= i < held.len() && (#[trigger] held[i]).uri@ == other;
                    assert(changes@[i].uri@ == other);
                }
            }
        }
        return;
    }
    let mut at: usize = changes.len();
    while at > 0 && is_before(uri.as_str(), changes[at - 1].uri.as_str())
        invariant
            at <= changes@.len(),
            changes@ == held,
            uris_ascend(held),
            forall|k: int| at <= k < held.len() ==> text_before(uri@, (#[trigger] held[k]).uri@),
        decreases at,
    {
        at = at - 1;
    }
    let row = WatchedChange { uri, kind };
    changes.insert(at, row);
    proof {
        let now = changes@;
        assert(now == held.insert(at as int, row));
        if at > 0 {
            lemma_text_order_is_total(held[at - 1].uri@, uri@, uri@);
        }
        assert forall|i: int, j: int| 0 <= i < j < now.len() implies text_before(
            now[i].uri@,
            now[j].uri@,
        ) by {
            if j < at {
                assert(text_before(held[i].uri@, held[j].uri@));
            } else if j == at {
                if i < at - 1 {
                    assert(text_before(held[i].uri@, held[at - 1].uri@));
                    lemma_text_order_is_total(held[i].uri@, held[at - 1].uri@, uri@);
                }
            } else if i == at {
                assert(text_before(uri@, held[j - 1].uri@));
            } else if i < at {
                assert(text_before(held[i].uri@, held[j - 1].uri@));
            } else {
                assert(text_before(held[i - 1].uri@, held[j - 1].uri@));
            }
        }
        assert forall|i: int| 0 <= i < now.len() implies after.contains_key(
            (#[trigger] now[i]).uri@,
        ) && after[now[i].uri@] == now[i].kind by {
            if i < at {
                assert(now[i] == held[i]);
            } else if i > at {
                assert(now[i] == held[i - 1]);
            }
        }
        assert forall|other: Chars| #[trigger] after.contains_key(other) implies exists|i: int|
            0 <= i < now.len() && (#[trigger] now[i]).uri@ == other by {
            if other == uri@ {
                assert(now[at as int].uri@ == other);
            } else {
                assert(map.contains_key(other));
                let i = choose|i: int| 0 <= i < held.len() && (#[trigger] held[i]).uri@ == other;
                if i < at {
                    assert(now[i].uri@ == other);
                } else {
                    assert(now[i + 1].uri@ == other);
                }
            }
        }
    }
}

fn refine(held: WatchedChangeKind, kind: WatchedChangeKind) -> (after: WatchedChangeKind)
    ensures
        after == refined(held, kind),
{
    match held {
        WatchedChangeKind::Changed => kind,
        other => other,
    }
}

fn add_change(
    watched: &mut Vec<WatchedChange>,
    workspace_root: &str,
    change: &ResourceChange,
    Ghost(earlier): Ghost<Seq<ResourceChange>>,
)
    requires
        lists(old(watched)@, watched_map(workspace_root@, earlier)),
    ensures
        lists(final(watched)@, watched_map(workspace_root@, earlier.push(*change))),
{
    let ghost root = workspace_root@;
    let ghost map = watched_map(root, earlier);
    let ghost left = match left_behind(*change) {
        Some(previous) => map.insert(uri_below(root, previous), WatchedChangeKind::Deleted),
        None => map,
    };
    assert(earlier.push(*change).drop_last() =~= earlier);
    if let Some(previous) = &change.previous_path_rel {
        if !same_text(previous.as_str(), change.path_rel.as_str()) {
            let path = join_path(workspace_root, previous.as_str());
            put(watched, path_to_uri(path.as_str()), WatchedChangeKind::Deleted, Ghost(map));
        }
    }
    let path = join_path(workspace_root, change.path_rel.as_str());
    let uri = path_to_uri(path.as_str());
    let kind = match find_uri(watched.as_slice(), uri.as_str()) {
        Some(at) => {
            assert(left.contains_key(watched@[at as int].uri@));
            refine(watched[at].kind, change.kind.watched())
        },
        None => change.kind.watched(),
    };
    put(watched, uri, kind, Ghost(left));
}

/// The backend notification for one change batch: each URI once, in order,
/// so that one logical Workspace operation produces one deterministic batch
/// however many owners it touches.
pub fn watched_changes(workspace_root: &str, changes: &[ResourceChange]) -> (watched: Vec<
    WatchedChange,
>)
    ensures
        lists(watched@, watched_map(workspace_root@, changes@)),
{
    let mut watched: Vec<WatchedChange> = Vec::new();
    let mut at: usize = 0;
    assert(changes@.take(0) =~= Seq::empty());
    while at < changes.len()
        invariant
            at <= changes@.len(),
            lists(watched@, watched_map(workspace_root@, changes@.take(at as int))),
        decreases changes@.len() - at,
    {
        assert(changes@.take(at + 1) =~= changes@.take(at as int).push(changes@[at as int]));
        add_change(&mut watched, workspace_root, &changes[at], Ghost(changes@.take(at as int)));
        at = at + 1;
    }
    assert(changes@.take(at as int) =~= changes@);
    watched
}

// ---------------------------------------------------------------------
// Availability
// ---------------------------------------------------------------------

/// Whether there is a backend to refresh with.
#[derive(Debug, Clone, Copy, PartialEq, Eq, Structural)]
pub enum BackendReadiness {
    Available,
    Unavailable,
}

/// What an owner's semantic answer is worth now.
#[derive(Debug, Clone, Copy, PartialEq, Eq, Structural)]
pub enum SemanticAvailability {
    Current,
    /// Current, with no process running that could renew it.
    CurrentRuntimeCold,
    /// Current as far as it goes.
    Partial,
    RefreshRequired,
    Unavailable,
}

impl SemanticAvailability {
    /// Whether the answer may be served as current.
    pub open spec fn current(self) -> bool {
        self == SemanticAvailability::Current || self == SemanticAvailability::CurrentRuntimeCold
            || self == SemanticAvailability::Partial
    }

    /// Whether the answer may be served as current.
    pub fn serves_current(self) -> (serves: bool)
        ensures
            serves == self.current(),
    {
        match self {
            SemanticAvailability::Current => true,
            SemanticAvailability::CurrentRuntimeCold => true,
            SemanticAvailability::Partial => true,
            SemanticAvailability::RefreshRequired => false,
            SemanticAvailability::Unavailable => false,
        }
    }
}

/// What an owner's semantic answer is worth: a cold runtime does not make a
/// current publication stale, and a running one does not make a stale
/// publication current.
pub open spec fn available(
    status: StatusView,
    runtime: RuntimeState,
    readiness: BackendReadiness,
) -> SemanticAvailability {
    if status.state == SemanticState::Current {
        if status.support == Some(Support::Partial) {
            SemanticAvailability::Partial
        } else if runtime == RuntimeState::Ready {
            SemanticAvailability::Current
        } else {
            SemanticAvailability::CurrentRuntimeCold
        }
    } else if readiness == BackendReadiness::Available {
        SemanticAvailability::RefreshRequired
    } else {
        SemanticAvailability::Unavailable
    }
}

/// What an owner's semantic answer is worth.
pub fn availability(
    status: &SemanticStatus,
    runtime: RuntimeState,
    readiness: BackendReadiness,
) -> (answer: SemanticAvailability)
    ensures
        answer == available(status@, runtime, readiness),
{
    if status.is_current() {
        let partial = match status.support {
            Some(Support::Partial) => true,
            _ => false,
        };
        if partial {
            SemanticAvailability::Partial
        } else if runtime == RuntimeState::Ready {
            SemanticAvailability::Current
        } else {
            SemanticAvailability::CurrentRuntimeCold
        }
    } else if readiness == BackendReadiness::Available {
        SemanticAvailability::RefreshRequired
    } else {
        SemanticAvailability::Unavailable
    }
}

/// An answer is served as current exactly where its publication is current,
/// whatever becomes of the process.
pub proof fn lemma_currentness_is_the_publications(
    status: StatusView,
    runtime: RuntimeState,
    readiness: BackendReadiness,
)
    ensures
        available(status, runtime, readiness).current() <==> status.state
            == SemanticState::Current,
{
}

// ---------------------------------------------------------------------
// Lifecycle steps
// ---------------------------------------------------------------------

/// What one withdrawal pass removed.
#[derive(Debug, PartialEq, Eq)]
pub struct WithdrawReport {
    pub owners: Vec<SemanticOwner>,
    pub gaps_restored: usize,
    pub relations_removed: usize,
}

/// The rows with each of the owners marked, one after the other.
pub open spec fn with_marks(
    rows: Seq<RowView>,
    owners: Seq<OwnerView>,
    state: SemanticState,
    code: Chars,
) -> Seq<RowView>
    decreases owners.len(),
{
    if owners.len() == 0 {
        rows
    } else {
        with_mark(with_marks(rows, owners.drop_last(), state, code), owners.last(), state, code)
    }
}

/// Marking owners leaves every other owner as it was and the last valid
/// answer of each marked one readable.
pub proof fn lemma_marks_are_local_and_keep_the_last_answer(
    rows: Seq<RowView>,
    owners: Seq<OwnerView>,
    state: SemanticState,
    code: Chars,
    owner: OwnerView,
)
    ensures
        status_in(with_marks(rows, owners, state, code), owner) == if owners.contains(owner) {
            marked(status_in(rows, owner), state, code)
        } else {
            status_in(rows, owner)
        },
        status_in(with_marks(rows, owners, state, code), owner).stable_generation_id == status_in(
            rows,
            owner,
        ).stable_generation_id,
    decreases owners.len(),
{
    if owners.len() > 0 {
        let earlier = owners.drop_last();
        lemma_marks_are_local_and_keep_the_last_answer(rows, earlier, state, code, owner);
        lemma_marking_is_local(
            with_marks(rows, earlier, state, code),
            owners.last(),
            state,
            code,
            owner,
        );
        assert(earlier.push(owners.last()) =~= owners);
        lemma_push_contains(earlier, owners.last(), owner);
    }
}

proof fn lemma_marks_settle(
    rows: Seq<RowView>,
    owners: Seq<OwnerView>,
    state: SemanticState,
    code: Chars,
    owner: OwnerView,
)
    requires
        owners.contains(owner),
    ensures
        settled(with_marks(rows, owners, state, code), owner, state, code),
    decreases owners.len(),
{
    let earlier = owners.drop_last();
    let before = with_marks(rows, earlier, state, code);
    assert(earlier.push(owners.last()) =~= owners);
    lemma_push_contains(earlier, owners.last(), owner);
    if earlier.contains(owner) {
        lemma_marks_settle(rows, earlier, state, code, owner);
    }
    lemma_marking_settles(before, owners.last(), state, code, owner);
}

proof fn lemma_settled_owners_stay(
    rows: Seq<RowView>,
    owners: Seq<OwnerView>,
    state: SemanticState,
    code: Chars,
)
    requires
        forall|i: int| 0 <= i < owners.len() ==> settled(rows, #[trigger] owners[i], state, code),
    ensures
        with_marks(rows, owners, state, code) == rows,
    decreases owners.len(),
{
    if owners.len() > 0 {
        let earlier = owners.drop_last();
        assert forall|i: int| 0 <= i < earlier.len() implies settled(
            rows,
            #[trigger] earlier[i],
            state,
            code,
        ) by {
            assert(earlier[i] == owners[i]);
        }
        lemma_settled_owners_stay(rows, earlier, state, code);
        assert(settled(rows, owners[owners.len() - 1], state, code));
    }
}

/// Withdrawing the same owners twice is withdrawing them once: a change that
/// was missed and is recovered later moves nothing that the live one did not.
pub proof fn lemma_withdrawing_twice_is_withdrawing_once(
    rows: Seq<RowView>,
    owners: Seq<OwnerView>,
    state: SemanticState,
    code: Chars,
)
    ensures
        with_marks(with_marks(rows, owners, state, code), owners, state, code) == with_marks(
            rows,
            owners,
            state,
            code,
        ),
{
    let after = with_marks(rows, owners, state, code);
    assert forall|i: int| 0 <= i < owners.len() implies settled(
        after,
        #[trigger] owners[i],
        state,
        code,
    ) by {
        assert(owners.contains(owners[i]));
        lemma_marks_settle(rows, owners, state, code, owners[i]);
    }
    lemma_settled_owners_stay(after, owners, state, code);
}

pub open spec fn total_restored(outcomes: Seq<MergeOutcome>) -> nat
    decreases outcomes.len(),
{
    if outcomes.len() == 0 {
        0
    } else {
        total_restored(outcomes.drop_last()) + outcomes.last().gaps_restored as nat
    }
}

pub open spec fn total_removed(outcomes: Seq<MergeOutcome>) -> nat
    decreases outcomes.len(),
{
    if outcomes.len() == 0 {
        0
    } else {
        total_removed(outcomes.drop_last()) + outcomes.last().relations_removed as nat
    }
}

proof fn lemma_totals_grow(outcomes: Seq<MergeOutcome>, at: int)
    requires
        0 <= at <= outcomes.len(),
    ensures
        total_restored(outcomes.take(at)) <= total_restored(outcomes),
        total_removed(outcomes.take(at)) <= total_removed(outcomes),
    decreases outcomes.len(),
{
    if at == outcomes.len() {
        assert(outcomes.take(at) =~= outcomes);
    } else {
        assert(outcomes.drop_last().take(at) =~= outcomes.take(at));
        lemma_totals_grow(outcomes.drop_last(), at);
    }
}

/// Take note that every affected owner's contribution was withdrawn: mark
/// it dirty, and count what each withdrawal did.
///
/// This runs before structural replacement. Withdrawal is what restores
/// the displaced structural gaps; doing it afterwards would lose them
/// silently.
pub fn withdraw_affected(
    index: &mut SemanticIndex,
    owners: &[SemanticOwner],
    outcomes: &[MergeOutcome],
    error_code: &str,
) -> (report: WithdrawReport)
    requires
        outcomes@.len() == owners@.len(),
        total_restored(outcomes@) <= usize::MAX,
        total_removed(outcomes@) <= usize::MAX,
    ensures
        final(index).rows() == with_marks(
            old(index).rows(),
            owners_view(owners@),
            SemanticState::Dirty,
            error_code@,
        ),
        report.owners@ == owners@,
        report.gaps_restored == total_restored(outcomes@),
        report.relations_removed == total_removed(outcomes@),
{
    let ghost rows = index.rows();
    let ghost all = owners_view(owners@);
    let mut report = WithdrawReport { owners: Vec::new(), gaps_restored: 0, relations_removed: 0 };
    let mut at: usize = 0;
    assert(all.take(0) =~= Seq::empty());
    assert(outcomes@.take(0) =~= Seq::empty());
    while at < owners.len()
        invariant
            at <= owners@.len() == outcomes@.len(),
            all == owners_view(owners@),
            total_restored(outcomes@) <= usize::MAX,
            total_removed(outcomes@) <= usize::MAX,
            index.rows() == with_marks(
                rows,
                all.take(at as int),
                SemanticState::Dirty,
                error_code@,
            ),
            report.owners@ == owners@.take(at as int),
            report.gaps_restored == total_restored(outcomes@.take(at as int)),
            report.relations_removed == total_removed(outcomes@.take(at as int)),
        decreases owners@.len() - at,
    {
        proof {
            assert(all.take(at + 1).drop_last() =~= all.take(at as int));
            assert(all.take(at + 1).last() == owners@[at as int]@);
            assert(outcomes@.take(at + 1).drop_last() =~= outcomes@.take(at as int));
            lemma_totals_grow(outcomes@, at + 1);
        }
        report.gaps_restored = report.gaps_restored + outcomes[at].gaps_restored;
        report.relations_removed = report.relations_removed + outcomes[at].relations_removed;
        index.mark_dirty(&owners[at], error_code);
        report.owners.push(owners[at].clone());
        assert(owners@.take(at + 1) =~= owners@.take(at as int).push(owners@[at as int]));
        at = at + 1;
    }
    assert(all.take(at as int) =~= all);
    assert(outcomes@.take(at as int) =~= outcomes@);
    assert(owners@.take(at as int) =~= owners@);
    report
}

/// Mark every affected owner unavailable, keeping its last valid
/// publication readable.
pub fn mark_unavailable(index: &mut SemanticIndex, owners: &[SemanticOwner], error_code: &str)
    ensures
        final(index).rows() == with_marks(
            old(index).rows(),
            owners_view(owners@),
            SemanticState::Unavailable,
            error_code@,
        ),
{
    let ghost rows = index.rows();
    let ghost all = owners_view(owners@);
    let mut at: usize = 0;
    assert(all.take(0) =~= Seq::empty());
    while at < owners.len()
        invariant
            at <= owners@.len(),
            all == owners_view(owners@),
            index.rows() == with_marks(
                rows,
                all.take(at as int),
                SemanticState::Unavailable,
                error_code@,
            ),
        decreases owners@.len() - at,
    {
        proof {
            assert(all.take(at + 1).drop_last() =~= all.take(at as int));
            assert(all.take(at + 1).last() == owners@[at as int]@);
        }
        index.mark_unavailable(&owners[at], error_code);
        at = at + 1;
    }
    assert(all.take(at as int) =~= all);
}

/// The rows with each of the owners' publications checked.
pub open spec fn with_revalidations(
    rows: Seq<RowView>,
    owners: Seq<OwnerView>,
    current: CurrentInputs,
    resources: Seq<Resource>,
) -> Seq<RowView>
    decreases owners.len(),
{
    if owners.len() == 0 {
        rows
    } else {
        with_revalidation(
            with_revalidations(rows, owners.drop_last(), current, resources),
            owners.last(),
            current,
            resources,
        )
    }
}

/// Checking owners one after another settles each of them once: what is
/// known of one that is not checked again stays.
proof fn lemma_later_revalidations_leave(
    rows: Seq<RowView>,
    owners: Seq<OwnerView>,
    current: CurrentInputs,
    resources: Seq<Resource>,
    at: int,
)
    requires
        owners.no_duplicates(),
        0 <= at < owners.len(),
    ensures
        status_in(with_revalidations(rows, owners, current, resources), owners[at]) == status_in(
            with_revalidations(rows, owners.take(at + 1), current, resources),
            owners[at],
        ),
    decreases owners.len(),
{
    if at == owners.len() - 1 {
        assert(owners.take(at + 1) =~= owners);
    } else {
        let earlier = owners.drop_last();
        lemma_later_revalidations_leave(rows, earlier, current, resources, at);
        assert(earlier.take(at + 1) =~= owners.take(at + 1));
        assert(owners[at] != owners[owners.len() - 1]);
        lemma_revalidating_is_local(
            with_revalidations(rows, earlier, current, resources),
            owners.last(),
            current,
            resources,
            owners[at],
        );
    }
}

/// The owners that were answered, in order.
pub open spec fn answered_owners(answers: Seq<(SemanticOwner, SemanticStatus)>) -> Seq<OwnerView> {
    answers.map_values(|answer: (SemanticOwner, SemanticStatus)| answer.0@)
}

/// Check every owner published for a context against the inputs as they
/// are now. Each is answered once, with what the index says of it then.
///
/// Nothing is launched: a publication whose inputs all still hold proves
/// itself, and one whose inputs moved is dirty before any backend exists to
/// ask.
pub fn revalidate_context(
    index: &mut SemanticIndex,
    context: &AnalysisContext,
    current: &CurrentInputs,
    resources: &[Resource],
) -> (answers: Vec<(SemanticOwner, SemanticStatus)>)
    ensures
        final(index).rows() == with_revalidations(
            old(index).rows(),
            in_context(old(index).rows(), context.key()),
            *current,
            resources@,
        ),
        answered_owners(answers@) == in_context(old(index).rows(), context.key()),
        answered_owners(answers@).no_duplicates(),
        forall|i: int|
            0 <= i < answers@.len() ==> (#[trigger] answers@[i]).1@ == status_in(
                final(index).rows(),
                answers@[i].0@,
            ),
{
    let ghost rows = index.rows();
    let context_key = context.context_key();
    let owners = index.owners_of_context(context_key.as_str());
    let ghost all = owners_view(owners@);
    let mut answers: Vec<(SemanticOwner, SemanticStatus)> = Vec::new();
    let mut at: usize = 0;
    assert(all.take(0) =~= Seq::empty());
    while at < owners.len()
        invariant
            at <= owners@.len(),
            all == owners_view(owners@),
            answers@.len() == at,
            index.rows() == with_revalidations(
                rows,
                all.take(at as int),
                *current,
                resources@,
            ),
            forall|i: int|
                0 <= i < at ==> (#[trigger] answers@[i]).0@ == all[i] && answers@[i].1@
                    == status_in(
                    with_revalidations(rows, all.take(i + 1), *current, resources@),
                    answers@[i].0@,
                ),
        decreases owners@.len() - at,
    {
        proof {
            assert(all.take(at + 1).drop_last() =~= all.take(at as int));
            assert(all.take(at + 1).last() == owners@[at as int]@);
        }
        let status = index.revalidate(&owners[at], current, resources);
        answers.push((owners[at].clone(), status));
        at = at + 1;
    }
    proof {
        assert(all.take(at as int) =~= all);
        assert(answered_owners(answers@) =~= all);
        assert forall|i: int| 0 <= i < answers@.len() implies (#[trigger] answers@[i]).1@
            == status_in(index.rows(), answers@[i].0@) by {
            lemma_later_revalidations_leave(rows, all, *current, resources@, i);
        }
    }
    answers
}

/// The inputs that an owner's publication is validated against. The
/// environment enters twice: its fingerprint says which environment, and
/// its assurance whether that fingerprint is worth comparing.
pub fn current_inputs(
    context: &AnalysisContext,
    config: &ConfigBasis,
    capabilities: &CapabilityReport,
    inventory: &str,
    environment: &EnvironmentIdentity,
) -> (inputs: CurrentInputs)
    ensures
        inputs.config_fingerprint@ == config.identity(),
        inputs.environment_fingerprint@ == context.toolchain.environment_fingerprint@,
        inputs.profile_fingerprint@ == capabilities.identity(),
        optional_chars(inputs.inventory_fingerprint) == Some(inventory@),
        inputs.environment_proven == environment.assurance is Proven,
{
    CurrentInputs::new(context, config, capabilities).with_inventory(
        inventory,
    ).with_environment_proven(environment.assurance.is_proven())
}

/// One owner's refresh outcome, or why it did not happen.
#[derive(Debug, PartialEq, Eq)]
pub enum OwnerOutcome {
    Refreshed(Box<RefreshOutcome>),
    /// The refresh was attempted and failed. The owner keeps its last valid
    /// publication and is marked, never replaced with an empty success.
    Failed { owner: SemanticOwner, error: Box<PythonSemanticError> },
}

impl OwnerOutcome {
    pub fn succeeded(&self) -> (succeeded: bool)
        ensures
            succeeded == (*self is Refreshed),
    {
        match self {
            OwnerOutcome::Refreshed(_) => true,
            OwnerOutcome::Failed { .. } => false,
        }
    }
}

/// The rows once a refresh of an owner was attempted: a failure marks that
/// owner, and a success has already published.
pub open spec fn after_refresh(
    rows: Seq<RowView>,
    owner: OwnerView,
    succeeded: bool,
) -> Seq<RowView> {
    if succeeded {
        rows
    } else {
        with_mark(rows, owner, SemanticState::Dirty, BACKEND_UNAVAILABLE_CODE@)
    }
}

/// Take note of what came of refreshing one owner. A failure marks that
/// owner and no other: the publication that is already there stays
/// readable, and only stops describing itself as current.
pub fn settle_owner(
    index: &mut SemanticIndex,
    owner: &SemanticOwner,
    result: Result<RefreshOutcome, PythonSemanticError>,
) -> (outcome: OwnerOutcome)
    ensures
        final(index).rows() == after_refresh(old(index).rows(), owner@, result is Ok),
        result matches Ok(refreshed) ==> (outcome matches OwnerOutcome::Refreshed(held) && *held
            == refreshed),
        result matches Err(failure) ==> (outcome matches OwnerOutcome::Failed {
            owner: failed,
            error,
        } && failed@ == owner@ && *error == failure),
{
    match result {
        Ok(refreshed) => OwnerOutcome::Refreshed(Box::new(refreshed)),
        Err(failure) => {
            index.mark_dirty(owner, BACKEND_UNAVAILABLE_CODE);
            OwnerOutcome::Failed { owner: owner.clone(), error: Box::new(failure) }
        },
    }
}

/// The rows once a refresh of each owner was attempted.
pub open spec fn after_refreshes(
    rows: Seq<RowView>,
    owners: Seq<OwnerView>,
    succeeded: Seq<bool>,
) -> Seq<RowView>
    decreases owners.len(),
{
    if owners.len() == 0 {
        rows
    } else {
        after_refresh(
            after_refreshes(rows, owners.drop_last(), succeeded.drop_last()),
            owners.last(),
            succeeded.last(),
        )
    }
}

pub open spec fn successes(results: Seq<Result<RefreshOutcome, PythonSemanticError>>) -> Seq<bool> {
    results.map_values(|result: Result<RefreshOutcome, PythonSemanticError>| result is Ok)
}

/// Take note of what came of refreshing a set of owners, one at a time. One
/// owner's failure marks that owner and moves on: it is no reason to tear
/// down a still valid publication of another.
pub fn refresh_owners(
    index: &mut SemanticIndex,
    owners: &[SemanticOwner],
    results: Vec<Result<RefreshOutcome, PythonSemanticError>>,
) -> (outcomes: Vec<OwnerOutcome>)
    requires
        results@.len() == owners@.len(),
    ensures
        final(index).rows() == after_refreshes(
            old(index).rows(),
            owners_view(owners@),
            successes(results@),
        ),
        outcomes@.len() == owners@.len(),
        forall|i: int|
            0 <= i < owners@.len() ==> match results@[i] {
                Ok(refreshed) => (#[trigger] outcomes@[i]) matches OwnerOutcome::Refreshed(held)
                    && *held == refreshed,
                Err(failure) => outcomes@[i] matches OwnerOutcome::Failed { owner, error }
                    && owner@ == owners@[i]@ && *error == failure,
            },
{
    let ghost rows = index.rows();
    let ghost all = owners_view(owners@);
    let ghost won = successes(results@);
    let mut rest = results;
    let mut outcomes: Vec<OwnerOutcome> = Vec::new();
    let mut at: usize = 0;
    assert(all.take(0) =~= Seq::empty());
    assert(rest@ =~= results@.skip(0));
    while at < owners.len()
        invariant
            at <= owners@.len() == results@.len(),
            all == owners_view(owners@),
            won == successes(results@),
            rest@ == results@.skip(at as int),
            outcomes@.len() == at,
            index.rows() == after_refreshes(rows, all.take(at as int), won.take(at as int)),
            forall|i: int|
                0 <= i < at ==> match results@[i] {
                    Ok(refreshed) => (#[trigger] outcomes@[i]) matches OwnerOutcome::Refreshed(
                        held,
                    ) && *held == refreshed,
                    Err(failure) => outcomes@[i] matches OwnerOutcome::Failed { owner, error }
                        && owner@ == owners@[i]@ && *error == failure,
                },
        decreases owners@.len() - at,
    {
        let result = rest.remove(0);
        proof {
            assert(result == results@[at as int]);
            assert(rest@ =~= results@.skip(at + 1));
            assert(all.take(at + 1).drop_last() =~= all.take(at as int));
            assert(all.take(at + 1).last() == owners@[at as int]@);
            assert(won.take(at + 1).drop_last() =~= won.take(at as int));
            assert(won.take(at + 1).last() == (result is Ok));
        }
        let outcome = settle_owner(index, &owners[at], result);
        outcomes.push(outcome);
        at = at + 1;
    }
    assert(all.take(at as int) =~= all);
    assert(won.take(at as int) =~= won);
    outcomes
}

/// Mark every owner of a context not current because the configuration that
/// governs it changed.
pub fn invalidate_for_config(index: &mut SemanticIndex, context: &AnalysisContext) -> (owners: Vec<
    SemanticOwner,
>)
    ensures
        in_owner_order(owners_view(owners@)),
        forall|owner: OwnerView| #[trigger]
            owners_view(owners@).contains(owner) <==> in_context(
                old(index).rows(),
                context.key(),
            ).contains(owner) && owner.context_key == context.key(),
        final(index).rows() == with_marks(
            old(index).rows(),
            owners_view(owners@),
            SemanticState::Dirty,
            CONFIG_CHANGED_CODE@,
        ),
{
    let ghost rows = index.rows();
    let context_key = context.context_key();
    let published = index.owners_of_context(context_key.as_str());
    let mut owners: Vec<SemanticOwner> = Vec::new();
    assert(owners_view(owners@) =~= Seq::empty());
    add_all(&mut owners, published.as_slice(), context_key.as_str());
    let ghost all = owners_view(owners@);
    let mut at: usize = 0;
    assert(all.take(0) =~= Seq::empty());
    while at < owners.len()
        invariant
            at <= owners@.len(),
            all == owners_view(owners@),
            index.rows() == with_marks(
                rows,
                all.take(at as int),
                SemanticState::Dirty,
                CONFIG_CHANGED_CODE@,
            ),
        decreases owners@.len() - at,
    {
        proof {
            assert(all.take(at + 1).drop_last() =~= all.take(at as int));
            assert(all.take(at + 1).last() == owners@[at as int]@);
        }
        index.mark_dirty(&owners[at], CONFIG_CHANGED_CODE);
        at = at + 1;
    }
    assert(all.take(at as int) =~= all);
    owners
}

/// What each refresh merged, in order.
pub open spec fn merges(outcomes: Seq<OwnerOutcome>) -> Seq<MergeOutcome>
    decreases outcomes.len(),
{
    if outcomes.len() == 0 {
        Seq::empty()
    } else {
        match outcomes.last() {
            OwnerOutcome::Refreshed(refreshed) => merges(outcomes.drop_last()).push(
                refreshed.merged,
            ),
            OwnerOutcome::Failed { .. } => merges(outcomes.drop_last()),
        }
    }
}

/// The sum of a count over merges.
pub open spec fn summed(merged: Seq<MergeOutcome>, count: spec_fn(MergeOutcome) -> nat) -> nat
    decreases merged.len(),
{
    if merged.len() == 0 {
        0
    } else {
        summed(merged.drop_last(), count) + count(merged.last())
    }
}

/// The total of merges is their sum, count by count.
pub open spec fn is_total(total: MergeOutcome, merged: Seq<MergeOutcome>) -> bool {
    &&& total.gaps_resolved == summed(merged, |one: MergeOutcome| one.gaps_resolved as nat)
    &&& total.gaps_restored == summed(merged, |one: MergeOutcome| one.gaps_restored as nat)
    &&& total.corroborated == summed(merged, |one: MergeOutcome| one.corroborated as nat)
    &&& total.relations_created == summed(
        merged,
        |one: MergeOutcome| one.relations_created as nat,
    )
    &&& total.relations_removed == summed(
        merged,
        |one: MergeOutcome| one.relations_removed as nat,
    )
    &&& total.conflicts == summed(merged, |one: MergeOutcome| one.conflicts as nat)
}

/// Whether every sum of the merges can be counted.
pub open spec fn countable(merged: Seq<MergeOutcome>) -> bool {
    &&& summed(merged, |one: MergeOutcome| one.gaps_resolved as nat) <= usize::MAX
    &&& summed(merged, |one: MergeOutcome| one.gaps_restored as nat) <= usize::MAX
    &&& summed(merged, |one: MergeOutcome| one.corroborated as nat) <= usize::MAX
    &&& summed(merged, |one: MergeOutcome| one.relations_created as nat) <= usize::MAX
    &&& summed(merged, |one: MergeOutcome| one.relations_removed as nat) <= usize::MAX
    &&& summed(merged, |one: MergeOutcome| one.conflicts as nat) <= usize::MAX
}

proof fn lemma_summed_grows(
    outcomes: Seq<OwnerOutcome>,
    at: int,
    count: spec_fn(MergeOutcome) -> nat,
)
    requires
        0 <= at <= outcomes.len(),
    ensures
        summed(merges(outcomes.take(at)), count) <= summed(merges(outcomes), count),
    decreases outcomes.len(),
{
    if at == outcomes.len() {
        assert(outcomes.take(at) =~= outcomes);
    } else {
        assert(outcomes.drop_last().take(at) =~= outcomes.take(at));
        lemma_summed_grows(outcomes.drop_last(), at, count);
        if let OwnerOutcome::Refreshed(refreshed) = outcomes.last() {
            let earlier = merges(outcomes.drop_last());
            assert(earlier.push(refreshed.merged).drop_last() =~= earlier);
        }
    }
}

/// What a whole merge pass did, summed.
pub fn total_merged(outcomes: &[OwnerOutcome]) -> (total: MergeOutcome)
    requires
        countable(merges(outcomes@)),
    ensures
        is_total(total, merges(outcomes@)),
{
    let mut total = MergeOutcome {
        gaps_resolved: 0,
        gaps_restored: 0,
        corroborated: 0,
        relations_created: 0,
        relations_removed: 0,
        conflicts: 0,
    };
    let mut at: usize = 0;
    assert(outcomes@.take(0) =~= Seq::empty());
    while at < outcomes.len()
        invariant
            at <= outcomes@.len(),
            countable(merges(outcomes@)),
            is_total(total, merges(outcomes@.take(at as int))),
        decreases outcomes@.len() - at,
    {
        proof {
            assert(outcomes@.take(at + 1).drop_last() =~= outcomes@.take(at as int));
            lemma_summed_grows(outcomes@, at + 1, |one: MergeOutcome| one.gaps_resolved as nat);
            lemma_summed_grows(outcomes@, at + 1, |one: MergeOutcome| one.gaps_restored as nat);
            lemma_summed_grows(outcomes@, at + 1, |one: MergeOutcome| one.corroborated as nat);
            lemma_summed_grows(
                outcomes@,
                at + 1,
                |one: MergeOutcome| one.relations_created as nat,
            );
            lemma_summed_grows(
                outcomes@,
                at + 1,
                |one: MergeOutcome| one.relations_removed as nat,
            );
            lemma_summed_grows(outcomes@, at + 1, |one: MergeOutcome| one.conflicts as nat);
        }
        match &outcomes[at] {
            OwnerOutcome::Refreshed(refreshed) => {
                let ghost earlier = merges(outcomes@.take(at as int));
                assert(earlier.push(refreshed.merged).drop_last() =~= earlier);
                total = MergeOutcome {
                    gaps_resolved: total.gaps_resolved + refreshed.merged.gaps_resolved,
                    gaps_restored: total.gaps_restored + refreshed.merged.gaps_restored,
                    corroborated: total.corroborated + refreshed.merged.corroborated,
                    relations_created: total.relations_created + refreshed.merged.relations_created,
                    relations_removed: total.relations_removed + refreshed.merged.relations_removed,
                    conflicts: total.conflicts + refreshed.merged.conflicts,
                };
            },
            OwnerOutcome::Failed { .. } => {},
        }
        at = at + 1;
    }
    assert(outcomes@.take(at as int) =~= outcomes@);
    total
}

} // verus!
