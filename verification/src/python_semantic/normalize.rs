//! What a backend location is in the Workspace's own terms.

use vstd::prelude::*;

use crate::graph::{
    endpoints_view, same_endpoint, EndpointView, ExternalEntity, ExternalView, GraphEndpoint,
    UnresolvedReason,
};
use crate::model::{Resource, ResourceId, ResourceState, SymbolId};
use crate::paths::{
    components_below, lemma_components_of_join, path_join, path_of, plain_name, strip_base,
};
use crate::python_semantic::coordinates::{bytes_of_range, LineMap};
use crate::python_semantic::protocol::{locations_view, Location, LocationView};
use crate::python_semantic::uri::{path_of_uri, uri_to_path};
use crate::semantic::{OutcomeView, SemanticOutcome};
use crate::text::{
    after_last, all_chars, before_last, join, join_texts, joined, last_piece, lemma_before_last,
    same_text, up_to_last, Chars,
};

verus! {

/// The kind of an external entity that names a module.
pub const EXTERNAL_MODULE: &'static str = "PYTHON_MODULE";

/// The kind of an external entity that names a symbol.
pub const EXTERNAL_SYMBOL: &'static str = "PYTHON_SYMBOL";

// ---------------------------------------------------------------------
// Files outside the Workspace
// ---------------------------------------------------------------------

/// The path below the first root that holds it.
pub open spec fn below_first_root(path: Chars, roots: Seq<Chars>) -> Option<Seq<Chars>>
    decreases roots.len(),
{
    if roots.len() == 0 {
        None
    } else {
        match below_first_root(path, roots.drop_last()) {
            Some(parts) => Some(parts),
            None => components_below(path, roots.last()),
        }
    }
}

/// A file name without its extension.
pub open spec fn stem(name: Chars) -> Chars {
    match before_last(name, '.') {
        Some(held) => held,
        None => name,
    }
}

/// The parts of the module that a file below an import root is: its
/// directories and its stem, except that a package's `__init__` is the
/// package.
pub open spec fn module_of_file(parts: Seq<Chars>) -> Seq<Chars> {
    if parts.len() == 0 {
        Seq::empty()
    } else if stem(parts.last()) == "__init__"@ {
        parts.drop_last()
    } else {
        parts.drop_last().push(stem(parts.last()))
    }
}

/// The symbol that a written name names: its last segment.
pub open spec fn named_symbol(written: Option<Chars>) -> Option<Chars> {
    match written {
        Some(name) => if last_piece(name, '.').len() > 0 {
            Some(last_piece(name, '.'))
        } else {
            None
        },
        None => None,
    }
}

/// The identity of a module, and of a symbol in it where one is named.
pub open spec fn external_of_module(parts: Seq<Chars>, symbol: Option<Chars>) -> ExternalView {
    let module = join(parts, "."@);
    ExternalView {
        package_identity: parts[0],
        module_identity: Some(module),
        symbol_name: symbol,
        qualified_name: match symbol {
            Some(name) => Some(module + "."@ + name),
            None => None,
        },
        kind: if symbol is Some {
            EXTERNAL_SYMBOL@
        } else {
            EXTERNAL_MODULE@
        },
        resolved_version: None,
        declaration_locator: None,
    }
}

/// The identity of a file outside the Workspace: none outside every import
/// root, and none for a root itself.
pub open spec fn external_of(
    path: Chars,
    roots: Seq<Chars>,
    written: Option<Chars>,
) -> Option<ExternalView> {
    match below_first_root(path, roots) {
        Some(parts) => if module_of_file(parts).len() == 0 {
            None
        } else {
            Some(external_of_module(module_of_file(parts), named_symbol(written)))
        },
        None => None,
    }
}

pub open spec fn optional_str(text: Option<&str>) -> Option<Chars> {
    match text {
        Some(held) => Some(held@),
        None => None,
    }
}

fn strip_first_root(path: &str, roots: &[String]) -> (rest: Option<Vec<String>>)
    ensures
        rest is Some == below_first_root(path@, all_chars(roots@)) is Some,
        rest matches Some(parts) ==> below_first_root(path@, all_chars(roots@)) == Some(
            all_chars(parts@),
        ),
{
    let ghost all = all_chars(roots@);
    let mut at: usize = 0;
    assert(all.take(0) =~= Seq::empty());
    while at < roots.len()
        invariant
            at <= roots@.len(),
            all == all_chars(roots@),
            below_first_root(path@, all.take(at as int)) is None,
        decreases roots@.len() - at,
    {
        proof {
            assert(all.take(at + 1).drop_last() =~= all.take(at as int));
            assert(all.take(at + 1).last() == roots@[at as int]@);
        }
        if let Some(parts) = strip_base(path, roots[at].as_str()) {
            proof {
                lemma_first_root_stays(path@, all, at + 1);
            }
            return Some(parts);
        }
        at = at + 1;
    }
    assert(all.take(at as int) =~= all);
    None
}

pub proof fn lemma_first_root_stays(path: Chars, roots: Seq<Chars>, at: int)
    requires
        0 <= at <= roots.len(),
        below_first_root(path, roots.take(at)) is Some,
    ensures
        below_first_root(path, roots) == below_first_root(path, roots.take(at)),
    decreases roots.len(),
{
    if at == roots.len() {
        assert(roots.take(at) =~= roots);
    } else {
        assert(roots.drop_last().take(at) =~= roots.take(at));
        lemma_first_root_stays(path, roots.drop_last(), at);
    }
}

/// Give a dependency file a stable module identity from the import roots
/// that the backend reported.
///
/// No dependency source is read and no Resource row is created: a package,
/// a dotted module path and, when the referring site wrote one, a symbol
/// name. That is enough to point at the same thing every time.
pub fn external_entity(
    path: &str,
    search_paths: &[String],
    written_name: Option<&str>,
) -> (entity: Option<ExternalEntity>)
    ensures
        entity is Some == external_of(
            path@,
            all_chars(search_paths@),
            optional_str(written_name),
        ) is Some,
        entity matches Some(found) ==> external_of(
            path@,
            all_chars(search_paths@),
            optional_str(written_name),
        ) == Some(found@),
{
    let mut parts = match strip_first_root(path, search_paths) {
        Some(parts) => parts,
        None => return None,
    };
    let ghost all = all_chars(parts@);
    let last = match parts.pop() {
        Some(last) => last,
        None => return None,
    };
    assert(all_chars(parts@) =~= all.drop_last());
    assert(all.last() == last@);
    let stem = match up_to_last(last.as_str(), '.') {
        Some(stem) => stem,
        None => last,
    };
    if !same_text(stem.as_str(), "__init__") {
        let ghost held = all_chars(parts@);
        parts.push(stem);
        assert(all_chars(parts@) =~= held.push(stem@));
    }
    assert(all_chars(parts@) =~= module_of_file(all));
    if parts.len() == 0 {
        return None;
    }
    assert(all_chars(parts@)[0] == parts@[0]@);
    let module = join_texts(parts.as_slice(), ".");
    let symbol_name = match written_name {
        Some(name) => {
            let segment = after_last(name, '.');
            if segment.as_str().is_empty() {
                None
            } else {
                Some(segment)
            }
        },
        None => None,
    };
    let qualified_name = match &symbol_name {
        Some(name) => Some(joined(joined(module.as_str(), ".").as_str(), name.as_str())),
        None => None,
    };
    let kind = if symbol_name.is_some() {
        EXTERNAL_SYMBOL.to_owned()
    } else {
        EXTERNAL_MODULE.to_owned()
    };
    Some(
        ExternalEntity {
            package_identity: parts[0].clone(),
            module_identity: Some(module),
            symbol_name,
            qualified_name,
            kind,
            resolved_version: None,
            declaration_locator: None,
        },
    )
}

/// The path below an import root of the file that a module is.
pub open spec fn module_file(directories: Seq<Chars>, module: Chars, extension: Chars) -> Chars {
    path_of(directories.push(module.push('.') + extension))
}

/// The path below an import root of the file that says a directory is a
/// package.
pub open spec fn package_file(directories: Seq<Chars>, module: Chars, extension: Chars) -> Chars {
    path_of(directories.push(module).push("__init__"@.push('.') + extension))
}

proof fn lemma_below_the_root(
    path: Chars,
    earlier: Seq<Chars>,
    root: Chars,
    later: Seq<Chars>,
    names: Seq<Chars>,
)
    requires
        below_first_root(path, earlier) is None,
        components_below(path, root) == Some(names),
    ensures
        below_first_root(path, earlier.push(root) + later) == Some(names),
{
    let roots = earlier.push(root) + later;
    let at = earlier.len() + 1;
    assert(roots.take(at as int) =~= earlier.push(root));
    assert(earlier.push(root).drop_last() =~= earlier);
    lemma_first_root_stays(path, roots, at as int);
}

proof fn lemma_extended_name(name: Chars, extension: Chars)
    requires
        !name.contains('/'),
        !extension.contains('/') && !extension.contains('.'),
        name.len() > 0,
    ensures
        plain_name(name.push('.') + extension),
        stem(name.push('.') + extension) == name,
{
    let whole = name.push('.') + extension;
    lemma_before_last(name, extension, '.');
    assert(whole.len() > 1);
    assert forall|i: int| 0 <= i < whole.len() implies whole[i] != '/' by {
        if i < name.len() {
            assert(name.contains(name[i]));
        } else if i > name.len() {
            assert(extension.contains(extension[i - name.len() - 1]));
        }
    }
}

/// A module file, its stub and its package have one identity: whatever the
/// extension, and whether the module is a file or the `__init__` of a
/// directory, the identity is the module's dotted path below the first root
/// that holds it, and its package is the first part of that path.
pub proof fn lemma_a_module_has_one_identity(
    earlier: Seq<Chars>,
    root: Chars,
    later: Seq<Chars>,
    directories: Seq<Chars>,
    module: Chars,
    extension: Chars,
    other_extension: Chars,
    written: Option<Chars>,
)
    requires
        forall|i: int| 0 <= i < directories.len() ==> plain_name(#[trigger] directories[i]),
        plain_name(module),
        module != "__init__"@,
        !extension.contains('.') && !extension.contains('/'),
        !other_extension.contains('.') && !other_extension.contains('/'),
        below_first_root(
            path_join(root, module_file(directories, module, extension)),
            earlier,
        ) is None,
        below_first_root(
            path_join(root, package_file(directories, module, other_extension)),
            earlier,
        ) is None,
    ensures
        ({
            let roots = earlier.push(root) + later;
            let parts = directories.push(module);
            let of_file = external_of(
                path_join(root, module_file(directories, module, extension)),
                roots,
                written,
            );
            let of_package = external_of(
                path_join(root, package_file(directories, module, other_extension)),
                roots,
                written,
            );
            &&& of_file == of_package
            &&& of_file == Some(external_of_module(parts, named_symbol(written)))
            &&& of_file->0.module_identity == Some(join(parts, "."@))
            &&& of_file->0.package_identity == parts[0]
        }),
{
    reveal_strlit("__init__");
    let init = "__init__"@;
    assert forall|i: int| 0 <= i < init.len() implies init[i] != '/' by {}
    let parts = directories.push(module);
    lemma_extended_name(module, extension);
    lemma_extended_name(init, other_extension);
    let file = directories.push(module.push('.') + extension);
    let package = parts.push(init.push('.') + other_extension);
    assert forall|i: int| 0 <= i < file.len() implies plain_name(#[trigger] file[i]) by {
        if i < directories.len() {
            assert(file[i] == directories[i]);
        }
    }
    assert forall|i: int| 0 <= i < package.len() implies plain_name(#[trigger] package[i]) by {
        if i < directories.len() {
            assert(package[i] == directories[i]);
        }
    }
    lemma_components_of_join(root, file);
    lemma_components_of_join(root, package);
    lemma_below_the_root(path_join(root, path_of(file)), earlier, root, later, file);
    lemma_below_the_root(path_join(root, path_of(package)), earlier, root, later, package);
    assert(file.drop_last() =~= directories);
    assert(package.drop_last() =~= parts);
    assert(module_of_file(file) == parts);
    assert(module_of_file(package) == parts);
}

// ---------------------------------------------------------------------
// The import roots
// ---------------------------------------------------------------------

/// How many bytes a text takes.
pub open spec fn byte_length(text: Chars) -> nat {
    vstd::utf8::encode_utf8(text).len()
}

/// A path placed among others that are ordered longest first: behind those
/// as long as it.
pub open spec fn placed_by_length(paths: Seq<Chars>, path: Chars) -> Seq<Chars>
    decreases paths.len(),
{
    if paths.len() == 0 || byte_length(paths.last()) >= byte_length(path) {
        paths.push(path)
    } else {
        placed_by_length(paths.drop_last(), path).push(paths.last())
    }
}

/// The paths that URIs name, longest first, so that a nested root is found
/// before the one that contains it. Those of one length keep their order,
/// and what names no path is left out.
pub open spec fn import_roots(uris: Seq<Chars>) -> Seq<Chars>
    decreases uris.len(),
{
    if uris.len() == 0 {
        Seq::empty()
    } else {
        match path_of_uri(uris.last()) {
            Some(path) => placed_by_length(import_roots(uris.drop_last()), path),
            None => import_roots(uris.drop_last()),
        }
    }
}

/// Each path is at least as long as those behind it.
pub open spec fn longest_first(paths: Seq<Chars>) -> bool {
    forall|i: int, j: int|
        0 <= i <= j < paths.len() ==> byte_length(paths[i]) >= byte_length(paths[j])
}

pub proof fn lemma_placed_by_length(paths: Seq<Chars>, path: Chars)
    requires
        longest_first(paths),
    ensures
        longest_first(placed_by_length(paths, path)),
        placed_by_length(paths, path).to_multiset() == paths.to_multiset().insert(path),
        forall|k: int|
            0 <= k < placed_by_length(paths, path).len() ==> {
                ||| (#[trigger] placed_by_length(paths, path)[k]) == path
                ||| paths.contains(placed_by_length(paths, path)[k])
            },
    decreases paths.len(),
{
    broadcast use vstd::seq_lib::group_to_multiset_ensures;

    if paths.len() == 0 || byte_length(paths.last()) >= byte_length(path) {
        let placed = paths.push(path);
        assert forall|i: int, j: int| 0 <= i <= j < placed.len() implies byte_length(placed[i])
            >= byte_length(placed[j]) by {
            if j == paths.len() && i < paths.len() {
                assert(byte_length(paths[i]) >= byte_length(paths.last()));
            }
        }
    } else {
        let rest = paths.drop_last();
        lemma_placed_by_length(rest, path);
        let inner = placed_by_length(rest, path);
        let placed = inner.push(paths.last());
        assert forall|i: int, j: int| 0 <= i <= j < placed.len() implies byte_length(placed[i])
            >= byte_length(placed[j]) by {
            if j == inner.len() && i < inner.len() {
                assert(inner[i] == path || rest.contains(inner[i]));
                if rest.contains(inner[i]) {
                    let k = choose|k: int| 0 <= k < rest.len() && rest[k] == inner[i];
                    assert(paths[k] == inner[i]);
                }
            }
        }
        assert(rest.push(paths.last()) =~= paths);
        assert(paths.to_multiset() =~= rest.to_multiset().insert(paths.last()));
        assert(placed.to_multiset() =~= paths.to_multiset().insert(path));
        assert forall|k: int| 0 <= k < placed.len() implies (#[trigger] placed[k]) == path
            || paths.contains(placed[k]) by {
            if k < inner.len() {
                assert(inner[k] == path || rest.contains(inner[k]));
                if rest.contains(inner[k]) {
                    let m = choose|m: int| 0 <= m < rest.len() && rest[m] == inner[k];
                    assert(paths[m] == inner[k]);
                }
            } else {
                assert(paths[paths.len() - 1] == placed[k]);
            }
        }
    }
}

/// The import roots are ordered longest first, whatever order the backend
/// reports them in.
pub proof fn lemma_import_roots_longest_first(uris: Seq<Chars>)
    ensures
        longest_first(import_roots(uris)),
    decreases uris.len(),
{
    if uris.len() > 0 {
        lemma_import_roots_longest_first(uris.drop_last());
        if let Some(path) = path_of_uri(uris.last()) {
            lemma_placed_by_length(import_roots(uris.drop_last()), path);
        }
    }
}

proof fn lemma_placed_at(paths: Seq<Chars>, path: Chars, at: int)
    requires
        0 <= at <= paths.len(),
        forall|k: int| at <= k < paths.len() ==> byte_length(#[trigger] paths[k]) < byte_length(path),
        at > 0 ==> byte_length(paths[at - 1]) >= byte_length(path),
    ensures
        placed_by_length(paths, path) == paths.insert(at, path),
    decreases paths.len(),
{
    if at == paths.len() {
        assert(paths.insert(at, path) =~= paths.push(path));
    } else {
        let rest = paths.drop_last();
        assert forall|k: int| at <= k < rest.len() implies byte_length(#[trigger] rest[k])
            < byte_length(path) by {
            assert(rest[k] == paths[k]);
        }
        lemma_placed_at(rest, path, at);
        assert(byte_length(paths[paths.len() - 1]) < byte_length(path));
        assert(rest.insert(at, path).push(paths.last()) =~= paths.insert(at, path));
    }
}

fn ordered_roots(uris: &[String]) -> (roots: Vec<String>)
    ensures
        all_chars(roots@) == import_roots(all_chars(uris@)),
{
    let ghost all = all_chars(uris@);
    let mut roots: Vec<String> = Vec::new();
    let mut at: usize = 0;
    assert(all_chars(roots@) =~= import_roots(all.take(0)));
    while at < uris.len()
        invariant
            at <= uris@.len(),
            all == all_chars(uris@),
            all_chars(roots@) == import_roots(all.take(at as int)),
        decreases uris@.len() - at,
    {
        proof {
            assert(all.take(at + 1).drop_last() =~= all.take(at as int));
            assert(all.take(at + 1).last() == uris@[at as int]@);
        }
        if let Some(path) = uri_to_path(uris[at].as_str()) {
            let length: usize = path.as_str().as_bytes().len();
            let ghost held = all_chars(roots@);
            let mut place: usize = roots.len();
            while place > 0 && roots[place - 1].as_str().as_bytes().len() < length
                invariant
                    place <= roots@.len(),
                    held == all_chars(roots@),
                    length == byte_length(path@),
                    forall|k: int|
                        place <= k < held.len() ==> byte_length(#[trigger] held[k]) < length,
                decreases place,
            {
                place = place - 1;
            }
            proof {
                if place > 0 {
                    assert(held[place - 1] == roots@[place - 1]@);
                }
                lemma_placed_at(held, path@, place as int);
            }
            roots.insert(place, path);
            assert(all_chars(roots@) =~= held.insert(place as int, path@));
        }
        at = at + 1;
    }
    assert(all.take(at as int) =~= all);
    roots
}

// ---------------------------------------------------------------------
// Targets
// ---------------------------------------------------------------------

/// The bytes that a declaration is named at.
#[derive(Debug, Clone, Copy, PartialEq, Eq, Structural)]
pub struct SymbolAnchor {
    pub resource: ResourceId,
    pub start_byte: usize,
    pub end_byte: usize,
    pub symbol: SymbolId,
}

/// The current text of a Resource that could be read.
#[derive(Debug, PartialEq, Eq)]
pub struct SourceText {
    pub resource: ResourceId,
    pub text: String,
}

/// What a location is resolved against.
pub ghost struct WorkspaceFacts {
    pub resources: Seq<Resource>,
    pub anchors: Seq<SymbolAnchor>,
    pub texts: Seq<SourceText>,
    pub root: Chars,
    pub search_paths: Seq<Chars>,
}

/// What a backend location became.
#[derive(Debug, PartialEq, Eq)]
pub enum Target {
    Endpoint(GraphEndpoint),
    /// The location is real but cannot be named without guessing. Kept as
    /// a reason, never dropped.
    Unmappable(UnresolvedReason),
}

pub ghost enum TargetView {
    Endpoint(EndpointView),
    Unmappable(UnresolvedReason),
}

impl View for Target {
    type V = TargetView;

    open spec fn view(&self) -> TargetView {
        match self {
            Target::Endpoint(endpoint) => TargetView::Endpoint(endpoint@),
            Target::Unmappable(reason) => TargetView::Unmappable(*reason),
        }
    }
}

pub open spec fn targets_view(targets: Seq<Target>) -> Seq<TargetView> {
    targets.map_values(|target: Target| target@)
}

/// The first active Resource that is looked up by the key.
pub open spec fn active_by_key(resources: Seq<Resource>, key: Chars) -> Option<Resource>
    decreases resources.len(),
{
    if resources.len() == 0 {
        None
    } else {
        match active_by_key(resources.drop_last(), key) {
            Some(found) => Some(found),
            None => if resources.last().state == ResourceState::Active
                && resources.last().path_key@ == key {
                Some(resources.last())
            } else {
                None
            },
        }
    }
}

/// The text of a Resource, if it could be read.
pub open spec fn text_of_resource(texts: Seq<SourceText>, resource: ResourceId) -> Option<Chars>
    decreases texts.len(),
{
    if texts.len() == 0 {
        None
    } else {
        match text_of_resource(texts.drop_last(), resource) {
            Some(found) => Some(found),
            None => if texts.last().resource == resource {
                Some(texts.last().text@)
            } else {
                None
            },
        }
    }
}

/// The declarations that are named at exactly those bytes.
pub open spec fn anchored(
    anchors: Seq<SymbolAnchor>,
    resource: ResourceId,
    span: (nat, nat),
) -> Seq<SymbolAnchor> {
    anchors.filter(
        |anchor: SymbolAnchor|
            anchor.resource == resource && anchor.start_byte == span.0 && anchor.end_byte
                == span.1,
    )
}

/// The active Resource that a URI names: the one below the Workspace root
/// that is looked up by the path there.
pub open spec fn resource_of_uri(facts: WorkspaceFacts, uri: Chars) -> Option<Resource> {
    match path_of_uri(uri) {
        Some(path) => match components_below(path, facts.root) {
            Some(parts) => active_by_key(facts.resources, join(parts, "/"@)),
            None => None,
        },
        None => None,
    }
}

/// What a URI outside the Workspace names.
pub open spec fn external_target_of(
    facts: WorkspaceFacts,
    uri: Chars,
    written: Option<Chars>,
) -> TargetView {
    match path_of_uri(uri) {
        Some(path) => match external_of(path, facts.search_paths, written) {
            Some(entity) => TargetView::Endpoint(EndpointView::External(entity)),
            None => TargetView::Unmappable(UnresolvedReason::NoStructuralBinding),
        },
        None => TargetView::Unmappable(UnresolvedReason::NoStructuralBinding),
    }
}

/// What the declarations that could be meant come to: one is the target,
/// and between several nothing chooses.
pub open spec fn target_of_anchors(found: Seq<SymbolAnchor>) -> TargetView {
    if found.len() == 0 {
        TargetView::Unmappable(UnresolvedReason::NoStructuralBinding)
    } else if found.len() == 1 {
        TargetView::Endpoint(EndpointView::Symbol(found[0].symbol))
    } else {
        TargetView::Unmappable(UnresolvedReason::AmbiguousCandidates)
    }
}

/// What a backend location is: outside the Workspace an external entity;
/// inside it the whole Resource where the range covers nothing, and else
/// the one declaration that is named at exactly those bytes.
pub open spec fn target_of(
    facts: WorkspaceFacts,
    location: LocationView,
    written: Option<Chars>,
) -> TargetView {
    match resource_of_uri(facts, location.uri) {
        None => external_target_of(facts, location.uri, written),
        Some(resource) => if location.range.covers_nothing() {
            TargetView::Endpoint(EndpointView::Resource(resource.id))
        } else {
            match text_of_resource(facts.texts, resource.id) {
                None => TargetView::Unmappable(UnresolvedReason::NoStructuralBinding),
                Some(text) => match bytes_of_range(text, location.range) {
                    None => TargetView::Unmappable(UnresolvedReason::NoStructuralBinding),
                    Some(span) => target_of_anchors(anchored(facts.anchors, resource.id, span)),
                },
            }
        },
    }
}

/// Resources that were read, each with its revision, in the order of
/// their ids.
pub type Reads = Seq<(ResourceId, Chars)>;

/// The reads with one more, unless the Resource is among them.
pub open spec fn with_read(reads: Reads, resource: ResourceId, revision: Chars) -> Reads
    decreases reads.len(),
{
    if reads.len() == 0 || reads.last().0.value < resource.value {
        reads.push((resource, revision))
    } else if reads.last().0 == resource {
        reads
    } else {
        with_read(reads.drop_last(), resource, revision).push(reads.last())
    }
}

/// The reads after a location was resolved: the answer depended on the
/// bytes of the Resource that it lies in, unless it names it whole.
pub open spec fn reads_after(
    reads: Reads,
    facts: WorkspaceFacts,
    location: LocationView,
) -> Reads {
    match resource_of_uri(facts, location.uri) {
        Some(resource) => if !location.range.covers_nothing() && text_of_resource(
            facts.texts,
            resource.id,
        ) is Some {
            with_read(reads, resource.id, resource.resource_revision@)
        } else {
            reads
        },
        None => reads,
    }
}

/// The reads after each of the locations was resolved.
pub open spec fn reads_after_all(
    reads: Reads,
    facts: WorkspaceFacts,
    locations: Seq<LocationView>,
) -> Reads
    decreases locations.len(),
{
    if locations.len() == 0 {
        reads
    } else {
        reads_after(
            reads_after_all(reads, facts, locations.drop_last()),
            facts,
            locations.last(),
        )
    }
}

pub open spec fn reads_view(reads: Seq<(ResourceId, String)>) -> Reads {
    reads.map_values(|read: (ResourceId, String)| (read.0, read.1@))
}

proof fn lemma_with_read_at(reads: Reads, resource: ResourceId, revision: Chars, at: int)
    requires
        0 <= at <= reads.len(),
        forall|k: int| at <= k < reads.len() ==> (#[trigger] reads[k]).0.value > resource.value,
    ensures
        with_read(reads, resource, revision) == with_read(reads.take(at), resource, revision)
            + reads.skip(at),
    decreases reads.len(),
{
    if at == reads.len() {
        assert(reads.take(at) =~= reads);
        assert(with_read(reads, resource, revision) + reads.skip(at) =~= with_read(
            reads,
            resource,
            revision,
        ));
    } else {
        let rest = reads.drop_last();
        assert forall|k: int| at <= k < rest.len() implies (#[trigger] rest[k]).0.value
            > resource.value by {
            assert(rest[k] == reads[k]);
        }
        lemma_with_read_at(rest, resource, revision, at);
        assert(rest.take(at) =~= reads.take(at));
        assert(reads[reads.len() - 1].0.value > resource.value);
        assert(rest.skip(at).push(reads.last()) =~= reads.skip(at));
        let front = with_read(reads.take(at), resource, revision);
        assert((front + rest.skip(at)).push(reads.last()) =~= front + reads.skip(at));
    }
}

/// Resolves backend locations against the current Workspace.
pub struct Normalizer<'a> {
    resources: &'a [Resource],
    anchors: &'a [SymbolAnchor],
    texts: &'a [SourceText],
    workspace_root: &'a str,
    search_paths: Vec<String>,
    read: Vec<(ResourceId, String)>,
}

impl<'a> Normalizer<'a> {
    /// What locations are resolved against.
    pub closed spec fn facts(&self) -> WorkspaceFacts {
        WorkspaceFacts {
            resources: self.resources@,
            anchors: self.anchors@,
            texts: self.texts@,
            root: self.workspace_root@,
            search_paths: all_chars(self.search_paths@),
        }
    }

    /// What has been read so far.
    pub closed spec fn reads(&self) -> Reads {
        reads_view(self.read@)
    }

    /// A normalizer over the Resources, the places their declarations are
    /// named at and the texts that could be read, with the import roots
    /// that the backend reported.
    pub fn new(
        resources: &'a [Resource],
        anchors: &'a [SymbolAnchor],
        texts: &'a [SourceText],
        workspace_root: &'a str,
        search_paths: &[String],
    ) -> (normalizer: Self)
        ensures
            normalizer.facts() == (WorkspaceFacts {
                resources: resources@,
                anchors: anchors@,
                texts: texts@,
                root: workspace_root@,
                search_paths: import_roots(all_chars(search_paths@)),
            }),
            normalizer.reads().len() == 0,
    {
        Normalizer {
            resources,
            anchors,
            texts,
            workspace_root,
            search_paths: ordered_roots(search_paths),
            read: Vec::new(),
        }
    }

    pub fn workspace_root(&self) -> (root: &'a str)
        ensures
            root@ == self.facts().root,
    {
        self.workspace_root
    }

    /// Every Resource read while resolving, with the revision it was read
    /// at. The answers depended on them, so they go stale when these move.
    pub fn sources_read(&self) -> (reads: &Vec<(ResourceId, String)>)
        ensures
            reads_view(reads@) == self.reads(),
    {
        &self.read
    }

    /// The active Resource that a URI names, if any.
    fn resource_for_uri(&self, uri: &str) -> (found: Option<&'a Resource>)
        ensures
            found is Some == resource_of_uri(self.facts(), uri@) is Some,
            found matches Some(resource) ==> resource_of_uri(self.facts(), uri@) == Some(*resource),
    {
        let path = match uri_to_path(uri) {
            Some(path) => path,
            None => return None,
        };
        let parts = match strip_base(path.as_str(), self.workspace_root) {
            Some(parts) => parts,
            None => return None,
        };
        let key = join_texts(parts.as_slice(), "/");
        find_active(self.resources, key.as_str())
    }

    /// Turn one backend location into an endpoint. `written_name` is the
    /// name that the source writes at the referring site: it is used only
    /// to name an external symbol.
    pub fn target_for(&mut self, location: &Location, written_name: Option<&str>) -> (target:
        Target)
        ensures
            target@ == target_of(old(self).facts(), location@, optional_str(written_name)),
            final(self).facts() == old(self).facts(),
            final(self).reads() == reads_after(old(self).reads(), old(self).facts(), location@),
    {
        let resource = match self.resource_for_uri(location.uri.as_str()) {
            Some(resource) => resource,
            None => return self.external_target(location.uri.as_str(), written_name),
        };
        if location.range.is_empty() {
            return Target::Endpoint(GraphEndpoint::Resource(resource.id));
        }
        let text = match find_text(self.texts, resource.id) {
            Some(text) => text,
            None => return Target::Unmappable(UnresolvedReason::NoStructuralBinding),
        };
        self.record_read(resource.id, resource.resource_revision.clone());
        match LineMap::new(text).span(location.range) {
            Some((start, end)) => symbol_target(self.anchors, resource.id, start, end),
            None => Target::Unmappable(UnresolvedReason::NoStructuralBinding),
        }
    }

    fn external_target(&self, uri: &str, written_name: Option<&str>) -> (target: Target)
        ensures
            target@ == external_target_of(self.facts(), uri@, optional_str(written_name)),
    {
        match uri_to_path(uri) {
            Some(path) => match external_entity(
                path.as_str(),
                self.search_paths.as_slice(),
                written_name,
            ) {
                Some(entity) => Target::Endpoint(GraphEndpoint::External(entity)),
                None => Target::Unmappable(UnresolvedReason::NoStructuralBinding),
            },
            None => Target::Unmappable(UnresolvedReason::NoStructuralBinding),
        }
    }

    fn record_read(&mut self, resource: ResourceId, revision: String)
        ensures
            final(self).facts() == old(self).facts(),
            final(self).reads() == with_read(old(self).reads(), resource, revision@),
    {
        let ghost held = reads_view(self.read@);
        let ghost facts = self.facts();
        let mut at: usize = self.read.len();
        while at > 0 && self.read[at - 1].0.value > resource.value
            invariant
                at <= self.read@.len(),
                held == reads_view(self.read@),
                facts == self.facts(),
                forall|k: int| at <= k < held.len() ==> (#[trigger] held[k]).0.value
                    > resource.value,
            decreases at,
        {
            at = at - 1;
        }
        proof {
            lemma_with_read_at(held, resource, revision@, at as int);
        }
        if at > 0 && self.read[at - 1].0.value == resource.value {
            proof {
                assert(held.take(at as int).last() == held[at - 1]);
                assert(held.take(at as int) + held.skip(at as int) =~= held);
            }
            return;
        }
        proof {
            if at > 0 {
                assert(held.take(at as int).last() == held[at - 1]);
            }
            assert(held.insert(at as int, (resource, revision@)) =~= held.take(at as int).push(
                (resource, revision@),
            ) + held.skip(at as int));
        }
        self.read.insert(at, (resource, revision));
        assert(reads_view(self.read@) =~= held.insert(at as int, (resource, revision@)));
        assert(self.facts() == facts);
    }
}

proof fn lemma_active_stays(resources: Seq<Resource>, key: Chars, at: int)
    requires
        0 <= at <= resources.len(),
        active_by_key(resources.take(at), key) is Some,
    ensures
        active_by_key(resources, key) == active_by_key(resources.take(at), key),
    decreases resources.len(),
{
    if at == resources.len() {
        assert(resources.take(at) =~= resources);
    } else {
        assert(resources.drop_last().take(at) =~= resources.take(at));
        lemma_active_stays(resources.drop_last(), key, at);
    }
}

/// The first active Resource that is looked up by the key.
pub fn find_active<'a>(resources: &'a [Resource], key: &str) -> (found: Option<&'a Resource>)
    ensures
        found is Some == active_by_key(resources@, key@) is Some,
        found matches Some(resource) ==> active_by_key(resources@, key@) == Some(*resource),
{
    let mut at: usize = 0;
    assert(resources@.take(0) =~= Seq::empty());
    while at < resources.len()
        invariant
            at <= resources@.len(),
            active_by_key(resources@.take(at as int), key@) is None,
        decreases resources@.len() - at,
    {
        assert(resources@.take(at + 1).drop_last() =~= resources@.take(at as int));
        if resources[at].state == ResourceState::Active && same_text(
            resources[at].path_key.as_str(),
            key,
        ) {
            proof {
                lemma_active_stays(resources@, key@, at + 1);
            }
            return Some(&resources[at]);
        }
        at = at + 1;
    }
    assert(resources@.take(at as int) =~= resources@);
    None
}

proof fn lemma_text_stays(texts: Seq<SourceText>, resource: ResourceId, at: int)
    requires
        0 <= at <= texts.len(),
        text_of_resource(texts.take(at), resource) is Some,
    ensures
        text_of_resource(texts, resource) == text_of_resource(texts.take(at), resource),
    decreases texts.len(),
{
    if at == texts.len() {
        assert(texts.take(at) =~= texts);
    } else {
        assert(texts.drop_last().take(at) =~= texts.take(at));
        lemma_text_stays(texts.drop_last(), resource, at);
    }
}

/// The text of a Resource, if it could be read.
pub fn find_text<'a>(texts: &'a [SourceText], resource: ResourceId) -> (found: Option<&'a str>)
    ensures
        optional_str(found) == text_of_resource(texts@, resource),
{
    let mut at: usize = 0;
    assert(texts@.take(0) =~= Seq::empty());
    while at < texts.len()
        invariant
            at <= texts@.len(),
            text_of_resource(texts@.take(at as int), resource) is None,
        decreases texts@.len() - at,
    {
        assert(texts@.take(at + 1).drop_last() =~= texts@.take(at as int));
        if texts[at].resource == resource {
            proof {
                lemma_text_stays(texts@, resource, at + 1);
            }
            return Some(texts[at].text.as_str());
        }
        at = at + 1;
    }
    assert(texts@.take(at as int) =~= texts@);
    None
}

fn symbol_target(
    anchors: &[SymbolAnchor],
    resource: ResourceId,
    start: usize,
    end: usize,
) -> (target: Target)
    ensures
        target@ == target_of_anchors(anchored(anchors@, resource, (start as nat, end as nat))),
{
    let ghost pred = |anchor: SymbolAnchor|
        anchor.resource == resource && anchor.start_byte == start as nat && anchor.end_byte
            == end as nat;
    let mut first: Option<SymbolId> = None;
    let mut count: usize = 0;
    let mut at: usize = 0;
    reveal_with_fuel(Seq::filter, 1);
    while at < anchors.len()
        invariant
            at <= anchors@.len(),
            count <= at,
            pred == (|anchor: SymbolAnchor|
                anchor.resource == resource && anchor.start_byte == start as nat && anchor.end_byte
                    == end as nat),
            anchors@.take(at as int).filter(pred).len() == count,
            count > 0 ==> first == Some(anchors@.take(at as int).filter(pred)[0].symbol),
        decreases anchors@.len() - at,
    {
        let ghost held = anchors@.take(at as int);
        proof {
            assert(anchors@.take(at + 1) =~= held.push(anchors@[at as int]));
            held.lemma_filter_push(anchors@[at as int], pred);
        }
        if anchors[at].resource == resource && anchors[at].start_byte == start
            && anchors[at].end_byte == end {
            if count == 0 {
                first = Some(anchors[at].symbol);
            }
            count = count + 1;
        }
        at = at + 1;
    }
    assert(anchors@.take(at as int) =~= anchors@);
    assert(anchored(anchors@, resource, (start as nat, end as nat)) =~= anchors@.filter(pred));
    match first {
        Some(symbol) => if count == 1 {
            Target::Endpoint(GraphEndpoint::Symbol(symbol))
        } else if count == 0 {
            Target::Unmappable(UnresolvedReason::NoStructuralBinding)
        } else {
            Target::Unmappable(UnresolvedReason::AmbiguousCandidates)
        },
        None => Target::Unmappable(UnresolvedReason::NoStructuralBinding),
    }
}

// ---------------------------------------------------------------------
// Outcomes
// ---------------------------------------------------------------------

/// The endpoints among targets, each once, in the order they come.
pub open spec fn distinct_endpoints(targets: Seq<TargetView>) -> Seq<EndpointView>
    decreases targets.len(),
{
    if targets.len() == 0 {
        Seq::empty()
    } else {
        let earlier = distinct_endpoints(targets.drop_last());
        match targets.last() {
            TargetView::Endpoint(endpoint) => if earlier.contains(endpoint) {
                earlier
            } else {
                earlier.push(endpoint)
            },
            TargetView::Unmappable(_) => earlier,
        }
    }
}

/// The first reason among targets.
pub open spec fn first_reason(targets: Seq<TargetView>) -> Option<UnresolvedReason>
    decreases targets.len(),
{
    if targets.len() == 0 {
        None
    } else {
        match first_reason(targets.drop_last()) {
            Some(reason) => Some(reason),
            None => match targets.last() {
                TargetView::Endpoint(_) => None,
                TargetView::Unmappable(reason) => Some(reason),
            },
        }
    }
}

/// What targets come to. One distinct endpoint is the answer; several are
/// not settled between; none keeps the first reason among them, and the
/// known one where the backend added nothing.
pub open spec fn outcome_of_targets(
    targets: Seq<TargetView>,
    known: UnresolvedReason,
) -> OutcomeView {
    let endpoints = distinct_endpoints(targets);
    if endpoints.len() == 1 {
        OutcomeView::Resolved(endpoints[0])
    } else if endpoints.len() == 0 {
        OutcomeView::Unresolved(
            match first_reason(targets) {
                Some(reason) => reason,
                None => known,
            },
        )
    } else {
        OutcomeView::Candidates(endpoints)
    }
}

fn holds_endpoint(endpoints: &[GraphEndpoint], wanted: &GraphEndpoint) -> (held: bool)
    ensures
        held == endpoints_view(endpoints@).contains(wanted@),
{
    let ghost all = endpoints_view(endpoints@);
    let mut at: usize = 0;
    while at < endpoints.len()
        invariant
            at <= endpoints@.len(),
            all == endpoints_view(endpoints@),
            forall|k: int| 0 <= k < at ==> all[k] != wanted@,
        decreases endpoints@.len() - at,
    {
        assert(all[at as int] == endpoints@[at as int]@);
        if same_endpoint(&endpoints[at], wanted) {
            return true;
        }
        at = at + 1;
    }
    false
}

/// What targets come to.
pub fn outcome_of(targets: Vec<Target>, known: UnresolvedReason) -> (outcome: SemanticOutcome)
    ensures
        outcome@ == outcome_of_targets(targets_view(targets@), known),
{
    let ghost all = targets_view(targets@);
    let mut endpoints: Vec<GraphEndpoint> = Vec::new();
    let mut unmappable: Option<UnresolvedReason> = None;
    assert(endpoints_view(endpoints@) =~= distinct_endpoints(all.take(0)));
    let mut at: usize = 0;
    while at < targets.len()
        invariant
            at <= targets@.len(),
            all == targets_view(targets@),
            endpoints_view(endpoints@) == distinct_endpoints(all.take(at as int)),
            unmappable == first_reason(all.take(at as int)),
        decreases targets@.len() - at,
    {
        let ghost held = endpoints_view(endpoints@);
        proof {
            assert(all.take(at + 1).drop_last() =~= all.take(at as int));
            assert(all.take(at + 1).last() == targets@[at as int]@);
        }
        match &targets[at] {
            Target::Endpoint(endpoint) => {
                if !holds_endpoint(endpoints.as_slice(), endpoint) {
                    endpoints.push(endpoint.clone());
                    assert(endpoints_view(endpoints@) =~= held.push(endpoint@));
                }
            },
            Target::Unmappable(reason) => {
                if unmappable.is_none() {
                    unmappable = Some(*reason);
                }
            },
        }
        at = at + 1;
    }
    assert(all.take(at as int) =~= all);
    if endpoints.len() == 1 {
        let target = endpoints[0].clone();
        assert(endpoints_view(endpoints@)[0] == target@);
        SemanticOutcome::Resolved { target }
    } else if endpoints.len() == 0 {
        let reason = match unmappable {
            Some(reason) => reason,
            None => known,
        };
        SemanticOutcome::Unresolved { reason }
    } else {
        SemanticOutcome::Candidates { targets: endpoints }
    }
}

/// What each of some locations is.
pub open spec fn targets_of(
    facts: WorkspaceFacts,
    locations: Seq<LocationView>,
    written: Option<Chars>,
) -> Seq<TargetView> {
    locations.map_values(|location: LocationView| target_of(facts, location, written))
}

/// Turn each of some locations into an endpoint.
pub fn targets_for(
    normalizer: &mut Normalizer<'_>,
    locations: &[Location],
    written_name: Option<&str>,
) -> (targets: Vec<Target>)
    ensures
        targets_view(targets@) == targets_of(
            old(normalizer).facts(),
            locations_view(locations@),
            optional_str(written_name),
        ),
        final(normalizer).facts() == old(normalizer).facts(),
        final(normalizer).reads() == reads_after_all(
            old(normalizer).reads(),
            old(normalizer).facts(),
            locations_view(locations@),
        ),
{
    let ghost all = locations_view(locations@);
    let ghost facts = normalizer.facts();
    let ghost before = normalizer.reads();
    let ghost written = optional_str(written_name);
    let mut targets: Vec<Target> = Vec::new();
    let mut at: usize = 0;
    assert(all.take(0) =~= Seq::empty());
    assert(targets_view(targets@) =~= targets_of(facts, all.take(0), written));
    while at < locations.len()
        invariant
            at <= locations@.len(),
            all == locations_view(locations@),
            facts == normalizer.facts(),
            written == optional_str(written_name),
            normalizer.reads() == reads_after_all(before, facts, all.take(at as int)),
            targets_view(targets@) == targets_of(facts, all.take(at as int), written),
        decreases locations@.len() - at,
    {
        let ghost held = targets_view(targets@);
        proof {
            assert(all.take(at + 1).drop_last() =~= all.take(at as int));
            assert(all.take(at + 1).last() == locations@[at as int]@);
        }
        let target = normalizer.target_for(&locations[at], written_name);
        targets.push(target);
        assert(targets_view(targets@) =~= held.push(target@));
        assert(targets_view(targets@) =~= targets_of(facts, all.take(at + 1), written));
        at = at + 1;
    }
    assert(all.take(at as int) =~= all);
    targets
}

} // verus!
