//! What the backend's answers about a Resource come to.

use vstd::prelude::*;

use crate::graph::{
    EndpointView, IntendedRelation, PersistedUnresolved, RelationKind, UnresolvedReason,
};
use crate::model::{
    Occurrence, OccurrenceKind, OccurrenceRef, Resource, ResourceId, ResourceState, SymbolId,
};
use crate::paths::{components_below, lemma_components_of_join, path_join, path_of, plain_name};
use crate::python_semantic::adapter::{
    answered, answering_capability, call_evidence, call_site_at, call_sites, declares_override,
    dispatch_of, established_by, is_override, names_override, outcome_of_answer, placed_by,
    question_about, reads_after_lists, relation_of, resolvable, source_of, type_place, whole,
    with_gap, with_ranges, with_site, AnswerView, DecoratorSite, Established, GapQuestion,
    RequestView,
};
use crate::python_semantic::conversation::{batch_answer, BatchError, Exchange};
use crate::python_semantic::coordinates::{
    bytes_of_range, last_character_of_bytes, range_of_bytes, text_between, Range,
};
use crate::python_semantic::normalize::{
    active_by_key, anchored, below_first_root, distinct_endpoints, external_of, external_of_module,
    first_reason, import_roots, lemma_a_module_has_one_identity, lemma_first_root_stays,
    lemma_import_roots_longest_first, lemma_placed_by_length, module_file, named_symbol,
    outcome_of_targets, package_file, placed_by_length, reads_after, reads_after_all,
    resource_of_uri, target_of, targets_of, text_of_resource, with_read, Reads, SourceText,
    SymbolAnchor, TargetView, WorkspaceFacts,
};
use crate::python_semantic::protocol::{
    leading_dots, module_parts, module_site, IncomingCallView, LocationView, PythonRequest,
    PythonResponse, TypeAnswerView,
};
use crate::python_semantic::uri::{
    lemma_uri_round_trip, path_of_uri, starts_with_drive, uri_of_path,
};
use crate::semantic::{Dispatch, OutcomeView, SemanticCapability, Support};
use crate::text::{join, lemma_split_around, split, Chars};

verus! {

// ---------------------------------------------------------------------
// Declared overrides
// ---------------------------------------------------------------------

/// The module outside the Workspace that a target lies in, if it lies in one.
pub open spec fn module_around(target: TargetView) -> Option<Chars> {
    match target {
        TargetView::Endpoint(EndpointView::External(entity)) => entity.module_identity,
        _ => None,
    }
}

/// A member is a declared override exactly when one of its decorators is
/// defined in the module `typing` or in the module `typing_extensions`.
pub proof fn law_an_override_is_declared_by_typing_or_its_extensions(
    facts: WorkspaceFacts,
    sites: Seq<DecoratorSite>,
    found: Seq<Seq<LocationView>>,
    member: SymbolId,
)
    ensures
        declares_override(facts, sites, found, member) <==> exists|i: int, j: int|
            {
                &&& 0 <= i < sites.len()
                &&& i < found.len()
                &&& sites[i].member == member
                &&& 0 <= j < found[i].len()
                &&& {
                    let module = module_around(target_of(facts, #[trigger] found[i][j], None));
                    module == Some("typing"@) || module == Some("typing_extensions"@)
                }
            },
{
    if declares_override(facts, sites, found, member) {
        let i = choose|i: int|
            0 <= i < sites.len() && i < found.len() && (#[trigger] sites[i]).member == member
                && names_override(facts, found[i]);
        let places = found[i];
        let j = choose|j: int|
            0 <= j < places.len() && is_override(target_of(facts, #[trigger] places[j], None));
        let module = module_around(target_of(facts, found[i][j], None));
        assert(module == Some("typing"@) || module == Some("typing_extensions"@));
    }
    assert forall|i: int, j: int|
        {
            &&& 0 <= i < sites.len()
            &&& i < found.len()
            &&& sites[i].member == member
            &&& 0 <= j < found[i].len()
            &&& {
                let module = module_around(target_of(facts, #[trigger] found[i][j], None));
                module == Some("typing"@) || module == Some("typing_extensions"@)
            }
        } implies declares_override(facts, sites, found, member) by {
        let places = found[i];
        assert(is_override(target_of(facts, places[j], None)));
        assert(names_override(facts, found[i]));
        assert(sites[i].member == member);
    }
}

/// A member whose decorator is defined in the file of `typing`, or of
/// `typing_extensions`, below an import root is a declared override, whatever
/// the extension of that file.
pub proof fn law_the_files_of_typing_declare_overrides(
    facts: WorkspaceFacts,
    sites: Seq<DecoratorSite>,
    found: Seq<Seq<LocationView>>,
    at: int,
    place: LocationView,
    earlier: Seq<Chars>,
    root: Chars,
    later: Seq<Chars>,
    module: Chars,
    extension: Chars,
)
    requires
        0 <= at < sites.len(),
        at < found.len(),
        found[at].contains(place),
        module == "typing"@ || module == "typing_extensions"@,
        facts.search_paths == earlier.push(root) + later,
        !extension.contains('.') && !extension.contains('/'),
        path_of_uri(place.uri) == Some(
            path_join(root, module_file(Seq::empty(), module, extension)),
        ),
        resource_of_uri(facts, place.uri) is None,
        below_first_root(
            path_join(root, module_file(Seq::empty(), module, extension)),
            earlier,
        ) is None,
        below_first_root(
            path_join(root, package_file(Seq::empty(), module, extension)),
            earlier,
        ) is None,
    ensures
        declares_override(facts, sites, found, sites[at].member),
{
    reveal_strlit("typing");
    reveal_strlit("typing_extensions");
    reveal_strlit("__init__");
    assert(module[0] == 't');
    assert("__init__"@[0] == '_');
    assert(module.len() > 1);
    assert(!module.contains('/'));
    lemma_a_module_has_one_identity(
        earlier,
        root,
        later,
        Seq::empty(),
        module,
        extension,
        extension,
        None,
    );
    let parts = Seq::<Chars>::empty().push(module);
    assert(join(parts, "."@) == module);
    let j = choose|j: int| 0 <= j < found[at].len() && found[at][j] == place;
    assert(module_around(target_of(facts, found[at][j], None)) == Some(module));
    law_an_override_is_declared_by_typing_or_its_extensions(
        facts,
        sites,
        found,
        sites[at].member,
    );
}

/// A decorator that the Workspace itself defines is never `override`: a local
/// function of that name does not count.
pub proof fn law_a_local_decorator_declares_nothing(
    facts: WorkspaceFacts,
    sites: Seq<DecoratorSite>,
    found: Seq<Seq<LocationView>>,
    member: SymbolId,
)
    requires
        forall|i: int, j: int|
            0 <= i < sites.len() && i < found.len() && sites[i].member == member && 0 <= j
                < found[i].len() ==> resource_of_uri(facts, (#[trigger] found[i][j]).uri) is Some,
    ensures
        !declares_override(facts, sites, found, member),
{
    if declares_override(facts, sites, found, member) {
        let i = choose|i: int|
            0 <= i < sites.len() && i < found.len() && (#[trigger] sites[i]).member == member
                && names_override(facts, found[i]);
        let places = found[i];
        let j = choose|j: int|
            0 <= j < places.len() && is_override(target_of(facts, #[trigger] places[j], None));
        assert(resource_of_uri(facts, found[i][j].uri) is Some);
    }
}

// ---------------------------------------------------------------------
// Files outside the Workspace
// ---------------------------------------------------------------------

/// What is named in a module outside the Workspace is the last segment of
/// what is written: `json.dumps` names `dumps`, and nothing names nothing.
pub proof fn law_the_last_segment_is_what_is_named(before: Chars, name: Chars)
    requires
        !name.contains('.'),
        name.len() > 0,
    ensures
        named_symbol(Some(name)) == Some(name),
        named_symbol(Some(before.push('.') + name)) == Some(name),
        named_symbol(None) is None,
{
    let pieces = seq![name];
    assert forall|i: int| 0 <= i < pieces.len() implies !(#[trigger] pieces[i]).contains('.') by {}
    crate::text::lemma_join_then_split(pieces, '.');
    assert(join(pieces, seq!['.']) == name);
    lemma_split_around(before, name, '.');
    assert((split(before, '.') + pieces).last() == name);
}

/// A module outside the Workspace is known by its dotted path and its first
/// part, a symbol in it by its name behind that path, and neither by a
/// version or a place on disk.
pub proof fn law_an_external_thing_is_known_by_its_path(parts: Seq<Chars>, symbol: Chars)
    requires
        parts.len() > 0,
    ensures
        ({
            let module = external_of_module(parts, None);
            let named = external_of_module(parts, Some(symbol));
            &&& module.package_identity == parts[0]
            &&& named.package_identity == parts[0]
            &&& module.module_identity == Some(join(parts, "."@))
            &&& named.module_identity == Some(join(parts, "."@))
            &&& module.symbol_name is None
            &&& module.qualified_name is None
            &&& named.symbol_name == Some(symbol)
            &&& named.qualified_name == Some(join(parts, "."@) + "."@ + symbol)
            &&& module.kind == "PYTHON_MODULE"@
            &&& named.kind == "PYTHON_SYMBOL"@
            &&& module.resolved_version is None
            &&& named.resolved_version is None
            &&& module.declaration_locator is None
            &&& named.declaration_locator is None
        }),
{
}

/// A file is the module of its directories and its name without the
/// extension; the `__init__` of a package is the package.
pub proof fn law_a_file_is_the_module_of_its_name(
    directories: Seq<Chars>,
    name: Chars,
    extension: Chars,
)
    requires
        !extension.contains('.'),
    ensures
        name != "__init__"@ ==> crate::python_semantic::normalize::module_of_file(
            directories.push(name.push('.') + extension),
        ) == directories.push(name),
        crate::python_semantic::normalize::module_of_file(
            directories.push("__init__"@.push('.') + extension),
        ) == directories,
{
    crate::text::lemma_before_last(name, extension, '.');
    crate::text::lemma_before_last("__init__"@, extension, '.');
    assert(directories.push(name.push('.') + extension).drop_last() =~= directories);
    assert(directories.push("__init__"@.push('.') + extension).drop_last() =~= directories);
}

/// The first import root that holds a file is the one it is named below, and
/// a file below none of them has no name.
pub proof fn law_the_first_root_that_holds_a_file_names_it(
    path: Chars,
    roots: Seq<Chars>,
    at: int,
)
    requires
        0 <= at <= roots.len(),
        forall|i: int| 0 <= i < at ==> components_below(path, #[trigger] roots[i]) is None,
        at < roots.len() ==> components_below(path, roots[at]) is Some,
    ensures
        at < roots.len() ==> below_first_root(path, roots) == components_below(path, roots[at]),
        at == roots.len() ==> below_first_root(path, roots) is None && external_of(
            path,
            roots,
            None,
        ) is None,
{
    lemma_no_root(path, roots.take(at));
    if at < roots.len() {
        assert(roots.take(at + 1).drop_last() =~= roots.take(at));
        assert(roots.take(at + 1).last() == roots[at]);
        lemma_first_root_stays(path, roots, at + 1);
    } else {
        assert(roots.take(at) =~= roots);
    }
}

proof fn lemma_no_root(path: Chars, roots: Seq<Chars>)
    requires
        forall|i: int| 0 <= i < roots.len() ==> components_below(path, #[trigger] roots[i]) is None,
    ensures
        below_first_root(path, roots) is None,
    decreases roots.len(),
{
    if roots.len() > 0 {
        let fewer = roots.drop_last();
        assert forall|i: int| 0 <= i < fewer.len() implies components_below(
            path,
            #[trigger] fewer[i],
        ) is None by {
            assert(fewer[i] == roots[i]);
        }
        lemma_no_root(path, fewer);
        assert(roots[roots.len() - 1] == roots.last());
    }
}

/// The import roots are the paths that the reported URIs name, each as often
/// as it is named; what names no path is left out.
pub proof fn law_import_roots_are_the_reported_paths(uris: Seq<Chars>, path: Chars)
    ensures
        import_roots(uris).contains(path) <==> exists|i: int|
            0 <= i < uris.len() && path_of_uri(#[trigger] uris[i]) == Some(path),
    decreases uris.len(),
{
    broadcast use vstd::seq_lib::group_to_multiset_ensures;

    if uris.len() > 0 {
        let fewer = uris.drop_last();
        let before = import_roots(fewer);
        law_import_roots_are_the_reported_paths(fewer, path);
        lemma_import_roots_longest_first(fewer);
        assert(uris[uris.len() - 1] == uris.last());
        if let Some(last) = path_of_uri(uris.last()) {
            lemma_placed_by_length(before, last);
            assert(placed_by_length(before, last).to_multiset() == before.to_multiset().insert(last));
            assert(before.contains(path) <==> before.to_multiset().contains(path));
            assert(import_roots(uris).contains(path) <==> import_roots(
                uris,
            ).to_multiset().contains(path));
        }
        if exists|i: int| 0 <= i < fewer.len() && path_of_uri(#[trigger] fewer[i]) == Some(path) {
            let i = choose|i: int|
                0 <= i < fewer.len() && path_of_uri(#[trigger] fewer[i]) == Some(path);
            assert(path_of_uri(uris[i]) == Some(path));
        }
        if exists|i: int| 0 <= i < uris.len() && path_of_uri(#[trigger] uris[i]) == Some(path) {
            let i = choose|i: int|
                0 <= i < uris.len() && path_of_uri(#[trigger] uris[i]) == Some(path);
            if i < fewer.len() {
                assert(path_of_uri(fewer[i]) == Some(path));
            }
        }
    }
}

// ---------------------------------------------------------------------
// Targets
// ---------------------------------------------------------------------

/// The Resource that is looked up by a key is ACTIVE and has that key, it is
/// the first that does, and it is found wherever there is one.
pub proof fn law_a_key_finds_the_active_resource(resources: Seq<Resource>, key: Chars)
    ensures
        active_by_key(resources, key) matches Some(found) ==> found.state == ResourceState::Active
            && found.path_key@ == key && resources.contains(found),
        active_by_key(resources, key) is None ==> forall|i: int|
            0 <= i < resources.len() ==> (#[trigger] resources[i]).path_key@ != key
                || resources[i].state == ResourceState::Deleted,
    decreases resources.len(),
{
    if resources.len() > 0 {
        let fewer = resources.drop_last();
        law_a_key_finds_the_active_resource(fewer, key);
        assert(resources[resources.len() - 1] == resources.last());
        if let Some(found) = active_by_key(fewer, key) {
            let i = choose|i: int| 0 <= i < fewer.len() && fewer[i] == found;
            assert(resources[i] == found);
        }
        assert forall|i: int|
            0 <= i < resources.len() && active_by_key(resources, key) is None implies (
        #[trigger] resources[i]).path_key@ != key || resources[i].state
            == ResourceState::Deleted by {
            if i < fewer.len() {
                assert(fewer[i] == resources[i]);
            }
        }
    }
}

/// A file of the Workspace is recognized by its URI: the URI of a path below
/// the root leads to the ACTIVE Resource that is kept under that path.
pub proof fn law_a_workspace_file_is_recognized_by_its_uri(
    facts: WorkspaceFacts,
    names: Seq<Chars>,
)
    requires
        names.len() > 0,
        forall|i: int| 0 <= i < names.len() ==> plain_name(#[trigger] names[i]),
        ({
            let path = path_join(facts.root, path_of(names));
            &&& !path.contains('\\')
            &&& path.len() > 0
            &&& path[0] == '/'
            &&& !starts_with_drive(path.skip(1))
        }),
    ensures
        resource_of_uri(facts, uri_of_path(path_join(facts.root, path_of(names))))
            == active_by_key(facts.resources, join(names, "/"@)),
{
    lemma_uri_round_trip(path_join(facts.root, path_of(names)));
    lemma_components_of_join(facts.root, names);
}

/// The text that a Resource is matched in is its own, and is found wherever
/// one could be read.
pub proof fn law_a_resource_is_matched_in_its_own_text(
    texts: Seq<SourceText>,
    resource: ResourceId,
)
    ensures
        text_of_resource(texts, resource) matches Some(text) ==> exists|i: int|
            0 <= i < texts.len() && (#[trigger] texts[i]).resource == resource && texts[i].text@
                == text,
        text_of_resource(texts, resource) is None ==> forall|i: int|
            0 <= i < texts.len() ==> (#[trigger] texts[i]).resource != resource,
    decreases texts.len(),
{
    if texts.len() > 0 {
        let fewer = texts.drop_last();
        law_a_resource_is_matched_in_its_own_text(fewer, resource);
        assert(texts[texts.len() - 1] == texts.last());
        if let Some(text) = text_of_resource(fewer, resource) {
            let i = choose|i: int|
                0 <= i < fewer.len() && (#[trigger] fewer[i]).resource == resource
                    && fewer[i].text@ == text;
            assert(texts[i].resource == resource);
        }
        assert forall|i: int|
            0 <= i < texts.len() && text_of_resource(texts, resource) is None implies (
        #[trigger] texts[i]).resource != resource by {
            if i < fewer.len() {
                assert(fewer[i] == texts[i]);
            }
        }
    }
}

/// The name of a declaration at exactly those bytes of a Resource.
pub open spec fn names_at(
    anchor: SymbolAnchor,
    resource: ResourceId,
    start: nat,
    end: nat,
) -> bool {
    anchor.resource == resource && anchor.start_byte == start && anchor.end_byte == end
}

/// A place in the Workspace is the declaration that is named at exactly its
/// bytes: one such declaration is the target, between several nothing
/// chooses, and where none is named there the place stays unresolved. A place
/// that covers nothing is the Resource itself.
pub proof fn law_a_place_is_the_declaration_named_there(
    facts: WorkspaceFacts,
    place: LocationView,
    written: Option<Chars>,
    resource: Resource,
    text: Chars,
    start: nat,
    end: nat,
)
    requires
        resource_of_uri(facts, place.uri) == Some(resource),
        text_of_resource(facts.texts, resource.id) == Some(text),
        bytes_of_range(text, place.range) == Some((start, end)),
    ensures
        place.range.start == place.range.end ==> target_of(facts, place, written)
            == TargetView::Endpoint(EndpointView::Resource(resource.id)),
        place.range.start != place.range.end ==> {
            &&& (forall|k: int|
                0 <= k < facts.anchors.len() ==> !names_at(
                    #[trigger] facts.anchors[k],
                    resource.id,
                    start,
                    end,
                )) ==> target_of(facts, place, written) == TargetView::Unmappable(
                UnresolvedReason::NoStructuralBinding,
            )
            &&& forall|k: int|
                0 <= k < facts.anchors.len() && names_at(
                    #[trigger] facts.anchors[k],
                    resource.id,
                    start,
                    end,
                ) && (forall|l: int|
                    0 <= l < facts.anchors.len() && l != k ==> !names_at(
                        #[trigger] facts.anchors[l],
                        resource.id,
                        start,
                        end,
                    )) ==> target_of(facts, place, written) == TargetView::Endpoint(
                    EndpointView::Symbol(facts.anchors[k].symbol),
                )
            &&& forall|k: int, l: int|
                0 <= k < l < facts.anchors.len() && names_at(
                    #[trigger] facts.anchors[k],
                    resource.id,
                    start,
                    end,
                ) && names_at(#[trigger] facts.anchors[l], resource.id, start, end) ==> target_of(
                    facts,
                    place,
                    written,
                ) == TargetView::Unmappable(UnresolvedReason::AmbiguousCandidates)
        },
{
    let keeps = |anchor: SymbolAnchor|
        anchor.resource == resource.id && anchor.start_byte == (start, end).0 && anchor.end_byte
            == (start, end).1;
    assert(anchored(facts.anchors, resource.id, (start, end)) == facts.anchors.filter(keeps));
    assert forall|k: int, l: int|
        0 <= k < l < facts.anchors.len() && names_at(
            #[trigger] facts.anchors[k],
            resource.id,
            start,
            end,
        ) && names_at(#[trigger] facts.anchors[l], resource.id, start, end) implies anchored(
        facts.anchors,
        resource.id,
        (start, end),
    ).len() >= 2 by {
        lemma_two_kept(facts.anchors, keeps, k, l);
    }
    assert forall|k: int|
        0 <= k < facts.anchors.len() && names_at(
            #[trigger] facts.anchors[k],
            resource.id,
            start,
            end,
        ) && (forall|l: int|
            0 <= l < facts.anchors.len() && l != k ==> !names_at(
                #[trigger] facts.anchors[l],
                resource.id,
                start,
                end,
            )) implies anchored(facts.anchors, resource.id, (start, end)) == seq![
        facts.anchors[k],
    ] by {
        assert forall|l: int| 0 <= l < facts.anchors.len() && l != k implies !keeps(
            #[trigger] facts.anchors[l],
        ) by {
            assert(!names_at(facts.anchors[l], resource.id, start, end));
        }
        lemma_one_kept(facts.anchors, keeps, k);
    }
    if forall|k: int|
        0 <= k < facts.anchors.len() ==> !names_at(
            #[trigger] facts.anchors[k],
            resource.id,
            start,
            end,
        ) {
        assert forall|k: int| 0 <= k < facts.anchors.len() implies !keeps(
            #[trigger] facts.anchors[k],
        ) by {
            assert(!names_at(facts.anchors[k], resource.id, start, end));
        }
        lemma_none_kept(facts.anchors, keeps);
    }
}

proof fn lemma_none_kept<T>(all: Seq<T>, keeps: spec_fn(T) -> bool)
    requires
        forall|k: int| 0 <= k < all.len() ==> !keeps(#[trigger] all[k]),
    ensures
        all.filter(keeps).len() == 0,
    decreases all.len(),
{
    reveal(Seq::filter);
    if all.len() > 0 {
        let fewer = all.drop_last();
        assert forall|k: int| 0 <= k < fewer.len() implies !keeps(#[trigger] fewer[k]) by {
            assert(fewer[k] == all[k]);
        }
        lemma_none_kept(fewer, keeps);
        assert(!keeps(all[all.len() - 1]));
    }
}

proof fn lemma_one_kept<T>(all: Seq<T>, keeps: spec_fn(T) -> bool, at: int)
    requires
        0 <= at < all.len(),
        keeps(all[at]),
        forall|k: int| 0 <= k < all.len() && k != at ==> !keeps(#[trigger] all[k]),
    ensures
        all.filter(keeps) == seq![all[at]],
    decreases all.len(),
{
    reveal(Seq::filter);
    let fewer = all.drop_last();
    if at == all.len() - 1 {
        assert forall|k: int| 0 <= k < fewer.len() implies !keeps(#[trigger] fewer[k]) by {
            assert(fewer[k] == all[k]);
        }
        lemma_none_kept(fewer, keeps);
        assert(all.filter(keeps) =~= seq![all[at]]);
    } else {
        assert forall|k: int| 0 <= k < fewer.len() && k != at implies !keeps(
            #[trigger] fewer[k],
        ) by {
            assert(fewer[k] == all[k]);
        }
        lemma_one_kept(fewer, keeps, at);
        assert(!keeps(all[all.len() - 1]));
    }
}

proof fn lemma_two_kept<T>(all: Seq<T>, keeps: spec_fn(T) -> bool, first: int, second: int)
    requires
        0 <= first < second < all.len(),
        keeps(all[first]),
        keeps(all[second]),
    ensures
        all.filter(keeps).len() >= 2,
    decreases all.len(),
{
    reveal(Seq::filter);
    let fewer = all.drop_last();
    if second == all.len() - 1 {
        fewer.lemma_filter_contains(keeps, first);
        assert(fewer.filter(keeps).len() >= 1);
    } else {
        lemma_two_kept(fewer, keeps, first, second);
    }
}

/// Outside the Workspace a place is what its file is there, by the name that
/// is written; a file below no import root stays unresolved.
pub proof fn law_a_place_outside_is_named_by_its_file(
    facts: WorkspaceFacts,
    place: LocationView,
    written: Option<Chars>,
    path: Chars,
)
    requires
        resource_of_uri(facts, place.uri) is None,
        path_of_uri(place.uri) == Some(path),
    ensures
        external_of(path, facts.search_paths, written) matches Some(entity) ==> target_of(
            facts,
            place,
            written,
        ) == TargetView::Endpoint(EndpointView::External(entity)),
        external_of(path, facts.search_paths, written) is None ==> target_of(facts, place, written)
            == TargetView::Unmappable(UnresolvedReason::NoStructuralBinding),
{
}

// ---------------------------------------------------------------------
// What was read
// ---------------------------------------------------------------------

/// The Resource is among the reads.
pub open spec fn has_read(reads: Reads, resource: ResourceId) -> bool {
    exists|i: int| 0 <= i < reads.len() && (#[trigger] reads[i]).0 == resource
}

/// The reads are in the order of their ids.
pub open spec fn reads_in_order(reads: Reads) -> bool {
    forall|i: int, j: int| 0 <= i < j < reads.len() ==> reads[i].0.value < reads[j].0.value
}

/// A read is recorded once, at the revision it was first read at, and in the
/// order of the ids; every other read stays.
pub proof fn law_a_read_is_recorded_once(reads: Reads, resource: ResourceId, revision: Chars)
    requires
        reads_in_order(reads),
    ensures
        reads_in_order(with_read(reads, resource, revision)),
        has_read(with_read(reads, resource, revision), resource),
        has_read(reads, resource) ==> with_read(reads, resource, revision) == reads,
        !has_read(reads, resource) ==> with_read(reads, resource, revision).contains(
            (resource, revision),
        ) && with_read(reads, resource, revision).len() == reads.len() + 1,
        forall|i: int|
            0 <= i < reads.len() ==> with_read(reads, resource, revision).contains(
                #[trigger] reads[i],
            ),
    decreases reads.len(),
{
    let after = with_read(reads, resource, revision);
    if reads.len() == 0 || reads.last().0.value < resource.value {
        assert(after == reads.push((resource, revision)));
        assert(after[reads.len() as int] == (resource, revision));
        assert forall|i: int| 0 <= i < reads.len() implies after.contains(#[trigger] reads[i]) by {
            assert(after[i] == reads[i]);
        }
        if has_read(reads, resource) {
            let i = choose|i: int| 0 <= i < reads.len() && (#[trigger] reads[i]).0 == resource;
            if i < reads.len() - 1 {
                assert(reads[i].0.value < reads[reads.len() - 1].0.value);
            }
        }
    } else if reads.last().0 == resource {
        assert(reads[reads.len() - 1].0 == resource);
    } else {
        let fewer = reads.drop_last();
        assert(reads[reads.len() - 1].0.value > resource.value) by {
            assert(reads.last().0.value != resource.value);
        }
        law_a_read_is_recorded_once(fewer, resource, revision);
        let inner = with_read(fewer, resource, revision);
        assert(after == inner.push(reads.last()));
        let last = inner.len() as int;
        assert(after[last] == reads.last());
        lemma_reads_stay_below(fewer, resource, revision, reads.last().0);
        if has_read(reads, resource) {
            let i = choose|i: int| 0 <= i < reads.len() && (#[trigger] reads[i]).0 == resource;
            assert(fewer[i].0 == resource);
            assert(after =~= reads);
        }
        if has_read(fewer, resource) {
            let i = choose|i: int| 0 <= i < fewer.len() && (#[trigger] fewer[i]).0 == resource;
            assert(reads[i].0 == resource);
        }
        let h = choose|i: int| 0 <= i < inner.len() && (#[trigger] inner[i]).0 == resource;
        assert(after[h].0 == resource);
        if !has_read(reads, resource) {
            let i = choose|i: int| 0 <= i < inner.len() && inner[i] == (resource, revision);
            assert(after[i] == (resource, revision));
        }
        assert forall|i: int| 0 <= i < reads.len() implies after.contains(#[trigger] reads[i]) by {
            if i < fewer.len() {
                assert(inner.contains(fewer[i]));
                let k = choose|k: int| 0 <= k < inner.len() && inner[k] == fewer[i];
                assert(after[k] == reads[i]);
            } else {
                assert(after[last] == reads[i]);
            }
        }
    }
}

proof fn lemma_reads_stay_below(
    reads: Reads,
    resource: ResourceId,
    revision: Chars,
    bound: ResourceId,
)
    requires
        resource.value < bound.value,
        forall|i: int| 0 <= i < reads.len() ==> (#[trigger] reads[i]).0.value < bound.value,
    ensures
        forall|i: int|
            0 <= i < with_read(reads, resource, revision).len() ==> (#[trigger] with_read(
                reads,
                resource,
                revision,
            )[i]).0.value < bound.value,
    decreases reads.len(),
{
    if reads.len() > 0 && reads.last().0.value >= resource.value && reads.last().0 != resource {
        let fewer = reads.drop_last();
        assert forall|i: int| 0 <= i < fewer.len() implies (#[trigger] fewer[i]).0.value
            < bound.value by {
            assert(fewer[i] == reads[i]);
        }
        lemma_reads_stay_below(fewer, resource, revision, bound);
        assert(reads[reads.len() - 1].0.value < bound.value);
        let inner = with_read(fewer, resource, revision);
        let after = with_read(reads, resource, revision);
        assert(after == inner.push(reads.last()));
        assert forall|i: int| 0 <= i < after.len() implies (#[trigger] after[i]).0.value
            < bound.value by {
            if i < inner.len() {
                assert(inner[i].0.value < bound.value);
            }
        }
    } else if reads.len() > 0 && reads.last().0 == resource {
        assert(with_read(reads, resource, revision) == reads);
    } else {
        let after = reads.push((resource, revision));
        assert forall|i: int| 0 <= i < after.len() implies (#[trigger] after[i]).0.value
            < bound.value by {
            if i < reads.len() {
                assert(reads[i].0.value < bound.value);
            }
        }
    }
}

/// A place is matched in the bytes of the Resource that it lies in, so that
/// Resource is read, at the revision it has; a place outside, a whole file
/// and a file that could not be read add nothing.
pub proof fn law_matching_a_place_reads_its_resource(
    reads: Reads,
    facts: WorkspaceFacts,
    place: LocationView,
)
    requires
        reads_in_order(reads),
    ensures
        resource_of_uri(facts, place.uri) matches Some(resource) ==> (place.range.start
            != place.range.end && text_of_resource(facts.texts, resource.id) is Some ==> has_read(
            reads_after(reads, facts, place),
            resource.id,
        ) && (!has_read(reads, resource.id) ==> reads_after(reads, facts, place).contains(
            (resource.id, resource.resource_revision@),
        ))),
        resource_of_uri(facts, place.uri) is None ==> reads_after(reads, facts, place) == reads,
        place.range.start == place.range.end ==> reads_after(reads, facts, place) == reads,
        resource_of_uri(facts, place.uri) matches Some(resource) ==> (text_of_resource(
            facts.texts,
            resource.id,
        ) is None ==> reads_after(reads, facts, place) == reads),
{
    if let Some(resource) = resource_of_uri(facts, place.uri) {
        law_a_read_is_recorded_once(reads, resource.id, resource.resource_revision@);
    }
}

// ---------------------------------------------------------------------
// Outcomes
// ---------------------------------------------------------------------

/// An endpoint is among the targets.
pub open spec fn endpoint_among(targets: Seq<TargetView>, endpoint: EndpointView) -> bool {
    exists|i: int|
        0 <= i < targets.len() && #[trigger] targets[i] == TargetView::Endpoint(endpoint)
}

proof fn lemma_distinct(targets: Seq<TargetView>)
    ensures
        forall|endpoint: EndpointView|
            distinct_endpoints(targets).contains(endpoint) <==> endpoint_among(targets, endpoint),
        distinct_endpoints(targets).no_duplicates(),
    decreases targets.len(),
{
    if targets.len() > 0 {
        let fewer = targets.drop_last();
        lemma_distinct(fewer);
        let earlier = distinct_endpoints(fewer);
        let all = distinct_endpoints(targets);
        assert(targets[targets.len() - 1] == targets.last());
        assert forall|endpoint: EndpointView|
            all.contains(endpoint) <==> endpoint_among(targets, endpoint) by {
            if endpoint_among(fewer, endpoint) {
                let i = choose|i: int|
                    0 <= i < fewer.len() && #[trigger] fewer[i] == TargetView::Endpoint(endpoint);
                assert(targets[i] == TargetView::Endpoint(endpoint));
                assert(earlier.contains(endpoint));
                let k = choose|k: int| 0 <= k < earlier.len() && earlier[k] == endpoint;
                assert(all[k] == endpoint);
            }
            if endpoint_among(targets, endpoint) {
                let i = choose|i: int|
                    0 <= i < targets.len() && #[trigger] targets[i] == TargetView::Endpoint(
                        endpoint,
                    );
                if i < fewer.len() {
                    assert(fewer[i] == TargetView::Endpoint(endpoint));
                } else {
                    if !earlier.contains(endpoint) {
                        assert(all[earlier.len() as int] == endpoint);
                    }
                }
            }
            if all.contains(endpoint) && !earlier.contains(endpoint) {
                let k = choose|k: int| 0 <= k < all.len() && all[k] == endpoint;
                assert(k == earlier.len());
            }
        }
    }
}

proof fn lemma_first_reason(targets: Seq<TargetView>, at: int)
    requires
        0 <= at <= targets.len(),
        forall|i: int| 0 <= i < at ==> (#[trigger] targets[i]) is Endpoint,
        at < targets.len() ==> targets[at] is Unmappable,
    ensures
        first_reason(targets) == if at < targets.len() {
            Some(targets[at]->Unmappable_0)
        } else {
            None
        },
    decreases targets.len(),
{
    if targets.len() > 0 {
        let fewer = targets.drop_last();
        assert(targets[targets.len() - 1] == targets.last());
        assert forall|i: int| 0 <= i < at && i < fewer.len() implies (
        #[trigger] fewer[i]) is Endpoint by {
            assert(fewer[i] == targets[i]);
        }
        if at < fewer.len() {
            assert(fewer[at] == targets[at]);
            lemma_first_reason(fewer, at);
        } else {
            lemma_first_reason(fewer, fewer.len() as int);
            if at == targets.len() {
                assert(targets[at - 1] is Endpoint);
            }
        }
    }
}

/// An answer resolves exactly when all the places it names that lead
/// somewhere lead to one thing; where they lead to several, these are the
/// candidates, each once, and none is picked; where none leads anywhere, the
/// first reason stands, and the reason that was known where nothing was
/// named.
pub proof fn law_an_answer_resolves_when_its_places_agree(
    targets: Seq<TargetView>,
    known: UnresolvedReason,
    endpoint: EndpointView,
)
    ensures
        outcome_of_targets(targets, known) == OutcomeView::Resolved(endpoint) <==> endpoint_among(
            targets,
            endpoint,
        ) && (forall|other: EndpointView|
            endpoint_among(targets, other) ==> other == endpoint),
        outcome_of_targets(targets, known) matches OutcomeView::Candidates(found)
            ==> found.no_duplicates() && found.len() >= 2 && forall|other: EndpointView|
            found.contains(other) <==> endpoint_among(targets, other),
        outcome_of_targets(targets, known) is Unresolved <==> forall|other: EndpointView|
            !endpoint_among(targets, other),
        targets.len() == 0 ==> outcome_of_targets(targets, known) == OutcomeView::Unresolved(known),
        targets.len() > 0 && (forall|i: int|
            0 <= i < targets.len() ==> (#[trigger] targets[i]) is Unmappable)
            ==> outcome_of_targets(targets, known) == OutcomeView::Unresolved(
            targets[0]->Unmappable_0,
        ),
{
    lemma_distinct(targets);
    let all = distinct_endpoints(targets);
    if all.len() >= 1 {
        assert(all.contains(all[0]));
    }
    if all.len() >= 2 {
        assert(all.contains(all[1]));
        assert(all[0] != all[1]);
    }
    assert(forall|other: EndpointView| #[trigger]
        all.contains(other) <==> endpoint_among(targets, other));
    if all.len() == 1 {
        assert forall|other: EndpointView| endpoint_among(targets, other) implies other
            == all[0] by {
            assert(all.contains(other));
        }
    }
    if all.len() == 0 {
        assert forall|other: EndpointView| !endpoint_among(targets, other) by {
            assert(!all.contains(other));
        }
    } else {
        assert(endpoint_among(targets, all[0]));
    }
    if endpoint_among(targets, endpoint) {
        assert(all.contains(endpoint));
        if all.len() >= 2 {
            assert(endpoint_among(targets, all[0]) && endpoint_among(targets, all[1]));
        }
    }
    if targets.len() > 0 && (forall|i: int|
        0 <= i < targets.len() ==> (#[trigger] targets[i]) is Unmappable) {
        assert(targets[0] is Unmappable);
        lemma_first_reason(targets, 0);
        assert(all.len() == 0) by {
            if all.len() > 0 {
                let other = all[0];
                let i = choose|i: int|
                    0 <= i < targets.len() && #[trigger] targets[i] == TargetView::Endpoint(other);
                assert(targets[i] is Unmappable);
            }
        }
    }
}

// ---------------------------------------------------------------------
// Gaps
// ---------------------------------------------------------------------

/// A gap becomes the relation that it was left open for; a base list is
/// inheritance however it is labelled, and what nobody writes at a site is
/// not asked about.
pub proof fn law_a_gap_becomes_the_relation_it_was_open_for(intended: IntendedRelation)
    ensures
        resolvable(intended) matches Some(kind) ==> match intended {
            IntendedRelation::Known(relation) => relation_of(kind) == relation,
            IntendedRelation::Inheritance => relation_of(kind) == RelationKind::Extends,
        },
        resolvable(intended) is None <==> intended == IntendedRelation::Known(
            RelationKind::Implements,
        ) || intended == IntendedRelation::Known(RelationKind::Overrides),
        resolvable(IntendedRelation::Inheritance) == resolvable(
            IntendedRelation::Known(RelationKind::Extends),
        ),
{
}

/// A call through a receiver may be taken over at run time, so what runs is
/// unknown; everything else is bound where it is written.
pub proof fn law_a_member_call_has_an_unknown_dispatch(intended: IntendedRelation, member: bool)
    ensures
        resolvable(intended) matches Some(kind) ==> (dispatch_of(kind, member) == Dispatch::Unknown
            <==> intended == IntendedRelation::Known(RelationKind::Calls) && member),
{
}

/// The capability that answered tells where the answer leads: out of the
/// Workspace for an import of a dependency and a call into one, and else by
/// the kind of the gap alone.
pub proof fn law_the_capability_tells_where_the_answer_leads(
    intended: IntendedRelation,
    outcome: OutcomeView,
)
    requires
        resolvable(intended) is Some,
    ensures
        ({
            let capability = answering_capability(resolvable(intended)->0, outcome);
            let external = outcome matches OutcomeView::Resolved(EndpointView::External(_));
            &&& intended == IntendedRelation::Known(RelationKind::Imports) ==> capability
                == if external {
                SemanticCapability::ExternalSymbolResolution
            } else {
                SemanticCapability::ImportBinding
            }
            &&& intended == IntendedRelation::Known(RelationKind::Calls) ==> capability
                == if external {
                SemanticCapability::CallsCrossFile
            } else {
                SemanticCapability::CallsIntraFile
            }
            &&& intended == IntendedRelation::Known(RelationKind::References) ==> capability
                == SemanticCapability::References
            &&& intended == IntendedRelation::Known(RelationKind::UsesType) ==> capability
                == SemanticCapability::TypeResolution
            &&& intended == IntendedRelation::Known(RelationKind::Extends) || intended
                == IntendedRelation::Inheritance ==> capability == SemanticCapability::Inheritance
        }),
{
}

/// A gap is asked about at its own site: a type by its whole range, a module
/// path as a module, and any other name by its last character; a site that
/// does not convert is not asked about.
pub proof fn law_a_gap_is_asked_about_at_its_site(
    text: Chars,
    site: OccurrenceRef,
    intended: IntendedRelation,
)
    ensures
        ({
            let question = question_about(text, site, intended);
            let start = site.start_byte as nat;
            let end = site.end_byte as nat;
            let written = text_between(text, start, end);
            let last = last_character_of_bytes(text, start, end);
            let asks_module = intended == IntendedRelation::Known(RelationKind::Imports)
                && module_site(written);
            let asks_name = (intended == IntendedRelation::Known(RelationKind::Imports)
                && !module_site(written)) || intended == IntendedRelation::Known(
                RelationKind::Calls,
            ) || intended == IntendedRelation::Known(RelationKind::References) || intended
                == IntendedRelation::Known(RelationKind::Extends) || intended
                == IntendedRelation::Inheritance;
            &&& intended == IntendedRelation::Known(RelationKind::UsesType) ==> match range_of_bytes(
                text,
                start,
                end,
            ) {
                Some(range) => question == GapQuestion::Type(range),
                None => question is Nothing,
            }
            &&& asks_module ==> question == (GapQuestion::Module {
                dots: leading_dots(written),
                parts: module_parts(written),
            })
            &&& asks_name ==> match last {
                Some(position) => question == GapQuestion::Definition(position),
                None => question is Nothing,
            }
            &&& intended == IntendedRelation::Known(RelationKind::Overrides) || intended
                == IntendedRelation::Known(RelationKind::Implements) ==> question is Nothing
        }),
{
}

/// A type is asked for as it is declared, and as it is computed only where
/// the declaration places it nowhere; an error ends the asking.
pub proof fn law_a_type_is_asked_for_as_declared_first(
    uri: Chars,
    range: Range,
    exchanges: Seq<Exchange>,
    answer: Result<AnswerView, BatchError>,
)
    requires
        answered(GapQuestion::Type(range), uri, exchanges, answer),
    ensures
        1 <= exchanges.len() <= 2,
        exchanges[0].request matches PythonRequest::DeclaredType { uri: asked, range: about, .. }
            && asked@ == uri && about == range,
        exchanges.len() == 2 ==> (exchanges[1].request matches PythonRequest::ComputedType {
            uri: asked,
            range: about,
            ..
        } && asked@ == uri && about == range),
        batch_answer(exchanges[0].answer) matches Err(error) ==> exchanges.len() == 1 && answer
            == Err::<AnswerView, BatchError>(error),
        placed_by(batch_answer(exchanges[0].answer)) matches Some(place) ==> exchanges.len() == 1
            && answer == Ok::<AnswerView, BatchError>(
            AnswerView::Places { locations: seq![place], by_name: false },
        ),
        batch_answer(exchanges[0].answer) is Ok && placed_by(batch_answer(exchanges[0].answer))
            is None ==> exchanges.len() == 2,
        exchanges.len() == 2 ==> (batch_answer(exchanges[1].answer) matches Err(error) ==> answer
            == Err::<AnswerView, BatchError>(error)),
        exchanges.len() == 2 && batch_answer(exchanges[1].answer) is Ok ==> answer == Ok::<
            AnswerView,
            BatchError,
        >(
            AnswerView::Places {
                locations: match placed_by(batch_answer(exchanges[1].answer)) {
                    Some(place) => seq![place],
                    None => Seq::empty(),
                },
                by_name: false,
            },
        ),
{
}

/// Where nothing is to be asked, nothing is, and an answer of another kind
/// than the question is refused.
pub proof fn law_an_answer_of_another_kind_is_refused(
    question: GapQuestion,
    uri: Chars,
    exchanges: Seq<Exchange>,
    answer: Result<AnswerView, BatchError>,
)
    requires
        answered(question, uri, exchanges, answer),
    ensures
        question is Nothing <==> exchanges.len() == 0,
        question is Nothing ==> answer == Ok::<AnswerView, BatchError>(AnswerView::NotAsked),
        question is Definition && batch_answer(exchanges[0].answer) is Ok && !(batch_answer(
            exchanges[0].answer,
        )->Ok_0 is Locations) ==> answer is Err && answer->Err_0 is Protocol,
        question is Module && batch_answer(exchanges[0].answer) is Ok && !(batch_answer(
            exchanges[0].answer,
        )->Ok_0 is Import) ==> answer is Err && answer->Err_0 is Protocol,
{
}

/// The locations of each list are resolved after those of the lists before
/// it.
pub proof fn law_lists_are_resolved_in_order(
    reads: Reads,
    facts: WorkspaceFacts,
    lists: Seq<Seq<LocationView>>,
    next: Seq<LocationView>,
    location: LocationView,
)
    ensures
        reads_after_lists(reads, facts, Seq::empty()) == reads,
        reads_after_lists(reads, facts, lists.push(next)) == reads_after_all(
            reads_after_lists(reads, facts, lists),
            facts,
            next,
        ),
        reads_after_all(reads, facts, Seq::empty()) == reads,
        reads_after_all(reads, facts, next.push(location)) == reads_after(
            reads_after_all(reads, facts, next),
            facts,
            location,
        ),
{
    assert(lists.push(next).drop_last() =~= lists);
    assert(next.push(location).drop_last() =~= next);
}

/// A name is asked for where it is defined, once, and the places that come
/// back are what is resolved, under the name that is written.
pub proof fn law_a_name_is_asked_for_where_it_is_defined(
    uri: Chars,
    position: crate::python_semantic::coordinates::Position,
    exchanges: Seq<Exchange>,
    answer: Result<AnswerView, BatchError>,
)
    requires
        answered(GapQuestion::Definition(position), uri, exchanges, answer),
    ensures
        exchanges.len() == 1,
        exchanges[0].request matches PythonRequest::Definition { uri: asked, position: at }
            && asked@ == uri && at == position,
        batch_answer(exchanges[0].answer) matches Ok(PythonResponse::Locations(found)) ==> answer
            == Ok::<AnswerView, BatchError>(
            AnswerView::Places {
                locations: crate::python_semantic::protocol::locations_view(found@),
                by_name: true,
            },
        ),
        batch_answer(exchanges[0].answer) matches Err(error) ==> answer == Err::<
            AnswerView,
            BatchError,
        >(error),
{
}

/// A module is asked for by its dots and names, once, and the file that comes
/// back is the whole of that file.
pub proof fn law_a_module_is_asked_for_by_its_path(
    uri: Chars,
    dots: nat,
    parts: Seq<Chars>,
    exchanges: Seq<Exchange>,
    answer: Result<AnswerView, BatchError>,
)
    requires
        answered(GapQuestion::Module { dots, parts }, uri, exchanges, answer),
    ensures
        exchanges.len() == 1,
        exchanges[0].request matches PythonRequest::ResolveImport { source_uri, module, .. }
            && source_uri@ == uri && module.leading_dots == dots && crate::text::all_chars(
            module.name_parts@,
        ) == parts,
        batch_answer(exchanges[0].answer) matches Ok(PythonResponse::Import(Some(file))) ==> (answer
            matches Ok(AnswerView::Places { locations, by_name }) && !by_name && locations.len()
            == 1 && locations[0].uri == file@ && locations[0].range.start
            == locations[0].range.end),
        batch_answer(exchanges[0].answer) matches Ok(PythonResponse::Import(None)) ==> answer
            == Ok::<AnswerView, BatchError>(
            AnswerView::Places { locations: Seq::empty(), by_name: false },
        ),
        batch_answer(exchanges[0].answer) matches Err(error) ==> answer == Err::<
            AnswerView,
            BatchError,
        >(error),
{
    assert(whole(Seq::empty()).range.start == whole(Seq::empty()).range.end);
}

/// A type is where it is declared; one without a declaration is its module's
/// whole file, and one with a display name alone is nowhere.
pub proof fn law_a_type_is_where_it_is_declared(answer: TypeAnswerView)
    ensures
        answer.declaration is Some ==> type_place(answer) == answer.declaration,
        answer.declaration is None && answer.module_uri is None ==> type_place(answer) is None,
        answer.declaration is None ==> (answer.module_uri matches Some(uri) ==> (type_place(answer)
            matches Some(place) && place.uri == uri && place.range.start == place.range.end)),
{
}

/// What is established about a gap names its site, its relation and its
/// owner, and is resolved by the answer to it alone.
pub proof fn law_evidence_names_its_gap(
    facts: WorkspaceFacts,
    request: RequestView,
    established: Established,
    gap: PersistedUnresolved,
    answer: AnswerView,
)
    ensures
        ({
            let after = with_gap(established, facts, request, gap, answer);
            let left_alone = gap.intended == IntendedRelation::Known(RelationKind::Implements)
                || gap.intended == IntendedRelation::Known(RelationKind::Overrides);
            &&& left_alone ==> {
                &&& after.evidence == established.evidence
                &&& after.resolved_bases == established.resolved_bases
                &&& after.reads == established.reads
                &&& after.deferred.len() == established.deferred.len() + 1
                &&& after.deferred.drop_last() == established.deferred
                &&& after.deferred.last().occurrence == gap.occurrence
                &&& after.deferred.last().intended == gap.intended
            }
            &&& !left_alone ==> {
                let made = after.evidence.last();
                &&& after.deferred == established.deferred
                &&& after.evidence.len() == established.evidence.len() + 1
                &&& after.evidence.drop_last() == established.evidence
                &&& made.context_key == request.context_key
                &&& made.occurrence == Some(gap.occurrence)
                &&& made.relation_kind == Some(
                    match gap.intended {
                        IntendedRelation::Known(relation) => relation,
                        IntendedRelation::Inheritance => RelationKind::Extends,
                    },
                )
                &&& made.basis.owner_resource == request.owner.id
                &&& made.basis.owner_resource_revision == request.owner.resource_revision@
                &&& made.basis.generation_id == request.generation_id
                &&& made.basis.analysis_profile_id == request.analysis_profile_id
                &&& made.basis.resolution_context_key is None
                &&& made.support == Support::Supported
                &&& made.source == Some(
                    source_of(request.owner.id, request.occurrences, gap.occurrence),
                )
                &&& made.dispatch == Dispatch::Unknown <==> gap.intended
                    == IntendedRelation::Known(RelationKind::Calls) && gap.module_hint is Some
                &&& made.outcome == match answer {
                    AnswerView::NotAsked => OutcomeView::Unresolved(
                        UnresolvedReason::NoStructuralBinding,
                    ),
                    AnswerView::Places { locations, by_name } => outcome_of_targets(
                        targets_of(
                            facts,
                            locations,
                            if by_name && gap.lookup_name@.len() > 0 {
                                Some(gap.lookup_name@)
                            } else {
                                None
                            },
                        ),
                        gap.reason,
                    ),
                }
            }
        }),
{
    let after = with_gap(established, facts, request, gap, answer);
    if resolvable(gap.intended) is None {
        assert(after.deferred.drop_last() =~= established.deferred);
    } else {
        assert(after.evidence.drop_last() =~= established.evidence);
    }
}

/// A base list establishes a base exactly when a class's own site resolved to
/// a class of the Workspace.
pub proof fn law_a_base_is_established_between_two_classes(
    facts: WorkspaceFacts,
    request: RequestView,
    established: Established,
    gap: PersistedUnresolved,
    answer: AnswerView,
    subclass: SymbolId,
    base: SymbolId,
)
    ensures
        ({
            let after = with_gap(established, facts, request, gap, answer);
            let inherits = gap.intended == IntendedRelation::Inheritance || gap.intended
                == IntendedRelation::Known(RelationKind::Extends);
            let source = source_of(request.owner.id, request.occurrences, gap.occurrence);
            let outcome = outcome_of_answer(facts, gap, answer);
            &&& inherits && source == EndpointView::Symbol(subclass) && outcome
                == OutcomeView::Resolved(EndpointView::Symbol(base)) ==> after.resolved_bases
                == established.resolved_bases.push((subclass, base))
            &&& !inherits || !(source is Symbol) || !(outcome matches OutcomeView::Resolved(
                EndpointView::Symbol(_),
            )) ==> after.resolved_bases == established.resolved_bases
        }),
{
}

/// The gaps are taken one after the other: one more answer adds what it
/// establishes about the next gap to what was established before.
pub proof fn law_gaps_are_taken_in_order(
    reads: Reads,
    facts: WorkspaceFacts,
    request: RequestView,
    answers: Seq<AnswerView>,
    answer: AnswerView,
)
    ensures
        established_by(reads, facts, request, answers.push(answer)) == with_gap(
            established_by(reads, facts, request, answers),
            facts,
            request,
            request.gaps[answers.len() as int],
            answer,
        ),
        established_by(reads, facts, request, Seq::empty()).evidence.len() == 0,
        established_by(reads, facts, request, Seq::empty()).reads == reads,
{
    assert(answers.push(answer).drop_last() =~= answers);
}

/// A site is from the Symbol that its first Occurrence lies in, and from the
/// Resource where none of its Occurrences lies in one.
pub proof fn law_a_site_is_from_the_symbol_around_it(
    owner: ResourceId,
    occurrences: Seq<Occurrence>,
    site: OccurrenceRef,
    at: int,
)
    requires
        0 <= at <= occurrences.len(),
        forall|i: int|
            0 <= i < at ==> !((#[trigger] occurrences[i]).kind == site.kind
                && occurrences[i].span.start_byte == site.start_byte
                && occurrences[i].span.end_byte == site.end_byte),
        at < occurrences.len() ==> occurrences[at].kind == site.kind
            && occurrences[at].span.start_byte == site.start_byte && occurrences[at].span.end_byte
            == site.end_byte,
    ensures
        source_of(owner, occurrences, site) == if at < occurrences.len() {
            match occurrences[at].containing_symbol_id {
                Some(symbol) => EndpointView::Symbol(symbol),
                None => EndpointView::Resource(owner),
            }
        } else {
            EndpointView::Resource(owner)
        },
    decreases occurrences.len(),
{
    if occurrences.len() > 0 && at > 0 {
        let rest = occurrences.skip(1);
        assert(!(occurrences[0].kind == site.kind && occurrences[0].span.start_byte
            == site.start_byte && occurrences[0].span.end_byte == site.end_byte));
        assert forall|i: int| 0 <= i < at - 1 implies !((#[trigger] rest[i]).kind == site.kind
            && rest[i].span.start_byte == site.start_byte && rest[i].span.end_byte
            == site.end_byte) by {
            assert(rest[i] == occurrences[i + 1]);
        }
        law_a_site_is_from_the_symbol_around_it(owner, rest, site, at - 1);
    }
}

// ---------------------------------------------------------------------
// Callers
// ---------------------------------------------------------------------

/// A range of a caller in the document is exactly a call site that exists.
pub open spec fn calls_at(
    text: Chars,
    occurrences: Seq<Occurrence>,
    ranges: Seq<Range>,
    site: OccurrenceRef,
) -> bool {
    exists|r: int, o: int|
        {
            &&& 0 <= r < ranges.len()
            &&& 0 <= o < occurrences.len()
            &&& bytes_of_range(text, #[trigger] ranges[r]) matches Some((start, end))
            &&& site == (OccurrenceRef {
                kind: OccurrenceKind::CallSite,
                start_byte: start as usize,
                end_byte: end as usize,
            })
            &&& (#[trigger] occurrences[o]).kind == OccurrenceKind::CallSite
            &&& occurrences[o].span.start_byte == site.start_byte
            &&& occurrences[o].span.end_byte == site.end_byte
        }
}

proof fn lemma_one_range(
    text: Chars,
    occurrences: Seq<Occurrence>,
    range: Range,
    site: OccurrenceRef,
)
    ensures
        call_site_at(text, occurrences, range) == Some(site) <==> calls_at(
            text,
            occurrences,
            seq![range],
            site,
        ),
{
    let ranges = seq![range];
    if call_site_at(text, occurrences, range) == Some(site) {
        let o = choose|o: int| 0 <= o < occurrences.len() && site.names(#[trigger] occurrences[o]);
        assert(ranges[0] == range);
        assert(occurrences[o].kind == OccurrenceKind::CallSite);
    }
    if calls_at(text, occurrences, ranges, site) {
        let (r, o) = choose|r: int, o: int|
            {
                &&& 0 <= r < ranges.len()
                &&& 0 <= o < occurrences.len()
                &&& bytes_of_range(text, #[trigger] ranges[r]) matches Some((start, end))
                &&& site == (OccurrenceRef {
                    kind: OccurrenceKind::CallSite,
                    start_byte: start as usize,
                    end_byte: end as usize,
                })
                &&& (#[trigger] occurrences[o]).kind == OccurrenceKind::CallSite
                &&& occurrences[o].span.start_byte == site.start_byte
                &&& occurrences[o].span.end_byte == site.end_byte
            };
        assert(ranges[r] == range);
        assert(site.names(occurrences[o]));
    }
}

proof fn lemma_sites_of_ranges(
    sites: Seq<OccurrenceRef>,
    text: Chars,
    occurrences: Seq<Occurrence>,
    ranges: Seq<Range>,
)
    requires
        sites.no_duplicates(),
    ensures
        with_ranges(sites, text, occurrences, ranges).no_duplicates(),
        forall|site: OccurrenceRef| #[trigger]
            with_ranges(sites, text, occurrences, ranges).contains(site) <==> sites.contains(site)
                || calls_at(text, occurrences, ranges, site),
    decreases ranges.len(),
{
    if ranges.len() == 0 {
        assert forall|site: OccurrenceRef| !calls_at(text, occurrences, ranges, site) by {}
    } else {
        let fewer = ranges.drop_last();
        let last = ranges.last();
        lemma_sites_of_ranges(sites, text, occurrences, fewer);
        let before = with_ranges(sites, text, occurrences, fewer);
        let found = call_site_at(text, occurrences, last);
        let after = with_site(before, found);
        assert(ranges[ranges.len() - 1] == last);
        assert forall|site: OccurrenceRef| #[trigger]
            after.contains(site) <==> sites.contains(site) || calls_at(
                text,
                occurrences,
                ranges,
                site,
            ) by {
            lemma_one_range(text, occurrences, last, site);
            lemma_calls_split(text, occurrences, fewer, last, site);
            assert(fewer.push(last) =~= ranges);
            assert(before.contains(site) <==> sites.contains(site) || calls_at(
                text,
                occurrences,
                fewer,
                site,
            ));
            if before.contains(site) {
                let k = choose|k: int| 0 <= k < before.len() && before[k] == site;
                assert(after[k] == site);
            }
            if found == Some(site) && !before.contains(site) {
                assert(after[before.len() as int] == site);
            }
            if after.contains(site) && !before.contains(site) {
                let k = choose|k: int| 0 <= k < after.len() && after[k] == site;
                assert(k == before.len());
            }
        }
    }
}

proof fn lemma_calls_split(
    text: Chars,
    occurrences: Seq<Occurrence>,
    ranges: Seq<Range>,
    range: Range,
    site: OccurrenceRef,
)
    ensures
        calls_at(text, occurrences, ranges.push(range), site) <==> calls_at(
            text,
            occurrences,
            ranges,
            site,
        ) || calls_at(text, occurrences, seq![range], site),
{
    let all = ranges.push(range);
    let one = seq![range];
    if calls_at(text, occurrences, ranges, site) {
        let (r, o) = choose|r: int, o: int|
            {
                &&& 0 <= r < ranges.len()
                &&& 0 <= o < occurrences.len()
                &&& bytes_of_range(text, #[trigger] ranges[r]) matches Some((start, end))
                &&& site == (OccurrenceRef {
                    kind: OccurrenceKind::CallSite,
                    start_byte: start as usize,
                    end_byte: end as usize,
                })
                &&& (#[trigger] occurrences[o]).kind == OccurrenceKind::CallSite
                &&& occurrences[o].span.start_byte == site.start_byte
                &&& occurrences[o].span.end_byte == site.end_byte
            };
        assert(all[r] == ranges[r]);
        assert(occurrences[o].kind == OccurrenceKind::CallSite);
    }
    if calls_at(text, occurrences, one, site) {
        let (r, o) = choose|r: int, o: int|
            {
                &&& 0 <= r < one.len()
                &&& 0 <= o < occurrences.len()
                &&& bytes_of_range(text, #[trigger] one[r]) matches Some((start, end))
                &&& site == (OccurrenceRef {
                    kind: OccurrenceKind::CallSite,
                    start_byte: start as usize,
                    end_byte: end as usize,
                })
                &&& (#[trigger] occurrences[o]).kind == OccurrenceKind::CallSite
                &&& occurrences[o].span.start_byte == site.start_byte
                &&& occurrences[o].span.end_byte == site.end_byte
            };
        assert(all[ranges.len() as int] == one[r]);
        assert(occurrences[o].kind == OccurrenceKind::CallSite);
    }
    if calls_at(text, occurrences, all, site) {
        let (r, o) = choose|r: int, o: int|
            {
                &&& 0 <= r < all.len()
                &&& 0 <= o < occurrences.len()
                &&& bytes_of_range(text, #[trigger] all[r]) matches Some((start, end))
                &&& site == (OccurrenceRef {
                    kind: OccurrenceKind::CallSite,
                    start_byte: start as usize,
                    end_byte: end as usize,
                })
                &&& (#[trigger] occurrences[o]).kind == OccurrenceKind::CallSite
                &&& occurrences[o].span.start_byte == site.start_byte
                &&& occurrences[o].span.end_byte == site.end_byte
            };
        if r < ranges.len() {
            assert(ranges[r] == all[r]);
        } else {
            assert(one[0] == all[r]);
        }
        assert(occurrences[o].kind == OccurrenceKind::CallSite);
    }
}

/// The calls of a document are the call sites that its callers' ranges are,
/// each once: no site is invented, none of another document is taken, and
/// none is left out.
pub proof fn law_calls_are_existing_call_sites(
    text: Chars,
    occurrences: Seq<Occurrence>,
    calls: Seq<IncomingCallView>,
    uri: Chars,
    site: OccurrenceRef,
)
    ensures
        call_sites(text, occurrences, calls, uri).contains(site) <==> exists|c: int|
            0 <= c < calls.len() && (#[trigger] calls[c]).from.uri == uri && calls_at(
                text,
                occurrences,
                calls[c].from_ranges,
                site,
            ),
        call_sites(text, occurrences, calls, uri).no_duplicates(),
    decreases calls.len(),
{
    if calls.len() > 0 {
        let fewer = calls.drop_last();
        law_calls_are_existing_call_sites(text, occurrences, fewer, uri, site);
        assert(calls[calls.len() - 1] == calls.last());
        let before = call_sites(text, occurrences, fewer, uri);
        if calls.last().from.uri == uri {
            lemma_sites_of_ranges(before, text, occurrences, calls.last().from_ranges);
        }
        if exists|c: int|
            0 <= c < fewer.len() && (#[trigger] fewer[c]).from.uri == uri && calls_at(
                text,
                occurrences,
                fewer[c].from_ranges,
                site,
            ) {
            let c = choose|c: int|
                0 <= c < fewer.len() && (#[trigger] fewer[c]).from.uri == uri && calls_at(
                    text,
                    occurrences,
                    fewer[c].from_ranges,
                    site,
                );
            assert(calls[c].from.uri == uri);
        }
        if exists|c: int|
            0 <= c < calls.len() && (#[trigger] calls[c]).from.uri == uri && calls_at(
                text,
                occurrences,
                calls[c].from_ranges,
                site,
            ) {
            let c = choose|c: int|
                0 <= c < calls.len() && (#[trigger] calls[c]).from.uri == uri && calls_at(
                    text,
                    occurrences,
                    calls[c].from_ranges,
                    site,
                );
            if c < fewer.len() {
                assert(fewer[c].from.uri == uri);
            }
        }
    }
}

/// A caller's evidence says that its site calls the target, across files and
/// with an unknown dispatch.
pub proof fn law_a_caller_is_evidence_of_a_call(
    request: RequestView,
    target: EndpointView,
    site: OccurrenceRef,
)
    ensures
        ({
            let made = call_evidence(request, target, site);
            &&& made.context_key == request.context_key
            &&& made.capability == SemanticCapability::CallsCrossFile
            &&& made.relation_kind == Some(RelationKind::Calls)
            &&& made.occurrence == Some(site)
            &&& made.outcome == OutcomeView::Resolved(target)
            &&& made.support == Support::Supported
            &&& made.dispatch == Dispatch::Unknown
            &&& made.basis.owner_resource == request.owner.id
            &&& made.basis.owner_resource_revision == request.owner.resource_revision@
            &&& made.source == Some(source_of(request.owner.id, request.occurrences, site))
        }),
{
}

} // verus!
