//! What the refresh of one Resource rests on, and what it hands over.

use vstd::prelude::*;

use crate::graph::{EndpointView, PersistedUnresolved, UnresolvedReason};
use crate::index_tables::{GenerationState, TablesView};
use crate::model::{OccurrenceRef, Resource, ResourceId, ResourceLanguage, ResourceState};
use crate::python_semantic::host::PythonSettings;
use crate::python_semantic::refresh::{
    active_by_id, after_merge, asks_about, basis_for_publication, content_identity, endpoint_kind,
    evidence_line, gaps_with_held, governing_inputs, handed_over, inventory_identity, is_module,
    lemma_inventory_is_the_module_set, module_keys, outcome_words, publication_obsolete,
    publication_sources, python_support, reason_name, refreshed_row, semantic_words, stamped,
    with_ancestors, with_sources_at, MergeError, MergeOutcome, PythonSemanticError, RefreshRequest,
};
use crate::semantic::{capability_name, EvidenceView, OutcomeView, SemanticCapability, Support};
use crate::semantic_index::{
    by_id, lemma_a_moved_source_is_noticed, lemma_a_source_stands_as_it_was_put_last, sources_stand,
    with_source_at, ObsoleteReason, SemanticBasisView, SemanticState, Sources,
};
use crate::text::{all_chars, chars_or_empty, decimal, is_sorting_of, join, Chars};

verus! {

// ---------------------------------------------------------------------
// What the backend answers
// ---------------------------------------------------------------------

/// What is declared of the Python backend is what is wired up: discovery,
/// implementations and their targets are not; types, inheritance, overrides
/// and bound calls are in part; everything else is.
pub proof fn law_what_is_declared_is_what_is_wired(capability: SemanticCapability)
    ensures
        python_support(capability) == Support::Unsupported <==> capability
            == SemanticCapability::ResourceDiscovery || capability
            == SemanticCapability::Implements || capability
            == SemanticCapability::ImplementationTarget,
        python_support(capability) == Support::Partial <==> capability
            == SemanticCapability::StaticDispatchTarget || capability
            == SemanticCapability::TypeResolution || capability == SemanticCapability::Inheritance
            || capability == SemanticCapability::Overrides,
{
}

// ---------------------------------------------------------------------
// What the analysis rests on
// ---------------------------------------------------------------------

/// A file's content is told by its hash where there is one, and else by its
/// fingerprint; no file has no content.
pub proof fn law_content_is_told_by_its_hash(resource: Resource)
    ensures
        resource.content_hash matches Some(hash) ==> content_identity(Some(&resource)) == hash@,
        resource.content_hash is None ==> content_identity(Some(&resource))
            == resource.fingerprint@,
        content_identity(None).len() == 0,
{
}

/// The extra roots and the checking mode govern the analysis; the
/// interpreter and the environment's path do not.
pub proof fn law_the_interpreter_does_not_govern(a: PythonSettings, b: PythonSettings)
    ensures
        all_chars(a.extra_paths@) == all_chars(b.extra_paths@) && chars_or_empty(
            a.type_checking_mode,
        ) == chars_or_empty(b.type_checking_mode) ==> governing_inputs(a) == governing_inputs(b),
        governing_inputs(a).len() == 2,
        governing_inputs(a)[0].0 == "extra_paths"@,
        governing_inputs(a)[1] == ("type_checking_mode"@, chars_or_empty(a.type_checking_mode)),
        exists|sorted: Seq<Chars>| #[trigger]
            is_sorting_of(sorted, all_chars(a.extra_paths@)) && governing_inputs(a)[0].1 == join(
                sorted,
                "\u{1f}"@,
            ),
{
    crate::text::lemma_sorting_exists(all_chars(a.extra_paths@));
    let sorted = crate::text::sorting(all_chars(a.extra_paths@));
    assert(is_sorting_of(sorted, all_chars(a.extra_paths@)));
    assert(governing_inputs(a)[0].1 == join(sorted, "\u{1f}"@));
    if all_chars(a.extra_paths@) == all_chars(b.extra_paths@) && chars_or_empty(
        a.type_checking_mode,
    ) == chars_or_empty(b.type_checking_mode) {
        assert(governing_inputs(a) =~= governing_inputs(b));
    }
}

/// A key is in the module set exactly when an active Resource of the
/// language has it.
pub proof fn law_the_module_set_is_what_is_active(
    resources: Seq<Resource>,
    language: ResourceLanguage,
    key: Chars,
)
    ensures
        module_keys(resources, language).contains(key) <==> exists|i: int|
            0 <= i < resources.len() && (#[trigger] resources[i]).state == ResourceState::Active
                && resources[i].language == Some(language) && resources[i].path_key@ == key,
    decreases resources.len(),
{
    if resources.len() > 0 {
        let fewer = resources.drop_last();
        law_the_module_set_is_what_is_active(fewer, language, key);
        let before = module_keys(fewer, language);
        let all = module_keys(resources, language);
        if all.contains(key) {
            let at = choose|at: int| 0 <= at < all.len() && all[at] == key;
            if at < before.len() {
                assert(before[at] == key);
                let i = choose|i: int|
                    0 <= i < fewer.len() && (#[trigger] fewer[i]).state == ResourceState::Active
                        && fewer[i].language == Some(language) && fewer[i].path_key@ == key;
                assert(resources[i] == fewer[i]);
            } else {
                assert(resources[resources.len() - 1].path_key@ == key);
            }
        }
        if exists|i: int|
            0 <= i < resources.len() && (#[trigger] resources[i]).state == ResourceState::Active
                && resources[i].language == Some(language) && resources[i].path_key@ == key {
            let i = choose|i: int|
                0 <= i < resources.len() && (#[trigger] resources[i]).state == ResourceState::Active
                    && resources[i].language == Some(language) && resources[i].path_key@ == key;
            if i < fewer.len() {
                assert(fewer[i] == resources[i]);
                let at = choose|at: int| 0 <= at < before.len() && before[at] == key;
                assert(all[at] == key);
            } else {
                assert(all[all.len() - 1] == key);
            }
        }
    }
}

/// One more module moves the inventory; a Resource that is gone, or of
/// another language, does not.
pub proof fn law_one_more_module_moves_the_inventory(
    resources: Seq<Resource>,
    next: Resource,
    language: ResourceLanguage,
)
    ensures
        next.state == ResourceState::Active && next.language == Some(language)
            ==> inventory_identity(resources.push(next), language) != inventory_identity(
            resources,
            language,
        ),
        next.state != ResourceState::Active || next.language != Some(language)
            ==> inventory_identity(resources.push(next), language) == inventory_identity(
            resources,
            language,
        ),
{
    let more = resources.push(next);
    assert(more.drop_last() =~= resources);
    lemma_inventory_is_the_module_set(more, resources, language);
    if is_module(next, language) {
        let keys = module_keys(resources, language);
        assert(module_keys(more, language) == keys.push(next.path_key@));
        keys.to_multiset_ensures();
        keys.push(next.path_key@).to_multiset_ensures();
        assert(keys.push(next.path_key@).to_multiset().len() == keys.len() + 1);
        assert(keys.to_multiset().len() == keys.len());
    }
}

/// The Resource that is found by its id is active; none is found exactly
/// when no active one has it.
pub proof fn law_only_an_active_resource_is_refreshed(resources: Seq<Resource>, id: ResourceId)
    ensures
        active_by_id(resources, id) matches Some(found) ==> found.id == id && found.state
            == ResourceState::Active && resources.contains(found),
        active_by_id(resources, id) is None <==> forall|i: int|
            0 <= i < resources.len() ==> (#[trigger] resources[i]).id != id || resources[i].state
                != ResourceState::Active,
    decreases resources.len(),
{
    if resources.len() > 0 {
        let rest = resources.skip(1);
        law_only_an_active_resource_is_refreshed(rest, id);
        let first = resources[0];
        if first.id == id && first.state == ResourceState::Active {
            assert(resources.contains(first));
        } else {
            if let Some(found) = active_by_id(resources, id) {
                let i = choose|i: int| 0 <= i < rest.len() && rest[i] == found;
                assert(resources[i + 1] == found);
            }
            if active_by_id(resources, id) is None {
                assert forall|i: int| 0 <= i < resources.len() implies (
                #[trigger] resources[i]).id != id || resources[i].state
                    != ResourceState::Active by {
                    if i > 0 {
                        assert(rest[i - 1] == resources[i]);
                    }
                }
            }
            if forall|i: int|
                0 <= i < resources.len() ==> (#[trigger] resources[i]).id != id
                    || resources[i].state != ResourceState::Active {
                assert forall|i: int| 0 <= i < rest.len() implies (#[trigger] rest[i]).id != id
                    || rest[i].state != ResourceState::Active by {
                    assert(rest[i] == resources[i + 1]);
                }
            }
        }
    }
}

// ---------------------------------------------------------------------
// What is asked about
// ---------------------------------------------------------------------

/// The open gaps are asked about as they are, in their order, before those
/// that are held closed; of the held ones only whose site is not asked about
/// already.
pub proof fn law_open_gaps_are_asked_first(
    open: Seq<PersistedUnresolved>,
    held: Seq<PersistedUnresolved>,
    next: PersistedUnresolved,
)
    ensures
        gaps_with_held(open, Seq::empty()) == open,
        gaps_with_held(open, held).len() >= open.len(),
        gaps_with_held(open, held).take(open.len() as int) == open,
        asks_about(gaps_with_held(open, held), next.occurrence) ==> gaps_with_held(
            open,
            held.push(next),
        ) == gaps_with_held(open, held),
        !asks_about(gaps_with_held(open, held), next.occurrence) ==> gaps_with_held(
            open,
            held.push(next),
        ) == gaps_with_held(open, held).push(next),
    decreases held.len(),
{
    assert(held.push(next).drop_last() =~= held);
    if held.len() == 0 {
        assert(open.take(open.len() as int) =~= open);
    } else {
        law_open_gaps_are_asked_first(open, held.drop_last(), next);
        let earlier = gaps_with_held(open, held.drop_last());
        assert(gaps_with_held(open, held).take(open.len() as int) =~= earlier.take(
            open.len() as int,
        ));
    }
}

/// A gap is at a site exactly when its occurrence is that site.
pub proof fn law_a_gap_is_asked_about_at_its_site(gap: PersistedUnresolved, site: OccurrenceRef)
    ensures
        asks_about(seq![gap], site) <==> gap.occurrence == site,
        !asks_about(Seq::empty(), site),
{
    assert(seq![gap][0] == gap);
}

// ---------------------------------------------------------------------
// What a publication depends on
// ---------------------------------------------------------------------

proof fn lemma_put_over(sources: Sources, more: Sources)
    requires
        by_id(sources),
        by_id(more),
    ensures
        by_id(with_sources_at(sources, more)),
        forall|source: (ResourceId, Chars)| #[trigger]
            with_sources_at(sources, more).contains(source) <==> more.contains(source) || (
            sources.contains(source) && forall|i: int|
                0 <= i < more.len() ==> (#[trigger] more[i]).0 != source.0),
    decreases more.len(),
{
    if more.len() > 0 {
        let fewer = more.drop_last();
        let last = more.last();
        assert forall|i: int, j: int| 0 <= i < j < fewer.len() implies (
        #[trigger] fewer[i]).0.value < (#[trigger] fewer[j]).0.value by {
            assert(fewer[i] == more[i] && fewer[j] == more[j]);
        }
        lemma_put_over(sources, fewer);
        let earlier = with_sources_at(sources, fewer);
        lemma_a_source_stands_as_it_was_put_last(earlier, last.0, last.1);
        assert forall|source: (ResourceId, Chars)| #[trigger]
            with_sources_at(sources, more).contains(source) <==> more.contains(source) || (
            sources.contains(source) && forall|i: int|
                0 <= i < more.len() ==> (#[trigger] more[i]).0 != source.0) by {
            assert(more[more.len() - 1] == last);
            assert forall|i: int| 0 <= i < fewer.len() implies fewer[i].0 != last.0 by {
                assert(more[i] == fewer[i]);
                assert(more[i].0.value < more[more.len() - 1].0.value);
            }
            if source.0 == last.0 {
                if more.contains(source) {
                    let k = choose|k: int| 0 <= k < more.len() && more[k] == source;
                    if k < fewer.len() {
                        assert(fewer[k].0 != last.0);
                    }
                }
            } else {
                if more.contains(source) {
                    let k = choose|k: int| 0 <= k < more.len() && more[k] == source;
                    assert(k < fewer.len());
                    assert(fewer[k] == source);
                }
                if fewer.contains(source) {
                    let k = choose|k: int| 0 <= k < fewer.len() && fewer[k] == source;
                    assert(more[k] == source);
                }
                if forall|i: int| 0 <= i < fewer.len() ==> (#[trigger] fewer[i]).0 != source.0 {
                    assert forall|i: int| 0 <= i < more.len() implies (#[trigger] more[i]).0
                        != source.0 by {
                        if i < fewer.len() {
                            assert(fewer[i] == more[i]);
                        }
                    }
                }
                if forall|i: int| 0 <= i < more.len() ==> (#[trigger] more[i]).0 != source.0 {
                    assert forall|i: int| 0 <= i < fewer.len() implies (#[trigger] fewer[i]).0
                        != source.0 by {
                        assert(fewer[i] == more[i]);
                    }
                }
            }
        }
    } else {
        assert forall|source: (ResourceId, Chars)| sources.contains(
            source,
        ) implies #[trigger] with_sources_at(sources, more).contains(source) by {}
    }
}

/// Every ancestor that is there is a source at its own revision, and every
/// other source stays as it was read.
pub proof fn law_ancestors_are_sources(
    reads: Sources,
    ancestors: Seq<ResourceId>,
    resources: Seq<Resource>,
)
    requires
        by_id(reads),
    ensures
        by_id(with_ancestors(reads, ancestors, resources)),
        forall|source: (ResourceId, Chars)| #[trigger]
            with_ancestors(reads, ancestors, resources).contains(source) <==> if ancestors.contains(
                source.0,
            ) && active_by_id(resources, source.0) is Some {
                source.1 == active_by_id(resources, source.0)->0.resource_revision@
            } else {
                reads.contains(source)
            },
    decreases ancestors.len(),
{
    if ancestors.len() > 0 {
        let fewer = ancestors.drop_last();
        let last = ancestors.last();
        law_ancestors_are_sources(reads, fewer, resources);
        let earlier = with_ancestors(reads, fewer, resources);
        law_only_an_active_resource_is_refreshed(resources, last);
        if let Some(ancestor) = active_by_id(resources, last) {
            lemma_a_source_stands_as_it_was_put_last(
                earlier,
                ancestor.id,
                ancestor.resource_revision@,
            );
        }
        assert forall|source: (ResourceId, Chars)| #[trigger]
            with_ancestors(reads, ancestors, resources).contains(source) <==> if ancestors.contains(
                source.0,
            ) && active_by_id(resources, source.0) is Some {
                source.1 == active_by_id(resources, source.0)->0.resource_revision@
            } else {
                reads.contains(source)
            } by {
            assert(ancestors[ancestors.len() - 1] == last);
            if source.0 != last {
                if ancestors.contains(source.0) {
                    let k = choose|k: int| 0 <= k < ancestors.len() && ancestors[k] == source.0;
                    assert(fewer[k] == source.0);
                }
                if fewer.contains(source.0) {
                    let k = choose|k: int| 0 <= k < fewer.len() && fewer[k] == source.0;
                    assert(ancestors[k] == source.0);
                }
            }
            assert(earlier.contains(source) <==> if fewer.contains(source.0) && active_by_id(
                resources,
                source.0,
            ) is Some {
                source.1 == active_by_id(resources, source.0)->0.resource_revision@
            } else {
                reads.contains(source)
            });
        }
    }
}

/// A publication depends on everything that was read at the revision it was
/// read at, on every ancestor that is there at its own, and on the owner.
pub proof fn law_a_publication_depends_on_all_it_read(
    owner: Resource,
    reads: Sources,
    ancestors: Seq<ResourceId>,
    resources: Seq<Resource>,
    source: (ResourceId, Chars),
)
    requires
        by_id(reads),
    ensures
        by_id(publication_sources(owner, reads, ancestors, resources)),
        reads.contains(source) && !ancestors.contains(source.0) ==> publication_sources(
            owner,
            reads,
            ancestors,
            resources,
        ).contains(source),
        ancestors.contains(source.0) && active_by_id(resources, source.0) is Some && source.1
            == active_by_id(resources, source.0)->0.resource_revision@ ==> publication_sources(
            owner,
            reads,
            ancestors,
            resources,
        ).contains(source),
        exists|revision: Chars| #[trigger]
            publication_sources(owner, reads, ancestors, resources).contains((owner.id, revision)),
        publication_sources(owner, reads, ancestors, resources).contains(source) ==> source == (
            owner.id,
            owner.resource_revision@,
        ) || reads.contains(source) || (ancestors.contains(source.0) && active_by_id(
            resources,
            source.0,
        ) is Some),
{
    let none = Seq::<(ResourceId, Chars)>::empty();
    let start = with_source_at(none, owner.id, owner.resource_revision@);
    lemma_a_source_stands_as_it_was_put_last(none, owner.id, owner.resource_revision@);
    law_ancestors_are_sources(reads, ancestors, resources);
    let more = with_ancestors(reads, ancestors, resources);
    lemma_put_over(start, more);
    let all = publication_sources(owner, reads, ancestors, resources);
    assert(start.contains((owner.id, owner.resource_revision@)));
    if exists|i: int| 0 <= i < more.len() && (#[trigger] more[i]).0 == owner.id {
        let i = choose|i: int| 0 <= i < more.len() && (#[trigger] more[i]).0 == owner.id;
        assert(more.contains((owner.id, more[i].1)));
        assert(all.contains((owner.id, more[i].1)));
    } else {
        assert(all.contains((owner.id, owner.resource_revision@)));
    }
    assert(all.contains(source) <==> more.contains(source) || (start.contains(source) && forall|
        i: int,
    |
        0 <= i < more.len() ==> (#[trigger] more[i]).0 != source.0));
    assert(start.contains(source) ==> source == (owner.id, owner.resource_revision@));
}

/// The rest of what a publication depends on: the configuration, the
/// environment and the module set that the request was made under.
pub proof fn law_a_publication_depends_on_its_settings(
    request: RefreshRequest<'_>,
    owner: Resource,
    reads: Sources,
    ancestors: Seq<ResourceId>,
    resources: Seq<Resource>,
)
    ensures
        ({
            let basis = basis_for_publication(request, owner, reads, ancestors, resources);
            &&& basis.owner == owner.id
            &&& basis.config == request.config.identity()
            &&& basis.environment == request.context.toolchain.environment_fingerprint@
            &&& basis.inventory == Some(inventory_identity(resources, request.context.language))
            &&& basis.sources == publication_sources(owner, reads, ancestors, resources)
        }),
{
}

/// What moved first while the backend was thinking is what is told: a source
/// before the module set, and that before the Workspace.
pub proof fn law_what_moved_meanwhile_is_told(
    basis: SemanticBasisView,
    language: ResourceLanguage,
    begun_at: Chars,
    resources: Seq<Resource>,
    workspace_revision: Chars,
)
    ensures
        ({
            let reason = publication_obsolete(
                basis,
                language,
                begun_at,
                resources,
                workspace_revision,
            );
            let sources = sources_stand(basis.sources, resources);
            let modules = basis.inventory == Some(inventory_identity(resources, language));
            &&& !sources <==> reason is Some && reason->0 is SourceRevisionMoved
            &&& sources && !modules <==> reason == Some(ObsoleteReason::InventoryMoved)
            &&& sources && modules && begun_at != workspace_revision <==> reason == Some(
                ObsoleteReason::WorkspaceMoved,
            )
            &&& sources && modules && begun_at == workspace_revision <==> reason is None
        }),
{
    lemma_a_moved_source_is_noticed(basis.sources, resources);
}

/// A refreshed owner is current and supported under its generation and
/// basis, without an error, in the request's own context.
pub proof fn law_a_refreshed_owner_is_current(
    request: RefreshRequest<'_>,
    owner: ResourceId,
    basis: SemanticBasisView,
    generation_id: i64,
)
    ensures
        ({
            let row = refreshed_row(request, owner, basis, generation_id);
            &&& row.owner.context_key == request.context.key()
            &&& row.owner.owner == owner
            &&& row.status.state == SemanticState::Current
            &&& row.status.support == Some(Support::Supported)
            &&& row.status.stable_generation_id == Some(generation_id)
            &&& row.status.basis == Some(basis)
            &&& row.status.last_error_code is None
            &&& row.profile == request.capabilities.identity()
        }),
{
}

// ---------------------------------------------------------------------
// What is handed over
// ---------------------------------------------------------------------

/// Evidence takes its generation and keeps everything else.
pub proof fn law_evidence_is_stamped_and_kept(item: EvidenceView, generation_id: i64, other: i64)
    ensures
        ({
            let after = stamped(item, generation_id);
            &&& after.basis.generation_id == generation_id
            &&& after.context_key == item.context_key
            &&& after.capability == item.capability
            &&& after.relation_kind == item.relation_kind
            &&& after.occurrence == item.occurrence
            &&& after.source == item.source
            &&& after.outcome == item.outcome
            &&& after.support == item.support
            &&& after.dispatch == item.dispatch
            &&& after.basis.owner_resource == item.basis.owner_resource
            &&& after.basis.owner_resource_revision == item.basis.owner_resource_revision
            &&& after.basis.analysis_profile_id == item.basis.analysis_profile_id
            &&& after.basis.resolution_context_key == item.basis.resolution_context_key
        }),
        stamped(stamped(item, other), generation_id) == stamped(item, generation_id),
        stamped(item, item.basis.generation_id) == item,
{
}

/// All that was collected is handed over first, in its order, then all that
/// was derived; nothing is dropped, and all of it is of one generation.
pub proof fn law_all_evidence_is_handed_over(
    collected: Seq<EvidenceView>,
    derived: Seq<EvidenceView>,
    generation_id: i64,
    at: int,
)
    requires
        0 <= at < collected.len() + derived.len(),
    ensures
        ({
            let handed = handed_over(collected, derived, generation_id);
            &&& handed.len() == collected.len() + derived.len()
            &&& handed[at].basis.generation_id == generation_id
            &&& at < collected.len() ==> handed[at].outcome == collected[at].outcome
                && handed[at].occurrence == collected[at].occurrence && handed[at].capability
                == collected[at].capability
            &&& at >= collected.len() ==> handed[at].outcome == derived[at
                - collected.len()].outcome && handed[at].occurrence == derived[at
                - collected.len()].occurrence && handed[at].capability == derived[at
                - collected.len()].capability
        }),
{
}

/// A line about a piece of evidence names its capability, its site, and what
/// it resolved to.
pub proof fn law_a_line_tells_its_evidence(
    item: EvidenceView,
    target: EndpointView,
    targets: Seq<EndpointView>,
    reason: UnresolvedReason,
)
    ensures
        item.occurrence matches Some(site) ==> evidence_line(item) == capability_name(
            item.capability,
        ) + " @"@ + decimal(site.start_byte as int) + ".."@ + decimal(site.end_byte as int)
            + " -> "@ + outcome_words(item.outcome),
        item.occurrence is None ==> evidence_line(item) == capability_name(item.capability) + " @"@
            + decimal(0) + ".."@ + decimal(0) + " -> "@ + outcome_words(item.outcome),
        outcome_words(OutcomeView::Resolved(target)) == "RESOLVED "@ + endpoint_kind(target),
        outcome_words(OutcomeView::Candidates(targets)) == "CANDIDATES "@ + decimal(
            targets.len() as int,
        ),
        outcome_words(OutcomeView::Unresolved(reason)) == "UNRESOLVED "@ + reason_name(reason),
{
}

/// An endpoint and a reason are told by the name of their sort.
pub proof fn law_endpoints_and_reasons_have_their_names(target: EndpointView)
    ensures
        target is Resource ==> endpoint_kind(target) == "Resource"@,
        target is Symbol ==> endpoint_kind(target) == "Symbol"@,
        target is Logical ==> endpoint_kind(target) == "LogicalSymbol"@,
        target is External ==> endpoint_kind(target) == "ExternalEntity"@,
        target is Domain ==> endpoint_kind(target) == "DomainEntity"@,
        reason_name(UnresolvedReason::NoStructuralBinding) == "NoStructuralBinding"@,
        reason_name(UnresolvedReason::AmbiguousCandidates) == "AmbiguousCandidates"@,
        reason_name(UnresolvedReason::MissingRelativeTarget) == "MissingRelativeTarget"@,
        reason_name(UnresolvedReason::ImportTargetUnresolved) == "ImportTargetUnresolved"@,
        reason_name(UnresolvedReason::TypeSemanticsRequired) == "TypeSemanticsRequired"@,
{
}

/// An error of a refresh says where it came from.
pub proof fn law_a_refresh_error_says_where_it_came_from(
    resource: ResourceId,
    path_rel: String,
    detail: String,
)
    ensures
        semantic_words(PythonSemanticError::UnknownResource(resource)) == decimal(
            resource.value as int,
        ) + " is not an active Resource"@,
        semantic_words(PythonSemanticError::UnreadableSource { path_rel, detail })
            == "could not read "@ + path_rel@ + ": "@ + detail@,
        semantic_words(PythonSemanticError::Merge(MergeError { detail })) == "semantic merge: "@
            + detail@,
        semantic_words(PythonSemanticError::Sqlite(detail)) == "index: "@ + detail@,
{
}

// ---------------------------------------------------------------------
// Merging
// ---------------------------------------------------------------------

/// A merge is made under one generation of its own at the revision as it
/// stands: merged it becomes what readers see, refused it is aborted for its
/// reason, and either way nothing else of the tables moves.
pub proof fn law_a_merge_makes_one_generation(
    tables: TablesView,
    revision: Chars,
    merged: Result<MergeOutcome, MergeError>,
)
    requires
        tables.next_generation_id < i64::MAX,
    ensures
        ({
            let after = after_merge(tables, revision, merged);
            let made = after.generations.last();
            &&& after.generations.len() == tables.generations.len() + 1
            &&& after.generations.drop_last() == tables.generations
            &&& made.id == tables.next_generation_id
            &&& made.basis == revision
            &&& after.next_generation_id == tables.next_generation_id + 1
            &&& merged is Ok ==> made.state == GenerationState::Stable && made.abort_reason is None
                && after.stable == Some(made.id)
            &&& merged matches Err(error) ==> made.state == GenerationState::Aborted
                && made.abort_reason == Some(error.detail@) && after.stable == tables.stable
            &&& after.revision == tables.revision
            &&& after.change_seq == tables.change_seq
            &&& after.last_reconcile_seq == tables.last_reconcile_seq
            &&& after.continuity == tables.continuity
            &&& after.journal == tables.journal
            &&& after.component == tables.component
            &&& after.resources == tables.resources
        }),
{
    let after = after_merge(tables, revision, merged);
    assert(after.generations.drop_last() =~= tables.generations);
}

} // verus!
