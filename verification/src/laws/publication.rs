//! What is published of an analysis, and when it stops being current.

use vstd::prelude::*;

use crate::fingerprint::{fingerprint_text, lemma_fingerprint_identifies_its_inputs};
use crate::model::{Resource, ResourceId, ResourceLanguage, ResourceState};
use crate::python_semantic::refresh::{inventory_identity, module_keys};
use crate::semantic::{
    capability_name, context_fields, declaration_fields, declared_support, language_name,
    support_name, AnalysisContext, CapabilityReport, SemanticCapability, Support,
};
use crate::semantic_index::{
    candidate_obsolete, depending, fallen_source, in_context, index_words,
    lemma_a_moved_source_is_noticed, lemma_marking_is_local, obsolete_reason, published_row,
    reason_code, revalidated, row_of, sources_stand, stands_at, status_in, with_mark,
    with_publication, ConfigBasis, CurrentInputs, ObsoleteReason, OwnerView, RowView,
    SemanticBasisView, SemanticCandidate, SemanticIndexError, SemanticState, Sources, StatusView,
};
use crate::text::{
    decimal, is_sorting_of, lemma_decimal_injective, lemma_sorting_exists, optional_chars, sorting,
    Chars,
};

verus! {

// ---------------------------------------------------------------------
// When a publication holds
// ---------------------------------------------------------------------

/// A current publication stays current exactly while everything it was made
/// from stands: every source at the revision that was read, the
/// configuration, an environment that is proven to be the same, the
/// inventory and the way of analysis.
pub proof fn law_a_publication_holds_while_its_inputs_stand(
    row: RowView,
    basis: SemanticBasisView,
    current: CurrentInputs,
    resources: Seq<Resource>,
)
    requires
        row.status.basis == Some(basis),
        row.status.state == SemanticState::Current,
    ensures
        revalidated(row, current, resources).state == SemanticState::Current <==> {
            &&& forall|i: int|
                0 <= i < basis.sources.len() ==> stands_at(
                    resources,
                    (#[trigger] basis.sources[i]).0,
                    basis.sources[i].1,
                )
            &&& basis.config == current.config_fingerprint@
            &&& basis.environment == current.environment_fingerprint@
            &&& current.environment_proven
            &&& basis.inventory == optional_chars(current.inventory_fingerprint)
            &&& row.profile == current.profile_fingerprint@
        },
        revalidated(row, current, resources).state == SemanticState::Current ==> revalidated(
            row,
            current,
            resources,
        ) == row.status,
        revalidated(row, current, resources).state != SemanticState::Current ==> revalidated(
            row,
            current,
            resources,
        ).state == SemanticState::Dirty,
{
    lemma_a_moved_source_is_noticed(basis.sources, resources);
}

/// Checking a publication never makes one current, and never takes away the
/// last answer or what it was made from.
pub proof fn law_checking_never_vouches(
    row: RowView,
    current: CurrentInputs,
    resources: Seq<Resource>,
)
    ensures
        row.status.state != SemanticState::Current ==> revalidated(row, current, resources)
            == row.status,
        revalidated(row, current, resources).stable_generation_id
            == row.status.stable_generation_id,
        revalidated(row, current, resources).basis == row.status.basis,
        revalidated(row, current, resources).support == row.status.support,
{
}

/// A Resource stands at a revision exactly when it is active at that
/// revision: one that is gone, or that moved on, does not.
pub proof fn law_only_an_active_resource_stands(
    resource: Resource,
    wanted: ResourceId,
    revision: Chars,
)
    ensures
        stands_at(seq![resource], wanted, revision) <==> resource.id == wanted && resource.state
            == ResourceState::Active && resource.resource_revision@ == revision,
        !stands_at(Seq::empty(), wanted, revision),
{
    if resource.id == wanted && resource.state == ResourceState::Active
        && resource.resource_revision@ == revision {
        assert(seq![resource][0] == resource);
    }
}

/// The source that is told is the first one that does not stand.
pub proof fn law_the_first_moved_source_is_told(sources: Sources, resources: Seq<Resource>, at: int)
    requires
        0 <= at < sources.len(),
        !stands_at(resources, sources[at].0, sources[at].1),
        forall|i: int|
            0 <= i < at ==> stands_at(resources, (#[trigger] sources[i]).0, sources[i].1),
    ensures
        fallen_source(sources, resources) == Some(sources[at].0),
    decreases at,
{
    if at > 0 {
        let rest = sources.skip(1);
        assert(stands_at(resources, sources[0].0, sources[0].1));
        assert forall|i: int| 0 <= i < at - 1 implies stands_at(
            resources,
            (#[trigger] rest[i]).0,
            rest[i].1,
        ) by {
            assert(rest[i] == sources[i + 1]);
        }
        law_the_first_moved_source_is_told(rest, resources, at - 1);
    }
}

/// What moved first is what is told, in the order of sources, configuration,
/// environment, its proof, inventory and profile.
pub proof fn law_the_first_moved_input_is_told(
    basis: SemanticBasisView,
    profile: Chars,
    current: CurrentInputs,
    resources: Seq<Resource>,
)
    ensures
        ({
            let reason = obsolete_reason(basis, profile, current, resources);
            let sources = sources_stand(basis.sources, resources);
            let config = basis.config == current.config_fingerprint@;
            let environment = basis.environment == current.environment_fingerprint@;
            let inventory = basis.inventory == optional_chars(current.inventory_fingerprint);
            &&& !sources <==> reason is Some && reason->0 is SourceRevisionMoved
            &&& sources && !config <==> reason == Some(ObsoleteReason::ConfigMoved)
            &&& sources && config && !environment <==> reason == Some(
                ObsoleteReason::EnvironmentMoved,
            )
            &&& sources && config && environment && !current.environment_proven <==> reason == Some(
                ObsoleteReason::EnvironmentUnproven,
            )
            &&& sources && config && environment && current.environment_proven && !inventory
                <==> reason == Some(ObsoleteReason::InventoryMoved)
            &&& sources && config && environment && current.environment_proven && inventory
                && profile != current.profile_fingerprint@ <==> reason == Some(
                ObsoleteReason::ProfileMoved,
            )
        }),
{
    lemma_a_moved_source_is_noticed(basis.sources, resources);
}

/// Each reason is recorded under its own code.
pub proof fn law_each_reason_has_its_code(resource: ResourceId)
    ensures
        reason_code(ObsoleteReason::SourceRevisionMoved { resource }) == "SOURCE_CHANGED"@,
        reason_code(ObsoleteReason::ConfigMoved) == "CONFIG_CHANGED"@,
        reason_code(ObsoleteReason::EnvironmentMoved) == "ENVIRONMENT_CHANGED"@,
        reason_code(ObsoleteReason::EnvironmentUnproven) == "ENVIRONMENT_UNPROVEN"@,
        reason_code(ObsoleteReason::InventoryMoved) == "INVENTORY_CHANGED"@,
        reason_code(ObsoleteReason::ProfileMoved) == "PROFILE_CHANGED"@,
        reason_code(ObsoleteReason::WorkspaceMoved) == "WORKSPACE_MOVED"@,
{
}

/// A refused publication says which generation was refused, and why.
pub proof fn law_a_refusal_names_its_generation(generation_id: i64, reason: ObsoleteReason)
    ensures
        index_words(SemanticIndexError::Obsolete { generation_id, reason }) == "generation "@
            + decimal(generation_id as int) + " is obsolete: "@ + reason_code(reason),
{
}

/// A candidate is published exactly when all it was made from stands and the
/// Workspace has not moved since it was begun.
pub proof fn law_only_a_candidate_that_stands_is_published(
    candidate: SemanticCandidate,
    current: CurrentInputs,
    resources: Seq<Resource>,
    workspace_revision: Chars,
)
    ensures
        candidate_obsolete(candidate, current, resources, workspace_revision) is None <==> {
            &&& sources_stand(candidate.basis@.sources, resources)
            &&& candidate.basis@.config == current.config_fingerprint@
            &&& candidate.basis@.environment == current.environment_fingerprint@
            &&& current.environment_proven
            &&& candidate.basis@.inventory == optional_chars(current.inventory_fingerprint)
            &&& candidate.profile_fingerprint@ == current.profile_fingerprint@
            &&& candidate.workspace_revision@ == workspace_revision
        },
{
    lemma_a_moved_source_is_noticed(candidate.basis@.sources, resources);
}

/// What is published is the candidate: current, without an error, under its
/// own generation, basis, support and profile, for its own owner.
pub proof fn law_a_candidate_is_published_whole(rows: Seq<RowView>, candidate: SemanticCandidate)
    ensures
        ({
            let after = status_in(
                with_publication(rows, published_row(candidate)),
                candidate.owner@,
            );
            &&& after.state == SemanticState::Current
            &&& after.support == Some(candidate.support)
            &&& after.stable_generation_id == Some(candidate.generation_id)
            &&& after.basis == Some(candidate.basis@)
            &&& after.last_error_code is None
        }),
        published_row(candidate).profile == candidate.profile_fingerprint@,
{
    crate::semantic_index::lemma_publishing_is_local(
        rows,
        published_row(candidate),
        candidate.owner@,
    );
}

/// What was just published holds against the inputs that it was published
/// against.
pub proof fn law_what_is_published_holds(
    candidate: SemanticCandidate,
    current: CurrentInputs,
    resources: Seq<Resource>,
    workspace_revision: Chars,
)
    requires
        candidate_obsolete(candidate, current, resources, workspace_revision) is None,
    ensures
        revalidated(published_row(candidate), current, resources) == published_row(
            candidate,
        ).status,
{
}

/// A marked owner takes the state and the code that it was marked with; its
/// last generation, basis and support stay readable, and nothing else moves.
pub proof fn law_a_mark_keeps_the_last_answer(
    rows: Seq<RowView>,
    owner: OwnerView,
    state: SemanticState,
    code: Chars,
    other: OwnerView,
)
    ensures
        ({
            let before = status_in(rows, owner);
            let after = status_in(with_mark(rows, owner, state, code), owner);
            &&& after.state == state
            &&& after.last_error_code == Some(code)
            &&& after.stable_generation_id == before.stable_generation_id
            &&& after.basis == before.basis
            &&& after.support == before.support
        }),
        other != owner ==> status_in(with_mark(rows, owner, state, code), other) == status_in(
            rows,
            other,
        ),
{
    lemma_marking_is_local(rows, owner, state, code, other);
}

/// Nothing is known of an owner without a row: no state but unpublished, no
/// generation, no basis and no error.
pub proof fn law_nothing_is_known_of_a_stranger(rows: Seq<RowView>, owner: OwnerView)
    requires
        forall|i: int| 0 <= i < rows.len() ==> (#[trigger] rows[i]).owner != owner,
    ensures
        status_in(rows, owner) == (StatusView {
            state: SemanticState::Unpublished,
            support: None,
            stable_generation_id: None,
            basis: None,
            last_error_code: None,
        }),
{
    lemma_absent(rows, owner);
}

proof fn lemma_absent(rows: Seq<RowView>, owner: OwnerView)
    requires
        forall|i: int| 0 <= i < rows.len() ==> (#[trigger] rows[i]).owner != owner,
    ensures
        row_of(rows, owner) == rows.len(),
    decreases rows.len(),
{
    if rows.len() > 0 {
        let rest = rows.skip(1);
        assert forall|i: int| 0 <= i < rest.len() implies (#[trigger] rest[i]).owner != owner by {
            assert(rest[i] == rows[i + 1]);
        }
        assert(rows[0].owner != owner);
        lemma_absent(rest, owner);
    }
}

/// An owner depends on a Resource exactly when its publication read it, at
/// whatever revision, current or not.
pub proof fn law_an_owner_depends_on_what_it_read(
    rows: Seq<RowView>,
    resource: ResourceId,
    owner: OwnerView,
)
    ensures
        depending(rows, resource).contains(owner) <==> exists|k: int, i: int|
            #![trigger rows[k].status.basis->0.sources[i]]
            0 <= k < rows.len() && rows[k].owner == owner && rows[k].status.basis is Some && 0 <= i
                < rows[k].status.basis->0.sources.len()
                && rows[k].status.basis->0.sources[i].0 == resource,
    decreases rows.len(),
{
    if rows.len() > 0 {
        let fewer = rows.drop_last();
        law_an_owner_depends_on_what_it_read(fewer, resource, owner);
        let earlier = depending(fewer, resource);
        let all = depending(rows, resource);
        let last = rows.last();
        let reads = last.status.basis is Some && crate::semantic_index::reads_resource(
            last.status.basis->0,
            resource,
        );
        if all.contains(owner) {
            if earlier.contains(owner) {
                let (k, i) = choose|k: int, i: int|
                    #![trigger fewer[k].status.basis->0.sources[i]]
                    0 <= k < fewer.len() && fewer[k].owner == owner && fewer[k].status.basis is Some
                        && 0 <= i < fewer[k].status.basis->0.sources.len()
                        && fewer[k].status.basis->0.sources[i].0 == resource;
                assert(rows[k].status.basis->0.sources[i].0 == resource);
            } else {
                let at = choose|at: int| 0 <= at < all.len() && all[at] == owner;
                if at < earlier.len() {
                    assert(earlier[at] == owner);
                }
                assert(reads && last.owner == owner);
                let sources = last.status.basis->0.sources;
                let i = choose|i: int|
                    0 <= i < sources.len() && (#[trigger] sources[i]).0 == resource;
                assert(rows[rows.len() - 1].status.basis->0.sources[i].0 == resource);
            }
        }
        if exists|k: int, i: int|
            #![trigger rows[k].status.basis->0.sources[i]]
            0 <= k < rows.len() && rows[k].owner == owner && rows[k].status.basis is Some && 0 <= i
                < rows[k].status.basis->0.sources.len()
                && rows[k].status.basis->0.sources[i].0 == resource {
            let (k, i) = choose|k: int, i: int|
                #![trigger rows[k].status.basis->0.sources[i]]
                0 <= k < rows.len() && rows[k].owner == owner && rows[k].status.basis is Some && 0
                    <= i < rows[k].status.basis->0.sources.len()
                    && rows[k].status.basis->0.sources[i].0 == resource;
            if k < fewer.len() {
                assert(fewer[k].status.basis->0.sources[i].0 == resource);
                assert(earlier.contains(owner));
                let at = choose|at: int| 0 <= at < earlier.len() && earlier[at] == owner;
                assert(all[at] == owner);
            } else {
                assert(last.status.basis->0.sources[i].0 == resource);
                assert(reads);
                assert(all[all.len() - 1] == owner);
            }
        }
    }
}

/// The owners of a context are those that have a row under its key.
pub proof fn law_a_context_holds_its_owners(
    rows: Seq<RowView>,
    context_key: Chars,
    owner: OwnerView,
)
    ensures
        in_context(rows, context_key).contains(owner) <==> owner.context_key == context_key
            && exists|k: int| 0 <= k < rows.len() && (#[trigger] rows[k]).owner == owner,
    decreases rows.len(),
{
    if rows.len() > 0 {
        let fewer = rows.drop_last();
        law_a_context_holds_its_owners(fewer, context_key, owner);
        let earlier = in_context(fewer, context_key);
        let all = in_context(rows, context_key);
        if all.contains(owner) {
            let at = choose|at: int| 0 <= at < all.len() && all[at] == owner;
            if at < earlier.len() {
                assert(earlier[at] == owner);
                let k = choose|k: int|
                    0 <= k < fewer.len() && (#[trigger] fewer[k]).owner == owner;
                assert(rows[k].owner == owner);
            } else {
                assert(rows[rows.len() - 1].owner == owner);
            }
        }
        if owner.context_key == context_key && exists|k: int|
            0 <= k < rows.len() && (#[trigger] rows[k]).owner == owner {
            let k = choose|k: int| 0 <= k < rows.len() && (#[trigger] rows[k]).owner == owner;
            if k < fewer.len() {
                assert(fewer[k].owner == owner);
                let at = choose|at: int| 0 <= at < earlier.len() && earlier[at] == owner;
                assert(all[at] == owner);
            } else {
                assert(all[all.len() - 1] == owner);
            }
        }
    }
}

// ---------------------------------------------------------------------
// Contexts and capabilities
// ---------------------------------------------------------------------

proof fn lemma_languages(a: ResourceLanguage, b: ResourceLanguage)
    ensures
        language_name(a) == language_name(b) ==> a == b,
{
    reveal_strlit("PYTHON");
    reveal_strlit("RUST");
    reveal_strlit("TYPESCRIPT");
    reveal_strlit("JAVASCRIPT");
    reveal_strlit("SVELTE");
    assert("PYTHON"@.len() == 6 && "PYTHON"@[0] == 'P');
    assert("RUST"@.len() == 4);
    assert("TYPESCRIPT"@.len() == 10 && "TYPESCRIPT"@[0] == 'T');
    assert("JAVASCRIPT"@.len() == 10 && "JAVASCRIPT"@[0] == 'J');
    assert("SVELTE"@.len() == 6 && "SVELTE"@[0] == 'S');
}

/// Two contexts have one key exactly when they are of the same Workspace,
/// language, project root, backend and environment.
pub proof fn law_a_context_key_identifies_its_context(a: AnalysisContext, b: AnalysisContext)
    ensures
        a.key() == b.key() <==> {
            &&& a.workspace.value == b.workspace.value
            &&& a.language == b.language
            &&& a.project_root@ == b.project_root@
            &&& a.toolchain.backend_version@ == b.toolchain.backend_version@
            &&& a.toolchain.backend_compatibility_class@
                == b.toolchain.backend_compatibility_class@
            &&& a.toolchain.environment_fingerprint@ == b.toolchain.environment_fingerprint@
        },
{
    let x = context_fields(a);
    let y = context_fields(b);
    lemma_fingerprint_identifies_its_inputs("analysis-context-1"@, x, "analysis-context-1"@, y);
    if a.key() == b.key() {
        assert(x[0].1 == y[0].1);
        lemma_decimal_injective(a.workspace.value as int, b.workspace.value as int);
        assert(x[1].1 == y[1].1);
        lemma_languages(a.language, b.language);
        assert(x[2].1 == y[2].1);
        assert(x[3].1 == y[3].1);
        assert(x[4].1 == y[4].1);
        assert(x[5].1 == y[5].1);
    }
}

/// The support of a capability is what was declared of it last; a capability
/// that nothing was declared of is unsupported.
pub proof fn law_the_last_declaration_counts(
    declared: Seq<(SemanticCapability, Support)>,
    capability: SemanticCapability,
    support: Support,
    other: SemanticCapability,
)
    ensures
        declared_support(Seq::empty(), capability) == Support::Unsupported,
        declared_support(declared.push((capability, support)), capability) == support,
        other != capability ==> declared_support(declared.push((capability, support)), other)
            == declared_support(declared, other),
{
    assert(declared.push((capability, support)).drop_last() =~= declared);
}

proof fn lemma_capability_lengths()
    ensures
        "ResourceDiscovery"@.len() == 17,
        "ImportBinding"@.len() == 13,
        "AliasResolution"@.len() == 15,
        "ReexportResolution"@.len() == 18,
        "ExternalSymbolResolution"@.len() == 24,
        "SymbolDefinition"@.len() == 16,
        "References"@.len() == 10 && "References"@[0] == 'R',
        "CallsIntraFile"@.len() == 14 && "CallsIntraFile"@[5] == 'I' && "CallsIntraFile"@[0] == 'C',
        "CallsCrossFile"@.len() == 14 && "CallsCrossFile"@[5] == 'C' && "CallsCrossFile"@[0] == 'C',
        "StaticDispatchTarget"@.len() == 20 && "StaticDispatchTarget"@[0] == 'S',
        "TypeResolution"@.len() == 14 && "TypeResolution"@[0] == 'T',
        "Inheritance"@.len() == 11,
        "Overrides"@.len() == 9,
        "Implements"@.len() == 10 && "Implements"@[0] == 'I',
        "ImplementationTarget"@.len() == 20 && "ImplementationTarget"@[0] == 'I',
        "SUPPORTED"@.len() == 9,
        "PARTIAL"@.len() == 7,
        "UNSUPPORTED"@.len() == 11,
{
    reveal_strlit("ResourceDiscovery");
    reveal_strlit("ImportBinding");
    reveal_strlit("AliasResolution");
    reveal_strlit("ReexportResolution");
    reveal_strlit("ExternalSymbolResolution");
    reveal_strlit("SymbolDefinition");
    reveal_strlit("References");
    reveal_strlit("CallsIntraFile");
    reveal_strlit("CallsCrossFile");
    reveal_strlit("StaticDispatchTarget");
    reveal_strlit("TypeResolution");
    reveal_strlit("Inheritance");
    reveal_strlit("Overrides");
    reveal_strlit("Implements");
    reveal_strlit("ImplementationTarget");
    reveal_strlit("SUPPORTED");
    reveal_strlit("PARTIAL");
    reveal_strlit("UNSUPPORTED");
}

/// No two capabilities share a name, and no two supports do.
pub proof fn law_capabilities_are_told_apart(
    a: SemanticCapability,
    b: SemanticCapability,
    x: Support,
    y: Support,
)
    ensures
        capability_name(a) == capability_name(b) ==> a == b,
        support_name(x) == support_name(y) ==> x == y,
{
    lemma_capability_lengths();
}

/// Two reports have one fingerprint exactly when they declare the same in
/// the same order.
pub proof fn law_a_report_is_identified_by_what_it_declares(a: CapabilityReport, b: CapabilityReport)
    ensures
        a.identity() == b.identity() <==> a.declared() == b.declared(),
{
    let x = declaration_fields(a.declared());
    let y = declaration_fields(b.declared());
    lemma_fingerprint_identifies_its_inputs(
        "semantic-capabilities-1"@,
        x,
        "semantic-capabilities-1"@,
        y,
    );
    if a.identity() == b.identity() {
        assert(x.len() == a.declared().len() && y.len() == b.declared().len());
        assert forall|i: int| 0 <= i < a.declared().len() implies #[trigger] a.declared()[i]
            == b.declared()[i] by {
            assert(x[i] == y[i]);
            law_capabilities_are_told_apart(
                a.declared()[i].0,
                b.declared()[i].0,
                a.declared()[i].1,
                b.declared()[i].1,
            );
        }
        assert(a.declared() =~= b.declared());
    }
}

/// Identities of different sorts never coincide: those of contexts, reports,
/// configurations and module sets each have a domain of their own.
pub proof fn law_identities_of_different_sorts_differ(
    context: AnalysisContext,
    report: CapabilityReport,
    config: ConfigBasis,
    resources: Seq<Resource>,
    language: ResourceLanguage,
)
    ensures
        context.key() == fingerprint_text("analysis-context-1"@, context_fields(context)),
        report.identity() == fingerprint_text(
            "semantic-capabilities-1"@,
            declaration_fields(report.declared()),
        ),
        config.identity() == fingerprint_text("semantic-config-1"@, config.inputs()),
        exists|keys: Seq<Chars>| #[trigger]
            is_sorting_of(keys, module_keys(resources, language)) && inventory_identity(
                resources,
                language,
            ) == fingerprint_text(
                "python-semantic-inventory-1"@,
                keys.map_values(|key: Chars| ("module"@, key)),
            ),
        context.key() != report.identity(),
        context.key() != config.identity(),
        context.key() != inventory_identity(resources, language),
        report.identity() != config.identity(),
        report.identity() != inventory_identity(resources, language),
        config.identity() != inventory_identity(resources, language),
{
    let keys = sorting(module_keys(resources, language));
    lemma_sorting_exists(module_keys(resources, language));
    assert(is_sorting_of(keys, module_keys(resources, language)));
    let modules = keys.map_values(|key: Chars| ("module"@, key));
    let a = context_fields(context);
    let b = declaration_fields(report.declared());
    let c = config.inputs();
    reveal_strlit("analysis-context-1");
    reveal_strlit("semantic-capabilities-1");
    reveal_strlit("semantic-config-1");
    reveal_strlit("python-semantic-inventory-1");
    assert("analysis-context-1"@.len() == 18);
    assert("semantic-capabilities-1"@.len() == 23);
    assert("semantic-config-1"@.len() == 17);
    assert("python-semantic-inventory-1"@.len() == 27);
    lemma_fingerprint_identifies_its_inputs("analysis-context-1"@, a, "semantic-capabilities-1"@, b);
    lemma_fingerprint_identifies_its_inputs("analysis-context-1"@, a, "semantic-config-1"@, c);
    lemma_fingerprint_identifies_its_inputs(
        "analysis-context-1"@,
        a,
        "python-semantic-inventory-1"@,
        modules,
    );
    lemma_fingerprint_identifies_its_inputs("semantic-capabilities-1"@, b, "semantic-config-1"@, c);
    lemma_fingerprint_identifies_its_inputs(
        "semantic-capabilities-1"@,
        b,
        "python-semantic-inventory-1"@,
        modules,
    );
    lemma_fingerprint_identifies_its_inputs(
        "semantic-config-1"@,
        c,
        "python-semantic-inventory-1"@,
        modules,
    );
}

} // verus!
