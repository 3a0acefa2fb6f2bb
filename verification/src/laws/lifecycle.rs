//! What a change of the Workspace means for what is published.

use vstd::prelude::*;

use crate::model::{
    Resource, ResourceId, ResourceKind, ResourceLanguage, ResourceRole, ResourceState,
};
use crate::python_semantic::lifecycle::{
    after_refresh, after_refreshes, available, config_content, config_path, declares_pyright_in,
    discovered, is_affected, is_total, key_at_root, lists, merges, moves_the_config,
    moves_the_inventory, names_pyright, source_name, total_removed, total_restored, uri_below,
    watched_kind, watched_map, with_marks, with_revalidations, BackendReadiness, ChangeKind,
    ConfigSource, OwnerOutcome, PythonProjectConfig, ResourceChange, SemanticAvailability,
};
use crate::python_semantic::normalize::{active_by_key, text_of_resource, SourceText};
use crate::python_semantic::protocol::{WatchedChange, WatchedChangeKind};
use crate::python_semantic::refresh::{content_identity, MergeOutcome};
use crate::runtime::RuntimeState;
use crate::semantic::Support;
use crate::semantic_index::{
    lemma_marking_is_local, lemma_revalidating_is_local, reads_resource, row_of, status_in,
    with_revalidation, CurrentInputs, OwnerView, RowView, SemanticState, StatusView,
};
use crate::text::{join, last_piece, split, text_before, trimmed, Chars};

verus! {

// ---------------------------------------------------------------------
// Configuration
// ---------------------------------------------------------------------

/// A `pyrightconfig.json` at the project root decides alone. Without one a
/// `pyproject.toml` there decides if it has a table of the backend's, and
/// otherwise nothing does.
pub proof fn law_the_backends_own_file_decides(
    resources: Seq<Resource>,
    texts: Seq<SourceText>,
    root: Chars,
)
    requires
        root.len() > 0,
        root != "."@,
    ensures
        ({
            let own = active_by_key(resources, root + "/"@ + "pyrightconfig.json"@);
            let shared = active_by_key(resources, root + "/"@ + "pyproject.toml"@);
            let (source, chosen) = discovered(resources, texts, root);
            &&& own is Some ==> source == ConfigSource::PyrightConfig && chosen is Some
                && chosen->0.id == own->0.id
            &&& own is None && shared is None ==> source == ConfigSource::Defaults && chosen is None
            &&& own is None && shared is Some ==> match text_of_resource(texts, shared->0.id) {
                Some(text) => if declares_pyright_in(text) {
                    source == ConfigSource::PyProject && chosen is Some && chosen->0.id
                        == shared->0.id
                } else {
                    source == ConfigSource::Defaults && chosen is None
                },
                None => source == ConfigSource::Defaults && chosen is None,
            }
        }),
{
}

/// At the Workspace's own root the files are looked up by their bare names.
pub proof fn law_the_root_has_bare_names(resources: Seq<Resource>, texts: Seq<SourceText>)
    ensures
        active_by_key(resources, "pyrightconfig.json"@) is Some ==> {
            &&& discovered(resources, texts, Seq::empty()).0 == ConfigSource::PyrightConfig
            &&& discovered(resources, texts, "."@).0 == ConfigSource::PyrightConfig
        },
        active_by_key(resources, "pyrightconfig.json"@) is None && active_by_key(
            resources,
            "pyproject.toml"@,
        ) is None ==> {
            &&& discovered(resources, texts, Seq::empty()).0 == ConfigSource::Defaults
            &&& discovered(resources, texts, "."@).0 == ConfigSource::Defaults
        },
{
}

/// The row of the deciding file keeps what identifies the file and its
/// content, as an active configuration file.
pub proof fn law_the_deciding_file_keeps_its_identity(
    resources: Seq<Resource>,
    texts: Seq<SourceText>,
    root: Chars,
    own: Resource,
)
    requires
        active_by_key(resources, key_at_root(root, "pyrightconfig.json"@)) == Some(own),
    ensures
        discovered(resources, texts, root).1 matches Some(row) && {
            &&& row.id == own.id
            &&& row.path_rel == own.path_rel
            &&& row.path_key == own.path_key
            &&& row.fingerprint == own.fingerprint
            &&& row.content_hash == own.content_hash
            &&& row.resource_revision == own.resource_revision
            &&& row.kind == ResourceKind::File
            &&& row.role == ResourceRole::Config
            &&& row.state == ResourceState::Active
        },
{
}

/// A `pyproject.toml` configures the backend exactly when one of its lines,
/// without the white space around it, opens the backend's table or one
/// below it.
pub proof fn law_a_table_configures_the_backend(lines: Seq<Chars>)
    requires
        lines.len() > 0,
        forall|i: int| 0 <= i < lines.len() ==> !(#[trigger] lines[i]).contains('\n'),
    ensures
        declares_pyright_in(join(lines, seq!['\n'])) <==> exists|i: int|
            0 <= i < lines.len() && (trimmed(#[trigger] lines[i]) == "[tool.pyright]"@
                || "[tool.pyright."@.is_prefix_of(trimmed(lines[i]))),
{
    let text = join(lines, seq!['\n']);
    crate::text::lemma_join_then_split(lines, '\n');
    assert(split(text, '\n') == lines);
    if declares_pyright_in(text) {
        let i = choose|i: int|
            0 <= i < split(text, '\n').len() && names_pyright(#[trigger] split(text, '\n')[i]);
        assert(names_pyright(lines[i]));
    }
    if exists|i: int|
        0 <= i < lines.len() && (trimmed(#[trigger] lines[i]) == "[tool.pyright]"@
            || "[tool.pyright."@.is_prefix_of(trimmed(lines[i]))) {
        let i = choose|i: int|
            0 <= i < lines.len() && (trimmed(#[trigger] lines[i]) == "[tool.pyright]"@
                || "[tool.pyright."@.is_prefix_of(trimmed(lines[i])));
        assert(names_pyright(split(text, '\n')[i]));
    }
}

/// A configuration is told by its source, its file's key and its content.
pub proof fn law_a_configuration_is_told_by_its_file(resource: Resource)
    ensures
        source_name(ConfigSource::PyrightConfig) == "PYRIGHTCONFIG_JSON"@,
        source_name(ConfigSource::PyProject) == "PYPROJECT_TOML"@,
        source_name(ConfigSource::Defaults) == "DEFAULTS"@,
        config_path(Some(resource)) == resource.path_key@,
        config_content(Some(resource)) == content_identity(Some(&resource)),
        config_path(None).len() == 0,
        config_content(None).len() == 0,
{
}

// ---------------------------------------------------------------------
// Who is affected
// ---------------------------------------------------------------------

/// Any change but one of content moves the inventory of modules, and only of
/// a Python Resource.
pub proof fn law_only_content_leaves_the_inventory(change: ResourceChange)
    ensures
        moves_the_inventory(seq![change]) <==> change.language == Some(ResourceLanguage::Python)
            && change.kind != ChangeKind::Changed,
{
    let changes = seq![change];
    assert(changes[0] == change);
}

/// A change of the file that decides the configuration, and of any file of
/// such a name, before or after a move, may move the configuration.
pub proof fn law_a_file_of_that_name_may_decide(
    change: ResourceChange,
    config: PythonProjectConfig,
    folder: Chars,
)
    ensures
        config.resource is Some && config.resource->0.id == change.resource ==> moves_the_config(
            seq![change],
            config,
        ),
        change.path_rel@ == "pyrightconfig.json"@ || change.path_rel@ == "pyproject.toml"@
            || change.path_rel@ == folder + "/pyrightconfig.json"@ || change.path_rel@ == folder
            + "/pyproject.toml"@ ==> moves_the_config(seq![change], config),
        change.previous_path_rel is Some && (change.previous_path_rel->0@ == folder
            + "/pyrightconfig.json"@ || change.previous_path_rel->0@ == folder
            + "/pyproject.toml"@) ==> moves_the_config(seq![change], config),
        change.previous_path_rel is None && last_piece(change.path_rel@, '/')
            != "pyrightconfig.json"@ && last_piece(change.path_rel@, '/') != "pyproject.toml"@ && (
        config.resource is None || config.resource->0.id != change.resource)
            ==> !moves_the_config(seq![change], config),
{
    let changes = seq![change];
    assert(changes[0] == change);
    reveal_strlit("pyrightconfig.json");
    reveal_strlit("pyproject.toml");
    reveal_strlit("/pyrightconfig.json");
    reveal_strlit("/pyproject.toml");
    lemma_last_after(folder, "pyrightconfig.json"@);
    lemma_last_after(folder, "pyproject.toml"@);
    assert(folder.push('/') + "pyrightconfig.json"@ =~= folder + "/pyrightconfig.json"@);
    assert(folder.push('/') + "pyproject.toml"@ =~= folder + "/pyproject.toml"@);
}

proof fn lemma_last_after(folder: Chars, name: Chars)
    requires
        !name.contains('/'),
    ensures
        last_piece(name, '/') == name,
        last_piece(folder.push('/') + name, '/') == name,
{
    crate::text::lemma_join_then_split(seq![name], '/');
    assert(join(seq![name], seq!['/']) == name);
    crate::text::lemma_split_around(folder, name, '/');
    assert(split(name, '/') == seq![name]);
    assert((split(folder, '/') + seq![name]).last() == name);
}

/// An owner is affected exactly when it is of the context and its
/// publication read what changed, or the change is program-wide, or its
/// Resource is re-resolved with those that changed.
pub proof fn law_a_change_affects_who_read_it(
    rows: Seq<RowView>,
    context_key: Chars,
    changes: Seq<ResourceChange>,
    config: PythonProjectConfig,
    dependents: Seq<ResourceId>,
    row: int,
    change: int,
)
    requires
        0 <= row < rows.len(),
        0 <= change < changes.len(),
        rows[row].owner.context_key == context_key,
        rows[row].status.basis is Some,
    ensures
        reads_resource(rows[row].status.basis->0, changes[change].resource) ==> is_affected(
            rows,
            context_key,
            changes,
            config,
            dependents,
            rows[row].owner,
        ),
        dependents.contains(rows[row].owner.owner) ==> is_affected(
            rows,
            context_key,
            changes,
            config,
            dependents,
            rows[row].owner,
        ),
        changes[change].language == Some(ResourceLanguage::Python) && changes[change].kind
            != ChangeKind::Changed ==> is_affected(
            rows,
            context_key,
            changes,
            config,
            dependents,
            rows[row].owner,
        ),
{
    let owner = rows[row].owner;
    crate::laws::publication::law_a_context_holds_its_owners(rows, context_key, owner);
    crate::laws::publication::law_an_owner_depends_on_what_it_read(
        rows,
        changes[change].resource,
        owner,
    );
    if reads_resource(rows[row].status.basis->0, changes[change].resource) {
        let sources = rows[row].status.basis->0.sources;
        let i = choose|i: int|
            0 <= i < sources.len() && (#[trigger] sources[i]).0 == changes[change].resource;
        assert(rows[row].status.basis->0.sources[i].0 == changes[change].resource);
    }
}

/// No owner of another context is affected.
pub proof fn law_no_other_context_is_affected(
    rows: Seq<RowView>,
    context_key: Chars,
    changes: Seq<ResourceChange>,
    config: PythonProjectConfig,
    dependents: Seq<ResourceId>,
    owner: OwnerView,
)
    requires
        owner.context_key != context_key,
    ensures
        !is_affected(rows, context_key, changes, config, dependents, owner),
{
}

// ---------------------------------------------------------------------
// Watched files
// ---------------------------------------------------------------------

/// Each kind of change is told as what it is on the filesystem.
pub proof fn law_a_change_is_told_as_it_is(kind: ChangeKind)
    ensures
        watched_kind(kind) == WatchedChangeKind::Created <==> kind == ChangeKind::Added,
        watched_kind(kind) == WatchedChangeKind::Deleted <==> kind == ChangeKind::Deleted,
        watched_kind(kind) == WatchedChangeKind::Changed <==> kind == ChangeKind::Changed || kind
            == ChangeKind::Moved,
{
}

/// One change is told at its path, under its kind, and a path that it left
/// is told deleted; nothing else is told.
pub proof fn law_a_change_is_told_at_its_paths(root: Chars, change: ResourceChange, uri: Chars)
    ensures
        ({
            let told = watched_map(root, seq![change]);
            let here = uri_below(root, change.path_rel@);
            &&& told.contains_key(here)
            &&& change.previous_path_rel is None ==> told[here] == watched_kind(change.kind)
            &&& change.previous_path_rel is Some && uri_below(
                root,
                change.previous_path_rel->0@,
            ) != here ==> {
                let left = uri_below(root, change.previous_path_rel->0@);
                &&& told[here] == watched_kind(change.kind)
                &&& told.contains_key(left)
                &&& told[left] == WatchedChangeKind::Deleted
            }
            &&& told.contains_key(uri) ==> uri == here || (change.previous_path_rel is Some && uri
                == uri_below(root, change.previous_path_rel->0@))
        }),
{
    let changes = seq![change];
    reveal_with_fuel(watched_map, 2);
    assert(changes.drop_last() =~= Seq::<ResourceChange>::empty());
    assert(changes.last() == change);
}

/// A file that was created and then changed is told created; one that was
/// changed and then deleted is told deleted.
pub proof fn law_a_later_change_refines(
    root: Chars,
    earlier: Seq<ResourceChange>,
    change: ResourceChange,
)
    requires
        change.previous_path_rel is None,
        watched_map(root, earlier).contains_key(uri_below(root, change.path_rel@)),
    ensures
        ({
            let uri = uri_below(root, change.path_rel@);
            let before = watched_map(root, earlier)[uri];
            let after = watched_map(root, earlier.push(change));
            &&& after.dom() == watched_map(root, earlier).dom()
            &&& before == WatchedChangeKind::Created ==> after[uri] == WatchedChangeKind::Created
            &&& before == WatchedChangeKind::Deleted ==> after[uri] == WatchedChangeKind::Deleted
            &&& before == WatchedChangeKind::Changed ==> after[uri] == watched_kind(change.kind)
        }),
        forall|uri: Chars|
            uri != uri_below(root, change.path_rel@) && watched_map(root, earlier).contains_key(uri)
                ==> #[trigger] watched_map(root, earlier.push(change))[uri] == watched_map(
                root,
                earlier,
            )[uri],
{
    assert(earlier.push(change).drop_last() =~= earlier);
    let uri = uri_below(root, change.path_rel@);
    assert(watched_map(root, earlier.push(change)).dom() =~= watched_map(root, earlier).dom());
}

/// What is told is told once, in the order of the URIs.
pub proof fn law_each_uri_is_told_once(
    watched: Seq<WatchedChange>,
    map: Map<Chars, WatchedChangeKind>,
    i: int,
    j: int,
)
    requires
        lists(watched, map),
        0 <= i < j < watched.len(),
    ensures
        text_before(watched[i].uri@, watched[j].uri@),
        watched[i].uri@ != watched[j].uri@,
{
    crate::text::lemma_text_order_is_total(watched[i].uri@, watched[j].uri@, watched[i].uri@);
}

// ---------------------------------------------------------------------
// Availability
// ---------------------------------------------------------------------

/// A current publication is current, whether or not a backend runs; a
/// partial one is told partial; one that is not current has to be refreshed
/// where there is a backend for it, and is unavailable where there is none.
pub proof fn law_what_an_answer_is_worth(
    status: StatusView,
    runtime: RuntimeState,
    readiness: BackendReadiness,
)
    ensures
        available(status, runtime, readiness) == SemanticAvailability::Partial <==> status.state
            == SemanticState::Current && status.support == Some(Support::Partial),
        available(status, runtime, readiness) == SemanticAvailability::Current <==> status.state
            == SemanticState::Current && status.support != Some(Support::Partial) && runtime
            == RuntimeState::Ready,
        available(status, runtime, readiness) == SemanticAvailability::CurrentRuntimeCold
            <==> status.state == SemanticState::Current && status.support != Some(Support::Partial)
            && runtime != RuntimeState::Ready,
        available(status, runtime, readiness) == SemanticAvailability::RefreshRequired
            <==> status.state != SemanticState::Current && readiness == BackendReadiness::Available,
        available(status, runtime, readiness) == SemanticAvailability::Unavailable <==> status.state
            != SemanticState::Current && readiness == BackendReadiness::Unavailable,
        available(status, runtime, readiness).current() <==> status.state == SemanticState::Current,
{
}

// ---------------------------------------------------------------------
// Refreshing
// ---------------------------------------------------------------------

/// A failed refresh makes its owner dirty under `BACKEND_UNAVAILABLE`, with
/// the last answer kept; a successful one moves nothing any more; and no
/// other owner is touched.
pub proof fn law_a_failed_refresh_marks_its_owner(
    rows: Seq<RowView>,
    owner: OwnerView,
    other: OwnerView,
)
    ensures
        after_refresh(rows, owner, true) == rows,
        status_in(after_refresh(rows, owner, false), owner).state == SemanticState::Dirty,
        status_in(after_refresh(rows, owner, false), owner).last_error_code == Some(
            "BACKEND_UNAVAILABLE"@,
        ),
        status_in(after_refresh(rows, owner, false), owner).stable_generation_id == status_in(
            rows,
            owner,
        ).stable_generation_id,
        other != owner ==> status_in(after_refresh(rows, owner, false), other) == status_in(
            rows,
            other,
        ),
{
    lemma_marking_is_local(rows, owner, SemanticState::Dirty, "BACKEND_UNAVAILABLE"@, other);
}

/// Refreshing several owners moves only those whose refresh failed.
pub proof fn law_one_failure_is_no_reason_to_drop_another(
    rows: Seq<RowView>,
    owners: Seq<OwnerView>,
    succeeded: Seq<bool>,
    owner: OwnerView,
)
    requires
        owners.len() == succeeded.len(),
        forall|i: int|
            0 <= i < owners.len() && !(#[trigger] succeeded[i]) ==> owners[i] != owner,
    ensures
        status_in(after_refreshes(rows, owners, succeeded), owner) == status_in(rows, owner),
    decreases owners.len(),
{
    if owners.len() > 0 {
        let fewer = owners.drop_last();
        let answers = succeeded.drop_last();
        assert forall|i: int| 0 <= i < fewer.len() && !(#[trigger] answers[i]) implies fewer[i]
            != owner by {
            assert(succeeded[i] == answers[i]);
        }
        law_one_failure_is_no_reason_to_drop_another(rows, fewer, answers, owner);
        let last = succeeded.len() - 1;
        if !succeeded[last] {
            law_a_failed_refresh_marks_its_owner(
                after_refreshes(rows, fewer, answers),
                owners.last(),
                owner,
            );
        }
    }
}

/// Every owner whose refresh failed is dirty afterwards.
pub proof fn law_every_failure_is_marked(
    rows: Seq<RowView>,
    owners: Seq<OwnerView>,
    succeeded: Seq<bool>,
    at: int,
)
    requires
        owners.len() == succeeded.len(),
        0 <= at < owners.len(),
        !succeeded[at],
    ensures
        status_in(after_refreshes(rows, owners, succeeded), owners[at]).state
            == SemanticState::Dirty,
    decreases owners.len(),
{
    let fewer = owners.drop_last();
    let answers = succeeded.drop_last();
    let earlier = after_refreshes(rows, fewer, answers);
    if at < fewer.len() {
        law_every_failure_is_marked(rows, fewer, answers, at);
        assert(fewer[at] == owners[at]);
    }
    if !succeeded.last() {
        law_a_failed_refresh_marks_its_owner(earlier, owners.last(), owners[at]);
    }
}

/// Every withdrawn owner has the state and the code that it was marked with,
/// and every other owner is as it was.
pub proof fn law_withdrawn_owners_are_marked(
    rows: Seq<RowView>,
    owners: Seq<OwnerView>,
    state: SemanticState,
    code: Chars,
    owner: OwnerView,
)
    ensures
        owners.contains(owner) ==> {
            let after = status_in(with_marks(rows, owners, state, code), owner);
            &&& after.state == state
            &&& after.last_error_code == Some(code)
            &&& after.stable_generation_id == status_in(rows, owner).stable_generation_id
            &&& after.basis == status_in(rows, owner).basis
        },
        !owners.contains(owner) ==> status_in(with_marks(rows, owners, state, code), owner)
            == status_in(rows, owner),
{
    crate::python_semantic::lifecycle::lemma_marks_are_local_and_keep_the_last_answer(
        rows,
        owners,
        state,
        code,
        owner,
    );
}

proof fn lemma_found_row(rows: Seq<RowView>, owner: OwnerView)
    ensures
        0 <= row_of(rows, owner) <= rows.len(),
        row_of(rows, owner) < rows.len() ==> rows[row_of(rows, owner)].owner == owner,
    decreases rows.len(),
{
    if rows.len() > 0 && rows[0].owner != owner {
        lemma_found_row(rows.skip(1), owner);
        let at = row_of(rows.skip(1), owner);
        if at < rows.skip(1).len() {
            assert(rows[at + 1] == rows.skip(1)[at]);
        }
    }
}

proof fn lemma_row_stays(rows: Seq<RowView>, owner: OwnerView, after: Seq<RowView>)
    requires
        after.len() == rows.len(),
        forall|i: int| 0 <= i < rows.len() ==> (#[trigger] after[i]).owner == rows[i].owner,
    ensures
        row_of(after, owner) == row_of(rows, owner),
    decreases rows.len(),
{
    if rows.len() > 0 {
        assert(after[0].owner == rows[0].owner);
        let fewer = rows.skip(1);
        let rest = after.skip(1);
        assert forall|i: int| 0 <= i < fewer.len() implies (#[trigger] rest[i]).owner
            == fewer[i].owner by {
            assert(rest[i] == after[i + 1]);
            assert(fewer[i] == rows[i + 1]);
        }
        lemma_row_stays(fewer, owner, rest);
    }
}

proof fn lemma_checking_one(
    rows: Seq<RowView>,
    checked: OwnerView,
    current: CurrentInputs,
    resources: Seq<Resource>,
    owner: OwnerView,
)
    ensures
        ({
            let before = status_in(rows, owner);
            let after = status_in(with_revalidation(rows, checked, current, resources), owner);
            &&& after.stable_generation_id == before.stable_generation_id
            &&& after.basis == before.basis
            &&& after.state == SemanticState::Current ==> after == before
            &&& checked != owner ==> after == before
        }),
{
    if checked != owner {
        lemma_revalidating_is_local(rows, checked, current, resources, owner);
    } else {
        lemma_found_row(rows, owner);
        let after = with_revalidation(rows, owner, current, resources);
        lemma_row_stays(rows, owner, after);
    }
}

/// Checking a context makes nothing current that was not, keeps every last
/// answer readable, and leaves every owner that is not checked as it was.
pub proof fn law_checking_a_context_never_vouches(
    rows: Seq<RowView>,
    owners: Seq<OwnerView>,
    current: CurrentInputs,
    resources: Seq<Resource>,
    owner: OwnerView,
)
    ensures
        ({
            let before = status_in(rows, owner);
            let after = status_in(with_revalidations(rows, owners, current, resources), owner);
            &&& after.stable_generation_id == before.stable_generation_id
            &&& after.basis == before.basis
            &&& after.state == SemanticState::Current ==> after == before
            &&& !owners.contains(owner) ==> after == before
        }),
    decreases owners.len(),
{
    if owners.len() > 0 {
        let fewer = owners.drop_last();
        law_checking_a_context_never_vouches(rows, fewer, current, resources, owner);
        lemma_checking_one(
            with_revalidations(rows, fewer, current, resources),
            owners.last(),
            current,
            resources,
            owner,
        );
        if !owners.contains(owner) {
            assert(owners[owners.len() - 1] != owner);
            assert forall|i: int| 0 <= i < fewer.len() implies fewer[i] != owner by {
                assert(owners[i] == fewer[i]);
            }
        }
    }
}

// ---------------------------------------------------------------------
// Counting
// ---------------------------------------------------------------------

/// What one more withdrawal did is added to what was counted.
pub proof fn law_withdrawals_are_added(outcomes: Seq<MergeOutcome>, next: MergeOutcome)
    ensures
        total_restored(Seq::empty()) == 0,
        total_removed(Seq::empty()) == 0,
        total_restored(outcomes.push(next)) == total_restored(outcomes) + next.gaps_restored,
        total_removed(outcomes.push(next)) == total_removed(outcomes) + next.relations_removed,
{
    assert(outcomes.push(next).drop_last() =~= outcomes);
}

/// The total of merges counts each of them once, count by count, and a
/// failed refresh adds nothing.
pub proof fn law_merges_are_added(
    outcomes: Seq<OwnerOutcome>,
    next: OwnerOutcome,
    before: MergeOutcome,
    after: MergeOutcome,
)
    requires
        is_total(before, merges(outcomes)),
        is_total(after, merges(outcomes.push(next))),
    ensures
        next is Failed ==> after == before,
        next matches OwnerOutcome::Refreshed(refreshed) ==> {
            &&& after.gaps_resolved == before.gaps_resolved + refreshed.merged.gaps_resolved
            &&& after.gaps_restored == before.gaps_restored + refreshed.merged.gaps_restored
            &&& after.corroborated == before.corroborated + refreshed.merged.corroborated
            &&& after.relations_created == before.relations_created
                + refreshed.merged.relations_created
            &&& after.relations_removed == before.relations_removed
                + refreshed.merged.relations_removed
            &&& after.conflicts == before.conflicts + refreshed.merged.conflicts
        },
{
    assert(outcomes.push(next).drop_last() =~= outcomes);
    if let OwnerOutcome::Refreshed(refreshed) = next {
        assert(merges(outcomes).push(refreshed.merged).drop_last() =~= merges(outcomes));
    }
}

} // verus!
