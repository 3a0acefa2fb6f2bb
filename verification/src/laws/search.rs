//! What listings, searches and lookups over the index return.

use vstd::prelude::*;

use crate::component::FreshnessState;
use crate::model::{Resource, ResourceId, ResourceKind, ResourceState, Symbol};
use crate::query::{
    active_row, candidates_of, claimed_currentness, closer, collected, coverage, coverage_noted,
    file_selected, is_listing, lemma_search_is_honest, note_of, resource_named, row_hits,
    symbol_before, symbol_hits, symbol_selected, CoverageNote, Currentness, FileListing,
    FileQueryView, IndexedResource, NotCurrentReason, ResourceLocator, ResourceScope,
    StructuralCapability, StructuralCoverage, StructuralState, SymbolCandidate, SymbolHit,
    SymbolQuery, SymbolSelector,
};
use crate::query_text::{basename, direct_child, directory_prefix_of, folded, occurs_at};
use crate::text::{lemma_split_then_join, lemma_text_order_is_total, split, text_le, Chars};

verus! {

proof fn lemma_kept<T>(all: Seq<T>, keeps: spec_fn(T) -> bool)
    ensures
        forall|i: int|
            0 <= i < all.filter(keeps).len() ==> keeps(#[trigger] all.filter(keeps)[i])
                && all.contains(all.filter(keeps)[i]),
        forall|i: int|
            0 <= i < all.len() && keeps(#[trigger] all[i]) ==> all.filter(keeps).contains(all[i]),
{
    assert forall|i: int| 0 <= i < all.filter(keeps).len() implies keeps(
        #[trigger] all.filter(keeps)[i],
    ) && all.contains(all.filter(keeps)[i]) by {
        all.lemma_filter_pred(keeps, i);
        assert(all.filter(keeps).contains(all.filter(keeps)[i]));
        all.lemma_filter_contains_rev(keeps, all.filter(keeps)[i]);
    }
    assert forall|i: int| 0 <= i < all.len() && keeps(#[trigger] all[i]) implies all.filter(
        keeps,
    ).contains(all[i]) by {
        all.lemma_filter_contains(keeps, i);
    }
}

// ---------------------------------------------------------------------
// Coverage
// ---------------------------------------------------------------------

/// Whether a row is one that a scope takes in.
pub open spec fn looked_at(scope: Option<ResourceScope<'_>>, row: IndexedResource) -> bool {
    match scope {
        None => true,
        Some(ResourceScope::Id(id)) => row.resource.id == id,
        Some(ResourceScope::PathPrefix(prefix)) => exists|rest: Chars|
            row.resource.path_key@ == #[trigger] (prefix@ + rest),
    }
}

proof fn lemma_starts(prefix: Chars, text: Chars)
    ensures
        prefix.is_prefix_of(text) <==> exists|rest: Chars| text == #[trigger] (prefix + rest),
{
    if prefix.is_prefix_of(text) {
        let rest = text.skip(prefix.len() as int);
        assert(text =~= prefix + rest);
    }
    assert forall|rest: Chars| text == #[trigger] (prefix + rest) implies prefix.is_prefix_of(
        text,
    ) by {
        assert(prefix =~= text.subrange(0, prefix.len() as int));
    }
}

/// A file that the index does not fully cover is named beside every result:
/// an ACTIVE file with a language, in scope, for which anything but complete
/// coverage was recorded, is noted, and a file whose current bytes do not
/// parse is noted as partial.
pub proof fn law_what_is_not_covered_is_noted(
    rows: Seq<IndexedResource>,
    scope: Option<ResourceScope<'_>>,
    notes: Seq<CoverageNote>,
    at: int,
    recorded: StructuralState,
)
    requires
        notes == rows.filter(|row: IndexedResource| coverage_noted(scope, row)).map_values(
            |row: IndexedResource| note_of(row),
        ),
        0 <= at < rows.len(),
        rows[at].resource.state == ResourceState::Active,
        rows[at].resource.kind == ResourceKind::File,
        rows[at].resource.language is Some,
        looked_at(scope, rows[at]),
        rows[at].structural == Some(recorded),
        recorded != StructuralState::Complete,
    ensures
        exists|i: int|
            {
                &&& 0 <= i < notes.len()
                &&& (#[trigger] notes[i]).resource_id == rows[at].resource.id
                &&& notes[i].path_rel == rows[at].resource.path_rel
                &&& notes[i].coverage != StructuralCoverage::Complete
                &&& recorded == StructuralState::Partial ==> notes[i].coverage
                    == StructuralCoverage::Partial
                &&& recorded == StructuralState::ContainerOnly ==> notes[i].coverage
                    == StructuralCoverage::ContainerOnly
                &&& recorded == StructuralState::GeneratedUnmapped ==> notes[i].coverage
                    == StructuralCoverage::GeneratedUnmapped
                &&& recorded == StructuralState::Unsupported || recorded
                    == StructuralState::Unavailable ==> notes[i].coverage
                    == StructuralCoverage::Unsupported
            },
{
    let noted = |row: IndexedResource| coverage_noted(scope, row);
    if let Some(ResourceScope::PathPrefix(prefix)) = scope {
        lemma_starts(prefix@, rows[at].resource.path_key@);
    }
    lemma_kept(rows, noted);
    assert(noted(rows[at]));
    let kept = rows.filter(noted);
    let i = choose|i: int| 0 <= i < kept.len() && kept[i] == rows[at];
    assert(notes[i] == note_of(rows[at]));
}

/// What is noted is really incomplete: every note is of an ACTIVE file with a
/// language in scope, and says what was recorded of it or, where nothing was,
/// what its kind of file implies.
pub proof fn law_a_note_is_of_an_incomplete_file(
    rows: Seq<IndexedResource>,
    scope: Option<ResourceScope<'_>>,
    notes: Seq<CoverageNote>,
    at: int,
)
    requires
        notes == rows.filter(|row: IndexedResource| coverage_noted(scope, row)).map_values(
            |row: IndexedResource| note_of(row),
        ),
        0 <= at < notes.len(),
    ensures
        exists|k: int|
            {
                &&& 0 <= k < rows.len()
                &&& (#[trigger] rows[k]).resource.id == notes[at].resource_id
                &&& rows[k].resource.path_rel == notes[at].path_rel
                &&& rows[k].resource.state == ResourceState::Active
                &&& rows[k].resource.kind == ResourceKind::File
                &&& rows[k].resource.language is Some
                &&& looked_at(scope, rows[k])
                &&& rows[k].structural != Some(StructuralState::Complete)
                &&& rows[k].structural is None ==> rows[k].capability != Some(
                    StructuralCapability::WholeFile,
                )
            },
{
    let noted = |row: IndexedResource| coverage_noted(scope, row);
    lemma_kept(rows, noted);
    let kept = rows.filter(noted);
    assert(notes[at] == note_of(kept[at]));
    assert(noted(kept[at]));
    let k = choose|k: int| 0 <= k < rows.len() && rows[k] == kept[at];
    if let Some(ResourceScope::PathPrefix(prefix)) = scope {
        lemma_starts(prefix@, rows[k].resource.path_key@);
    }
    assert(rows[k].resource.id == notes[at].resource_id);
}

/// Coverage is never overstated: it is complete only where complete coverage
/// was recorded or, with nothing recorded, where the dialect of a file reads
/// it whole; and it is partial exactly where that was recorded.
pub proof fn law_coverage_is_not_overstated(row: IndexedResource)
    ensures
        coverage(row) == StructuralCoverage::Complete ==> row.structural == Some(
            StructuralState::Complete,
        ) || (row.structural is None && row.resource.kind == ResourceKind::File && row.capability
            == Some(StructuralCapability::WholeFile)),
        row.structural == Some(StructuralState::Complete) ==> coverage(row)
            == StructuralCoverage::Complete,
        coverage(row) == StructuralCoverage::Partial <==> row.structural == Some(
            StructuralState::Partial,
        ),
        row.structural is None && row.resource.kind == ResourceKind::File && row.capability
            == Some(StructuralCapability::WholeFile) ==> coverage(row)
            == StructuralCoverage::Complete,
        row.structural is None && row.resource.kind == ResourceKind::File && row.capability
            == Some(StructuralCapability::Container) ==> coverage(row)
            == StructuralCoverage::ContainerOnly,
        row.structural is None && (row.resource.kind != ResourceKind::File || row.capability
            is None) ==> coverage(row) == StructuralCoverage::Unsupported,
        row.structural == Some(StructuralState::Unavailable) || row.structural == Some(
            StructuralState::Unsupported,
        ) ==> coverage(row) == StructuralCoverage::Unsupported,
        row.structural == Some(StructuralState::ContainerOnly) ==> coverage(row)
            == StructuralCoverage::ContainerOnly,
        row.structural == Some(StructuralState::GeneratedUnmapped) ==> coverage(row)
            == StructuralCoverage::GeneratedUnmapped,
{
}

// ---------------------------------------------------------------------
// Currentness
// ---------------------------------------------------------------------

/// A result is claimed current exactly when the index was recorded current;
/// else it says whether the index is dirty or was never published.
pub proof fn law_only_a_current_index_is_claimed_current(freshness: Option<FreshnessState>)
    ensures
        claimed_currentness(freshness) == Currentness::Current <==> freshness == Some(
            FreshnessState::Current,
        ),
        claimed_currentness(freshness) == Currentness::NotCurrent(
            NotCurrentReason::ResourceIndexDirty,
        ) <==> freshness == Some(FreshnessState::Dirty),
        claimed_currentness(freshness) == Currentness::NotCurrent(
            NotCurrentReason::ResourceIndexNeverPublished,
        ) <==> freshness is None,
{
}

// ---------------------------------------------------------------------
// Listings
// ---------------------------------------------------------------------

/// Whether a path lies in a directory, given by its path without a slash at
/// the end; the empty directory is the root, which everything lies in.
pub open spec fn lies_in(path: Chars, directory: Chars) -> bool {
    directory.len() == 0 || exists|rest: Chars| path == #[trigger] (directory.push('/') + rest)
}

/// Whether a path names an entry of the directory itself.
pub open spec fn is_entry_of(path: Chars, directory: Chars) -> bool {
    if directory.len() == 0 {
        path.len() > 0 && !path.contains('/')
    } else {
        exists|name: Chars|
            name.len() > 0 && !name.contains('/') && path == #[trigger] (directory.push('/')
                + name)
    }
}

proof fn lemma_directory(path: Chars, directory: Chars)
    requires
        directory.len() > 0 ==> directory.last() != '/',
    ensures
        directory_prefix_of(directory).is_prefix_of(path) <==> lies_in(path, directory),
        direct_child(path, directory_prefix_of(directory)) <==> is_entry_of(path, directory),
{
    let prefix = directory_prefix_of(directory);
    lemma_starts(prefix, path);
    if directory.len() == 0 {
        assert(prefix =~= Seq::empty());
        assert(path =~= prefix + path);
        assert(path.skip(0) =~= path);
    } else {
        assert(prefix == directory.push('/'));
        if direct_child(path, prefix) {
            let name = path.skip(prefix.len() as int);
            assert(path =~= directory.push('/') + name);
        }
        assert forall|name: Chars|
            name.len() > 0 && !name.contains('/') && path == #[trigger] (directory.push('/')
                + name) implies direct_child(path, prefix) by {
            assert(path.skip(prefix.len() as int) =~= name);
            assert(prefix =~= path.subrange(0, prefix.len() as int));
        }
    }
}

/// Slashes at the end of a directory say nothing.
pub proof fn law_trailing_slashes_say_nothing(directory: Chars)
    ensures
        directory_prefix_of(directory.push('/')) == directory_prefix_of(directory),
        directory.len() > 0 && directory.last() != '/' ==> directory_prefix_of(directory)
            == directory.push('/'),
        directory.len() == 0 ==> directory_prefix_of(directory).len() == 0,
{
    assert(directory.push('/').drop_last() =~= directory);
}

/// What a listing asks of a Resource.
pub open spec fn is_asked_for(query: FileQueryView, resource: Resource) -> bool {
    &&& resource.state == ResourceState::Active
    &&& query.directory matches Some(directory) ==> if query.recursive {
        lies_in(resource.path_key@, directory)
    } else {
        is_entry_of(resource.path_key@, directory)
    }
    &&& query.path_prefix matches Some(prefix) ==> exists|rest: Chars|
        resource.path_rel@ == #[trigger] (prefix + rest)
    &&& query.role is None || query.role == Some(resource.role)
    &&& query.language is None || query.language == resource.language
    &&& query.kind is None || query.kind == Some(resource.kind)
}

/// A listing holds ACTIVE Resources that the query asks for and no others; it
/// holds all of them where it was not cut short, and is full where it was.
/// Without a limit of its own it is cut at two hundred.
pub proof fn law_a_listing_holds_what_was_asked_for(
    rows: Seq<IndexedResource>,
    freshness: Option<FreshnessState>,
    query: FileQueryView,
    listing: FileListing,
)
    requires
        is_listing(rows, freshness, query, listing),
        query.directory matches Some(directory) ==> (directory.len() > 0 ==> directory.last()
            != '/'),
    ensures
        forall|i: int|
            0 <= i < listing.entries@.len() ==> is_asked_for(query, #[trigger] listing.entries@[i]),
        !listing.truncated ==> forall|k: int|
            0 <= k < rows.len() && is_asked_for(query, (#[trigger] rows[k]).resource)
                ==> listing.entries@.contains(rows[k].resource),
        listing.truncated ==> listing.entries@.len() == match query.limit {
            Some(limit) => limit as int,
            None => 200,
        },
        listing.entries@.len() <= match query.limit {
            Some(limit) => limit as int,
            None => 200,
        },
        listing.currentness == Currentness::Current <==> freshness == Some(FreshnessState::Current),
{
    let keeps = |row: IndexedResource| file_selected(query, row);
    let kept = rows.filter(keeps);
    lemma_kept(rows, keeps);
    assert forall|row: IndexedResource| file_selected(query, row) <==> is_asked_for(
        query,
        #[trigger] row.resource,
    ) by {
        if let Some(directory) = query.directory {
            lemma_directory(row.resource.path_key@, directory);
            if direct_child(row.resource.path_key@, directory_prefix_of(directory)) {
                assert(directory_prefix_of(directory).is_prefix_of(row.resource.path_key@));
            }
        }
        if let Some(prefix) = query.path_prefix {
            lemma_starts(prefix, row.resource.path_rel@);
        }
    }
    assert forall|i: int| 0 <= i < listing.entries@.len() implies is_asked_for(
        query,
        #[trigger] listing.entries@[i],
    ) by {
        assert(listing.entries@[i] == kept[i].resource);
        assert(keeps(kept[i]));
    }
    if !listing.truncated {
        assert(kept.take(kept.len() as int) =~= kept);
        assert forall|k: int|
            0 <= k < rows.len() && is_asked_for(
                query,
                (#[trigger] rows[k]).resource,
            ) implies listing.entries@.contains(rows[k].resource) by {
            assert(keeps(rows[k]));
            let i = choose|i: int| 0 <= i < kept.len() && kept[i] == rows[k];
            assert(listing.entries@[i] == rows[k].resource);
        }
    }
}

// ---------------------------------------------------------------------
// Locating
// ---------------------------------------------------------------------

/// The name that a path ends in.
pub open spec fn ends_in(path: Chars, name: Chars) -> bool {
    !name.contains('/') && (path == name || exists|before: Chars|
        path == #[trigger] (before.push('/') + name))
}

/// The last segment of a path is what it ends in, and there is one.
pub proof fn law_the_basename_is_what_the_path_ends_in(path: Chars)
    ensures
        ends_in(path, basename(path)),
{
    lemma_split_then_join(path, '/');
    let pieces = split(path, '/');
    let name = pieces.last();
    assert(pieces[pieces.len() - 1] == name);
    if pieces.len() == 1 {
        assert(crate::text::join(pieces, seq!['/']) == pieces[0]);
    } else {
        let before = crate::text::join(pieces.drop_last(), seq!['/']);
        assert(path =~= before.push('/') + name);
    }
}

/// A Resource is located by its identity, its whole path, the name it ends in
/// or the start of its path, and only while it is ACTIVE.
pub proof fn law_a_locator_names_active_resources(
    locator: ResourceLocator<'_>,
    row: IndexedResource,
)
    ensures
        row.resource.state == ResourceState::Deleted ==> !resource_named(locator, row),
        row.resource.state == ResourceState::Active ==> {
            &&& locator matches ResourceLocator::Id(id) ==> (resource_named(locator, row)
                <==> row.resource.id == id)
            &&& locator matches ResourceLocator::Path(path) ==> (resource_named(locator, row)
                <==> row.resource.path_key@ == path@)
            &&& locator matches ResourceLocator::Basename(name) ==> (resource_named(locator, row)
                ==> ends_in(row.resource.path_key@, name@))
            &&& locator matches ResourceLocator::PathPrefix(prefix) ==> (resource_named(
                locator,
                row,
            ) <==> exists|rest: Chars| row.resource.path_key@ == #[trigger] (prefix@ + rest))
        },
{
    law_the_basename_is_what_the_path_ends_in(row.resource.path_key@);
    if let ResourceLocator::PathPrefix(prefix) = locator {
        lemma_starts(prefix@, row.resource.path_key@);
    }
}

/// A Resource that ends in a name is located by that name.
pub proof fn law_a_resource_is_located_by_its_name(row: IndexedResource, name: &str, before: Chars)
    requires
        row.resource.state == ResourceState::Active,
        !name@.contains('/'),
        row.resource.path_key@ == name@ || row.resource.path_key@ == before.push('/') + name@,
    ensures
        resource_named(ResourceLocator::Basename(name), row),
{
    let pieces = seq![name@];
    assert forall|i: int| 0 <= i < pieces.len() implies !(#[trigger] pieces[i]).contains('/') by {}
    crate::text::lemma_join_then_split(pieces, '/');
    assert(crate::text::join(pieces, seq!['/']) == name@);
    crate::text::lemma_split_around(before, name@, '/');
    assert((split(before, '/') + pieces).last() == name@);
}

/// The ACTIVE Resource of an identity: it is found exactly when there is one,
/// and what is found is ACTIVE and of that identity.
pub proof fn law_a_tombstone_is_not_found(rows: Seq<IndexedResource>, id: ResourceId)
    ensures
        active_row(rows, id) matches Some(row) ==> rows.contains(row) && row.resource.id == id
            && row.resource.state == ResourceState::Active,
        active_row(rows, id) is None ==> forall|k: int|
            0 <= k < rows.len() ==> (#[trigger] rows[k]).resource.id != id
                || rows[k].resource.state == ResourceState::Deleted,
    decreases rows.len(),
{
    if rows.len() > 0 {
        let rest = rows.skip(1);
        law_a_tombstone_is_not_found(rest, id);
        assert(rows[0] == rows.first());
        if let Some(row) = active_row(rest, id) {
            let k = choose|k: int| 0 <= k < rest.len() && rest[k] == row;
            assert(rows[k + 1] == row);
        }
        assert forall|k: int|
            0 <= k < rows.len() && active_row(rows, id) is None implies (
        #[trigger] rows[k]).resource.id != id || rows[k].resource.state
            == ResourceState::Deleted by {
            if k > 0 {
                assert(rest[k - 1] == rows[k]);
            }
        }
    }
}

// ---------------------------------------------------------------------
// Searching
// ---------------------------------------------------------------------

/// What a search asks of a Symbol and of the Resource that declares it.
pub open spec fn is_searched_for(
    query: SymbolQuery<'_>,
    resource: Resource,
    symbol: Symbol,
) -> bool {
    &&& resource.state == ResourceState::Active
    &&& query.scope matches Some(ResourceScope::Id(id)) ==> resource.id == id
    &&& query.scope matches Some(ResourceScope::PathPrefix(prefix)) ==> exists|rest: Chars|
        resource.path_key@ == #[trigger] (prefix@ + rest)
    &&& query.language is None || query.language == resource.language
    &&& query.kind is None || query.kind == Some(symbol.kind)
    &&& match query.selector {
        SymbolSelector::Id(id) => symbol.id == id,
        SymbolSelector::QualifiedName(name) => symbol.qualified_name@ == name@,
        SymbolSelector::Name(name) => symbol.name@ == name@,
        SymbolSelector::PartialName(fragment) => exists|at: int|
            #[trigger] occurs_at(symbol.name@, fragment@, at),
    }
}

proof fn lemma_hit_or_not(query: SymbolQuery<'_>, row: IndexedResource, symbol: Symbol)
    requires
        row.symbols@.contains(symbol),
    ensures
        row_hits(query, row).contains(SymbolHit { row, symbol }) <==> is_searched_for(
            query,
            row.resource,
            symbol,
        ),
{
    let selects = |symbol: Symbol| symbol_selected(query, symbol);
    let make = |symbol: Symbol| SymbolHit { row, symbol };
    let kept = row.symbols@.filter(selects);
    lemma_kept(row.symbols@, selects);
    if let Some(ResourceScope::PathPrefix(prefix)) = query.scope {
        lemma_starts(prefix@, row.resource.path_key@);
    }
    let hits = row_hits(query, row);
    if hits.contains(SymbolHit { row, symbol }) {
        let i = choose|i: int| 0 <= i < hits.len() && hits[i] == (SymbolHit { row, symbol });
        assert(hits[i] == make(kept[i]));
        assert(selects(kept[i]));
    }
    if is_searched_for(query, row.resource, symbol) {
        let k = choose|k: int| 0 <= k < row.symbols@.len() && row.symbols@[k] == symbol;
        assert(selects(row.symbols@[k]));
        let i = choose|i: int| 0 <= i < kept.len() && kept[i] == symbol;
        assert(hits[i] == make(kept[i]));
    }
}

proof fn lemma_hits_of_rows(
    query: SymbolQuery<'_>,
    rows: Seq<IndexedResource>,
    row: IndexedResource,
    symbol: Symbol,
)
    requires
        rows.contains(row),
        row.symbols@.contains(symbol),
    ensures
        symbol_hits(query, rows).contains(SymbolHit { row, symbol }) <==> is_searched_for(
            query,
            row.resource,
            symbol,
        ),
    decreases rows.len(),
{
    let hit = SymbolHit { row, symbol };
    let k = choose|k: int| 0 <= k < rows.len() && rows[k] == row;
    let rest = rows.drop_last();
    let before = symbol_hits(query, rest);
    let more = row_hits(query, rows.last());
    let all = symbol_hits(query, rows);
    assert(all == before + more);
    if all.contains(hit) {
        let i = choose|i: int| 0 <= i < all.len() && all[i] == hit;
        if i < before.len() {
            assert(before[i] == hit);
            assert(before.contains(hit));
            lemma_hits_come_from_rows(query, rest, i);
            lemma_hits_of_rows(query, rest, row, symbol);
        } else {
            assert(more[i - before.len()] == hit);
            lemma_row_of_hit(query, rows.last(), i - before.len());
            lemma_hit_or_not(query, row, symbol);
        }
    }
    if is_searched_for(query, row.resource, symbol) {
        if k == rows.len() - 1 {
            lemma_hit_or_not(query, row, symbol);
            let i = choose|i: int| 0 <= i < more.len() && more[i] == hit;
            assert(all[before.len() + i] == hit);
        } else {
            assert(rest[k] == row);
            lemma_hits_of_rows(query, rest, row, symbol);
            let i = choose|i: int| 0 <= i < before.len() && before[i] == hit;
            assert(all[i] == hit);
        }
    }
}

proof fn lemma_row_of_hit(query: SymbolQuery<'_>, row: IndexedResource, i: int)
    requires
        0 <= i < row_hits(query, row).len(),
    ensures
        row_hits(query, row)[i].row == row,
        row.symbols@.contains(row_hits(query, row)[i].symbol),
{
    let selects = |symbol: Symbol| symbol_selected(query, symbol);
    lemma_kept(row.symbols@, selects);
    assert(row_hits(query, row)[i].symbol == row.symbols@.filter(selects)[i]);
}

proof fn lemma_hits_come_from_rows(query: SymbolQuery<'_>, rows: Seq<IndexedResource>, i: int)
    requires
        0 <= i < symbol_hits(query, rows).len(),
    ensures
        rows.contains(symbol_hits(query, rows)[i].row),
        symbol_hits(query, rows)[i].row.symbols@.contains(symbol_hits(query, rows)[i].symbol),
    decreases rows.len(),
{
    let rest = rows.drop_last();
    let before = symbol_hits(query, rest);
    if i < before.len() {
        lemma_hits_come_from_rows(query, rest, i);
        let k = choose|k: int| 0 <= k < rest.len() && rest[k] == before[i].row;
        assert(rows[k] == before[i].row);
    } else {
        lemma_row_of_hit(query, rows.last(), i - before.len());
        assert(rows[rows.len() - 1] == rows.last());
    }
}

/// A search answers with what it was asked for: every candidate is a Symbol
/// that the query asks for, declared in an ACTIVE Resource at its current
/// revision, under that Resource's path; what describes an older revision
/// comes apart from these; and a search that was not cut short has them all.
pub proof fn law_a_search_finds_what_was_asked_for(
    query: SymbolQuery<'_>,
    rows: Seq<IndexedResource>,
    limit: nat,
)
    ensures
        ({
            let found = collected(symbol_hits(query, rows), limit);
            let candidates = candidates_of(found.candidates);
            let last_valid = candidates_of(found.last_valid);
            &&& candidates.len() <= limit
            &&& found.truncated ==> candidates.len() == limit
            &&& forall|i: int|
                0 <= i < candidates.len() ==> is_candidate(
                    query,
                    rows,
                    #[trigger] candidates[i],
                    true,
                )
            &&& forall|i: int|
                0 <= i < last_valid.len() ==> is_candidate(
                    query,
                    rows,
                    #[trigger] last_valid[i],
                    false,
                )
            &&& !found.truncated ==> forall|k: int, s: int|
                0 <= k < rows.len() && 0 <= s < rows[k].symbols@.len() && is_searched_for(
                    query,
                    rows[k].resource,
                    #[trigger] rows[k].symbols@[s],
                ) ==> if rows[k].symbols@[s].resource_revision@
                    == rows[k].resource.resource_revision@ {
                    holds_symbol(candidates, rows[k], rows[k].symbols@[s])
                } else {
                    holds_symbol(last_valid, rows[k], rows[k].symbols@[s])
                }
        }),
{
    let hits = symbol_hits(query, rows);
    let found = collected(hits, limit);
    let candidates = candidates_of(found.candidates);
    let last_valid = candidates_of(found.last_valid);
    lemma_search_is_honest(hits, limit);
    assert forall|i: int| 0 <= i < candidates.len() implies is_candidate(
        query,
        rows,
        #[trigger] candidates[i],
        true,
    ) by {
        let hit = found.candidates[i];
        assert(hit.is_current() && hits.contains(hit));
        let n = choose|n: int| 0 <= n < hits.len() && hits[n] == hit;
        lemma_hits_come_from_rows(query, rows, n);
        lemma_hits_of_rows(query, rows, hit.row, hit.symbol);
        let k = choose|k: int| 0 <= k < rows.len() && rows[k] == hit.row;
        assert(candidates[i] == hit.candidate());
        assert(rows[k].symbols@.contains(candidates[i].symbol));
    }
    assert forall|i: int| 0 <= i < last_valid.len() implies is_candidate(
        query,
        rows,
        #[trigger] last_valid[i],
        false,
    ) by {
        let hit = found.last_valid[i];
        assert(!hit.is_current() && hits.contains(hit));
        let n = choose|n: int| 0 <= n < hits.len() && hits[n] == hit;
        lemma_hits_come_from_rows(query, rows, n);
        lemma_hits_of_rows(query, rows, hit.row, hit.symbol);
        let k = choose|k: int| 0 <= k < rows.len() && rows[k] == hit.row;
        assert(last_valid[i] == hit.candidate());
        assert(rows[k].symbols@.contains(last_valid[i].symbol));
    }
    if !found.truncated {
        let current = |hit: SymbolHit| hit.is_current();
        let stale = |hit: SymbolHit| !hit.is_current();
        lemma_kept(hits, current);
        lemma_kept(hits, stale);
        assert forall|k: int, s: int|
            0 <= k < rows.len() && 0 <= s < rows[k].symbols@.len() && is_searched_for(
                query,
                rows[k].resource,
                #[trigger] rows[k].symbols@[s],
            ) implies if rows[k].symbols@[s].resource_revision@
            == rows[k].resource.resource_revision@ {
            holds_symbol(candidates, rows[k], rows[k].symbols@[s])
        } else {
            holds_symbol(last_valid, rows[k], rows[k].symbols@[s])
        } by {
            let hit = SymbolHit { row: rows[k], symbol: rows[k].symbols@[s] };
            assert(rows.contains(rows[k]));
            assert(rows[k].symbols@.contains(hit.symbol));
            lemma_hits_of_rows(query, rows, rows[k], hit.symbol);
            let n = choose|n: int| 0 <= n < hits.len() && hits[n] == hit;
            if hit.is_current() {
                assert(current(hits[n]));
                let i = choose|i: int| 0 <= i < found.candidates.len() && found.candidates[i] == hit;
                assert(candidates[i] == hit.candidate());
            } else {
                assert(stale(hits[n]));
                let i = choose|i: int| 0 <= i < found.last_valid.len() && found.last_valid[i] == hit;
                assert(last_valid[i] == hit.candidate());
            }
        }
    }
}

/// A candidate is a Symbol that the query asks for, with its Resource's path,
/// and of its current revision or not.
pub open spec fn is_candidate(
    query: SymbolQuery<'_>,
    rows: Seq<IndexedResource>,
    candidate: SymbolCandidate,
    current: bool,
) -> bool {
    exists|k: int|
        {
            &&& 0 <= k < rows.len()
            &&& (#[trigger] rows[k]).symbols@.contains(candidate.symbol)
            &&& is_searched_for(query, rows[k].resource, candidate.symbol)
            &&& candidate.path_rel == rows[k].resource.path_rel
            &&& (candidate.symbol.resource_revision@ == rows[k].resource.resource_revision@)
                == current
            &&& candidate.coverage == StructuralCoverage::Partial <==> rows[k].structural == Some(
                StructuralState::Partial,
            )
        }
}

/// The Symbol is among the candidates, under its Resource's path.
pub open spec fn holds_symbol(
    candidates: Seq<SymbolCandidate>,
    row: IndexedResource,
    symbol: Symbol,
) -> bool {
    exists|i: int|
        0 <= i < candidates.len() && (#[trigger] candidates[i]).symbol == symbol
            && candidates[i].path_rel == row.resource.path_rel
}

/// A fragment is found wherever it stands in a name, with ASCII letters in
/// either case, and nowhere else.
pub proof fn law_a_fragment_is_found_where_it_stands(
    before: Chars,
    fragment: Chars,
    after: Chars,
    text: Chars,
)
    ensures
        crate::query_text::ascii_contains(before + fragment + after, fragment),
        crate::query_text::ascii_contains(text, fragment) <==> exists|at: int|
            0 <= at && at + fragment.len() <= text.len() && #[trigger] folded(
                text.subrange(at, at + fragment.len()),
            ) == folded(fragment),
{
    assert(occurs_at(before + fragment + after, fragment, before.len() as int));
    if crate::query_text::ascii_contains(text, fragment) {
        let at = choose|at: int| #[trigger] occurs_at(text, fragment, at);
        assert forall|i: int| 0 <= i < fragment.len() implies folded(
            text.subrange(at, at + fragment.len()),
        )[i] == folded(fragment)[i] by {
            assert(crate::text::ascii_lower(fragment[i]) == crate::text::ascii_lower(text[at + i]));
        }
        assert(folded(text.subrange(at, at + fragment.len())) =~= folded(fragment));
    }
    assert forall|at: int|
        0 <= at && at + fragment.len() <= text.len() && #[trigger] folded(
            text.subrange(at, at + fragment.len()),
        ) == folded(fragment) implies crate::query_text::ascii_contains(text, fragment) by {
        let part = text.subrange(at, at + fragment.len());
        assert forall|i: int| 0 <= i < fragment.len() implies crate::text::ascii_lower(
            #[trigger] fragment[i],
        ) == crate::text::ascii_lower(text[at + i]) by {
            assert(folded(part)[i] == folded(fragment)[i]);
            assert(part[i] == text[at + i]);
        }
        assert(occurs_at(text, fragment, at));
    }
}

/// An upper-case ASCII letter folds to the lower-case one thirty-two places
/// on, and nothing else folds at all.
pub proof fn law_folding_lowers_ascii_letters(character: char)
    ensures
        'A' <= character <= 'Z' ==> crate::text::ascii_lower(character) as u32 == character as u32
            + 32,
        !('A' <= character <= 'Z') ==> crate::text::ascii_lower(character) == character,
        crate::text::ascii_lower(crate::text::ascii_lower(character)) == crate::text::ascii_lower(
            character,
        ),
{
}

// ---------------------------------------------------------------------
// Orders
// ---------------------------------------------------------------------

/// The declaration around a place that is closest to it: a shorter one is
/// closer than a longer one, of two as long the later one is, and of two at
/// the same place the lower identity; no two are each closer than the other.
pub proof fn law_the_innermost_declaration_is_closest(a: Symbol, b: Symbol)
    requires
        a.span.start_byte <= a.span.end_byte,
        b.span.start_byte <= b.span.end_byte,
    ensures
        b.span.start_byte <= a.span.start_byte && a.span.end_byte <= b.span.end_byte && (
        b.span.start_byte != a.span.start_byte || a.span.end_byte != b.span.end_byte) ==> closer(
            a,
            b,
        ) && !closer(b, a),
        a.span.end_byte - a.span.start_byte == b.span.end_byte - b.span.start_byte
            && a.span.start_byte > b.span.start_byte ==> closer(a, b),
        a.span == b.span && a.id.value < b.id.value ==> closer(a, b),
        closer(a, b) ==> !closer(b, a),
        a.span.end_byte - a.span.start_byte < b.span.end_byte - b.span.start_byte ==> closer(a, b),
{
}

/// The declarations of a file are reported from its start to its end, an
/// outer one before what it holds, and those at one place by name and then by
/// identity.
pub proof fn law_declarations_come_in_source_order(a: Symbol, b: Symbol)
    ensures
        a.span.start_byte < b.span.start_byte ==> symbol_before(a, b) && !symbol_before(b, a),
        a.span.start_byte == b.span.start_byte && a.span.end_byte > b.span.end_byte
            ==> symbol_before(a, b) && !symbol_before(b, a),
        a.span == b.span && a.name@ == b.name@ && a.id.value < b.id.value ==> symbol_before(a, b)
            && !symbol_before(b, a),
        a.span == b.span && a.name@ != b.name@ && text_le(a.name@, b.name@) ==> symbol_before(a, b)
            && !symbol_before(b, a),
{
    lemma_text_order_is_total(a.name@, b.name@, a.name@);
}

/// A declaration encloses the bytes from its start up to its end, the end
/// not among them, and only while it is of the row's own revision.
pub proof fn law_a_declaration_encloses_its_own_bytes(
    row: IndexedResource,
    symbol: Symbol,
    byte_offset: usize,
)
    ensures
        crate::query::encloses(row, symbol, byte_offset) <==> symbol.resource_revision@
            == row.resource.resource_revision@ && symbol.span.start_byte <= byte_offset
            && byte_offset < symbol.span.end_byte,
        symbol.resource_revision@ == row.resource.resource_revision@ && symbol.span.start_byte
            < symbol.span.end_byte ==> crate::query::encloses(
            row,
            symbol,
            symbol.span.start_byte,
        ) && !crate::query::encloses(row, symbol, symbol.span.end_byte),
{
}

} // verus!
