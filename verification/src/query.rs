//! Structured listing, locating and searching over the current index.
//!
//! Everything here answers from index rows alone; nothing walks the
//! filesystem, opens a source file or parses anything.
//!
//! ## What a result may claim
//!
//! A candidate is only ever built from rows that are current: the Resource
//! is ACTIVE (a tombstone is never a result), and the Symbol's revision is
//! the Resource's own. A Symbol of an older revision is kept apart, as the
//! last valid structure of a file that no longer parses. What the caller is
//! told besides is [`Currentness`]: when the index is dirty the candidates
//! are still handed over, because withholding them would be a false zero,
//! and are marked not current.
//!
//! ## What a result must not claim
//!
//! [`StructuralCoverage`] keeps an empty result honest: any Resource in a
//! query's scope that the structural index does not fully cover is reported
//! beside the candidates. Ambiguity is never resolved by picking one.

use vstd::prelude::*;

use crate::component::FreshnessState;
use crate::model::{
    Resource, ResourceId, ResourceKind, ResourceLanguage, ResourceRole, ResourceState, Symbol,
    SymbolId, SymbolKind,
};
use crate::query_text::{
    ascii_contains, basename, basename_of, contains_ascii_folded, direct_child, directory_prefix,
    directory_prefix_of, is_direct_child,
};
use crate::text::{
    decimal, is_before, joined, same_text, text_before, text_le, text_starts_with, wide_text,
    Chars,
};

verus! {

/// How many candidates a search returns before it stops collecting. A query
/// is never unbounded, and reaching the bound is reported
/// ([`Located::truncated`]).
pub const DEFAULT_CANDIDATE_LIMIT: usize = 200;

/// Whether what the index says can be claimed to describe the Workspace as
/// it is right now.
#[derive(Debug, Clone, Copy, PartialEq, Eq, Structural)]
pub enum Currentness {
    Current,
    /// The rows are the last published ones, but something is known to have
    /// moved since.
    NotCurrent(NotCurrentReason),
}

impl Currentness {
    pub fn is_current(self) -> (current: bool)
        ensures
            current == (self == Currentness::Current),
    {
        match self {
            Currentness::Current => true,
            Currentness::NotCurrent(_) => false,
        }
    }
}

/// Why a result cannot be claimed current.
#[derive(Debug, Clone, Copy, PartialEq, Eq, Structural)]
pub enum NotCurrentReason {
    /// A change was seen and the inventory has not been recovered yet.
    ResourceIndexDirty,
    /// No generation has ever published the Resource inventory.
    ResourceIndexNeverPublished,
}

/// Where a result came from.
#[derive(Debug, Clone, Copy, PartialEq, Eq, Structural)]
pub enum ResultSource {
    StructuralIndex,
}

/// How much of a Resource the structural index actually covers.
#[derive(Debug, Clone, Copy, PartialEq, Eq, Structural)]
pub enum StructuralCoverage {
    /// The Symbol set of the Resource is the file's declarations.
    Complete,
    /// The current bytes do not parse cleanly, so what is stored is the last
    /// valid structure.
    Partial,
    /// Only the container's own structure is indexed.
    ContainerOnly,
    /// No structural parser covers this Resource at all.
    Unsupported,
    /// A generated artifact with no mapping back to its original.
    GeneratedUnmapped,
}

impl StructuralCoverage {
    pub fn is_complete(self) -> (complete: bool)
        ensures
            complete == (self == StructuralCoverage::Complete),
    {
        match self {
            StructuralCoverage::Complete => true,
            _ => false,
        }
    }
}

/// What the structural index recorded about a Resource.
#[derive(Debug, Clone, Copy, PartialEq, Eq, Structural)]
pub enum StructuralState {
    Complete,
    Partial,
    ContainerOnly,
    Unsupported,
    Unavailable,
    GeneratedUnmapped,
}

/// What a structural dialect can analyze of a file.
#[derive(Debug, Clone, Copy, PartialEq, Eq, Structural)]
pub enum StructuralCapability {
    WholeFile,
    Container,
}

/// A Resource in a query's scope whose structural coverage is incomplete.
#[derive(Debug, Clone, PartialEq, Eq)]
pub struct CoverageNote {
    pub resource_id: ResourceId,
    pub path_rel: String,
    pub coverage: StructuralCoverage,
}

/// What was located, with everything needed to decide how much to trust it.
#[derive(Debug, Clone, PartialEq, Eq)]
pub struct Located<T> {
    /// Every current match, in order. Never narrowed to one by guessing.
    pub candidates: Vec<T>,
    /// Matches that describe an older revision of their Resource, kept in
    /// their own list so that a stale span is not taken for a current one.
    pub last_valid: Vec<T>,
    /// Whether the selector identified a thing exactly rather than searching
    /// for one.
    pub exact_selector: bool,
    /// Whether the limit cut the list short.
    pub truncated: bool,
    pub currentness: Currentness,
    pub source: ResultSource,
    pub incomplete_coverage: Vec<CoverageNote>,
}

impl<T> Located<T> {
    /// The single unambiguous answer: an exact selector that matched exactly
    /// once.
    pub fn exact(&self) -> (found: Option<&T>)
        ensures
            found is Some <==> self.exact_selector && self.candidates@.len() == 1,
            found matches Some(held) ==> *held == self.candidates@[0],
    {
        if self.exact_selector && self.candidates.len() == 1 {
            Some(&self.candidates[0])
        } else {
            None
        }
    }

    pub fn is_ambiguous(&self) -> (ambiguous: bool)
        ensures
            ambiguous == (self.candidates@.len() > 1),
    {
        self.candidates.len() > 1
    }
}

/// The current Resource inventory that a listing asked for.
#[derive(Debug, Clone, PartialEq, Eq)]
pub struct FileListing {
    /// ACTIVE Resources only, in the order of their keys.
    pub entries: Vec<Resource>,
    pub truncated: bool,
    pub currentness: Currentness,
    pub source: ResultSource,
}

/// Which part of the inventory to list, and what to keep. Every field
/// narrows it.
#[derive(Debug, Clone, Copy)]
pub struct FileQuery<'a> {
    /// The directory to list, relative to the Workspace root. `Some("")` is
    /// the root itself; `None` is the whole Workspace.
    pub directory: Option<&'a str>,
    /// With a `directory`: whether to descend into its subdirectories.
    pub recursive: bool,
    /// Keep only paths that start with this prefix.
    pub path_prefix: Option<&'a str>,
    pub role: Option<ResourceRole>,
    pub language: Option<ResourceLanguage>,
    pub kind: Option<ResourceKind>,
    /// `None` uses [`DEFAULT_CANDIDATE_LIMIT`].
    pub limit: Option<usize>,
}

/// What a listing asks, apart from how it is held.
pub ghost struct FileQueryView {
    pub directory: Option<Chars>,
    pub recursive: bool,
    pub path_prefix: Option<Chars>,
    pub role: Option<ResourceRole>,
    pub language: Option<ResourceLanguage>,
    pub kind: Option<ResourceKind>,
    pub limit: Option<usize>,
}

pub open spec fn optional_str(text: Option<&str>) -> Option<Chars> {
    match text {
        Some(held) => Some(held@),
        None => None,
    }
}

impl<'a> View for FileQuery<'a> {
    type V = FileQueryView;

    open spec fn view(&self) -> FileQueryView {
        FileQueryView {
            directory: optional_str(self.directory),
            recursive: self.recursive,
            path_prefix: optional_str(self.path_prefix),
            role: self.role,
            language: self.language,
            kind: self.kind,
            limit: self.limit,
        }
    }
}

impl<'a> Default for FileQuery<'a> {
    /// The listing of the whole Workspace.
    fn default() -> (query: Self)
        ensures
            query@ == (FileQueryView {
                directory: None,
                recursive: false,
                path_prefix: None,
                role: None,
                language: None,
                kind: None,
                limit: None,
            }),
    {
        FileQuery {
            directory: None,
            recursive: false,
            path_prefix: None,
            role: None,
            language: None,
            kind: None,
            limit: None,
        }
    }
}

/// How a Resource is named in a locate request.
#[derive(Debug, Clone, Copy)]
pub enum ResourceLocator<'a> {
    /// The stable id: exact by construction.
    Id(ResourceId),
    /// The full Workspace-relative path.
    Path(&'a str),
    /// The final path segment. Several Resources may share one.
    Basename(&'a str),
    /// Every Resource under a path prefix.
    PathPrefix(&'a str),
}

/// How a Symbol is named in a search.
#[derive(Debug, Clone, Copy)]
pub enum SymbolSelector<'a> {
    Id(SymbolId),
    /// The full lexical name within its Resource.
    QualifiedName(&'a str),
    /// The declared name. Not unique.
    Name(&'a str),
    /// A substring of the declared name, ASCII letters taken without case. A
    /// search, not an identity.
    PartialName(&'a str),
}

impl<'a> SymbolSelector<'a> {
    pub open spec fn identifies(self) -> bool {
        !(self is PartialName)
    }

    pub fn is_exact(self) -> (exact: bool)
        ensures
            exact == self.identifies(),
    {
        match self {
            SymbolSelector::PartialName(_) => false,
            _ => true,
        }
    }
}

/// Which Resources a Symbol search may look in.
#[derive(Debug, Clone, Copy)]
pub enum ResourceScope<'a> {
    Id(ResourceId),
    PathPrefix(&'a str),
}

/// A structured Symbol search.
#[derive(Debug, Clone, Copy)]
pub struct SymbolQuery<'a> {
    pub selector: SymbolSelector<'a>,
    pub scope: Option<ResourceScope<'a>>,
    pub kind: Option<SymbolKind>,
    pub language: Option<ResourceLanguage>,
    /// `None` uses [`DEFAULT_CANDIDATE_LIMIT`].
    pub limit: Option<usize>,
}

impl<'a> SymbolQuery<'a> {
    /// A query with no narrowing beyond the selector itself.
    pub fn new(selector: SymbolSelector<'a>) -> (query: Self)
        ensures
            query == (SymbolQuery { selector, scope: None, kind: None, language: None, limit: None }),
    {
        SymbolQuery { selector, scope: None, kind: None, language: None, limit: None }
    }
}

/// One Symbol candidate: its identity, where it is declared, and how much of
/// its Resource the index covers. Never a source body.
#[derive(Debug, Clone, PartialEq, Eq)]
pub struct SymbolCandidate {
    pub symbol: Symbol,
    pub path_rel: String,
    pub coverage: StructuralCoverage,
}

/// What declaration a byte position sits inside.
#[derive(Debug, Clone, PartialEq, Eq)]
pub struct PositionResult {
    /// The smallest current Symbol whose declaration span contains the
    /// position, or `None` when no declaration does, which is an answer
    /// rather than a miss.
    pub containing: Option<SymbolCandidate>,
    pub coverage: StructuralCoverage,
    pub currentness: Currentness,
    pub source: ResultSource,
}

/// Failure answering a structured query.
#[derive(Debug, Clone, Copy, PartialEq, Eq, Structural)]
pub enum QueryError {
    /// The query named a Resource that the index does not have.
    UnknownResource { resource_id: ResourceId },
}

impl QueryError {
    pub fn message(&self) -> (text: String)
        ensures
            match *self {
                QueryError::UnknownResource { resource_id } => text@ == "no resource row for "@
                    + decimal(resource_id.value as int),
            },
    {
        match self {
            QueryError::UnknownResource { resource_id } => joined(
                "no resource row for ",
                wide_text(resource_id.value).as_str(),
            ),
        }
    }
}

// ---------------------------------------------------------------------
// Index rows
// ---------------------------------------------------------------------

/// A Resource with what the index holds about it.
#[derive(Debug, PartialEq, Eq)]
pub struct IndexedResource {
    pub resource: Resource,
    /// What the dialect of its path can analyze; none where no dialect
    /// covers the path.
    pub capability: Option<StructuralCapability>,
    /// What the structural index recorded about it, if anything.
    pub structural: Option<StructuralState>,
    /// Its declarations, by where they start, the longer first.
    pub symbols: Vec<Symbol>,
}

/// The order that Symbols of one Resource are reported in: by start, the
/// longer declaration first, then by name and identity.
pub open spec fn symbol_before(a: Symbol, b: Symbol) -> bool {
    ||| a.span.start_byte < b.span.start_byte
    ||| a.span.start_byte == b.span.start_byte && {
        ||| a.span.end_byte > b.span.end_byte
        ||| a.span.end_byte == b.span.end_byte && {
            ||| text_before(a.name@, b.name@)
            ||| a.name@ == b.name@ && a.id.value < b.id.value
        }
    }
}

/// No Symbol comes before its predecessors.
pub open spec fn in_symbol_order(symbols: Seq<Symbol>) -> bool {
    forall|i: int, j: int| 0 <= i < j < symbols.len() ==> !symbol_before(symbols[j], symbols[i])
}

/// No row's key comes before its predecessors'.
pub open spec fn in_path_order(rows: Seq<IndexedResource>) -> bool {
    forall|i: int, j: int|
        0 <= i < j < rows.len() ==> text_le(
            (#[trigger] rows[i]).resource.path_key@,
            (#[trigger] rows[j]).resource.path_key@,
        )
}

/// The rows are in the order of their keys, and each holds its declarations
/// in order.
pub open spec fn rows_in_order(rows: Seq<IndexedResource>) -> bool {
    &&& in_path_order(rows)
    &&& forall|i: int| 0 <= i < rows.len() ==> in_symbol_order((#[trigger] rows[i]).symbols@)
}

fn symbol_comes_before(a: &Symbol, b: &Symbol) -> (before: bool)
    ensures
        before == symbol_before(*a, *b),
{
    if a.span.start_byte != b.span.start_byte {
        return a.span.start_byte < b.span.start_byte;
    }
    if a.span.end_byte != b.span.end_byte {
        return a.span.end_byte > b.span.end_byte;
    }
    if is_before(a.name.as_str(), b.name.as_str()) {
        return true;
    }
    same_text(a.name.as_str(), b.name.as_str()) && a.id.value < b.id.value
}

proof fn lemma_symbol_order(a: Symbol, b: Symbol, c: Symbol)
    ensures
        symbol_before(a, b) ==> !symbol_before(b, a),
        !symbol_before(b, a) && !symbol_before(c, b) ==> !symbol_before(c, a),
{
    crate::text::lemma_text_order_is_total(a.name@, b.name@, c.name@);
    crate::text::lemma_text_order_is_total(c.name@, a.name@, b.name@);
    crate::text::lemma_text_order_is_total(b.name@, c.name@, a.name@);
    crate::text::lemma_text_order_is_total(c.name@, b.name@, a.name@);
    crate::text::lemma_text_order_is_total(a.name@, c.name@, b.name@);
    crate::text::lemma_text_order_is_total(b.name@, a.name@, c.name@);
}

/// The Symbols in the order they are reported in.
fn sorted_symbols(symbols: Vec<Symbol>) -> (sorted: Vec<Symbol>)
    ensures
        in_symbol_order(sorted@),
        sorted@.to_multiset() == symbols@.to_multiset(),
{
    let mut rest = symbols;
    let mut sorted: Vec<Symbol> = Vec::new();
    let ghost all = symbols@;
    assert(rest@ + sorted@ =~= all);
    loop
        invariant
            in_symbol_order(sorted@),
            (rest@ + sorted@).to_multiset() == all.to_multiset(),
        ensures
            in_symbol_order(sorted@),
            sorted@.to_multiset() == all.to_multiset(),
        decreases rest@.len(),
    {
        let ghost before_rest = rest@;
        let ghost held = sorted@;
        let symbol = match rest.pop() {
            Some(symbol) => symbol,
            None => {
                assert(rest@ + sorted@ =~= sorted@);
                break;
            },
        };
        let ghost moved = symbol;
        let mut place: usize = 0;
        while place < sorted.len() && symbol_comes_before(&sorted[place], &symbol)
            invariant
                place <= sorted@.len(),
                sorted@ == held,
                forall|i: int| 0 <= i < place ==> symbol_before(#[trigger] held[i], symbol),
            decreases sorted@.len() - place,
        {
            place = place + 1;
        }
        sorted.insert(place, symbol);
        proof {
            let now = sorted@;
            assert(now =~= held.insert(place as int, moved));
            assert forall|i: int, j: int| 0 <= i < j < now.len() implies !symbol_before(
                now[j],
                now[i],
            ) by {
                if i < place && j == place {
                    assert(now[i] == held[i]);
                    lemma_symbol_order(held[i], moved, moved);
                } else if i == place {
                    assert(now[j] == held[j - 1]);
                    lemma_symbol_order(moved, held[place as int], held[j - 1]);
                } else if i < place && j > place {
                    assert(!symbol_before(held[j - 1], held[i]));
                } else if i > place {
                    assert(!symbol_before(held[j - 1], held[i - 1]));
                } else {
                    assert(!symbol_before(held[j], held[i]));
                }
            }
            vstd::seq_lib::to_multiset_insert(held, place as int, moved);
            assert(before_rest =~= rest@.push(moved));
            vstd::seq_lib::lemma_multiset_commutative(rest@, now);
            vstd::seq_lib::lemma_multiset_commutative(before_rest, held);
            vstd::seq_lib::to_multiset_build(rest@, moved);
            assert((rest@ + now).to_multiset() =~= (before_rest + held).to_multiset());
        }
    }
    sorted
}

impl IndexedResource {
    /// A Resource with its declarations put in order.
    pub fn new(
        resource: Resource,
        capability: Option<StructuralCapability>,
        structural: Option<StructuralState>,
        symbols: Vec<Symbol>,
    ) -> (row: Self)
        ensures
            row.resource == resource,
            row.capability == capability,
            row.structural == structural,
            in_symbol_order(row.symbols@),
            row.symbols@.to_multiset() == symbols@.to_multiset(),
    {
        IndexedResource { resource, capability, structural, symbols: sorted_symbols(symbols) }
    }
}

/// The same row, with its declarations in order.
pub open spec fn put_in_order(row: IndexedResource, ordered: IndexedResource) -> bool {
    &&& ordered.resource == row.resource
    &&& ordered.capability == row.capability
    &&& ordered.structural == row.structural
    &&& in_symbol_order(ordered.symbols@)
    &&& ordered.symbols@.to_multiset() == row.symbols@.to_multiset()
}

/// The same rows, each with its declarations in order.
pub open spec fn all_put_in_order(
    rows: Seq<IndexedResource>,
    ordered: Seq<IndexedResource>,
) -> bool {
    &&& ordered.len() == rows.len()
    &&& forall|i: int| 0 <= i < rows.len() ==> put_in_order(rows[i], #[trigger] ordered[i])
}

/// The rows, each with its declarations put in order.
fn ordered_rows(rows: Vec<IndexedResource>) -> (ordered: Vec<IndexedResource>)
    ensures
        all_put_in_order(rows@, ordered@),
{
    let ghost all = rows@;
    let mut rest = rows;
    let mut ordered: Vec<IndexedResource> = Vec::new();
    while rest.len() > 0
        invariant
            rest@.len() + ordered@.len() == all.len(),
            rest@ == all.skip(ordered@.len() as int),
            forall|i: int|
                0 <= i < ordered@.len() ==> put_in_order(all[i], #[trigger] ordered@[i]),
        decreases rest@.len(),
    {
        let row = rest.remove(0);
        assert(row == all[ordered@.len() as int]);
        ordered.push(
            IndexedResource::new(row.resource, row.capability, row.structural, row.symbols),
        );
        assert(rest@ =~= all.skip(ordered@.len() as int));
    }
    ordered
}

fn row_comes_before(a: &IndexedResource, b: &IndexedResource) -> (before: bool)
    ensures
        before == text_before(a.resource.path_key@, b.resource.path_key@),
{
    is_before(a.resource.path_key.as_str(), b.resource.path_key.as_str())
}

/// The rows in the order of their keys.
fn sorted_rows(rows: Vec<IndexedResource>) -> (sorted: Vec<IndexedResource>)
    ensures
        in_path_order(sorted@),
        sorted@.to_multiset() == rows@.to_multiset(),
{
    let mut rest = rows;
    let mut sorted: Vec<IndexedResource> = Vec::new();
    let ghost all = rows@;
    assert(rest@ + sorted@ =~= all);
    loop
        invariant
            in_path_order(sorted@),
            (rest@ + sorted@).to_multiset() == all.to_multiset(),
        ensures
            in_path_order(sorted@),
            sorted@.to_multiset() == all.to_multiset(),
        decreases rest@.len(),
    {
        let ghost before_rest = rest@;
        let ghost held = sorted@;
        let row = match rest.pop() {
            Some(row) => row,
            None => {
                assert(rest@ + sorted@ =~= sorted@);
                break;
            },
        };
        let ghost moved = row;
        let ghost key = row.resource.path_key@;
        let mut place: usize = 0;
        while place < sorted.len() && row_comes_before(&sorted[place], &row)
            invariant
                place <= sorted@.len(),
                sorted@ == held,
                forall|i: int|
                    0 <= i < place ==> text_before(
                        (#[trigger] held[i]).resource.path_key@,
                        row.resource.path_key@,
                    ),
            decreases sorted@.len() - place,
        {
            place = place + 1;
        }
        sorted.insert(place, row);
        proof {
            let now = sorted@;
            assert(now =~= held.insert(place as int, moved));
            assert forall|i: int, j: int| 0 <= i < j < now.len() implies text_le(
                (#[trigger] now[i]).resource.path_key@,
                (#[trigger] now[j]).resource.path_key@,
            ) by {
                if i == place {
                    assert(now[j] == held[j - 1]);
                    let first = held[place as int].resource.path_key@;
                    let later = held[j - 1].resource.path_key@;
                    crate::text::lemma_text_order_is_total(key, first, later);
                    if j - 1 > place {
                        assert(text_le(first, later));
                    }
                } else if i < place && j == place {
                    assert(now[i] == held[i]);
                } else if i < place && j > place {
                    assert(now[i] == held[i] && now[j] == held[j - 1]);
                } else if i > place {
                    assert(now[i] == held[i - 1] && now[j] == held[j - 1]);
                } else {
                    assert(now[i] == held[i] && now[j] == held[j]);
                }
            }
            vstd::seq_lib::to_multiset_insert(held, place as int, moved);
            assert(before_rest =~= rest@.push(moved));
            vstd::seq_lib::lemma_multiset_commutative(rest@, now);
            vstd::seq_lib::lemma_multiset_commutative(before_rest, held);
            vstd::seq_lib::to_multiset_build(rest@, moved);
            assert((rest@ + now).to_multiset() =~= (before_rest + held).to_multiset());
        }
    }
    sorted
}

// ---------------------------------------------------------------------
// What the queries select
// ---------------------------------------------------------------------

pub open spec fn is_active(row: IndexedResource) -> bool {
    row.resource.state == ResourceState::Active
}

/// The limit that a query works under.
pub open spec fn limit_of(limit: Option<usize>) -> nat {
    match limit {
        Some(held) => held as nat,
        None => DEFAULT_CANDIDATE_LIMIT as nat,
    }
}

/// Whether a listing keeps a row.
pub open spec fn file_selected(query: FileQueryView, row: IndexedResource) -> bool {
    &&& is_active(row)
    &&& query.directory matches Some(directory) ==> {
        let prefix = directory_prefix_of(directory);
        &&& prefix.is_prefix_of(row.resource.path_key@)
        &&& query.recursive || direct_child(row.resource.path_key@, prefix)
    }
    &&& query.path_prefix matches Some(prefix) ==> prefix.is_prefix_of(row.resource.path_rel@)
    &&& query.role matches Some(role) ==> row.resource.role == role
    &&& query.language matches Some(language) ==> row.resource.language == Some(language)
    &&& query.kind matches Some(kind) ==> row.resource.kind == kind
}

/// The listing holds the first rows that the query keeps, up to its limit,
/// and says whether there were more.
pub open spec fn is_listing(
    rows: Seq<IndexedResource>,
    freshness: Option<FreshnessState>,
    query: FileQueryView,
    listing: FileListing,
) -> bool {
    let kept = rows.filter(|row: IndexedResource| file_selected(query, row));
    let limit = limit_of(query.limit);
    &&& listing.truncated == (kept.len() > limit)
    &&& listing.entries@ == kept.take(
        if kept.len() > limit {
            limit as int
        } else {
            kept.len() as int
        },
    ).map_values(|row: IndexedResource| row.resource)
    &&& listing.currentness == claimed_currentness(freshness)
    &&& listing.source == ResultSource::StructuralIndex
}

/// Whether a locator names a row.
pub open spec fn resource_named(locator: ResourceLocator<'_>, row: IndexedResource) -> bool {
    &&& is_active(row)
    &&& match locator {
        ResourceLocator::Id(id) => row.resource.id == id,
        ResourceLocator::Path(path) => row.resource.path_key@ == path@,
        ResourceLocator::Basename(name) => basename(row.resource.path_key@) == name@,
        ResourceLocator::PathPrefix(prefix) => prefix@.is_prefix_of(row.resource.path_key@),
    }
}

/// Whether a row is in a scope; every row is in the absent one.
pub open spec fn in_scope(scope: Option<ResourceScope<'_>>, row: IndexedResource) -> bool {
    match scope {
        None => true,
        Some(ResourceScope::Id(id)) => row.resource.id == id,
        Some(ResourceScope::PathPrefix(prefix)) => prefix@.is_prefix_of(row.resource.path_key@),
    }
}

/// Whether a selector names a Symbol.
pub open spec fn symbol_named(selector: SymbolSelector<'_>, symbol: Symbol) -> bool {
    match selector {
        SymbolSelector::Id(id) => symbol.id == id,
        SymbolSelector::QualifiedName(name) => symbol.qualified_name@ == name@,
        SymbolSelector::Name(name) => symbol.name@ == name@,
        SymbolSelector::PartialName(fragment) => ascii_contains(symbol.name@, fragment@),
    }
}

/// Whether a search looks at a row at all.
pub open spec fn row_searched(query: SymbolQuery<'_>, row: IndexedResource) -> bool {
    &&& is_active(row)
    &&& in_scope(query.scope, row)
    &&& query.language matches Some(language) ==> row.resource.language == Some(language)
}

/// Whether a search matches a Symbol of a row that it looks at.
pub open spec fn symbol_selected(query: SymbolQuery<'_>, symbol: Symbol) -> bool {
    &&& symbol_named(query.selector, symbol)
    &&& query.kind matches Some(kind) ==> symbol.kind == kind
}

/// What a path's extension implies, where nothing was recorded.
pub open spec fn implied_coverage(
    kind: ResourceKind,
    capability: Option<StructuralCapability>,
) -> StructuralCoverage {
    if kind != ResourceKind::File {
        StructuralCoverage::Unsupported
    } else {
        match capability {
            None => StructuralCoverage::Unsupported,
            Some(StructuralCapability::WholeFile) => StructuralCoverage::Complete,
            Some(StructuralCapability::Container) => StructuralCoverage::ContainerOnly,
        }
    }
}

/// A Resource's coverage: what the structural index recorded about it, and
/// otherwise what its extension implies.
pub open spec fn coverage(row: IndexedResource) -> StructuralCoverage {
    match row.structural {
        Some(StructuralState::Complete) => StructuralCoverage::Complete,
        Some(StructuralState::Partial) => StructuralCoverage::Partial,
        Some(StructuralState::ContainerOnly) => StructuralCoverage::ContainerOnly,
        Some(StructuralState::Unsupported) => StructuralCoverage::Unsupported,
        Some(StructuralState::Unavailable) => StructuralCoverage::Unsupported,
        Some(StructuralState::GeneratedUnmapped) => StructuralCoverage::GeneratedUnmapped,
        None => implied_coverage(row.resource.kind, row.capability),
    }
}

/// A Symbol of a row that a search matches.
pub ghost struct SymbolHit {
    pub row: IndexedResource,
    pub symbol: Symbol,
}

impl SymbolHit {
    /// Whether the Symbol describes the revision that its Resource is at.
    pub open spec fn is_current(self) -> bool {
        self.symbol.resource_revision@ == self.row.resource.resource_revision@
    }

    pub open spec fn candidate(self) -> SymbolCandidate {
        SymbolCandidate {
            symbol: self.symbol,
            path_rel: self.row.resource.path_rel,
            coverage: coverage(self.row),
        }
    }
}

/// The matches of a search in one row, in order.
pub open spec fn row_hits(query: SymbolQuery<'_>, row: IndexedResource) -> Seq<SymbolHit> {
    if row_searched(query, row) {
        row.symbols@.filter(|symbol: Symbol| symbol_selected(query, symbol)).map_values(
            |symbol: Symbol| SymbolHit { row, symbol },
        )
    } else {
        Seq::empty()
    }
}

/// The matches of a search, row after row.
pub open spec fn symbol_hits(
    query: SymbolQuery<'_>,
    rows: Seq<IndexedResource>,
) -> Seq<SymbolHit>
    decreases rows.len(),
{
    if rows.len() == 0 {
        Seq::empty()
    } else {
        symbol_hits(query, rows.drop_last()) + row_hits(query, rows.last())
    }
}

/// What a search has collected.
pub ghost struct Collected {
    pub candidates: Seq<SymbolHit>,
    pub last_valid: Seq<SymbolHit>,
    pub truncated: bool,
}

/// Current matches go to the candidates and stale ones to the last valid,
/// in order, up to the first match that comes when the candidates are full.
pub open spec fn collected(hits: Seq<SymbolHit>, limit: nat) -> Collected
    decreases hits.len(),
{
    if hits.len() == 0 {
        Collected { candidates: Seq::empty(), last_valid: Seq::empty(), truncated: false }
    } else {
        let before = collected(hits.drop_last(), limit);
        let hit = hits.last();
        if before.truncated {
            before
        } else if before.candidates.len() == limit {
            Collected { truncated: true, ..before }
        } else if hit.is_current() {
            Collected { candidates: before.candidates.push(hit), ..before }
        } else {
            Collected { last_valid: before.last_valid.push(hit), ..before }
        }
    }
}

pub open spec fn candidates_of(hits: Seq<SymbolHit>) -> Seq<SymbolCandidate> {
    hits.map_values(|hit: SymbolHit| hit.candidate())
}

/// A search never returns more candidates than its limit, every candidate
/// is a current match and every last valid one a stale match; a search that
/// was not cut short returns all of both, in order, and one that was is
/// full.
pub proof fn lemma_search_is_honest(hits: Seq<SymbolHit>, limit: nat)
    ensures
        collected(hits, limit).candidates.len() <= limit,
        forall|i: int|
            0 <= i < collected(hits, limit).candidates.len() ==> (#[trigger] collected(
                hits,
                limit,
            ).candidates[i]).is_current() && hits.contains(collected(hits, limit).candidates[i]),
        forall|i: int|
            0 <= i < collected(hits, limit).last_valid.len() ==> !(#[trigger] collected(
                hits,
                limit,
            ).last_valid[i]).is_current() && hits.contains(collected(hits, limit).last_valid[i]),
        !collected(hits, limit).truncated ==> {
            &&& collected(hits, limit).candidates == hits.filter(|hit: SymbolHit| hit.is_current())
            &&& collected(hits, limit).last_valid == hits.filter(|hit: SymbolHit| !hit.is_current())
        },
        collected(hits, limit).truncated ==> collected(hits, limit).candidates.len() == limit,
    decreases hits.len(),
{
    let current = |hit: SymbolHit| hit.is_current();
    let stale = |hit: SymbolHit| !hit.is_current();
    reveal_with_fuel(Seq::filter, 2);
    if hits.len() == 0 {
        assert(hits.filter(current) =~= Seq::empty());
        assert(hits.filter(stale) =~= Seq::empty());
    } else {
        let rest = hits.drop_last();
        lemma_search_is_honest(rest, limit);
        assert(hits =~= rest.push(hits.last()));
        rest.lemma_filter_push(hits.last(), current);
        rest.lemma_filter_push(hits.last(), stale);
        let now = collected(hits, limit);
        let before = collected(rest, limit);
        assert forall|x: SymbolHit| rest.contains(x) implies hits.contains(x) by {
            let at = choose|i: int| 0 <= i < rest.len() && rest[i] == x;
            assert(hits[at] == x);
        }
        assert(hits[hits.len() - 1] == hits.last());
        assert forall|i: int| 0 <= i < now.candidates.len() implies (#[trigger]
        now.candidates[i]).is_current() && hits.contains(now.candidates[i]) by {
            if i < before.candidates.len() {
                assert(now.candidates[i] == before.candidates[i]);
            }
        }
        assert forall|i: int| 0 <= i < now.last_valid.len() implies !(#[trigger]
        now.last_valid[i]).is_current() && hits.contains(now.last_valid[i]) by {
            if i < before.last_valid.len() {
                assert(now.last_valid[i] == before.last_valid[i]);
            }
        }
    }
}

/// One hit does not come after another: it is in an earlier row, or in the
/// same one and not after it there.
pub open spec fn hits_ordered(rows: Seq<IndexedResource>, a: SymbolHit, b: SymbolHit) -> bool {
    exists|p: int, q: int|
        0 <= p <= q < rows.len() && #[trigger] rows[p] == a.row && #[trigger] rows[q] == b.row && (p
            == q ==> !symbol_before(b.symbol, a.symbol))
}

/// The Symbols of a row that a search matches, in order.
pub open spec fn selected(query: SymbolQuery<'_>, symbols: Seq<Symbol>) -> Seq<Symbol> {
    symbols.filter(|symbol: Symbol| symbol_selected(query, symbol))
}

proof fn lemma_selected_in_order(query: SymbolQuery<'_>, symbols: Seq<Symbol>)
    requires
        in_symbol_order(symbols),
    ensures
        in_symbol_order(selected(query, symbols)),
        forall|i: int|
            0 <= i < selected(query, symbols).len() ==> symbols.contains(
                #[trigger] selected(query, symbols)[i],
            ),
    decreases symbols.len(),
{
    let keeps = |symbol: Symbol| symbol_selected(query, symbol);
    reveal_with_fuel(Seq::filter, 2);
    if symbols.len() > 0 {
        let rest = symbols.drop_last();
        assert(in_symbol_order(rest)) by {
            assert forall|i: int, j: int| 0 <= i < j < rest.len() implies !symbol_before(
                rest[j],
                rest[i],
            ) by {
                assert(!symbol_before(symbols[j], symbols[i]));
            }
        }
        lemma_selected_in_order(query, rest);
        assert(symbols =~= rest.push(symbols.last()));
        rest.lemma_filter_push(symbols.last(), keeps);
        let held = selected(query, rest);
        let now = selected(query, symbols);
        assert forall|i: int| 0 <= i < held.len() implies symbols.contains(
            #[trigger] held[i],
        ) && !symbol_before(symbols.last(), held[i]) by {
            assert(rest.contains(selected(query, rest)[i]));
            let k = choose|k: int| 0 <= k < rest.len() && rest[k] == held[i];
            assert(symbols[k] == held[i]);
            assert(!symbol_before(symbols[symbols.len() - 1], symbols[k]));
        }
        assert(symbols[symbols.len() - 1] == symbols.last());
        assert forall|i: int, j: int| 0 <= i < j < now.len() implies !symbol_before(
            now[j],
            now[i],
        ) by {
            if j < held.len() {
                assert(!symbol_before(held[j], held[i]));
            }
        }
        assert forall|i: int| 0 <= i < now.len() implies symbols.contains(#[trigger] now[i]) by {
            if i < held.len() {
                assert(now[i] == held[i]);
            }
        }
    }
}

/// What a search finds is alive and in order: every hit is a Symbol of an
/// ACTIVE row that the query looks at, so a tombstone is never a result, and
/// no hit comes before its predecessors.
pub proof fn lemma_hits_are_alive_and_in_order(
    query: SymbolQuery<'_>,
    rows: Seq<IndexedResource>,
)
    requires
        forall|i: int| 0 <= i < rows.len() ==> in_symbol_order((#[trigger] rows[i]).symbols@),
    ensures
        forall|i: int|
            0 <= i < symbol_hits(query, rows).len() ==> {
                let hit = #[trigger] symbol_hits(query, rows)[i];
                &&& rows.contains(hit.row)
                &&& row_searched(query, hit.row)
                &&& hit.row.symbols@.contains(hit.symbol)
            },
        forall|i: int, j: int|
            0 <= i < j < symbol_hits(query, rows).len() ==> hits_ordered(
                rows,
                #[trigger] symbol_hits(query, rows)[i],
                #[trigger] symbol_hits(query, rows)[j],
            ),
    decreases rows.len(),
{
    if rows.len() > 0 {
        let rest = rows.drop_last();
        let row = rows.last();
        let last = rows.len() - 1;
        assert forall|i: int| 0 <= i < rest.len() implies in_symbol_order(
            (#[trigger] rest[i]).symbols@,
        ) by {
            assert(rest[i] == rows[i]);
        }
        lemma_hits_are_alive_and_in_order(query, rest);
        assert(rows[last] == row);
        let before = symbol_hits(query, rest);
        let more = row_hits(query, row);
        let all = symbol_hits(query, rows);
        assert(all == before + more);
        if row_searched(query, row) {
            lemma_selected_in_order(query, row.symbols@);
            assert(more =~= selected(query, row.symbols@).map_values(
                |symbol: Symbol| SymbolHit { row, symbol },
            ));
        }
        assert forall|i: int| 0 <= i < all.len() implies {
            let hit = #[trigger] all[i];
            &&& rows.contains(hit.row)
            &&& row_searched(query, hit.row)
            &&& hit.row.symbols@.contains(hit.symbol)
        } by {
            if i < before.len() {
                let hit = symbol_hits(query, rest)[i];
                assert(all[i] == hit);
                let k = choose|k: int| 0 <= k < rest.len() && rest[k] == hit.row;
                assert(rows[k] == hit.row);
            } else {
                assert(all[i] == more[i - before.len()]);
                assert(all[i].symbol == selected(query, row.symbols@)[i - before.len()]);
            }
        }
        assert forall|i: int, j: int| 0 <= i < j < all.len() implies hits_ordered(
            rows,
            #[trigger] all[i],
            #[trigger] all[j],
        ) by {
            if j < before.len() {
                let a = symbol_hits(query, rest)[i];
                let b = symbol_hits(query, rest)[j];
                assert(all[i] == a && all[j] == b);
                assert(hits_ordered(rest, a, b));
                let (p, q) = choose|p: int, q: int|
                    0 <= p <= q < rest.len() && #[trigger] rest[p] == a.row && #[trigger] rest[q]
                        == b.row && (p == q ==> !symbol_before(b.symbol, a.symbol));
                assert(rows[p] == a.row && rows[q] == b.row);
            } else if i < before.len() {
                let a = symbol_hits(query, rest)[i];
                assert(all[i] == a && all[j] == more[j - before.len()]);
                let p = choose|p: int| 0 <= p < rest.len() && rest[p] == a.row;
                assert(rows[p] == a.row && rows[last] == all[j].row);
            } else {
                let a = selected(query, row.symbols@)[i - before.len()];
                let b = selected(query, row.symbols@)[j - before.len()];
                assert(all[i] == more[i - before.len()] && all[j] == more[j - before.len()]);
                assert(all[i].symbol == a && all[j].symbol == b);
                assert(!symbol_before(b, a));
                assert(rows[last] == all[i].row && rows[last] == all[j].row);
            }
        }
    }
}

/// Whether a row is reported as incompletely covered: an ACTIVE file that
/// has a language. A file without one is not partial coverage, it is simply
/// not code.
pub open spec fn coverage_noted(scope: Option<ResourceScope<'_>>, row: IndexedResource) -> bool {
    &&& is_active(row)
    &&& row.resource.kind == ResourceKind::File
    &&& row.resource.language is Some
    &&& in_scope(scope, row)
    &&& coverage(row) != StructuralCoverage::Complete
}

pub open spec fn note_of(row: IndexedResource) -> CoverageNote {
    CoverageNote {
        resource_id: row.resource.id,
        path_rel: row.resource.path_rel,
        coverage: coverage(row),
    }
}

/// The Symbol's declaration contains the byte.
pub open spec fn contains_byte(symbol: Symbol, byte_offset: usize) -> bool {
    symbol.span.start_byte <= byte_offset < symbol.span.end_byte
}

/// A current Symbol of the row whose declaration contains the byte.
pub open spec fn encloses(row: IndexedResource, symbol: Symbol, byte_offset: usize) -> bool {
    &&& symbol.resource_revision@ == row.resource.resource_revision@
    &&& contains_byte(symbol, byte_offset)
}

/// The order of declarations around a place: the shorter first, then the
/// one that starts later, then by identity.
pub open spec fn closer(a: Symbol, b: Symbol) -> bool {
    let a_len = a.span.end_byte - a.span.start_byte;
    let b_len = b.span.end_byte - b.span.start_byte;
    ||| a_len < b_len
    ||| a_len == b_len && {
        ||| a.span.start_byte > b.span.start_byte
        ||| a.span.start_byte == b.span.start_byte && a.id.value < b.id.value
    }
}

/// The first ACTIVE row of that identity.
pub open spec fn active_row(rows: Seq<IndexedResource>, id: ResourceId) -> Option<IndexedResource>
    decreases rows.len(),
{
    if rows.len() == 0 {
        None
    } else if is_active(rows[0]) && rows[0].resource.id == id {
        Some(rows[0])
    } else {
        active_row(rows.skip(1), id)
    }
}

/// What results read from an index in that state may claim.
pub open spec fn claimed_currentness(freshness: Option<FreshnessState>) -> Currentness {
    match freshness {
        None => Currentness::NotCurrent(NotCurrentReason::ResourceIndexNeverPublished),
        Some(FreshnessState::Current) => Currentness::Current,
        Some(FreshnessState::Dirty) => Currentness::NotCurrent(
            NotCurrentReason::ResourceIndexDirty,
        ),
    }
}

// ---------------------------------------------------------------------
// The index
// ---------------------------------------------------------------------

/// The structural coverage that a path's extension implies.
pub fn coverage_of(
    kind: ResourceKind,
    capability: Option<StructuralCapability>,
) -> (found: StructuralCoverage)
    ensures
        found == implied_coverage(kind, capability),
{
    if kind != ResourceKind::File {
        return StructuralCoverage::Unsupported;
    }
    match capability {
        None => StructuralCoverage::Unsupported,
        Some(StructuralCapability::WholeFile) => StructuralCoverage::Complete,
        Some(StructuralCapability::Container) => StructuralCoverage::ContainerOnly,
    }
}

fn coverage_from(row: &IndexedResource) -> (found: StructuralCoverage)
    ensures
        found == coverage(*row),
{
    match row.structural {
        Some(StructuralState::Complete) => StructuralCoverage::Complete,
        Some(StructuralState::Partial) => StructuralCoverage::Partial,
        Some(StructuralState::ContainerOnly) => StructuralCoverage::ContainerOnly,
        Some(StructuralState::Unsupported) => StructuralCoverage::Unsupported,
        Some(StructuralState::Unavailable) => StructuralCoverage::Unsupported,
        Some(StructuralState::GeneratedUnmapped) => StructuralCoverage::GeneratedUnmapped,
        None => coverage_of(row.resource.kind, row.capability),
    }
}

fn scope_holds(scope: Option<ResourceScope<'_>>, row: &IndexedResource) -> (held: bool)
    ensures
        held == in_scope(scope, *row),
{
    match scope {
        None => true,
        Some(ResourceScope::Id(id)) => row.resource.id == id,
        Some(ResourceScope::PathPrefix(prefix)) => text_starts_with(
            row.resource.path_key.as_str(),
            prefix,
        ),
    }
}

fn selector_names(selector: SymbolSelector<'_>, symbol: &Symbol) -> (held: bool)
    ensures
        held == symbol_named(selector, *symbol),
{
    match selector {
        SymbolSelector::Id(id) => symbol.id == id,
        SymbolSelector::QualifiedName(name) => same_text(symbol.qualified_name.as_str(), name),
        SymbolSelector::Name(name) => same_text(symbol.name.as_str(), name),
        SymbolSelector::PartialName(fragment) => contains_ascii_folded(
            symbol.name.as_str(),
            fragment,
        ),
    }
}

fn listing_keeps(query: &FileQuery<'_>, row: &IndexedResource) -> (held: bool)
    ensures
        held == file_selected(query@, *row),
{
    if row.resource.state != ResourceState::Active {
        return false;
    }
    if let Some(directory) = query.directory {
        let prefix = directory_prefix(directory);
        if !text_starts_with(row.resource.path_key.as_str(), prefix.as_str()) {
            return false;
        }
        if !query.recursive && !is_direct_child(row.resource.path_key.as_str(), prefix.as_str()) {
            return false;
        }
    }
    if let Some(prefix) = query.path_prefix {
        if !text_starts_with(row.resource.path_rel.as_str(), prefix) {
            return false;
        }
    }
    if let Some(role) = query.role {
        if row.resource.role != role {
            return false;
        }
    }
    if let Some(language) = query.language {
        match row.resource.language {
            Some(held) => if held != language {
                return false;
            },
            None => {
                return false;
            },
        }
    }
    if let Some(kind) = query.kind {
        if row.resource.kind != kind {
            return false;
        }
    }
    true
}

fn locator_names(locator: ResourceLocator<'_>, row: &IndexedResource) -> (held: bool)
    ensures
        held == resource_named(locator, *row),
{
    if row.resource.state != ResourceState::Active {
        return false;
    }
    match locator {
        ResourceLocator::Id(id) => row.resource.id == id,
        ResourceLocator::Path(path) => same_text(row.resource.path_key.as_str(), path),
        ResourceLocator::Basename(name) => {
            let held = basename_of(row.resource.path_key.as_str());
            same_text(held.as_str(), name)
        },
        ResourceLocator::PathPrefix(prefix) => text_starts_with(
            row.resource.path_key.as_str(),
            prefix,
        ),
    }
}

/// Read-only structured access to one Workspace's index rows.
#[derive(Debug)]
pub struct QueryIndex {
    rows: Vec<IndexedResource>,
    freshness: Option<FreshnessState>,
}

impl QueryIndex {
    /// The rows, in the order that results come in.
    pub closed spec fn rows(&self) -> Seq<IndexedResource> {
        self.rows@
    }

    #[verifier::type_invariant]
    spec fn kept_in_order(self) -> bool {
        rows_in_order(self.rows@)
    }

    /// The recorded freshness; none where nothing was ever published.
    pub closed spec fn freshness(&self) -> Option<FreshnessState> {
        self.freshness
    }

    /// An index over the rows, put in the order of their keys, and each with
    /// its declarations in order.
    pub fn from_rows(
        rows: Vec<IndexedResource>,
        freshness: Option<FreshnessState>,
    ) -> (index: Self)
        ensures
            rows_in_order(index.rows()),
            exists|ordered: Seq<IndexedResource>|
                #[trigger] all_put_in_order(rows@, ordered) && index.rows().to_multiset()
                    == ordered.to_multiset(),
            index.freshness() == freshness,
    {
        let ordered = ordered_rows(rows);
        let ghost held = ordered@;
        let sorted = sorted_rows(ordered);
        proof {
            broadcast use vstd::seq_lib::group_to_multiset_ensures;

            assert(all_put_in_order(rows@, held));
            assert forall|i: int| 0 <= i < sorted@.len() implies in_symbol_order(
                (#[trigger] sorted@[i]).symbols@,
            ) by {
                assert(sorted@.contains(sorted@[i]));
                assert(sorted@.to_multiset().contains(sorted@[i]));
                assert(held.contains(sorted@[i]));
                let k = choose|k: int| 0 <= k < held.len() && held[k] == sorted@[i];
                assert(put_in_order(rows@[k], held[k]));
            }
        }
        QueryIndex { rows: sorted, freshness }
    }

    /// Whether results read right now may be claimed to describe the current
    /// Workspace.
    pub fn currentness(&self) -> (found: Currentness)
        ensures
            found == claimed_currentness(self.freshness()),
    {
        match self.freshness {
            None => Currentness::NotCurrent(NotCurrentReason::ResourceIndexNeverPublished),
            Some(FreshnessState::Current) => Currentness::Current,
            Some(FreshnessState::Dirty) => Currentness::NotCurrent(
                NotCurrentReason::ResourceIndexDirty,
            ),
        }
    }

    /// The current Resource inventory, filtered as `query` asks: the first
    /// rows that it keeps, up to its limit.
    pub fn list_files(&self, query: &FileQuery<'_>) -> (listing: FileListing)
        ensures
            is_listing(self.rows(), self.freshness(), query@, listing),
            rows_in_order(self.rows()),
    {
        proof {
            use_type_invariant(self);
        }
        let limit: usize = match query.limit {
            Some(limit) => limit,
            None => DEFAULT_CANDIDATE_LIMIT,
        };
        let ghost keeps = |row: IndexedResource| file_selected(query@, row);
        let ghost plain = |row: IndexedResource| row.resource;
        let mut entries: Vec<Resource> = Vec::new();
        let mut truncated = false;
        let mut at: usize = 0;
        reveal_with_fuel(Seq::filter, 1);
        assert(self.rows@.take(0).filter(keeps) =~= Seq::empty());
        assert(entries@ =~= Seq::<IndexedResource>::empty().take(0).map_values(plain));
        while at < self.rows.len()
            invariant
                at <= self.rows@.len(),
                limit == limit_of(query.limit),
                keeps == (|row: IndexedResource| file_selected(query@, row)),
                plain == (|row: IndexedResource| row.resource),
                ({
                    let kept = self.rows@.take(at as int).filter(keeps);
                    &&& truncated == (kept.len() > limit)
                    &&& entries@ == kept.take(
                        if kept.len() > limit {
                            limit as int
                        } else {
                            kept.len() as int
                        },
                    ).map_values(plain)
                }),
            decreases self.rows@.len() - at,
        {
            let row = &self.rows[at];
            let ghost kept = self.rows@.take(at as int).filter(keeps);
            let ghost held = entries@;
            proof {
                assert(self.rows@.take(at + 1) =~= self.rows@.take(at as int).push(*row));
                self.rows@.take(at as int).lemma_filter_push(*row, keeps);
            }
            if listing_keeps(query, row) {
                if entries.len() == limit {
                    truncated = true;
                    assert(kept.push(*row).take(limit as int) =~= kept.take(limit as int));
                } else {
                    entries.push(row.resource.clone());
                    assert(kept.push(*row).take(kept.len() as int + 1) =~= kept.push(*row));
                    assert(kept.take(kept.len() as int) =~= kept);
                    assert(entries@ =~= kept.push(*row).map_values(plain));
                }
            }
            at = at + 1;
        }
        assert(self.rows@.take(at as int) =~= self.rows@);
        FileListing {
            entries,
            truncated,
            currentness: self.currentness(),
            source: ResultSource::StructuralIndex,
        }
    }

    /// Locate a Resource. An id or a full path is exact; a basename or a path
    /// prefix is a candidate search, and several matches stay several
    /// matches.
    pub fn locate_resource(&self, locator: ResourceLocator<'_>) -> (located: Located<Resource>)
        ensures
            ({
                let named = self.rows().filter(|row: IndexedResource| resource_named(locator, row));
                let limit = DEFAULT_CANDIDATE_LIMIT as int;
                &&& located.truncated == (named.len() > limit)
                &&& located.candidates@ == named.take(
                    if named.len() > limit {
                        limit
                    } else {
                        named.len() as int
                    },
                ).map_values(|row: IndexedResource| row.resource)
            }),
            located.last_valid@.len() == 0,
            located.exact_selector == (locator is Id || locator is Path),
            located.currentness == claimed_currentness(self.freshness()),
            located.source == ResultSource::StructuralIndex,
            located.incomplete_coverage@.len() == 0,
            rows_in_order(self.rows()),
    {
        proof {
            use_type_invariant(self);
        }
        let ghost names = |row: IndexedResource| resource_named(locator, row);
        let ghost plain = |row: IndexedResource| row.resource;
        let mut candidates: Vec<Resource> = Vec::new();
        let mut truncated = false;
        let mut at: usize = 0;
        reveal_with_fuel(Seq::filter, 1);
        assert(self.rows@.take(0).filter(names) =~= Seq::empty());
        assert(candidates@ =~= Seq::<IndexedResource>::empty().take(0).map_values(plain));
        while at < self.rows.len()
            invariant
                at <= self.rows@.len(),
                names == (|row: IndexedResource| resource_named(locator, row)),
                plain == (|row: IndexedResource| row.resource),
                ({
                    let named = self.rows@.take(at as int).filter(names);
                    let limit = DEFAULT_CANDIDATE_LIMIT as int;
                    &&& truncated == (named.len() > limit)
                    &&& candidates@ == named.take(
                        if named.len() > limit {
                            limit
                        } else {
                            named.len() as int
                        },
                    ).map_values(plain)
                }),
            decreases self.rows@.len() - at,
        {
            let row = &self.rows[at];
            let ghost named = self.rows@.take(at as int).filter(names);
            proof {
                assert(self.rows@.take(at + 1) =~= self.rows@.take(at as int).push(*row));
                self.rows@.take(at as int).lemma_filter_push(*row, names);
            }
            if locator_names(locator, row) {
                if candidates.len() == DEFAULT_CANDIDATE_LIMIT {
                    truncated = true;
                    assert(named.push(*row).take(200) =~= named.take(200));
                } else {
                    candidates.push(row.resource.clone());
                    assert(named.push(*row).take(named.len() as int + 1) =~= named.push(*row));
                    assert(named.take(named.len() as int) =~= named);
                    assert(candidates@ =~= named.push(*row).map_values(plain));
                }
            }
            at = at + 1;
        }
        assert(self.rows@.take(at as int) =~= self.rows@);
        let exact_selector = match locator {
            ResourceLocator::Id(_) => true,
            ResourceLocator::Path(_) => true,
            _ => false,
        };
        Located {
            candidates,
            last_valid: Vec::new(),
            exact_selector,
            truncated,
            currentness: self.currentness(),
            source: ResultSource::StructuralIndex,
            incomplete_coverage: Vec::new(),
        }
    }

    /// Search the structural Symbol index. Same-named Symbols all come back;
    /// none is picked.
    pub fn search_symbols(&self, query: &SymbolQuery<'_>) -> (located: Located<SymbolCandidate>)
        ensures
            ({
                let found = collected(symbol_hits(*query, self.rows()), limit_of(query.limit));
                &&& located.candidates@ == candidates_of(found.candidates)
                &&& located.last_valid@ == candidates_of(found.last_valid)
                &&& located.truncated == found.truncated
            }),
            located.exact_selector == query.selector.identifies(),
            located.currentness == claimed_currentness(self.freshness()),
            located.source == ResultSource::StructuralIndex,
            located.incomplete_coverage@ == self.rows().filter(
                |row: IndexedResource| coverage_noted(query.scope, row),
            ).map_values(|row: IndexedResource| note_of(row)),
            rows_in_order(self.rows()),
    {
        proof {
            use_type_invariant(self);
        }
        let limit: usize = match query.limit {
            Some(limit) => limit,
            None => DEFAULT_CANDIDATE_LIMIT,
        };
        let mut candidates: Vec<SymbolCandidate> = Vec::new();
        let mut last_valid: Vec<SymbolCandidate> = Vec::new();
        let mut truncated = false;
        let mut at: usize = 0;
        let ghost mut hits: Seq<SymbolHit> = Seq::empty();
        assert(candidates@ =~= candidates_of(collected(hits, limit as nat).candidates));
        assert(last_valid@ =~= candidates_of(collected(hits, limit as nat).last_valid));
        while at < self.rows.len()
            invariant
                at <= self.rows@.len(),
                limit == limit_of(query.limit),
                hits == symbol_hits(*query, self.rows@.take(at as int)),
                candidates@ == candidates_of(collected(hits, limit as nat).candidates),
                last_valid@ == candidates_of(collected(hits, limit as nat).last_valid),
                truncated == collected(hits, limit as nat).truncated,
            decreases self.rows@.len() - at,
        {
            let row = &self.rows[at];
            let ghost before = hits;
            let ghost selects = |symbol: Symbol| symbol_selected(*query, symbol);
            let ghost hit_of = |symbol: Symbol| SymbolHit { row: *row, symbol };
            assert(self.rows@.take(at + 1).drop_last() =~= self.rows@.take(at as int));
            assert(self.rows@.take(at + 1).last() == *row);
            let language_fits = match query.language {
                Some(language) => match row.resource.language {
                    Some(held) => held == language,
                    None => false,
                },
                None => true,
            };
            if row.resource.state == ResourceState::Active && language_fits && scope_holds(
                query.scope,
                row,
            ) {
                let mut next: usize = 0;
                assert(row.symbols@.take(0).filter(selects) =~= Seq::empty());
                assert(hits =~= before + row.symbols@.take(0).filter(selects).map_values(hit_of));
                while next < row.symbols.len()
                    invariant
                        at < self.rows@.len(),
                        *row == self.rows@[at as int],
                        next <= row.symbols@.len(),
                        limit == limit_of(query.limit),
                        selects == (|symbol: Symbol| symbol_selected(*query, symbol)),
                        hit_of == (|symbol: Symbol| SymbolHit { row: *row, symbol }),
                        hits == before + row.symbols@.take(next as int).filter(selects).map_values(
                            hit_of,
                        ),
                        candidates@ == candidates_of(collected(hits, limit as nat).candidates),
                        last_valid@ == candidates_of(collected(hits, limit as nat).last_valid),
                        truncated == collected(hits, limit as nat).truncated,
                    decreases row.symbols@.len() - next,
                {
                    let symbol = &row.symbols[next];
                    let ghost earlier = hits;
                    let ghost seen = row.symbols@.take(next as int);
                    let ghost hit = SymbolHit { row: *row, symbol: *symbol };
                    proof {
                        assert(row.symbols@.take(next + 1) =~= seen.push(*symbol));
                        seen.lemma_filter_push(*symbol, selects);
                    }
                    let kind_fits = match query.kind {
                        Some(kind) => symbol.kind == kind,
                        None => true,
                    };
                    if kind_fits && selector_names(query.selector, symbol) {
                        proof {
                            hits = earlier.push(hit);
                            assert(seen.filter(selects).push(*symbol).map_values(hit_of)
                                =~= seen.filter(selects).map_values(hit_of).push(hit));
                            assert(hits =~= before + seen.push(*symbol).filter(selects).map_values(
                                hit_of,
                            ));
                            assert(hits.drop_last() =~= earlier);
                        }
                        if !truncated {
                            if candidates.len() == limit {
                                truncated = true;
                            } else {
                                let current = same_text(
                                    symbol.resource_revision.as_str(),
                                    row.resource.resource_revision.as_str(),
                                );
                                let candidate = SymbolCandidate {
                                    symbol: symbol.clone(),
                                    path_rel: row.resource.path_rel.clone(),
                                    coverage: coverage_from(row),
                                };
                                assert(candidate == hit.candidate());
                                if current {
                                    candidates.push(candidate);
                                    assert(candidates@ =~= candidates_of(
                                        collected(hits, limit as nat).candidates,
                                    ));
                                } else {
                                    last_valid.push(candidate);
                                    assert(last_valid@ =~= candidates_of(
                                        collected(hits, limit as nat).last_valid,
                                    ));
                                }
                            }
                        }
                    }
                    next = next + 1;
                }
                assert(row.symbols@.take(next as int) =~= row.symbols@);
            } else {
                assert(hits =~= before + row_hits(*query, *row));
            }
            at = at + 1;
        }
        assert(self.rows@.take(at as int) =~= self.rows@);
        Located {
            candidates,
            last_valid,
            exact_selector: query.selector.is_exact(),
            truncated,
            currentness: self.currentness(),
            source: ResultSource::StructuralIndex,
            incomplete_coverage: self.incomplete_coverage(query.scope),
        }
    }

    /// Every Resource in `scope` that the structural index does not fully
    /// cover.
    pub fn incomplete_coverage(&self, scope: Option<ResourceScope<'_>>) -> (notes: Vec<
        CoverageNote,
    >)
        ensures
            notes@ == self.rows().filter(
                |row: IndexedResource| coverage_noted(scope, row),
            ).map_values(|row: IndexedResource| note_of(row)),
    {
        let ghost noted = |row: IndexedResource| coverage_noted(scope, row);
        let ghost note = |row: IndexedResource| note_of(row);
        let mut notes: Vec<CoverageNote> = Vec::new();
        let mut at: usize = 0;
        reveal_with_fuel(Seq::filter, 1);
        assert(notes@ =~= self.rows@.take(0).filter(noted).map_values(note));
        while at < self.rows.len()
            invariant
                at <= self.rows@.len(),
                noted == (|row: IndexedResource| coverage_noted(scope, row)),
                note == (|row: IndexedResource| note_of(row)),
                notes@ == self.rows@.take(at as int).filter(noted).map_values(note),
            decreases self.rows@.len() - at,
        {
            let row = &self.rows[at];
            let ghost seen = self.rows@.take(at as int);
            proof {
                assert(self.rows@.take(at + 1) =~= seen.push(*row));
                seen.lemma_filter_push(*row, noted);
            }
            if row.resource.state == ResourceState::Active && row.resource.kind
                == ResourceKind::File && row.resource.language.is_some() && scope_holds(scope, row) {
                let found = coverage_from(row);
                if !found.is_complete() {
                    notes.push(
                        CoverageNote {
                            resource_id: row.resource.id,
                            path_rel: row.resource.path_rel.clone(),
                            coverage: found,
                        },
                    );
                    assert(notes@ =~= seen.filter(noted).push(*row).map_values(note));
                }
            }
            at = at + 1;
        }
        assert(self.rows@.take(at as int) =~= self.rows@);
        notes
    }

    fn active_place(&self, id: ResourceId) -> (found: Option<usize>)
        ensures
            found is Some == active_row(self.rows(), id) is Some,
            found matches Some(at) ==> at < self.rows@.len() && active_row(self.rows(), id) == Some(
                self.rows@[at as int],
            ),
    {
        let mut at: usize = 0;
        assert(self.rows@.skip(0) =~= self.rows@);
        while at < self.rows.len()
            invariant
                at <= self.rows@.len(),
                active_row(self.rows@, id) == active_row(self.rows@.skip(at as int), id),
            decreases self.rows@.len() - at,
        {
            assert(self.rows@.skip(at as int)[0] == self.rows@[at as int]);
            if self.rows[at].resource.state == ResourceState::Active && self.rows[at].resource.id
                == id {
                return Some(at);
            }
            assert(self.rows@.skip(at as int).skip(1) =~= self.rows@.skip(at + 1));
            at = at + 1;
        }
        None
    }

    /// The ACTIVE Resource with this id, if there is one.
    pub fn active_resource(&self, id: ResourceId) -> (found: Option<Resource>)
        ensures
            found == (match active_row(self.rows(), id) {
                Some(row) => Some(row.resource),
                None => None,
            }),
    {
        match self.active_place(id) {
            Some(at) => Some(self.rows[at].resource.clone()),
            None => None,
        }
    }

    /// The smallest current Symbol whose declaration span contains
    /// `byte_offset` in `resource_id`.
    pub fn symbol_at(&self, resource_id: ResourceId, byte_offset: usize) -> (answer: Result<
        PositionResult,
        QueryError,
    >)
        ensures
            answer is Err <==> active_row(self.rows(), resource_id) is None,
            answer matches Err(error) ==> error == (QueryError::UnknownResource { resource_id }),
            answer matches Ok(found) ==> {
                let row = active_row(self.rows(), resource_id)->0;
                &&& found.coverage == coverage(row)
                &&& found.currentness == claimed_currentness(self.freshness())
                &&& found.source == ResultSource::StructuralIndex
                &&& found.containing is None <==> forall|i: int|
                    0 <= i < row.symbols@.len() ==> !encloses(
                        row,
                        #[trigger] row.symbols@[i],
                        byte_offset,
                    )
                &&& found.containing matches Some(candidate) ==> {
                    &&& candidate == (SymbolHit { row, symbol: candidate.symbol }).candidate()
                    &&& row.symbols@.contains(candidate.symbol)
                    &&& encloses(row, candidate.symbol, byte_offset)
                    &&& forall|i: int|
                        0 <= i < row.symbols@.len() && encloses(
                            row,
                            #[trigger] row.symbols@[i],
                            byte_offset,
                        ) ==> !closer(row.symbols@[i], candidate.symbol)
                }
            },
    {
        let place = match self.active_place(resource_id) {
            Some(place) => place,
            None => {
                return Err(QueryError::UnknownResource { resource_id });
            },
        };
        let row = &self.rows[place];
        let mut best: Option<usize> = None;
        let mut at: usize = 0;
        while at < row.symbols.len()
            invariant
                at <= row.symbols@.len(),
                best is None <==> forall|i: int|
                    0 <= i < at ==> !encloses(*row, #[trigger] row.symbols@[i], byte_offset),
                best matches Some(held) ==> {
                    &&& held < at
                    &&& encloses(*row, row.symbols@[held as int], byte_offset)
                    &&& forall|i: int|
                        0 <= i < at && encloses(*row, #[trigger] row.symbols@[i], byte_offset)
                            ==> !closer(row.symbols@[i], row.symbols@[held as int])
                },
            decreases row.symbols@.len() - at,
        {
            let symbol = &row.symbols[at];
            let encloses_it = symbol.span.start_byte <= byte_offset && byte_offset
                < symbol.span.end_byte && same_text(
                symbol.resource_revision.as_str(),
                row.resource.resource_revision.as_str(),
            );
            if encloses_it {
                assert(encloses(*row, row.symbols@[at as int], byte_offset));
                match best {
                    None => {
                        best = Some(at);
                    },
                    Some(held) => {
                        let other = &row.symbols[held];
                        let length: usize = symbol.span.end_byte - symbol.span.start_byte;
                        let other_length: usize = other.span.end_byte - other.span.start_byte;
                        if length < other_length || (length == other_length && (
                        symbol.span.start_byte > other.span.start_byte || (symbol.span.start_byte
                            == other.span.start_byte && symbol.id.value < other.id.value))) {
                            best = Some(at);
                        }
                    },
                }
            }
            at = at + 1;
        }
        let found = coverage_from(row);
        let containing = match best {
            Some(held) => {
                assert(row.symbols@.contains(row.symbols@[held as int]));
                Some(
                    SymbolCandidate {
                        symbol: row.symbols[held].clone(),
                        path_rel: row.resource.path_rel.clone(),
                        coverage: found,
                    },
                )
            },
            None => None,
        };
        Ok(
            PositionResult {
                containing,
                coverage: found,
                currentness: self.currentness(),
                source: ResultSource::StructuralIndex,
            },
        )
    }
}

} // verus!
