//! The records of the Workspace index: identities, Resources, Symbols and
//! Occurrences.

use vstd::prelude::*;

use crate::text::copy_optional;

verus! {

// ---------------------------------------------------------------------
// Identities
// ---------------------------------------------------------------------

/// A Resource's stable identity. Sixteen bytes, read as one big-endian number, so that
/// the order of the numbers is the order of the bytes.
#[derive(Debug, Clone, Copy, PartialEq, Eq, PartialOrd, Ord, Hash, Structural)]
pub struct ResourceId {
    pub value: u128,
}

/// A Symbol's stable identity. Sixteen bytes, read as one big-endian number, so that
/// the order of the numbers is the order of the bytes.
#[derive(Debug, Clone, Copy, PartialEq, Eq, PartialOrd, Ord, Hash, Structural)]
pub struct SymbolId {
    pub value: u128,
}

/// A logical Symbol's stable identity. Sixteen bytes, read as one big-endian number, so that
/// the order of the numbers is the order of the bytes.
#[derive(Debug, Clone, Copy, PartialEq, Eq, PartialOrd, Ord, Hash, Structural)]
pub struct LogicalSymbolId {
    pub value: u128,
}

/// A Workspace's stable identity. Sixteen bytes, read as one big-endian number, so that
/// the order of the numbers is the order of the bytes.
#[derive(Debug, Clone, Copy, PartialEq, Eq, PartialOrd, Ord, Hash, Structural)]
pub struct WorkspaceId {
    pub value: u128,
}

/// A Project's stable identity. Sixteen bytes, read as one big-endian number, so that
/// the order of the numbers is the order of the bytes.
#[derive(Debug, Clone, Copy, PartialEq, Eq, PartialOrd, Ord, Hash, Structural)]
pub struct ProjectId {
    pub value: u128,
}

/// A Policy's stable identity. Sixteen bytes, read as one big-endian number, so that
/// the order of the numbers is the order of the bytes.
#[derive(Debug, Clone, Copy, PartialEq, Eq, PartialOrd, Ord, Hash, Structural)]
pub struct PolicyId {
    pub value: u128,
}

/// A Decision's stable identity. Sixteen bytes, read as one big-endian number, so that
/// the order of the numbers is the order of the bytes.
#[derive(Debug, Clone, Copy, PartialEq, Eq, PartialOrd, Ord, Hash, Structural)]
pub struct DecisionId {
    pub value: u128,
}

/// A WorkItem's stable identity. Sixteen bytes, read as one big-endian number, so that
/// the order of the numbers is the order of the bytes.
#[derive(Debug, Clone, Copy, PartialEq, Eq, PartialOrd, Ord, Hash, Structural)]
pub struct WorkItemId {
    pub value: u128,
}

// ---------------------------------------------------------------------
// Resources
// ---------------------------------------------------------------------

/// What a Resource is on disk.
#[derive(Debug, Clone, Copy, PartialEq, Eq, Structural)]
pub enum ResourceKind {
    File,
    Directory,
}

/// What a Resource is for.
#[derive(Debug, Clone, Copy, PartialEq, Eq, Structural)]
pub enum ResourceRole {
    Source,
    Test,
    Docs,
    Config,
    Other,
}

/// The language that a Resource is classified under.
#[derive(Debug, Clone, Copy, PartialEq, Eq, Structural)]
pub enum ResourceLanguage {
    Python,
    Rust,
    TypeScript,
    JavaScript,
    Svelte,
}

/// Whether a Resource is part of the current inventory.
#[derive(Debug, Clone, Copy, PartialEq, Eq, Structural)]
pub enum ResourceState {
    Active,
    /// A tombstone: it keeps the identity and nothing else.
    Deleted,
}

/// One row of the Resource inventory.
#[derive(Debug, PartialEq, Eq)]
pub struct Resource {
    pub id: ResourceId,
    pub path_rel: String,
    /// The path it is ordered and looked up by.
    pub path_key: String,
    pub kind: ResourceKind,
    pub role: ResourceRole,
    pub language: Option<ResourceLanguage>,
    pub size_bytes: u64,
    pub mtime_ns: i64,
    pub fingerprint: String,
    pub content_hash: Option<String>,
    pub state: ResourceState,
    pub resource_revision: String,
    pub generated_kind: Option<String>,
    pub container_resource_id: Option<ResourceId>,
}

impl Clone for Resource {
    fn clone(&self) -> (copy: Self)
        ensures
            copy == *self,
    {
        Resource {
            id: self.id,
            path_rel: self.path_rel.clone(),
            path_key: self.path_key.clone(),
            kind: self.kind,
            role: self.role,
            language: self.language,
            size_bytes: self.size_bytes,
            mtime_ns: self.mtime_ns,
            fingerprint: self.fingerprint.clone(),
            content_hash: copy_optional(&self.content_hash),
            state: self.state,
            resource_revision: self.resource_revision.clone(),
            generated_kind: copy_optional(&self.generated_kind),
            container_resource_id: self.container_resource_id,
        }
    }
}

// ---------------------------------------------------------------------
// Symbols and occurrences
// ---------------------------------------------------------------------

/// A place in a source file.
#[derive(Debug, Clone, Copy, PartialEq, Eq, Structural)]
pub struct SourcePoint {
    pub line: usize,
    pub column: usize,
}

/// From one byte of a source file up to another.
#[derive(Debug, Clone, Copy, PartialEq, Eq, Structural)]
pub struct SourceSpan {
    pub start_byte: usize,
    pub end_byte: usize,
    pub start: SourcePoint,
    pub end: SourcePoint,
}

/// What a declaration declares.
#[derive(Debug, Clone, Copy, PartialEq, Eq, Structural)]
pub enum SymbolKind {
    Module,
    Class,
    Function,
    Method,
    Variable,
}

/// Who may name a declaration.
#[derive(Debug, Clone, Copy, PartialEq, Eq, Structural)]
pub enum Visibility {
    Public,
    Private,
}

/// One declaration of a Resource.
#[derive(Debug, PartialEq, Eq)]
pub struct Symbol {
    pub id: SymbolId,
    pub resource_id: ResourceId,
    pub parent_id: Option<SymbolId>,
    pub kind: SymbolKind,
    pub name: String,
    pub qualified_name: String,
    pub signature: Option<String>,
    pub visibility: Visibility,
    pub exported: bool,
    pub span: SourceSpan,
    /// The Resource revision that it was extracted from.
    pub resource_revision: String,
    pub analysis_profile_id: i64,
}

impl Clone for Symbol {
    fn clone(&self) -> (copy: Self)
        ensures
            copy == *self,
    {
        Symbol {
            id: self.id,
            resource_id: self.resource_id,
            parent_id: self.parent_id,
            kind: self.kind,
            name: self.name.clone(),
            qualified_name: self.qualified_name.clone(),
            signature: copy_optional(&self.signature),
            visibility: self.visibility,
            exported: self.exported,
            span: self.span,
            resource_revision: self.resource_revision.clone(),
            analysis_profile_id: self.analysis_profile_id,
        }
    }
}

/// What a source site is.
#[derive(Debug, Clone, Copy, PartialEq, Eq, Structural)]
pub enum OccurrenceKind {
    ImportSite,
    CallSite,
    ReferenceSite,
    TypeSite,
    DeclarationSite,
}

/// One site in a Resource's source.
#[derive(Debug, PartialEq, Eq)]
pub struct Occurrence {
    pub kind: OccurrenceKind,
    pub span: SourceSpan,
    /// The Symbol that lexically contains it; none at file level.
    pub containing_symbol_id: Option<SymbolId>,
    pub resource_revision: String,
    pub generation_id: i64,
}

impl Clone for Occurrence {
    fn clone(&self) -> (copy: Self)
        ensures
            copy == *self,
    {
        Occurrence {
            kind: self.kind,
            span: self.span,
            containing_symbol_id: self.containing_symbol_id,
            resource_revision: self.resource_revision.clone(),
            generation_id: self.generation_id,
        }
    }
}

/// An Occurrence, by its kind and exact bytes.
#[derive(Debug, Clone, Copy, PartialEq, Eq, Structural)]
pub struct OccurrenceRef {
    pub kind: OccurrenceKind,
    pub start_byte: usize,
    pub end_byte: usize,
}

impl OccurrenceRef {
    /// Whether the Occurrence is the one referred to.
    pub open spec fn names(self, occurrence: Occurrence) -> bool {
        &&& occurrence.kind == self.kind
        &&& occurrence.span.start_byte == self.start_byte
        &&& occurrence.span.end_byte == self.end_byte
    }

    /// Whether the Occurrence is the one referred to.
    pub fn refers_to(&self, occurrence: &Occurrence) -> (held: bool)
        ensures
            held == self.names(*occurrence),
    {
        occurrence.kind == self.kind && occurrence.span.start_byte == self.start_byte
            && occurrence.span.end_byte == self.end_byte
    }
}

} // verus!
