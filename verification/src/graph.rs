//! Relations between the things that the index knows, and the gaps where
//! one could not be established.

use vstd::prelude::*;

use crate::model::{LogicalSymbolId, OccurrenceRef, ResourceId, SymbolId};
use crate::text::{copy_optional, optional_chars, same_optional, same_text, Chars};

verus! {

/// How one thing relates to another.
#[derive(Debug, Clone, Copy, PartialEq, Eq, Structural)]
pub enum RelationKind {
    Imports,
    Calls,
    References,
    UsesType,
    Extends,
    Implements,
    Overrides,
}

/// The relation that a site would have, had it resolved.
#[derive(Debug, Clone, Copy, PartialEq, Eq, Structural)]
pub enum IntendedRelation {
    Known(RelationKind),
    /// A base whose class or interface distinction could not be made.
    Inheritance,
}

/// Why a site did not resolve.
#[derive(Debug, Clone, Copy, PartialEq, Eq, Structural)]
pub enum UnresolvedReason {
    NoStructuralBinding,
    AmbiguousCandidates,
    MissingRelativeTarget,
    ImportTargetUnresolved,
    TypeSemanticsRequired,
}

/// Something outside the Workspace, by package and module.
#[derive(Debug, PartialEq, Eq)]
pub struct ExternalEntity {
    pub package_identity: String,
    pub module_identity: Option<String>,
    pub symbol_name: Option<String>,
    pub qualified_name: Option<String>,
    pub kind: String,
    pub resolved_version: Option<String>,
    pub declaration_locator: Option<String>,
}

pub ghost struct ExternalView {
    pub package_identity: Chars,
    pub module_identity: Option<Chars>,
    pub symbol_name: Option<Chars>,
    pub qualified_name: Option<Chars>,
    pub kind: Chars,
    pub resolved_version: Option<Chars>,
    pub declaration_locator: Option<Chars>,
}

impl View for ExternalEntity {
    type V = ExternalView;

    open spec fn view(&self) -> ExternalView {
        ExternalView {
            package_identity: self.package_identity@,
            module_identity: optional_chars(self.module_identity),
            symbol_name: optional_chars(self.symbol_name),
            qualified_name: optional_chars(self.qualified_name),
            kind: self.kind@,
            resolved_version: optional_chars(self.resolved_version),
            declaration_locator: optional_chars(self.declaration_locator),
        }
    }
}

impl Clone for ExternalEntity {
    fn clone(&self) -> (copy: Self)
        ensures
            copy == *self,
    {
        ExternalEntity {
            package_identity: self.package_identity.clone(),
            module_identity: copy_optional(&self.module_identity),
            symbol_name: copy_optional(&self.symbol_name),
            qualified_name: copy_optional(&self.qualified_name),
            kind: self.kind.clone(),
            resolved_version: copy_optional(&self.resolved_version),
            declaration_locator: copy_optional(&self.declaration_locator),
        }
    }
}

/// Something that a domain names, such as an environment variable.
#[derive(Debug, PartialEq, Eq)]
pub struct DomainEntity {
    pub kind: String,
    pub normalized_identity: String,
    pub namespace: Option<String>,
    pub method: Option<String>,
    pub display_label: String,
}

pub ghost struct DomainView {
    pub kind: Chars,
    pub normalized_identity: Chars,
    pub namespace: Option<Chars>,
    pub method: Option<Chars>,
    pub display_label: Chars,
}

impl View for DomainEntity {
    type V = DomainView;

    open spec fn view(&self) -> DomainView {
        DomainView {
            kind: self.kind@,
            normalized_identity: self.normalized_identity@,
            namespace: optional_chars(self.namespace),
            method: optional_chars(self.method),
            display_label: self.display_label@,
        }
    }
}

impl Clone for DomainEntity {
    fn clone(&self) -> (copy: Self)
        ensures
            copy == *self,
    {
        DomainEntity {
            kind: self.kind.clone(),
            normalized_identity: self.normalized_identity.clone(),
            namespace: copy_optional(&self.namespace),
            method: copy_optional(&self.method),
            display_label: self.display_label.clone(),
        }
    }
}

/// An end of a relation.
#[derive(Debug, PartialEq, Eq)]
pub enum GraphEndpoint {
    Resource(ResourceId),
    Symbol(SymbolId),
    Logical(LogicalSymbolId),
    External(ExternalEntity),
    Domain(DomainEntity),
}

pub ghost enum EndpointView {
    Resource(ResourceId),
    Symbol(SymbolId),
    Logical(LogicalSymbolId),
    External(ExternalView),
    Domain(DomainView),
}

impl View for GraphEndpoint {
    type V = EndpointView;

    open spec fn view(&self) -> EndpointView {
        match self {
            GraphEndpoint::Resource(id) => EndpointView::Resource(*id),
            GraphEndpoint::Symbol(id) => EndpointView::Symbol(*id),
            GraphEndpoint::Logical(id) => EndpointView::Logical(*id),
            GraphEndpoint::External(entity) => EndpointView::External(entity@),
            GraphEndpoint::Domain(entity) => EndpointView::Domain(entity@),
        }
    }
}

impl Clone for GraphEndpoint {
    fn clone(&self) -> (copy: Self)
        ensures
            copy == *self,
    {
        match self {
            GraphEndpoint::Resource(id) => GraphEndpoint::Resource(*id),
            GraphEndpoint::Symbol(id) => GraphEndpoint::Symbol(*id),
            GraphEndpoint::Logical(id) => GraphEndpoint::Logical(*id),
            GraphEndpoint::External(entity) => GraphEndpoint::External(entity.clone()),
            GraphEndpoint::Domain(entity) => GraphEndpoint::Domain(entity.clone()),
        }
    }
}

fn same_external(a: &ExternalEntity, b: &ExternalEntity) -> (same: bool)
    ensures
        same == (a@ == b@),
{
    same_text(a.package_identity.as_str(), b.package_identity.as_str()) && same_optional(
        &a.module_identity,
        &b.module_identity,
    ) && same_optional(&a.symbol_name, &b.symbol_name) && same_optional(
        &a.qualified_name,
        &b.qualified_name,
    ) && same_text(a.kind.as_str(), b.kind.as_str()) && same_optional(
        &a.resolved_version,
        &b.resolved_version,
    ) && same_optional(&a.declaration_locator, &b.declaration_locator)
}

fn same_domain(a: &DomainEntity, b: &DomainEntity) -> (same: bool)
    ensures
        same == (a@ == b@),
{
    same_text(a.kind.as_str(), b.kind.as_str()) && same_text(
        a.normalized_identity.as_str(),
        b.normalized_identity.as_str(),
    ) && same_optional(&a.namespace, &b.namespace) && same_optional(&a.method, &b.method)
        && same_text(a.display_label.as_str(), b.display_label.as_str())
}

/// Whether two endpoints are the same thing.
pub fn same_endpoint(a: &GraphEndpoint, b: &GraphEndpoint) -> (same: bool)
    ensures
        same == (a@ == b@),
{
    match (a, b) {
        (GraphEndpoint::Resource(left), GraphEndpoint::Resource(right)) => left == right,
        (GraphEndpoint::Symbol(left), GraphEndpoint::Symbol(right)) => left == right,
        (GraphEndpoint::Logical(left), GraphEndpoint::Logical(right)) => left == right,
        (GraphEndpoint::External(left), GraphEndpoint::External(right)) => same_external(
            left,
            right,
        ),
        (GraphEndpoint::Domain(left), GraphEndpoint::Domain(right)) => same_domain(left, right),
        _ => false,
    }
}

/// What endpoints are, in order.
pub open spec fn endpoints_view(endpoints: Seq<GraphEndpoint>) -> Seq<EndpointView> {
    endpoints.map_values(|endpoint: GraphEndpoint| endpoint@)
}

/// A site whose relation could not be established from structure alone.
#[derive(Debug, PartialEq, Eq)]
pub struct PersistedUnresolved {
    pub occurrence: OccurrenceRef,
    pub intended: IntendedRelation,
    /// The name that the site writes.
    pub lookup_name: String,
    /// The module or receiver that the name is written behind, if any.
    pub module_hint: Option<String>,
    pub reason: UnresolvedReason,
    pub candidate_truncated: bool,
    pub candidates: Vec<GraphEndpoint>,
    pub resolution_context_key: Option<String>,
}

} // verus!
