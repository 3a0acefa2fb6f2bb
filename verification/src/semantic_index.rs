//! What is published of semantic analysis, owner by owner, and what each
//! publication depends on.

use vstd::prelude::*;

use crate::fingerprint::{fingerprint_pairs, fingerprint_text, pairs_view, Fields};
use crate::model::{Resource, ResourceId, ResourceState};
use crate::semantic::{AnalysisContext, CapabilityReport, Support};
use crate::text::{
    copy_optional, decimal, decimal_text, is_before, joined, lemma_text_order_is_total,
    optional_chars, same_optional, same_text, text_before, Chars,
};

verus! {

/// The backend could not be asked.
pub const BACKEND_UNAVAILABLE_CODE: &'static str = "BACKEND_UNAVAILABLE";

/// A source that the publication depends on has moved.
pub const SOURCE_CHANGED_CODE: &'static str = "SOURCE_CHANGED";

/// The configuration that governs the analysis has changed.
pub const CONFIG_CHANGED_CODE: &'static str = "CONFIG_CHANGED";

/// The environment that imports resolve through has changed.
pub const ENVIRONMENT_CHANGED_CODE: &'static str = "ENVIRONMENT_CHANGED";

/// The environment looks the same, and nothing proves that it is.
pub const ENVIRONMENT_UNPROVEN_CODE: &'static str = "ENVIRONMENT_UNPROVEN";

/// The set of modules that imports resolve against has changed.
pub const INVENTORY_CHANGED_CODE: &'static str = "INVENTORY_CHANGED";

/// The analysis is no longer made the way it was.
pub const PROFILE_CHANGED_CODE: &'static str = "PROFILE_CHANGED";

/// The Workspace moved on while a candidate was being made.
pub const WORKSPACE_MOVED_CODE: &'static str = "WORKSPACE_MOVED";

// ---------------------------------------------------------------------
// Configuration
// ---------------------------------------------------------------------

/// The configuration that a result depends on, input by input.
#[derive(Debug, PartialEq, Eq)]
pub struct ConfigBasis {
    inputs: Vec<(String, String)>,
}

impl ConfigBasis {
    /// The inputs, in the order they were named.
    pub closed spec fn inputs(&self) -> Fields {
        pairs_view(self.inputs@)
    }

    /// What the fingerprint of the configuration is.
    pub open spec fn identity(&self) -> Chars {
        fingerprint_text("semantic-config-1"@, self.inputs())
    }

    pub fn new() -> (basis: Self)
        ensures
            basis.inputs() == Seq::<(Chars, Chars)>::empty(),
    {
        let basis = ConfigBasis { inputs: Vec::new() };
        assert(pairs_view(basis.inputs@) =~= Seq::empty());
        basis
    }

    /// The basis with one more input.
    pub fn with(self, name: &str, value: &str) -> (basis: Self)
        ensures
            basis.inputs() == self.inputs().push((name@, value@)),
    {
        let ghost held = pairs_view(self.inputs@);
        let mut inputs = self.inputs;
        inputs.push((name.to_owned(), value.to_owned()));
        assert(pairs_view(inputs@) =~= held.push((name@, value@)));
        ConfigBasis { inputs }
    }

    pub fn fingerprint(&self) -> (text: String)
        ensures
            text@ == self.identity(),
    {
        fingerprint_pairs("semantic-config-1", self.inputs.as_slice())
    }
}

// ---------------------------------------------------------------------
// Owners
// ---------------------------------------------------------------------

/// A Resource's contribution to one context: what is published, and goes
/// stale, on its own.
#[derive(Debug, PartialEq, Eq)]
pub struct SemanticOwner {
    pub context_key: String,
    pub owner: ResourceId,
}

pub ghost struct OwnerView {
    pub context_key: Chars,
    pub owner: ResourceId,
}

impl View for SemanticOwner {
    type V = OwnerView;

    open spec fn view(&self) -> OwnerView {
        OwnerView { context_key: self.context_key@, owner: self.owner }
    }
}

impl Clone for SemanticOwner {
    fn clone(&self) -> (copy: Self)
        ensures
            copy == *self,
    {
        SemanticOwner { context_key: self.context_key.clone(), owner: self.owner }
    }
}

impl SemanticOwner {
    pub fn new(context_key: &str, owner: ResourceId) -> (made: Self)
        ensures
            made@ == (OwnerView { context_key: context_key@, owner }),
    {
        SemanticOwner { context_key: context_key.to_owned(), owner }
    }
}

pub fn same_owner(a: &SemanticOwner, b: &SemanticOwner) -> (same: bool)
    ensures
        same == (a@ == b@),
{
    a.owner == b.owner && same_text(a.context_key.as_str(), b.context_key.as_str())
}

pub open spec fn owners_view(owners: Seq<SemanticOwner>) -> Seq<OwnerView> {
    owners.map_values(|owner: SemanticOwner| owner@)
}

/// Owners are ordered by context, then by Resource.
pub open spec fn owner_before(a: OwnerView, b: OwnerView) -> bool {
    text_before(a.context_key, b.context_key) || (a.context_key == b.context_key && a.owner.value
        < b.owner.value)
}

/// Each owner comes before the next, so that none occurs twice.
pub open spec fn in_owner_order(owners: Seq<OwnerView>) -> bool {
    forall|i: int, j: int| 0 <= i < j < owners.len() ==> owner_before(owners[i], owners[j])
}

proof fn lemma_owner_order(a: OwnerView, b: OwnerView, c: OwnerView)
    ensures
        owner_before(a, b) && owner_before(b, c) ==> owner_before(a, c),
        owner_before(a, b) ==> !owner_before(b, a),
        !owner_before(a, a),
        owner_before(a, b) || owner_before(b, a) || a == b,
{
    lemma_text_order_is_total(a.context_key, b.context_key, c.context_key);
    lemma_text_order_is_total(b.context_key, a.context_key, b.context_key);
    lemma_text_order_is_total(a.context_key, a.context_key, a.context_key);
}

fn owner_comes_before(a: &SemanticOwner, b: &SemanticOwner) -> (before: bool)
    ensures
        before == owner_before(a@, b@),
{
    is_before(a.context_key.as_str(), b.context_key.as_str()) || (same_text(
        a.context_key.as_str(),
        b.context_key.as_str(),
    ) && a.owner.value < b.owner.value)
}

/// Put an owner among others, in its place, unless it is among them.
pub fn add_owner(owners: &mut Vec<SemanticOwner>, owner: &SemanticOwner)
    requires
        in_owner_order(owners_view(old(owners)@)),
    ensures
        in_owner_order(owners_view(final(owners)@)),
        forall|other: OwnerView| #[trigger]
            owners_view(final(owners)@).contains(other) <==> other == owner@ || owners_view(
                old(owners)@,
            ).contains(other),
{
    let ghost held = owners_view(owners@);
    let mut at: usize = owners.len();
    while at > 0 && owner_comes_before(owner, &owners[at - 1])
        invariant
            at <= owners@.len(),
            held == owners_view(owners@),
            in_owner_order(held),
            forall|k: int| at <= k < held.len() ==> owner_before(owner@, #[trigger] held[k]),
        decreases at,
    {
        at = at - 1;
    }
    if at > 0 && same_owner(owner, &owners[at - 1]) {
        assert(held[at - 1] == owner@);
        return;
    }
    owners.insert(at, owner.clone());
    proof {
        let after = held.insert(at as int, owner@);
        assert(owners_view(owners@) =~= after);
        assert(after[at as int] == owner@);
        if at > 0 {
            lemma_owner_order(held[at - 1], owner@, owner@);
        }
        assert forall|i: int, j: int| 0 <= i < j < after.len() implies owner_before(
            after[i],
            after[j],
        ) by {
            if j < at {
                assert(owner_before(held[i], held[j]));
            } else if j == at {
                if i < at - 1 {
                    assert(owner_before(held[i], held[at - 1]));
                    lemma_owner_order(held[i], held[at - 1], owner@);
                }
            } else if i == at {
                assert(owner_before(owner@, held[j - 1]));
            } else if i < at {
                assert(owner_before(held[i], held[j - 1]));
            } else {
                assert(owner_before(held[i - 1], held[j - 1]));
            }
        }
        assert forall|other: OwnerView| #[trigger]
            after.contains(other) <==> other == owner@ || held.contains(other) by {
            if held.contains(other) {
                let k = choose|k: int| 0 <= k < held.len() && held[k] == other;
                if k < at {
                    assert(after[k] == other);
                } else {
                    assert(after[k + 1] == other);
                }
            }
            if after.contains(other) {
                let k = choose|k: int| 0 <= k < after.len() && after[k] == other;
                if k < at {
                    assert(held[k] == other);
                } else if k > at {
                    assert(held[k - 1] == other);
                }
            }
        }
    }
}

/// Whether an owner is among others.
pub fn holds_owner(owners: &[SemanticOwner], wanted: &SemanticOwner) -> (held: bool)
    ensures
        held == owners_view(owners@).contains(wanted@),
{
    let ghost all = owners_view(owners@);
    let mut at: usize = 0;
    while at < owners.len()
        invariant
            at <= owners@.len(),
            all == owners_view(owners@),
            forall|k: int| 0 <= k < at ==> all[k] != wanted@,
        decreases owners@.len() - at,
    {
        assert(all[at as int] == owners@[at as int]@);
        if same_owner(&owners[at], wanted) {
            return true;
        }
        at = at + 1;
    }
    false
}

// ---------------------------------------------------------------------
// What a publication depends on
// ---------------------------------------------------------------------

/// Everything that a publication was produced from.
#[derive(Debug, PartialEq, Eq)]
pub struct SemanticBasis {
    pub owner: ResourceId,
    /// Every Resource that the analysis read, with its revision.
    pub sources: Vec<(ResourceId, String)>,
    pub config_fingerprint: String,
    pub environment_fingerprint: String,
    pub inventory_fingerprint: Option<String>,
}

pub ghost struct SemanticBasisView {
    pub owner: ResourceId,
    pub sources: Sources,
    pub config: Chars,
    pub environment: Chars,
    pub inventory: Option<Chars>,
}

/// Resources, each with the revision that it was read at, by their ids.
pub type Sources = Seq<(ResourceId, Chars)>;

pub open spec fn sources_view(sources: Seq<(ResourceId, String)>) -> Sources {
    sources.map_values(|source: (ResourceId, String)| (source.0, source.1@))
}

impl View for SemanticBasis {
    type V = SemanticBasisView;

    open spec fn view(&self) -> SemanticBasisView {
        SemanticBasisView {
            owner: self.owner,
            sources: sources_view(self.sources@),
            config: self.config_fingerprint@,
            environment: self.environment_fingerprint@,
            inventory: optional_chars(self.inventory_fingerprint),
        }
    }
}

/// The sources, by their ids, with that one at that revision: what it stood
/// at before is replaced.
pub open spec fn with_source_at(sources: Sources, resource: ResourceId, revision: Chars) -> Sources
    decreases sources.len(),
{
    if sources.len() == 0 || sources.last().0.value < resource.value {
        sources.push((resource, revision))
    } else if sources.last().0 == resource {
        sources.drop_last().push((resource, revision))
    } else {
        with_source_at(sources.drop_last(), resource, revision).push(sources.last())
    }
}

proof fn lemma_source_at(sources: Sources, resource: ResourceId, revision: Chars, at: int)
    requires
        0 <= at <= sources.len(),
        forall|k: int| at <= k < sources.len() ==> (#[trigger] sources[k]).0.value > resource.value,
    ensures
        with_source_at(sources, resource, revision) == with_source_at(
            sources.take(at),
            resource,
            revision,
        ) + sources.skip(at),
    decreases sources.len(),
{
    if at == sources.len() {
        assert(sources.take(at) =~= sources);
        assert(with_source_at(sources, resource, revision) + sources.skip(at) =~= with_source_at(
            sources,
            resource,
            revision,
        ));
    } else {
        let rest = sources.drop_last();
        assert forall|k: int| at <= k < rest.len() implies (#[trigger] rest[k]).0.value
            > resource.value by {
            assert(rest[k] == sources[k]);
        }
        assert(sources[sources.len() - 1].0.value > resource.value);
        lemma_source_at(rest, resource, revision, at);
        assert(rest.take(at) =~= sources.take(at));
        assert(rest.skip(at).push(sources.last()) =~= sources.skip(at));
        assert((with_source_at(sources.take(at), resource, revision) + rest.skip(at)).push(
            sources.last(),
        ) =~= with_source_at(sources.take(at), resource, revision) + sources.skip(at));
    }
}

/// Put a source at a revision, keeping the sources by their ids.
pub fn put_source(sources: &mut Vec<(ResourceId, String)>, resource: ResourceId, revision: String)
    ensures
        sources_view(final(sources)@) == with_source_at(
            sources_view(old(sources)@),
            resource,
            revision@,
        ),
{
    let ghost held = sources_view(sources@);
    let mut at: usize = sources.len();
    while at > 0 && sources[at - 1].0.value > resource.value
        invariant
            at <= sources@.len(),
            held == sources_view(sources@),
            forall|k: int|
                at <= k < sources@.len() ==> (#[trigger] held[k]).0.value > resource.value,
        decreases at,
    {
        assert(held[at - 1].0 == sources@[at - 1].0);
        at = at - 1;
    }
    proof {
        lemma_source_at(held, resource, revision@, at as int);
        if at > 0 {
            assert(held[at - 1].0 == sources@[at - 1].0);
            assert(held.take(at as int).last() == held[at - 1]);
        }
    }
    if at > 0 && sources[at - 1].0 == resource {
        sources.set(at - 1, (resource, revision));
        assert(sources_view(sources@) =~= held.take(at as int).drop_last().push(
            (resource, revision@),
        ) + held.skip(at as int));
    } else {
        sources.insert(at, (resource, revision));
        assert(sources_view(sources@) =~= held.take(at as int).push((resource, revision@))
            + held.skip(at as int));
    }
}

/// Whether the sources are by their ids, each once.
pub open spec fn by_id(sources: Sources) -> bool {
    forall|i: int, j: int|
        0 <= i < j < sources.len() ==> (#[trigger] sources[i]).0.value < (
        #[trigger] sources[j]).0.value
}

/// Putting a source keeps the sources by their ids, each once. It stands at
/// the revision that it was put at last, and every other source as it stood.
pub proof fn lemma_a_source_stands_as_it_was_put_last(
    sources: Sources,
    resource: ResourceId,
    revision: Chars,
)
    requires
        by_id(sources),
    ensures
        by_id(with_source_at(sources, resource, revision)),
        forall|source: (ResourceId, Chars)| #[trigger]
            with_source_at(sources, resource, revision).contains(source) <==> if source.0
                == resource {
                source.1 == revision
            } else {
                sources.contains(source)
            },
    decreases sources.len(),
{
    let after = with_source_at(sources, resource, revision);
    if sources.len() == 0 || sources.last().0.value < resource.value {
        assert forall|source: (ResourceId, Chars)| #[trigger] after.contains(source)
            <==> if source.0 == resource {
            source.1 == revision
        } else {
            sources.contains(source)
        } by {
            assert(after[sources.len() as int] == (resource, revision));
            if sources.contains(source) {
                let k = choose|k: int| 0 <= k < sources.len() && sources[k] == source;
                assert(after[k] == source);
                assert(sources[k].0.value <= sources.last().0.value);
            }
            if after.contains(source) && source.0 != resource {
                let k = choose|k: int| 0 <= k < after.len() && after[k] == source;
                assert(sources[k] == source);
            }
        }
    } else {
        let rest = sources.drop_last();
        let last = sources.last();
        assert(by_id(rest)) by {
            assert forall|i: int, j: int| 0 <= i < j < rest.len() implies (
            #[trigger] rest[i]).0.value < (#[trigger] rest[j]).0.value by {
                assert(rest[i] == sources[i] && rest[j] == sources[j]);
            }
        }
        assert forall|source: (ResourceId, Chars)| rest.contains(source) implies source.0.value
            < last.0.value by {
            let k = choose|k: int| 0 <= k < rest.len() && rest[k] == source;
            assert(sources[k] == source && sources[sources.len() - 1] == last);
        }
        assert forall|source: (ResourceId, Chars)| #[trigger] sources.contains(source)
            <==> rest.contains(source) || source == last by {
            if sources.contains(source) {
                let k = choose|k: int| 0 <= k < sources.len() && sources[k] == source;
                if k < rest.len() {
                    assert(rest[k] == source);
                }
            }
            if rest.contains(source) {
                let k = choose|k: int| 0 <= k < rest.len() && rest[k] == source;
                assert(sources[k] == source);
            }
            assert(sources[sources.len() - 1] == last);
        }
        let body = if last.0 == resource {
            rest
        } else {
            with_source_at(rest, resource, revision)
        };
        let tip = if last.0 == resource {
            (resource, revision)
        } else {
            last
        };
        assert(after == body.push(tip));
        if last.0 != resource {
            lemma_a_source_stands_as_it_was_put_last(rest, resource, revision);
        }
        assert forall|source: (ResourceId, Chars)| #[trigger] after.contains(source)
            <==> body.contains(source) || source == tip by {
            if after.contains(source) {
                let k = choose|k: int| 0 <= k < after.len() && after[k] == source;
                if k < body.len() {
                    assert(body[k] == source);
                }
            }
            if body.contains(source) {
                let k = choose|k: int| 0 <= k < body.len() && body[k] == source;
                assert(after[k] == source);
            }
            assert(after[body.len() as int] == tip);
        }
        assert(resource.value <= last.0.value);
        assert forall|i: int, j: int| 0 <= i < j < after.len() implies (
        #[trigger] after[i]).0.value < (#[trigger] after[j]).0.value by {
            assert(after[i] == body[i]);
            assert(body.contains(body[i]));
            if j < body.len() {
                assert(after[j] == body[j]);
            }
        }
    }
}

/// Whether the publication depends on the Resource.
pub open spec fn reads_resource(basis: SemanticBasisView, resource: ResourceId) -> bool {
    exists|i: int| 0 <= i < basis.sources.len() && (#[trigger] basis.sources[i]).0 == resource
}

fn copy_sources(sources: &[(ResourceId, String)]) -> (copies: Vec<(ResourceId, String)>)
    ensures
        sources_view(copies@) == sources_view(sources@),
{
    let mut copies: Vec<(ResourceId, String)> = Vec::new();
    let mut at: usize = 0;
    while at < sources.len()
        invariant
            at <= sources@.len(),
            copies@.len() == at,
            forall|i: int| 0 <= i < at ==> (#[trigger] copies@[i]) == sources@[i],
        decreases sources@.len() - at,
    {
        copies.push((sources[at].0, sources[at].1.clone()));
        at = at + 1;
    }
    assert(sources_view(copies@) =~= sources_view(sources@));
    copies
}

impl Clone for SemanticBasis {
    fn clone(&self) -> (copy: Self)
        ensures
            copy@ == self@,
    {
        SemanticBasis {
            owner: self.owner,
            sources: copy_sources(self.sources.as_slice()),
            config_fingerprint: self.config_fingerprint.clone(),
            environment_fingerprint: self.environment_fingerprint.clone(),
            inventory_fingerprint: copy_optional(&self.inventory_fingerprint),
        }
    }
}

impl SemanticBasis {
    pub fn new(context: &AnalysisContext, config: &ConfigBasis, owner: ResourceId) -> (basis: Self)
        ensures
            basis@ == (SemanticBasisView {
                owner,
                sources: Seq::empty(),
                config: config.identity(),
                environment: context.toolchain.environment_fingerprint@,
                inventory: None,
            }),
    {
        let basis = SemanticBasis {
            owner,
            sources: Vec::new(),
            config_fingerprint: config.fingerprint(),
            environment_fingerprint: context.toolchain.environment_fingerprint.clone(),
            inventory_fingerprint: None,
        };
        assert(sources_view(basis.sources@) =~= Seq::empty());
        basis
    }

    /// The basis with a Resource that was read, at that revision.
    pub fn with_source(self, resource: ResourceId, revision: &str) -> (basis: Self)
        ensures
            basis@ == (SemanticBasisView {
                sources: with_source_at(self@.sources, resource, revision@),
                ..self@
            }),
    {
        let mut sources = self.sources;
        put_source(&mut sources, resource, revision.to_owned());
        SemanticBasis {
            owner: self.owner,
            sources,
            config_fingerprint: self.config_fingerprint,
            environment_fingerprint: self.environment_fingerprint,
            inventory_fingerprint: self.inventory_fingerprint,
        }
    }

    /// The basis with the set of modules that imports resolved against.
    pub fn with_inventory(self, inventory: String) -> (basis: Self)
        ensures
            basis@ == (SemanticBasisView { inventory: Some(inventory@), ..self@ }),
    {
        SemanticBasis {
            owner: self.owner,
            sources: self.sources,
            config_fingerprint: self.config_fingerprint,
            environment_fingerprint: self.environment_fingerprint,
            inventory_fingerprint: Some(inventory),
        }
    }

    /// Whether the publication depends on the Resource.
    pub fn depends_on(&self, resource: ResourceId) -> (held: bool)
        ensures
            held == reads_resource(self@, resource),
    {
        let ghost all = sources_view(self.sources@);
        let mut at: usize = 0;
        while at < self.sources.len()
            invariant
                at <= self.sources@.len(),
                all == sources_view(self.sources@),
                all == self@.sources,
                forall|k: int| 0 <= k < at ==> (#[trigger] all[k]).0 != resource,
            decreases self.sources@.len() - at,
        {
            assert(all[at as int].0 == self.sources@[at as int].0);
            if self.sources[at].0 == resource {
                return true;
            }
            at = at + 1;
        }
        false
    }
}

/// The inputs as they are now, which a publication is validated against.
#[derive(Debug, PartialEq, Eq)]
pub struct CurrentInputs {
    pub config_fingerprint: String,
    pub environment_fingerprint: String,
    pub profile_fingerprint: String,
    pub inventory_fingerprint: Option<String>,
    /// Whether the environment fingerprint is worth comparing.
    pub environment_proven: bool,
}

impl CurrentInputs {
    pub fn new(
        context: &AnalysisContext,
        config: &ConfigBasis,
        capabilities: &CapabilityReport,
    ) -> (inputs: Self)
        ensures
            inputs.config_fingerprint@ == config.identity(),
            inputs.environment_fingerprint@ == context.toolchain.environment_fingerprint@,
            inputs.profile_fingerprint@ == capabilities.identity(),
            inputs.inventory_fingerprint is None,
            inputs.environment_proven,
    {
        CurrentInputs {
            config_fingerprint: config.fingerprint(),
            environment_fingerprint: context.toolchain.environment_fingerprint.clone(),
            profile_fingerprint: capabilities.fingerprint(),
            inventory_fingerprint: None,
            environment_proven: true,
        }
    }

    pub fn with_inventory(self, inventory: &str) -> (inputs: Self)
        ensures
            optional_chars(inputs.inventory_fingerprint) == Some(inventory@),
            inputs.config_fingerprint == self.config_fingerprint,
            inputs.environment_fingerprint == self.environment_fingerprint,
            inputs.profile_fingerprint == self.profile_fingerprint,
            inputs.environment_proven == self.environment_proven,
    {
        CurrentInputs {
            config_fingerprint: self.config_fingerprint,
            environment_fingerprint: self.environment_fingerprint,
            profile_fingerprint: self.profile_fingerprint,
            inventory_fingerprint: Some(inventory.to_owned()),
            environment_proven: self.environment_proven,
        }
    }

    pub fn with_environment_proven(self, proven: bool) -> (inputs: Self)
        ensures
            inputs == (CurrentInputs { environment_proven: proven, ..self }),
    {
        CurrentInputs {
            config_fingerprint: self.config_fingerprint,
            environment_fingerprint: self.environment_fingerprint,
            profile_fingerprint: self.profile_fingerprint,
            inventory_fingerprint: self.inventory_fingerprint,
            environment_proven: proven,
        }
    }
}

// ---------------------------------------------------------------------
// Status
// ---------------------------------------------------------------------

/// Whether a publication may be served as current.
#[derive(Debug, Clone, Copy, PartialEq, Eq, Structural)]
pub enum SemanticState {
    /// Nothing was ever published.
    Unpublished,
    Current,
    Dirty,
    Unavailable,
}

/// What is known of one owner's publication.
#[derive(Debug, PartialEq, Eq)]
pub struct SemanticStatus {
    pub state: SemanticState,
    pub support: Option<Support>,
    /// The last generation that was published, which stays readable.
    pub stable_generation_id: Option<i64>,
    pub basis: Option<SemanticBasis>,
    pub last_error_code: Option<String>,
}

pub ghost struct StatusView {
    pub state: SemanticState,
    pub support: Option<Support>,
    pub stable_generation_id: Option<i64>,
    pub basis: Option<SemanticBasisView>,
    pub last_error_code: Option<Chars>,
}

pub open spec fn optional_basis(basis: Option<SemanticBasis>) -> Option<SemanticBasisView> {
    match basis {
        Some(held) => Some(held@),
        None => None,
    }
}

impl View for SemanticStatus {
    type V = StatusView;

    open spec fn view(&self) -> StatusView {
        StatusView {
            state: self.state,
            support: self.support,
            stable_generation_id: self.stable_generation_id,
            basis: optional_basis(self.basis),
            last_error_code: optional_chars(self.last_error_code),
        }
    }
}

pub open spec fn no_status() -> StatusView {
    StatusView {
        state: SemanticState::Unpublished,
        support: None,
        stable_generation_id: None,
        basis: None,
        last_error_code: None,
    }
}

impl Clone for SemanticStatus {
    fn clone(&self) -> (copy: Self)
        ensures
            copy@ == self@,
    {
        let basis = match &self.basis {
            Some(held) => Some(held.clone()),
            None => None,
        };
        SemanticStatus {
            state: self.state,
            support: self.support,
            stable_generation_id: self.stable_generation_id,
            basis,
            last_error_code: copy_optional(&self.last_error_code),
        }
    }
}

impl SemanticStatus {
    /// The status of an owner that nothing was published for.
    pub fn none() -> (status: Self)
        ensures
            status@ == no_status(),
    {
        SemanticStatus {
            state: SemanticState::Unpublished,
            support: None,
            stable_generation_id: None,
            basis: None,
            last_error_code: None,
        }
    }

    pub fn is_current(&self) -> (current: bool)
        ensures
            current == (self@.state == SemanticState::Current),
    {
        self.state == SemanticState::Current
    }

    /// Whether an answer was ever published that is still there.
    pub fn has_last_valid(&self) -> (held: bool)
        ensures
            held == self@.stable_generation_id is Some,
    {
        self.stable_generation_id.is_some()
    }
}

// ---------------------------------------------------------------------
// The index
// ---------------------------------------------------------------------

/// One owner's publication.
#[derive(Debug, PartialEq, Eq)]
pub struct PublicationRow {
    pub owner: SemanticOwner,
    pub status: SemanticStatus,
    /// How the analysis was made.
    pub profile_fingerprint: String,
}

pub ghost struct RowView {
    pub owner: OwnerView,
    pub status: StatusView,
    pub profile: Chars,
}

impl View for PublicationRow {
    type V = RowView;

    open spec fn view(&self) -> RowView {
        RowView {
            owner: self.owner@,
            status: self.status@,
            profile: self.profile_fingerprint@,
        }
    }
}

pub open spec fn rows_view(rows: Seq<PublicationRow>) -> Seq<RowView> {
    rows.map_values(|row: PublicationRow| row@)
}

/// The publications of every owner, one row for each.
#[derive(Debug)]
pub struct SemanticIndex {
    rows: Vec<PublicationRow>,
}

/// The place of an owner's row: the number of rows where it has none.
pub open spec fn row_of(rows: Seq<RowView>, owner: OwnerView) -> int
    decreases rows.len(),
{
    if rows.len() == 0 {
        0
    } else if rows[0].owner == owner {
        0
    } else {
        1 + row_of(rows.skip(1), owner)
    }
}

/// What is known of an owner's publication.
pub open spec fn status_in(rows: Seq<RowView>, owner: OwnerView) -> StatusView {
    let at = row_of(rows, owner);
    if at < rows.len() {
        rows[at].status
    } else {
        no_status()
    }
}

/// A status that stops being current: the last publication stays readable.
pub open spec fn marked(status: StatusView, state: SemanticState, code: Chars) -> StatusView {
    StatusView { state, last_error_code: Some(code), ..status }
}

/// The rows with one owner marked. An owner without a row gets one.
pub open spec fn with_mark(
    rows: Seq<RowView>,
    owner: OwnerView,
    state: SemanticState,
    code: Chars,
) -> Seq<RowView> {
    let at = row_of(rows, owner);
    if at < rows.len() {
        rows.update(at, RowView { status: marked(rows[at].status, state, code), ..rows[at] })
    } else {
        rows.push(
            RowView { owner, status: marked(no_status(), state, code), profile: Seq::empty() },
        )
    }
}

/// The rows with what was published for one owner.
pub open spec fn with_publication(rows: Seq<RowView>, published: RowView) -> Seq<RowView> {
    let at = row_of(rows, published.owner);
    if at < rows.len() {
        rows.update(at, published)
    } else {
        rows.push(published)
    }
}

/// Whether a Resource is there at that revision.
pub open spec fn stands_at(
    resources: Seq<Resource>,
    resource: ResourceId,
    revision: Chars,
) -> bool {
    exists|i: int|
        0 <= i < resources.len() && (#[trigger] resources[i]).id == resource && resources[i].state
            == ResourceState::Active && resources[i].resource_revision@ == revision
}

/// Whether every source that was read is still there as it was.
pub open spec fn sources_stand(
    sources: Sources,
    resources: Seq<Resource>,
) -> bool {
    forall|i: int|
        0 <= i < sources.len() ==> stands_at(resources, (#[trigger] sources[i]).0, sources[i].1)
}

/// The first source that is gone, or at another revision.
pub open spec fn fallen_source(
    sources: Sources,
    resources: Seq<Resource>,
) -> Option<ResourceId>
    decreases sources.len(),
{
    if sources.len() == 0 {
        None
    } else if !stands_at(resources, sources[0].0, sources[0].1) {
        Some(sources[0].0)
    } else {
        fallen_source(sources.skip(1), resources)
    }
}

/// Why an analysis no longer describes anything: what it was made from has
/// moved.
#[derive(Debug, Clone, Copy, PartialEq, Eq, Structural)]
pub enum ObsoleteReason {
    /// A source that was read is gone, or at another revision.
    SourceRevisionMoved { resource: ResourceId },
    ConfigMoved,
    EnvironmentMoved,
    /// The environment looks the same, and nothing proves that it is.
    EnvironmentUnproven,
    InventoryMoved,
    /// The analysis is no longer made the way it was.
    ProfileMoved,
    /// The Workspace moved on after the candidate was begun.
    WorkspaceMoved,
}

/// The first input of an analysis that no longer holds.
pub open spec fn obsolete_reason(
    basis: SemanticBasisView,
    profile: Chars,
    current: CurrentInputs,
    resources: Seq<Resource>,
) -> Option<ObsoleteReason> {
    match fallen_source(basis.sources, resources) {
        Some(resource) => Some(ObsoleteReason::SourceRevisionMoved { resource }),
        None => if basis.config != current.config_fingerprint@ {
            Some(ObsoleteReason::ConfigMoved)
        } else if basis.environment != current.environment_fingerprint@ {
            Some(ObsoleteReason::EnvironmentMoved)
        } else if !current.environment_proven {
            Some(ObsoleteReason::EnvironmentUnproven)
        } else if basis.inventory != optional_chars(current.inventory_fingerprint) {
            Some(ObsoleteReason::InventoryMoved)
        } else if profile != current.profile_fingerprint@ {
            Some(ObsoleteReason::ProfileMoved)
        } else {
            None
        },
    }
}

/// The code that a reason is recorded under.
pub open spec fn reason_code(reason: ObsoleteReason) -> Chars {
    match reason {
        ObsoleteReason::SourceRevisionMoved { .. } => SOURCE_CHANGED_CODE@,
        ObsoleteReason::ConfigMoved => CONFIG_CHANGED_CODE@,
        ObsoleteReason::EnvironmentMoved => ENVIRONMENT_CHANGED_CODE@,
        ObsoleteReason::EnvironmentUnproven => ENVIRONMENT_UNPROVEN_CODE@,
        ObsoleteReason::InventoryMoved => INVENTORY_CHANGED_CODE@,
        ObsoleteReason::ProfileMoved => PROFILE_CHANGED_CODE@,
        ObsoleteReason::WorkspaceMoved => WORKSPACE_MOVED_CODE@,
    }
}

impl ObsoleteReason {
    /// The code that the reason is recorded under.
    pub fn code(self) -> (code: &'static str)
        ensures
            code@ == reason_code(self),
    {
        match self {
            ObsoleteReason::SourceRevisionMoved { .. } => SOURCE_CHANGED_CODE,
            ObsoleteReason::ConfigMoved => CONFIG_CHANGED_CODE,
            ObsoleteReason::EnvironmentMoved => ENVIRONMENT_CHANGED_CODE,
            ObsoleteReason::EnvironmentUnproven => ENVIRONMENT_UNPROVEN_CODE,
            ObsoleteReason::InventoryMoved => INVENTORY_CHANGED_CODE,
            ObsoleteReason::ProfileMoved => PROFILE_CHANGED_CODE,
            ObsoleteReason::WorkspaceMoved => WORKSPACE_MOVED_CODE,
        }
    }
}

/// Why nothing was published.
#[derive(Debug, PartialEq, Eq)]
pub enum SemanticIndexError {
    /// What the candidate was made from no longer holds.
    Obsolete { generation_id: i64, reason: ObsoleteReason },
    ClockNotBootstrapped,
    /// The index could not be read or written.
    Store(String),
}

/// An index error in words.
pub open spec fn index_words(error: SemanticIndexError) -> Chars {
    match error {
        SemanticIndexError::Obsolete { generation_id, reason } => "generation "@ + decimal(
            generation_id as int,
        ) + " is obsolete: "@ + reason_code(reason),
        SemanticIndexError::ClockNotBootstrapped => "the workspace clock is not bootstrapped"@,
        SemanticIndexError::Store(detail) => detail@,
    }
}

impl SemanticIndexError {
    /// The error in words.
    pub fn message(&self) -> (text: String)
        ensures
            text@ == index_words(*self),
    {
        match self {
            SemanticIndexError::Obsolete { generation_id, reason } => {
                let mut text = joined("generation ", decimal_text(*generation_id).as_str());
                text.append(" is obsolete: ");
                text.append(reason.code());
                text
            },
            SemanticIndexError::ClockNotBootstrapped => {
                "the workspace clock is not bootstrapped".to_owned()
            },
            SemanticIndexError::Store(detail) => detail.clone(),
        }
    }
}

/// An analysis that is to be published.
#[derive(Debug, PartialEq, Eq)]
pub struct SemanticCandidate {
    pub owner: SemanticOwner,
    pub basis: SemanticBasis,
    pub profile_fingerprint: String,
    pub support: Support,
    pub generation_id: i64,
    /// The Workspace revision that the candidate was begun at.
    pub workspace_revision: String,
}

/// What was published.
#[derive(Debug, PartialEq, Eq)]
pub struct SemanticPublication {
    pub generation_id: i64,
    pub basis: SemanticBasis,
}

/// Why a candidate may not be published any more.
pub open spec fn candidate_obsolete(
    candidate: SemanticCandidate,
    current: CurrentInputs,
    resources: Seq<Resource>,
    workspace_revision: Chars,
) -> Option<ObsoleteReason> {
    match obsolete_reason(
        candidate.basis@,
        candidate.profile_fingerprint@,
        current,
        resources,
    ) {
        Some(reason) => Some(reason),
        None => if candidate.workspace_revision@ != workspace_revision {
            Some(ObsoleteReason::WorkspaceMoved)
        } else {
            None
        },
    }
}

/// The row that a candidate is published as.
pub open spec fn published_row(candidate: SemanticCandidate) -> RowView {
    RowView {
        owner: candidate.owner@,
        status: StatusView {
            state: SemanticState::Current,
            support: Some(candidate.support),
            stable_generation_id: Some(candidate.generation_id),
            basis: Some(candidate.basis@),
            last_error_code: None,
        },
        profile: candidate.profile_fingerprint@,
    }
}

/// The status of a row once its inputs were checked: a current publication
/// whose inputs moved is dirty, and everything else stays as it is.
pub open spec fn revalidated(
    row: RowView,
    current: CurrentInputs,
    resources: Seq<Resource>,
) -> StatusView {
    match row.status.basis {
        Some(basis) => if row.status.state == SemanticState::Current {
            match obsolete_reason(basis, row.profile, current, resources) {
                Some(reason) => marked(row.status, SemanticState::Dirty, reason_code(reason)),
                None => row.status,
            }
        } else {
            row.status
        },
        None => row.status,
    }
}

proof fn lemma_row_of(rows: Seq<RowView>, owner: OwnerView)
    ensures
        0 <= row_of(rows, owner) <= rows.len(),
        row_of(rows, owner) < rows.len() ==> rows[row_of(rows, owner)].owner == owner,
        forall|k: int| 0 <= k < row_of(rows, owner) ==> (#[trigger] rows[k]).owner != owner,
    decreases rows.len(),
{
    if rows.len() > 0 && rows[0].owner != owner {
        lemma_row_of(rows.skip(1), owner);
        assert forall|k: int| 0 <= k < row_of(rows, owner) implies (#[trigger] rows[k]).owner
            != owner by {
            if k > 0 {
                assert(rows.skip(1)[k - 1] == rows[k]);
            }
        }
    }
}

proof fn lemma_row_at(rows: Seq<RowView>, owner: OwnerView, at: int)
    requires
        0 <= at <= rows.len(),
        at < rows.len() ==> rows[at].owner == owner,
        forall|k: int| 0 <= k < at ==> (#[trigger] rows[k]).owner != owner,
    ensures
        row_of(rows, owner) == at,
    decreases rows.len(),
{
    if rows.len() > 0 && rows[0].owner != owner {
        assert forall|k: int| 0 <= k < at - 1 implies (#[trigger] rows.skip(1)[k]).owner
            != owner by {
            assert(rows.skip(1)[k] == rows[k + 1]);
        }
        lemma_row_at(rows.skip(1), owner, at - 1);
    }
}

/// Marking one owner leaves every other owner's publication as it was, and
/// keeps the marked one's last valid answer readable.
pub proof fn lemma_marking_is_local(
    rows: Seq<RowView>,
    owner: OwnerView,
    state: SemanticState,
    code: Chars,
    other: OwnerView,
)
    ensures
        status_in(with_mark(rows, owner, state, code), owner) == marked(
            status_in(rows, owner),
            state,
            code,
        ),
        other != owner ==> status_in(with_mark(rows, owner, state, code), other) == status_in(
            rows,
            other,
        ),
{
    lemma_row_of(rows, owner);
    lemma_row_of(rows, other);
    let after = with_mark(rows, owner, state, code);
    let at = row_of(rows, owner);
    lemma_row_at(after, owner, at);
    if other != owner {
        let there = row_of(rows, other);
        if there < rows.len() {
            lemma_row_at(after, other, there);
        } else {
            lemma_row_at(after, other, after.len() as int);
        }
    }
}

/// A source stands in the way of a publication exactly where one of them
/// does not stand as it was read.
pub proof fn lemma_a_moved_source_is_noticed(
    sources: Sources,
    resources: Seq<Resource>,
)
    ensures
        fallen_source(sources, resources) is None <==> sources_stand(sources, resources),
    decreases sources.len(),
{
    if sources.len() > 0 {
        let rest = sources.skip(1);
        lemma_a_moved_source_is_noticed(rest, resources);
        assert(forall|i: int| 0 <= i < rest.len() ==> (#[trigger] rest[i]) == sources[i + 1]);
        assert(forall|i: int| 1 <= i < sources.len() ==> (#[trigger] sources[i]) == rest[i - 1]);
    }
}

/// Publishing one owner's analysis neither vouches for nor dirties another.
pub proof fn lemma_publishing_is_local(rows: Seq<RowView>, published: RowView, other: OwnerView)
    ensures
        status_in(with_publication(rows, published), published.owner) == published.status,
        other != published.owner ==> status_in(with_publication(rows, published), other)
            == status_in(rows, other),
{
    lemma_row_of(rows, published.owner);
    lemma_row_of(rows, other);
    let after = with_publication(rows, published);
    let at = row_of(rows, published.owner);
    lemma_row_at(after, published.owner, at);
    if other != published.owner {
        let there = row_of(rows, other);
        if there < rows.len() {
            lemma_row_at(after, other, there);
        } else {
            lemma_row_at(after, other, after.len() as int);
        }
    }
}

/// Publishing for an owner again replaces what was published: it is as if
/// only the later one had been.
pub proof fn lemma_publishing_again_replaces(rows: Seq<RowView>, before: RowView, after: RowView)
    requires
        before.owner == after.owner,
    ensures
        with_publication(with_publication(rows, before), after) == with_publication(rows, after),
        with_publication(rows, after).len() == with_publication(rows, before).len(),
{
    lemma_row_of(rows, before.owner);
    lemma_row_at(with_publication(rows, before), before.owner, row_of(rows, before.owner));
    assert(with_publication(with_publication(rows, before), after) =~= with_publication(
        rows,
        after,
    ));
}

/// Publishing the same analysis again, or marking an owner the same way
/// again, changes nothing.
pub proof fn lemma_repeating_changes_nothing(
    rows: Seq<RowView>,
    published: RowView,
    owner: OwnerView,
    state: SemanticState,
    code: Chars,
)
    ensures
        with_publication(with_publication(rows, published), published) == with_publication(
            rows,
            published,
        ),
        with_mark(with_mark(rows, owner, state, code), owner, state, code) == with_mark(
            rows,
            owner,
            state,
            code,
        ),
{
    lemma_row_of(rows, published.owner);
    lemma_row_at(
        with_publication(rows, published),
        published.owner,
        row_of(rows, published.owner),
    );
    assert(with_publication(with_publication(rows, published), published) =~= with_publication(
        rows,
        published,
    ));
    lemma_row_of(rows, owner);
    lemma_row_at(with_mark(rows, owner, state, code), owner, row_of(rows, owner));
    assert(with_mark(with_mark(rows, owner, state, code), owner, state, code) =~= with_mark(
        rows,
        owner,
        state,
        code,
    ));
}

/// An owner has a row, and marking it that way would change nothing.
pub open spec fn settled(
    rows: Seq<RowView>,
    owner: OwnerView,
    state: SemanticState,
    code: Chars,
) -> bool {
    row_of(rows, owner) < rows.len() && with_mark(rows, owner, state, code) == rows
}

/// A marked owner is settled, and stays so while others are marked.
pub proof fn lemma_marking_settles(
    rows: Seq<RowView>,
    owner: OwnerView,
    state: SemanticState,
    code: Chars,
    other: OwnerView,
)
    ensures
        settled(with_mark(rows, owner, state, code), owner, state, code),
        settled(rows, other, state, code) ==> settled(
            with_mark(rows, owner, state, code),
            other,
            state,
            code,
        ),
{
    let after = with_mark(rows, owner, state, code);
    lemma_row_of(rows, owner);
    lemma_row_of(rows, other);
    lemma_row_at(after, owner, row_of(rows, owner));
    assert(with_mark(after, owner, state, code) =~= after);
    if other != owner && settled(rows, other, state, code) {
        let there = row_of(rows, other);
        lemma_row_at(after, other, there);
        assert(with_mark(rows, other, state, code)[there] == rows[there]);
        assert(with_mark(after, other, state, code) =~= after);
    }
}

/// The rows with one owner's publication checked.
pub open spec fn with_revalidation(
    rows: Seq<RowView>,
    owner: OwnerView,
    current: CurrentInputs,
    resources: Seq<Resource>,
) -> Seq<RowView> {
    let at = row_of(rows, owner);
    if at < rows.len() {
        rows.update(at, RowView { status: revalidated(rows[at], current, resources), ..rows[at] })
    } else {
        rows
    }
}

/// The owners whose publication depends on a Resource.
pub open spec fn depending(rows: Seq<RowView>, resource: ResourceId) -> Seq<OwnerView>
    decreases rows.len(),
{
    if rows.len() == 0 {
        Seq::empty()
    } else {
        let earlier = depending(rows.drop_last(), resource);
        if rows.last().status.basis matches Some(basis) && reads_resource(basis, resource) {
            earlier.push(rows.last().owner)
        } else {
            earlier
        }
    }
}

/// The owners that have a row in a context.
pub open spec fn in_context(rows: Seq<RowView>, context_key: Chars) -> Seq<OwnerView>
    decreases rows.len(),
{
    if rows.len() == 0 {
        Seq::empty()
    } else {
        let earlier = in_context(rows.drop_last(), context_key);
        if rows.last().owner.context_key == context_key {
            earlier.push(rows.last().owner)
        } else {
            earlier
        }
    }
}

/// No two rows are of one owner.
pub open spec fn one_row_each(rows: Seq<RowView>) -> bool {
    forall|i: int, j: int|
        0 <= i < j < rows.len() ==> (#[trigger] rows[i]).owner != (#[trigger] rows[j]).owner
}

/// The rows with each of some more put in place: a later one replaces an
/// earlier one of the same owner.
pub open spec fn with_rows(rows: Seq<RowView>, more: Seq<RowView>) -> Seq<RowView>
    decreases more.len(),
{
    if more.len() == 0 {
        rows
    } else {
        with_publication(with_rows(rows, more.drop_last()), more.last())
    }
}

/// Marking, publishing and revalidating keep one row for each owner.
pub proof fn lemma_one_row_each_is_kept(
    rows: Seq<RowView>,
    owner: OwnerView,
    state: SemanticState,
    code: Chars,
    published: RowView,
    current: CurrentInputs,
    resources: Seq<Resource>,
)
    requires
        one_row_each(rows),
    ensures
        one_row_each(with_mark(rows, owner, state, code)),
        one_row_each(with_publication(rows, published)),
        one_row_each(with_revalidation(rows, owner, current, resources)),
{
    lemma_row_of(rows, owner);
    lemma_row_of(rows, published.owner);
    lemma_same_owners(rows, with_mark(rows, owner, state, code), owner);
    lemma_same_owners(rows, with_publication(rows, published), published.owner);
    lemma_same_owners(rows, with_revalidation(rows, owner, current, resources), owner);
}

/// Rows that differ in one owner's row alone, or have one more for an owner
/// without any, hold each owner once where the others do.
proof fn lemma_same_owners(rows: Seq<RowView>, after: Seq<RowView>, owner: OwnerView)
    requires
        one_row_each(rows),
        rows.len() <= after.len() <= rows.len() + 1,
        forall|k: int| 0 <= k < rows.len() ==> (#[trigger] after[k]).owner == rows[k].owner,
        after.len() > rows.len() ==> after.last().owner == owner && row_of(rows, owner)
            == rows.len(),
    ensures
        one_row_each(after),
{
    lemma_row_of(rows, owner);
    assert forall|i: int, j: int| 0 <= i < j < after.len() implies (#[trigger] after[i]).owner != (
    #[trigger] after[j]).owner by {
        assert(after[i].owner == rows[i].owner);
        if j < rows.len() {
            assert(after[j].owner == rows[j].owner);
        } else {
            assert(rows[i].owner != owner);
        }
    }
}

proof fn lemma_rows_put_one_by_one(rows: Seq<RowView>, more: Seq<RowView>)
    requires
        one_row_each(rows),
    ensures
        one_row_each(with_rows(rows, more)),
    decreases more.len(),
{
    if more.len() > 0 {
        let earlier = with_rows(rows, more.drop_last());
        lemma_rows_put_one_by_one(rows, more.drop_last());
        lemma_row_of(earlier, more.last().owner);
        lemma_same_owners(earlier, with_publication(earlier, more.last()), more.last().owner);
    }
}

/// Rows of which no two are of one owner are taken as they are.
pub proof fn lemma_distinct_rows_stay(more: Seq<RowView>)
    requires
        one_row_each(more),
    ensures
        with_rows(Seq::empty(), more) == more,
    decreases more.len(),
{
    if more.len() == 0 {
        assert(more =~= Seq::empty());
    } else {
        let earlier = more.drop_last();
        assert forall|i: int, j: int| 0 <= i < j < earlier.len() implies (
        #[trigger] earlier[i]).owner != (#[trigger] earlier[j]).owner by {
            assert(more[i].owner != more[j].owner);
        }
        lemma_distinct_rows_stay(earlier);
        assert forall|k: int| 0 <= k < earlier.len() implies (#[trigger] earlier[k]).owner
            != more.last().owner by {
            assert(more[k].owner != more[more.len() - 1].owner);
        }
        lemma_row_at(earlier, more.last().owner, earlier.len() as int);
        assert(earlier.push(more.last()) =~= more);
    }
}

proof fn lemma_answered_owners_have_rows(
    rows: Seq<RowView>,
    resource: ResourceId,
    context_key: Chars,
    owner: OwnerView,
)
    ensures
        depending(rows, resource).contains(owner) ==> exists|k: int|
            0 <= k < rows.len() && (#[trigger] rows[k]).owner == owner,
        in_context(rows, context_key).contains(owner) ==> exists|k: int|
            0 <= k < rows.len() && (#[trigger] rows[k]).owner == owner,
    decreases rows.len(),
{
    if rows.len() > 0 {
        let rest = rows.drop_last();
        lemma_answered_owners_have_rows(rest, resource, context_key, owner);
        assert(rows[rows.len() - 1] == rows.last());
        if depending(rows, resource).contains(owner) && rows.last().owner != owner {
            let all = depending(rows, resource);
            let i = choose|i: int| 0 <= i < all.len() && all[i] == owner;
            assert(depending(rest, resource)[i] == owner);
            let k = choose|k: int| 0 <= k < rest.len() && (#[trigger] rest[k]).owner == owner;
            assert(rows[k].owner == owner);
        }
        if in_context(rows, context_key).contains(owner) && rows.last().owner != owner {
            let all = in_context(rows, context_key);
            let i = choose|i: int| 0 <= i < all.len() && all[i] == owner;
            assert(in_context(rest, context_key)[i] == owner);
            let k = choose|k: int| 0 <= k < rest.len() && (#[trigger] rest[k]).owner == owner;
            assert(rows[k].owner == owner);
        }
    }
}

/// Checking one owner's publication leaves what is known of every other as
/// it was.
pub proof fn lemma_revalidating_is_local(
    rows: Seq<RowView>,
    owner: OwnerView,
    current: CurrentInputs,
    resources: Seq<Resource>,
    other: OwnerView,
)
    requires
        other != owner,
    ensures
        status_in(with_revalidation(rows, owner, current, resources), other) == status_in(
            rows,
            other,
        ),
{
    let after = with_revalidation(rows, owner, current, resources);
    lemma_row_of(rows, owner);
    lemma_row_of(rows, other);
    assert forall|k: int| 0 <= k < row_of(rows, other) implies (#[trigger] after[k]).owner
        != other by {
        assert(after[k].owner == rows[k].owner);
    }
    lemma_row_at(after, other, row_of(rows, other));
}

/// Where no two rows are of one owner, each owner is answered once.
pub proof fn lemma_each_owner_is_answered_once(
    rows: Seq<RowView>,
    resource: ResourceId,
    context_key: Chars,
)
    requires
        one_row_each(rows),
    ensures
        depending(rows, resource).no_duplicates(),
        in_context(rows, context_key).no_duplicates(),
    decreases rows.len(),
{
    if rows.len() > 0 {
        let rest = rows.drop_last();
        assert forall|i: int, j: int| 0 <= i < j < rest.len() implies (
        #[trigger] rest[i]).owner != (#[trigger] rest[j]).owner by {
            assert(rows[i].owner != rows[j].owner);
        }
        lemma_each_owner_is_answered_once(rest, resource, context_key);
        let owner = rows.last().owner;
        assert forall|k: int| 0 <= k < rest.len() implies (#[trigger] rest[k]).owner != owner by {
            assert(rows[k].owner != rows[rows.len() - 1].owner);
        }
        lemma_answered_owners_have_rows(rest, resource, context_key, owner);
        assert(!depending(rest, resource).contains(owner));
        assert(!in_context(rest, context_key).contains(owner));
    }
}

fn find_row(rows: &[PublicationRow], owner: &SemanticOwner) -> (at: usize)
    ensures
        at == row_of(rows_view(rows@), owner@),
        at <= rows@.len(),
{
    let ghost all = rows_view(rows@);
    let mut at: usize = 0;
    while at < rows.len()
        invariant
            at <= rows@.len(),
            all == rows_view(rows@),
            forall|k: int| 0 <= k < at ==> (#[trigger] all[k]).owner != owner@,
        decreases rows@.len() - at,
    {
        assert(all[at as int].owner == rows@[at as int].owner@);
        if same_owner(&rows[at].owner, owner) {
            proof {
                lemma_row_at(all, owner@, at as int);
            }
            return at;
        }
        at = at + 1;
    }
    proof {
        lemma_row_at(all, owner@, at as int);
    }
    at
}

/// Put a row in the place of its owner's.
fn put_row(rows: &mut Vec<PublicationRow>, row: PublicationRow)
    ensures
        rows_view(final(rows)@) == with_publication(rows_view(old(rows)@), row@),
{
    let ghost held = rows_view(rows@);
    let at: usize = find_row(rows.as_slice(), &row.owner);
    if at < rows.len() {
        rows.set(at, row);
        assert(rows_view(rows@) =~= held.update(at as int, row@));
    } else {
        rows.push(row);
        assert(rows_view(rows@) =~= held.push(row@));
    }
}

impl SemanticIndex {
    /// The rows, in the order they were made.
    pub closed spec fn rows(&self) -> Seq<RowView> {
        rows_view(self.rows@)
    }

    #[verifier::type_invariant]
    spec fn holds_each_owner_once(self) -> bool {
        one_row_each(rows_view(self.rows@))
    }

    /// An index with nothing in it.
    pub fn empty() -> (index: Self)
        ensures
            index.rows() == Seq::<RowView>::empty(),
    {
        let index = SemanticIndex { rows: Vec::new() };
        assert(rows_view(index.rows@) =~= Seq::empty());
        index
    }

    /// An index of those rows. Of two rows of one owner the later one counts.
    pub fn from_rows(rows: Vec<PublicationRow>) -> (index: Self)
        ensures
            index.rows() == with_rows(Seq::empty(), rows_view(rows@)),
            one_row_each(index.rows()),
            one_row_each(rows_view(rows@)) ==> index.rows() == rows_view(rows@),
    {
        let ghost all = rows_view(rows@);
        let mut rest = rows;
        let mut held: Vec<PublicationRow> = Vec::new();
        let ghost mut taken: int = 0;
        assert(rest@ =~= rows@.skip(0));
        assert(all.take(0) =~= Seq::empty());
        assert(rows_view(held@) =~= Seq::empty());
        while rest.len() > 0
            invariant
                0 <= taken <= rows@.len(),
                all == rows_view(rows@),
                rest@ == rows@.skip(taken),
                rows_view(held@) == with_rows(Seq::empty(), all.take(taken)),
            decreases rest@.len(),
        {
            let row = rest.remove(0);
            proof {
                assert(row == rows@[taken]);
                assert(rest@ =~= rows@.skip(taken + 1));
                assert(all.take(taken + 1).drop_last() =~= all.take(taken));
                assert(all.take(taken + 1).last() == row@);
                taken = taken + 1;
            }
            put_row(&mut held, row);
        }
        proof {
            assert(all.take(taken) =~= all);
            lemma_rows_put_one_by_one(Seq::empty(), all);
            if one_row_each(all) {
                lemma_distinct_rows_stay(all);
            }
        }
        SemanticIndex { rows: held }
    }

    /// What is known of an owner's publication.
    pub fn status(&self, owner: &SemanticOwner) -> (status: SemanticStatus)
        ensures
            status@ == status_in(self.rows(), owner@),
    {
        let at: usize = find_row(self.rows.as_slice(), owner);
        if at < self.rows.len() {
            assert(rows_view(self.rows@)[at as int] == self.rows@[at as int]@);
            self.rows[at].status.clone()
        } else {
            SemanticStatus::none()
        }
    }

    fn mark(&mut self, owner: &SemanticOwner, state: SemanticState, code: &str)
        ensures
            final(self).rows() == with_mark(old(self).rows(), owner@, state, code@),
    {
        proof {
            use_type_invariant(&*self);
        }
        let ghost held = rows_view(self.rows@);
        let at: usize = find_row(self.rows.as_slice(), owner);
        let row = if at < self.rows.len() {
            assert(held[at as int] == self.rows@[at as int]@);
            let status = self.rows[at].status.clone();
            PublicationRow {
                owner: self.rows[at].owner.clone(),
                status: SemanticStatus {
                    state,
                    support: status.support,
                    stable_generation_id: status.stable_generation_id,
                    basis: status.basis,
                    last_error_code: Some(code.to_owned()),
                },
                profile_fingerprint: self.rows[at].profile_fingerprint.clone(),
            }
        } else {
            let none = SemanticStatus::none();
            PublicationRow {
                owner: owner.clone(),
                status: SemanticStatus {
                    state,
                    support: none.support,
                    stable_generation_id: none.stable_generation_id,
                    basis: none.basis,
                    last_error_code: Some(code.to_owned()),
                },
                profile_fingerprint: String::new(),
            }
        };
        proof {
            lemma_row_of(held, owner@);
            assert(at >= held.len() ==> row@.profile =~= Seq::empty());
            assert(with_publication(held, row@) == with_mark(held, owner@, state, code@));
        }
        self.put(row);
    }

    fn put(&mut self, row: PublicationRow)
        ensures
            final(self).rows() == with_publication(old(self).rows(), row@),
    {
        proof {
            use_type_invariant(&*self);
        }
        let ghost held = rows_view(self.rows@);
        let mut rows: Vec<PublicationRow> = Vec::new();
        assert(rows_view(rows@) =~= Seq::empty());
        std::mem::swap(&mut rows, &mut self.rows);
        put_row(&mut rows, row);
        proof {
            lemma_row_of(held, row@.owner);
            lemma_same_owners(held, rows_view(rows@), row@.owner);
        }
        self.rows = rows;
    }

    /// Mark an owner's publication not current.
    pub fn mark_dirty(&mut self, owner: &SemanticOwner, code: &str)
        ensures
            final(self).rows() == with_mark(old(self).rows(), owner@, SemanticState::Dirty, code@),
    {
        self.mark(owner, SemanticState::Dirty, code);
    }

    /// Mark an owner's publication unavailable, keeping the last valid one
    /// readable.
    pub fn mark_unavailable(&mut self, owner: &SemanticOwner, code: &str)
        ensures
            final(self).rows() == with_mark(
                old(self).rows(),
                owner@,
                SemanticState::Unavailable,
                code@,
            ),
    {
        self.mark(owner, SemanticState::Unavailable, code);
    }

    /// Publish a candidate against the inputs, the Resources and the
    /// Workspace revision as they are now: its owner's row becomes current,
    /// and no other row moves. Where anything that it was made from has
    /// moved, nothing is written.
    pub fn publish(
        &mut self,
        candidate: SemanticCandidate,
        current: &CurrentInputs,
        resources: &[Resource],
        workspace_revision: &str,
    ) -> (published: Result<SemanticPublication, SemanticIndexError>)
        ensures
            match candidate_obsolete(candidate, *current, resources@, workspace_revision@) {
                Some(reason) => {
                    &&& published == Err::<SemanticPublication, SemanticIndexError>(
                        SemanticIndexError::Obsolete {
                            generation_id: candidate.generation_id,
                            reason,
                        },
                    )
                    &&& final(self).rows() == old(self).rows()
                },
                None => {
                    &&& published matches Ok(publication)
                    &&& publication.generation_id == candidate.generation_id
                    &&& publication.basis@ == candidate.basis@
                    &&& final(self).rows() == with_publication(
                        old(self).rows(),
                        published_row(candidate),
                    )
                },
            },
    {
        let generation_id: i64 = candidate.generation_id;
        let moved = find_obsolete(
            &candidate.basis,
            candidate.profile_fingerprint.as_str(),
            current,
            resources,
        );
        if let Some(reason) = moved {
            return Err(SemanticIndexError::Obsolete { generation_id, reason });
        }
        if !same_text(candidate.workspace_revision.as_str(), workspace_revision) {
            return Err(
                SemanticIndexError::Obsolete {
                    generation_id,
                    reason: ObsoleteReason::WorkspaceMoved,
                },
            );
        }
        let basis = candidate.basis.clone();
        let row = PublicationRow {
            owner: candidate.owner,
            status: SemanticStatus {
                state: SemanticState::Current,
                support: Some(candidate.support),
                stable_generation_id: Some(generation_id),
                basis: Some(candidate.basis),
                last_error_code: None,
            },
            profile_fingerprint: candidate.profile_fingerprint,
        };
        self.put(row);
        Ok(SemanticPublication { generation_id, basis })
    }

    /// Every owner whose publication depends on a Resource.
    pub fn owners_depending_on(&self, resource: ResourceId) -> (owners: Vec<SemanticOwner>)
        ensures
            owners_view(owners@) == depending(self.rows(), resource),
            owners_view(owners@).no_duplicates(),
    {
        proof {
            use_type_invariant(self);
            lemma_each_owner_is_answered_once(self.rows(), resource, Seq::empty());
        }
        let ghost all = rows_view(self.rows@);
        let mut owners: Vec<SemanticOwner> = Vec::new();
        let mut at: usize = 0;
        assert(owners_view(owners@) =~= depending(all.take(0), resource));
        while at < self.rows.len()
            invariant
                at <= self.rows@.len(),
                all == rows_view(self.rows@),
                owners_view(owners@) == depending(all.take(at as int), resource),
            decreases self.rows@.len() - at,
        {
            let ghost held = owners_view(owners@);
            proof {
                assert(all.take(at + 1).drop_last() =~= all.take(at as int));
                assert(all.take(at + 1).last() == self.rows@[at as int]@);
            }
            let depends = match &self.rows[at].status.basis {
                Some(basis) => basis.depends_on(resource),
                None => false,
            };
            if depends {
                let owner = self.rows[at].owner.clone();
                owners.push(owner);
                assert(owners_view(owners@) =~= held.push(owner@));
            }
            at = at + 1;
        }
        assert(all.take(at as int) =~= all);
        owners
    }

    /// Every owner that has a row in a context.
    pub fn owners_of_context(&self, context_key: &str) -> (owners: Vec<SemanticOwner>)
        ensures
            owners_view(owners@) == in_context(self.rows(), context_key@),
            owners_view(owners@).no_duplicates(),
    {
        proof {
            use_type_invariant(self);
            lemma_each_owner_is_answered_once(
                self.rows(),
                ResourceId { value: 0 },
                context_key@,
            );
        }
        let ghost all = rows_view(self.rows@);
        let mut owners: Vec<SemanticOwner> = Vec::new();
        let mut at: usize = 0;
        assert(owners_view(owners@) =~= in_context(all.take(0), context_key@));
        while at < self.rows.len()
            invariant
                at <= self.rows@.len(),
                all == rows_view(self.rows@),
                owners_view(owners@) == in_context(all.take(at as int), context_key@),
            decreases self.rows@.len() - at,
        {
            let ghost held = owners_view(owners@);
            proof {
                assert(all.take(at + 1).drop_last() =~= all.take(at as int));
                assert(all.take(at + 1).last() == self.rows@[at as int]@);
            }
            if same_text(self.rows[at].owner.context_key.as_str(), context_key) {
                let owner = self.rows[at].owner.clone();
                owners.push(owner);
                assert(owners_view(owners@) =~= held.push(owner@));
            }
            at = at + 1;
        }
        assert(all.take(at as int) =~= all);
        owners
    }

    /// Check an owner's publication against the inputs as they are now.
    pub fn revalidate(
        &mut self,
        owner: &SemanticOwner,
        current: &CurrentInputs,
        resources: &[Resource],
    ) -> (status: SemanticStatus)
        ensures
            final(self).rows() == with_revalidation(
                old(self).rows(),
                owner@,
                *current,
                resources@,
            ),
            status@ == status_in(final(self).rows(), owner@),
    {
        let ghost held = rows_view(self.rows@);
        let at: usize = find_row(self.rows.as_slice(), owner);
        if at < self.rows.len() {
            assert(held[at as int] == self.rows@[at as int]@);
            let moved = if self.rows[at].status.state == SemanticState::Current {
                match &self.rows[at].status.basis {
                    Some(basis) => find_obsolete(
                        basis,
                        self.rows[at].profile_fingerprint.as_str(),
                        current,
                        resources,
                    ),
                    None => None,
                }
            } else {
                None
            };
            match moved {
                Some(reason) => {
                    proof {
                        lemma_row_of(held, owner@);
                    }
                    self.mark(owner, SemanticState::Dirty, reason.code());
                },
                None => {
                    assert(held.update(at as int, held[at as int]) =~= held);
                },
            }
        }
        self.status(owner)
    }
}

fn source_stands(resources: &[Resource], resource: ResourceId, revision: &str) -> (held: bool)
    ensures
        held == stands_at(resources@, resource, revision@),
{
    let mut at: usize = 0;
    while at < resources.len()
        invariant
            at <= resources@.len(),
            forall|k: int|
                0 <= k < at ==> !((#[trigger] resources@[k]).id == resource && resources@[k].state
                    == ResourceState::Active && resources@[k].resource_revision@ == revision@),
        decreases resources@.len() - at,
    {
        if resources[at].id == resource && resources[at].state == ResourceState::Active
            && same_text(resources[at].resource_revision.as_str(), revision) {
            return true;
        }
        at = at + 1;
    }
    false
}

fn find_obsolete(
    basis: &SemanticBasis,
    profile: &str,
    current: &CurrentInputs,
    resources: &[Resource],
) -> (reason: Option<ObsoleteReason>)
    ensures
        reason == obsolete_reason(basis@, profile@, *current, resources@),
{
    let ghost all = sources_view(basis.sources@);
    let mut at: usize = 0;
    assert(all.skip(0) =~= all);
    while at < basis.sources.len()
        invariant
            at <= basis.sources@.len(),
            all == sources_view(basis.sources@),
            all == basis@.sources,
            fallen_source(all, resources@) == fallen_source(all.skip(at as int), resources@),
        decreases basis.sources@.len() - at,
    {
        proof {
            assert(all[at as int] == (basis.sources@[at as int].0, basis.sources@[at as int].1@));
            assert(all.skip(at as int).skip(1) =~= all.skip(at + 1));
        }
        if !source_stands(resources, basis.sources[at].0, basis.sources[at].1.as_str()) {
            return Some(ObsoleteReason::SourceRevisionMoved { resource: basis.sources[at].0 });
        }
        at = at + 1;
    }
    if !same_text(
        basis.config_fingerprint.as_str(),
        current.config_fingerprint.as_str(),
    ) {
        return Some(ObsoleteReason::ConfigMoved);
    }
    if !same_text(
        basis.environment_fingerprint.as_str(),
        current.environment_fingerprint.as_str(),
    ) {
        return Some(ObsoleteReason::EnvironmentMoved);
    }
    if !current.environment_proven {
        return Some(ObsoleteReason::EnvironmentUnproven);
    }
    if !same_optional(&basis.inventory_fingerprint, &current.inventory_fingerprint) {
        return Some(ObsoleteReason::InventoryMoved);
    }
    if !same_text(profile, current.profile_fingerprint.as_str()) {
        return Some(ObsoleteReason::ProfileMoved);
    }
    None
}

} // verus!
