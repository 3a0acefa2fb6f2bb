//! Asking the backend about a Resource's gaps, and what the answers
//! establish.

use vstd::prelude::*;

use crate::graph::{
    EndpointView, GraphEndpoint, IntendedRelation, PersistedUnresolved, RelationKind,
    UnresolvedReason,
};
use crate::model::{Occurrence, OccurrenceKind, OccurrenceRef, Resource, ResourceId, SymbolId};
use crate::python_semantic::batch::{ask_definition, ask_import, ask_type, refuses};
use crate::python_semantic::conversation::{
    batch_answer, Batch, BatchError, Exchange, PythonQueries,
};
use crate::python_semantic::coordinates::{
    bytes_of_range, last_character_of_bytes, range_of_bytes, text_between, whole_file,
    whole_file_range, LineMap, Position, Range,
};
use crate::python_semantic::normalize::{
    outcome_of, outcome_of_targets, reads_after_all, target_of, targets_for, targets_of,
    targets_view, Normalizer, Reads, Target, TargetView, WorkspaceFacts,
};
use crate::python_semantic::protocol::{
    calls_view, leading_dots, locations_view, module_parts, module_site, optional_type,
    IncomingCall, IncomingCallView, Location, LocationView, ModuleDescriptor, PythonRequest,
    PythonResponse, TypeAnswer, TypeAnswerView,
};
use crate::paths::{join_path, path_join};
use crate::python_semantic::uri::{path_to_uri, uri_of_path};
use crate::semantic::{
    evidence_view, BasisView, Dispatch, EvidenceBasis, EvidenceView, OutcomeView,
    SemanticCapability, SemanticEvidence, SemanticOutcome, Support,
};
use crate::text::{all_chars, same_text, Chars};

verus! {

// ---------------------------------------------------------------------
// Which gaps are asked about
// ---------------------------------------------------------------------

/// A gap that is deliberately left alone.
#[derive(Debug, PartialEq, Eq)]
pub struct DeferredGap {
    pub occurrence: OccurrenceRef,
    pub intended: IntendedRelation,
    pub reason: &'static str,
}

/// Why a gap is left alone: the backend offers no question that answers
/// it, so it stays open rather than being guessed.
pub const DERIVED_NOT_ASKED: &'static str =
    "python override/inheritance enrichment is #19 task 7";

/// The gap kinds that are resolved from a source occurrence.
///
/// Each one is a site that structural resolution already recorded and left
/// open, so the answer has somewhere exact to anchor. There is no
/// implements clause in Python, and an override is not written at a site.
#[derive(Debug, Clone, Copy, PartialEq, Eq, Structural)]
pub enum ResolvableKind {
    Imports,
    Calls,
    References,
    UsesType,
    /// A base-list entry. In Python a base list is always inheritance.
    Extends,
}

/// The kind that a gap is resolved as, if it is one that is asked about.
pub open spec fn resolvable(intended: IntendedRelation) -> Option<ResolvableKind> {
    match intended {
        IntendedRelation::Known(RelationKind::Imports) => Some(ResolvableKind::Imports),
        IntendedRelation::Known(RelationKind::Calls) => Some(ResolvableKind::Calls),
        IntendedRelation::Known(RelationKind::References) => Some(ResolvableKind::References),
        IntendedRelation::Known(RelationKind::UsesType) => Some(ResolvableKind::UsesType),
        IntendedRelation::Known(RelationKind::Extends) => Some(ResolvableKind::Extends),
        IntendedRelation::Inheritance => Some(ResolvableKind::Extends),
        IntendedRelation::Known(RelationKind::Implements) => None,
        IntendedRelation::Known(RelationKind::Overrides) => None,
    }
}

/// The relation that a gap becomes once it resolves.
pub open spec fn relation_of(kind: ResolvableKind) -> RelationKind {
    match kind {
        ResolvableKind::Imports => RelationKind::Imports,
        ResolvableKind::Calls => RelationKind::Calls,
        ResolvableKind::References => RelationKind::References,
        ResolvableKind::UsesType => RelationKind::UsesType,
        ResolvableKind::Extends => RelationKind::Extends,
    }
}

/// Which capability answered, which depends on where the target turned out
/// to be.
pub open spec fn answering_capability(
    kind: ResolvableKind,
    outcome: OutcomeView,
) -> SemanticCapability {
    let external = outcome matches OutcomeView::Resolved(EndpointView::External(_));
    match kind {
        ResolvableKind::Imports => if external {
            SemanticCapability::ExternalSymbolResolution
        } else {
            SemanticCapability::ImportBinding
        },
        ResolvableKind::Calls => if external {
            SemanticCapability::CallsCrossFile
        } else {
            SemanticCapability::CallsIntraFile
        },
        ResolvableKind::References => SemanticCapability::References,
        ResolvableKind::UsesType => SemanticCapability::TypeResolution,
        ResolvableKind::Extends => SemanticCapability::Inheritance,
    }
}

/// A member call binds through the receiver's declared type, and a
/// subclass may still take over at run time.
pub open spec fn dispatch_of(kind: ResolvableKind, member: bool) -> Dispatch {
    if kind == ResolvableKind::Calls && member {
        Dispatch::Unknown
    } else {
        Dispatch::Static
    }
}

impl ResolvableKind {
    pub fn of(intended: IntendedRelation) -> (kind: Option<Self>)
        ensures
            kind == resolvable(intended),
    {
        match intended {
            IntendedRelation::Known(RelationKind::Imports) => Some(ResolvableKind::Imports),
            IntendedRelation::Known(RelationKind::Calls) => Some(ResolvableKind::Calls),
            IntendedRelation::Known(RelationKind::References) => Some(ResolvableKind::References),
            IntendedRelation::Known(RelationKind::UsesType) => Some(ResolvableKind::UsesType),
            IntendedRelation::Known(RelationKind::Extends) => Some(ResolvableKind::Extends),
            IntendedRelation::Inheritance => Some(ResolvableKind::Extends),
            IntendedRelation::Known(RelationKind::Implements) => None,
            IntendedRelation::Known(RelationKind::Overrides) => None,
        }
    }

    pub fn relation_kind(self) -> (kind: RelationKind)
        ensures
            kind == relation_of(self),
    {
        match self {
            ResolvableKind::Imports => RelationKind::Imports,
            ResolvableKind::Calls => RelationKind::Calls,
            ResolvableKind::References => RelationKind::References,
            ResolvableKind::UsesType => RelationKind::UsesType,
            ResolvableKind::Extends => RelationKind::Extends,
        }
    }

    pub fn capability(self, outcome: &SemanticOutcome) -> (capability: SemanticCapability)
        ensures
            capability == answering_capability(self, outcome@),
    {
        let external = match outcome {
            SemanticOutcome::Resolved { target: GraphEndpoint::External(_) } => true,
            _ => false,
        };
        match self {
            ResolvableKind::Imports => if external {
                SemanticCapability::ExternalSymbolResolution
            } else {
                SemanticCapability::ImportBinding
            },
            ResolvableKind::Calls => if external {
                SemanticCapability::CallsCrossFile
            } else {
                SemanticCapability::CallsIntraFile
            },
            ResolvableKind::References => SemanticCapability::References,
            ResolvableKind::UsesType => SemanticCapability::TypeResolution,
            ResolvableKind::Extends => SemanticCapability::Inheritance,
        }
    }

    pub fn dispatch(self, gap: &PersistedUnresolved) -> (dispatch: Dispatch)
        ensures
            dispatch == dispatch_of(self, gap.module_hint is Some),
    {
        match self {
            ResolvableKind::Calls => if gap.module_hint.is_some() {
                Dispatch::Unknown
            } else {
                Dispatch::Static
            },
            _ => Dispatch::Static,
        }
    }
}

// ---------------------------------------------------------------------
// Asking about one gap
// ---------------------------------------------------------------------

/// What the backend is asked about a gap.
pub ghost enum GapQuestion {
    /// Nothing: the gap is left alone, or its span does not convert
    /// exactly, and the nearest position is a different token.
    Nothing,
    /// Which file is this module?
    Module { dots: nat, parts: Seq<Chars> },
    /// Where is the name at this place defined?
    Definition(Position),
    /// Which type has this range?
    Type(Range),
}

/// What the backend is asked about a site of a text. A module path is
/// resolved as a module; a bare name is not, since `import json` and
/// `from pkg import json` write the same text. The last character is asked
/// about, because the start of `x.run` is the receiver.
pub open spec fn question_about(
    text: Chars,
    site: OccurrenceRef,
    intended: IntendedRelation,
) -> GapQuestion {
    let start = site.start_byte as nat;
    let end = site.end_byte as nat;
    let written = text_between(text, start, end);
    match resolvable(intended) {
        None => GapQuestion::Nothing,
        Some(ResolvableKind::UsesType) => match range_of_bytes(text, start, end) {
            Some(range) => GapQuestion::Type(range),
            None => GapQuestion::Nothing,
        },
        Some(kind) => if kind == ResolvableKind::Imports && module_site(written) {
            GapQuestion::Module { dots: leading_dots(written), parts: module_parts(written) }
        } else {
            match last_character_of_bytes(text, start, end) {
                Some(position) => GapQuestion::Definition(position),
                None => GapQuestion::Nothing,
            }
        },
    }
}

/// What came of asking about a gap.
#[derive(Debug, PartialEq, Eq)]
pub enum GapAnswer {
    NotAsked,
    /// The places that the backend named. Where they are definitions of a
    /// written name, that name names an external symbol.
    Places { locations: Vec<Location>, by_name: bool },
}

pub ghost enum AnswerView {
    NotAsked,
    Places { locations: Seq<LocationView>, by_name: bool },
}

impl View for GapAnswer {
    type V = AnswerView;

    open spec fn view(&self) -> AnswerView {
        match self {
            GapAnswer::NotAsked => AnswerView::NotAsked,
            GapAnswer::Places { locations, by_name } => AnswerView::Places {
                locations: locations_view(locations@),
                by_name: *by_name,
            },
        }
    }
}

pub open spec fn answers_view(answers: Seq<GapAnswer>) -> Seq<AnswerView> {
    answers.map_values(|answer: GapAnswer| answer@)
}

/// The whole of a file.
pub open spec fn whole(uri: Chars) -> LocationView {
    LocationView { uri, range: whole_file() }
}

/// Where a type is: its declaration, or else its module. A type with a
/// display name alone is nowhere; looking the name up would be a guess.
pub open spec fn type_place(answer: TypeAnswerView) -> Option<LocationView> {
    match answer.declaration {
        Some(declaration) => Some(declaration),
        None => match answer.module_uri {
            Some(uri) => Some(whole(uri)),
            None => None,
        },
    }
}

pub open spec fn places(found: Option<LocationView>) -> Seq<LocationView> {
    match found {
        Some(location) => seq![location],
        None => Seq::empty(),
    }
}

/// Where an answer to a type question places the type.
pub open spec fn placed_by(answer: Result<PythonResponse, BatchError>) -> Option<LocationView> {
    match answer {
        Ok(PythonResponse::Type(Some(found))) => type_place(found@),
        _ => None,
    }
}

pub open spec fn is_type_question(
    request: PythonRequest,
    computed: bool,
    uri: Chars,
    range: Range,
) -> bool {
    if computed {
        request matches PythonRequest::ComputedType { uri: asked, range: about, .. } && asked@
            == uri && about == range
    } else {
        request matches PythonRequest::DeclaredType { uri: asked, range: about, .. } && asked@
            == uri && about == range
    }
}

/// The exchanges put the question, and the answer is what they said.
pub open spec fn answered(
    question: GapQuestion,
    uri: Chars,
    exchanges: Seq<Exchange>,
    answer: Result<AnswerView, BatchError>,
) -> bool {
    match question {
        GapQuestion::Nothing => exchanges.len() == 0 && answer == Ok::<AnswerView, BatchError>(
            AnswerView::NotAsked,
        ),
        GapQuestion::Module { dots, parts } => {
            &&& exchanges.len() == 1
            &&& exchanges[0].request matches PythonRequest::ResolveImport {
                source_uri,
                module,
                ..
            }
            &&& source_uri@ == uri
            &&& module.leading_dots == dots
            &&& all_chars(module.name_parts@) == parts
            &&& match batch_answer(exchanges[0].answer) {
                Err(error) => answer == Err::<AnswerView, BatchError>(error),
                Ok(PythonResponse::Import(found)) => answer == Ok::<AnswerView, BatchError>(
                    AnswerView::Places {
                        locations: match found {
                            Some(file) => seq![whole(file@)],
                            None => Seq::empty(),
                        },
                        by_name: false,
                    },
                ),
                Ok(other) => answer is Err && refuses(answer->Err_0, other),
            }
        },
        GapQuestion::Definition(position) => {
            &&& exchanges.len() == 1
            &&& exchanges[0].request matches PythonRequest::Definition {
                uri: asked,
                position: at,
            }
            &&& asked@ == uri
            &&& at == position
            &&& match batch_answer(exchanges[0].answer) {
                Err(error) => answer == Err::<AnswerView, BatchError>(error),
                Ok(PythonResponse::Locations(found)) => answer == Ok::<AnswerView, BatchError>(
                    AnswerView::Places { locations: locations_view(found@), by_name: true },
                ),
                Ok(other) => answer is Err && refuses(answer->Err_0, other),
            }
        },
        GapQuestion::Type(range) => {
            let declared = batch_answer(exchanges[0].answer);
            let computed = batch_answer(exchanges[1].answer);
            &&& 1 <= exchanges.len() <= 2
            &&& is_type_question(exchanges[0].request, false, uri, range)
            &&& exchanges.len() == 1 <==> declared is Err || placed_by(declared) is Some
            &&& exchanges.len() == 2 ==> is_type_question(exchanges[1].request, true, uri, range)
            &&& if exchanges.len() == 1 {
                match declared {
                    Err(error) => answer == Err::<AnswerView, BatchError>(error),
                    Ok(_) => answer == Ok::<AnswerView, BatchError>(
                        AnswerView::Places {
                            locations: places(placed_by(declared)),
                            by_name: false,
                        },
                    ),
                }
            } else {
                match computed {
                    Err(error) => answer == Err::<AnswerView, BatchError>(error),
                    Ok(_) => answer == Ok::<AnswerView, BatchError>(
                        AnswerView::Places {
                            locations: places(placed_by(computed)),
                            by_name: false,
                        },
                    ),
                }
            }
        },
    }
}

pub open spec fn answer_view(answer: Result<GapAnswer, BatchError>) -> Result<
    AnswerView,
    BatchError,
> {
    match answer {
        Ok(found) => Ok(found@),
        Err(error) => Err(error),
    }
}

/// What was exchanged on a batch since it stood at `before`.
pub open spec fn since(before: Seq<Exchange>, after: Seq<Exchange>) -> Seq<Exchange> {
    after.skip(before.len() as int)
}

fn place_of_type(found: Option<TypeAnswer>) -> (place: Option<Location>)
    ensures
        place is Some == (optional_type(found) is Some && type_place(
            optional_type(found)->0,
        ) is Some),
        place matches Some(location) ==> type_place(optional_type(found)->0) == Some(location@),
{
    match found {
        Some(answer) => match answer.declaration {
            Some(declaration) => Some(declaration),
            None => match answer.module_uri {
                Some(uri) => Some(Location { uri, range: whole_file_range() }),
                None => None,
            },
        },
        None => None,
    }
}

fn one_place(location: Location) -> (answer: GapAnswer)
    ensures
        answer@ == (AnswerView::Places { locations: places(Some(location@)), by_name: false }),
{
    let mut locations: Vec<Location> = Vec::new();
    locations.push(location);
    assert(locations_view(locations@) =~= seq![location@]);
    GapAnswer::Places { locations, by_name: false }
}

fn no_place() -> (answer: GapAnswer)
    ensures
        answer@ == (AnswerView::Places { locations: Seq::empty(), by_name: false }),
{
    let locations: Vec<Location> = Vec::new();
    assert(locations_view(locations@) =~= Seq::empty());
    GapAnswer::Places { locations, by_name: false }
}

fn ask_type_place<Q: PythonQueries>(batch: &mut Batch<'_, Q>, owner_uri: &str, range: Range) -> (
    answer: Result<GapAnswer, BatchError>)
    requires
        old(batch).wf(),
    ensures
        final(batch).wf(),
        final(batch).carried() == old(batch).carried(),
        final(batch).backend() == old(batch).backend(),
        old(batch).log().is_prefix_of(final(batch).log()),
        answered(
            GapQuestion::Type(range),
            owner_uri@,
            since(old(batch).log(), final(batch).log()),
            answer_view(answer),
        ),
{
    let ghost start = batch.log();
    let declared = ask_type(batch, owner_uri, range, false);
    let ghost middle = batch.log();
    proof {
        assert(middle =~= start.push(middle.last()));
        assert(since(start, middle) =~= seq![middle.last()]);
        assert(start =~= middle.subrange(0, start.len() as int));
    }
    let found = match declared {
        Ok(found) => found,
        Err(error) => return Err(error),
    };
    match place_of_type(found) {
        Some(location) => return Ok(one_place(location)),
        None => {},
    }
    let computed = ask_type(batch, owner_uri, range, true);
    proof {
        let last = batch.log();
        assert(last =~= start.push(middle.last()).push(last.last()));
        assert(since(start, last) =~= seq![middle.last(), last.last()]);
        assert(start =~= last.subrange(0, start.len() as int));
    }
    let found = match computed {
        Ok(found) => found,
        Err(error) => return Err(error),
    };
    match place_of_type(found) {
        Some(location) => Ok(one_place(location)),
        None => Ok(no_place()),
    }
}

/// Ask the backend about one gap.
fn ask_gap<Q: PythonQueries>(
    batch: &mut Batch<'_, Q>,
    map: &LineMap<'_>,
    owner_uri: &str,
    gap: &PersistedUnresolved,
) -> (answer: Result<GapAnswer, BatchError>)
    requires
        old(batch).wf(),
    ensures
        final(batch).wf(),
        final(batch).carried() == old(batch).carried(),
        final(batch).backend() == old(batch).backend(),
        old(batch).log().is_prefix_of(final(batch).log()),
        answered(
            question_about(map.text@, gap.occurrence, gap.intended),
            owner_uri@,
            since(old(batch).log(), final(batch).log()),
            answer_view(answer),
        ),
{
    let ghost before = batch.log();
    let start: usize = gap.occurrence.start_byte;
    let end: usize = gap.occurrence.end_byte;
    proof {
        assert(since(before, before) =~= Seq::empty());
        assert(before =~= before.subrange(0, before.len() as int));
    }
    let kind = match ResolvableKind::of(gap.intended) {
        Some(kind) => kind,
        None => return Ok(GapAnswer::NotAsked),
    };
    if kind == ResolvableKind::UsesType {
        return match map.range(start, end) {
            Some(range) => ask_type_place(batch, owner_uri, range),
            None => Ok(GapAnswer::NotAsked),
        };
    }
    if kind == ResolvableKind::Imports {
        let written = map.between(start, end);
        if let Some(module) = ModuleDescriptor::parse_module_site(written.as_str()) {
            let found = ask_import(batch, owner_uri, module);
            proof {
                let after = batch.log();
                assert(after =~= before.push(after.last()));
                assert(since(before, after) =~= seq![after.last()]);
                assert(before =~= after.subrange(0, before.len() as int));
            }
            return match found {
                Ok(Some(uri)) => Ok(one_place(Location { uri, range: whole_file_range() })),
                Ok(None) => Ok(no_place()),
                Err(error) => Err(error),
            };
        }
    }
    let position = match map.last_character_position(start, end) {
        Some(position) => position,
        None => return Ok(GapAnswer::NotAsked),
    };
    let found = ask_definition(batch, owner_uri, position);
    proof {
        let after = batch.log();
        assert(after =~= before.push(after.last()));
        assert(since(before, after) =~= seq![after.last()]);
        assert(before =~= after.subrange(0, before.len() as int));
    }
    match found {
        Ok(locations) => Ok(GapAnswer::Places { locations, by_name: true }),
        Err(error) => Err(error),
    }
}

// ---------------------------------------------------------------------
// Asking about one Resource
// ---------------------------------------------------------------------

/// One Resource's inputs for a semantic pass.
pub struct ResourceRequest<'a> {
    pub owner: &'a Resource,
    /// The owner's current text, as the Workspace has it.
    pub owner_text: &'a str,
    pub gaps: &'a [PersistedUnresolved],
    pub occurrences: &'a [Occurrence],
    pub generation_id: i64,
    pub analysis_profile_id: i64,
    pub context_key: &'a str,
}

/// What is asked about the first gaps, in order, and what came back.
pub open spec fn transcript(
    text: Chars,
    uri: Chars,
    gaps: Seq<PersistedUnresolved>,
    exchanged: Seq<Seq<Exchange>>,
    answers: Seq<AnswerView>,
) -> bool {
    &&& exchanged.len() == answers.len() <= gaps.len()
    &&& forall|i: int|
        0 <= i < answers.len() ==> answered(
            question_about(text, gaps[i].occurrence, gaps[i].intended),
            uri,
            #[trigger] exchanged[i],
            Ok(answers[i]),
        )
}

/// Asking stopped at the first gap that was answered by an error.
pub open spec fn stopped(
    text: Chars,
    uri: Chars,
    gaps: Seq<PersistedUnresolved>,
    exchanged: Seq<Seq<Exchange>>,
    answers: Seq<AnswerView>,
    error: BatchError,
) -> bool {
    let at = answers.len();
    &&& at < gaps.len()
    &&& exchanged.len() == at + 1
    &&& transcript(text, uri, gaps, exchanged.drop_last(), answers)
    &&& answered(
        question_about(text, gaps[at as int].occurrence, gaps[at as int].intended),
        uri,
        exchanged.last(),
        Err(error),
    )
}

/// Asking stopped between two logs.
pub open spec fn stopped_between(
    before: Seq<Exchange>,
    after: Seq<Exchange>,
    text: Chars,
    uri: Chars,
    gaps: Seq<PersistedUnresolved>,
    answers: Seq<AnswerView>,
    error: BatchError,
) -> bool {
    exists|exchanged: Seq<Seq<Exchange>>|
        after == before + exchanged.flatten() && #[trigger] stopped(
            text,
            uri,
            gaps,
            exchanged,
            answers,
            error,
        )
}

/// Ask the backend about every gap of a Resource, one after the other, up to
/// the first error: the answers that came before it, and the error.
fn ask_resource<Q: PythonQueries>(
    batch: &mut Batch<'_, Q>,
    owner_uri: &str,
    owner_text: &str,
    gaps: &[PersistedUnresolved],
) -> (asked: (Vec<GapAnswer>, Option<BatchError>))
    requires
        old(batch).wf(),
    ensures
        final(batch).wf(),
        final(batch).carried() == old(batch).carried(),
        final(batch).backend() == old(batch).backend(),
        asked.1 is None ==> asked.0@.len() == gaps@.len() && exists|
            exchanged: Seq<Seq<Exchange>>,
        |
            final(batch).log() == old(batch).log() + exchanged.flatten() && #[trigger] transcript(
                owner_text@,
                owner_uri@,
                gaps@,
                exchanged,
                answers_view(asked.0@),
            ),
        asked.1 matches Some(error) ==> stopped_between(
            old(batch).log(),
            final(batch).log(),
            owner_text@,
            owner_uri@,
            gaps@,
            answers_view(asked.0@),
            error,
        ),
{
    let map = LineMap::new(owner_text);
    let ghost before = batch.log();
    let ghost mut exchanged: Seq<Seq<Exchange>> = Seq::empty();
    let mut answers: Vec<GapAnswer> = Vec::new();
    let mut at: usize = 0;
    proof {
        broadcast use Seq::lemma_flatten_push;

        assert(exchanged.flatten() =~= Seq::empty());
        assert(before + exchanged.flatten() =~= before);
    }
    while at < gaps.len()
        invariant
            at <= gaps@.len(),
            at == answers@.len(),
            map.text@ == owner_text@,
            batch.wf(),
            batch.carried() == old(batch).carried(),
            batch.backend() == old(batch).backend(),
            batch.log() == before + exchanged.flatten(),
            transcript(owner_text@, owner_uri@, gaps@, exchanged, answers_view(answers@)),
            before == old(batch).log(),
        decreases gaps@.len() - at,
    {
        let ghost log = batch.log();
        let ghost held = answers_view(answers@);
        let answer = ask_gap(batch, &map, owner_uri, &gaps[at]);
        let ghost more = since(log, batch.log());
        proof {
            exchanged.lemma_flatten_push(more);
            assert(batch.log() =~= log + more);
            assert(batch.log() =~= before + exchanged.push(more).flatten());
            assert(exchanged.push(more).drop_last() =~= exchanged);
        }
        match answer {
            Err(error) => {
                assert(stopped(
                    owner_text@,
                    owner_uri@,
                    gaps@,
                    exchanged.push(more),
                    held,
                    error,
                ));
                assert(stopped_between(
                    before,
                    batch.log(),
                    owner_text@,
                    owner_uri@,
                    gaps@,
                    answers_view(answers@),
                    error,
                ));
                return (answers, Some(error));
            },
            Ok(found) => {
                answers.push(found);
                proof {
                    exchanged = exchanged.push(more);
                    assert(answers_view(answers@) =~= held.push(found@));
                }
            },
        }
        at = at + 1;
    }
    (answers, None)
}

// ---------------------------------------------------------------------
// What the answers establish
// ---------------------------------------------------------------------

/// What one Resource's semantic pass produced.
#[derive(Debug, PartialEq, Eq)]
pub struct ResourceEvidence {
    pub evidence: Vec<SemanticEvidence>,
    pub deferred: Vec<DeferredGap>,
    /// The pairs of a subclass and its base that this pass established, so
    /// that what is derived from them need not wait for a merge.
    pub resolved_bases: Vec<(SymbolId, SymbolId)>,
}

/// The Symbol that the first occurrence referred to lies in.
pub open spec fn containing_symbol(
    occurrences: Seq<Occurrence>,
    site: OccurrenceRef,
) -> Option<SymbolId>
    decreases occurrences.len(),
{
    if occurrences.len() == 0 {
        None
    } else if site.names(occurrences[0]) {
        occurrences[0].containing_symbol_id
    } else {
        containing_symbol(occurrences.skip(1), site)
    }
}

/// The endpoint that a site is from: the Symbol that lexically contains it,
/// or the Resource at file level.
pub open spec fn source_of(
    owner: ResourceId,
    occurrences: Seq<Occurrence>,
    site: OccurrenceRef,
) -> EndpointView {
    match containing_symbol(occurrences, site) {
        Some(symbol) => EndpointView::Symbol(symbol),
        None => EndpointView::Resource(owner),
    }
}

/// The endpoint that a site is from.
pub fn source_endpoint(owner: ResourceId, occurrences: &[Occurrence], site: OccurrenceRef) -> (
    source: GraphEndpoint)
    ensures
        source@ == source_of(owner, occurrences@, site),
{
    let mut at: usize = 0;
    assert(occurrences@.skip(0) =~= occurrences@);
    while at < occurrences.len()
        invariant
            at <= occurrences@.len(),
            containing_symbol(occurrences@, site) == containing_symbol(
                occurrences@.skip(at as int),
                site,
            ),
        decreases occurrences@.len() - at,
    {
        assert(occurrences@.skip(at as int).skip(1) =~= occurrences@.skip(at + 1));
        if site.refers_to(&occurrences[at]) {
            return match occurrences[at].containing_symbol_id {
                Some(symbol) => GraphEndpoint::Symbol(symbol),
                None => GraphEndpoint::Resource(owner),
            };
        }
        at = at + 1;
    }
    GraphEndpoint::Resource(owner)
}

/// The name that a site writes, where it writes one.
pub open spec fn written_at(gap: PersistedUnresolved) -> Option<Chars> {
    if gap.lookup_name@.len() > 0 {
        Some(gap.lookup_name@)
    } else {
        None
    }
}

/// What an answer about a gap comes to.
pub open spec fn outcome_of_answer(
    facts: WorkspaceFacts,
    gap: PersistedUnresolved,
    answer: AnswerView,
) -> OutcomeView {
    match answer {
        AnswerView::NotAsked => OutcomeView::Unresolved(UnresolvedReason::NoStructuralBinding),
        AnswerView::Places { locations, by_name } => outcome_of_targets(
            targets_of(
                facts,
                locations,
                if by_name {
                    written_at(gap)
                } else {
                    None
                },
            ),
            gap.reason,
        ),
    }
}

/// The places that an answer names.
pub open spec fn answered_places(answer: AnswerView) -> Seq<LocationView> {
    match answer {
        AnswerView::NotAsked => Seq::empty(),
        AnswerView::Places { locations, .. } => locations,
    }
}

/// A Resource's inputs, as what is established speaks of them.
pub ghost struct RequestView {
    pub owner: Resource,
    pub gaps: Seq<PersistedUnresolved>,
    pub occurrences: Seq<Occurrence>,
    pub generation_id: i64,
    pub analysis_profile_id: i64,
    pub context_key: Chars,
}

impl<'a> View for ResourceRequest<'a> {
    type V = RequestView;

    open spec fn view(&self) -> RequestView {
        RequestView {
            owner: *self.owner,
            gaps: self.gaps@,
            occurrences: self.occurrences@,
            generation_id: self.generation_id,
            analysis_profile_id: self.analysis_profile_id,
            context_key: self.context_key@,
        }
    }
}

pub open spec fn basis_of(request: RequestView) -> BasisView {
    BasisView {
        owner_resource: request.owner.id,
        owner_resource_revision: request.owner.resource_revision@,
        generation_id: request.generation_id,
        analysis_profile_id: request.analysis_profile_id,
        resolution_context_key: None,
    }
}

/// The evidence about one gap.
pub open spec fn evidence_about(
    request: RequestView,
    gap: PersistedUnresolved,
    kind: ResolvableKind,
    outcome: OutcomeView,
) -> EvidenceView {
    EvidenceView {
        context_key: request.context_key,
        capability: answering_capability(kind, outcome),
        relation_kind: Some(relation_of(kind)),
        basis: basis_of(request),
        occurrence: Some(gap.occurrence),
        source: Some(source_of(request.owner.id, request.occurrences, gap.occurrence)),
        outcome,
        support: Support::Supported,
        dispatch: dispatch_of(kind, gap.module_hint is Some),
    }
}

/// What a pass establishes from the answers about the first gaps.
pub ghost struct Established {
    pub evidence: Seq<EvidenceView>,
    pub deferred: Seq<DeferredGap>,
    pub resolved_bases: Seq<(SymbolId, SymbolId)>,
    pub reads: Reads,
}

/// The base that a site establishes for the Symbol that it lies in.
pub open spec fn established_base(
    kind: ResolvableKind,
    source: EndpointView,
    outcome: OutcomeView,
) -> Option<(SymbolId, SymbolId)> {
    match (source, outcome) {
        (
            EndpointView::Symbol(subclass),
            OutcomeView::Resolved(EndpointView::Symbol(base)),
        ) => if kind == ResolvableKind::Extends {
            Some((subclass, base))
        } else {
            None
        },
        _ => None,
    }
}

/// What is established once one more gap has been answered.
pub open spec fn with_gap(
    established: Established,
    facts: WorkspaceFacts,
    request: RequestView,
    gap: PersistedUnresolved,
    answer: AnswerView,
) -> Established {
    match resolvable(gap.intended) {
        None => Established {
            deferred: established.deferred.push(
                DeferredGap {
                    occurrence: gap.occurrence,
                    intended: gap.intended,
                    reason: DERIVED_NOT_ASKED,
                },
            ),
            ..established
        },
        Some(kind) => {
            let outcome = outcome_of_answer(facts, gap, answer);
            let source = source_of(request.owner.id, request.occurrences, gap.occurrence);
            Established {
                evidence: established.evidence.push(evidence_about(request, gap, kind, outcome)),
                deferred: established.deferred,
                resolved_bases: match established_base(kind, source, outcome) {
                    Some(pair) => established.resolved_bases.push(pair),
                    None => established.resolved_bases,
                },
                reads: reads_after_all(established.reads, facts, answered_places(answer)),
            }
        },
    }
}

/// What the answers about the first gaps establish, in order: a gap that
/// is left alone is deferred, and every other one becomes evidence.
pub open spec fn established_by(
    reads: Reads,
    facts: WorkspaceFacts,
    request: RequestView,
    answers: Seq<AnswerView>,
) -> Established
    decreases answers.len(),
{
    if answers.len() == 0 {
        Established {
            evidence: Seq::empty(),
            deferred: Seq::empty(),
            resolved_bases: Seq::empty(),
            reads,
        }
    } else {
        with_gap(
            established_by(reads, facts, request, answers.drop_last()),
            facts,
            request,
            request.gaps[answers.len() - 1],
            answers.last(),
        )
    }
}

/// Everything that a pass produced is what the answers establish.
pub open spec fn produces(produced: ResourceEvidence, established: Established) -> bool {
    &&& evidence_view(produced.evidence@) == established.evidence
    &&& produced.deferred@ == established.deferred
    &&& produced.resolved_bases@ == established.resolved_bases
}

fn outcome_of_gap(
    normalizer: &mut Normalizer<'_>,
    gap: &PersistedUnresolved,
    answer: &GapAnswer,
) -> (outcome: SemanticOutcome)
    ensures
        outcome@ == outcome_of_answer(old(normalizer).facts(), *gap, answer@),
        final(normalizer).facts() == old(normalizer).facts(),
        final(normalizer).reads() == reads_after_all(
            old(normalizer).reads(),
            old(normalizer).facts(),
            answered_places(answer@),
        ),
{
    match answer {
        GapAnswer::NotAsked => SemanticOutcome::Unresolved {
            reason: UnresolvedReason::NoStructuralBinding,
        },
        GapAnswer::Places { locations, by_name } => {
            let written = if *by_name && !gap.lookup_name.as_str().is_empty() {
                Some(gap.lookup_name.as_str())
            } else {
                None
            };
            let targets = targets_for(normalizer, locations.as_slice(), written);
            outcome_of(targets, gap.reason)
        },
    }
}

fn basis_for(request: &ResourceRequest<'_>) -> (basis: EvidenceBasis)
    ensures
        basis@ == basis_of(request@),
{
    EvidenceBasis {
        owner_resource: request.owner.id,
        owner_resource_revision: request.owner.resource_revision.clone(),
        generation_id: request.generation_id,
        analysis_profile_id: request.analysis_profile_id,
        resolution_context_key: None,
    }
}

/// What the answers about a Resource's first gaps establish. This is all that
/// follows the backend: every outcome is decided by the answer, the
/// Workspace and the gap.
pub fn normalize_resource(
    normalizer: &mut Normalizer<'_>,
    request: &ResourceRequest<'_>,
    answers: &[GapAnswer],
) -> (produced: ResourceEvidence)
    requires
        answers@.len() <= request.gaps@.len(),
    ensures
        final(normalizer).facts() == old(normalizer).facts(),
        produces(
            produced,
            established_by(
                old(normalizer).reads(),
                old(normalizer).facts(),
                request@,
                answers_view(answers@),
            ),
        ),
        final(normalizer).reads() == established_by(
            old(normalizer).reads(),
            old(normalizer).facts(),
            request@,
            answers_view(answers@),
        ).reads,
{
    let ghost all = answers_view(answers@);
    let ghost facts = normalizer.facts();
    let ghost before = normalizer.reads();
    let mut produced = ResourceEvidence {
        evidence: Vec::new(),
        deferred: Vec::new(),
        resolved_bases: Vec::new(),
    };
    let mut at: usize = 0;
    assert(all.take(0) =~= Seq::empty());
    assert(evidence_view(produced.evidence@) =~= Seq::empty());
    while at < answers.len()
        invariant
            at <= answers@.len() <= request.gaps@.len(),
            all == answers_view(answers@),
            facts == normalizer.facts(),
            produces(produced, established_by(before, facts, request@, all.take(at as int))),
            normalizer.reads() == established_by(
                before,
                facts,
                request@,
                all.take(at as int),
            ).reads,
        decreases answers@.len() - at,
    {
        let ghost held = evidence_view(produced.evidence@);
        let ghost earlier = established_by(before, facts, request@, all.take(at as int));
        proof {
            assert(all.take(at + 1).drop_last() =~= all.take(at as int));
            assert(all.take(at + 1).last() == answers@[at as int]@);
        }
        let gap = &request.gaps[at];
        match ResolvableKind::of(gap.intended) {
            None => {
                produced.deferred.push(
                    DeferredGap {
                        occurrence: gap.occurrence,
                        intended: gap.intended,
                        reason: DERIVED_NOT_ASKED,
                    },
                );
            },
            Some(kind) => {
                let outcome = outcome_of_gap(normalizer, gap, &answers[at]);
                let source = source_endpoint(request.owner.id, request.occurrences, gap.occurrence);
                if kind == ResolvableKind::Extends {
                    match (&source, &outcome) {
                        (
                            GraphEndpoint::Symbol(subclass),
                            SemanticOutcome::Resolved { target: GraphEndpoint::Symbol(base) },
                        ) => {
                            produced.resolved_bases.push((*subclass, *base));
                        },
                        _ => {},
                    }
                }
                let item = SemanticEvidence {
                    context_key: request.context_key.to_owned(),
                    capability: kind.capability(&outcome),
                    relation_kind: Some(kind.relation_kind()),
                    basis: basis_for(request),
                    occurrence: Some(gap.occurrence),
                    source: Some(source),
                    outcome,
                    support: Support::Supported,
                    dispatch: kind.dispatch(gap),
                };
                produced.evidence.push(item);
                assert(evidence_view(produced.evidence@) =~= held.push(item@));
            },
        }
        at = at + 1;
    }
    assert(all.take(at as int) =~= all);
    produced
}

/// The URI that the backend knows the owner by.
pub open spec fn owner_uri_of(facts: WorkspaceFacts, request: RequestView) -> Chars {
    uri_of_path(path_join(facts.root, request.owner.path_rel@))
}

/// Ask the backend about every gap that a Resource owns, and normalize the
/// answers. What was answered before an error is normalized all the same, so
/// that the sources it was matched in are known to have been read.
pub fn resolve_resource<Q: PythonQueries>(
    batch: &mut Batch<'_, Q>,
    normalizer: &mut Normalizer<'_>,
    request: &ResourceRequest<'_>,
) -> (resolved: Result<ResourceEvidence, BatchError>)
    requires
        old(batch).wf(),
    ensures
        final(batch).wf(),
        final(batch).carried() == old(batch).carried(),
        final(batch).backend() == old(batch).backend(),
        final(normalizer).facts() == old(normalizer).facts(),
        resolved matches Ok(produced) ==> exists|
            exchanged: Seq<Seq<Exchange>>,
            answers: Seq<AnswerView>,
        |
            {
                &&& final(batch).log() == old(batch).log() + exchanged.flatten()
                &&& answers.len() == request.gaps@.len()
                &&& #[trigger] transcript(
                    request.owner_text@,
                    owner_uri_of(old(normalizer).facts(), request@),
                    request.gaps@,
                    exchanged,
                    answers,
                )
                &&& produces(
                    produced,
                    established_by(
                        old(normalizer).reads(),
                        old(normalizer).facts(),
                        request@,
                        answers,
                    ),
                )
                &&& final(normalizer).reads() == established_by(
                    old(normalizer).reads(),
                    old(normalizer).facts(),
                    request@,
                    answers,
                ).reads
            },
        resolved matches Err(error) ==> exists|
            exchanged: Seq<Seq<Exchange>>,
            answers: Seq<AnswerView>,
        |
            {
                &&& final(batch).log() == old(batch).log() + exchanged.flatten()
                &&& #[trigger] stopped(
                    request.owner_text@,
                    owner_uri_of(old(normalizer).facts(), request@),
                    request.gaps@,
                    exchanged,
                    answers,
                    error,
                )
                &&& final(normalizer).reads() == established_by(
                    old(normalizer).reads(),
                    old(normalizer).facts(),
                    request@,
                    answers,
                ).reads
            },
{
    let path = join_path(normalizer.workspace_root(), request.owner.path_rel.as_str());
    let owner_uri = path_to_uri(path.as_str());
    let ghost uri = owner_uri_of(normalizer.facts(), request@);
    let ghost before = batch.log();
    assert(owner_uri@ == uri);
    let (answers, error) = ask_resource(
        batch,
        owner_uri.as_str(),
        request.owner_text,
        request.gaps,
    );
    let ghost all = answers_view(answers@);
    let ghost failed = error;
    proof {
        match failed {
            None => {
                let exchanged = choose|exchanged: Seq<Seq<Exchange>>|
                    batch.log() == before + exchanged.flatten() && #[trigger] transcript(
                        request.owner_text@,
                        uri,
                        request.gaps@,
                        exchanged,
                        all,
                    );
                assert(transcript(request.owner_text@, uri, request.gaps@, exchanged, all));
            },
            Some(error) => {
                let exchanged = choose|exchanged: Seq<Seq<Exchange>>|
                    batch.log() == before + exchanged.flatten() && #[trigger] stopped(
                        request.owner_text@,
                        uri,
                        request.gaps@,
                        exchanged,
                        all,
                        error,
                    );
                assert(stopped(request.owner_text@, uri, request.gaps@, exchanged, all, error));
            },
        }
    }
    let produced = normalize_resource(normalizer, request, answers.as_slice());
    match error {
        None => Ok(produced),
        Some(error) => Err(error),
    }
}

// ---------------------------------------------------------------------
// Call hierarchy
// ---------------------------------------------------------------------

/// Whether an Occurrence sits at the site.
pub open spec fn sits_at(occurrences: Seq<Occurrence>, site: OccurrenceRef) -> bool {
    exists|i: int| 0 <= i < occurrences.len() && site.names(#[trigger] occurrences[i])
}

/// The call site that a range is: only where the range converts exactly
/// and a call site already sits there.
pub open spec fn call_site_at(
    text: Chars,
    occurrences: Seq<Occurrence>,
    range: Range,
) -> Option<OccurrenceRef> {
    match bytes_of_range(text, range) {
        Some((start, end)) => {
            let site = OccurrenceRef {
                kind: OccurrenceKind::CallSite,
                start_byte: start as usize,
                end_byte: end as usize,
            };
            if sits_at(occurrences, site) {
                Some(site)
            } else {
                None
            }
        },
        None => None,
    }
}

/// A site put behind others, unless it is among them.
pub open spec fn with_site(sites: Seq<OccurrenceRef>, site: Option<OccurrenceRef>) -> Seq<
    OccurrenceRef,
> {
    match site {
        Some(held) => if sites.contains(held) {
            sites
        } else {
            sites.push(held)
        },
        None => sites,
    }
}

/// The sites with those that ranges are.
pub open spec fn with_ranges(
    sites: Seq<OccurrenceRef>,
    text: Chars,
    occurrences: Seq<Occurrence>,
    ranges: Seq<Range>,
) -> Seq<OccurrenceRef>
    decreases ranges.len(),
{
    if ranges.len() == 0 {
        sites
    } else {
        with_site(
            with_ranges(sites, text, occurrences, ranges.drop_last()),
            call_site_at(text, occurrences, ranges.last()),
        )
    }
}

/// The call sites of a document that incoming calls name, each once, in
/// the order they come. Another document's call sites are its own.
pub open spec fn call_sites(
    text: Chars,
    occurrences: Seq<Occurrence>,
    calls: Seq<IncomingCallView>,
    uri: Chars,
) -> Seq<OccurrenceRef>
    decreases calls.len(),
{
    if calls.len() == 0 {
        Seq::empty()
    } else {
        let earlier = call_sites(text, occurrences, calls.drop_last(), uri);
        if calls.last().from.uri == uri {
            with_ranges(earlier, text, occurrences, calls.last().from_ranges)
        } else {
            earlier
        }
    }
}

/// The evidence that a call site calls the target.
pub open spec fn call_evidence(
    request: RequestView,
    target: EndpointView,
    site: OccurrenceRef,
) -> EvidenceView {
    EvidenceView {
        context_key: request.context_key,
        capability: SemanticCapability::CallsCrossFile,
        relation_kind: Some(RelationKind::Calls),
        basis: basis_of(request),
        occurrence: Some(site),
        source: Some(source_of(request.owner.id, request.occurrences, site)),
        outcome: OutcomeView::Resolved(target),
        support: Support::Supported,
        dispatch: Dispatch::Unknown,
    }
}

fn sits_there(occurrences: &[Occurrence], site: OccurrenceRef) -> (held: bool)
    ensures
        held == sits_at(occurrences@, site),
{
    let mut at: usize = 0;
    while at < occurrences.len()
        invariant
            at <= occurrences@.len(),
            forall|k: int| 0 <= k < at ==> !site.names(#[trigger] occurrences@[k]),
        decreases occurrences@.len() - at,
    {
        if site.refers_to(&occurrences[at]) {
            return true;
        }
        at = at + 1;
    }
    false
}

fn holds_site(sites: &[OccurrenceRef], wanted: OccurrenceRef) -> (held: bool)
    ensures
        held == sites@.contains(wanted),
{
    let mut at: usize = 0;
    while at < sites.len()
        invariant
            at <= sites@.len(),
            forall|k: int| 0 <= k < at ==> sites@[k] != wanted,
        decreases sites@.len() - at,
    {
        if sites[at] == wanted {
            return true;
        }
        at = at + 1;
    }
    false
}

fn add_ranges(
    sites: &mut Vec<OccurrenceRef>,
    map: &LineMap<'_>,
    occurrences: &[Occurrence],
    ranges: &[Range],
)
    ensures
        final(sites)@ == with_ranges(old(sites)@, map.text@, occurrences@, ranges@),
{
    let ghost before = sites@;
    let mut at: usize = 0;
    assert(ranges@.take(0) =~= Seq::empty());
    while at < ranges.len()
        invariant
            at <= ranges@.len(),
            sites@ == with_ranges(before, map.text@, occurrences@, ranges@.take(at as int)),
        decreases ranges@.len() - at,
    {
        assert(ranges@.take(at + 1).drop_last() =~= ranges@.take(at as int));
        if let Some((start, end)) = map.span(ranges[at]) {
            let site = OccurrenceRef {
                kind: OccurrenceKind::CallSite,
                start_byte: start,
                end_byte: end,
            };
            if sits_there(occurrences, site) && !holds_site(sites.as_slice(), site) {
                sites.push(site);
            }
        }
        at = at + 1;
    }
    assert(ranges@.take(at as int) =~= ranges@);
}

/// Turn incoming calls into call evidence for one Resource.
///
/// Each caller's ranges are exact call sites, and a range is kept only when
/// it converts exactly and an existing call site already sits there.
/// Nothing is derived, and no Occurrence is invented.
pub fn normalize_incoming_calls(
    calls: &[IncomingCall],
    target: &GraphEndpoint,
    request: &ResourceRequest<'_>,
    owner_uri: &str,
) -> (evidence: Vec<SemanticEvidence>)
    ensures
        evidence_view(evidence@) == call_sites(
            request.owner_text@,
            request.occurrences@,
            calls_view(calls@),
            owner_uri@,
        ).map_values(|site: OccurrenceRef| call_evidence(request@, target@, site)),
{
    let map = LineMap::new(request.owner_text);
    let ghost all = calls_view(calls@);
    let mut sites: Vec<OccurrenceRef> = Vec::new();
    let mut at: usize = 0;
    assert(all.take(0) =~= Seq::empty());
    while at < calls.len()
        invariant
            at <= calls@.len(),
            all == calls_view(calls@),
            map.text@ == request.owner_text@,
            sites@ == call_sites(
                request.owner_text@,
                request.occurrences@,
                all.take(at as int),
                owner_uri@,
            ),
        decreases calls@.len() - at,
    {
        proof {
            assert(all.take(at + 1).drop_last() =~= all.take(at as int));
            assert(all.take(at + 1).last() == calls@[at as int]@);
        }
        if same_text(calls[at].from.uri.as_str(), owner_uri) {
            add_ranges(
                &mut sites,
                &map,
                request.occurrences,
                calls[at].from_ranges.as_slice(),
            );
        }
        at = at + 1;
    }
    assert(all.take(at as int) =~= all);
    let ghost about = |site: OccurrenceRef| call_evidence(request@, target@, site);
    let mut evidence: Vec<SemanticEvidence> = Vec::new();
    let mut next: usize = 0;
    assert(evidence_view(evidence@) =~= sites@.take(0).map_values(about));
    while next < sites.len()
        invariant
            next <= sites@.len(),
            about == (|site: OccurrenceRef| call_evidence(request@, target@, site)),
            evidence_view(evidence@) == sites@.take(next as int).map_values(about),
        decreases sites@.len() - next,
    {
        let ghost held = evidence_view(evidence@);
        let item = SemanticEvidence {
            context_key: request.context_key.to_owned(),
            capability: SemanticCapability::CallsCrossFile,
            relation_kind: Some(RelationKind::Calls),
            basis: basis_for(request),
            occurrence: Some(sites[next]),
            source: Some(source_endpoint(request.owner.id, request.occurrences, sites[next])),
            outcome: SemanticOutcome::Resolved { target: target.clone() },
            support: Support::Supported,
            dispatch: Dispatch::Unknown,
        };
        evidence.push(item);
        assert(evidence_view(evidence@) =~= held.push(item@));
        assert(evidence_view(evidence@) =~= sites@.take(next + 1).map_values(about));
        next = next + 1;
    }
    assert(sites@.take(next as int) =~= sites@);
    evidence
}

// ---------------------------------------------------------------------
// Declared overrides
// ---------------------------------------------------------------------

/// A decorator named `override`, and the member that carries it.
#[derive(Debug, Clone, Copy, PartialEq, Eq, Structural)]
pub struct DecoratorSite {
    pub start_byte: usize,
    pub end_byte: usize,
    pub member: SymbolId,
}

/// Whether a module is one that really defines `override`.
pub open spec fn defines_override(module: Chars) -> bool {
    module == "typing"@ || module == "typing_extensions"@
}

/// Whether a target lies in a module that defines `override`, so that a
/// local function of that name does not count.
pub open spec fn is_override(target: TargetView) -> bool {
    target matches TargetView::Endpoint(EndpointView::External(entity)) && (
    entity.module_identity matches Some(module) && defines_override(module))
}

/// Whether one of the places is the `override` decorator.
pub open spec fn names_override(facts: WorkspaceFacts, locations: Seq<LocationView>) -> bool {
    exists|i: int|
        0 <= i < locations.len() && is_override(target_of(facts, #[trigger] locations[i], None))
}

/// Whether a member carries a decorator whose definition was found among
/// the places to be `override`.
pub open spec fn declares_override(
    facts: WorkspaceFacts,
    sites: Seq<DecoratorSite>,
    found: Seq<Seq<LocationView>>,
    member: SymbolId,
) -> bool {
    exists|i: int|
        0 <= i < sites.len() && i < found.len() && (#[trigger] sites[i]).member == member
            && names_override(facts, found[i])
}

/// The ids ascend, so that none occurs twice.
pub open spec fn ascending(ids: Seq<SymbolId>) -> bool {
    forall|i: int, j: int| 0 <= i < j < ids.len() ==> ids[i].value < ids[j].value
}

fn add_id(ids: &mut Vec<SymbolId>, id: SymbolId)
    requires
        ascending(old(ids)@),
    ensures
        ascending(final(ids)@),
        forall|other: SymbolId|
            final(ids)@.contains(other) <==> other == id || old(ids)@.contains(other),
{
    let ghost held = ids@;
    let mut at: usize = ids.len();
    while at > 0 && ids[at - 1].value > id.value
        invariant
            at <= ids@.len(),
            ids@ == held,
            ascending(held),
            forall|k: int| at <= k < held.len() ==> (#[trigger] held[k]).value > id.value,
        decreases at,
    {
        at = at - 1;
    }
    if at > 0 && ids[at - 1].value == id.value {
        assert(held[at - 1] == id);
        return;
    }
    ids.insert(at, id);
    proof {
        let after = held.insert(at as int, id);
        assert(ids@ == after);
        assert(after[at as int] == id);
        assert forall|i: int, j: int| 0 <= i < j < after.len() implies after[i].value
            < after[j].value by {
            if j < at {
                assert(held[i].value < held[j].value);
            } else if j == at {
                assert(held[i].value <= held[at - 1].value);
            } else if i == at {
                assert(held[j - 1].value > id.value);
            } else if i < at {
                assert(held[i].value < held[j - 1].value);
            } else {
                assert(held[i - 1].value < held[j - 1].value);
            }
        }
        assert forall|other: SymbolId| after.contains(other) <==> other == id || held.contains(
            other,
        ) by {
            if held.contains(other) {
                let k = choose|k: int| 0 <= k < held.len() && held[k] == other;
                if k < at {
                    assert(after[k] == other);
                } else {
                    assert(after[k + 1] == other);
                }
            }
            if after.contains(other) {
                let k = choose|k: int| 0 <= k < after.len() && after[k] == other;
                if k < at {
                    assert(held[k] == other);
                } else if k > at {
                    assert(held[k - 1] == other);
                }
            }
        }
    }
}

fn finds_override(normalizer: &mut Normalizer<'_>, locations: &[Location]) -> (held: bool)
    ensures
        held == names_override(old(normalizer).facts(), locations_view(locations@)),
        final(normalizer).facts() == old(normalizer).facts(),
        final(normalizer).reads() == reads_after_all(
            old(normalizer).reads(),
            old(normalizer).facts(),
            locations_view(locations@),
        ),
{
    let ghost all = locations_view(locations@);
    let ghost facts = normalizer.facts();
    let targets = targets_for(normalizer, locations, None);
    let mut at: usize = 0;
    let mut held = false;
    proof {
        assert(targets_view(targets@).len() == targets@.len());
        assert(targets_of(facts, all, None).len() == all.len());
    }
    while at < targets.len()
        invariant
            at <= targets@.len() == all.len(),
            targets_view(targets@) == targets_of(facts, all, None),
            held == exists|i: int|
                0 <= i < at && is_override(target_of(facts, #[trigger] all[i], None)),
        decreases targets@.len() - at,
    {
        proof {
            let viewed = targets_view(targets@);
            assert(viewed[at as int] == targets@[at as int]@);
            assert(viewed[at as int] == target_of(facts, all[at as int], None));
        }
        match &targets[at] {
            Target::Endpoint(GraphEndpoint::External(entity)) => match &entity.module_identity {
                Some(module) => {
                    if same_text(module.as_str(), "typing") || same_text(
                        module.as_str(),
                        "typing_extensions",
                    ) {
                        held = true;
                    }
                },
                None => {},
            },
            _ => {},
        }
        at = at + 1;
    }
    held
}

/// The places found for each decorator.
pub open spec fn places_view(found: Seq<Vec<Location>>) -> Seq<Seq<LocationView>> {
    found.map_values(|locations: Vec<Location>| locations_view(locations@))
}

/// The reads after the locations of every list were resolved.
pub open spec fn reads_after_lists(
    reads: Reads,
    facts: WorkspaceFacts,
    lists: Seq<Seq<LocationView>>,
) -> Reads
    decreases lists.len(),
{
    if lists.len() == 0 {
        reads
    } else {
        reads_after_all(reads_after_lists(reads, facts, lists.drop_last()), facts, lists.last())
    }
}

/// Which members carry a decorator that really is `override`, given where
/// each decorator's name was found to be defined.
pub fn overrides_declared(
    normalizer: &mut Normalizer<'_>,
    sites: &[DecoratorSite],
    found: &[Vec<Location>],
) -> (declared: Vec<SymbolId>)
    requires
        found@.len() <= sites@.len(),
    ensures
        final(normalizer).facts() == old(normalizer).facts(),
        ascending(declared@),
        forall|member: SymbolId| #[trigger]
            declared@.contains(member) <==> declares_override(
                old(normalizer).facts(),
                sites@,
                places_view(found@),
                member,
            ),
        final(normalizer).reads() == reads_after_lists(
            old(normalizer).reads(),
            old(normalizer).facts(),
            places_view(found@),
        ),
{
    let ghost facts = normalizer.facts();
    let ghost all = places_view(found@);
    let ghost before = normalizer.reads();
    let mut declared: Vec<SymbolId> = Vec::new();
    let mut at: usize = 0;
    assert(all.take(0) =~= Seq::empty());
    while at < found.len()
        invariant
            at <= found@.len() <= sites@.len(),
            all == places_view(found@),
            facts == normalizer.facts(),
            normalizer.reads() == reads_after_lists(before, facts, all.take(at as int)),
            ascending(declared@),
            forall|member: SymbolId| #[trigger]
                declared@.contains(member) <==> exists|i: int|
                    0 <= i < at && (#[trigger] sites@[i]).member == member && names_override(
                        facts,
                        all[i],
                    ),
        decreases sites@.len() - at,
    {
        let ghost held = declared@;
        assert(all[at as int] == locations_view(found@[at as int]@));
        assert(all.take(at + 1).drop_last() =~= all.take(at as int));
        if finds_override(normalizer, found[at].as_slice()) {
            add_id(&mut declared, sites[at].member);
        }
        proof {
            assert forall|member: SymbolId| #[trigger]
                declared@.contains(member) <==> exists|i: int|
                    0 <= i < at + 1 && (#[trigger] sites@[i]).member == member && names_override(
                        facts,
                        all[i],
                    ) by {
                if held.contains(member) {
                    let i = choose|i: int|
                        0 <= i < at && (#[trigger] sites@[i]).member == member && names_override(
                            facts,
                            all[i],
                        );
                    assert(sites@[i].member == member);
                }
                assert(sites@[at as int].member == sites@[at as int].member);
            }
        }
        at = at + 1;
    }
    assert(all.take(at as int) =~= all);
    declared
}

/// The exchanges asked where the name of a decorator is defined, and those
/// are the places. One whose span does not convert is not asked about, and
/// one that is answered otherwise than by places is at none.
pub open spec fn decorator_asked(
    text: Chars,
    uri: Chars,
    site: DecoratorSite,
    exchanges: Seq<Exchange>,
    found: Result<Seq<LocationView>, BatchError>,
) -> bool {
    match last_character_of_bytes(text, site.start_byte as nat, site.end_byte as nat) {
        None => exchanges.len() == 0 && found == Ok::<Seq<LocationView>, BatchError>(Seq::empty()),
        Some(position) => {
            &&& exchanges.len() == 1
            &&& exchanges[0].request matches PythonRequest::Definition {
                uri: asked,
                position: at,
            }
            &&& asked@ == uri
            &&& at == position
            &&& match batch_answer(exchanges[0].answer) {
                Err(error) => found == Err::<Seq<LocationView>, BatchError>(error),
                Ok(PythonResponse::Locations(locations)) => found == Ok::<
                    Seq<LocationView>,
                    BatchError,
                >(locations_view(locations@)),
                Ok(_) => found == Ok::<Seq<LocationView>, BatchError>(Seq::empty()),
            }
        },
    }
}

/// What was asked about the first decorators, in order, and what was found.
pub open spec fn decorators_asked(
    text: Chars,
    uri: Chars,
    sites: Seq<DecoratorSite>,
    exchanged: Seq<Seq<Exchange>>,
    found: Seq<Seq<LocationView>>,
) -> bool {
    &&& exchanged.len() == found.len() <= sites.len()
    &&& forall|i: int|
        0 <= i < found.len() ==> decorator_asked(
            text,
            uri,
            sites[i],
            #[trigger] exchanged[i],
            Ok(found[i]),
        )
}

/// Asking stopped at the first decorator that was answered by an error.
pub open spec fn decorators_stopped(
    text: Chars,
    uri: Chars,
    sites: Seq<DecoratorSite>,
    exchanged: Seq<Seq<Exchange>>,
    found: Seq<Seq<LocationView>>,
    error: BatchError,
) -> bool {
    &&& found.len() < sites.len()
    &&& exchanged.len() == found.len() + 1
    &&& decorators_asked(text, uri, sites, exchanged.drop_last(), found)
    &&& decorator_asked(text, uri, sites[found.len() as int], exchanged.last(), Err(error))
}

fn ask_decorator<Q: PythonQueries>(
    batch: &mut Batch<'_, Q>,
    map: &LineMap<'_>,
    owner_uri: &str,
    site: DecoratorSite,
) -> (asked: Result<Vec<Location>, BatchError>)
    requires
        old(batch).wf(),
    ensures
        final(batch).wf(),
        final(batch).carried() == old(batch).carried(),
        final(batch).backend() == old(batch).backend(),
        old(batch).log().is_prefix_of(final(batch).log()),
        decorator_asked(
            map.text@,
            owner_uri@,
            site,
            since(old(batch).log(), final(batch).log()),
            match asked {
                Ok(locations) => Ok(locations_view(locations@)),
                Err(error) => Err(error),
            },
        ),
{
    let ghost before = batch.log();
    let nowhere: Vec<Location> = Vec::new();
    assert(locations_view(nowhere@) =~= Seq::empty());
    let position = match map.last_character_position(site.start_byte, site.end_byte) {
        Some(position) => position,
        None => {
            assert(since(before, before) =~= Seq::empty());
            assert(before =~= before.subrange(0, before.len() as int));
            return Ok(nowhere);
        },
    };
    let answer = batch.call(PythonRequest::Definition { uri: owner_uri.to_owned(), position });
    proof {
        let after = batch.log();
        assert(after =~= before.push(after.last()));
        assert(since(before, after) =~= seq![after.last()]);
        assert(before =~= after.subrange(0, before.len() as int));
    }
    match answer {
        Ok(PythonResponse::Locations(locations)) => Ok(locations),
        Ok(_) => Ok(nowhere),
        Err(error) => Err(error),
    }
}

/// Asking about decorators stopped between two logs.
pub open spec fn decorators_stopped_between(
    before: Seq<Exchange>,
    after: Seq<Exchange>,
    text: Chars,
    uri: Chars,
    sites: Seq<DecoratorSite>,
    found: Seq<Seq<LocationView>>,
    error: BatchError,
) -> bool {
    exists|exchanged: Seq<Seq<Exchange>>|
        after == before + exchanged.flatten() && #[trigger] decorators_stopped(
            text,
            uri,
            sites,
            exchanged,
            found,
            error,
        )
}

fn ask_decorators<Q: PythonQueries>(
    batch: &mut Batch<'_, Q>,
    owner_uri: &str,
    owner_text: &str,
    sites: &[DecoratorSite],
) -> (asked: (Vec<Vec<Location>>, Option<BatchError>))
    requires
        old(batch).wf(),
    ensures
        final(batch).wf(),
        final(batch).carried() == old(batch).carried(),
        final(batch).backend() == old(batch).backend(),
        asked.1 is None ==> asked.0@.len() == sites@.len() && exists|
            exchanged: Seq<Seq<Exchange>>,
        |
            final(batch).log() == old(batch).log() + exchanged.flatten()
                && #[trigger] decorators_asked(
                owner_text@,
                owner_uri@,
                sites@,
                exchanged,
                places_view(asked.0@),
            ),
        asked.1 matches Some(error) ==> decorators_stopped_between(
            old(batch).log(),
            final(batch).log(),
            owner_text@,
            owner_uri@,
            sites@,
            places_view(asked.0@),
            error,
        ),
{
    let map = LineMap::new(owner_text);
    let ghost before = batch.log();
    let ghost mut exchanged: Seq<Seq<Exchange>> = Seq::empty();
    let mut found: Vec<Vec<Location>> = Vec::new();
    let mut at: usize = 0;
    proof {
        assert(exchanged.flatten() =~= Seq::empty());
        assert(before + exchanged.flatten() =~= before);
    }
    while at < sites.len()
        invariant
            at <= sites@.len(),
            at == found@.len(),
            map.text@ == owner_text@,
            batch.wf(),
            batch.carried() == old(batch).carried(),
            batch.backend() == old(batch).backend(),
            before == old(batch).log(),
            batch.log() == before + exchanged.flatten(),
            decorators_asked(
                owner_text@,
                owner_uri@,
                sites@,
                exchanged,
                places_view(found@),
            ),
        decreases sites@.len() - at,
    {
        let ghost log = batch.log();
        let ghost held = places_view(found@);
        let answer = ask_decorator(batch, &map, owner_uri, sites[at]);
        let ghost more = since(log, batch.log());
        proof {
            exchanged.lemma_flatten_push(more);
            assert(batch.log() =~= log + more);
            assert(batch.log() =~= before + exchanged.push(more).flatten());
            assert(exchanged.push(more).drop_last() =~= exchanged);
        }
        match answer {
            Err(error) => {
                assert(decorators_stopped(
                    owner_text@,
                    owner_uri@,
                    sites@,
                    exchanged.push(more),
                    held,
                    error,
                ));
                assert(decorators_stopped_between(
                    before,
                    batch.log(),
                    owner_text@,
                    owner_uri@,
                    sites@,
                    places_view(found@),
                    error,
                ));
                return (found, Some(error));
            },
            Ok(locations) => {
                found.push(locations);
                proof {
                    exchanged = exchanged.push(more);
                    assert(places_view(found@) =~= held.push(locations_view(locations@)));
                }
            },
        }
        at = at + 1;
    }
    (found, None)
}

/// Which members of a document carry a decorator that really is
/// `typing.override`.
///
/// The decorator is found in the source and then resolved: the name has to
/// land in `typing` or `typing_extensions`. It is validation evidence
/// only and never creates an edge.
pub fn declared_overrides<Q: PythonQueries>(
    batch: &mut Batch<'_, Q>,
    normalizer: &mut Normalizer<'_>,
    owner_uri: &str,
    owner_text: &str,
    sites: &[DecoratorSite],
) -> (outcome: Result<Vec<SymbolId>, BatchError>)
    requires
        old(batch).wf(),
    ensures
        final(batch).wf(),
        final(batch).carried() == old(batch).carried(),
        final(batch).backend() == old(batch).backend(),
        final(normalizer).facts() == old(normalizer).facts(),
        outcome matches Ok(declared) ==> ascending(declared@) && exists|
            exchanged: Seq<Seq<Exchange>>,
            found: Seq<Seq<LocationView>>,
        |
            {
                &&& final(batch).log() == old(batch).log() + exchanged.flatten()
                &&& found.len() == sites@.len()
                &&& #[trigger] decorators_asked(
                    owner_text@,
                    owner_uri@,
                    sites@,
                    exchanged,
                    found,
                )
                &&& forall|member: SymbolId| #[trigger]
                    declared@.contains(member) <==> declares_override(
                        old(normalizer).facts(),
                        sites@,
                        found,
                        member,
                    )
                &&& final(normalizer).reads() == reads_after_lists(
                    old(normalizer).reads(),
                    old(normalizer).facts(),
                    found,
                )
            },
        outcome matches Err(error) ==> exists|
            exchanged: Seq<Seq<Exchange>>,
            found: Seq<Seq<LocationView>>,
        |
            {
                &&& final(batch).log() == old(batch).log() + exchanged.flatten()
                &&& #[trigger] decorators_stopped(
                    owner_text@,
                    owner_uri@,
                    sites@,
                    exchanged,
                    found,
                    error,
                )
                &&& final(normalizer).reads() == reads_after_lists(
                    old(normalizer).reads(),
                    old(normalizer).facts(),
                    found,
                )
            },
{
    let (found, error) = ask_decorators(batch, owner_uri, owner_text, sites);
    let declared = overrides_declared(normalizer, sites, found.as_slice());
    match error {
        None => Ok(declared),
        Some(error) => Err(error),
    }
}

} // verus!
