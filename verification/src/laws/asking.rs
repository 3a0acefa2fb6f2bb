//! What a refresh asks the backend, and what becomes of the answers.

use vstd::prelude::*;

use crate::graph::PersistedUnresolved;
use crate::model::{Resource, SymbolId};
use crate::paths::path_join;
use crate::python_semantic::adapter::{
    answered, answered_places, basis_of, declares_override, decorator_asked, decorators_asked,
    decorators_stopped, question_about, stopped, transcript, written_at, AnswerView, DecoratorSite,
    RequestView,
};
use crate::python_semantic::batch::{
    asked, ended_at_snapshot, import_answered, locations_answered, paths_answered, refuses,
    type_answered, Attempt,
};
use crate::python_semantic::conversation::{
    batch_answer, Batch, BatchError, Exchange, PythonQueries,
};
use crate::python_semantic::coordinates::last_character_of_bytes;
use crate::python_semantic::forms::response_form;
use crate::python_semantic::launcher::{
    follows_in_handshake, sent_by, sent_until, stage_after, HandshakeStage, HandshakeStep,
};
use crate::python_semantic::normalize::import_roots;
use crate::python_semantic::protocol::{
    carried_snapshot, locations_view, Location, LocationView, PythonRequest, PythonResponse,
    TypeAnswer,
};
use crate::python_semantic::refresh::{
    attempt_at, facts_of, follows, refreshable, reports, request_for, session_ran, Collected,
    PythonSemanticError, RefreshInputs, Session,
};
use crate::python_semantic::uri::uri_of_path;
use crate::text::Chars;

verus! {

// ---------------------------------------------------------------------
// One answer
// ---------------------------------------------------------------------

/// A definition question is answered by locations and by nothing else.
pub proof fn law_a_definition_is_answered_by_locations(
    answer: Result<PythonResponse, BatchError>,
    found: Result<Vec<Location>, BatchError>,
)
    requires
        locations_answered(answer, found),
    ensures
        found is Ok <==> answer is Ok && answer->Ok_0 is Locations,
        found matches Ok(locations) ==> answer == Ok::<PythonResponse, BatchError>(
            PythonResponse::Locations(locations),
        ),
        answer matches Err(error) ==> found == Err::<Vec<Location>, BatchError>(error),
        answer is Ok && !(answer->Ok_0 is Locations) ==> found->Err_0 is Protocol,
{
}

/// An import question is answered by a module, or by there being none, and
/// by nothing else.
pub proof fn law_an_import_is_answered_by_a_module(
    answer: Result<PythonResponse, BatchError>,
    found: Result<Option<String>, BatchError>,
)
    requires
        import_answered(answer, found),
    ensures
        found is Ok <==> answer is Ok && answer->Ok_0 is Import,
        found matches Ok(module) ==> answer == Ok::<PythonResponse, BatchError>(
            PythonResponse::Import(module),
        ),
        answer matches Err(error) ==> found == Err::<Option<String>, BatchError>(error),
{
}

/// A type question is answered by a type; a backend that has no such answer
/// has no type, and only an error is an error.
pub proof fn law_a_missing_type_answer_is_no_type(
    answer: Result<PythonResponse, BatchError>,
    found: Result<Option<TypeAnswer>, BatchError>,
)
    requires
        type_answered(answer, found),
    ensures
        found is Err <==> answer is Err,
        answer matches Err(error) ==> found == Err::<Option<TypeAnswer>, BatchError>(error),
        answer matches Ok(PythonResponse::Type(held)) ==> found == Ok::<
            Option<TypeAnswer>,
            BatchError,
        >(held),
        answer is Ok && !(answer->Ok_0 is Type) ==> found == Ok::<Option<TypeAnswer>, BatchError>(
            None,
        ),
{
}

/// The import roots are those that were reported; a backend that does not
/// implement the question has none.
pub proof fn law_import_roots_are_those_reported(
    answer: Result<PythonResponse, BatchError>,
    found: Result<Vec<String>, BatchError>,
)
    requires
        paths_answered(answer, found),
    ensures
        answer matches Ok(PythonResponse::SearchPaths(paths)) ==> found == Ok::<
            Vec<String>,
            BatchError,
        >(paths),
        answer is Ok && answer->Ok_0 is Unsupported ==> found is Ok && found->Ok_0@.len() == 0,
        answer matches Err(error) ==> found == Err::<Vec<String>, BatchError>(error),
        answer is Ok && !(answer->Ok_0 is SearchPaths) && !(answer->Ok_0 is Unsupported)
            ==> found is Err,
{
}

/// An answer that is not accepted is a protocol error: it names the method
/// that is not implemented, or quotes what was answered.
pub proof fn law_a_refused_answer_is_quoted(error: BatchError, response: PythonResponse)
    requires
        refuses(error, response),
    ensures
        error matches BatchError::Protocol(detail) && detail@ == match response {
            PythonResponse::Unsupported(method) => method@ + " is unsupported"@,
            other => response_form(other@),
        },
{
}

/// An attempt that is given no snapshot asks nothing: what was answered
/// instead is a protocol error, and a request that failed is that failure.
pub proof fn law_without_a_snapshot_nothing_is_asked<T>(attempt: Attempt<T>)
    requires
        ended_at_snapshot(attempt),
    ensures
        attempt.exchanges.len() == 0,
        attempt.outcome is Err,
        attempt.began.answer matches Err(failure) ==> attempt.outcome == Err::<T, BatchError>(
            BatchError::Request(failure),
        ),
        attempt.began.answer is Ok ==> (attempt.outcome->Err_0 matches BatchError::Protocol(detail)
            && detail@ == "expected a snapshot"@),
{
}

// ---------------------------------------------------------------------
// One Resource
// ---------------------------------------------------------------------

/// Where everything went well, the backend was asked for the import roots
/// first, as seen from the Resource's own file, then about every gap and
/// every decorator; every answer is the backend's own, and whatever carries
/// a snapshot carries the attempt's.
pub proof fn law_everything_is_asked_about<Q: PythonQueries>(
    session: Session,
    queries: Q,
    snapshot: u64,
    inputs: RefreshInputs<'_>,
    root: Chars,
    owner: Resource,
    text: Chars,
    context_key: Chars,
    collected: Collected,
    at: int,
)
    requires
        session_ran(
            session,
            queries,
            snapshot,
            inputs,
            root,
            owner,
            text,
            context_key,
            Ok(collected),
        ),
        0 <= at < session.log().len(),
    ensures
        session.log()[0].request matches PythonRequest::SearchPaths { from_uri, .. } && from_uri@
            == uri_of_path(path_join(root, owner.path_rel@)),
        session.about_gaps.len() == inputs.gaps@.len(),
        session.about_decorators.len() == inputs.decorators@.len(),
        crate::python_semantic::conversation::answered(
            queries,
            session.log()[at].request,
            session.log()[at].answer,
        ),
        carried_snapshot(session.log()[at].request) is Some ==> carried_snapshot(
            session.log()[at].request,
        ) == Some(snapshot),
{
    reveal(session_ran);
    assert(session.log()[0] == session.first);
}

/// Where something failed, what failed first is what is told, and nothing
/// is asked after it.
pub proof fn law_the_first_failure_ends_the_session<Q: PythonQueries>(
    session: Session,
    queries: Q,
    snapshot: u64,
    inputs: RefreshInputs<'_>,
    root: Chars,
    owner: Resource,
    text: Chars,
    context_key: Chars,
    error: BatchError,
)
    requires
        session_ran(
            session,
            queries,
            snapshot,
            inputs,
            root,
            owner,
            text,
            context_key,
            Err(error),
        ),
    ensures
        session.about_gaps.len() <= inputs.gaps@.len(),
        session.about_decorators.len() <= inputs.decorators@.len(),
        session.about_decorators.len() > 0 ==> session.about_gaps.len() == inputs.gaps@.len(),
        session.about_gaps.len() == 0 && session.about_decorators.len() == 0 ==> paths_answered(
            batch_answer(session.first.answer),
            Err(error),
        ),
{
    reveal(session_ran);
}

/// What is collected rests on the Workspace as it was read and on the import
/// roots that the backend reported; the members are those that a decorator
/// really declares overriding.
pub proof fn law_what_is_collected_rests_on_the_answers(
    collected: Collected,
    inputs: RefreshInputs<'_>,
    root: Chars,
    request: RequestView,
    paths: Seq<Chars>,
    answers: Seq<AnswerView>,
    found: Seq<Seq<LocationView>>,
    member: SymbolId,
    i: int,
    j: int,
)
    requires
        follows(collected, inputs, root, request, paths, answers, found),
    ensures
        facts_of(inputs, root, paths).root == root,
        facts_of(inputs, root, paths).resources == inputs.resources@,
        facts_of(inputs, root, paths).anchors == inputs.anchors@,
        facts_of(inputs, root, paths).texts == inputs.texts@,
        facts_of(inputs, root, paths).search_paths == import_roots(paths),
        collected.declared@.contains(member) <==> declares_override(
            facts_of(inputs, root, paths),
            inputs.decorators@,
            found,
            member,
        ),
        0 <= i < j < collected.declared@.len() ==> collected.declared@[i].value
            < collected.declared@[j].value,
        answers.len() == inputs.gaps@.len(),
        found.len() == inputs.decorators@.len(),
{
    reveal(follows);
}

/// A Resource is asked about with its own gaps and occurrences, under the
/// profile of the inputs, stamped with no generation yet.
pub proof fn law_a_resource_is_asked_about_with_its_own_gaps(
    owner: Resource,
    inputs: RefreshInputs<'_>,
    context_key: Chars,
)
    ensures
        request_for(owner, inputs, context_key).owner == owner,
        request_for(owner, inputs, context_key).gaps == inputs.gaps@,
        request_for(owner, inputs, context_key).occurrences == inputs.occurrences@,
        request_for(owner, inputs, context_key).generation_id == 0,
        request_for(owner, inputs, context_key).analysis_profile_id == inputs.analysis_profile_id,
        request_for(owner, inputs, context_key).context_key == context_key,
{
}

/// A refresh can be made exactly when the Resource is active and its text
/// could be read; it then is of that Resource and that text.
pub proof fn law_a_refresh_needs_its_text(
    inputs: RefreshInputs<'_>,
    owner: crate::model::ResourceId,
)
    ensures
        refreshable(inputs, owner) is Some <==> crate::python_semantic::refresh::active_by_id(
            inputs.resources@,
            owner,
        ) is Some && inputs.owner_text is Ok,
        refreshable(inputs, owner) matches Some((resource, text)) ==> resource.id == owner
            && inputs.owner_text->Ok_0@ == text,
{
    crate::laws::refreshing::law_only_an_active_resource_is_refreshed(inputs.resources@, owner);
}

/// What the batch came to is what is reported: its evidence as it is, or its
/// error as the backend's.
pub proof fn law_a_batch_is_reported_as_it_ended(
    outcome: Result<Collected, PythonSemanticError>,
    result: Result<Collected, BatchError>,
)
    requires
        reports(outcome, result),
    ensures
        outcome is Ok <==> result is Ok,
        result matches Ok(collected) ==> outcome == Ok::<Collected, PythonSemanticError>(collected),
        result matches Err(error) ==> outcome == Err::<Collected, PythonSemanticError>(
            PythonSemanticError::Backend(error),
        ),
{
}

/// An attempt begins by asking for a snapshot, and works on the one that it
/// is given.
pub proof fn law_an_attempt_works_on_the_snapshot_it_is_given<Q: PythonQueries>(
    queries: Q,
    inputs: RefreshInputs<'_>,
    root: Chars,
    owner: Resource,
    text: Chars,
    context_key: Chars,
    attempt: Attempt<Collected>,
    at: int,
)
    requires
        attempt_at(queries, inputs, root, owner, text, context_key, attempt),
        0 <= at < attempt.exchanges.len(),
    ensures
        attempt.began.request == PythonRequest::Snapshot,
        attempt.began.answer matches Ok(PythonResponse::Snapshot(snapshot)) && (carried_snapshot(
            attempt.exchanges[at].request,
        ) is Some ==> carried_snapshot(attempt.exchanges[at].request) == Some(snapshot)),
{
    if let Ok(PythonResponse::Snapshot(snapshot)) = attempt.began.answer {
        let session = choose|session: Session|
            #[trigger] session_ran(
                session,
                queries,
                snapshot,
                inputs,
                root,
                owner,
                text,
                context_key,
                attempt.outcome,
            ) && session.log() == attempt.exchanges;
        reveal(session_ran);
    }
}

// ---------------------------------------------------------------------
// Gaps and decorators
// ---------------------------------------------------------------------

/// Every gap that was asked about has its own answer, in order, to the
/// question that its site and kind ask.
pub proof fn law_each_gap_has_its_own_answer(
    text: Chars,
    uri: Chars,
    gaps: Seq<PersistedUnresolved>,
    exchanged: Seq<Seq<Exchange>>,
    answers: Seq<AnswerView>,
    at: int,
)
    requires
        transcript(text, uri, gaps, exchanged, answers),
        0 <= at < answers.len(),
    ensures
        answers.len() <= gaps.len(),
        exchanged.len() == answers.len(),
        answered(
            question_about(text, gaps[at].occurrence, gaps[at].intended),
            uri,
            exchanged[at],
            Ok(answers[at]),
        ),
{
    assert(exchanged[at] == exchanged[at]);
}

/// Asking about gaps stops at the one that failed: every earlier one has its
/// answer, and no later one was asked about.
pub proof fn law_asking_stops_at_the_gap_that_failed(
    text: Chars,
    uri: Chars,
    gaps: Seq<PersistedUnresolved>,
    exchanged: Seq<Seq<Exchange>>,
    answers: Seq<AnswerView>,
    error: BatchError,
)
    requires
        stopped(text, uri, gaps, exchanged, answers, error),
    ensures
        answers.len() < gaps.len(),
        exchanged.len() == answers.len() + 1,
        answered(
            question_about(
                text,
                gaps[answers.len() as int].occurrence,
                gaps[answers.len() as int].intended,
            ),
            uri,
            exchanged[answers.len() as int],
            Err(error),
        ),
{
}

/// A decorator is asked about once, where the last character of its name is
/// defined; one whose span is no place is not asked about and is defined
/// nowhere.
pub proof fn law_a_decorator_is_asked_for_where_it_is_defined(
    text: Chars,
    uri: Chars,
    site: DecoratorSite,
    exchanges: Seq<Exchange>,
    found: Result<Seq<LocationView>, BatchError>,
)
    requires
        decorator_asked(text, uri, site, exchanges, found),
    ensures
        ({
            let place = last_character_of_bytes(
                text,
                site.start_byte as nat,
                site.end_byte as nat,
            );
            &&& place is None ==> exchanges.len() == 0 && found is Ok && found->Ok_0.len() == 0
            &&& place is Some ==> exchanges.len() == 1 && (exchanges[0].request
                matches PythonRequest::Definition { uri: asked, position } && asked@ == uri
                && position == place->0)
        }),
        exchanges.len() == 1 && exchanges[0].answer is Err ==> found is Err,
        exchanges.len() == 1 ==> (exchanges[0].answer matches Ok(
            PythonResponse::Locations(locations),
        ) ==> found == Ok::<Seq<LocationView>, BatchError>(locations_view(locations@))),
        exchanges.len() == 1 && exchanges[0].answer is Ok && exchanges[0].answer->Ok_0
            is SnapshotStale ==> found == Err::<Seq<LocationView>, BatchError>(
            BatchError::SnapshotStale,
        ),
{
}

/// Each decorator has its own places, in order, and asking stops at the one
/// that failed.
pub proof fn law_each_decorator_has_its_own_places(
    text: Chars,
    uri: Chars,
    sites: Seq<DecoratorSite>,
    exchanged: Seq<Seq<Exchange>>,
    found: Seq<Seq<LocationView>>,
    error: BatchError,
    at: int,
)
    ensures
        decorators_asked(text, uri, sites, exchanged, found) && 0 <= at < found.len()
            ==> decorator_asked(text, uri, sites[at], exchanged[at], Ok(found[at])),
        decorators_stopped(text, uri, sites, exchanged, found, error) ==> found.len() < sites.len()
            && exchanged.len() == found.len() + 1 && decorator_asked(
            text,
            uri,
            sites[found.len() as int],
            exchanged[found.len() as int],
            Err(error),
        ),
{
    if decorators_asked(text, uri, sites, exchanged, found) && 0 <= at < found.len() {
        assert(exchanged[at] == exchanged[at]);
    }
}

/// A site names what it writes, where it writes anything; an answer names
/// its places, and none where nothing was asked.
pub proof fn law_a_site_names_what_it_writes(gap: PersistedUnresolved, answer: AnswerView)
    ensures
        gap.lookup_name@.len() > 0 ==> written_at(gap) == Some(gap.lookup_name@),
        gap.lookup_name@.len() == 0 ==> written_at(gap) is None,
        answer is NotAsked ==> answered_places(answer).len() == 0,
        answer matches AnswerView::Places { locations, .. } ==> answered_places(answer)
            == locations,
{
}

/// Evidence rests on its owner at the owner's revision, under the request's
/// generation and profile.
pub proof fn law_evidence_rests_on_its_owner(request: RequestView)
    ensures
        basis_of(request).owner_resource == request.owner.id,
        basis_of(request).owner_resource_revision == request.owner.resource_revision@,
        basis_of(request).generation_id == request.generation_id,
        basis_of(request).analysis_profile_id == request.analysis_profile_id,
        basis_of(request).resolution_context_key is None,
{
}

// ---------------------------------------------------------------------
// The handshake
// ---------------------------------------------------------------------

/// Whatever a handshake puts on the wire next follows what it has put there
/// already: it initializes, announces that, and then asks for the version.
pub proof fn law_the_wire_shows_the_handshake(
    stage: HandshakeStage,
    reply: Result<crate::json::Json, String>,
    step: HandshakeStep,
    next: HandshakeStage,
)
    requires
        follows_in_handshake(stage, reply, step),
        stage_after(step) == Some(next),
    ensures
        sent_until(next) == sent_until(stage) + sent_by(step),
        sent_until(HandshakeStage::Initializing) == seq!["initialize"@],
        sent_until(HandshakeStage::Negotiating) == seq![
            "initialize"@,
            "initialized"@,
            "typeServer/getSupportedProtocolVersion"@,
        ],
{
    assert(sent_until(next) =~= sent_until(stage) + sent_by(step));
}

/// A question adds one exchange to the log and changes nothing else of the
/// batch.
pub proof fn law_a_question_adds_one_exchange<Q: PythonQueries>(
    before: Batch<'_, Q>,
    after: Batch<'_, Q>,
)
    requires
        asked(before, after),
    ensures
        after.log() == before.log().push(after.log().last()),
        after.carried() == before.carried(),
        after.backend() == before.backend(),
{
    assert(after.log() =~= after.log().drop_last().push(after.log().last()));
}

} // verus!
