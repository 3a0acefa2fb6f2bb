//! Questions to the backend, carried on one coherent snapshot.
//!
//! Half a batch from one snapshot and half from the next is evidence about
//! a program state that never existed, so a batch whose snapshot moves is
//! restarted whole, and only so many times.

use vstd::prelude::*;

use crate::python_semantic::conversation::{
    answered, batch_answer, coherent, Batch, BatchError, Conversation, Exchange, PythonQueries,
};
use crate::python_semantic::coordinates::{Position, Range};
use crate::python_semantic::forms::{form_of_response, response_form};
use crate::python_semantic::protocol::{
    carried_snapshot, Location, ModuleDescriptor, PythonRequest, PythonResponse, TypeAnswer,
    WatchedChange,
};
use crate::runtime::{RequestFailure, RuntimeRequest, SemanticRequestKey};
use crate::semantic::SemanticCapability;
use crate::text::{count_text, decimal, joined, optional_chars, Chars};

verus! {

/// Renders questions for the runtime that a lease holds.
#[derive(Debug)]
pub struct LeaseQueries {
    context_key: String,
}

/// Which capability a question is asked under.
pub open spec fn asked_capability(request: PythonRequest) -> SemanticCapability {
    match request {
        PythonRequest::ResolveImport { .. } => SemanticCapability::ImportBinding,
        PythonRequest::DeclaredType { .. } => SemanticCapability::TypeResolution,
        PythonRequest::ComputedType { .. } => SemanticCapability::TypeResolution,
        PythonRequest::ExpectedType { .. } => SemanticCapability::TypeResolution,
        PythonRequest::Definition { .. } => SemanticCapability::SymbolDefinition,
        PythonRequest::Declaration { .. } => SemanticCapability::SymbolDefinition,
        PythonRequest::TypeDefinition { .. } => SemanticCapability::SymbolDefinition,
        PythonRequest::References { .. } => SemanticCapability::References,
        PythonRequest::PrepareCallHierarchy { .. } => SemanticCapability::CallsCrossFile,
        PythonRequest::IncomingCalls { .. } => SemanticCapability::CallsCrossFile,
        PythonRequest::ProtocolVersion => SemanticCapability::ResourceDiscovery,
        PythonRequest::Snapshot => SemanticCapability::ResourceDiscovery,
        PythonRequest::SearchPaths { .. } => SemanticCapability::ResourceDiscovery,
        PythonRequest::WatchedFilesChanged { .. } => SemanticCapability::ResourceDiscovery,
    }
}

/// Which capability a question is asked under, for telling questions apart
/// and for telemetry.
pub fn capability_of(request: &PythonRequest) -> (capability: SemanticCapability)
    ensures
        capability == asked_capability(*request),
{
    match request {
        PythonRequest::ResolveImport { .. } => SemanticCapability::ImportBinding,
        PythonRequest::DeclaredType { .. } => SemanticCapability::TypeResolution,
        PythonRequest::ComputedType { .. } => SemanticCapability::TypeResolution,
        PythonRequest::ExpectedType { .. } => SemanticCapability::TypeResolution,
        PythonRequest::Definition { .. } => SemanticCapability::SymbolDefinition,
        PythonRequest::Declaration { .. } => SemanticCapability::SymbolDefinition,
        PythonRequest::TypeDefinition { .. } => SemanticCapability::SymbolDefinition,
        PythonRequest::References { .. } => SemanticCapability::References,
        PythonRequest::PrepareCallHierarchy { .. } => SemanticCapability::CallsCrossFile,
        PythonRequest::IncomingCalls { .. } => SemanticCapability::CallsCrossFile,
        PythonRequest::ProtocolVersion => SemanticCapability::ResourceDiscovery,
        PythonRequest::Snapshot => SemanticCapability::ResourceDiscovery,
        PythonRequest::SearchPaths { .. } => SemanticCapability::ResourceDiscovery,
        PythonRequest::WatchedFilesChanged { .. } => SemanticCapability::ResourceDiscovery,
    }
}

impl LeaseQueries {
    pub closed spec fn context(&self) -> Chars {
        self.context_key@
    }

    pub fn new(context_key: &str) -> (queries: Self)
        ensures
            queries.context() == context_key@,
    {
        LeaseQueries { context_key: context_key.to_owned() }
    }

    /// The runtime request for a question, given its encoded payload. The
    /// payload is the question's identity, so two callers that ask it make
    /// one round trip; the snapshot is what makes two questions that look
    /// alike different ones.
    pub fn runtime_request(&self, request: &PythonRequest, payload: String) -> (rendered:
        RuntimeRequest)
        ensures
            rendered.key.context_key@ == self.context(),
            rendered.key.capability == asked_capability(*request),
            rendered.key.target@ == payload@,
            optional_chars(rendered.key.basis_token) == (match carried_snapshot(*request) {
                Some(snapshot) => Some(decimal(snapshot as int)),
                None => None,
            }),
            rendered.payload@ == payload@,
    {
        let basis_token = match request.snapshot() {
            Some(snapshot) => Some(count_text(snapshot)),
            None => None,
        };
        RuntimeRequest {
            key: SemanticRequestKey {
                context_key: self.context_key.clone(),
                capability: capability_of(request),
                target: payload.clone(),
                basis_token,
            },
            payload,
        }
    }
}

// ---------------------------------------------------------------------
// Batches
// ---------------------------------------------------------------------

/// How many times a batch may be started before it is given up. Bounded:
/// an unbounded retry would spin for as long as the project keeps changing,
/// and never say so.
#[derive(Debug, Clone, Copy, PartialEq, Eq, Structural)]
pub struct BatchPolicy {
    pub max_attempts: u32,
}

impl Default for BatchPolicy {
    fn default() -> (policy: Self)
        ensures
            policy.max_attempts == 4,
    {
        BatchPolicy { max_attempts: 4 }
    }
}

impl BatchPolicy {
    /// How many attempts the policy allows: one at the least.
    pub open spec fn attempts(self) -> u32 {
        if self.max_attempts == 0 {
            1
        } else {
            self.max_attempts
        }
    }

    pub fn allowed_attempts(&self) -> (attempts: u32)
        ensures
            attempts == self.attempts(),
    {
        if self.max_attempts == 0 {
            1
        } else {
            self.max_attempts
        }
    }
}

// ---------------------------------------------------------------------
// Restarting a batch
// ---------------------------------------------------------------------

/// What follows an attempt.
pub enum AttemptStep<T> {
    /// The snapshot moved: start the whole batch again.
    Restart,
    Finish(Result<T, BatchError>),
}

/// What follows the attempt of that number, counted from one: a stale
/// snapshot restarts the batch while attempts are left, and anything else
/// is the batch's result.
pub fn after_attempt<T>(
    policy: BatchPolicy,
    attempt: u32,
    outcome: Result<T, BatchError>,
) -> (step: AttemptStep<T>)
    ensures
        outcome matches Err(BatchError::SnapshotStale) ==> if attempt < policy.attempts() {
            step == AttemptStep::<T>::Restart
        } else {
            step == AttemptStep::<T>::Finish(
                Err(BatchError::RetriesExhausted { attempts: policy.attempts() }),
            )
        },
        !(outcome matches Err(BatchError::SnapshotStale)) ==> step == AttemptStep::Finish(outcome),
{
    match outcome {
        Err(BatchError::SnapshotStale) => {
            let attempts: u32 = policy.allowed_attempts();
            if attempt < attempts {
                AttemptStep::Restart
            } else {
                AttemptStep::Finish(Err(BatchError::RetriesExhausted { attempts }))
            }
        },
        other => AttemptStep::Finish(other),
    }
}

/// The work of one attempt: what is asked on one snapshot, and what is made
/// of the answers.
pub trait BatchBody<Q: PythonQueries> {
    type Output;

    /// What the work may come to, with those exchanges with that backend on
    /// that snapshot.
    spec fn allows(
        &self,
        queries: Q,
        snapshot: u64,
        exchanges: Seq<Exchange>,
        outcome: Result<Self::Output, BatchError>,
    ) -> bool;

    fn attempt(&mut self, batch: &mut Batch<'_, Q>) -> (outcome: Result<Self::Output, BatchError>)
        requires
            old(batch).wf(),
            old(batch).log().len() == 0,
        ensures
            final(batch).wf(),
            final(batch).backend() == old(batch).backend(),
            final(batch).carried() == old(batch).carried(),
            old(self).allows(
                old(batch).backend(),
                old(batch).carried(),
                final(batch).log(),
                outcome,
            ),
            forall|
                queries: Q,
                snapshot: u64,
                exchanges: Seq<Exchange>,
                other: Result<Self::Output, BatchError>,
            | #[trigger]
                final(self).allows(queries, snapshot, exchanges, other) ==> old(self).allows(
                    queries,
                    snapshot,
                    exchanges,
                    other,
                ),
    ;
}

/// One attempt at a batch: the snapshot question that it began with, what
/// passed on the snapshot, and what it came to.
pub ghost struct Attempt<T> {
    pub began: Exchange,
    pub exchanges: Seq<Exchange>,
    pub outcome: Result<T, BatchError>,
}

/// Everything that passed in those attempts, in order: each began with a
/// question of its own for the snapshot.
pub open spec fn exchanged<T>(attempts: Seq<Attempt<T>>) -> Seq<Exchange>
    decreases attempts.len(),
{
    if attempts.len() == 0 {
        Seq::empty()
    } else {
        exchanged(attempts.drop_last()).push(attempts.last().began) + attempts.last().exchanges
    }
}

/// The attempts of a batch, in order: all but the last met a stale
/// snapshot, none was made beyond the policy, and the last one decided.
pub open spec fn decided_by<T>(
    attempts: Seq<Attempt<T>>,
    policy: BatchPolicy,
    result: Result<T, BatchError>,
) -> bool {
    &&& 1 <= attempts.len() <= policy.attempts()
    &&& forall|i: int|
        0 <= i < attempts.len() - 1 ==> (#[trigger] attempts[i]).outcome == Err::<T, BatchError>(
            BatchError::SnapshotStale,
        )
    &&& if attempts.last().outcome == Err::<T, BatchError>(BatchError::SnapshotStale) {
        &&& attempts.len() == policy.attempts()
        &&& result == Err::<T, BatchError>(
            BatchError::RetriesExhausted { attempts: policy.attempts() },
        )
    } else {
        result == attempts.last().outcome
    }
}

/// An attempt that named no snapshot ended there, with nothing asked on any.
pub open spec fn ended_at_snapshot<T>(attempt: Attempt<T>) -> bool {
    &&& attempt.exchanges.len() == 0
    &&& match attempt.began.answer {
        Ok(_) => {
            &&& attempt.outcome is Err
            &&& attempt.outcome->Err_0 matches BatchError::Protocol(detail)
            &&& detail@ == "expected a snapshot"@
        },
        Err(failure) => attempt.outcome == Err::<T, BatchError>(BatchError::Request(failure)),
    }
}

/// One attempt: the backend was asked for a snapshot, the work was done on
/// the one it named, and where it named none the attempt ended there.
pub open spec fn attempted<Q: PythonQueries, B: BatchBody<Q>>(
    body: B,
    queries: Q,
    attempt: Attempt<B::Output>,
) -> bool {
    &&& attempt.began.request == PythonRequest::Snapshot
    &&& match attempt.began.answer {
        Ok(PythonResponse::Snapshot(snapshot)) => {
            &&& coherent(attempt.exchanges, snapshot)
            &&& body.allows(queries, snapshot, attempt.exchanges, attempt.outcome)
        },
        _ => ended_at_snapshot(attempt),
    }
}

/// Every one of those is an attempt at the work.
pub open spec fn all_attempted<Q: PythonQueries, B: BatchBody<Q>>(
    body: B,
    queries: Q,
    attempts: Seq<Attempt<B::Output>>,
) -> bool {
    forall|i: int| 0 <= i < attempts.len() ==> attempted(body, queries, #[trigger] attempts[i])
}

/// Run `body` against one coherent snapshot, restarting it whole on a fresh
/// one if the backend invalidates that snapshot partway through.
pub fn run_batch<Q: PythonQueries, B: BatchBody<Q>>(
    queries: &mut Conversation<'_, Q>,
    policy: BatchPolicy,
    body: &mut B,
) -> (result: Result<B::Output, BatchError>)
    requires
        old(queries).wf(),
    ensures
        final(queries).wf(),
        final(queries).backend() == old(queries).backend(),
        exists|attempts: Seq<Attempt<B::Output>>|
            {
                &&& #[trigger] all_attempted(*old(body), old(queries).backend(), attempts)
                &&& decided_by(attempts, policy, result)
                &&& final(queries).log() == old(queries).log() + exchanged(attempts)
            },
        result != Err::<B::Output, BatchError>(BatchError::SnapshotStale),
{
    let ghost before = queries.log();
    let ghost backend = queries.backend();
    let mut attempt: u32 = 0;
    let ghost mut attempts: Seq<Attempt<B::Output>> = Seq::empty();
    assert(before + exchanged(attempts) =~= before);
    loop
        invariant
            attempt < policy.attempts(),
            attempts.len() == attempt,
            queries.wf(),
            queries.backend() == backend,
            backend == old(queries).backend(),
            before == old(queries).log(),
            queries.log() == before + exchanged(attempts),
            all_attempted(*old(body), backend, attempts),
            forall|
                queries: Q,
                snapshot: u64,
                exchanges: Seq<Exchange>,
                outcome: Result<B::Output, BatchError>,
            | #[trigger]
                body.allows(queries, snapshot, exchanges, outcome) ==> old(body).allows(
                    queries,
                    snapshot,
                    exchanges,
                    outcome,
                ),
            forall|i: int|
                0 <= i < attempts.len() ==> (#[trigger] attempts[i]).outcome == Err::<
                    B::Output,
                    BatchError,
                >(BatchError::SnapshotStale),
        decreases policy.attempts() - attempt,
    {
        attempt = attempt + 1;
        let ghost earlier = queries.log();
        let opened = queries.open();
        let ghost began = queries.log().last();
        assert(queries.log() =~= earlier.push(began));
        let ghost mut exchanges: Seq<Exchange> = Seq::empty();
        let outcome = match opened {
            Ok(mut batch) => {
                let outcome = body.attempt(&mut batch);
                proof {
                    exchanges = batch.log();
                }
                queries.close(batch);
                outcome
            },
            Err(error) => Err(error),
        };
        proof {
            let made = Attempt { began, exchanges, outcome };
            assert(attempted(*old(body), backend, made));
            let all = attempts.push(made);
            assert(all.drop_last() =~= attempts);
            assert(queries.log() =~= earlier.push(began) + exchanges);
            assert(queries.log() =~= before + exchanged(all));
            attempts = all;
        }
        match after_attempt(policy, attempt, outcome) {
            AttemptStep::Restart => {},
            AttemptStep::Finish(result) => {
                assert(all_attempted(*old(body), backend, attempts));
                assert(decided_by(attempts, policy, result));
                return result;
            },
        }
    }
}

// ---------------------------------------------------------------------
// The questions
// ---------------------------------------------------------------------

fn unexpected(response: &PythonResponse) -> (error: BatchError)
    ensures
        error matches BatchError::Protocol(detail) && detail@ == response_form(response@),
{
    BatchError::Protocol(form_of_response(response))
}

fn unsupported(method: &String) -> (error: BatchError)
    ensures
        error matches BatchError::Protocol(detail) && detail@ == method@ + " is unsupported"@,
{
    BatchError::Protocol(joined(method.as_str(), " is unsupported"))
}

/// An error that says the backend answered something that is not accepted:
/// an unimplemented method, or an answer of another kind.
pub open spec fn refuses(error: BatchError, response: PythonResponse) -> bool {
    match response {
        PythonResponse::Unsupported(method) => error matches BatchError::Protocol(detail)
            && detail@ == method@ + " is unsupported"@,
        other => error matches BatchError::Protocol(detail) && detail@ == response_form(other@),
    }
}

/// Which locations an answer to a definition question names.
pub open spec fn locations_answered(
    answer: Result<PythonResponse, BatchError>,
    found: Result<Vec<Location>, BatchError>,
) -> bool {
    match answer {
        Err(error) => found == Err::<Vec<Location>, BatchError>(error),
        Ok(PythonResponse::Locations(locations)) => found == Ok::<Vec<Location>, BatchError>(
            locations,
        ),
        Ok(other) => found is Err && refuses(found->Err_0, other),
    }
}

/// Which module an answer to an import question names.
pub open spec fn import_answered(
    answer: Result<PythonResponse, BatchError>,
    found: Result<Option<String>, BatchError>,
) -> bool {
    match answer {
        Err(error) => found == Err::<Option<String>, BatchError>(error),
        Ok(PythonResponse::Import(uri)) => found == Ok::<Option<String>, BatchError>(uri),
        Ok(other) => found is Err && refuses(found->Err_0, other),
    }
}

/// Which type an answer to a type question names: none where the backend
/// has no such answer.
pub open spec fn type_answered(
    answer: Result<PythonResponse, BatchError>,
    found: Result<Option<TypeAnswer>, BatchError>,
) -> bool {
    match answer {
        Err(error) => found == Err::<Option<TypeAnswer>, BatchError>(error),
        Ok(PythonResponse::Type(answer)) => found == Ok::<Option<TypeAnswer>, BatchError>(answer),
        Ok(_) => found == Ok::<Option<TypeAnswer>, BatchError>(None),
    }
}

/// One exchange was added to the log, and that is its answer.
pub open spec fn asked<Q: PythonQueries>(
    before: Batch<'_, Q>,
    after: Batch<'_, Q>,
) -> bool {
    &&& after.wf()
    &&& after.carried() == before.carried()
    &&& after.backend() == before.backend()
    &&& after.log().len() == before.log().len() + 1
    &&& after.log().drop_last() == before.log()
}

/// Ask where the name at a place is defined.
pub fn ask_definition<Q: PythonQueries>(
    batch: &mut Batch<'_, Q>,
    uri: &str,
    position: Position,
) -> (found: Result<Vec<Location>, BatchError>)
    requires
        old(batch).wf(),
    ensures
        asked(*old(batch), *final(batch)),
        final(batch).log().last().request matches PythonRequest::Definition {
            uri: asked_uri,
            position: asked_at,
        } && asked_uri@ == uri@ && asked_at == position,
        locations_answered(batch_answer(final(batch).log().last().answer), found),
{
    match batch.call(PythonRequest::Definition { uri: uri.to_owned(), position }) {
        Err(error) => Err(error),
        Ok(PythonResponse::Locations(locations)) => Ok(locations),
        Ok(PythonResponse::Unsupported(method)) => Err(unsupported(&method)),
        Ok(other) => Err(unexpected(&other)),
    }
}

/// Ask which file a module is.
pub fn ask_import<Q: PythonQueries>(
    batch: &mut Batch<'_, Q>,
    source_uri: &str,
    module: ModuleDescriptor,
) -> (found: Result<Option<String>, BatchError>)
    requires
        old(batch).wf(),
    ensures
        asked(*old(batch), *final(batch)),
        final(batch).log().last().request matches PythonRequest::ResolveImport {
            source_uri: asked_uri,
            module: asked_module,
            ..
        } && asked_uri@ == source_uri@ && asked_module == module,
        import_answered(batch_answer(final(batch).log().last().answer), found),
{
    let snapshot: u64 = batch.snapshot();
    match batch.call(
        PythonRequest::ResolveImport { source_uri: source_uri.to_owned(), module, snapshot },
    ) {
        Err(error) => Err(error),
        Ok(PythonResponse::Import(uri)) => Ok(uri),
        Ok(PythonResponse::Unsupported(method)) => Err(unsupported(&method)),
        Ok(other) => Err(unexpected(&other)),
    }
}

/// Ask which type a range is declared, or computed, to have.
pub fn ask_type<Q: PythonQueries>(
    batch: &mut Batch<'_, Q>,
    uri: &str,
    range: Range,
    computed: bool,
) -> (found: Result<Option<TypeAnswer>, BatchError>)
    requires
        old(batch).wf(),
    ensures
        asked(*old(batch), *final(batch)),
        !computed ==> (final(batch).log().last().request matches PythonRequest::DeclaredType {
            uri: asked_uri,
            range: asked_range,
            ..
        } && asked_uri@ == uri@ && asked_range == range),
        computed ==> (final(batch).log().last().request matches PythonRequest::ComputedType {
            uri: asked_uri,
            range: asked_range,
            ..
        } && asked_uri@ == uri@ && asked_range == range),
        type_answered(batch_answer(final(batch).log().last().answer), found),
{
    let snapshot: u64 = batch.snapshot();
    let request = if computed {
        PythonRequest::ComputedType { uri: uri.to_owned(), range, snapshot }
    } else {
        PythonRequest::DeclaredType { uri: uri.to_owned(), range, snapshot }
    };
    match batch.call(request) {
        Err(error) => Err(error),
        Ok(PythonResponse::Type(answer)) => Ok(answer),
        Ok(_) => Ok(None),
    }
}

/// Which import roots an answer to the search path question names: none
/// where the backend does not implement it.
pub open spec fn paths_answered(
    answer: Result<PythonResponse, BatchError>,
    found: Result<Vec<String>, BatchError>,
) -> bool {
    match answer {
        Err(error) => found == Err::<Vec<String>, BatchError>(error),
        Ok(PythonResponse::SearchPaths(paths)) => found == Ok::<Vec<String>, BatchError>(paths),
        Ok(PythonResponse::Unsupported(_)) => found matches Ok(paths) && paths@.len() == 0,
        Ok(other) => found is Err && refuses(found->Err_0, other),
    }
}

/// Read the import roots that the backend uses, for external identity.
pub fn search_paths<Q: PythonQueries>(batch: &mut Batch<'_, Q>, from_uri: &str) -> (found: Result<
    Vec<String>,
    BatchError,
>)
    requires
        old(batch).wf(),
    ensures
        asked(*old(batch), *final(batch)),
        final(batch).log().last().request matches PythonRequest::SearchPaths {
            from_uri: asked_uri,
            ..
        } && asked_uri@ == from_uri@,
        paths_answered(batch_answer(final(batch).log().last().answer), found),
{
    let snapshot: u64 = batch.snapshot();
    match batch.call(PythonRequest::SearchPaths { from_uri: from_uri.to_owned(), snapshot }) {
        Err(error) => Err(error),
        Ok(PythonResponse::SearchPaths(paths)) => Ok(paths),
        Ok(PythonResponse::Unsupported(_)) => Ok(Vec::new()),
        Ok(other) => Err(unexpected(&other)),
    }
}

/// What an answer to the change notice comes to: any answer but a failure
/// counts as delivered.
pub fn notice_delivered(answer: Result<PythonResponse, RequestFailure>) -> (outcome: Result<
    (),
    RequestFailure,
>)
    ensures
        outcome is Ok <==> answer is Ok,
        answer matches Err(failure) ==> outcome == Err::<(), RequestFailure>(failure),
{
    match answer {
        Ok(_) => Ok(()),
        Err(failure) => Err(failure),
    }
}

/// Tell the backend that files changed on disk: the only synchronization
/// there is.
pub fn notify_watched_files<Q: PythonQueries>(queries: &Q, changes: Vec<WatchedChange>) -> (outcome:
    Result<(), RequestFailure>)
    ensures
        exists|answer: Result<PythonResponse, RequestFailure>|
            {
                &&& #[trigger] answered(
                    *queries,
                    PythonRequest::WatchedFilesChanged { changes },
                    answer,
                )
                &&& outcome is Ok <==> answer is Ok
                &&& answer matches Err(failure) ==> outcome == Err::<(), RequestFailure>(failure)
            },
{
    let request = PythonRequest::WatchedFilesChanged { changes };
    let answer = queries.call(&request);
    assert(answered(*queries, request, answer));
    notice_delivered(answer)
}

} // verus!
