//! What passes between this side and a backend.
//!
//! Every question is asked through a conversation, which keeps what was
//! asked and what came back, in order. Nothing outside this module can write
//! that record, so what it holds was really asked.

use vstd::prelude::*;

use crate::python_semantic::protocol::{carried_snapshot, PythonRequest, PythonResponse};
use crate::runtime::{failure_words, RequestFailure};
use crate::text::{count_text, decimal, joined, Chars};

verus! {

/// Whatever can answer a typed Python question.
///
/// A trait so that the normalization above it can be exercised against
/// scripted answers, without a backend process. It promises nothing of the
/// answers.
pub trait PythonQueries {
    fn call(&self, request: &PythonRequest) -> Result<PythonResponse, RequestFailure>;
}

/// Whether `answer` is what that backend may give when asked that.
pub open spec fn answered<Q: PythonQueries>(
    queries: Q,
    request: PythonRequest,
    answer: Result<PythonResponse, RequestFailure>,
) -> bool {
    call_ensures(Q::call, (&queries, &request), answer)
}

/// Why a batch produced nothing.
#[derive(Debug, PartialEq, Eq)]
pub enum BatchError {
    /// The backend refused a query because its snapshot had moved. Only ever
    /// seen inside a batch, which is then restarted whole.
    SnapshotStale,
    /// The snapshot kept moving. A partially collected batch is not a
    /// smaller answer, it is an incoherent one, so nothing is returned.
    RetriesExhausted { attempts: u32 },
    Request(RequestFailure),
    /// The backend answered a shape this adapter does not accept.
    Protocol(String),
}

/// A batch error in words.
pub open spec fn batch_words(error: BatchError) -> Chars {
    match error {
        BatchError::SnapshotStale => "the backend snapshot moved"@,
        BatchError::RetriesExhausted { attempts } => "the backend snapshot moved on every one of "@
            + decimal(attempts as int) + " attempts"@,
        BatchError::Request(failure) => failure_words(failure),
        BatchError::Protocol(detail) => "unexpected backend answer: "@ + detail@,
    }
}

impl BatchError {
    /// The error in words.
    pub fn message(&self) -> (text: String)
        ensures
            text@ == batch_words(*self),
    {
        match self {
            BatchError::SnapshotStale => "the backend snapshot moved".to_owned(),
            BatchError::RetriesExhausted { attempts } => {
                let count = count_text(*attempts as u64);
                joined(
                    joined("the backend snapshot moved on every one of ", count.as_str()).as_str(),
                    " attempts",
                )
            },
            BatchError::Request(failure) => failure.message(),
            BatchError::Protocol(detail) => joined("unexpected backend answer: ", detail.as_str()),
        }
    }
}

/// One question that was asked, and what came back.
pub ghost struct Exchange {
    pub request: PythonRequest,
    pub answer: Result<PythonResponse, RequestFailure>,
}

/// The request on that snapshot, if it is one that carries any.
pub open spec fn on_snapshot(request: PythonRequest, snapshot: u64) -> PythonRequest {
    match request {
        PythonRequest::SearchPaths { from_uri, .. } => PythonRequest::SearchPaths {
            from_uri,
            snapshot,
        },
        PythonRequest::ResolveImport { source_uri, module, .. } => PythonRequest::ResolveImport {
            source_uri,
            module,
            snapshot,
        },
        PythonRequest::DeclaredType { uri, range, .. } => PythonRequest::DeclaredType {
            uri,
            range,
            snapshot,
        },
        PythonRequest::ComputedType { uri, range, .. } => PythonRequest::ComputedType {
            uri,
            range,
            snapshot,
        },
        PythonRequest::ExpectedType { uri, range, .. } => PythonRequest::ExpectedType {
            uri,
            range,
            snapshot,
        },
        other => other,
    }
}

/// The request on that snapshot, if it is one that carries any.
pub fn with_snapshot(request: PythonRequest, snapshot: u64) -> (carried: PythonRequest)
    ensures
        carried == on_snapshot(request, snapshot),
{
    match request {
        PythonRequest::SearchPaths { from_uri, .. } => PythonRequest::SearchPaths {
            from_uri,
            snapshot,
        },
        PythonRequest::ResolveImport { source_uri, module, .. } => PythonRequest::ResolveImport {
            source_uri,
            module,
            snapshot,
        },
        PythonRequest::DeclaredType { uri, range, .. } => PythonRequest::DeclaredType {
            uri,
            range,
            snapshot,
        },
        PythonRequest::ComputedType { uri, range, .. } => PythonRequest::ComputedType {
            uri,
            range,
            snapshot,
        },
        PythonRequest::ExpectedType { uri, range, .. } => PythonRequest::ExpectedType {
            uri,
            range,
            snapshot,
        },
        other => other,
    }
}

/// Every question that carries a snapshot carries that one.
pub open spec fn coherent(log: Seq<Exchange>, snapshot: u64) -> bool {
    forall|i: int|
        0 <= i < log.len() ==> match carried_snapshot((#[trigger] log[i]).request) {
            Some(carried) => carried == snapshot,
            None => true,
        }
}

/// Every answer is one that the backend gave to that question.
pub open spec fn genuine<Q: PythonQueries>(log: Seq<Exchange>, queries: Q) -> bool {
    forall|i: int|
        0 <= i < log.len() ==> answered(queries, (#[trigger] log[i]).request, log[i].answer)
}

/// What an answer means inside a batch.
pub open spec fn batch_answer(answer: Result<PythonResponse, RequestFailure>) -> Result<
    PythonResponse,
    BatchError,
> {
    match answer {
        Err(failure) => Err(BatchError::Request(failure)),
        Ok(PythonResponse::SnapshotStale) => Err(BatchError::SnapshotStale),
        Ok(response) => Ok(response),
    }
}

/// What an answer means inside a batch.
pub fn read_answer(answer: Result<PythonResponse, RequestFailure>) -> (read: Result<
    PythonResponse,
    BatchError,
>)
    ensures
        read == batch_answer(answer),
{
    match answer {
        Err(failure) => Err(BatchError::Request(failure)),
        Ok(PythonResponse::SnapshotStale) => Err(BatchError::SnapshotStale),
        Ok(response) => Ok(response),
    }
}

/// Every query of one batch, carried on one snapshot.
pub struct Batch<'a, Q: PythonQueries> {
    queries: &'a Q,
    snapshot: u64,
    log: Ghost<Seq<Exchange>>,
}

impl<'a, Q: PythonQueries> Batch<'a, Q> {
    /// The snapshot that every query is carried on.
    pub closed spec fn carried(&self) -> u64 {
        self.snapshot
    }

    /// What has been asked and answered so far.
    pub closed spec fn log(&self) -> Seq<Exchange> {
        self.log@
    }

    /// Who answers.
    pub closed spec fn backend(&self) -> Q {
        *self.queries
    }

    /// One candidate, one coherent snapshot, and no answer but the backend's.
    pub open spec fn wf(&self) -> bool {
        &&& coherent(self.log(), self.carried())
        &&& genuine(self.log(), self.backend())
    }

    pub fn new(queries: &'a Q, snapshot: u64) -> (batch: Self)
        ensures
            batch.wf(),
            batch.carried() == snapshot,
            batch.backend() == *queries,
            batch.log().len() == 0,
    {
        Batch { queries, snapshot, log: Ghost(Seq::empty()) }
    }

    pub fn snapshot(&self) -> (snapshot: u64)
        ensures
            snapshot == self.carried(),
    {
        self.snapshot
    }

    /// Ask one question on this batch's snapshot. The snapshot is written
    /// into the request here rather than trusted from the caller.
    pub fn call(&mut self, request: PythonRequest) -> (answer: Result<PythonResponse, BatchError>)
        requires
            old(self).wf(),
        ensures
            final(self).wf(),
            final(self).carried() == old(self).carried(),
            final(self).backend() == old(self).backend(),
            final(self).log().len() == old(self).log().len() + 1,
            final(self).log().drop_last() == old(self).log(),
            final(self).log().last().request == on_snapshot(request, old(self).carried()),
            answer == batch_answer(final(self).log().last().answer),
    {
        let carried = with_snapshot(request, self.snapshot);
        let raw = self.queries.call(&carried);
        proof {
            let before = self.log@;
            let exchange = Exchange { request: carried, answer: raw };
            self.log@ = before.push(exchange);
            assert(self.log@.drop_last() =~= before);
            assert(self.log@.last() == exchange);
            assert(coherent(self.log@, self.snapshot)) by {
                assert forall|i: int| 0 <= i < self.log@.len() implies match carried_snapshot(
                    (#[trigger] self.log@[i]).request,
                ) {
                    Some(carried) => carried == self.snapshot,
                    None => true,
                } by {
                    if i < before.len() {
                        assert(self.log@[i] == before[i]);
                    }
                }
            }
            assert(genuine(self.log@, *self.queries)) by {
                assert forall|i: int| 0 <= i < self.log@.len() implies answered(
                    *self.queries,
                    (#[trigger] self.log@[i]).request,
                    self.log@[i].answer,
                ) by {
                    if i < before.len() {
                        assert(self.log@[i] == before[i]);
                    }
                }
            }
        }
        read_answer(raw)
    }
}

/// The snapshot that an answer to the snapshot question names.
pub fn snapshot_of(answer: Result<PythonResponse, RequestFailure>) -> (found: Result<
    u64,
    BatchError,
>)
    ensures
        answer matches Ok(PythonResponse::Snapshot(snapshot)) ==> found == Ok::<u64, BatchError>(
            snapshot,
        ),
        answer matches Err(failure) ==> found == Err::<u64, BatchError>(
            BatchError::Request(failure),
        ),
        answer is Ok && !(answer->Ok_0 is Snapshot) ==> {
            &&& found is Err
            &&& found->Err_0 matches BatchError::Protocol(detail)
            &&& detail@ == "expected a snapshot"@
        },
{
    match answer {
        Ok(PythonResponse::Snapshot(snapshot)) => Ok(snapshot),
        Ok(_) => Err(BatchError::Protocol("expected a snapshot".to_owned())),
        Err(failure) => Err(BatchError::Request(failure)),
    }
}

/// The batch that an answer to the snapshot question opens: one with nothing
/// asked yet on the snapshot that it names, and none where it names none.
pub open spec fn opens<Q: PythonQueries>(
    opened: Result<Batch<'_, Q>, BatchError>,
    queries: Q,
    answer: Result<PythonResponse, RequestFailure>,
) -> bool {
    match answer {
        Ok(PythonResponse::Snapshot(snapshot)) => {
            &&& opened is Ok
            &&& opened->Ok_0.wf()
            &&& opened->Ok_0.backend() == queries
            &&& opened->Ok_0.carried() == snapshot
            &&& opened->Ok_0.log().len() == 0
        },
        Ok(_) => {
            &&& opened is Err
            &&& opened->Err_0 matches BatchError::Protocol(detail)
            &&& detail@ == "expected a snapshot"@
        },
        Err(failure) => opened is Err && opened->Err_0 == BatchError::Request(failure),
    }
}

/// Everything that is asked of one backend, batch after batch.
pub struct Conversation<'a, Q: PythonQueries> {
    queries: &'a Q,
    log: Ghost<Seq<Exchange>>,
}

impl<'a, Q: PythonQueries> Conversation<'a, Q> {
    /// What has been asked and answered so far.
    pub closed spec fn log(&self) -> Seq<Exchange> {
        self.log@
    }

    /// Who answers.
    pub closed spec fn backend(&self) -> Q {
        *self.queries
    }

    /// No answer but the backend's.
    pub open spec fn wf(&self) -> bool {
        genuine(self.log(), self.backend())
    }

    pub fn new(queries: &'a Q) -> (conversation: Self)
        ensures
            conversation.wf(),
            conversation.backend() == *queries,
            conversation.log() == Seq::<Exchange>::empty(),
    {
        Conversation { queries, log: Ghost(Seq::empty()) }
    }

    /// Ask for the current snapshot, and open a batch on the one that is
    /// named.
    pub fn open(&mut self) -> (opened: Result<Batch<'a, Q>, BatchError>)
        requires
            old(self).wf(),
        ensures
            final(self).wf(),
            final(self).backend() == old(self).backend(),
            final(self).log().len() == old(self).log().len() + 1,
            final(self).log().drop_last() == old(self).log(),
            final(self).log().last().request == PythonRequest::Snapshot,
            opens(opened, old(self).backend(), final(self).log().last().answer),
    {
        let request = PythonRequest::Snapshot;
        let answer = self.queries.call(&request);
        proof {
            let before = self.log@;
            let exchange = Exchange { request, answer };
            self.log@ = before.push(exchange);
            assert(self.log@.drop_last() =~= before);
            assert(self.log@.last() == exchange);
            assert(genuine(self.log@, *self.queries)) by {
                assert forall|i: int| 0 <= i < self.log@.len() implies answered(
                    *self.queries,
                    (#[trigger] self.log@[i]).request,
                    self.log@[i].answer,
                ) by {
                    if i < before.len() {
                        assert(self.log@[i] == before[i]);
                    }
                }
            }
        }
        match snapshot_of(answer) {
            Ok(snapshot) => Ok(Batch::new(self.queries, snapshot)),
            Err(error) => Err(error),
        }
    }

    /// Take what was asked in a batch into the record.
    pub fn close(&mut self, batch: Batch<'a, Q>)
        requires
            old(self).wf(),
            batch.wf(),
            batch.backend() == old(self).backend(),
        ensures
            final(self).wf(),
            final(self).backend() == old(self).backend(),
            final(self).log() == old(self).log() + batch.log(),
    {
        proof {
            let before = self.log@;
            let more = batch.log@;
            self.log@ = before + more;
            assert(genuine(self.log@, *self.queries)) by {
                assert forall|i: int| 0 <= i < self.log@.len() implies answered(
                    *self.queries,
                    (#[trigger] self.log@[i]).request,
                    self.log@[i].answer,
                ) by {
                    if i < before.len() {
                        assert(self.log@[i] == before[i]);
                    } else {
                        assert(self.log@[i] == more[i - before.len()]);
                    }
                }
            }
        }
    }
}

} // verus!
