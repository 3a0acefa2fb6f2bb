//! What the engine asks of a semantic runtime, and how one fails.

use vstd::prelude::*;

use crate::semantic::SemanticCapability;
use crate::text::{count_text, decimal, joined, Chars};

verus! {

/// A runtime's own account of what went wrong.
#[derive(Debug, PartialEq, Eq)]
pub struct HostError {
    pub message: String,
}

impl HostError {
    pub fn new(message: &str) -> (error: Self)
        ensures
            error.message@ == message@,
    {
        HostError { message: message.to_owned() }
    }
}

impl Clone for HostError {
    fn clone(&self) -> (copy: Self)
        ensures
            copy == *self,
    {
        HostError { message: self.message.clone() }
    }
}

/// Why a request got no answer.
#[derive(Debug, PartialEq, Eq)]
pub enum RequestFailure {
    Backend(HostError),
    TimedOut { after_ms: u64 },
    Cancelled,
}

impl Clone for RequestFailure {
    fn clone(&self) -> (copy: Self)
        ensures
            copy == *self,
    {
        match self {
            RequestFailure::Backend(error) => RequestFailure::Backend(error.clone()),
            RequestFailure::TimedOut { after_ms } => RequestFailure::TimedOut {
                after_ms: *after_ms,
            },
            RequestFailure::Cancelled => RequestFailure::Cancelled,
        }
    }
}

/// A failure in words.
pub open spec fn failure_words(failure: RequestFailure) -> Chars {
    match failure {
        RequestFailure::Backend(error) => error.message@,
        RequestFailure::TimedOut { after_ms } => "timed out after "@ + decimal(after_ms as int)
            + " ms"@,
        RequestFailure::Cancelled => "cancelled"@,
    }
}

impl RequestFailure {
    /// The failure in words.
    pub fn message(&self) -> (text: String)
        ensures
            text@ == failure_words(*self),
    {
        match self {
            RequestFailure::Backend(error) => error.message.clone(),
            RequestFailure::TimedOut { after_ms } => {
                let count = count_text(*after_ms);
                joined(joined("timed out after ", count.as_str()).as_str(), " ms")
            },
            RequestFailure::Cancelled => "cancelled".to_owned(),
        }
    }
}

/// What makes two requests the same question.
#[derive(Debug, PartialEq, Eq)]
pub struct SemanticRequestKey {
    pub context_key: String,
    pub capability: SemanticCapability,
    /// The request itself, as it is sent.
    pub target: String,
    /// What two questions that look alike may differ in.
    pub basis_token: Option<String>,
}

/// One question for a runtime.
#[derive(Debug, PartialEq, Eq)]
pub struct RuntimeRequest {
    pub key: SemanticRequestKey,
    pub payload: String,
}

/// Whether a runtime is alive.
#[derive(Debug, Clone, Copy, PartialEq, Eq, Structural)]
pub enum HostHealth {
    Healthy,
    Crashed,
}

/// How many requests a runtime serves at a time.
#[derive(Debug, Clone, Copy, PartialEq, Eq, Structural)]
pub enum HostConcurrency {
    Serial,
}

/// Whether a runtime is there to be asked.
#[derive(Debug, Clone, Copy, PartialEq, Eq, Structural)]
pub enum RuntimeState {
    Cold,
    Ready,
}

} // verus!
