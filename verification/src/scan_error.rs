//! Why a scan of the Workspace, or what builds on one, came to nothing.

use vstd::prelude::*;

use crate::text::{joined, Chars};

verus! {

/// Why a scan came to nothing.
#[derive(Debug, PartialEq, Eq)]
pub enum ScanError {
    /// The Workspace has no revision yet.
    ClockNotBootstrapped,
    /// What the plan was made against moved before it could be published.
    InputChanged { detail: String },
    /// The rows did not describe what was observed. A bug, not a race.
    InvariantViolated { detail: String },
    /// A step outside the index failed.
    Failed { detail: String },
}

pub ghost enum ScanErrorView {
    ClockNotBootstrapped,
    InputChanged(Chars),
    InvariantViolated(Chars),
    Failed(Chars),
}

impl View for ScanError {
    type V = ScanErrorView;

    open spec fn view(&self) -> ScanErrorView {
        match self {
            ScanError::ClockNotBootstrapped => ScanErrorView::ClockNotBootstrapped,
            ScanError::InputChanged { detail } => ScanErrorView::InputChanged(detail@),
            ScanError::InvariantViolated { detail } => ScanErrorView::InvariantViolated(detail@),
            ScanError::Failed { detail } => ScanErrorView::Failed(detail@),
        }
    }
}

impl Clone for ScanError {
    fn clone(&self) -> (copy: Self)
        ensures
            copy == *self,
    {
        match self {
            ScanError::ClockNotBootstrapped => ScanError::ClockNotBootstrapped,
            ScanError::InputChanged { detail } => ScanError::InputChanged {
                detail: detail.clone(),
            },
            ScanError::InvariantViolated { detail } => ScanError::InvariantViolated {
                detail: detail.clone(),
            },
            ScanError::Failed { detail } => ScanError::Failed { detail: detail.clone() },
        }
    }
}

/// The error in words.
pub open spec fn error_words(error: ScanErrorView) -> Chars {
    match error {
        ScanErrorView::ClockNotBootstrapped => "the workspace clock is not bootstrapped"@,
        ScanErrorView::InputChanged(detail) => "the input changed: "@ + detail,
        ScanErrorView::InvariantViolated(detail) => "resource invariant violated: "@ + detail,
        ScanErrorView::Failed(detail) => detail,
    }
}

impl ScanError {
    /// The error in words.
    pub fn message(&self) -> (text: String)
        ensures
            text@ == error_words(self@),
    {
        match self {
            ScanError::ClockNotBootstrapped => "the workspace clock is not bootstrapped".to_owned(),
            ScanError::InputChanged { detail } => joined("the input changed: ", detail.as_str()),
            ScanError::InvariantViolated { detail } => joined(
                "resource invariant violated: ",
                detail.as_str(),
            ),
            ScanError::Failed { detail } => detail.clone(),
        }
    }

    /// Whether trying again may succeed without anything being repaired.
    pub fn is_retryable(&self) -> (retryable: bool)
        ensures
            retryable == (*self is InputChanged),
    {
        match self {
            ScanError::InputChanged { .. } => true,
            _ => false,
        }
    }
}

} // verus!
