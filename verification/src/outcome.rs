//! How the work on one target ended, and how one attempt failed.

use vstd::prelude::*;

verus! {

/// How the work on one target ended.
#[derive(Debug, PartialEq, Eq)]
pub enum Outcome {
    /// The operation went through.
    Succeeded,
    /// Every attempt failed; the text is the reason the last one gave.
    Failed(String),
}

/// What an `Outcome` stands for.
pub enum OutcomeView {
    Succeeded,
    Failed(Seq<char>),
}

impl View for Outcome {
    type V = OutcomeView;

    open spec fn view(&self) -> OutcomeView {
        match self {
            Outcome::Succeeded => OutcomeView::Succeeded,
            Outcome::Failed(reason) => OutcomeView::Failed(reason@),
        }
    }
}

impl Outcome {
    /// Whether the operation went through.
    pub fn is_succeeded(&self) -> (b: bool)
        ensures
            b == (self@ is Succeeded),
    {
        match self {
            Outcome::Succeeded => true,
            Outcome::Failed(_) => false,
        }
    }

    /// A copy of this outcome.
    pub fn duplicate(&self) -> (copy: Outcome)
        ensures
            copy@ == self@,
    {
        match self {
            Outcome::Succeeded => Outcome::Succeeded,
            Outcome::Failed(reason) => Outcome::Failed(reason.clone()),
        }
    }
}

/// One failed attempt: the target it was made on and what went wrong.
#[derive(Debug, PartialEq, Eq)]
pub struct OperationError {
    pub target: String,
    pub reason: String,
}

/// What an `OperationError` stands for.
pub struct OperationErrorView {
    pub target: Seq<char>,
    pub reason: Seq<char>,
}

impl View for OperationError {
    type V = OperationErrorView;

    open spec fn view(&self) -> OperationErrorView {
        OperationErrorView { target: self.target@, reason: self.reason@ }
    }
}

impl OperationError {
    /// The failure of an attempt on `target`, for the reason given.
    pub fn new(target: &str, reason: &str) -> (e: OperationError)
        ensures
            e@.target == target@,
            e@.reason == reason@,
    {
        OperationError { target: target.to_owned(), reason: reason.to_owned() }
    }
}

/// What the end of one attempt stands for.
pub open spec fn attempt_view(r: Result<String, OperationError>) -> Result<
    Seq<char>,
    OperationErrorView,
> {
    match r {
        Ok(signature) => Ok(signature@),
        Err(e) => Err(e@),
    }
}

} // verus!
