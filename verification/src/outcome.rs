//! The outcome of a request handler: success, failure, or forwarding to the
//! next matching route.

use vstd::prelude::*;

use crate::data::Data;
use crate::http::Status;
use crate::response::{Responder, Response, ResponseView};

verus! {

/// The three ways in which processing can end.
#[derive(Debug)]
pub enum Outcome<S, E, F> {
    /// Processing succeeded with a value.
    Success(S),
    /// Processing failed with an error.
    Failure(E),
    /// Processing did not apply; the value is passed on.
    Forward(F),
}

impl<S, E, F> Outcome<S, E, F> {
    /// An outcome of `Failure` with the given error.
    pub fn failure(e: E) -> (o: Outcome<S, E, F>)
        ensures
            o == Outcome::<S, E, F>::Failure(e),
    {
        Outcome::Failure(e)
    }

    /// An outcome of `Forward` with the given value.
    pub fn forward(f: F) -> (o: Outcome<S, E, F>)
        ensures
            o == Outcome::<S, E, F>::Forward(f),
    {
        Outcome::Forward(f)
    }

    /// Whether the outcome is a success.
    pub fn is_success(&self) -> (b: bool)
        ensures
            b == (*self is Success),
    {
        match self {
            Outcome::Success(_) => true,
            _ => false,
        }
    }

    /// Whether the outcome is a failure.
    pub fn is_failure(&self) -> (b: bool)
        ensures
            b == (*self is Failure),
    {
        match self {
            Outcome::Failure(_) => true,
            _ => false,
        }
    }

    /// Whether the outcome is a forward.
    pub fn is_forward(&self) -> (b: bool)
        ensures
            b == (*self is Forward),
    {
        match self {
            Outcome::Forward(_) => true,
            _ => false,
        }
    }
}

/// The outcome of a request handler: a response, a failing status, or the
/// body data handed on to the next matching route.
pub type HandlerOutcome<B, D> = Outcome<Response<B>, Status, Data<D>>;

/// The result that an outcome stands for: a success's response, or a
/// failure's status. A forward stands for none.
pub open spec fn outcome_result<B, D>(o: HandlerOutcome<B, D>) -> Option<Result<ResponseView<B>, Status>> {
    match o {
        Outcome::Success(resp) => Some(Ok(resp@)),
        Outcome::Failure(s) => Some(Err(s)),
        Outcome::Forward(_) => None,
    }
}

impl<B, D> Outcome<Response<B>, Status, Data<D>> {
    /// The outcome of a handler's result. When the handler gave a responder,
    /// the outcome is `Success` with its response when it responds, `Failure`
    /// with its status when it fails. When the handler failed with a status,
    /// the outcome is `Failure` with that status.
    pub fn from<R: Responder<B>>(result: Result<R, Status>) -> (o: HandlerOutcome<B, D>)
        ensures
            match result {
                Ok(x) => outcome_result(o) matches Some(r) && x.responds_with(r),
                Err(s) => outcome_result(o) == Some(Err::<ResponseView<B>, Status>(s)),
            },
    {
        match result {
            Ok(responder) => match responder.respond_to() {
                Ok(response) => Outcome::Success(response),
                Err(status) => Outcome::Failure(status),
            },
            Err(status) => Outcome::Failure(status),
        }
    }
}

} // verus!
