//! A responder that always fails with a chosen status.

use vstd::prelude::*;

use crate::http::Status;
use crate::response::{Responder, Response, ResponseView};

verus! {

/// A failing response: it hands its status to the error catcher for it.
#[derive(Debug, Clone, Copy, PartialEq, Eq, Structural, Hash)]
pub struct Failure(pub Status);

impl<B> Responder<B> for Failure {
    open spec fn responds_with(self, r: Result<ResponseView<B>, Status>) -> bool {
        r == Err::<ResponseView<B>, Status>(self.0)
    }

    fn respond_to(self) -> (out: Result<Response<B>, Status>) {
        Err(self.0)
    }
}

} // verus!
