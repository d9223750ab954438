//! What goes wrong during evaluation.

use vstd::prelude::*;

verus! {

/// The one message with which an evaluation ends early.
#[derive(Debug, PartialEq, Eq)]
pub struct EvaluatorError(pub String);

impl View for EvaluatorError {
    type V = Seq<char>;

    open spec fn view(&self) -> Seq<char> {
        self.0@
    }
}

impl EvaluatorError {
    /// An error with the message `msg`.
    pub fn new(msg: String) -> (e: Self)
        ensures
            e@ == msg@,
    {
        EvaluatorError(msg)
    }

    /// The message.
    pub fn to_string(&self) -> (r: String)
        ensures
            r@ == self@,
    {
        self.0.clone()
    }
}

} // verus!
