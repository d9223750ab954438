//! What the parser reports of a text that it cannot accept.

use crate::token::{Token, TokenView};
use vstd::prelude::*;
use vstd::string::StringExecFns;

verus! {

/// One defect of a source text.
#[derive(Debug, PartialEq, Eq)]
pub enum ParserError {
    /// The token `expected` had to come next, and `found` came.
    UnexpectedToken { expected: Token, found: Token },
    /// A name had to stand where `found` stands.
    ExpectedIdentifier { found: Token },
    /// No expression starts with `found`.
    NoPrefixRule { found: Token },
}

/// The defects of a source text, in the order in which they were found.
pub type ParserErrors = Vec<ParserError>;

/// The mathematical value of a [`ParserError`].
pub enum ParserErrorView {
    UnexpectedToken { expected: TokenView, found: TokenView },
    ExpectedIdentifier { found: TokenView },
    NoPrefixRule { found: TokenView },
}

impl View for ParserError {
    type V = ParserErrorView;

    open spec fn view(&self) -> ParserErrorView {
        match self {
            ParserError::UnexpectedToken { expected, found } => ParserErrorView::UnexpectedToken {
                expected: expected@,
                found: found@,
            },
            ParserError::ExpectedIdentifier { found } => ParserErrorView::ExpectedIdentifier {
                found: found@,
            },
            ParserError::NoPrefixRule { found } => ParserErrorView::NoPrefixRule { found: found@ },
        }
    }
}

impl ParserErrorView {
    /// The error in words.
    pub open spec fn message(self) -> Seq<char> {
        match self {
            ParserErrorView::UnexpectedToken { expected, found } => "expected next token to be "@
                + expected.text() + ", but got "@ + found.text() + " instead"@,
            ParserErrorView::ExpectedIdentifier { found } => "expected identifier, got "@
                + found.text(),
            ParserErrorView::NoPrefixRule { found } => "no prefix parse function for "@
                + found.text() + " found"@,
        }
    }
}

/// The values of a list of errors.
pub open spec fn errors_view(v: Vec<ParserError>) -> Seq<ParserErrorView> {
    Seq::new(v.len() as nat, |i: int| v[i]@)
}

impl Clone for ParserError {
    fn clone(&self) -> (r: Self)
        ensures
            r == *self,
    {
        match self {
            ParserError::UnexpectedToken { expected, found } => ParserError::UnexpectedToken {
                expected: expected.clone(),
                found: found.clone(),
            },
            ParserError::ExpectedIdentifier { found } => ParserError::ExpectedIdentifier {
                found: found.clone(),
            },
            ParserError::NoPrefixRule { found } => ParserError::NoPrefixRule {
                found: found.clone(),
            },
        }
    }
}

impl ParserError {
    /// The error in words.
    pub fn to_string(&self) -> (r: String)
        ensures
            r@ == self@.message(),
    {
        let mut out = String::new();
        match self {
            ParserError::UnexpectedToken { expected, found } => {
                out.append("expected next token to be ");
                expected.write_to(&mut out);
                out.append(", but got ");
                found.write_to(&mut out);
                out.append(" instead");
            },
            ParserError::ExpectedIdentifier { found } => {
                out.append("expected identifier, got ");
                found.write_to(&mut out);
            },
            ParserError::NoPrefixRule { found } => {
                out.append("no prefix parse function for ");
                found.write_to(&mut out);
                out.append(" found");
            },
        }
        assert(out@ =~= self@.message());
        out
    }
}

/// A copy of a list of errors.
pub fn clone_errors(v: &Vec<ParserError>) -> (r: Vec<ParserError>)
    ensures
        r@ == v@,
        errors_view(r) == errors_view(*v),
{
    let mut out: Vec<ParserError> = Vec::new();
    let mut i: usize = 0;
    while i < v.len()
        invariant
            i <= v.len(),
            out.len() == i,
            forall|j: int| 0 <= j < i ==> out[j] == v[j],
        decreases v.len() - i,
    {
        out.push(v[i].clone());
        i = i + 1;
    }
    assert(out@ =~= v@);
    assert(errors_view(out) =~= errors_view(*v));
    out
}

} // verus!
