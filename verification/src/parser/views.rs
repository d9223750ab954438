//! The mathematical values of what the parsing steps return.

use crate::ast::{
    expressions_view, names_view, statements_view, Expression, ExpressionView, Statement,
    StatementView,
};
use crate::parser::error::ParserError;
use crate::parser::grammar::Parsed;
use crate::token::TokenView;
use vstd::prelude::*;

verus! {

/// The result of parsing an expression and the tokens that are left, as one value.
pub open spec fn expression_view(r: Result<Expression, ParserError>, rest: Seq<TokenView>) -> Parsed<
    ExpressionView,
> {
    Parsed {
        value: match r {
            Ok(e) => Ok(e@),
            Err(e) => Err(e@),
        },
        rest,
    }
}

/// The result of parsing a statement and the tokens that are left, as one value.
pub open spec fn statement_view(r: Result<Statement, ParserError>, rest: Seq<TokenView>) -> Parsed<
    StatementView,
> {
    Parsed {
        value: match r {
            Ok(s) => Ok(s@),
            Err(e) => Err(e@),
        },
        rest,
    }
}

/// The result of parsing a block and the tokens that are left, as one value.
pub open spec fn block_view(r: Result<Vec<Statement>, ParserError>, rest: Seq<TokenView>) -> Parsed<
    Seq<StatementView>,
> {
    Parsed {
        value: match r {
            Ok(s) => Ok(statements_view(s)),
            Err(e) => Err(e@),
        },
        rest,
    }
}

/// The result of parsing the arguments of a call and the tokens that are left, as one value.
pub open spec fn arguments_view(
    r: Result<Vec<Expression>, ParserError>,
    rest: Seq<TokenView>,
) -> Parsed<Seq<ExpressionView>> {
    Parsed {
        value: match r {
            Ok(s) => Ok(expressions_view(s)),
            Err(e) => Err(e@),
        },
        rest,
    }
}

/// The result of parsing the parameters of a function and the tokens that are left, as one value.
pub open spec fn parameters_view(r: Result<Vec<String>, ParserError>, rest: Seq<TokenView>) -> Parsed<
    Seq<Seq<char>>,
> {
    Parsed {
        value: match r {
            Ok(s) => Ok(names_view(s)),
            Err(e) => Err(e@),
        },
        rest,
    }
}

} // verus!
