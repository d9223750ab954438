//! The grammar, as functions from the tokens that are left to what is parsed
//! and the tokens that are left after it.
//!
//! A list of tokens holds no end-of-input token: the end of the list stands
//! for it. The first token of a list is the current one. A function that
//! parses a construct starts with the construct's first token current and
//! ends with its last token current.
//!
//! The functions call one another in a circle. Each is opaque, so that a
//! proof unfolds only those that it reveals.

use crate::ast::{ExpressionView, LiteralView, StatementView};
use crate::parser::error::ParserErrorView;
use crate::parser::precedence::precedence_of;
use crate::token::TokenView;
use vstd::prelude::*;

verus! {

/// What a parsing step gives: a value or an error, and the tokens that are
/// left, the first of them current.
pub struct Parsed<T> {
    pub value: Result<T, ParserErrorView>,
    pub rest: Seq<TokenView>,
}

/// `rest`, unless it is longer than `bound`: then `bound`. No parsing step
/// gives back more tokens than it was given, so on what the steps give this
/// changes nothing: the lemmas of [`crate::parser::shrink`] show it.
pub open spec fn clip(rest: Seq<TokenView>, bound: Seq<TokenView>) -> Seq<TokenView> {
    if rest.len() <= bound.len() {
        rest
    } else {
        bound
    }
}

impl<T> Parsed<T> {
    /// The same outcome, with the rest clipped to `bound`.
    pub open spec fn within(self, bound: Seq<TokenView>) -> Parsed<T> {
        Parsed { value: self.value, rest: clip(self.rest, bound) }
    }
}

/// The current token.
pub open spec fn current(ts: Seq<TokenView>) -> TokenView {
    if ts.len() > 0 {
        ts[0]
    } else {
        TokenView::Eof
    }
}

/// The token after the current one.
pub open spec fn following(ts: Seq<TokenView>) -> TokenView {
    if ts.len() > 1 {
        ts[1]
    } else {
        TokenView::Eof
    }
}

/// The tokens after one step forward. At the end of the input a step
/// changes nothing.
pub open spec fn advance(ts: Seq<TokenView>) -> Seq<TokenView> {
    if ts.len() > 0 {
        ts.drop_first()
    } else {
        ts
    }
}

/// Steps forward if the following token is `t`, and fails without moving
/// otherwise.
pub open spec fn expect_next(ts: Seq<TokenView>, t: TokenView) -> Parsed<()> {
    if following(ts) == t {
        Parsed { value: Ok(()), rest: advance(ts) }
    } else {
        Parsed {
            value: Err(ParserErrorView::UnexpectedToken { expected: t, found: following(ts) }),
            rest: ts,
        }
    }
}

/// Whether `t` is a binary operator.
pub open spec fn is_infix_operator(t: TokenView) -> bool {
    t is Plus || t is Minus || t is Slash || t is Asterisk || t is Eq || t is NotEq || t is Lt
        || t is Gt
}

/// A statement: `let`, `return`, or an expression.
#[verifier::opaque]
pub open spec fn statement(ts: Seq<TokenView>) -> Parsed<StatementView>
    decreases ts.len(), 6int,
{
    match current(ts) {
        TokenView::Let => let_statement(ts),
        TokenView::Return => return_statement(ts),
        _ => expression_statement(ts),
    }
}

/// `let`, a name, `=`, an expression, `;`.
#[verifier::opaque]
pub open spec fn let_statement(ts: Seq<TokenView>) -> Parsed<StatementView>
    decreases ts.len(), 5int,
{
    match following(ts) {
        TokenView::Ident(name) => {
            let a = expect_next(advance(ts), TokenView::Assign);
            match a.value {
                Err(e) => Parsed { value: Err(e), rest: a.rest },
                Ok(_) => {
                    let p = expression(advance(a.rest), 0);
                    match p.value {
                        Err(e) => Parsed { value: Err(e), rest: p.rest },
                        Ok(e) => {
                            let s = expect_next(p.rest, TokenView::Semicolon);
                            match s.value {
                                Err(x) => Parsed { value: Err(x), rest: s.rest },
                                Ok(_) => Parsed {
                                    value: Ok(StatementView::Let(name, e)),
                                    rest: s.rest,
                                },
                            }
                        },
                    }
                },
            }
        },
        t => Parsed { value: Err(ParserErrorView::ExpectedIdentifier { found: t }), rest: ts },
    }
}

/// `return`, an expression, `;`.
#[verifier::opaque]
pub open spec fn return_statement(ts: Seq<TokenView>) -> Parsed<StatementView>
    decreases ts.len(), 5int,
{
    let p = expression(advance(ts), 0);
    match p.value {
        Err(e) => Parsed { value: Err(e), rest: p.rest },
        Ok(e) => {
            let s = expect_next(p.rest, TokenView::Semicolon);
            match s.value {
                Err(x) => Parsed { value: Err(x), rest: s.rest },
                Ok(_) => Parsed { value: Ok(StatementView::Return(e)), rest: s.rest },
            }
        },
    }
}

/// An expression, and a `;` if one follows.
#[verifier::opaque]
pub open spec fn expression_statement(ts: Seq<TokenView>) -> Parsed<StatementView>
    decreases ts.len(), 5int,
{
    let p = expression(ts, 0);
    match p.value {
        Err(e) => Parsed { value: Err(e), rest: p.rest },
        Ok(e) => Parsed {
            value: Ok(StatementView::Expr(e)),
            rest: if following(p.rest) is Semicolon {
                advance(p.rest)
            } else {
                p.rest
            },
        },
    }
}

/// An expression whose operators all bind tighter than `level`: an operand,
/// then every operator and call that follows it and binds tighter.
#[verifier::opaque]
pub open spec fn expression(ts: Seq<TokenView>, level: int) -> Parsed<ExpressionView>
    decreases ts.len(), 3int,
{
    let p = operand(ts).within(ts);
    match p.value {
        Err(e) => Parsed { value: Err(e), rest: p.rest },
        Ok(left) => operators(p.rest, left, level),
    }
}

/// What an expression starts with: a name, a literal, a prefix operator with
/// its operand, an expression in parentheses, an `if` or a function.
#[verifier::opaque]
pub open spec fn operand(ts: Seq<TokenView>) -> Parsed<ExpressionView>
    decreases ts.len(), 2int,
{
    match current(ts) {
        TokenView::Bang => prefix_expression(ts),
        TokenView::Minus => prefix_expression(ts),
        TokenView::Ident(name) => Parsed { value: Ok(ExpressionView::Identifier(name)), rest: ts },
        TokenView::Int(i) => Parsed {
            value: Ok(ExpressionView::Lit(LiteralView::Int(i))),
            rest: ts,
        },
        TokenView::String(s) => Parsed {
            value: Ok(ExpressionView::Lit(LiteralView::String(s))),
            rest: ts,
        },
        TokenView::Boolean(b) => Parsed {
            value: Ok(ExpressionView::Lit(LiteralView::Bool(b))),
            rest: ts,
        },
        TokenView::LParen => {
            let p = expression(advance(ts), 0);
            match p.value {
                Err(e) => Parsed { value: Err(e), rest: p.rest },
                Ok(e) => {
                    let q = expect_next(p.rest, TokenView::RParen);
                    match q.value {
                        Err(x) => Parsed { value: Err(x), rest: q.rest },
                        Ok(_) => Parsed { value: Ok(e), rest: q.rest },
                    }
                },
            }
        },
        TokenView::If => if_expression(ts),
        TokenView::Fn => function_literal(ts),
        t => Parsed { value: Err(ParserErrorView::NoPrefixRule { found: t }), rest: ts },
    }
}

/// A prefix operator, which is current, and its operand.
#[verifier::opaque]
pub open spec fn prefix_expression(ts: Seq<TokenView>) -> Parsed<ExpressionView>
    decreases ts.len(), 1int,
{
    if ts.len() == 0 {
        Parsed { value: Err(ParserErrorView::NoPrefixRule { found: TokenView::Eof }), rest: ts }
    } else {
        let p = expression(advance(ts), 5);
        match p.value {
            Err(e) => Parsed { value: Err(e), rest: p.rest },
            Ok(e) => Parsed {
                value: Ok(ExpressionView::Prefix(current(ts), Box::new(e))),
                rest: p.rest,
            },
        }
    }
}

/// The operators and calls that follow `left` and bind tighter than `level`,
/// applied to it from left to right.
#[verifier::opaque]
pub open spec fn operators(ts: Seq<TokenView>, left: ExpressionView, level: int) -> Parsed<
    ExpressionView,
>
    decreases ts.len(), 0int,
{
    let next = following(ts);
    if !(next is Semicolon) && level < precedence_of(next).level() {
        if is_infix_operator(next) {
            let p = infix_expression(advance(ts), left).within(advance(ts));
            match p.value {
                Err(e) => Parsed { value: Err(e), rest: p.rest },
                Ok(e) => operators(p.rest, e, level),
            }
        } else if next is LParen {
            let p = call_expression(advance(ts), left).within(advance(ts));
            match p.value {
                Err(e) => Parsed { value: Err(e), rest: p.rest },
                Ok(e) => operators(p.rest, e, level),
            }
        } else {
            Parsed { value: Ok(left), rest: ts }
        }
    } else {
        Parsed { value: Ok(left), rest: ts }
    }
}

/// A binary operator, which is current, and its right operand: an
/// expression whose operators bind tighter than this one.
#[verifier::opaque]
pub open spec fn infix_expression(ts: Seq<TokenView>, left: ExpressionView) -> Parsed<
    ExpressionView,
>
    decreases ts.len(), 4int,
{
    let op = current(ts);
    let p = expression(advance(ts), precedence_of(op).level());
    match p.value {
        Err(e) => Parsed { value: Err(e), rest: p.rest },
        Ok(right) => Parsed {
            value: Ok(ExpressionView::Infix(op, Box::new(left), Box::new(right))),
            rest: p.rest,
        },
    }
}

/// The arguments of a call of `callee`; the opening parenthesis is current.
#[verifier::opaque]
pub open spec fn call_expression(ts: Seq<TokenView>, callee: ExpressionView) -> Parsed<
    ExpressionView,
>
    decreases ts.len(), 6int,
{
    let p = call_arguments(ts);
    match p.value {
        Err(e) => Parsed { value: Err(e), rest: p.rest },
        Ok(args) => Parsed {
            value: Ok(ExpressionView::Call(Box::new(callee), args)),
            rest: p.rest,
        },
    }
}

/// Expressions with commas between them, up to the closing parenthesis; the
/// opening parenthesis is current.
#[verifier::opaque]
pub open spec fn call_arguments(ts: Seq<TokenView>) -> Parsed<Seq<ExpressionView>>
    decreases ts.len(), 5int,
{
    if following(ts) is RParen {
        Parsed { value: Ok(Seq::empty()), rest: advance(ts) }
    } else {
        let p = expression(advance(ts), 0).within(advance(ts));
        match p.value {
            Err(e) => Parsed { value: Err(e), rest: p.rest },
            Ok(e) => more_arguments(p.rest, seq![e]),
        }
    }
}

/// The arguments after those in `args`; the last token of the last of them
/// is current.
#[verifier::opaque]
pub open spec fn more_arguments(ts: Seq<TokenView>, args: Seq<ExpressionView>) -> Parsed<
    Seq<ExpressionView>,
>
    decreases ts.len(), 4int,
{
    if following(ts) is Comma {
        let start = advance(advance(ts));
        let p = expression(start, 0).within(start);
        match p.value {
            Err(e) => Parsed { value: Err(e), rest: p.rest },
            Ok(e) => more_arguments(p.rest, args.push(e)),
        }
    } else {
        let q = expect_next(ts, TokenView::RParen);
        match q.value {
            Err(x) => Parsed { value: Err(x), rest: q.rest },
            Ok(_) => Parsed { value: Ok(args), rest: q.rest },
        }
    }
}

/// `if`, a condition in parentheses, a block, and after `else` another.
#[verifier::opaque]
pub open spec fn if_expression(ts: Seq<TokenView>) -> Parsed<ExpressionView>
    decreases ts.len(), 1int,
{
    let a = expect_next(ts, TokenView::LParen);
    match a.value {
        Err(e) => Parsed { value: Err(e), rest: a.rest },
        Ok(_) => {
            let c = expression(advance(a.rest), 0).within(advance(a.rest));
            match c.value {
                Err(e) => Parsed { value: Err(e), rest: c.rest },
                Ok(condition) => {
                    let b = expect_next(c.rest, TokenView::RParen);
                    match b.value {
                        Err(e) => Parsed { value: Err(e), rest: b.rest },
                        Ok(_) => {
                            let d = expect_next(b.rest, TokenView::LBrace);
                            match d.value {
                                Err(e) => Parsed { value: Err(e), rest: d.rest },
                                Ok(_) => if_blocks(d.rest, condition),
                            }
                        },
                    }
                },
            }
        },
    }
}

/// The blocks of an `if` with the given condition; the brace that opens the
/// first is current.
#[verifier::opaque]
pub open spec fn if_blocks(ts: Seq<TokenView>, condition: ExpressionView) -> Parsed<
    ExpressionView,
>
    decreases ts.len(), 9int,
{
    let c = block(ts).within(ts);
    match c.value {
        Err(e) => Parsed { value: Err(e), rest: c.rest },
        Ok(consequence) => {
            if following(c.rest) is Else {
                let d = expect_next(advance(c.rest), TokenView::LBrace);
                match d.value {
                    Err(e) => Parsed { value: Err(e), rest: d.rest },
                    Ok(_) => {
                        let a = block(d.rest);
                        match a.value {
                            Err(e) => Parsed { value: Err(e), rest: a.rest },
                            Ok(alternative) => Parsed {
                                value: Ok(
                                    ExpressionView::If(
                                        Box::new(condition),
                                        consequence,
                                        Some(alternative),
                                    ),
                                ),
                                rest: a.rest,
                            },
                        }
                    },
                }
            } else {
                Parsed {
                    value: Ok(ExpressionView::If(Box::new(condition), consequence, None)),
                    rest: c.rest,
                }
            }
        },
    }
}

/// The statements of a block; the opening brace is current. The block ends
/// at its closing brace, or with the input.
#[verifier::opaque]
pub open spec fn block(ts: Seq<TokenView>) -> Parsed<Seq<StatementView>>
    decreases ts.len(), 8int,
{
    block_statements(advance(ts), Seq::empty())
}

/// The statements of a block after those in `stmts`; the first token of the
/// next statement is current.
#[verifier::opaque]
pub open spec fn block_statements(ts: Seq<TokenView>, stmts: Seq<StatementView>) -> Parsed<
    Seq<StatementView>,
>
    decreases ts.len(), 7int,
{
    if current(ts) is RBrace || current(ts) is Eof {
        Parsed { value: Ok(stmts), rest: ts }
    } else {
        let p = statement(ts).within(ts);
        match p.value {
            Err(e) => Parsed { value: Err(e), rest: p.rest },
            Ok(s) => block_statements(advance(p.rest), stmts.push(s)),
        }
    }
}

/// `fn`, parameter names in parentheses, a block.
#[verifier::opaque]
pub open spec fn function_literal(ts: Seq<TokenView>) -> Parsed<ExpressionView>
    decreases ts.len(), 1int,
{
    let a = expect_next(ts, TokenView::LParen);
    match a.value {
        Err(e) => Parsed { value: Err(e), rest: a.rest },
        Ok(_) => {
            let p = parameters(a.rest).within(a.rest);
            match p.value {
                Err(e) => Parsed { value: Err(e), rest: p.rest },
                Ok(names) => {
                    let b = expect_next(p.rest, TokenView::LBrace);
                    match b.value {
                        Err(e) => Parsed { value: Err(e), rest: b.rest },
                        Ok(_) => {
                            let body = block(b.rest);
                            match body.value {
                                Err(e) => Parsed { value: Err(e), rest: body.rest },
                                Ok(stmts) => Parsed {
                                    value: Ok(ExpressionView::Fn(names, stmts)),
                                    rest: body.rest,
                                },
                            }
                        },
                    }
                },
            }
        },
    }
}

/// Names with commas between them, up to the closing parenthesis; the
/// opening parenthesis is current.
#[verifier::opaque]
pub open spec fn parameters(ts: Seq<TokenView>) -> Parsed<Seq<Seq<char>>> {
    if following(ts) is RParen {
        Parsed { value: Ok(Seq::empty()), rest: advance(ts) }
    } else {
        let first = advance(ts);
        match current(first) {
            TokenView::Ident(name) => more_parameters(first, seq![name]),
            t => Parsed {
                value: Err(ParserErrorView::ExpectedIdentifier { found: t }),
                rest: first,
            },
        }
    }
}

/// The parameters after those in `names`; the last of them is current.
#[verifier::opaque]
pub open spec fn more_parameters(ts: Seq<TokenView>, names: Seq<Seq<char>>) -> Parsed<
    Seq<Seq<char>>,
>
    decreases ts.len(),
{
    if following(ts) is Comma {
        let next = advance(advance(ts));
        match current(next) {
            TokenView::Ident(name) => more_parameters(next, names.push(name)),
            t => Parsed {
                value: Err(ParserErrorView::ExpectedIdentifier { found: t }),
                rest: next,
            },
        }
    } else {
        let q = expect_next(ts, TokenView::RParen);
        match q.value {
            Err(x) => Parsed { value: Err(x), rest: q.rest },
            Ok(_) => Parsed { value: Ok(names), rest: q.rest },
        }
    }
}

/// The tokens from the next `;` on, or none if there is no `;`: where the
/// parser takes up its work after an error.
#[verifier::opaque]
pub open spec fn skip_statement(ts: Seq<TokenView>) -> Seq<TokenView>
    decreases ts.len(),
{
    if current(ts) is Semicolon || current(ts) is Eof {
        ts
    } else {
        skip_statement(advance(ts))
    }
}

/// The statements and the errors of a whole text.
pub struct Outcome {
    pub statements: Seq<StatementView>,
    pub errors: Seq<ParserErrorView>,
}

/// The statements and errors of the tokens `ts`, after those in `so_far`.
/// A statement that fails adds its error, and the tokens up to its `;` are
/// passed over.
#[verifier::opaque]
pub open spec fn program(ts: Seq<TokenView>, so_far: Outcome) -> Outcome
    decreases ts.len(),
{
    if current(ts) is Eof {
        so_far
    } else {
        let p = statement(ts).within(ts);
        match p.value {
            Ok(s) => program(
                advance(p.rest),
                Outcome { statements: so_far.statements.push(s), errors: so_far.errors },
            ),
            Err(e) => program(
                advance(clip(skip_statement(p.rest), p.rest)),
                Outcome { statements: so_far.statements, errors: so_far.errors.push(e) },
            ),
        }
    }
}

} // verus!
