//! No parsing step gives back more tokens than it was given.

use crate::ast::{ExpressionView, StatementView};
use crate::parser::grammar::{
    advance, block, block_statements, call_arguments, call_expression, current, expect_next,
    expression, expression_statement, following, function_literal, if_blocks, if_expression,
    infix_expression, is_infix_operator, let_statement, more_arguments, more_parameters, operand,
    operators, parameters, prefix_expression, return_statement, skip_statement, statement,
};
use crate::parser::precedence::precedence_of;
use crate::token::TokenView;
use vstd::prelude::*;

verus! {

/// Parsing a statement gives back no more tokens than it was given.
pub proof fn lemma_statement_shrinks(ts: Seq<TokenView>)
    ensures
        statement(ts).rest.len() <= ts.len(),
    decreases ts.len(), 6int,
{
    reveal(statement);
    reveal(let_statement);
    reveal(return_statement);
    reveal(expression_statement);
    match current(ts) {
        TokenView::Let => lemma_let_statement_shrinks(ts),
        TokenView::Return => lemma_return_statement_shrinks(ts),
        _ => lemma_expression_statement_shrinks(ts),
    }
}

/// Parsing a `let` gives back no more tokens than it was given.
pub proof fn lemma_let_statement_shrinks(ts: Seq<TokenView>)
    ensures
        let_statement(ts).rest.len() <= ts.len(),
    decreases ts.len(), 5int,
{
    reveal(let_statement);
    reveal(expression);
    if following(ts) is Ident {
        let a = expect_next(advance(ts), TokenView::Assign);
        if a.value is Ok {
            lemma_expression_shrinks(advance(a.rest), 0);
        }
    }
}

/// Parsing a `return` gives back no more tokens than it was given.
pub proof fn lemma_return_statement_shrinks(ts: Seq<TokenView>)
    ensures
        return_statement(ts).rest.len() <= ts.len(),
    decreases ts.len(), 5int,
{
    reveal(return_statement);
    reveal(expression);
    lemma_expression_shrinks(advance(ts), 0);
}

/// Parsing an expression statement gives back no more tokens than it was given.
pub proof fn lemma_expression_statement_shrinks(ts: Seq<TokenView>)
    ensures
        expression_statement(ts).rest.len() <= ts.len(),
    decreases ts.len(), 5int,
{
    reveal(expression_statement);
    reveal(expression);
    lemma_expression_shrinks(ts, 0);
}

/// Parsing an expression gives back no more tokens than it was given.
pub proof fn lemma_expression_shrinks(ts: Seq<TokenView>, level: int)
    ensures
        expression(ts, level).rest.len() <= ts.len(),
    decreases ts.len(), 3int,
{
    reveal(expression);
    reveal(operand);
    reveal(operators);
    lemma_operand_shrinks(ts);
    let p = operand(ts);
    if p.value is Ok {
        lemma_operators_shrinks(p.rest, p.value->Ok_0, level);
    }
}

/// Parsing an operand gives back no more tokens than it was given.
pub proof fn lemma_operand_shrinks(ts: Seq<TokenView>)
    ensures
        operand(ts).rest.len() <= ts.len(),
    decreases ts.len(), 2int,
{
    reveal(operand);
    reveal(prefix_expression);
    reveal(expression);
    reveal(if_expression);
    reveal(function_literal);
    match current(ts) {
        TokenView::Bang => lemma_prefix_expression_shrinks(ts),
        TokenView::Minus => lemma_prefix_expression_shrinks(ts),
        TokenView::LParen => lemma_expression_shrinks(advance(ts), 0),
        TokenView::If => lemma_if_expression_shrinks(ts),
        TokenView::Fn => lemma_function_literal_shrinks(ts),
        _ => {},
    }
}

/// Parsing a prefix expression gives back no more tokens than it was given.
pub proof fn lemma_prefix_expression_shrinks(ts: Seq<TokenView>)
    ensures
        prefix_expression(ts).rest.len() <= ts.len(),
    decreases ts.len(), 1int,
{
    reveal(prefix_expression);
    reveal(expression);
    if ts.len() > 0 {
        lemma_expression_shrinks(advance(ts), 5);
    }
}

/// Parsing the operators behind an operand gives back no more tokens than it was given.
pub proof fn lemma_operators_shrinks(ts: Seq<TokenView>, left: ExpressionView, level: int)
    ensures
        operators(ts, left, level).rest.len() <= ts.len(),
    decreases ts.len(), 0int,
{
    reveal(operators);
    reveal(infix_expression);
    reveal(call_expression);
    let next = following(ts);
    if !(next is Semicolon) && level < precedence_of(next).level() {
        if is_infix_operator(next) {
            lemma_infix_expression_shrinks(advance(ts), left);
            let p = infix_expression(advance(ts), left);
            if p.value is Ok {
                lemma_operators_shrinks(p.rest, p.value->Ok_0, level);
            }
        } else if next is LParen {
            lemma_call_expression_shrinks(advance(ts), left);
            let p = call_expression(advance(ts), left);
            if p.value is Ok {
                lemma_operators_shrinks(p.rest, p.value->Ok_0, level);
            }
        }
    }
}

/// Parsing a binary operator and its right operand gives back no more tokens than it was given.
pub proof fn lemma_infix_expression_shrinks(ts: Seq<TokenView>, left: ExpressionView)
    ensures
        infix_expression(ts, left).rest.len() <= ts.len(),
    decreases ts.len(), 4int,
{
    reveal(infix_expression);
    reveal(expression);
    lemma_expression_shrinks(advance(ts), precedence_of(current(ts)).level());
}

/// Parsing a call gives back no more tokens than it was given.
pub proof fn lemma_call_expression_shrinks(ts: Seq<TokenView>, callee: ExpressionView)
    ensures
        call_expression(ts, callee).rest.len() <= ts.len(),
    decreases ts.len(), 6int,
{
    reveal(call_expression);
    reveal(call_arguments);
    lemma_call_arguments_shrinks(ts);
}

/// Parsing the arguments of a call gives back no more tokens than it was given.
pub proof fn lemma_call_arguments_shrinks(ts: Seq<TokenView>)
    ensures
        call_arguments(ts).rest.len() <= ts.len(),
    decreases ts.len(), 5int,
{
    reveal(call_arguments);
    reveal(expression);
    reveal(more_arguments);
    if !(following(ts) is RParen) {
        lemma_expression_shrinks(advance(ts), 0);
        let p = expression(advance(ts), 0);
        if p.value is Ok {
            lemma_more_arguments_shrinks(p.rest, seq![p.value->Ok_0]);
        }
    }
}

/// Parsing further arguments gives back no more tokens than it was given.
pub proof fn lemma_more_arguments_shrinks(ts: Seq<TokenView>, args: Seq<ExpressionView>)
    ensures
        more_arguments(ts, args).rest.len() <= ts.len(),
    decreases ts.len(), 4int,
{
    reveal(more_arguments);
    reveal(expression);
    if following(ts) is Comma {
        let start = advance(advance(ts));
        lemma_expression_shrinks(start, 0);
        let p = expression(start, 0);
        if p.value is Ok {
            lemma_more_arguments_shrinks(p.rest, args.push(p.value->Ok_0));
        }
    }
}

/// Parsing an `if` expression gives back no more tokens than it was given.
pub proof fn lemma_if_expression_shrinks(ts: Seq<TokenView>)
    ensures
        if_expression(ts).rest.len() <= ts.len(),
    decreases ts.len(), 1int,
{
    reveal(if_expression);
    reveal(expression);
    reveal(if_blocks);
    let a = expect_next(ts, TokenView::LParen);
    if a.value is Ok {
        lemma_expression_shrinks(advance(a.rest), 0);
        let c = expression(advance(a.rest), 0);
        if c.value is Ok {
            let b = expect_next(c.rest, TokenView::RParen);
            if b.value is Ok {
                let d = expect_next(b.rest, TokenView::LBrace);
                if d.value is Ok {
                    lemma_if_blocks_shrinks(d.rest, c.value->Ok_0);
                }
            }
        }
    }
}

/// Parsing the blocks of an `if` gives back no more tokens than it was given.
pub proof fn lemma_if_blocks_shrinks(ts: Seq<TokenView>, condition: ExpressionView)
    ensures
        if_blocks(ts, condition).rest.len() <= ts.len(),
    decreases ts.len(), 9int,
{
    reveal(if_blocks);
    reveal(block);
    lemma_block_shrinks(ts);
    let c = block(ts);
    if c.value is Ok && following(c.rest) is Else {
        let d = expect_next(advance(c.rest), TokenView::LBrace);
        if d.value is Ok {
            lemma_block_shrinks(d.rest);
        }
    }
}

/// Parsing a block gives back no more tokens than it was given.
pub proof fn lemma_block_shrinks(ts: Seq<TokenView>)
    ensures
        block(ts).rest.len() <= ts.len(),
    decreases ts.len(), 8int,
{
    reveal(block);
    reveal(block_statements);
    lemma_block_statements_shrinks(advance(ts), Seq::empty());
}

/// Parsing the statements of a block gives back no more tokens than it was given.
pub proof fn lemma_block_statements_shrinks(ts: Seq<TokenView>, stmts: Seq<StatementView>)
    ensures
        block_statements(ts, stmts).rest.len() <= ts.len(),
    decreases ts.len(), 7int,
{
    reveal(block_statements);
    reveal(statement);
    if !(current(ts) is RBrace || current(ts) is Eof) {
        lemma_statement_shrinks(ts);
        let p = statement(ts);
        if p.value is Ok {
            lemma_block_statements_shrinks(advance(p.rest), stmts.push(p.value->Ok_0));
        }
    }
}

/// Parsing a function gives back no more tokens than it was given.
pub proof fn lemma_function_literal_shrinks(ts: Seq<TokenView>)
    ensures
        function_literal(ts).rest.len() <= ts.len(),
    decreases ts.len(), 1int,
{
    reveal(function_literal);
    reveal(parameters);
    reveal(block);
    let a = expect_next(ts, TokenView::LParen);
    if a.value is Ok {
        lemma_parameters_shrinks(a.rest);
        let p = parameters(a.rest);
        if p.value is Ok {
            let b = expect_next(p.rest, TokenView::LBrace);
            if b.value is Ok {
                lemma_block_shrinks(b.rest);
            }
        }
    }
}

/// Parsing the parameters of a function gives back no more tokens than it was given.
pub proof fn lemma_parameters_shrinks(ts: Seq<TokenView>)
    ensures
        parameters(ts).rest.len() <= ts.len(),
{
    reveal(parameters);
    reveal(more_parameters);
    if !(following(ts) is RParen) {
        let first = advance(ts);
        match current(first) {
            TokenView::Ident(name) => lemma_more_parameters_shrinks(first, seq![name]),
            _ => {},
        }
    }
}

/// Parsing further parameters gives back no more tokens than it was given.
pub proof fn lemma_more_parameters_shrinks(ts: Seq<TokenView>, names: Seq<Seq<char>>)
    ensures
        more_parameters(ts, names).rest.len() <= ts.len(),
    decreases ts.len(),
{
    reveal(more_parameters);
    if following(ts) is Comma {
        let next = advance(advance(ts));
        match current(next) {
            TokenView::Ident(name) => lemma_more_parameters_shrinks(next, names.push(name)),
            _ => {},
        }
    }
}

/// Passing over a statement leaves no more tokens than there were.
pub proof fn lemma_skip_statement_shrinks(ts: Seq<TokenView>)
    ensures
        skip_statement(ts).len() <= ts.len(),
    decreases ts.len(),
{
    reveal(skip_statement);
    if !(current(ts) is Semicolon || current(ts) is Eof) {
        lemma_skip_statement_shrinks(advance(ts));
    }
}

} // verus!
