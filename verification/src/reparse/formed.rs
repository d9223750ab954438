//! What the parser builds is well formed: its names are names, its numbers
//! are not negative, and its operators are operators. A tree that is well
//! formed and has the shape of a canonical one is canonical.

use crate::ast::{ExpressionView, LiteralView, StatementView};
use crate::parser::grammar::{
    advance, block, block_statements, call_arguments, call_expression, clip, current,
    expect_next, expression, expression_statement, following, function_literal, if_blocks,
    if_expression, infix_expression, is_infix_operator, let_statement, more_arguments,
    more_parameters, operand, operators, parameters, prefix_expression, program,
    return_statement, skip_statement, statement, Outcome,
};
use crate::parser::precedence::precedence_of;
use crate::parser::shrink::{
    lemma_block_shrinks, lemma_call_expression_shrinks, lemma_expression_shrinks,
    lemma_infix_expression_shrinks, lemma_operand_shrinks, lemma_parameters_shrinks,
    lemma_skip_statement_shrinks, lemma_statement_shrinks,
};
use crate::relex::is_name;
use crate::reparse::canonical::{
    all_canonical, canonical, canonical_block, canonical_statement, is_prefix_operator, joins,
};
use crate::token::TokenView;
use vstd::prelude::*;

verus! {

/// Whether a token is one that the lexer gives: a name where it is an
/// identifier, and no negative number.
pub open spec fn tidy(t: TokenView) -> bool {
    match t {
        TokenView::Ident(w) => is_name(w),
        TokenView::Int(v) => v >= 0,
        _ => true,
    }
}

/// Whether every token is one that the lexer gives.
pub open spec fn clean(ts: Seq<TokenView>) -> bool {
    forall|i: int| 0 <= i < ts.len() ==> tidy(#[trigger] ts[i])
}

/// Whether every one of the texts is a name.
pub open spec fn all_names(names: Seq<Seq<char>>) -> bool {
    forall|i: int| 0 <= i < names.len() ==> is_name(#[trigger] names[i])
}

/// Whether the expression is well formed: every identifier in it is a
/// name, every number is not negative, every operator stands where one of
/// its kind belongs, and it holds nothing that the parser never builds.
pub open spec fn formed(e: ExpressionView) -> bool
    decreases e,
{
    match e {
        ExpressionView::Identifier(name) => is_name(name),
        ExpressionView::Lit(LiteralView::Int(i)) => i >= 0,
        ExpressionView::Lit(LiteralView::Bool(_)) => true,
        ExpressionView::Lit(LiteralView::String(_)) => true,
        ExpressionView::Lit(_) => false,
        ExpressionView::Prefix(op, x) => is_prefix_operator(op) && formed(*x),
        ExpressionView::Infix(op, a, b) => is_infix_operator(op) && formed(*a) && formed(*b),
        ExpressionView::Postfix(_, _) => false,
        ExpressionView::If(c, consequence, alternative) => {
            &&& formed(*c)
            &&& formed_statements(consequence)
            &&& match alternative {
                Some(alt) => formed_statements(alt),
                None => true,
            }
        },
        ExpressionView::Fn(params, body) => all_names(params) && formed_statements(body),
        ExpressionView::Call(f, args) => formed(*f) && all_formed(args),
    }
}

/// Whether the statement is well formed.
pub open spec fn formed_statement(s: StatementView) -> bool
    decreases s,
{
    match s {
        StatementView::Let(name, e) => is_name(name) && formed(e),
        StatementView::Return(e) => formed(e),
        StatementView::Expr(e) => formed(e),
    }
}

/// Whether every statement of the list is well formed.
pub open spec fn formed_statements(ss: Seq<StatementView>) -> bool
    decreases ss,
{
    if ss.len() == 0 {
        true
    } else {
        formed_statements(ss.drop_last()) && formed_statement(ss.last())
    }
}

/// Whether every expression of the list is well formed.
pub open spec fn all_formed(es: Seq<ExpressionView>) -> bool
    decreases es,
{
    if es.len() == 0 {
        true
    } else {
        all_formed(es.drop_last()) && formed(es.last())
    }
}

/// Whether the expression has the shape of a canonical one: it is made of
/// identifiers, numbers, truth values, prefix and binary operators, calls,
/// and `if` expressions whose condition is an operator expression and
/// whose blocks have that shape.
pub open spec fn shaped(e: ExpressionView) -> bool
    decreases e,
{
    match e {
        ExpressionView::Identifier(_) => true,
        ExpressionView::Lit(LiteralView::Int(_)) => true,
        ExpressionView::Lit(LiteralView::Bool(_)) => true,
        ExpressionView::Prefix(_, x) => shaped(*x),
        ExpressionView::Infix(_, a, b) => shaped(*a) && shaped(*b),
        ExpressionView::Call(f, args) => shaped(*f) && all_shaped(args),
        ExpressionView::If(c, consequence, alternative) => {
            &&& (*c is Prefix || *c is Infix)
            &&& shaped(*c)
            &&& shaped_block(consequence)
            &&& match alternative {
                Some(alt) => shaped_block(alt),
                None => true,
            }
        },
        _ => false,
    }
}

/// Whether the expression of the statement has the shape of a canonical
/// one.
pub open spec fn shaped_statement(s: StatementView) -> bool
    decreases s,
{
    match s {
        StatementView::Let(_, e) => shaped(e),
        StatementView::Return(e) => shaped(e),
        StatementView::Expr(e) => shaped(e),
    }
}

/// Whether the statements have the shape of canonical ones and the text
/// of each can stand directly behind that of the one before it.
pub open spec fn shaped_block(ss: Seq<StatementView>) -> bool
    decreases ss,
{
    if ss.len() == 0 {
        true
    } else {
        &&& shaped_block(ss.drop_last())
        &&& shaped_statement(ss.last())
        &&& (ss.len() > 1 ==> joins(ss[ss.len() - 2], ss.last()))
    }
}

/// Whether every expression of the list has the shape of a canonical one.
pub open spec fn all_shaped(es: Seq<ExpressionView>) -> bool
    decreases es,
{
    if es.len() == 0 {
        true
    } else {
        all_shaped(es.drop_last()) && shaped(es.last())
    }
}

/// A well-formed expression with the shape of a canonical one is
/// canonical.
pub proof fn lemma_formed_is_canonical(e: ExpressionView)
    requires
        formed(e),
        shaped(e),
    ensures
        canonical(e),
    decreases e,
{
    match e {
        ExpressionView::Prefix(op, x) => {
            lemma_formed_is_canonical(*x);
        },
        ExpressionView::Infix(op, a, b) => {
            lemma_formed_is_canonical(*a);
            lemma_formed_is_canonical(*b);
        },
        ExpressionView::Call(f, args) => {
            lemma_formed_is_canonical(*f);
            lemma_formed_list_is_canonical(args);
        },
        ExpressionView::If(c, consequence, alternative) => {
            lemma_formed_is_canonical(*c);
            lemma_formed_block_is_canonical(consequence);
            match alternative {
                Some(alt) => {
                    lemma_formed_block_is_canonical(alt);
                },
                None => {},
            }
        },
        _ => {},
    }
}

/// Well-formed expressions with the shape of canonical ones are canonical.
pub proof fn lemma_formed_list_is_canonical(es: Seq<ExpressionView>)
    requires
        all_formed(es),
        all_shaped(es),
    ensures
        all_canonical(es),
    decreases es,
{
    if es.len() > 0 {
        lemma_formed_list_is_canonical(es.drop_last());
        lemma_formed_is_canonical(es.last());
    }
}

/// Well-formed statements with the shape of canonical ones are canonical.
pub proof fn lemma_formed_block_is_canonical(ss: Seq<StatementView>)
    requires
        formed_statements(ss),
        shaped_block(ss),
    ensures
        canonical_block(ss),
    decreases ss,
{
    if ss.len() > 0 {
        lemma_formed_block_is_canonical(ss.drop_last());
        let last = ss.last();
        assert(formed_statement(last));
        assert(shaped_statement(last));
        match last {
            StatementView::Let(name, e) => {
                lemma_formed_is_canonical(e);
            },
            StatementView::Return(e) => {
                lemma_formed_is_canonical(e);
            },
            StatementView::Expr(e) => {
                lemma_formed_is_canonical(e);
            },
        }
        assert(canonical_statement(ss.last()));
    }
}

/// A step over clean tokens leaves clean tokens, and the two tokens of
/// lookahead are tidy.
pub proof fn lemma_clean_step(ts: Seq<TokenView>)
    requires
        clean(ts),
    ensures
        clean(advance(ts)),
        tidy(current(ts)),
        tidy(following(ts)),
        forall|t: TokenView| clean(#[trigger] expect_next(ts, t).rest),
{
    let next = advance(ts);
    assert forall|i: int| 0 <= i < next.len() implies tidy(#[trigger] next[i]) by {
        if ts.len() > 0 {
            assert(next[i] == ts[i + 1]);
        }
    }
}

/// One more well-formed expression keeps a list well formed.
pub proof fn lemma_all_formed_push(es: Seq<ExpressionView>, e: ExpressionView)
    requires
        all_formed(es),
        formed(e),
    ensures
        all_formed(es.push(e)),
{
    assert(es.push(e).drop_last() =~= es);
}

/// One more well-formed statement keeps a list well formed.
pub proof fn lemma_formed_statements_push(ss: Seq<StatementView>, s: StatementView)
    requires
        formed_statements(ss),
        formed_statement(s),
    ensures
        formed_statements(ss.push(s)),
{
    assert(ss.push(s).drop_last() =~= ss);
}

/// A statement parsed from clean tokens is well formed.
pub proof fn lemma_statement_formed(ts: Seq<TokenView>)
    requires
        clean(ts),
    ensures
        clean(statement(ts).rest),
        statement(ts).value is Ok ==> formed_statement(statement(ts).value->Ok_0),
    decreases ts.len(), 6int,
{
    reveal(statement);
    reveal(let_statement);
    reveal(return_statement);
    reveal(expression_statement);
    match current(ts) {
        TokenView::Let => lemma_let_statement_formed(ts),
        TokenView::Return => lemma_return_statement_formed(ts),
        _ => lemma_expression_statement_formed(ts),
    }
}

/// A `let` parsed from clean tokens is well formed.
pub proof fn lemma_let_statement_formed(ts: Seq<TokenView>)
    requires
        clean(ts),
    ensures
        clean(let_statement(ts).rest),
        let_statement(ts).value is Ok ==> formed_statement(let_statement(ts).value->Ok_0),
    decreases ts.len(), 5int,
{
    reveal(let_statement);
    reveal(expression);
    lemma_clean_step(ts);
    if following(ts) is Ident {
        lemma_clean_step(advance(ts));
        let a = expect_next(advance(ts), TokenView::Assign);
        if a.value is Ok {
            lemma_clean_step(a.rest);
            lemma_expression_formed(advance(a.rest), 0);
            let p = expression(advance(a.rest), 0);
            lemma_clean_step(p.rest);
        }
    }
}

/// A `return` parsed from clean tokens is well formed.
pub proof fn lemma_return_statement_formed(ts: Seq<TokenView>)
    requires
        clean(ts),
    ensures
        clean(return_statement(ts).rest),
        return_statement(ts).value is Ok ==> formed_statement(return_statement(ts).value->Ok_0),
    decreases ts.len(), 5int,
{
    reveal(return_statement);
    reveal(expression);
    lemma_clean_step(ts);
    lemma_expression_formed(advance(ts), 0);
    lemma_clean_step(expression(advance(ts), 0).rest);
}

/// An expression statement parsed from clean tokens is well formed.
pub proof fn lemma_expression_statement_formed(ts: Seq<TokenView>)
    requires
        clean(ts),
    ensures
        clean(expression_statement(ts).rest),
        expression_statement(ts).value is Ok ==> formed_statement(
            expression_statement(ts).value->Ok_0,
        ),
    decreases ts.len(), 5int,
{
    reveal(expression_statement);
    reveal(expression);
    lemma_expression_formed(ts, 0);
    lemma_clean_step(expression(ts, 0).rest);
}

/// An expression parsed from clean tokens is well formed.
pub proof fn lemma_expression_formed(ts: Seq<TokenView>, level: int)
    requires
        clean(ts),
    ensures
        clean(expression(ts, level).rest),
        expression(ts, level).value is Ok ==> formed(expression(ts, level).value->Ok_0),
    decreases ts.len(), 3int,
{
    reveal(expression);
    reveal(operand);
    reveal(operators);
    lemma_operand_formed(ts);
    lemma_operand_shrinks(ts);
    let p = operand(ts);
    if p.value is Ok {
        lemma_operators_formed(p.rest, p.value->Ok_0, level);
    }
}

/// An operand parsed from clean tokens is well formed.
pub proof fn lemma_operand_formed(ts: Seq<TokenView>)
    requires
        clean(ts),
    ensures
        clean(operand(ts).rest),
        operand(ts).value is Ok ==> formed(operand(ts).value->Ok_0),
    decreases ts.len(), 2int,
{
    reveal(operand);
    reveal(prefix_expression);
    reveal(expression);
    reveal(if_expression);
    reveal(function_literal);
    lemma_clean_step(ts);
    match current(ts) {
        TokenView::Bang => lemma_prefix_expression_formed(ts),
        TokenView::Minus => lemma_prefix_expression_formed(ts),
        TokenView::LParen => {
            lemma_expression_formed(advance(ts), 0);
            lemma_clean_step(expression(advance(ts), 0).rest);
        },
        TokenView::If => lemma_if_expression_formed(ts),
        TokenView::Fn => lemma_function_literal_formed(ts),
        _ => {},
    }
}

/// A prefix expression parsed from clean tokens is well formed.
pub proof fn lemma_prefix_expression_formed(ts: Seq<TokenView>)
    requires
        clean(ts),
        is_prefix_operator(current(ts)),
    ensures
        clean(prefix_expression(ts).rest),
        prefix_expression(ts).value is Ok ==> formed(prefix_expression(ts).value->Ok_0),
    decreases ts.len(), 1int,
{
    reveal(prefix_expression);
    reveal(expression);
    lemma_clean_step(ts);
    lemma_expression_formed(advance(ts), 5);
}

/// The operators behind a well-formed operand, parsed from clean tokens,
/// give a well-formed expression.
pub proof fn lemma_operators_formed(ts: Seq<TokenView>, left: ExpressionView, level: int)
    requires
        clean(ts),
        formed(left),
    ensures
        clean(operators(ts, left, level).rest),
        operators(ts, left, level).value is Ok ==> formed(operators(ts, left, level).value->Ok_0),
    decreases ts.len(), 0int,
{
    reveal(operators);
    reveal(infix_expression);
    reveal(call_expression);
    lemma_clean_step(ts);
    let next = following(ts);
    if !(next is Semicolon) && level < precedence_of(next).level() {
        if is_infix_operator(next) {
            lemma_infix_expression_formed(advance(ts), left);
            lemma_infix_expression_shrinks(advance(ts), left);
            let p = infix_expression(advance(ts), left);
            if p.value is Ok {
                lemma_operators_formed(p.rest, p.value->Ok_0, level);
            }
        } else if next is LParen {
            lemma_call_expression_formed(advance(ts), left);
            lemma_call_expression_shrinks(advance(ts), left);
            let p = call_expression(advance(ts), left);
            if p.value is Ok {
                lemma_operators_formed(p.rest, p.value->Ok_0, level);
            }
        }
    }
}

/// A binary operator and its right operand, parsed from clean tokens, give
/// a well-formed expression with a well-formed left operand.
pub proof fn lemma_infix_expression_formed(ts: Seq<TokenView>, left: ExpressionView)
    requires
        clean(ts),
        formed(left),
        is_infix_operator(current(ts)),
    ensures
        clean(infix_expression(ts, left).rest),
        infix_expression(ts, left).value is Ok ==> formed(infix_expression(ts, left).value->Ok_0),
    decreases ts.len(), 4int,
{
    reveal(infix_expression);
    reveal(expression);
    lemma_clean_step(ts);
    lemma_expression_formed(advance(ts), precedence_of(current(ts)).level());
}

/// A call of a well-formed callee, parsed from clean tokens, is well
/// formed.
pub proof fn lemma_call_expression_formed(ts: Seq<TokenView>, callee: ExpressionView)
    requires
        clean(ts),
        formed(callee),
    ensures
        clean(call_expression(ts, callee).rest),
        call_expression(ts, callee).value is Ok ==> formed(
            call_expression(ts, callee).value->Ok_0,
        ),
    decreases ts.len(), 6int,
{
    reveal(call_expression);
    reveal(call_arguments);
    lemma_call_arguments_formed(ts);
}

/// The arguments of a call parsed from clean tokens are well formed.
pub proof fn lemma_call_arguments_formed(ts: Seq<TokenView>)
    requires
        clean(ts),
    ensures
        clean(call_arguments(ts).rest),
        call_arguments(ts).value is Ok ==> all_formed(call_arguments(ts).value->Ok_0),
    decreases ts.len(), 5int,
{
    reveal(call_arguments);
    reveal(expression);
    reveal(more_arguments);
    lemma_clean_step(ts);
    if !(following(ts) is RParen) {
        lemma_expression_formed(advance(ts), 0);
        lemma_expression_shrinks(advance(ts), 0);
        let p = expression(advance(ts), 0);
        if p.value is Ok {
            lemma_all_formed_push(Seq::empty(), p.value->Ok_0);
            assert(Seq::<ExpressionView>::empty().push(p.value->Ok_0) =~= seq![p.value->Ok_0]);
            lemma_more_arguments_formed(p.rest, seq![p.value->Ok_0]);
        }
    }
}

/// Further arguments parsed from clean tokens keep the arguments well
/// formed.
pub proof fn lemma_more_arguments_formed(ts: Seq<TokenView>, args: Seq<ExpressionView>)
    requires
        clean(ts),
        all_formed(args),
    ensures
        clean(more_arguments(ts, args).rest),
        more_arguments(ts, args).value is Ok ==> all_formed(more_arguments(ts, args).value->Ok_0),
    decreases ts.len(), 4int,
{
    reveal(more_arguments);
    reveal(expression);
    lemma_clean_step(ts);
    if following(ts) is Comma {
        lemma_clean_step(advance(ts));
        let start = advance(advance(ts));
        lemma_expression_formed(start, 0);
        lemma_expression_shrinks(start, 0);
        let p = expression(start, 0);
        if p.value is Ok {
            lemma_all_formed_push(args, p.value->Ok_0);
            lemma_more_arguments_formed(p.rest, args.push(p.value->Ok_0));
        }
    }
}

/// An `if` expression parsed from clean tokens is well formed.
pub proof fn lemma_if_expression_formed(ts: Seq<TokenView>)
    requires
        clean(ts),
    ensures
        clean(if_expression(ts).rest),
        if_expression(ts).value is Ok ==> formed(if_expression(ts).value->Ok_0),
    decreases ts.len(), 1int,
{
    reveal(if_expression);
    reveal(expression);
    reveal(if_blocks);
    lemma_clean_step(ts);
    let a = expect_next(ts, TokenView::LParen);
    if a.value is Ok {
        lemma_clean_step(a.rest);
        lemma_expression_formed(advance(a.rest), 0);
        lemma_expression_shrinks(advance(a.rest), 0);
        let c = expression(advance(a.rest), 0);
        if c.value is Ok {
            lemma_clean_step(c.rest);
            let b = expect_next(c.rest, TokenView::RParen);
            if b.value is Ok {
                lemma_clean_step(b.rest);
                let d = expect_next(b.rest, TokenView::LBrace);
                if d.value is Ok {
                    lemma_if_blocks_formed(d.rest, c.value->Ok_0);
                }
            }
        }
    }
}

/// The blocks of an `if` with a well-formed condition, parsed from clean
/// tokens, give a well-formed expression.
pub proof fn lemma_if_blocks_formed(ts: Seq<TokenView>, condition: ExpressionView)
    requires
        clean(ts),
        formed(condition),
    ensures
        clean(if_blocks(ts, condition).rest),
        if_blocks(ts, condition).value is Ok ==> formed(if_blocks(ts, condition).value->Ok_0),
    decreases ts.len(), 9int,
{
    reveal(if_blocks);
    reveal(block);
    lemma_block_formed(ts);
    lemma_block_shrinks(ts);
    let c = block(ts);
    if c.value is Ok {
        lemma_clean_step(c.rest);
        if following(c.rest) is Else {
            lemma_clean_step(advance(c.rest));
            let d = expect_next(advance(c.rest), TokenView::LBrace);
            if d.value is Ok {
                lemma_block_formed(d.rest);
            }
        }
    }
}

/// A block parsed from clean tokens is well formed.
pub proof fn lemma_block_formed(ts: Seq<TokenView>)
    requires
        clean(ts),
    ensures
        clean(block(ts).rest),
        block(ts).value is Ok ==> formed_statements(block(ts).value->Ok_0),
    decreases ts.len(), 8int,
{
    reveal(block);
    reveal(block_statements);
    lemma_clean_step(ts);
    lemma_block_statements_formed(advance(ts), Seq::empty());
}

/// The statements of a block parsed from clean tokens keep the block well
/// formed.
pub proof fn lemma_block_statements_formed(ts: Seq<TokenView>, stmts: Seq<StatementView>)
    requires
        clean(ts),
        formed_statements(stmts),
    ensures
        clean(block_statements(ts, stmts).rest),
        block_statements(ts, stmts).value is Ok ==> formed_statements(
            block_statements(ts, stmts).value->Ok_0,
        ),
    decreases ts.len(), 7int,
{
    reveal(block_statements);
    reveal(statement);
    if !(current(ts) is RBrace || current(ts) is Eof) {
        lemma_statement_formed(ts);
        lemma_statement_shrinks(ts);
        let p = statement(ts);
        if p.value is Ok {
            lemma_clean_step(p.rest);
            lemma_formed_statements_push(stmts, p.value->Ok_0);
            lemma_block_statements_formed(advance(p.rest), stmts.push(p.value->Ok_0));
        }
    }
}

/// A function parsed from clean tokens is well formed.
pub proof fn lemma_function_literal_formed(ts: Seq<TokenView>)
    requires
        clean(ts),
    ensures
        clean(function_literal(ts).rest),
        function_literal(ts).value is Ok ==> formed(function_literal(ts).value->Ok_0),
    decreases ts.len(), 1int,
{
    reveal(function_literal);
    reveal(parameters);
    reveal(block);
    lemma_clean_step(ts);
    let a = expect_next(ts, TokenView::LParen);
    if a.value is Ok {
        lemma_parameters_formed(a.rest);
        lemma_parameters_shrinks(a.rest);
        let p = parameters(a.rest);
        if p.value is Ok {
            lemma_clean_step(p.rest);
            let b = expect_next(p.rest, TokenView::LBrace);
            if b.value is Ok {
                lemma_block_formed(b.rest);
            }
        }
    }
}

/// The parameters of a function parsed from clean tokens are names.
pub proof fn lemma_parameters_formed(ts: Seq<TokenView>)
    requires
        clean(ts),
    ensures
        clean(parameters(ts).rest),
        parameters(ts).value is Ok ==> all_names(parameters(ts).value->Ok_0),
{
    reveal(parameters);
    reveal(more_parameters);
    lemma_clean_step(ts);
    if !(following(ts) is RParen) {
        let first = advance(ts);
        lemma_clean_step(first);
        match current(first) {
            TokenView::Ident(name) => lemma_more_parameters_formed(first, seq![name]),
            _ => {},
        }
    }
}

/// Further parameters parsed from clean tokens are names.
pub proof fn lemma_more_parameters_formed(ts: Seq<TokenView>, names: Seq<Seq<char>>)
    requires
        clean(ts),
        all_names(names),
    ensures
        clean(more_parameters(ts, names).rest),
        more_parameters(ts, names).value is Ok ==> all_names(more_parameters(ts, names).value->Ok_0),
    decreases ts.len(),
{
    reveal(more_parameters);
    lemma_clean_step(ts);
    if following(ts) is Comma {
        lemma_clean_step(advance(ts));
        let next = advance(advance(ts));
        lemma_clean_step(next);
        match current(next) {
            TokenView::Ident(name) => lemma_more_parameters_formed(next, names.push(name)),
            _ => {},
        }
    }
}

/// Passing over a statement leaves clean tokens clean.
pub proof fn lemma_skip_statement_clean(ts: Seq<TokenView>)
    requires
        clean(ts),
    ensures
        clean(skip_statement(ts)),
    decreases ts.len(),
{
    reveal(skip_statement);
    if !(current(ts) is Semicolon || current(ts) is Eof) {
        lemma_clean_step(ts);
        lemma_skip_statement_clean(advance(ts));
    }
}

/// The statements of a program parsed from clean tokens are well formed.
pub proof fn lemma_program_formed(ts: Seq<TokenView>, so_far: Outcome)
    requires
        clean(ts),
        formed_statements(so_far.statements),
    ensures
        formed_statements(program(ts, so_far).statements),
    decreases ts.len(),
{
    reveal(program);
    reveal(statement);
    reveal(skip_statement);
    if !(current(ts) is Eof) {
        lemma_statement_formed(ts);
        lemma_statement_shrinks(ts);
        let p = statement(ts);
        match p.value {
            Ok(s) => {
                lemma_clean_step(p.rest);
                lemma_formed_statements_push(so_far.statements, s);
                lemma_program_formed(
                    advance(p.rest),
                    Outcome { statements: so_far.statements.push(s), errors: so_far.errors },
                );
            },
            Err(e) => {
                lemma_skip_statement_clean(p.rest);
                lemma_skip_statement_shrinks(p.rest);
                lemma_clean_step(skip_statement(p.rest));
                lemma_program_formed(
                    advance(clip(skip_statement(p.rest), p.rest)),
                    Outcome { statements: so_far.statements, errors: so_far.errors.push(e) },
                );
            },
        }
    }
}

} // verus!
