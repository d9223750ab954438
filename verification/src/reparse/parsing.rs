//! The parser reads the tokens of a canonical text as what was printed.

use crate::ast::{ExpressionView, StatementView};
use crate::parser::lemma_program_end;
use crate::parser::error::ParserErrorView;
use crate::parser::grammar::{
    advance, block, block_statements, call_arguments, call_expression, current, expect_next,
    expression, expression_statement, following, function_literal, if_blocks, if_expression,
    infix_expression, let_statement, more_arguments, operand, operators, prefix_expression,
    program, return_statement, skip_statement, statement, Outcome, Parsed,
};
use crate::parser::precedence::precedence_of;
use crate::parser::shrink::lemma_expression_shrinks;
use crate::reparse::canonical::{
    all_canonical, block_tokens, braced_tokens, canonical, canonical_block, canonical_statement,
    inner_tokens, joins, last_token, lemma_all_canonical, lemma_list_tokens, lemma_statement_head,
    lemma_tokens_shape, list_tokens, quiet, statement_tokens, tail_tokens, tokens_of,
};
use crate::token::TokenView;
use vstd::prelude::*;

verus! {

/// The parser reads the tokens of a canonical expression as that
/// expression, and goes on with the operators that follow it.
pub proof fn lemma_parse_expression(e: ExpressionView, rest: Seq<TokenView>, level: int)
    requires
        canonical(e),
        0 <= level <= 5,
        !(current(rest) is Else),
    ensures
        expression(tokens_of(e) + rest, level) == operators(
            seq![last_token(e)] + rest,
            e,
            level,
        ),
    decreases e, 5int,
{
    reveal(expression);
    reveal(operand);
    reveal(operators);
    reveal(infix_expression);
    reveal(call_expression);
    reveal(call_arguments);
    let ts = tokens_of(e) + rest;
    match e {
        ExpressionView::Call(f, args) => {
            let inside = seq![TokenView::LParen] + list_tokens(args) + seq![TokenView::RParen]
                + rest;
            assert(ts =~= tokens_of(*f) + inside);
            lemma_parse_expression(*f, inside, level);
            let at_f = seq![last_token(*f)] + inside;
            assert(following(at_f) == TokenView::LParen);
            assert(advance(at_f) =~= inside);
            lemma_parse_arguments(args, rest);
            let closed = seq![TokenView::RParen] + rest;
            assert(call_expression(inside, *f) == Parsed {
                value: Ok::<ExpressionView, crate::parser::error::ParserErrorView>(e),
                rest: closed,
            });
            assert(closed.len() <= inside.len());
            assert(operators(at_f, *f, level) == operators(closed, e, level));
        },
        _ => {
            lemma_parse_operand(e, rest);
            let after = seq![last_token(e)] + rest;
            lemma_tokens_shape(e);
            assert(after.len() <= ts.len());
        },
    }
}

/// The parser reads the tokens of a canonical expression that is no call
/// as that expression, and stops at its last token.
pub proof fn lemma_parse_operand(e: ExpressionView, rest: Seq<TokenView>)
    requires
        canonical(e),
        !(e is Call),
        !(current(rest) is Else),
    ensures
        operand(tokens_of(e) + rest) == (Parsed {
            value: Ok::<ExpressionView, crate::parser::error::ParserErrorView>(e),
            rest: seq![last_token(e)] + rest,
        }),
    decreases e, 4int,
{
    reveal(operand);
    reveal(prefix_expression);
    reveal(expression);
    reveal(if_expression);
    reveal(function_literal);
    let ts = tokens_of(e) + rest;
    let closed = seq![TokenView::RParen] + rest;
    match e {
        ExpressionView::Prefix(op, x) => {
            let t1 = seq![op] + tokens_of(*x) + closed;
            let t3 = seq![last_token(*x)] + closed;
            assert(ts =~= seq![TokenView::LParen] + t1);
            assert(advance(ts) =~= t1);
            lemma_parse_inner_prefix(e, rest);
            assert(advance(t3) =~= closed);
            assert(following(t3) == TokenView::RParen);
        },
        ExpressionView::Infix(op, a, b) => {
            let t1 = tokens_of(*a) + (seq![op] + (tokens_of(*b) + closed));
            let t4 = seq![last_token(*b)] + closed;
            assert(ts =~= seq![TokenView::LParen] + t1);
            assert(advance(ts) =~= t1);
            lemma_parse_inner_infix(e, rest);
            assert(advance(t4) =~= closed);
            assert(following(t4) == TokenView::RParen);
        },
        ExpressionView::If(c, consequence, alternative) => {
            lemma_parse_if(e, rest);
            lemma_tokens_shape(e);
            assert(current(ts) == TokenView::If);
        },
        _ => {
            assert(ts =~= seq![last_token(e)] + rest);
        },
    }
}

/// The parser reads what stands between the parentheses of a canonical
/// prefix expression as that expression, and stops before the closing
/// parenthesis.
pub proof fn lemma_parse_inner_prefix(e: ExpressionView, rest: Seq<TokenView>)
    requires
        canonical(e),
        e is Prefix,
    ensures
        expression(
            seq![e->Prefix_0] + tokens_of(*e->Prefix_1) + (seq![TokenView::RParen] + rest),
            0,
        ) == (Parsed {
            value: Ok::<ExpressionView, crate::parser::error::ParserErrorView>(e),
            rest: seq![last_token(*e->Prefix_1)] + (seq![TokenView::RParen] + rest),
        }),
    decreases e, 0int,
{
    reveal(expression);
    reveal(operand);
    reveal(operators);
    reveal(prefix_expression);
    reveal(if_expression);
    reveal(function_literal);
    reveal(infix_expression);
    reveal(call_expression);
    let op = e->Prefix_0;
    let x = *e->Prefix_1;
    let closed = seq![TokenView::RParen] + rest;
    let t1 = seq![op] + tokens_of(x) + closed;
    let t2 = tokens_of(x) + closed;
    let t3 = seq![last_token(x)] + closed;
    let done = Parsed {
        value: Ok::<ExpressionView, crate::parser::error::ParserErrorView>(e),
        rest: t3,
    };
    assert(advance(t1) =~= t2);
    assert(current(t1) == op);
    lemma_parse_expression(x, closed, 5);
    assert(following(t3) == TokenView::RParen);
    assert(operators(t3, x, 5) == Parsed {
        value: Ok::<ExpressionView, crate::parser::error::ParserErrorView>(x),
        rest: t3,
    });
    assert(prefix_expression(t1) == done);
    assert(operand(t1) == done);
    lemma_tokens_shape(x);
    assert(t3.len() <= t1.len());
    assert(operators(t3, e, 0) == done);
    assert(expression(t1, 0) == done);
}

/// The parser reads what stands between the parentheses of a canonical
/// binary expression as that expression, and stops before the closing
/// parenthesis.
pub proof fn lemma_parse_inner_infix(e: ExpressionView, rest: Seq<TokenView>)
    requires
        canonical(e),
        e is Infix,
    ensures
        expression(
            tokens_of(*e->Infix_1) + (seq![e->Infix_0] + (tokens_of(*e->Infix_2) + (seq![
                TokenView::RParen,
            ] + rest))),
            0,
        ) == (Parsed {
            value: Ok::<ExpressionView, crate::parser::error::ParserErrorView>(e),
            rest: seq![last_token(*e->Infix_2)] + (seq![TokenView::RParen] + rest),
        }),
    decreases e, 0int,
{
    reveal(operators);
    reveal(infix_expression);
    reveal(call_expression);
    reveal(expression);
    reveal(operand);
    let op = e->Infix_0;
    let a = *e->Infix_1;
    let b = *e->Infix_2;
    let closed = seq![TokenView::RParen] + rest;
    let tb = tokens_of(b) + closed;
    let t3 = seq![op] + tb;
    let t1 = tokens_of(a) + t3;
    let t2 = seq![last_token(a)] + t3;
    let t4 = seq![last_token(b)] + closed;
    let done = Parsed {
        value: Ok::<ExpressionView, crate::parser::error::ParserErrorView>(e),
        rest: t4,
    };
    lemma_parse_expression(a, t3, 0);
    assert(expression(t1, 0) == operators(t2, a, 0));
    assert(following(t2) == op);
    assert(advance(t2) =~= t3);
    assert(advance(t3) =~= tb);
    assert(current(t3) == op);
    lemma_parse_expression(b, closed, precedence_of(op).level());
    assert(following(t4) == TokenView::RParen);
    assert(operators(t4, b, precedence_of(op).level()) == Parsed {
        value: Ok::<ExpressionView, crate::parser::error::ParserErrorView>(b),
        rest: t4,
    });
    assert(infix_expression(t3, a) == done);
    lemma_tokens_shape(b);
    assert(t4.len() <= t3.len());
    assert(operators(t4, e, 0) == done);
    assert(operators(t2, a, 0) == done);
}

/// The parser reads the tokens of canonical arguments in parentheses as
/// those arguments, and stops at the closing parenthesis.
pub proof fn lemma_parse_arguments(args: Seq<ExpressionView>, rest: Seq<TokenView>)
    requires
        all_canonical(args),
    ensures
        call_arguments(
            seq![TokenView::LParen] + list_tokens(args) + seq![TokenView::RParen] + rest,
        ) == (Parsed {
            value: Ok::<Seq<ExpressionView>, crate::parser::error::ParserErrorView>(args),
            rest: seq![TokenView::RParen] + rest,
        }),
    decreases args, 2int,
{
    reveal(call_arguments);
    reveal(expression);
    reveal(more_arguments);
    reveal(operators);
    reveal(infix_expression);
    reveal(call_expression);
    let closed = seq![TokenView::RParen] + rest;
    let ts = seq![TokenView::LParen] + list_tokens(args) + seq![TokenView::RParen] + rest;
    if args.len() == 0 {
        assert(ts =~= seq![TokenView::LParen] + closed);
        assert(advance(ts) =~= closed);
        assert(args =~= Seq::empty());
    } else {
        lemma_list_tokens(args);
        lemma_all_canonical(args, 0);
        let tail = tail_tokens(args, 1) + closed;
        let t1 = tokens_of(args[0]) + tail;
        assert(ts =~= seq![TokenView::LParen] + t1);
        lemma_tokens_shape(args[0]);
        assert(following(ts) == tokens_of(args[0])[0]);
        assert(advance(ts) =~= t1);
        lemma_parse_expression(args[0], tail, 0);
        let t2 = seq![last_token(args[0])] + tail;
        lemma_tail_head(args, 1, closed);
        assert(following(t2) is Comma || following(t2) is RParen);
        assert(operators(t2, args[0], 0) == Parsed {
            value: Ok::<ExpressionView, crate::parser::error::ParserErrorView>(args[0]),
            rest: t2,
        });
        assert(t2.len() <= t1.len());
        lemma_parse_more_arguments(args, 1, rest);
        assert(args.subrange(0, 1) =~= seq![args[0]]);
    }
}

/// What follows the tokens from `k` on is a comma, or what stands behind
/// them where `k` is the end.
pub proof fn lemma_tail_head(es: Seq<ExpressionView>, k: int, behind: Seq<TokenView>)
    requires
        0 <= k <= es.len(),
        behind.len() > 0,
    ensures
        (tail_tokens(es, k) + behind).len() > 0,
        (tail_tokens(es, k) + behind)[0] == if k < es.len() {
            TokenView::Comma
        } else {
            behind[0]
        },
{
}

/// The parser reads the tokens of the canonical arguments from the one at
/// `k` on as those arguments, and stops at the closing parenthesis.
pub proof fn lemma_parse_more_arguments(args: Seq<ExpressionView>, k: int, rest: Seq<TokenView>)
    requires
        all_canonical(args),
        1 <= k <= args.len(),
    ensures
        more_arguments(
            seq![last_token(args[k - 1])] + (tail_tokens(args, k) + (seq![TokenView::RParen]
                + rest)),
            args.subrange(0, k),
        ) == (Parsed {
            value: Ok::<Seq<ExpressionView>, crate::parser::error::ParserErrorView>(args),
            rest: seq![TokenView::RParen] + rest,
        }),
    decreases args, 1int, args.len() - k,
{
    reveal(more_arguments);
    reveal(expression);
    reveal(operators);
    reveal(infix_expression);
    reveal(call_expression);
    reveal(operand);
    let closed = seq![TokenView::RParen] + rest;
    let ts = seq![last_token(args[k - 1])] + (tail_tokens(args, k) + closed);
    lemma_tail_head(args, k, closed);
    if k == args.len() {
        assert(tail_tokens(args, k) =~= Seq::empty());
        assert(ts =~= seq![last_token(args[k - 1])] + closed);
        assert(following(ts) == TokenView::RParen);
        assert(advance(ts) =~= closed);
        assert(args.subrange(0, k) =~= args);
    } else {
        lemma_all_canonical(args, k);
        let tail = tail_tokens(args, k + 1) + closed;
        let t1 = tokens_of(args[k]) + tail;
        assert(tail_tokens(args, k) + closed =~= seq![TokenView::Comma] + t1);
        assert(ts =~= seq![last_token(args[k - 1]), TokenView::Comma] + t1);
        assert(following(ts) == TokenView::Comma);
        assert(advance(advance(ts)) =~= t1);
        lemma_parse_expression(args[k], tail, 0);
        let t2 = seq![last_token(args[k])] + tail;
        lemma_tail_head(args, k + 1, closed);
        assert(following(t2) is Comma || following(t2) is RParen);
        assert(operators(t2, args[k], 0) == Parsed {
            value: Ok::<ExpressionView, crate::parser::error::ParserErrorView>(args[k]),
            rest: t2,
        });
        lemma_tokens_shape(args[k]);
        assert(t2.len() <= t1.len());
        lemma_parse_more_arguments(args, k + 1, rest);
        assert(args.subrange(0, k).push(args[k]) =~= args.subrange(0, k + 1));
    }
}

/// The parser reads what stands between the parentheses of a canonical
/// operator expression as that expression, and stops before the closing
/// parenthesis.
pub proof fn lemma_parse_inner(c: ExpressionView, rest: Seq<TokenView>)
    requires
        canonical(c),
        c is Prefix || c is Infix,
    ensures
        tokens_of(c) == seq![TokenView::LParen] + inner_tokens(c) + seq![TokenView::RParen],
        expression(inner_tokens(c) + (seq![TokenView::RParen] + rest), 0).value == Ok::<
            ExpressionView,
            ParserErrorView,
        >(c),
        following(expression(inner_tokens(c) + (seq![TokenView::RParen] + rest), 0).rest)
            == TokenView::RParen,
        advance(expression(inner_tokens(c) + (seq![TokenView::RParen] + rest), 0).rest) == seq![
            TokenView::RParen,
        ] + rest,
    decreases c, 1int,
{
    reveal(expression);
    reveal(operand);
    reveal(operators);
    let closed = seq![TokenView::RParen] + rest;
    match c {
        ExpressionView::Prefix(op, x) => {
            lemma_parse_inner_prefix(c, rest);
            assert(inner_tokens(c) + closed =~= seq![op] + tokens_of(*x) + closed);
            let t3 = seq![last_token(*x)] + closed;
            assert(following(t3) == TokenView::RParen);
            assert(advance(t3) =~= closed);
            assert(tokens_of(c) =~= seq![TokenView::LParen] + inner_tokens(c) + seq![
                TokenView::RParen,
            ]);
        },
        ExpressionView::Infix(op, a, b) => {
            lemma_parse_inner_infix(c, rest);
            assert(inner_tokens(c) + closed =~= tokens_of(*a) + (seq![op] + (tokens_of(*b)
                + closed)));
            let t4 = seq![last_token(*b)] + closed;
            assert(following(t4) == TokenView::RParen);
            assert(advance(t4) =~= closed);
            assert(tokens_of(c) =~= seq![TokenView::LParen] + inner_tokens(c) + seq![
                TokenView::RParen,
            ]);
        },
        _ => {},
    }
}

/// What follows the first block of an `if`: `else` and the second block,
/// if there is one, and then `rest`.
pub open spec fn after_consequence(
    alternative: Option<Seq<StatementView>>,
    rest: Seq<TokenView>,
) -> Seq<TokenView> {
    match alternative {
        Some(alt) => seq![TokenView::Else] + (braced_tokens(alt) + rest),
        None => rest,
    }
}

/// The first token of a list, the one behind it, and the list without it.
pub proof fn lemma_first(t: TokenView, r: Seq<TokenView>)
    ensures
        (seq![t] + r).len() == r.len() + 1,
        current(seq![t] + r) == t,
        following(seq![t] + r) == current(r),
        advance(seq![t] + r) == r,
{
    assert(advance(seq![t] + r) =~= r);
}

/// A block in its braces starts with the opening brace.
pub proof fn lemma_braced_first(ss: Seq<StatementView>, r: Seq<TokenView>)
    ensures
        braced_tokens(ss) + r == seq![TokenView::LBrace] + (block_tokens(ss) + (seq![
            TokenView::RBrace,
        ] + r)),
        current(braced_tokens(ss) + r) == TokenView::LBrace,
{
    assert(braced_tokens(ss) + r =~= seq![TokenView::LBrace] + (block_tokens(ss) + (seq![
        TokenView::RBrace,
    ] + r)));
}

/// The tokens of an `if` expression, piece by piece.
pub proof fn lemma_if_tokens(e: ExpressionView, rest: Seq<TokenView>)
    requires
        canonical(e),
        e is If,
    ensures
        tokens_of(e) + rest == seq![TokenView::If] + (seq![TokenView::LParen] + (inner_tokens(
            *e->If_0,
        ) + (seq![TokenView::RParen] + (braced_tokens(e->If_1) + after_consequence(
            e->If_2,
            rest,
        ))))),
{
    let c = *e->If_0;
    lemma_tokens_shape(c);
    assert(tokens_of(c) =~= seq![TokenView::LParen] + inner_tokens(c) + seq![TokenView::RParen]);
    assert(tokens_of(e) + rest =~= seq![TokenView::If] + (seq![TokenView::LParen] + (
    inner_tokens(c) + (seq![TokenView::RParen] + (braced_tokens(e->If_1) + after_consequence(
        e->If_2,
        rest,
    ))))));
}

/// The parser reads the tokens of a canonical `if` expression as that
/// expression, and stops at its last brace.
pub proof fn lemma_parse_if(e: ExpressionView, rest: Seq<TokenView>)
    requires
        canonical(e),
        e is If,
        !(current(rest) is Else),
    ensures
        if_expression(tokens_of(e) + rest) == (Parsed {
            value: Ok::<ExpressionView, ParserErrorView>(e),
            rest: seq![TokenView::RBrace] + rest,
        }),
    decreases e, 3int,
{
    reveal(if_expression);
    reveal(expression);
    reveal(if_blocks);
    let c = *e->If_0;
    let blocks = braced_tokens(e->If_1) + after_consequence(e->If_2, rest);
    let closed = seq![TokenView::RParen] + blocks;
    let inside = inner_tokens(c) + closed;
    let t1 = seq![TokenView::LParen] + inside;
    let ts = seq![TokenView::If] + t1;
    lemma_if_tokens(e, rest);
    lemma_first(TokenView::If, t1);
    lemma_first(TokenView::LParen, inside);
    lemma_first(TokenView::RParen, blocks);
    lemma_braced_first(e->If_1, after_consequence(e->If_2, rest));
    let a = expect_next(ts, TokenView::LParen);
    assert(a.value is Ok && a.rest == t1);
    lemma_parse_inner(c, blocks);
    lemma_expression_shrinks(inside, 0);
    let p = expression(inside, 0);
    assert(p.within(inside) == p);
    let b = expect_next(p.rest, TokenView::RParen);
    assert(b.value is Ok && b.rest == closed);
    let d = expect_next(closed, TokenView::LBrace);
    assert(d.value is Ok && d.rest == blocks);
    lemma_parse_if_blocks(e, rest);
    assert(if_expression(ts) == if_blocks(blocks, c));
}

/// The parser reads the tokens of the blocks of a canonical `if`
/// expression as those blocks, and stops at the last brace.
pub proof fn lemma_parse_if_blocks(e: ExpressionView, rest: Seq<TokenView>)
    requires
        canonical(e),
        e is If,
        !(current(rest) is Else),
    ensures
        if_blocks(braced_tokens(e->If_1) + after_consequence(e->If_2, rest), *e->If_0) == (Parsed {
            value: Ok::<ExpressionView, ParserErrorView>(e),
            rest: seq![TokenView::RBrace] + rest,
        }),
    decreases e, 2int,
{
    reveal(if_blocks);
    reveal(block);
    let consequence = e->If_1;
    let tail = after_consequence(e->If_2, rest);
    let ts = braced_tokens(consequence) + tail;
    let mid = seq![TokenView::RBrace] + tail;
    lemma_parse_block(consequence, tail);
    lemma_first(TokenView::RBrace, tail);
    lemma_braced_first(consequence, tail);
    let first = block(ts);
    assert(first.value == Ok::<Seq<StatementView>, ParserErrorView>(consequence));
    assert(first.rest == mid);
    assert(first.within(ts) == first);
    match e->If_2 {
        Some(alt) => {
            let second = braced_tokens(alt) + rest;
            lemma_first(TokenView::Else, second);
            lemma_braced_first(alt, rest);
            assert(following(mid) == TokenView::Else);
            let d = expect_next(tail, TokenView::LBrace);
            assert(d.value is Ok && d.rest == second);
            lemma_parse_block(alt, rest);
        },
        None => {
            assert(following(mid) == current(rest));
        },
    }
}

/// A statement that the parser reads joins the block, and the parser
/// goes on behind it.
pub proof fn lemma_block_step(
    ts: Seq<TokenView>,
    s: StatementView,
    rest: Seq<TokenView>,
    before: Seq<StatementView>,
)
    requires
        ts.len() > 0,
        !(ts[0] is Eof),
        !(ts[0] is RBrace),
        rest.len() <= ts.len(),
        statement(ts) == (Parsed { value: Ok::<StatementView, ParserErrorView>(s), rest }),
    ensures
        block_statements(ts, before) == block_statements(advance(rest), before.push(s)),
{
    reveal(block_statements);
    reveal(statement);
    assert(statement(ts).within(ts) == statement(ts));
}

/// At the closing brace the block is what was read so far.
pub proof fn lemma_block_end(rest: Seq<TokenView>, before: Seq<StatementView>)
    ensures
        block_statements(seq![TokenView::RBrace] + rest, before) == (Parsed {
            value: Ok::<Seq<StatementView>, ParserErrorView>(before),
            rest: seq![TokenView::RBrace] + rest,
        }),
{
    reveal(block_statements);
    lemma_first(TokenView::RBrace, rest);
}

/// The parser reads the tokens of a canonical block in its braces as that
/// block, and stops at the closing brace.
pub proof fn lemma_parse_block(ss: Seq<StatementView>, rest: Seq<TokenView>)
    requires
        canonical_block(ss),
    ensures
        block(braced_tokens(ss) + rest) == (Parsed {
            value: Ok::<Seq<StatementView>, ParserErrorView>(ss),
            rest: seq![TokenView::RBrace] + rest,
        }),
    decreases ss, 5int,
{
    reveal(block);
    reveal(block_statements);
    let done = seq![TokenView::RBrace] + rest;
    let inside = block_tokens(ss) + done;
    let none = Seq::<StatementView>::empty();
    lemma_braced_first(ss, rest);
    lemma_first(TokenView::LBrace, inside);
    lemma_first(TokenView::RBrace, rest);
    lemma_parse_statements(ss, done, none);
    assert(none + ss =~= ss);
    lemma_block_end(rest, ss);
}

/// After the tokens of canonical statements the parser stands behind them
/// and has read them.
pub proof fn lemma_parse_statements(
    ss: Seq<StatementView>,
    rest: Seq<TokenView>,
    before: Seq<StatementView>,
)
    requires
        canonical_block(ss),
        ss.len() > 0 && ss.last() is Expr ==> quiet(current(rest)),
    ensures
        block_statements(block_tokens(ss) + rest, before) == block_statements(rest, before + ss),
    decreases ss, 4int,
{
    if ss.len() == 0 {
        assert(block_tokens(ss) + rest =~= rest);
        assert(before + ss =~= before);
    } else {
        let front = ss.drop_last();
        let last = ss.last();
        let t1 = statement_tokens(last) + rest;
        assert(block_tokens(ss) + rest =~= block_tokens(front) + t1);
        lemma_statement_head(last);
        assert(t1[0] == statement_tokens(last)[0]);
        if front.len() > 0 {
            assert(front.last() == ss[ss.len() - 2]);
        }
        lemma_parse_statements(front, t1, before);
        lemma_parse_statement_then(last, rest);
        lemma_block_step(t1, last, statement(t1).rest, before + front);
        assert((before + front).push(last) =~= before + ss);
    }
}

/// The parser reads the tokens of a canonical statement as that statement,
/// and one step further it stands behind them.
pub proof fn lemma_parse_statement_then(s: StatementView, rest: Seq<TokenView>)
    requires
        canonical_statement(s),
        s is Expr ==> quiet(current(rest)),
    ensures
        statement(statement_tokens(s) + rest).value == Ok::<StatementView, ParserErrorView>(s),
        statement(statement_tokens(s) + rest).rest.len() <= (statement_tokens(s) + rest).len(),
        advance(statement(statement_tokens(s) + rest).rest) == rest,
    decreases s, 3int,
{
    lemma_statement_head(s);
    match s {
        StatementView::Expr(e) => {
            lemma_parse_expression_statement(e, rest);
            lemma_first(last_token(e), rest);
        },
        _ => {
            lemma_parse_closed_statement(s, rest);
            lemma_first(TokenView::Semicolon, rest);
        },
    }
}

/// The parser reads the tokens of a canonical expression before a token
/// that ends it as a statement, and stops at the expression's last token.
pub proof fn lemma_parse_expression_statement(e: ExpressionView, rest: Seq<TokenView>)
    requires
        canonical(e),
        quiet(current(rest)),
    ensures
        statement(tokens_of(e) + rest) == (Parsed {
            value: Ok::<StatementView, ParserErrorView>(StatementView::Expr(e)),
            rest: seq![last_token(e)] + rest,
        }),
    decreases e, 6int,
{
    reveal(statement);
    reveal(expression_statement);
    reveal(expression);
    reveal(operators);
    let ts = tokens_of(e) + rest;
    let end = seq![last_token(e)] + rest;
    lemma_tokens_shape(e);
    assert(current(ts) == tokens_of(e)[0]);
    lemma_parse_expression(e, rest, 0);
    lemma_first(last_token(e), rest);
    assert(operators(end, e, 0) == Parsed {
        value: Ok::<ExpressionView, ParserErrorView>(e),
        rest: end,
    });
}

/// The parser reads the tokens of a canonical `let` or `return` as that
/// statement, and stops at its semicolon.
pub proof fn lemma_parse_closed_statement(s: StatementView, rest: Seq<TokenView>)
    requires
        canonical_statement(s),
        !(s is Expr),
    ensures
        statement(statement_tokens(s) + rest) == (Parsed {
            value: Ok::<StatementView, ParserErrorView>(s),
            rest: seq![TokenView::Semicolon] + rest,
        }),
    decreases s, 2int,
{
    reveal(statement);
    reveal(let_statement);
    reveal(return_statement);
    match s {
        StatementView::Let(name, e) => {
            lemma_parse_let(s, rest);
            lemma_first(
                TokenView::Let,
                seq![TokenView::Ident(s->Let_0)] + (seq![TokenView::Assign] + (tokens_of(s->Let_1)
                    + (seq![TokenView::Semicolon] + rest))),
            );
        },
        StatementView::Return(e) => {
            lemma_parse_return(s, rest);
            lemma_first(
                TokenView::Return,
                tokens_of(s->Return_0) + (seq![TokenView::Semicolon] + rest),
            );
        },
        _ => {},
    }
}

/// The parser reads an expression before a semicolon and stops at the
/// expression's last token, with the semicolon behind it.
pub proof fn lemma_parse_value(e: ExpressionView, rest: Seq<TokenView>)
    requires
        canonical(e),
    ensures
        expression(tokens_of(e) + (seq![TokenView::Semicolon] + rest), 0).value == Ok::<
            ExpressionView,
            ParserErrorView,
        >(e),
        expect_next(
            expression(tokens_of(e) + (seq![TokenView::Semicolon] + rest), 0).rest,
            TokenView::Semicolon,
        ) == (Parsed {
            value: Ok::<(), ParserErrorView>(()),
            rest: seq![TokenView::Semicolon] + rest,
        }),
    decreases e, 6int,
{
    reveal(operators);
    let end = seq![TokenView::Semicolon] + rest;
    lemma_first(TokenView::Semicolon, rest);
    lemma_parse_expression(e, end, 0);
    lemma_first(last_token(e), end);
}

/// The parser reads the tokens of a canonical `let` as that statement, and
/// stops at its semicolon.
pub proof fn lemma_parse_let(s: StatementView, rest: Seq<TokenView>)
    requires
        canonical_statement(s),
        s is Let,
    ensures
        statement_tokens(s) + rest == seq![TokenView::Let] + (seq![TokenView::Ident(s->Let_0)] + (
        seq![TokenView::Assign] + (tokens_of(s->Let_1) + (seq![TokenView::Semicolon] + rest)))),
        let_statement(statement_tokens(s) + rest) == (Parsed {
            value: Ok::<StatementView, ParserErrorView>(s),
            rest: seq![TokenView::Semicolon] + rest,
        }),
    decreases s, 1int,
{
    reveal(let_statement);
    reveal(expression);
    let name = s->Let_0;
    let e = s->Let_1;
    let end = seq![TokenView::Semicolon] + rest;
    let t3 = tokens_of(e) + end;
    let t2 = seq![TokenView::Assign] + t3;
    let t1 = seq![TokenView::Ident(name)] + t2;
    let ts = seq![TokenView::Let] + t1;
    assert(statement_tokens(s) + rest =~= ts);
    lemma_first(TokenView::Let, t1);
    lemma_first(TokenView::Ident(name), t2);
    lemma_first(TokenView::Assign, t3);
    assert(following(ts) == TokenView::Ident(name));
    let a = expect_next(t1, TokenView::Assign);
    assert(a.value is Ok && a.rest == t2);
    lemma_parse_value(e, rest);
}

/// The parser reads the tokens of a canonical `return` as that statement,
/// and stops at its semicolon.
pub proof fn lemma_parse_return(s: StatementView, rest: Seq<TokenView>)
    requires
        canonical_statement(s),
        s is Return,
    ensures
        statement_tokens(s) + rest == seq![TokenView::Return] + (tokens_of(s->Return_0) + (seq![
            TokenView::Semicolon,
        ] + rest)),
        return_statement(statement_tokens(s) + rest) == (Parsed {
            value: Ok::<StatementView, ParserErrorView>(s),
            rest: seq![TokenView::Semicolon] + rest,
        }),
    decreases s, 1int,
{
    reveal(return_statement);
    reveal(expression);
    let e = s->Return_0;
    let end = seq![TokenView::Semicolon] + rest;
    let t1 = tokens_of(e) + end;
    let ts = seq![TokenView::Return] + t1;
    assert(statement_tokens(s) + rest =~= ts);
    lemma_first(TokenView::Return, t1);
    lemma_parse_value(e, rest);
}

/// A statement that the parser reads joins the program, and the parser
/// goes on behind it.
pub proof fn lemma_program_step(
    ts: Seq<TokenView>,
    s: StatementView,
    rest: Seq<TokenView>,
    before: Outcome,
)
    requires
        ts.len() > 0,
        !(ts[0] is Eof),
        rest.len() <= ts.len(),
        statement(ts) == (Parsed { value: Ok::<StatementView, ParserErrorView>(s), rest }),
    ensures
        program(ts, before) == program(
            advance(rest),
            Outcome { statements: before.statements.push(s), errors: before.errors },
        ),
{
    reveal(program);
    reveal(statement);
    reveal(skip_statement);
    assert(statement(ts).within(ts) == statement(ts));
}

/// After the tokens of canonical statements the parser of programs
/// stands behind them and has read them.
pub proof fn lemma_parse_program_statements(
    ss: Seq<StatementView>,
    rest: Seq<TokenView>,
    before: Outcome,
)
    requires
        canonical_block(ss),
        ss.len() > 0 && ss.last() is Expr ==> quiet(current(rest)),
    ensures
        program(block_tokens(ss) + rest, before) == program(
            rest,
            Outcome { statements: before.statements + ss, errors: before.errors },
        ),
    decreases ss,
{
    if ss.len() == 0 {
        assert(block_tokens(ss) + rest =~= rest);
        assert(before.statements + ss =~= before.statements);
    } else {
        let front = ss.drop_last();
        let last = ss.last();
        let t1 = statement_tokens(last) + rest;
        let mid = Outcome { statements: before.statements + front, errors: before.errors };
        assert(block_tokens(ss) + rest =~= block_tokens(front) + t1);
        lemma_statement_head(last);
        assert(t1[0] == statement_tokens(last)[0]);
        if front.len() > 0 {
            assert(front.last() == ss[ss.len() - 2]);
        }
        lemma_parse_program_statements(front, t1, before);
        lemma_parse_statement_then(last, rest);
        lemma_program_step(t1, last, statement(t1).rest, mid);
        assert(mid.statements.push(last) =~= before.statements + ss);
    }
}

/// The tokens of canonical statements are a program of those statements.
pub proof fn lemma_parse_program(ss: Seq<StatementView>)
    requires
        canonical_block(ss),
    ensures
        program(
            block_tokens(ss),
            Outcome { statements: Seq::empty(), errors: Seq::empty() },
        ) == (Outcome { statements: ss, errors: Seq::empty() }),
{
    let none = Outcome { statements: Seq::empty(), errors: Seq::empty() };
    let all = Outcome { statements: ss, errors: Seq::empty() };
    let end = Seq::<TokenView>::empty();
    lemma_parse_program_statements(ss, end, none);
    assert(block_tokens(ss) + end =~= block_tokens(ss));
    assert(none.statements + ss =~= ss);
    lemma_program_end(end, all);
}

} // verus!
