//! The expressions and statements whose text the parser reads back, and
//! the tokens of their text.

use crate::ast::{ExpressionView, LiteralView, StatementView};
use crate::parser::grammar::{block, expression, is_infix_operator, operators, statement};
use crate::relex::is_name;
use crate::token::TokenView;
use vstd::prelude::*;

verus! {

/// Whether `t` is a prefix operator.
pub open spec fn is_prefix_operator(t: TokenView) -> bool {
    t is Bang || t is Minus
}

/// Whether the text of `e` is in the form in which the parser reads `e`
/// again: `e` is made of names, numbers that are not negative, truth
/// values, prefix and binary operators, calls, and `if` expressions whose
/// condition is an operator expression and whose blocks are canonical.
pub open spec fn canonical(e: ExpressionView) -> bool
    decreases e,
{
    match e {
        ExpressionView::Identifier(name) => is_name(name),
        ExpressionView::Lit(LiteralView::Int(i)) => i >= 0,
        ExpressionView::Lit(LiteralView::Bool(_)) => true,
        ExpressionView::Prefix(op, x) => is_prefix_operator(op) && canonical(*x),
        ExpressionView::Infix(op, a, b) => is_infix_operator(op) && canonical(*a) && canonical(*b),
        ExpressionView::Call(f, args) => canonical(*f) && all_canonical(args),
        ExpressionView::If(c, consequence, alternative) => {
            &&& (*c is Prefix || *c is Infix)
            &&& canonical(*c)
            &&& canonical_block(consequence)
            &&& match alternative {
                Some(alt) => canonical_block(alt),
                None => true,
            }
        },
        _ => false,
    }
}

/// Whether the text of `s` is in the form in which the parser reads `s`
/// again.
pub open spec fn canonical_statement(s: StatementView) -> bool
    decreases s,
{
    match s {
        StatementView::Let(name, e) => is_name(name) && canonical(e),
        StatementView::Return(e) => canonical(e),
        StatementView::Expr(e) => canonical(e),
    }
}

/// Whether the text of `e` ends with a closing parenthesis or brace: `e` is
/// no name and no literal.
pub open spec fn ends_with_mark(e: ExpressionView) -> bool {
    e is Prefix || e is Infix || e is Call || e is If
}

/// Whether the text of `b` can stand directly behind that of `a`. Nothing
/// parts the two texts. Behind a semicolon anything can stand. Behind an
/// expression by itself, which has none, a word would run into a name or a
/// number at its end, and a parenthesis would make a call of it.
pub open spec fn joins(a: StatementView, b: StatementView) -> bool {
    match a {
        StatementView::Expr(e) => ends_with_mark(e) && !(statement_tokens(b)[0] is LParen),
        _ => true,
    }
}

/// Whether a token ends the expression before it when that expression is a
/// statement by itself: the first token of a statement that can stand
/// behind it, a closing brace, or the end of the input.
pub open spec fn quiet(t: TokenView) -> bool {
    t is Let || t is Return || t is Ident || t is Int || t is Boolean || t is If || t is RBrace
        || t is Eof
}

/// Whether the statements are canonical and the text of each can stand
/// directly behind that of the one before it.
pub open spec fn canonical_block(ss: Seq<StatementView>) -> bool
    decreases ss,
{
    if ss.len() == 0 {
        true
    } else {
        &&& canonical_block(ss.drop_last())
        &&& canonical_statement(ss.last())
        &&& (ss.len() > 1 ==> joins(ss[ss.len() - 2], ss.last()))
    }
}

/// Whether every expression of the list is canonical.
pub open spec fn all_canonical(es: Seq<ExpressionView>) -> bool
    decreases es,
{
    if es.len() == 0 {
        true
    } else {
        all_canonical(es.drop_last()) && canonical(es.last())
    }
}

/// The tokens of the text of a canonical expression.
pub open spec fn tokens_of(e: ExpressionView) -> Seq<TokenView>
    decreases e,
{
    match e {
        ExpressionView::Identifier(name) => seq![TokenView::Ident(name)],
        ExpressionView::Lit(LiteralView::Int(i)) => seq![TokenView::Int(i)],
        ExpressionView::Lit(LiteralView::Bool(b)) => seq![TokenView::Boolean(b)],
        ExpressionView::Prefix(op, x) => seq![TokenView::LParen, op] + tokens_of(*x)
            + seq![TokenView::RParen],
        ExpressionView::Infix(op, a, b) => seq![TokenView::LParen] + tokens_of(*a) + seq![op]
            + tokens_of(*b) + seq![TokenView::RParen],
        ExpressionView::Call(f, args) => tokens_of(*f) + seq![TokenView::LParen] + list_tokens(args)
            + seq![TokenView::RParen],
        ExpressionView::If(c, consequence, alternative) => seq![TokenView::If] + tokens_of(*c)
            + (seq![TokenView::LBrace] + block_tokens(consequence) + seq![TokenView::RBrace])
            + match alternative {
            Some(alt) => seq![TokenView::Else] + (seq![TokenView::LBrace] + block_tokens(alt)
                + seq![TokenView::RBrace]),
            None => Seq::empty(),
        },
        _ => Seq::empty(),
    }
}

/// The tokens of the text of a canonical statement.
pub open spec fn statement_tokens(s: StatementView) -> Seq<TokenView>
    decreases s,
{
    match s {
        StatementView::Let(name, e) => seq![
            TokenView::Let,
            TokenView::Ident(name),
            TokenView::Assign,
        ] + tokens_of(e) + seq![TokenView::Semicolon],
        StatementView::Return(e) => seq![TokenView::Return] + tokens_of(e) + seq![
            TokenView::Semicolon,
        ],
        StatementView::Expr(e) => tokens_of(e),
    }
}

/// The tokens of the texts of canonical statements.
pub open spec fn block_tokens(ss: Seq<StatementView>) -> Seq<TokenView>
    decreases ss,
{
    if ss.len() == 0 {
        Seq::empty()
    } else {
        block_tokens(ss.drop_last()) + statement_tokens(ss.last())
    }
}

/// The tokens of a block in its braces.
pub open spec fn braced_tokens(ss: Seq<StatementView>) -> Seq<TokenView> {
    seq![TokenView::LBrace] + block_tokens(ss) + seq![TokenView::RBrace]
}

/// The tokens of the texts of canonical expressions with commas between
/// them.
pub open spec fn list_tokens(es: Seq<ExpressionView>) -> Seq<TokenView>
    decreases es,
{
    if es.len() == 0 {
        Seq::empty()
    } else if es.len() == 1 {
        tokens_of(es[0])
    } else {
        list_tokens(es.drop_last()) + seq![TokenView::Comma] + tokens_of(es.last())
    }
}

/// The tokens of the expressions from the one at `k` on, a comma before
/// each.
pub open spec fn tail_tokens(es: Seq<ExpressionView>, k: int) -> Seq<TokenView>
    decreases es.len() - k,
{
    if 0 <= k < es.len() {
        seq![TokenView::Comma] + tokens_of(es[k]) + tail_tokens(es, k + 1)
    } else {
        Seq::empty()
    }
}

/// The last token of the text of a canonical expression.
pub open spec fn last_token(e: ExpressionView) -> TokenView {
    match e {
        ExpressionView::Identifier(name) => TokenView::Ident(name),
        ExpressionView::Lit(LiteralView::Int(i)) => TokenView::Int(i),
        ExpressionView::Lit(LiteralView::Bool(b)) => TokenView::Boolean(b),
        ExpressionView::If(_, _, _) => TokenView::RBrace,
        _ => TokenView::RParen,
    }
}

/// Every expression of a canonical list is canonical.
pub proof fn lemma_all_canonical(es: Seq<ExpressionView>, k: int)
    requires
        all_canonical(es),
        0 <= k < es.len(),
    ensures
        canonical(es[k]),
    decreases es.len(),
{
    if k < es.len() - 1 {
        lemma_all_canonical(es.drop_last(), k);
    }
}

/// The tokens of a list, from its first expression on.
pub proof fn lemma_list_tokens(es: Seq<ExpressionView>)
    requires
        es.len() > 0,
    ensures
        list_tokens(es) == tokens_of(es[0]) + tail_tokens(es, 1),
    decreases es.len(),
{
    if es.len() == 1 {
        assert(tail_tokens(es, 1) =~= Seq::empty());
        assert(list_tokens(es) =~= tokens_of(es[0]) + tail_tokens(es, 1));
    } else {
        let front = es.drop_last();
        lemma_tail_tokens(es, 1);
        lemma_list_tokens(front);
        assert(front[0] == es[0]);
        assert(list_tokens(es) =~= tokens_of(es[0]) + tail_tokens(es, 1));
    }
}

/// The tokens from `k` on are those of the list without its last
/// expression, then a comma and the last expression's.
pub proof fn lemma_tail_tokens(es: Seq<ExpressionView>, k: int)
    requires
        0 <= k < es.len(),
    ensures
        tail_tokens(es, k) == tail_tokens(es.drop_last(), k) + seq![TokenView::Comma] + tokens_of(
            es.last(),
        ),
    decreases es.len() - k,
{
    let front = es.drop_last();
    if k == es.len() - 1 {
        assert(tail_tokens(es, k + 1) =~= Seq::empty());
        assert(tail_tokens(front, k) =~= Seq::empty());
        assert(tail_tokens(es, k) =~= tail_tokens(front, k) + seq![TokenView::Comma] + tokens_of(
            es.last(),
        ));
    } else {
        lemma_tail_tokens(es, k + 1);
        assert(front[k] == es[k]);
        assert(tail_tokens(es, k) =~= tail_tokens(front, k) + seq![TokenView::Comma] + tokens_of(
            es.last(),
        ));
    }
}

/// The text of a canonical expression has a token, which is no operator,
/// and ends with its last token.
pub proof fn lemma_tokens_shape(e: ExpressionView)
    requires
        canonical(e),
    ensures
        tokens_of(e).len() > 0,
        tokens_of(e).last() == last_token(e),
        tokens_of(e)[0] is Ident || tokens_of(e)[0] is Int || tokens_of(e)[0] is Boolean
            || tokens_of(e)[0] is LParen || tokens_of(e)[0] is If,
        (e is Prefix || e is Infix) ==> tokens_of(e)[0] is LParen,
    decreases e,
{
    match e {
        ExpressionView::Call(f, args) => {
            lemma_tokens_shape(*f);
        },
        ExpressionView::If(c, consequence, alternative) => {
            match alternative {
                Some(alt) => {
                    assert(tokens_of(e).last() == braced_tokens(alt).last());
                },
                None => {
                    assert(tokens_of(e) =~= seq![TokenView::If] + tokens_of(*c) + braced_tokens(
                        consequence,
                    ));
                    assert(tokens_of(e).last() == braced_tokens(consequence).last());
                },
            }
        },
        _ => {},
    }
}

/// The tokens between the parentheses of an operator expression.
pub open spec fn inner_tokens(c: ExpressionView) -> Seq<TokenView> {
    match c {
        ExpressionView::Prefix(op, x) => seq![op] + tokens_of(*x),
        ExpressionView::Infix(op, a, b) => tokens_of(*a) + seq![op] + tokens_of(*b),
        _ => Seq::empty(),
    }
}

/// The tokens of a canonical statement start with a token that can start
/// a statement, and a statement that ends with a semicolon has at least
/// three of them.
pub proof fn lemma_statement_head(s: StatementView)
    requires
        canonical_statement(s),
    ensures
        statement_tokens(s).len() > 0,
        quiet(statement_tokens(s)[0]) || statement_tokens(s)[0] is LParen,
        !(statement_tokens(s)[0] is Eof),
        !(statement_tokens(s)[0] is RBrace),
        !(s is Expr) ==> statement_tokens(s).len() >= 3 && (statement_tokens(s)[0] is Let
            || statement_tokens(s)[0] is Return),
        s is Expr ==> !(statement_tokens(s)[0] is Let) && !(statement_tokens(s)[0] is Return),
{
    match s {
        StatementView::Let(name, e) => {
            lemma_tokens_shape(e);
        },
        StatementView::Return(e) => {
            lemma_tokens_shape(e);
        },
        StatementView::Expr(e) => {
            lemma_tokens_shape(e);
        },
    }
}

} // verus!
