//! Printing a tree and parsing the text again: the parser reads a
//! canonical text as the tree that was printed, and what the parser reads
//! from any text is canonical where it has the shape for it.

use crate::ast::{ExpressionView, NodeView, StatementView};
use crate::lexer::tokenize;
use crate::parser::parse_spec;
use crate::parser::error::ParserErrorView;
use crate::parser::grammar::{expression, program, statement, Outcome};
use crate::printer::statements_text;
use crate::reparse::canonical::{
    block_tokens, canonical, canonical_block, canonical_statement, tokens_of,
};
use crate::relex::{lemma_tokens_spell_themselves, spells_itself};
use crate::reparse::formed::{
    clean, lemma_formed_block_is_canonical, lemma_program_formed, shaped, shaped_block,
    shaped_statement, tidy,
};
use crate::reparse::lexing::{lemma_lex_block, lemma_lex_expression};
use crate::reparse::parsing::lemma_parse_program;
use vstd::prelude::*;

pub mod canonical;
pub mod formed;
pub mod lexing;
pub mod parsing;

verus! {

/// The tokens of the text of a canonical expression.
pub proof fn lemma_lex_text(e: ExpressionView)
    requires
        canonical(e),
    ensures
        tokenize(e.text(), 0) == tokens_of(e),
{
    let u = e.text();
    assert(u.subrange(0, u.len() as int) =~= u);
    lemma_lex_expression(u, 0, e);
    assert(tokenize(u, u.len() as int) =~= Seq::empty());
    assert(tokenize(u, 0) =~= tokens_of(e));
}

/// Parsing the text of a canonical expression gives a program of one
/// statement, which is that expression; so printing what was parsed gives
/// the text again.
pub proof fn lemma_print_then_parse(e: ExpressionView)
    requires
        canonical(e),
    ensures
        parse_spec(e.text()) == Ok::<NodeView, Seq<ParserErrorView>>(
            NodeView::Program(seq![StatementView::Expr(e)]),
        ),
        NodeView::Program(seq![StatementView::Expr(e)]).text() == e.text(),
{
    let stmts = seq![StatementView::Expr(e)];
    assert(stmts.drop_last() =~= Seq::empty());
    assert(canonical_block(stmts.drop_last()));
    assert(stmts.last() == StatementView::Expr(e));
    assert(canonical_statement(StatementView::Expr(e)));
    assert(canonical_block(stmts));
    assert(statements_text(stmts.drop_last()) =~= Seq::empty());
    assert(stmts.last().text() == e.text());
    assert(statements_text(stmts) =~= e.text());
    lemma_print_then_parse_program(stmts);
}

/// Parsing the text of canonical statements gives a program of those
/// statements; so printing what was parsed gives the text again.
pub proof fn lemma_print_then_parse_program(ss: Seq<StatementView>)
    requires
        canonical_block(ss),
    ensures
        parse_spec(statements_text(ss)) == Ok::<NodeView, Seq<ParserErrorView>>(
            NodeView::Program(ss),
        ),
        NodeView::Program(ss).text() == statements_text(ss),
{
    let u = statements_text(ss);
    assert(u.subrange(0, u.len() as int) =~= u);
    lemma_lex_block(u, 0, ss);
    assert(tokenize(u, u.len() as int) =~= Seq::empty());
    assert(tokenize(u, 0) =~= block_tokens(ss));
    lemma_parse_program(ss);
}

/// What the parser reads from a text prints as a text that the parser
/// reads as the same statements again, where those statements have the
/// shape of canonical ones: what the parser builds is well formed, so they
/// are canonical.
pub proof fn lemma_parse_then_print(text: Seq<char>, ss: Seq<StatementView>)
    requires
        parse_spec(text) == Ok::<NodeView, Seq<ParserErrorView>>(NodeView::Program(ss)),
        shaped_block(ss),
    ensures
        canonical_block(ss),
        parse_spec(NodeView::Program(ss).text()) == Ok::<NodeView, Seq<ParserErrorView>>(
            NodeView::Program(ss),
        ),
{
    let ts = tokenize(text, 0);
    let none = Outcome { statements: Seq::empty(), errors: Seq::empty() };
    lemma_tokens_spell_themselves(text, 0);
    assert(clean(ts)) by {
        assert forall|i: int| 0 <= i < ts.len() implies tidy(#[trigger] ts[i]) by {
            let t = ts[i];
            assert(t is Illegal || t is String || spells_itself(t));
        }
    }
    lemma_program_formed(ts, none);
    assert(program(ts, none).statements == ss);
    lemma_formed_block_is_canonical(ss);
    lemma_print_then_parse_program(ss);
}

/// An expression that the parser reads from a text, made of identifiers,
/// numbers, truth values, operators, calls and `if` expressions in the
/// shape of canonical ones, prints as a text that the parser reads as the
/// same expression again.
pub proof fn lemma_parse_then_print_expression(text: Seq<char>, e: ExpressionView)
    requires
        parse_spec(text) == Ok::<NodeView, Seq<ParserErrorView>>(
            NodeView::Program(seq![StatementView::Expr(e)]),
        ),
        shaped(e),
    ensures
        canonical(e),
        parse_spec(e.text()) == Ok::<NodeView, Seq<ParserErrorView>>(
            NodeView::Program(seq![StatementView::Expr(e)]),
        ),
        NodeView::Program(seq![StatementView::Expr(e)]).text() == e.text(),
{
    let stmts = seq![StatementView::Expr(e)];
    assert(stmts.drop_last() =~= Seq::empty());
    assert(shaped_block(stmts.drop_last()));
    assert(stmts.last() == StatementView::Expr(e));
    assert(shaped_statement(StatementView::Expr(e)));
    assert(shaped_block(stmts));
    lemma_parse_then_print(text, stmts);
    assert(canonical_statement(StatementView::Expr(e)));
    lemma_print_then_parse(e);
}

} // verus!
