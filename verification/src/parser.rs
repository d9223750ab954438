//! The parser: precedence climbing over the lexer's tokens, two tokens of
//! lookahead, and every defect of a text reported in one pass.

use crate::ast::{statements_view, Node, NodeView, Statement};
use crate::lexer::{tokenize, Lexer};
use crate::parser::error::{clone_errors, errors_view, ParserError, ParserErrorView, ParserErrors};
use crate::parser::grammar::{advance, clip, current, program, skip_statement, statement, Outcome};
use crate::token::{Token, TokenView};
use vstd::prelude::*;

pub mod compound;
pub mod cursor;
pub mod error;
pub mod expressions;
pub mod grammar;
pub mod precedence;
pub mod shrink;
pub mod statements;
pub mod views;

verus! {

/// What parsing a text gives: the program, if the text has no defect, and
/// all its defects otherwise.
pub open spec fn parse_spec(text: Seq<char>) -> Result<NodeView, Seq<ParserErrorView>> {
    let out = program(
        tokenize(text, 0),
        Outcome { statements: Seq::empty(), errors: Seq::empty() },
    );
    if out.errors.len() == 0 {
        Ok(NodeView::Program(out.statements))
    } else {
        Err(out.errors)
    }
}

/// The mathematical value of what [`parse`] returns.
pub open spec fn parse_view(r: Result<Node, ParserErrors>) -> Result<
    NodeView,
    Seq<ParserErrorView>,
> {
    match r {
        Ok(node) => Ok(node@),
        Err(errors) => Err(errors_view(errors)),
    }
}

/// Parses a source text.
pub fn parse(input: &str) -> (r: Result<Node, ParserErrors>)
    ensures
        parse_view(r) == parse_spec(input@),
{
    let lexer = Lexer::new(input);
    let mut parser = Parser::new(lexer);
    assert(errors_view(parser.errors) =~= Seq::empty());
    match parser.parse_program() {
        Ok(program) => Ok(Node::Program(program)),
        Err(errors) => Err(errors),
    }
}

/// With no token left, the program is what was read so far.
pub proof fn lemma_program_end(ts: Seq<TokenView>, so_far: Outcome)
    requires
        ts.len() == 0,
    ensures
        program(ts, so_far) == so_far,
{
    reveal(program);
}

/// A parser over one lexer.
pub struct Parser {
    pub l: Lexer,
    pub cur_token: Token,
    pub peek_token: Token,
    pub errors: Vec<ParserError>,
}

impl Parser {
    /// Parses the statements up to the end of the input. After a statement
    /// that fails, the parser records the error and goes on behind the next
    /// semicolon. The program comes back only if no error was recorded, by
    /// this call or before it.
    pub fn parse_program(&mut self) -> (r: Result<Vec<Statement>, ParserErrors>)
        requires
            old(self).wf(),
        ensures
            final(self).wf(),
            final(self).l.input == old(self).l.input,
            final(self).tokens().len() == 0,
            ({
                let out = program(
                    old(self).tokens(),
                    Outcome { statements: Seq::empty(), errors: errors_view(old(self).errors) },
                );
                &&& errors_view(final(self).errors) == out.errors
                &&& match r {
                    Ok(stmts) => out.errors.len() == 0 && statements_view(stmts) == out.statements,
                    Err(errors) => out.errors.len() > 0 && errors_view(errors) == out.errors,
                }
            }),
    {
        proof {
            self.lemma_lookahead();
        }
        let mut stmts: Vec<Statement> = Vec::new();
        assert(statements_view(stmts) =~= Seq::empty());
        while !self.cur_token_is(&Token::Eof)
            invariant
                self.wf(),
                self.in_step(),
                self.l.input == old(self).l.input,
                program(
                    self.tokens(),
                    Outcome { statements: statements_view(stmts), errors: errors_view(self.errors) },
                ) == program(
                    old(self).tokens(),
                    Outcome { statements: Seq::empty(), errors: errors_view(old(self).errors) },
                ),
            decreases self.tokens().len(),
        {
            self.parse_next(&mut stmts);
        }
        proof {
            lemma_program_end(
                self.tokens(),
                Outcome { statements: statements_view(stmts), errors: errors_view(self.errors) },
            );
        }
        self.outcome(stmts)
    }

    /// The statements, if no error was recorded, and the errors otherwise.
    fn outcome(&self, stmts: Vec<Statement>) -> (r: Result<Vec<Statement>, ParserErrors>)
        ensures
            match r {
                Ok(s) => errors_view(self.errors).len() == 0 && s == stmts,
                Err(errors) => errors_view(self.errors).len() > 0 && errors_view(errors)
                    == errors_view(self.errors),
            },
    {
        if self.errors.len() > 0 {
            Err(clone_errors(&self.errors))
        } else {
            Ok(stmts)
        }
    }

    /// Parses the statement that starts at the current token and steps
    /// behind it: the statement joins `stmts`, or its error joins the
    /// errors and the tokens up to the next semicolon are passed over.
    fn parse_next(&mut self, stmts: &mut Vec<Statement>)
        requires
            old(self).wf(),
            !(old(self).cur_token is Eof),
        ensures
            final(self).wf(),
            final(self).in_step(),
            final(self).l.input == old(self).l.input,
            final(self).tokens().len() < old(self).tokens().len(),
            program(
                final(self).tokens(),
                Outcome {
                    statements: statements_view(*final(stmts)),
                    errors: errors_view(final(self).errors),
                },
            ) == program(
                old(self).tokens(),
                Outcome {
                    statements: statements_view(*old(stmts)),
                    errors: errors_view(old(self).errors),
                },
            ),
    {
        proof {
            reveal(program);
            reveal(statement);
            reveal(skip_statement);
            self.lemma_lookahead();
        }
        let ghost ts = self.tokens();
        let ghost so_far = Outcome {
            statements: statements_view(*stmts),
            errors: errors_view(self.errors),
        };
        let ghost p = statement(ts).within(ts);
        match self.parse_statement() {
            Ok(stmt) => {
                let ghost added = so_far.statements.push(stmt@);
                stmts.push(stmt);
                assert(statements_view(*stmts) =~= added);
                assert(self.tokens() == p.rest);
                self.consume();
                assert(self.tokens() == advance(p.rest));
                assert(program(ts, so_far) == program(
                    advance(p.rest),
                    Outcome { statements: added, errors: so_far.errors },
                ));
            },
            Err(e) => {
                let ghost added = so_far.errors.push(e@);
                assert(self.tokens() == p.rest);
                self.errors.push(e);
                assert(errors_view(self.errors) =~= added);
                self.skip_to_semicolon();
                assert(self.tokens() == clip(skip_statement(p.rest), p.rest));
                self.consume();
                assert(program(ts, so_far) == program(
                    advance(clip(skip_statement(p.rest), p.rest)),
                    Outcome { statements: so_far.statements, errors: added },
                ));
            },
        }
    }

}

} // verus!
