//! Statements and blocks.

use crate::ast::{statements_view, BlockStatement, Statement};
use crate::parser::Parser;
use crate::parser::error::ParserError;
use crate::parser::grammar::{
    block, block_statements, expression, expression_statement, let_statement, return_statement,
    statement,
};
use crate::parser::precedence::Precedence;
use crate::parser::views::{block_view, statement_view};
use crate::token::Token;
use vstd::prelude::*;

verus! {

impl Parser {
    /// Parses the statement that starts at the current token: a `let`, a
    /// `return`, or an expression.
    pub fn parse_statement(&mut self) -> (r: Result<Statement, ParserError>)
        requires
            old(self).wf(),
        ensures
            final(self).follows(*old(self)),
            statement_view(r, final(self).tokens()) == statement(old(self).tokens()),
        decreases old(self).tokens().len(), 6int,
    {
        proof {
            reveal(statement);
            reveal(let_statement);
            reveal(return_statement);
            reveal(expression_statement);
            self.lemma_lookahead();
        }
        match self.cur_token {
            Token::Let => self.parse_let_statement(),
            Token::Return => self.parse_return_statement(),
            _ => self.parse_expression_statement(),
        }
    }

    /// Parses `let`, a name, `=`, an expression and `;`, and stops at the
    /// semicolon.
    pub fn parse_let_statement(&mut self) -> (r: Result<Statement, ParserError>)
        requires
            old(self).wf(),
        ensures
            final(self).follows(*old(self)),
            statement_view(r, final(self).tokens()) == let_statement(old(self).tokens()),
        decreases old(self).tokens().len(), 5int,
    {
        proof {
            reveal(let_statement);
            reveal(expression);
            self.lemma_lookahead();
        }
        let ident = match &self.peek_token {
            Token::Ident(s) => s.clone(),
            _ => {
                return Err(self.error_no_identifier());
            },
        };
        self.consume();
        self.expect_peek(&Token::Assign)?;
        self.consume();
        let expr = self.parse_expression(Precedence::Lowest)?;
        self.expect_peek(&Token::Semicolon)?;
        Ok(Statement::Let(ident, expr))
    }

    /// Parses `return`, an expression and `;`, and stops at the semicolon.
    pub fn parse_return_statement(&mut self) -> (r: Result<Statement, ParserError>)
        requires
            old(self).wf(),
        ensures
            final(self).follows(*old(self)),
            statement_view(r, final(self).tokens()) == return_statement(old(self).tokens()),
        decreases old(self).tokens().len(), 5int,
    {
        proof {
            reveal(return_statement);
            reveal(expression);
            self.lemma_lookahead();
        }
        self.consume();
        let expr = self.parse_expression(Precedence::Lowest)?;
        self.expect_peek(&Token::Semicolon)?;
        Ok(Statement::Return(expr))
    }

    /// Parses an expression, and steps on the `;` behind it if there is one.
    pub fn parse_expression_statement(&mut self) -> (r: Result<Statement, ParserError>)
        requires
            old(self).wf(),
        ensures
            final(self).follows(*old(self)),
            statement_view(r, final(self).tokens()) == expression_statement(old(self).tokens()),
        decreases old(self).tokens().len(), 5int,
    {
        proof {
            reveal(expression_statement);
            reveal(expression);
            self.lemma_lookahead();
        }
        let expr = self.parse_expression(Precedence::Lowest)?;
        if self.peek_token_is(&Token::Semicolon) {
            self.consume();
        }
        Ok(Statement::Expr(expr))
    }

    /// Parses the statements of the block whose opening brace is current, and
    /// stops at the closing brace or at the end of the input.
    pub fn parse_block_statement(&mut self) -> (r: Result<BlockStatement, ParserError>)
        requires
            old(self).wf(),
        ensures
            final(self).follows(*old(self)),
            block_view(r, final(self).tokens()) == block(old(self).tokens()),
        decreases old(self).tokens().len(), 8int,
    {
        proof {
            reveal(block);
            reveal(block_statements);
            reveal(statement);
            self.lemma_lookahead();
        }
        self.consume();
        let mut stmts: Vec<Statement> = Vec::new();
        assert(statements_view(stmts) =~= Seq::empty());
        while !self.cur_token_is(&Token::RBrace) && !self.cur_token_is(&Token::Eof)
            invariant
                self.follows(*old(self)),
                block_statements(self.tokens(), statements_view(stmts)) == block(
                    old(self).tokens(),
                ),
            decreases self.tokens().len(),
        {
            proof {
                reveal(block);
                reveal(block_statements);
                reveal(statement);
            }
            let stmt = self.parse_statement()?;
            let ghost added = statements_view(stmts).push(stmt@);
            stmts.push(stmt);
            assert(statements_view(stmts) =~= added);
            self.consume();
        }
        Ok(stmts)
    }
}

} // verus!
