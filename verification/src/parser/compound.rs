//! `if` expressions and function literals.

use crate::ast::{names_view, Expression};
use crate::parser::Parser;
use crate::parser::error::ParserError;
use crate::parser::grammar::{
    block, expression, function_literal, if_blocks, if_expression, more_parameters, parameters,
};
use crate::parser::precedence::Precedence;
use crate::parser::views::{expression_view, parameters_view};
use crate::token::Token;
use vstd::prelude::*;

verus! {

impl Parser {
    /// Parses `if`, a condition in parentheses, a block, and another block
    /// after `else`.
    pub fn parse_if_expression(&mut self) -> (r: Result<Expression, ParserError>)
        requires
            old(self).wf(),
        ensures
            final(self).follows(*old(self)),
            expression_view(r, final(self).tokens()) == if_expression(old(self).tokens()),
        decreases old(self).tokens().len(), 1int,
    {
        proof {
            reveal(if_expression);
            reveal(expression);
            reveal(if_blocks);
            reveal(block);
            self.lemma_lookahead();
        }
        self.expect_peek(&Token::LParen)?;
        self.consume();
        let condition = self.parse_expression(Precedence::Lowest)?;
        self.expect_peek(&Token::RParen)?;
        self.expect_peek(&Token::LBrace)?;
        let consequence = self.parse_block_statement()?;
        let alternative = if self.peek_token_is(&Token::Else) {
            self.consume();
            self.expect_peek(&Token::LBrace)?;
            Some(self.parse_block_statement()?)
        } else {
            None
        };
        Ok(Expression::If(Box::new(condition), consequence, alternative))
    }

    /// Parses `fn`, the parameter names in parentheses, and the body.
    pub fn parse_function_literal(&mut self) -> (r: Result<Expression, ParserError>)
        requires
            old(self).wf(),
        ensures
            final(self).follows(*old(self)),
            expression_view(r, final(self).tokens()) == function_literal(old(self).tokens()),
        decreases old(self).tokens().len(), 1int,
    {
        proof {
            reveal(function_literal);
            reveal(parameters);
            reveal(block);
            self.lemma_lookahead();
        }
        self.expect_peek(&Token::LParen)?;
        let params = self.parse_function_parameters()?;
        self.expect_peek(&Token::LBrace)?;
        let body = self.parse_block_statement()?;
        Ok(Expression::Fn(params, body))
    }

    /// Parses names with commas between them up to the closing parenthesis;
    /// the opening parenthesis is current.
    pub fn parse_function_parameters(&mut self) -> (r: Result<Vec<String>, ParserError>)
        requires
            old(self).wf(),
        ensures
            final(self).follows(*old(self)),
            parameters_view(r, final(self).tokens()) == parameters(old(self).tokens()),
    {
        proof {
            reveal(parameters);
            reveal(more_parameters);
            self.lemma_lookahead();
        }
        let mut params: Vec<String> = Vec::new();
        if self.peek_token_is(&Token::RParen) {
            self.consume();
            assert(names_view(params) =~= Seq::empty());
            return Ok(params);
        }
        self.consume();
        match &self.cur_token {
            Token::Ident(id) => {
                params.push(id.clone());
            },
            _ => {
                return Err(ParserError::ExpectedIdentifier { found: self.cur_token.clone() });
            },
        }
        assert(names_view(params) =~= seq![self.cur_token@->Ident_0]);
        while self.peek_token_is(&Token::Comma)
            invariant
                self.follows(*old(self)),
                more_parameters(self.tokens(), names_view(params)) == parameters(
                    old(self).tokens(),
                ),
            decreases self.tokens().len(),
        {
            proof {
                reveal(parameters);
                reveal(more_parameters);
            }
            self.consume();
            self.consume();
            let ghost before = names_view(params);
            match &self.cur_token {
                Token::Ident(id) => {
                    params.push(id.clone());
                },
                _ => {
                    return Err(ParserError::ExpectedIdentifier { found: self.cur_token.clone() });
                },
            }
            assert(names_view(params) =~= before.push(self.cur_token@->Ident_0));
        }
        self.expect_peek(&Token::RParen)?;
        Ok(params)
    }
}

} // verus!
