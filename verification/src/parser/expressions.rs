//! Expressions: operands, operators and calls.

use crate::ast::{expressions_view, Expression, Literal, LiteralView};
use crate::parser::Parser;
use crate::parser::error::ParserError;
use crate::parser::grammar::{
    call_arguments, call_expression, expression, function_literal, if_expression, infix_expression,
    is_infix_operator, more_arguments, operand, operators, prefix_expression,
};
use crate::parser::precedence::{token_to_precedence, Precedence};
use crate::parser::views::{arguments_view, expression_view};
use crate::token::Token;
use vstd::prelude::*;

verus! {

fn is_infix(t: &Token) -> (r: bool)
    ensures
        r == is_infix_operator(t@),
{
    match t {
        Token::Plus => true,
        Token::Minus => true,
        Token::Slash => true,
        Token::Asterisk => true,
        Token::Eq => true,
        Token::NotEq => true,
        Token::Lt => true,
        Token::Gt => true,
        _ => false,
    }
}

impl Parser {
    /// Parses an expression whose operators bind tighter than `precedence`:
    /// an operand, then the operators and calls that follow it and bind
    /// tighter, applied from left to right. Stops at the expression's last
    /// token.
    pub fn parse_expression(&mut self, precedence: Precedence) -> (r: Result<Expression, ParserError>)
        requires
            old(self).wf(),
        ensures
            final(self).follows(*old(self)),
            expression_view(r, final(self).tokens()) == expression(
                old(self).tokens(),
                precedence.level(),
            ),
        decreases old(self).tokens().len(), 3int,
    {
        proof {
            reveal(expression);
            reveal(operand);
            reveal(operators);
            reveal(infix_expression);
            reveal(call_expression);
            self.lemma_lookahead();
        }
        let mut left = self.parse_operand()?;
        loop
            invariant
                self.follows(*old(self)),
                operators(self.tokens(), left@, precedence.level()) == expression(
                    old(self).tokens(),
                    precedence.level(),
                ),
            decreases self.tokens().len(),
        {
            proof {
                reveal(expression);
                reveal(operand);
                reveal(operators);
                reveal(infix_expression);
                reveal(call_expression);
            }
            if self.peek_token_is(&Token::Semicolon) || precedence.rank()
                >= self.next_token_precedence().rank() {
                return Ok(left);
            }
            if is_infix(&self.peek_token) {
                self.consume();
                left = self.parse_infix_expression(left)?;
            } else if self.peek_token_is(&Token::LParen) {
                self.consume();
                left = self.parse_call_expression(left)?;
            } else {
                return Ok(left);
            }
        }
    }

    /// Parses what an expression starts with.
    pub fn parse_operand(&mut self) -> (r: Result<Expression, ParserError>)
        requires
            old(self).wf(),
        ensures
            final(self).follows(*old(self)),
            expression_view(r, final(self).tokens()) == operand(old(self).tokens()),
        decreases old(self).tokens().len(), 2int,
    {
        proof {
            reveal(operand);
            reveal(prefix_expression);
            reveal(expression);
            reveal(if_expression);
            reveal(function_literal);
            self.lemma_lookahead();
        }
        match &self.cur_token {
            Token::Bang => self.parse_prefix_expression(),
            Token::Minus => self.parse_prefix_expression(),
            Token::Ident(id) => Ok(Expression::Identifier(id.clone())),
            Token::Int(i) => {
                let lit = Literal::Int(*i);
                assert(lit@ == LiteralView::Int(*i));
                Ok(Expression::Lit(lit))
            },
            Token::String(s) => {
                let lit = Literal::String(s.clone());
                assert(lit@ == LiteralView::String(s@));
                Ok(Expression::Lit(lit))
            },
            Token::Boolean(b) => {
                let lit = Literal::Bool(*b);
                assert(lit@ == LiteralView::Bool(*b));
                Ok(Expression::Lit(lit))
            },
            Token::LParen => {
                self.consume();
                let expr = self.parse_expression(Precedence::Lowest)?;
                self.expect_peek(&Token::RParen)?;
                Ok(expr)
            },
            Token::If => self.parse_if_expression(),
            Token::Fn => self.parse_function_literal(),
            _ => Err(ParserError::NoPrefixRule { found: self.cur_token.clone() }),
        }
    }

    /// Parses the prefix operator that is current and its operand.
    pub fn parse_prefix_expression(&mut self) -> (r: Result<Expression, ParserError>)
        requires
            old(self).wf(),
        ensures
            final(self).follows(*old(self)),
            expression_view(r, final(self).tokens()) == prefix_expression(old(self).tokens()),
        decreases old(self).tokens().len(), 1int,
    {
        proof {
            reveal(prefix_expression);
            reveal(expression);
            self.lemma_lookahead();
        }
        if self.cur_token_is(&Token::Eof) {
            return Err(ParserError::NoPrefixRule { found: Token::Eof });
        }
        let prefix = self.cur_token.clone();
        self.consume();
        let expr = self.parse_expression(Precedence::Prefix)?;
        Ok(Expression::Prefix(prefix, Box::new(expr)))
    }

    /// Parses the binary operator that is current and its right operand, and
    /// applies it to `left_expr`.
    pub fn parse_infix_expression(&mut self, left_expr: Expression) -> (r: Result<
        Expression,
        ParserError,
    >)
        requires
            old(self).wf(),
        ensures
            final(self).follows(*old(self)),
            expression_view(r, final(self).tokens()) == infix_expression(
                old(self).tokens(),
                left_expr@,
            ),
        decreases old(self).tokens().len(), 4int,
    {
        proof {
            reveal(infix_expression);
            reveal(expression);
            self.lemma_lookahead();
        }
        let infix_op = self.cur_token.clone();
        self.consume();
        let precedence = token_to_precedence(&infix_op);
        let right_expr = self.parse_expression(precedence)?;
        Ok(Expression::Infix(infix_op, Box::new(left_expr), Box::new(right_expr)))
    }

    /// Parses the arguments of a call of `expr`; the opening parenthesis is
    /// current.
    pub fn parse_call_expression(&mut self, expr: Expression) -> (r: Result<Expression, ParserError>)
        requires
            old(self).wf(),
        ensures
            final(self).follows(*old(self)),
            expression_view(r, final(self).tokens()) == call_expression(old(self).tokens(), expr@),
        decreases old(self).tokens().len(), 6int,
    {
        proof {
            reveal(call_expression);
            reveal(call_arguments);
            self.lemma_lookahead();
        }
        let arguments = self.parse_call_arguments()?;
        Ok(Expression::Call(Box::new(expr), arguments))
    }

    /// Parses expressions with commas between them up to the closing
    /// parenthesis; the opening parenthesis is current.
    pub fn parse_call_arguments(&mut self) -> (r: Result<Vec<Expression>, ParserError>)
        requires
            old(self).wf(),
        ensures
            final(self).follows(*old(self)),
            arguments_view(r, final(self).tokens()) == call_arguments(old(self).tokens()),
        decreases old(self).tokens().len(), 5int,
    {
        proof {
            reveal(call_arguments);
            reveal(expression);
            reveal(more_arguments);
            self.lemma_lookahead();
        }
        let mut args: Vec<Expression> = Vec::new();
        if self.peek_token_is(&Token::RParen) {
            self.consume();
            assert(expressions_view(args) =~= Seq::empty());
            return Ok(args);
        }
        self.consume();
        let first = self.parse_expression(Precedence::Lowest)?;
        let ghost one = seq![first@];
        args.push(first);
        assert(expressions_view(args) =~= one);
        while self.peek_token_is(&Token::Comma)
            invariant
                self.follows(*old(self)),
                more_arguments(self.tokens(), expressions_view(args)) == call_arguments(
                    old(self).tokens(),
                ),
            decreases self.tokens().len(),
        {
            proof {
                reveal(call_arguments);
                reveal(expression);
                reveal(more_arguments);
            }
            self.consume();
            self.consume();
            let arg = self.parse_expression(Precedence::Lowest)?;
            let ghost added = expressions_view(args).push(arg@);
            args.push(arg);
            assert(expressions_view(args) =~= added);
        }
        self.expect_peek(&Token::RParen)?;
        Ok(args)
    }
}

} // verus!
