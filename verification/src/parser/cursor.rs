//! The parser's two tokens of lookahead and its steps over the tokens.

use crate::lexer::{
    lemma_skip_spaces_bounds, lemma_token_at_advances, skip_spaces, tokenize, Lexer,
};
use crate::parser::Parser;
use crate::parser::error::{clone_errors, ParserError, ParserErrorView};
use crate::parser::grammar::{advance, current, expect_next, following, skip_statement, Parsed};
use crate::parser::precedence::{precedence_of, token_to_precedence, Precedence};
use crate::token::{Token, TokenView};
use vstd::prelude::*;

verus! {

/// The tokens that are left when `cur` is current, `peek` follows it and the
/// lexer stands at `position` in `text`.
#[verifier::opaque]
pub open spec fn tokens_left(
    cur: TokenView,
    peek: TokenView,
    text: Seq<char>,
    position: int,
) -> Seq<TokenView> {
    if cur is Eof {
        Seq::empty()
    } else if peek is Eof {
        seq![cur]
    } else {
        seq![cur, peek] + tokenize(text, position)
    }
}

/// The mathematical value of what [`Parser::expect_peek`] returns, with
/// the tokens that are left.
pub open spec fn unit_view(r: Result<(), ParserError>, rest: Seq<TokenView>) -> Parsed<()> {
    Parsed {
        value: match r {
            Ok(_) => Ok(()),
            Err(e) => Err(e@),
        },
        rest,
    }
}

impl Parser {
    /// The lexer is consistent, and the end of the input, once seen, stays:
    /// after the current token nothing follows it, and the lexer has
    /// nothing left when the token after the current one is it.
    pub open spec fn wf(&self) -> bool {
        &&& self.l.wf()
        &&& (self.cur_token is Eof ==> self.peek_token is Eof)
        &&& (self.peek_token is Eof ==> self.l.position == self.l.input@.len())
    }

    /// The tokens that are left, the current one first.
    pub open spec fn tokens(&self) -> Seq<TokenView> {
        tokens_left(self.cur_token@, self.peek_token@, self.l.input@, self.l.position as int)
    }

    /// `self` is a state that parsing reaches from `before`: the same text
    /// and errors, and no more tokens left.
    pub open spec fn follows(&self, before: Parser) -> bool {
        &&& self.wf()
        &&& self.l.input == before.l.input
        &&& self.errors == before.errors
        &&& self.tokens().len() <= before.tokens().len()
        &&& self.in_step()
    }

    /// The two tokens of lookahead are the first two that are left, and
    /// the end of the input is current exactly when none is left.
    pub open spec fn in_step(&self) -> bool {
        &&& current(self.tokens()) == self.cur_token@
        &&& following(self.tokens()) == self.peek_token@
        &&& (self.tokens().len() == 0 <==> self.cur_token is Eof)
        &&& (self.tokens().len() <= 1 <==> self.peek_token is Eof)
    }

    /// A consistent parser is in step with its tokens.
    pub proof fn lemma_lookahead(&self)
        requires
            self.wf(),
        ensures
            self.in_step(),
    {
        reveal(tokens_left);
    }

    /// A parser at the start of what the lexer has left.
    pub fn new(l: Lexer) -> (p: Parser)
        requires
            l.wf(),
        ensures
            p.wf(),
            p.l.input == l.input,
            p.errors@.len() == 0,
            p.tokens() == tokenize(l.input@, l.position as int),
    {
        let mut l = l;
        let ghost s = l.input@;
        let ghost i0 = l.position as int;
        let first = l.next_token().unwrap();
        let ghost i1 = l.position as int;
        let second = l.next_token().unwrap();
        let p = Parser { l, cur_token: first, peek_token: second, errors: Vec::new() };
        proof {
            reveal(tokens_left);
            lemma_skip_spaces_bounds(s, i0);
            lemma_token_at_advances(s, skip_spaces(s, i0));
            lemma_skip_spaces_bounds(s, i1);
            lemma_token_at_advances(s, skip_spaces(s, i1));
            assert(tokenize(s, i1) == if second@ is Eof {
                Seq::empty()
            } else {
                seq![second@] + tokenize(s, p.l.position as int)
            });
            assert(p.tokens() =~= tokenize(s, i0));
        }
        p
    }

    /// The errors recorded so far.
    pub fn errors(&self) -> (r: Vec<ParserError>)
        ensures
            r@ == self.errors@,
    {
        clone_errors(&self.errors)
    }

    /// Records that `t` was expected where the next token stands.
    pub fn peek_error(&mut self, t: &Token)
        ensures
            final(self).l == old(self).l,
            final(self).cur_token == old(self).cur_token,
            final(self).peek_token == old(self).peek_token,
            final(self).errors@ == old(self).errors@.push(
                ParserError::UnexpectedToken { expected: *t, found: old(self).peek_token },
            ),
    {
        let e = ParserError::UnexpectedToken {
            expected: t.clone(),
            found: self.peek_token.clone(),
        };
        self.errors.push(e);
    }

    /// Steps one token forward.
    pub fn consume(&mut self)
        requires
            old(self).wf(),
        ensures
            final(self).follows(*old(self)),
            final(self).tokens() == advance(old(self).tokens()),
            final(self).cur_token == old(self).peek_token,
    {
        let ghost s = self.l.input@;
        let ghost i = self.l.position as int;
        self.cur_token = self.peek_token.clone();
        self.peek_token = self.l.next_token().unwrap();
        proof {
            reveal(tokens_left);
            lemma_skip_spaces_bounds(s, i);
            lemma_token_at_advances(s, skip_spaces(s, i));
            assert(tokenize(s, i) == if self.peek_token@ is Eof {
                Seq::empty()
            } else {
                seq![self.peek_token@] + tokenize(s, self.l.position as int)
            });
            assert(self.tokens() =~= advance(old(self).tokens()));
        }
    }

    /// The error for a name that is missing where the next token stands.
    pub fn error_no_identifier(&self) -> (e: ParserError)
        ensures
            e@ == (ParserErrorView::ExpectedIdentifier { found: self.peek_token@ }),
    {
        ParserError::ExpectedIdentifier { found: self.peek_token.clone() }
    }

    /// Whether the current token is `t`.
    pub fn cur_token_is(&self, t: &Token) -> (r: bool)
        ensures
            r == (self.cur_token@ == t@),
    {
        self.cur_token.same_as(t)
    }

    /// Whether the token after the current one is `t`.
    pub fn peek_token_is(&self, t: &Token) -> (r: bool)
        ensures
            r == (self.peek_token@ == t@),
    {
        self.peek_token.same_as(t)
    }

    /// How tightly the token after the current one binds.
    pub fn next_token_precedence(&self) -> (p: Precedence)
        ensures
            p == precedence_of(self.peek_token@),
    {
        token_to_precedence(&self.peek_token)
    }

    /// Steps forward if the token after the current one is `t`; fails
    /// without moving otherwise.
    pub fn expect_peek(&mut self, t: &Token) -> (r: Result<(), ParserError>)
        requires
            old(self).wf(),
        ensures
            final(self).follows(*old(self)),
            unit_view(r, final(self).tokens()) == expect_next(old(self).tokens(), t@),
    {
        proof {
            self.lemma_lookahead();
        }
        if self.peek_token_is(t) {
            self.consume();
            Ok(())
        } else {
            Err(ParserError::UnexpectedToken { expected: t.clone(), found: self.peek_token.clone() })
        }
    }

    /// Steps forward until a semicolon, or the end of the input, is current.
    pub fn skip_to_semicolon(&mut self)
        requires
            old(self).wf(),
        ensures
            final(self).follows(*old(self)),
            final(self).tokens() == skip_statement(old(self).tokens()),
    {
        proof {
            reveal(skip_statement);
            self.lemma_lookahead();
        }
        while !self.cur_token_is(&Token::Semicolon) && !self.cur_token_is(&Token::Eof)
            invariant
                self.follows(*old(self)),
                skip_statement(self.tokens()) == skip_statement(old(self).tokens()),
            decreases self.tokens().len(),
        {
            proof {
                reveal(skip_statement);
            }
            self.consume();
        }
    }
}

} // verus!
