//! How tightly each operator binds.

use crate::token::{Token, TokenView};
use vstd::prelude::*;

verus! {

/// The binding levels, from the loosest to the tightest.
#[derive(Debug, Clone, Copy, PartialEq, Eq, PartialOrd)]
pub enum Precedence {
    Lowest,
    /// `==` and `!=`
    Equals,
    /// `<` and `>`
    LessGreater,
    /// `+` and `-`
    Sum,
    /// `*` and `/`
    Product,
    /// A prefix `-` or `!`
    Prefix,
    /// A call
    Call,
    /// An index; no token of the language binds at this level.
    Index,
}

impl Precedence {
    /// The level as a number: a higher one binds tighter.
    pub open spec fn level(self) -> int {
        match self {
            Precedence::Lowest => 0,
            Precedence::Equals => 1,
            Precedence::LessGreater => 2,
            Precedence::Sum => 3,
            Precedence::Product => 4,
            Precedence::Prefix => 5,
            Precedence::Call => 6,
            Precedence::Index => 7,
        }
    }

    /// The level as a number.
    pub fn rank(&self) -> (r: u8)
        ensures
            r as int == self.level(),
    {
        match self {
            Precedence::Lowest => 0,
            Precedence::Equals => 1,
            Precedence::LessGreater => 2,
            Precedence::Sum => 3,
            Precedence::Product => 4,
            Precedence::Prefix => 5,
            Precedence::Call => 6,
            Precedence::Index => 7,
        }
    }
}

/// The level at which a token binds what stands to its left: that of a
/// binary operator or of the parenthesis that opens a call, and the lowest
/// for every other token.
pub open spec fn precedence_of(t: TokenView) -> Precedence {
    match t {
        TokenView::Eq => Precedence::Equals,
        TokenView::NotEq => Precedence::Equals,
        TokenView::Lt => Precedence::LessGreater,
        TokenView::Gt => Precedence::LessGreater,
        TokenView::Plus => Precedence::Sum,
        TokenView::Minus => Precedence::Sum,
        TokenView::Slash => Precedence::Product,
        TokenView::Asterisk => Precedence::Product,
        TokenView::LParen => Precedence::Call,
        _ => Precedence::Lowest,
    }
}

/// The level at which a token binds what stands to its left.
pub fn token_to_precedence(t: &Token) -> (p: Precedence)
    ensures
        p == precedence_of(t@),
{
    match t {
        Token::Eq => Precedence::Equals,
        Token::NotEq => Precedence::Equals,
        Token::Lt => Precedence::LessGreater,
        Token::Gt => Precedence::LessGreater,
        Token::Plus => Precedence::Sum,
        Token::Minus => Precedence::Sum,
        Token::Slash => Precedence::Product,
        Token::Asterisk => Precedence::Product,
        Token::LParen => Precedence::Call,
        _ => Precedence::Lowest,
    }
}

} // verus!
