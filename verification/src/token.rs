//! The lexical units of the language and how each is spelled.

use crate::text::{bool_text, int_text, push_bool, push_int};
use vstd::prelude::*;
use vstd::string::StringExecFns;

verus! {

/// A lexical unit.
#[derive(Debug, PartialEq, Eq, PartialOrd, Ord, Hash)]
pub enum Token {
    /// A character or numeral that no rule accepts, with the reason.
    Illegal(String),
    /// The end of the input.
    Eof,
    Ident(String),
    Int(i64),
    String(String),
    Boolean(bool),
    Assign,
    Plus,
    Minus,
    Bang,
    Asterisk,
    Slash,
    NotEq,
    Eq,
    Lt,
    Gt,
    Comma,
    Semicolon,
    LParen,
    RParen,
    LBrace,
    RBrace,
    LBracket,
    RBracket,
    Fn,
    Let,
    If,
    Else,
    Return,
}

/// The mathematical value of a [`Token`]: texts are sequences of characters.
pub enum TokenView {
    Illegal(Seq<char>),
    Eof,
    Ident(Seq<char>),
    Int(i64),
    String(Seq<char>),
    Boolean(bool),
    Assign,
    Plus,
    Minus,
    Bang,
    Asterisk,
    Slash,
    NotEq,
    Eq,
    Lt,
    Gt,
    Comma,
    Semicolon,
    LParen,
    RParen,
    LBrace,
    RBrace,
    LBracket,
    RBracket,
    Fn,
    Let,
    If,
    Else,
    Return,
}

impl View for Token {
    type V = TokenView;

    open spec fn view(&self) -> TokenView {
        match self {
            Token::Illegal(m) => TokenView::Illegal(m@),
            Token::Eof => TokenView::Eof,
            Token::Ident(s) => TokenView::Ident(s@),
            Token::Int(i) => TokenView::Int(*i),
            Token::String(s) => TokenView::String(s@),
            Token::Boolean(b) => TokenView::Boolean(*b),
            Token::Assign => TokenView::Assign,
            Token::Plus => TokenView::Plus,
            Token::Minus => TokenView::Minus,
            Token::Bang => TokenView::Bang,
            Token::Asterisk => TokenView::Asterisk,
            Token::Slash => TokenView::Slash,
            Token::NotEq => TokenView::NotEq,
            Token::Eq => TokenView::Eq,
            Token::Lt => TokenView::Lt,
            Token::Gt => TokenView::Gt,
            Token::Comma => TokenView::Comma,
            Token::Semicolon => TokenView::Semicolon,
            Token::LParen => TokenView::LParen,
            Token::RParen => TokenView::RParen,
            Token::LBrace => TokenView::LBrace,
            Token::RBrace => TokenView::RBrace,
            Token::LBracket => TokenView::LBracket,
            Token::RBracket => TokenView::RBracket,
            Token::Fn => TokenView::Fn,
            Token::Let => TokenView::Let,
            Token::If => TokenView::If,
            Token::Else => TokenView::Else,
            Token::Return => TokenView::Return,
        }
    }
}

impl TokenView {
    /// How the token is spelled when printed.
    pub open spec fn text(self) -> Seq<char> {
        match self {
            TokenView::Illegal(_) => "ILLEGAL"@,
            TokenView::Eof => "EOF"@,
            TokenView::Ident(s) => s,
            TokenView::Int(i) => int_text(i as int),
            TokenView::String(s) => s,
            TokenView::Boolean(b) => bool_text(b),
            TokenView::Assign => "="@,
            TokenView::Plus => "+"@,
            TokenView::Minus => "-"@,
            TokenView::Bang => "!"@,
            TokenView::Asterisk => "*"@,
            TokenView::Slash => "/"@,
            TokenView::NotEq => "!="@,
            TokenView::Eq => "=="@,
            TokenView::Lt => "<"@,
            TokenView::Gt => ">"@,
            TokenView::Comma => ","@,
            TokenView::Semicolon => ";"@,
            TokenView::LParen => "("@,
            TokenView::RParen => ")"@,
            TokenView::LBrace => "{"@,
            TokenView::RBrace => "}"@,
            TokenView::LBracket => "["@,
            TokenView::RBracket => "]"@,
            TokenView::Fn => "fn"@,
            TokenView::Let => "let"@,
            TokenView::If => "if"@,
            TokenView::Else => "else"@,
            TokenView::Return => "return"@,
        }
    }
}

impl Clone for Token {
    fn clone(&self) -> (r: Self)
        ensures
            r == *self,
    {
        match self {
            Token::Illegal(m) => Token::Illegal(m.clone()),
            Token::Eof => Token::Eof,
            Token::Ident(s) => Token::Ident(s.clone()),
            Token::Int(i) => Token::Int(*i),
            Token::String(s) => Token::String(s.clone()),
            Token::Boolean(b) => Token::Boolean(*b),
            Token::Assign => Token::Assign,
            Token::Plus => Token::Plus,
            Token::Minus => Token::Minus,
            Token::Bang => Token::Bang,
            Token::Asterisk => Token::Asterisk,
            Token::Slash => Token::Slash,
            Token::NotEq => Token::NotEq,
            Token::Eq => Token::Eq,
            Token::Lt => Token::Lt,
            Token::Gt => Token::Gt,
            Token::Comma => Token::Comma,
            Token::Semicolon => Token::Semicolon,
            Token::LParen => Token::LParen,
            Token::RParen => Token::RParen,
            Token::LBrace => Token::LBrace,
            Token::RBrace => Token::RBrace,
            Token::LBracket => Token::LBracket,
            Token::RBracket => Token::RBracket,
            Token::Fn => Token::Fn,
            Token::Let => Token::Let,
            Token::If => Token::If,
            Token::Else => Token::Else,
            Token::Return => Token::Return,
        }
    }
}

impl Token {
    /// Appends the token's spelling to `out`.
    pub fn write_to(&self, out: &mut String)
        ensures
            final(out)@ == old(out)@ + self@.text(),
    {
        match self {
            Token::Illegal(_) => out.append("ILLEGAL"),
            Token::Eof => out.append("EOF"),
            Token::Ident(s) => out.append(s.as_str()),
            Token::Int(i) => push_int(out, *i),
            Token::String(s) => out.append(s.as_str()),
            Token::Boolean(b) => push_bool(out, *b),
            Token::Assign => out.append("="),
            Token::Plus => out.append("+"),
            Token::Minus => out.append("-"),
            Token::Bang => out.append("!"),
            Token::Asterisk => out.append("*"),
            Token::Slash => out.append("/"),
            Token::NotEq => out.append("!="),
            Token::Eq => out.append("=="),
            Token::Lt => out.append("<"),
            Token::Gt => out.append(">"),
            Token::Comma => out.append(","),
            Token::Semicolon => out.append(";"),
            Token::LParen => out.append("("),
            Token::RParen => out.append(")"),
            Token::LBrace => out.append("{"),
            Token::RBrace => out.append("}"),
            Token::LBracket => out.append("["),
            Token::RBracket => out.append("]"),
            Token::Fn => out.append("fn"),
            Token::Let => out.append("let"),
            Token::If => out.append("if"),
            Token::Else => out.append("else"),
            Token::Return => out.append("return"),
        }
    }

    /// Whether the two tokens are the same, texts and numbers included.
    pub fn same_as(&self, other: &Token) -> (r: bool)
        ensures
            r == (self@ == other@),
    {
        match self {
            Token::Illegal(a) => match other {
                Token::Illegal(b) => *a == *b,
                _ => false,
            },
            Token::Ident(a) => match other {
                Token::Ident(b) => *a == *b,
                _ => false,
            },
            Token::String(a) => match other {
                Token::String(b) => *a == *b,
                _ => false,
            },
            Token::Int(a) => match other {
                Token::Int(b) => *a == *b,
                _ => false,
            },
            Token::Boolean(a) => match other {
                Token::Boolean(b) => *a == *b,
                _ => false,
            },
            Token::Eof => match other {
                Token::Eof => true,
                _ => false,
            },
            Token::Assign => match other {
                Token::Assign => true,
                _ => false,
            },
            Token::Plus => match other {
                Token::Plus => true,
                _ => false,
            },
            Token::Minus => match other {
                Token::Minus => true,
                _ => false,
            },
            Token::Bang => match other {
                Token::Bang => true,
                _ => false,
            },
            Token::Asterisk => match other {
                Token::Asterisk => true,
                _ => false,
            },
            Token::Slash => match other {
                Token::Slash => true,
                _ => false,
            },
            Token::NotEq => match other {
                Token::NotEq => true,
                _ => false,
            },
            Token::Eq => match other {
                Token::Eq => true,
                _ => false,
            },
            Token::Lt => match other {
                Token::Lt => true,
                _ => false,
            },
            Token::Gt => match other {
                Token::Gt => true,
                _ => false,
            },
            Token::Comma => match other {
                Token::Comma => true,
                _ => false,
            },
            Token::Semicolon => match other {
                Token::Semicolon => true,
                _ => false,
            },
            Token::LParen => match other {
                Token::LParen => true,
                _ => false,
            },
            Token::RParen => match other {
                Token::RParen => true,
                _ => false,
            },
            Token::LBrace => match other {
                Token::LBrace => true,
                _ => false,
            },
            Token::RBrace => match other {
                Token::RBrace => true,
                _ => false,
            },
            Token::LBracket => match other {
                Token::LBracket => true,
                _ => false,
            },
            Token::RBracket => match other {
                Token::RBracket => true,
                _ => false,
            },
            Token::Fn => match other {
                Token::Fn => true,
                _ => false,
            },
            Token::Let => match other {
                Token::Let => true,
                _ => false,
            },
            Token::If => match other {
                Token::If => true,
                _ => false,
            },
            Token::Else => match other {
                Token::Else => true,
                _ => false,
            },
            Token::Return => match other {
                Token::Return => true,
                _ => false,
            },
        }
    }

    /// The token's spelling.
    pub fn to_string(&self) -> (r: String)
        ensures
            r@ == self@.text(),
    {
        let mut out = String::new();
        self.write_to(&mut out);
        assert(out@ =~= self@.text());
        out
    }
}

/// The message for a character that is no token by itself.
pub open spec fn unknown_character(c: char) -> Seq<char> {
    "Unknown character: "@.push(c)
}

/// The token that one character spells by itself, if it spells one. NUL
/// stands for the end of the input.
pub open spec fn token_of_char(c: char) -> Option<TokenView> {
    if c == '=' {
        Some(TokenView::Assign)
    } else if c == '+' {
        Some(TokenView::Plus)
    } else if c == '-' {
        Some(TokenView::Minus)
    } else if c == '!' {
        Some(TokenView::Bang)
    } else if c == '*' {
        Some(TokenView::Asterisk)
    } else if c == '/' {
        Some(TokenView::Slash)
    } else if c == ',' {
        Some(TokenView::Comma)
    } else if c == ';' {
        Some(TokenView::Semicolon)
    } else if c == '(' {
        Some(TokenView::LParen)
    } else if c == ')' {
        Some(TokenView::RParen)
    } else if c == '{' {
        Some(TokenView::LBrace)
    } else if c == '}' {
        Some(TokenView::RBrace)
    } else if c == '<' {
        Some(TokenView::Lt)
    } else if c == '>' {
        Some(TokenView::Gt)
    } else if c == '\0' {
        Some(TokenView::Eof)
    } else {
        None
    }
}

/// `String::push` of std: the text afterwards is the text before with `c`
/// at its end.
#[verifier::external_body]
fn push_char(out: &mut String, c: char)
    ensures
        final(out)@ == old(out)@.push(c),
{
    out.push(c);
}

impl vstd::std_specs::convert::TryFromSpecImpl<char> for Token {
    /// The result is stated by the contract of `try_from`, over the views of
    /// the token and of the message.
    open spec fn obeys_try_from_spec() -> bool {
        false
    }

    open spec fn try_from_spec(v: char) -> Result<Self, String> {
        arbitrary()
    }
}

impl TryFrom<char> for Token {
    type Error = String;

    /// The token that `value` spells by itself, or a message that names the
    /// character.
    fn try_from(value: char) -> (r: Result<Self, Self::Error>)
        ensures
            match token_of_char(value) {
                Some(t) => r is Ok && r->Ok_0@ == t,
                None => r is Err && r->Err_0@ == unknown_character(value),
            },
    {
        match value {
            '=' => Ok(Token::Assign),
            '+' => Ok(Token::Plus),
            '-' => Ok(Token::Minus),
            '!' => Ok(Token::Bang),
            '*' => Ok(Token::Asterisk),
            '/' => Ok(Token::Slash),
            ',' => Ok(Token::Comma),
            ';' => Ok(Token::Semicolon),
            '(' => Ok(Token::LParen),
            ')' => Ok(Token::RParen),
            '{' => Ok(Token::LBrace),
            '}' => Ok(Token::RBrace),
            '<' => Ok(Token::Lt),
            '>' => Ok(Token::Gt),
            '\0' => Ok(Token::Eof),
            _ => {
                let mut message = String::from_str("Unknown character: ");
                push_char(&mut message, value);
                Err(message)
            },
        }
    }
}

/// The token that a run of letters, digits and underscores stands for: a
/// keyword where the run spells one, an identifier otherwise.
pub open spec fn keyword_or_ident(word: Seq<char>) -> TokenView {
    if word == "fn"@ {
        TokenView::Fn
    } else if word == "let"@ {
        TokenView::Let
    } else if word == "true"@ {
        TokenView::Boolean(true)
    } else if word == "false"@ {
        TokenView::Boolean(false)
    } else if word == "if"@ {
        TokenView::If
    } else if word == "else"@ {
        TokenView::Else
    } else if word == "return"@ {
        TokenView::Return
    } else {
        TokenView::Ident(word)
    }
}

/// Whether two texts hold the same characters.
pub fn same_text(a: &str, b: &str) -> (r: bool)
    ensures
        r == (a@ == b@),
{
    String::from_str(a) == String::from_str(b)
}

/// Resolves a word against the keyword table.
pub fn lookup_ident(ident: &str) -> (r: Token)
    ensures
        r@ == keyword_or_ident(ident@),
{
    if same_text(ident, "fn") {
        Token::Fn
    } else if same_text(ident, "let") {
        Token::Let
    } else if same_text(ident, "true") {
        Token::Boolean(true)
    } else if same_text(ident, "false") {
        Token::Boolean(false)
    } else if same_text(ident, "if") {
        Token::If
    } else if same_text(ident, "else") {
        Token::Else
    } else if same_text(ident, "return") {
        Token::Return
    } else {
        Token::Ident(String::from_str(ident))
    }
}

} // verus!
