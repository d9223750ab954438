//! The lexer: a single forward pass that cuts source text into tokens.

use crate::token::{keyword_or_ident, lookup_ident, unknown_character, Token, TokenView};
use vstd::prelude::*;
use vstd::string::{StrSliceExecFns, StringExecFns};

verus! {

/// Whether `c` is one of the four blanks that separate tokens.
pub open spec fn is_space(c: char) -> bool {
    c == ' ' || c == '\t' || c == '\n' || c == '\r'
}

/// Whether `c` is an ASCII letter: what a word starts with.
pub open spec fn is_letter(c: char) -> bool {
    ('a' <= c && c <= 'z') || ('A' <= c && c <= 'Z')
}

/// Whether `c` is an ASCII decimal digit.
pub open spec fn is_digit(c: char) -> bool {
    '0' <= c && c <= '9'
}

/// Whether `c` may continue a word: a letter, a digit or an underscore.
pub open spec fn is_word_char(c: char) -> bool {
    is_letter(c) || is_digit(c) || c == '_'
}

/// The character at `i`, or NUL past the end.
pub open spec fn char_at(s: Seq<char>, i: int) -> char {
    if 0 <= i < s.len() {
        s[i]
    } else {
        '\0'
    }
}

/// The first position at or after `i` that holds no blank.
pub open spec fn skip_spaces(s: Seq<char>, i: int) -> int
    decreases s.len() - i,
{
    if 0 <= i < s.len() && is_space(s[i]) {
        skip_spaces(s, i + 1)
    } else {
        i
    }
}

/// The end of the longest run of word characters that starts at `i`.
pub open spec fn word_end(s: Seq<char>, i: int) -> int
    decreases s.len() - i,
{
    if 0 <= i < s.len() && is_word_char(s[i]) {
        word_end(s, i + 1)
    } else {
        i
    }
}

/// The end of the longest run of digits that starts at `i`.
pub open spec fn digits_end(s: Seq<char>, i: int) -> int
    decreases s.len() - i,
{
    if 0 <= i < s.len() && is_digit(s[i]) {
        digits_end(s, i + 1)
    } else {
        i
    }
}

/// The position of the quote that closes a string whose text starts at `i`,
/// or the length of `s` where none does. A backslash takes the character
/// after it along, so an escaped quote does not close the string.
pub open spec fn string_end(s: Seq<char>, i: int) -> int
    decreases s.len() - i,
{
    if !(0 <= i < s.len()) {
        s.len() as int
    } else if s[i] == '"' {
        i
    } else if s[i] == '\\' && i + 1 < s.len() {
        string_end(s, i + 2)
    } else {
        string_end(s, i + 1)
    }
}

/// The number that a run of digits spells.
pub open spec fn decimal_value(s: Seq<char>) -> nat
    decreases s.len(),
{
    if s.len() == 0 {
        0
    } else {
        decimal_value(s.drop_last()) * 10 + (s.last() as u32 - '0' as u32) as nat
    }
}

/// The message of the illegal token for a numeral beyond `i64`.
pub open spec fn number_too_large_message() -> Seq<char> {
    "number too large to fit in target type"@
}

/// The message of the illegal token for a string that nothing closes.
pub open spec fn unterminated_string_message() -> Seq<char> {
    "unterminated string"@
}

/// The token that starts exactly at `i`, and the position behind it.
pub open spec fn token_at(s: Seq<char>, i: int) -> (TokenView, int) {
    if !(0 <= i < s.len()) {
        (TokenView::Eof, s.len() as int)
    } else {
        let c = s[i];
        if c == '=' {
            if char_at(s, i + 1) == '=' {
                (TokenView::Eq, i + 2)
            } else {
                (TokenView::Assign, i + 1)
            }
        } else if c == '!' {
            if char_at(s, i + 1) == '=' {
                (TokenView::NotEq, i + 2)
            } else {
                (TokenView::Bang, i + 1)
            }
        } else if c == ';' {
            (TokenView::Semicolon, i + 1)
        } else if c == '(' {
            (TokenView::LParen, i + 1)
        } else if c == ')' {
            (TokenView::RParen, i + 1)
        } else if c == ',' {
            (TokenView::Comma, i + 1)
        } else if c == '+' {
            (TokenView::Plus, i + 1)
        } else if c == '-' {
            (TokenView::Minus, i + 1)
        } else if c == '/' {
            (TokenView::Slash, i + 1)
        } else if c == '*' {
            (TokenView::Asterisk, i + 1)
        } else if c == '<' {
            (TokenView::Lt, i + 1)
        } else if c == '>' {
            (TokenView::Gt, i + 1)
        } else if c == '{' {
            (TokenView::LBrace, i + 1)
        } else if c == '}' {
            (TokenView::RBrace, i + 1)
        } else if c == '[' {
            (TokenView::LBracket, i + 1)
        } else if c == ']' {
            (TokenView::RBracket, i + 1)
        } else if c == '"' {
            let e = string_end(s, i + 1);
            if e < s.len() {
                (TokenView::String(s.subrange(i + 1, e)), e + 1)
            } else {
                (TokenView::Illegal(unterminated_string_message()), s.len() as int)
            }
        } else if is_letter(c) {
            let e = word_end(s, i);
            (keyword_or_ident(s.subrange(i, e)), e)
        } else if is_digit(c) {
            let e = digits_end(s, i);
            let v = decimal_value(s.subrange(i, e));
            if v <= i64::MAX {
                (TokenView::Int(v as i64), e)
            } else {
                (TokenView::Illegal(number_too_large_message()), e)
            }
        } else {
            (TokenView::Illegal(unknown_character(c)), i + 1)
        }
    }
}

/// The next token at or after `i`, blanks skipped, and the position behind it.
pub open spec fn next_token_spec(s: Seq<char>, i: int) -> (TokenView, int) {
    token_at(s, skip_spaces(s, i))
}

/// Skipping blanks goes forward and stays in the text.
pub proof fn lemma_skip_spaces_bounds(s: Seq<char>, i: int)
    requires
        0 <= i <= s.len(),
    ensures
        i <= skip_spaces(s, i) <= s.len(),
    decreases s.len() - i,
{
    if i < s.len() && is_space(s[i]) {
        lemma_skip_spaces_bounds(s, i + 1);
    }
}

/// A word ends at or after its start, in the text.
pub proof fn lemma_word_end_bounds(s: Seq<char>, i: int)
    requires
        0 <= i <= s.len(),
    ensures
        i <= word_end(s, i) <= s.len(),
    decreases s.len() - i,
{
    if i < s.len() && is_word_char(s[i]) {
        lemma_word_end_bounds(s, i + 1);
    }
}

/// A run of digits ends at or after its start, in the text.
pub proof fn lemma_digits_end_bounds(s: Seq<char>, i: int)
    requires
        0 <= i <= s.len(),
    ensures
        i <= digits_end(s, i) <= s.len(),
    decreases s.len() - i,
{
    if i < s.len() && is_digit(s[i]) {
        lemma_digits_end_bounds(s, i + 1);
    }
}

/// A string ends at or after its start, in the text.
pub proof fn lemma_string_end_bounds(s: Seq<char>, i: int)
    requires
        0 <= i <= s.len(),
    ensures
        i <= string_end(s, i) <= s.len(),
    decreases s.len() - i,
{
    if i < s.len() && s[i] != '"' {
        if s[i] == '\\' && i + 1 < s.len() {
            lemma_string_end_bounds(s, i + 2);
        } else {
            lemma_string_end_bounds(s, i + 1);
        }
    }
}

/// Every token but the end of input takes at least one character, and no
/// token reaches past the end.
pub proof fn lemma_token_at_advances(s: Seq<char>, i: int)
    requires
        0 <= i <= s.len(),
    ensures
        i <= token_at(s, i).1 <= s.len(),
        i < s.len() ==> i < token_at(s, i).1,
        token_at(s, i).0 is Eof <==> i == s.len(),
{
    if i < s.len() {
        lemma_string_end_bounds(s, i + 1);
        lemma_word_end_bounds(s, i + 1);
        lemma_digits_end_bounds(s, i + 1);
        let c = s[i];
        if is_letter(c) {
            let e = word_end(s, i);
            let w = s.subrange(i, e);
            assert(w.len() > 0);
            lemma_keyword_lengths();
        }
    }
}

/// The lexer never goes back, and passes at least one character for every
/// token but the end of the input.
pub proof fn lemma_next_token_advances(s: Seq<char>, i: int)
    requires
        0 <= i <= s.len(),
    ensures
        i <= next_token_spec(s, i).1 <= s.len(),
        !(next_token_spec(s, i).0 is Eof) ==> i < next_token_spec(s, i).1,
        next_token_spec(s, i).0 is Eof ==> next_token_spec(s, i).1 == s.len(),
{
    lemma_skip_spaces_bounds(s, i);
    lemma_token_at_advances(s, skip_spaces(s, i));
}

/// The end of the input comes again at every further call: once the lexer
/// has given it, it stands at the end, and from there it gives nothing
/// else.
pub proof fn lemma_end_repeats(s: Seq<char>, i: int)
    requires
        0 <= i <= s.len(),
        next_token_spec(s, i).0 is Eof,
    ensures
        next_token_spec(s, next_token_spec(s, i).1) == (TokenView::Eof, s.len() as int),
{
    lemma_next_token_advances(s, i);
}

/// The keywords are not empty.
pub proof fn lemma_keyword_lengths()
    ensures
        "fn"@.len() == 2,
        "let"@.len() == 3,
        "true"@.len() == 4,
        "false"@.len() == 5,
        "if"@.len() == 2,
        "else"@.len() == 4,
        "return"@.len() == 6,
{
    reveal_strlit("fn");
    reveal_strlit("let");
    reveal_strlit("true");
    reveal_strlit("false");
    reveal_strlit("if");
    reveal_strlit("else");
    reveal_strlit("return");
}

/// The tokens of `s` from position `i` on, up to the end of the input.
pub open spec fn tokenize(s: Seq<char>, i: int) -> Seq<TokenView>
    decreases s.len() - i,
{
    if !(0 <= i <= s.len()) {
        Seq::empty()
    } else {
        let start = skip_spaces(s, i);
        let found = token_at(s, start);
        if found.0 is Eof {
            Seq::empty()
        } else {
            proof {
                lemma_skip_spaces_bounds(s, i);
                lemma_token_at_advances(s, start);
            }
            seq![found.0] + tokenize(s, found.1)
        }
    }
}

/// A lexer over one source text.
pub struct Lexer {
    pub input: String,
    /// The position of `ch`.
    pub position: usize,
    /// The position that is read next.
    pub read_position: usize,
    /// The character under examination, NUL past the end.
    pub ch: char,
}

impl Lexer {
    /// The fields agree: `ch` is the character at `position`, and
    /// `read_position` is one further unless the input has ended.
    pub open spec fn wf(&self) -> bool {
        &&& self.position <= self.input@.len()
        &&& self.ch == char_at(self.input@, self.position as int)
        &&& self.read_position == if self.position < self.input@.len() {
            self.position + 1
        } else {
            self.position as int
        }
    }

    /// A lexer at the start of `input`.
    pub fn new(input: &str) -> (l: Lexer)
        ensures
            l.wf(),
            l.input@ == input@,
            l.position == 0,
    {
        let mut l = Lexer { input: String::from_str(input), position: 0, read_position: 0, ch: '\0' };
        l.read_char();
        l
    }

    /// Moves on to the character at `read_position`, or to the end of the
    /// input if that position is not in it.
    pub fn read_char(&mut self)
        ensures
            final(self).wf(),
            final(self).input == old(self).input,
            final(self).position == if old(self).read_position < old(self).input@.len() {
                old(self).read_position as int
            } else {
                old(self).input@.len() as int
            },
    {
        let len = self.input.as_str().unicode_len();
        if self.read_position >= len {
            self.ch = '\0';
            self.position = len;
            self.read_position = len;
        } else {
            self.ch = self.input.as_str().get_char(self.read_position);
            self.position = self.read_position;
            self.read_position = self.read_position + 1;
        }
    }

    /// The character behind the one under examination.
    fn peek_char(&self) -> (c: char)
        requires
            self.wf(),
        ensures
            c == char_at(self.input@, self.position + 1),
    {
        let len = self.input.as_str().unicode_len();
        if self.read_position >= len {
            '\0'
        } else {
            self.input.as_str().get_char(self.read_position)
        }
    }

    /// Whether the input has ended.
    fn at_end(&self) -> (r: bool)
        requires
            self.wf(),
        ensures
            r == (self.position == self.input@.len()),
    {
        self.position >= self.input.as_str().unicode_len()
    }

    /// Moves on to the first character that is no blank.
    fn skip_whitespace(&mut self)
        requires
            old(self).wf(),
        ensures
            final(self).wf(),
            final(self).input == old(self).input,
            final(self).position == skip_spaces(old(self).input@, old(self).position as int),
    {
        while self.ch == ' ' || self.ch == '\t' || self.ch == '\n' || self.ch == '\r'
            invariant
                self.wf(),
                self.input == old(self).input,
                skip_spaces(self.input@, self.position as int) == skip_spaces(
                    old(self).input@,
                    old(self).position as int,
                ),
            decreases self.input@.len() - self.position,
        {
            self.read_char();
        }
    }

    /// Reads the word that starts at the letter under examination.
    fn read_keyword_or_ident(&mut self) -> (t: Token)
        requires
            old(self).wf(),
            is_letter(old(self).ch),
        ensures
            final(self).wf(),
            final(self).input == old(self).input,
            final(self).position == word_end(old(self).input@, old(self).position as int),
            t@ == keyword_or_ident(
                old(self).input@.subrange(old(self).position as int, final(self).position as int),
            ),
    {
        let start = self.position;
        while is_word(self.ch)
            invariant
                self.wf(),
                self.input == old(self).input,
                start <= self.position,
                word_end(self.input@, self.position as int) == word_end(
                    old(self).input@,
                    start as int,
                ),
            decreases self.input@.len() - self.position,
        {
            self.read_char();
        }
        lookup_ident(self.input.as_str().substring_char(start, self.position))
    }

    /// Reads the numeral that starts at the digit under examination.
    fn read_number(&mut self) -> (t: Token)
        requires
            old(self).wf(),
            is_digit(old(self).ch),
        ensures
            final(self).wf(),
            final(self).input == old(self).input,
            final(self).position == digits_end(old(self).input@, old(self).position as int),
            (t@, final(self).position as int) == token_at(
                old(self).input@,
                old(self).position as int,
            ),
    {
        let start = self.position;
        let mut value: Option<i64> = Some(0);
        while '0' <= self.ch && self.ch <= '9'
            invariant
                self.wf(),
                self.input == old(self).input,
                start <= self.position,
                digits_end(self.input@, self.position as int) == digits_end(
                    old(self).input@,
                    start as int,
                ),
                match value {
                    Some(v) => v as int == decimal_value(
                        self.input@.subrange(start as int, self.position as int),
                    ),
                    None => decimal_value(
                        self.input@.subrange(start as int, self.position as int),
                    ) > i64::MAX,
                },
            decreases self.input@.len() - self.position,
        {
            let d: i64 = ((self.ch as u32) - 48) as i64;
            proof {
                let s = self.input@;
                let next = s.subrange(start as int, self.position + 1);
                assert(next.drop_last() =~= s.subrange(start as int, self.position as int));
                assert(next.last() == self.ch);
                assert(decimal_value(next) == decimal_value(next.drop_last()) * 10 + d);
            }
            value = match value {
                Some(v) => match v.checked_mul(10) {
                    Some(w) => w.checked_add(d),
                    None => None,
                },
                None => None,
            };
            self.read_char();
        }
        match value {
            Some(v) => Token::Int(v),
            None => Token::Illegal(String::from_str("number too large to fit in target type")),
        }
    }

    /// Reads the string whose opening quote is under examination.
    fn read_string(&mut self) -> (t: Token)
        requires
            old(self).wf(),
            old(self).ch == '"',
            old(self).position < old(self).input@.len(),
        ensures
            final(self).wf(),
            final(self).input == old(self).input,
            (t@, final(self).position as int) == token_at(
                old(self).input@,
                old(self).position as int,
            ),
    {
        self.read_char();
        let start = self.position;
        while !self.at_end() && self.ch != '"'
            invariant
                self.wf(),
                self.input == old(self).input,
                start <= self.position,
                string_end(self.input@, self.position as int) == string_end(
                    old(self).input@,
                    start as int,
                ),
            decreases self.input@.len() - self.position,
        {
            if self.ch == '\\' && !self.at_last() {
                self.read_char();
            }
            self.read_char();
        }
        if self.at_end() {
            Token::Illegal(String::from_str("unterminated string"))
        } else {
            let text = String::from_str(self.input.as_str().substring_char(start, self.position));
            self.read_char();
            Token::String(text)
        }
    }

    /// Whether the character under examination is the last one, or the input
    /// has ended.
    fn at_last(&self) -> (r: bool)
        requires
            self.wf(),
        ensures
            r == (self.position + 1 >= self.input@.len()),
    {
        self.read_position >= self.input.as_str().unicode_len()
    }

    /// The illegal token for the character under examination.
    fn read_unknown(&mut self) -> (t: Token)
        requires
            old(self).wf(),
            old(self).position < old(self).input@.len(),
        ensures
            final(self).wf(),
            final(self).input == old(self).input,
            final(self).position == old(self).position + 1,
            t@ == TokenView::Illegal(unknown_character(old(self).ch)),
    {
        let mut message = String::from_str("Unknown character: ");
        message.append(self.input.as_str().substring_char(self.position, self.position + 1));
        assert(message@ =~= unknown_character(self.ch));
        self.read_char();
        Token::Illegal(message)
    }

    /// The next token of the input. The end of the input is a token too,
    /// and comes again at every further call.
    pub fn next_token(&mut self) -> (r: Result<Token, String>)
        requires
            old(self).wf(),
        ensures
            final(self).wf(),
            final(self).input == old(self).input,
            r is Ok,
            (r->Ok_0@, final(self).position as int) == next_token_spec(
                old(self).input@,
                old(self).position as int,
            ),
            old(self).position <= final(self).position,
    {
        proof {
            lemma_next_token_advances(self.input@, self.position as int);
        }
        self.skip_whitespace();
        if self.at_end() {
            return Ok(Token::Eof);
        }
        let token = match self.ch {
            '=' => {
                if self.peek_char() == '=' {
                    self.read_char();
                    Token::Eq
                } else {
                    Token::Assign
                }
            },
            '!' => {
                if self.peek_char() == '=' {
                    self.read_char();
                    Token::NotEq
                } else {
                    Token::Bang
                }
            },
            ';' => Token::Semicolon,
            '(' => Token::LParen,
            ')' => Token::RParen,
            ',' => Token::Comma,
            '+' => Token::Plus,
            '-' => Token::Minus,
            '/' => Token::Slash,
            '*' => Token::Asterisk,
            '<' => Token::Lt,
            '>' => Token::Gt,
            '{' => Token::LBrace,
            '}' => Token::RBrace,
            '[' => Token::LBracket,
            ']' => Token::RBracket,
            '"' => {
                return Ok(self.read_string());
            },
            _ => {
                if is_alpha(self.ch) {
                    return Ok(self.read_keyword_or_ident());
                } else if '0' <= self.ch && self.ch <= '9' {
                    return Ok(self.read_number());
                } else {
                    return Ok(self.read_unknown());
                }
            },
        };
        self.read_char();
        Ok(token)
    }
}

fn is_alpha(c: char) -> (r: bool)
    ensures
        r == is_letter(c),
{
    ('a' <= c && c <= 'z') || ('A' <= c && c <= 'Z')
}

fn is_word(c: char) -> (r: bool)
    ensures
        r == is_word_char(c),
{
    is_alpha(c) || ('0' <= c && c <= '9') || c == '_'
}

/// The values of a list of tokens.
pub open spec fn tokens_view(v: Vec<Token>) -> Seq<TokenView> {
    Seq::new(v.len() as nat, |i: int| v[i]@)
}

/// All tokens of a text, up to its end. The end of the input is not among
/// them.
pub fn tokens(input: &str) -> (r: Vec<Token>)
    ensures
        tokens_view(r) == tokenize(input@, 0),
{
    let mut lexer = Lexer::new(input);
    let mut out: Vec<Token> = Vec::new();
    assert(tokens_view(out) + tokenize(input@, 0) =~= tokenize(input@, 0));
    loop
        invariant
            lexer.wf(),
            lexer.input@ == input@,
            tokens_view(out) + tokenize(input@, lexer.position as int) == tokenize(input@, 0),
        decreases input@.len() - lexer.position,
    {
        let ghost at = lexer.position as int;
        let ghost before = tokens_view(out);
        proof {
            lemma_next_token_advances(input@, at);
        }
        let token = lexer.next_token().unwrap();
        match token {
            Token::Eof => {
                assert(tokenize(input@, at) =~= Seq::empty());
                assert(before + tokenize(input@, at) =~= before);
                return out;
            },
            _ => {},
        }
        let ghost found = token@;
        out.push(token);
        assert(tokens_view(out) =~= before.push(found));
        assert(tokenize(input@, at) == seq![found] + tokenize(input@, lexer.position as int));
        assert(tokens_view(out) + tokenize(input@, lexer.position as int) =~= before + tokenize(
            input@,
            at,
        ));
    }
}

} // verus!
