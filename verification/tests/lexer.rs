use interpreter_rust::lexer::{tokens, Lexer};
use interpreter_rust::relex::spell;
use interpreter_rust::token::{lookup_ident, Token};

fn lex_all(input: &str) -> Vec<Token> {
    let mut lexer = Lexer::new(input);
    let mut data = Vec::new();
    loop {
        let token = lexer.next_token().expect("token");
        data.push(token.clone());
        if token == Token::Eof {
            break;
        }
    }
    data
}

#[test]
pub fn test_return_token() {
    let input = "return 5;";

    let tests: Vec<Token> = vec![Token::Return, Token::Int(5), Token::Semicolon, Token::Eof];

    let mut lexer = Lexer::new(input);
    let mut data = Vec::new();
    loop {
        let token = lexer.next_token().expect("token");
        data.push(token.clone());
        if token == Token::Eof {
            break;
        }
    }
    assert_eq!(data, tests);
}

#[test]
pub fn test_next_token_small() {
    let input = "=+(){},;";

    let tests: Vec<Token> = vec![
        Token::Assign,
        Token::Plus,
        Token::LParen,
        Token::RParen,
        Token::LBrace,
        Token::RBrace,
        Token::Comma,
        Token::Semicolon,
        Token::Eof,
    ];

    let mut l = Lexer::new(input);
    let mut data: Vec<Token> = Vec::new();
    while let Ok(tok) = l.next_token() {
        if tok == Token::Eof {
            data.push(tok);
            break;
        }
        data.push(tok);
    }
    assert_eq!(data, tests);
}

#[test]
fn test_next_token_assignment() {
    let input = "let five = 5;";

    let tests: Vec<Token> = vec![
        Token::Let,
        Token::Ident("five".to_string()),
        Token::Assign,
        Token::Int(5),
        Token::Semicolon,
        Token::Eof,
    ];

    let mut lexer = Lexer::new(input);
    let mut data = Vec::new();
    loop {
        let token = lexer.next_token().expect("token");
        data.push(token.clone());
        if token == Token::Eof {
            break;
        }
    }
    assert_eq!(data, tests);
}

#[test]
fn test_eq_token() {
    let input = "5 == 5;";

    let tests: Vec<Token> = vec![
        Token::Int(5),
        Token::Eq,
        Token::Int(5),
        Token::Semicolon,
        Token::Eof,
    ];

    let mut lexer = Lexer::new(input);
    let mut data = Vec::new();
    loop {
        let token = lexer.next_token().expect("token");
        data.push(token.clone());
        if token == Token::Eof {
            break;
        }
    }
    assert_eq!(data, tests);
}

#[test]
fn test_boolean_expression() {
    let input = "true;";

    let tests: Vec<Token> = vec![Token::Boolean(true), Token::Semicolon, Token::Eof];

    let mut lexer = Lexer::new(input);
    let mut data = Vec::new();
    loop {
        let token = lexer.next_token().expect("token");
        data.push(token.clone());
        if token == Token::Eof {
            break;
        }
    }
    assert_eq!(data, tests);
}

#[test]
pub fn test_next_token() {
    let input = "=+(){},;";

    let tests: Vec<(Token, &str)> = vec![
        (Token::Assign, "="),
        (Token::Plus, "+"),
        (Token::LParen, "("),
        (Token::RParen, ")"),
        (Token::LBrace, "{"),
        (Token::RBrace, "}"),
        (Token::Comma, ","),
        (Token::Semicolon, ";"),
        (Token::Eof, ""),
    ];

    let mut l = Lexer::new(input);
    let mut start = 0;

    for (expected_kind, expected_literal) in tests {
        let tok = l.next_token().expect("token");
        let end = l.position;

        assert_eq!(tok, expected_kind);
        assert_eq!(&input[start..end], expected_literal);
        start = end;
    }
}

#[test]
fn all_operators_and_delimiters() {
    assert_eq!(
        lex_all("= + - ! * / != == < > , ; ( ) { } [ ]"),
        vec![
            Token::Assign,
            Token::Plus,
            Token::Minus,
            Token::Bang,
            Token::Asterisk,
            Token::Slash,
            Token::NotEq,
            Token::Eq,
            Token::Lt,
            Token::Gt,
            Token::Comma,
            Token::Semicolon,
            Token::LParen,
            Token::RParen,
            Token::LBrace,
            Token::RBrace,
            Token::LBracket,
            Token::RBracket,
            Token::Eof,
        ]
    );
}

#[test]
fn keywords_and_identifiers() {
    assert_eq!(
        lex_all("fn let true false if else return foo_bar x1 lets"),
        vec![
            Token::Fn,
            Token::Let,
            Token::Boolean(true),
            Token::Boolean(false),
            Token::If,
            Token::Else,
            Token::Return,
            Token::Ident("foo_bar".to_string()),
            Token::Ident("x1".to_string()),
            Token::Ident("lets".to_string()),
            Token::Eof,
        ]
    );
}

#[test]
fn whitespace_is_skipped() {
    assert_eq!(
        lex_all(" \t\r\n 1 \n\t 2\r\n"),
        vec![Token::Int(1), Token::Int(2), Token::Eof]
    );
    assert_eq!(lex_all(""), vec![Token::Eof]);
    assert_eq!(lex_all("   "), vec![Token::Eof]);
}

#[test]
fn two_character_operators_need_lookahead() {
    assert_eq!(
        lex_all("=== !== =! !"),
        vec![
            Token::Eq,
            Token::Assign,
            Token::NotEq,
            Token::Assign,
            Token::Assign,
            Token::Bang,
            Token::Bang,
            Token::Eof,
        ]
    );
}

#[test]
fn end_of_input_repeats() {
    let mut lexer = Lexer::new("x");
    assert_eq!(lexer.next_token(), Ok(Token::Ident("x".to_string())));
    assert_eq!(lexer.next_token(), Ok(Token::Eof));
    assert_eq!(lexer.next_token(), Ok(Token::Eof));
    assert_eq!(lexer.next_token(), Ok(Token::Eof));
}

#[test]
fn string_literals() {
    assert_eq!(
        lex_all("\"hello world\" \"\""),
        vec![
            Token::String("hello world".to_string()),
            Token::String("".to_string()),
            Token::Eof,
        ]
    );
    assert_eq!(
        lex_all("\"a\\\"b\" 1"),
        vec![Token::String("a\\\"b".to_string()), Token::Int(1), Token::Eof]
    );
}

#[test]
fn unterminated_string_is_illegal() {
    assert_eq!(
        lex_all("\"abc"),
        vec![Token::Illegal("unterminated string".to_string()), Token::Eof]
    );
    assert_eq!(
        lex_all("\"abc\\"),
        vec![Token::Illegal("unterminated string".to_string()), Token::Eof]
    );
    assert_eq!(
        lex_all("\"abc\\\""),
        vec![Token::Illegal("unterminated string".to_string()), Token::Eof]
    );
}

#[test]
fn unknown_characters_are_illegal() {
    assert_eq!(
        lex_all("a @ b"),
        vec![
            Token::Ident("a".to_string()),
            Token::Illegal("Unknown character: @".to_string()),
            Token::Ident("b".to_string()),
            Token::Eof,
        ]
    );
    assert_eq!(
        lex_all("_x"),
        vec![
            Token::Illegal("Unknown character: _".to_string()),
            Token::Ident("x".to_string()),
            Token::Eof,
        ]
    );
    assert_eq!(
        lex_all("\u{e9}"),
        vec![Token::Illegal("Unknown character: \u{e9}".to_string()), Token::Eof]
    );
    assert_eq!(
        lex_all("1\u{0}2"),
        vec![
            Token::Int(1),
            Token::Illegal("Unknown character: \u{0}".to_string()),
            Token::Int(2),
            Token::Eof,
        ]
    );
}

#[test]
fn numerals() {
    assert_eq!(
        lex_all("0 007 9223372036854775807"),
        vec![Token::Int(0), Token::Int(7), Token::Int(9223372036854775807), Token::Eof]
    );
    assert_eq!(
        lex_all("9223372036854775808;"),
        vec![
            Token::Illegal("number too large to fit in target type".to_string()),
            Token::Semicolon,
            Token::Eof,
        ]
    );
    assert_eq!(
        lex_all("12ab"),
        vec![Token::Int(12), Token::Ident("ab".to_string()), Token::Eof]
    );
}

#[test]
fn token_spelling() {
    assert_eq!(Token::Int(-42).to_string(), "-42");
    assert_eq!(Token::Int(0).to_string(), "0");
    assert_eq!(Token::Int(i64::MIN).to_string(), "-9223372036854775808");
    assert_eq!(Token::Int(i64::MAX).to_string(), "9223372036854775807");
    assert_eq!(Token::Boolean(true).to_string(), "true");
    assert_eq!(Token::Boolean(false).to_string(), "false");
    assert_eq!(Token::Ident("abc".to_string()).to_string(), "abc");
    assert_eq!(Token::String("a b".to_string()).to_string(), "a b");
    assert_eq!(Token::Illegal("why".to_string()).to_string(), "ILLEGAL");
    assert_eq!(Token::Eof.to_string(), "EOF");
    assert_eq!(Token::NotEq.to_string(), "!=");
    assert_eq!(Token::LBrace.to_string(), "{");
    assert_eq!(Token::Return.to_string(), "return");
}

#[test]
fn relexing_the_spelling_gives_the_tokens_back() {
    let input = "let add = fn(a, b) { if (a != b) { return a + b * 2; } else { !true == false } };";
    let tokens = lex_all(input);
    let mut spelled = String::new();
    for t in &tokens {
        if *t != Token::Eof {
            spelled.push_str(&t.to_string());
            spelled.push(' ');
        }
    }
    assert_eq!(lex_all(&spelled), tokens);
}

#[test]
fn keyword_table() {
    assert_eq!(lookup_ident("fn"), Token::Fn);
    assert_eq!(lookup_ident("let"), Token::Let);
    assert_eq!(lookup_ident("if"), Token::If);
    assert_eq!(lookup_ident("else"), Token::Else);
    assert_eq!(lookup_ident("return"), Token::Return);
    assert_eq!(lookup_ident("true"), Token::Boolean(true));
    assert_eq!(lookup_ident("false"), Token::Boolean(false));
    assert_eq!(lookup_ident("iff"), Token::Ident("iff".to_string()));
}

#[test]
fn token_equality_by_value() {
    assert!(Token::Ident("a".to_string()).same_as(&Token::Ident("a".to_string())));
    assert!(!Token::Ident("a".to_string()).same_as(&Token::Ident("b".to_string())));
    assert!(!Token::Ident("a".to_string()).same_as(&Token::String("a".to_string())));
    assert!(Token::Int(3).same_as(&Token::Int(3)));
    assert!(!Token::Int(3).same_as(&Token::Int(4)));
    assert!(Token::Semicolon.same_as(&Token::Semicolon));
    assert!(!Token::Semicolon.same_as(&Token::Comma));
}

#[test]
fn tokens_of_single_characters() {
    assert_eq!(Token::try_from('='), Ok(Token::Assign));
    assert_eq!(Token::try_from('+'), Ok(Token::Plus));
    assert_eq!(Token::try_from('-'), Ok(Token::Minus));
    assert_eq!(Token::try_from('!'), Ok(Token::Bang));
    assert_eq!(Token::try_from('*'), Ok(Token::Asterisk));
    assert_eq!(Token::try_from('/'), Ok(Token::Slash));
    assert_eq!(Token::try_from(','), Ok(Token::Comma));
    assert_eq!(Token::try_from(';'), Ok(Token::Semicolon));
    assert_eq!(Token::try_from('('), Ok(Token::LParen));
    assert_eq!(Token::try_from(')'), Ok(Token::RParen));
    assert_eq!(Token::try_from('{'), Ok(Token::LBrace));
    assert_eq!(Token::try_from('}'), Ok(Token::RBrace));
    assert_eq!(Token::try_from('<'), Ok(Token::Lt));
    assert_eq!(Token::try_from('>'), Ok(Token::Gt));
    assert_eq!(Token::try_from('\0'), Ok(Token::Eof));
    assert_eq!(Token::try_from('a'), Err("Unknown character: a".to_string()));
    assert_eq!(Token::try_from('['), Err("Unknown character: [".to_string()));
    assert_eq!(Token::try_from('\u{e9}'), Err("Unknown character: \u{e9}".to_string()));
}

#[test]
fn reading_character_by_character() {
    let mut lexer = Lexer::new("ab");
    assert_eq!((lexer.position, lexer.read_position, lexer.ch), (0, 1, 'a'));
    lexer.read_char();
    assert_eq!((lexer.position, lexer.read_position, lexer.ch), (1, 2, 'b'));
    lexer.read_char();
    assert_eq!((lexer.position, lexer.read_position, lexer.ch), (2, 2, '\0'));
    lexer.read_char();
    assert_eq!((lexer.position, lexer.read_position, lexer.ch), (2, 2, '\0'));
    lexer.read_position = 7;
    lexer.read_char();
    assert_eq!((lexer.position, lexer.read_position, lexer.ch), (2, 2, '\0'));
    let lexer = Lexer::new("");
    assert_eq!((lexer.position, lexer.read_position, lexer.ch), (0, 0, '\0'));
    let mut lexer = Lexer::new("  x1 42");
    assert_eq!(lexer.next_token(), Ok(Token::Ident("x1".to_string())));
    assert_eq!((lexer.position, lexer.read_position, lexer.ch), (4, 5, ' '));
    assert_eq!(lexer.next_token(), Ok(Token::Int(42)));
    assert_eq!((lexer.position, lexer.read_position, lexer.ch), (7, 7, '\0'));
}

#[test]
fn all_tokens_of_a_text() {
    assert_eq!(tokens(""), vec![]);
    assert_eq!(tokens(" \n"), vec![]);
    assert_eq!(
        tokens("let x = \"s\" @ 1;"),
        vec![
            Token::Let,
            Token::Ident("x".to_string()),
            Token::Assign,
            Token::String("s".to_string()),
            Token::Illegal("Unknown character: @".to_string()),
            Token::Int(1),
            Token::Semicolon,
        ]
    );
}

#[test]
fn spelling_tokens() {
    assert_eq!(spell(&vec![]), "");
    assert_eq!(spell(&vec![Token::Let]), "let ");
    assert_eq!(
        spell(&vec![
            Token::Let,
            Token::Ident("x".to_string()),
            Token::Assign,
            Token::Int(12),
            Token::NotEq,
            Token::Boolean(false),
            Token::Semicolon,
        ]),
        "let x = 12 != false ; "
    );
}

#[test]
fn spelling_and_lexing_again() {
    let texts = [
        "",
        "let add = fn(a, b) { if (a != b) { return a + b * 2; } else { !true == false } };",
        "a==b!=c=d!e<f>g[h]i,j;k",
        "007 x_1 iffy lets fnord returned truely falsey elsewhere",
        "((((1))))+-*/",
    ];
    for text in texts {
        let first = tokens(text);
        assert_eq!(tokens(&spell(&first)), first);
    }
}

#[test]
fn tokens_order_and_hash() {
    let mut seen = std::collections::HashSet::new();
    assert!(seen.insert(Token::Ident("a".to_string())));
    assert!(!seen.insert(Token::Ident("a".to_string())));
    assert!(seen.insert(Token::Ident("b".to_string())));
    assert!(seen.insert(Token::Semicolon));
    assert!(Token::Illegal("x".to_string()) < Token::Eof);
    assert!(Token::Int(1) < Token::Int(2));
    assert!(Token::Ident("a".to_string()) < Token::Ident("b".to_string()));
    assert!(Token::Assign < Token::Return);
    let mut sorted = vec![Token::Return, Token::Int(2), Token::Eof, Token::Int(1)];
    sorted.sort();
    assert_eq!(sorted, vec![Token::Eof, Token::Int(1), Token::Int(2), Token::Return]);
}
