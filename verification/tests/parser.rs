use interpreter_rust::ast::{Expression, Literal, Node, Statement};
use interpreter_rust::lexer::Lexer;
use interpreter_rust::parser::error::ParserError;
use interpreter_rust::parser::precedence::{token_to_precedence, Precedence};
use interpreter_rust::parser::{parse, Parser};
use interpreter_rust::token::Token;

fn apply_test(test_case: &[(&str, &str)]) {
    for (input, expected) in test_case {
        match parse(input) {
            Ok(node) => assert_eq!(expected, &node.to_string()),
            Err(e) => panic!("Parsing Error: {:#?}", e),
        }
    }
}

fn errors_of(input: &str) -> Vec<ParserError> {
    match parse(input) {
        Ok(node) => panic!("parsed: {:?}", node),
        Err(e) => e,
    }
}

fn unexpected(expected: Token, found: Token) -> ParserError {
    ParserError::UnexpectedToken { expected, found }
}

#[test]
fn test_let_statement() {
    let test_case = [
        ("let x = 5;", "let x = 5;"),
        ("let y = true;", "let y = true;"),
        ("let foobar = y;", "let foobar = y;"),
    ];
    apply_test(&test_case);
}

#[test]
fn test_return_statement() {
    let test_case = [
        ("return 5;", "return 5;"),
        ("return true;", "return true;"),
        ("return foobar;", "return foobar;"),
    ];

    apply_test(&test_case);
}

#[test]
fn test_identifier_expression() {
    let test_case = [("foobar;", "foobar")];

    apply_test(&test_case);
}

#[test]
fn test_integer_literal_expression() {
    let test_case = [("5;", "5")];

    apply_test(&test_case);
}

#[test]
fn test_parsing_prefix_expression() {
    let test_case = [
        ("!5;", "(!5)"),
        ("-15;", "(-15)"),
        ("!true;", "(!true)"),
        ("!false;", "(!false)"),
    ];

    apply_test(&test_case);
}

#[test]
fn test_parsing_infix_expression() {
    let test_case = [
        ("5 + 5;", "(5 + 5)"),
        ("5 - 5;", "(5 - 5)"),
        ("5 * 5;", "(5 * 5)"),
        ("5 / 5;", "(5 / 5)"),
        ("5 > 5;", "(5 > 5)"),
        ("5 < 5;", "(5 < 5)"),
        ("5 == 5;", "(5 == 5)"),
        ("5 != 5;", "(5 != 5)"),
        ("true == true", "(true == true)"),
        ("true != false", "(true != false)"),
        ("false == false", "(false == false)"),
    ];

    apply_test(&test_case);
}

#[test]
fn test_operator_precedence_parsing() {
    let test_case = [
        ("-a * b", "((-a) * b)"),
        ("!-a", "(!(-a))"),
        ("a + b + c", "((a + b) + c)"),
        ("a + b - c", "((a + b) - c)"),
        ("a * b * c", "((a * b) * c)"),
        ("a * b / c", "((a * b) / c)"),
        ("a + b / c", "(a + (b / c))"),
        ("a + b * c + d / e - f", "(((a + (b * c)) + (d / e)) - f)"),
        ("3 + 4; -5 * 5", "(3 + 4)((-5) * 5)"),
        ("5 > 4 == 3 < 4", "((5 > 4) == (3 < 4))"),
        ("5 < 4 != 3 > 4", "((5 < 4) != (3 > 4))"),
    ];
    apply_test(&test_case);
}

#[test]
fn test_operator_precedence_parsing_bools() {
    let test_case = [
        ("true", "true"),
        ("false", "false"),
        ("3 > 5 == false", "((3 > 5) == false)"),
        ("3 < 5 == true", "((3 < 5) == true)"),
        ("true == true", "(true == true)"),
        ("true != false", "(true != false)"),
        ("false == false", "(false == false)"),
    ];

    apply_test(&test_case);
}

#[test]
fn test_operator_precedence_parsing_groups() {
    let test_case = [
        ("(5 + 5) * 2", "((5 + 5) * 2)"),
        ("2 / (5 + 5)", "(2 / (5 + 5))"),
        ("-(5 + 5)", "(-(5 + 5))"),
        ("!(true == true)", "(!(true == true))"),
        ("a + add(b * c) + d", "((a + add((b * c))) + d)"),
        (
            "add(a, b, 1, 2 * 3, 4 + 5, add(6, 7 * 8))",
            "add(a, b, 1, (2 * 3), (4 + 5), add(6, (7 * 8)))",
        ),
        (
            "add(a + b + c * d / f + g)",
            "add((((a + b) + ((c * d) / f)) + g))",
        ),
    ];

    apply_test(&test_case);
}

#[test]
fn test_if_expression() {
    let test_case = [
        ("if (x < y) { x }", "if (x < y) { x }"),
        ("if (x < y) { x } else { y }", "if (x < y) { x } else { y }"),
    ];

    apply_test(&test_case);
}

#[test]
fn test_function_literal_parsing() {
    let test_case = [
        ("fn() {}", "fn() {...}"),
        ("fn(x) {}", "fn(x) {...}"),
        ("fn(x, y, z) {}", "fn(x, y, z) {...}"),
    ];

    apply_test(&test_case);
}

#[test]
fn test_call_expression_parsing() {
    let test_case = [("add(1, 2 * 3, 4 + 5);", "add(1, (2 * 3), (4 + 5))")];

    apply_test(&test_case);
}

#[test]
fn precedence_of_the_two_named_texts() {
    apply_test(&[
        ("-a * b", "((-a) * b)"),
        ("a + b * c + d", "((a + (b * c)) + d)"),
    ]);
}

#[test]
fn canonical_text_prints_as_itself() {
    let texts = [
        "((a + (b * c)) + d)",
        "((-a) * b)",
        "(!(-a))",
        "((5 > 4) == (3 < 4))",
        "add(a, (b * c), f(x))",
        "if (x < y) { x } else { y }",
        "let x = ((1 + 2) * 3);",
        "return (a != b);",
        "let x = 5;return x;",
        "(a + b)let x = 1;f(x)y",
        "if (a == b) { (!a)let c = (a + b);if (c < 1) { 0 }return c; } else { f(1, (2 * 3))g }",
        "if (!a) {  }",
        "",
    ];
    for text in texts {
        match parse(text) {
            Ok(node) => assert_eq!(node.to_string(), text),
            Err(e) => panic!("Parsing Error: {:#?}", e),
        }
    }
}

#[test]
fn empty_text_is_an_empty_program() {
    assert_eq!(parse(""), Ok(Node::Program(vec![])));
    assert_eq!(parse("  \n "), Ok(Node::Program(vec![])));
}

#[test]
fn parse_builds_the_tree() {
    assert_eq!(
        parse("let x = 1 + 2;"),
        Ok(Node::Program(vec![Statement::Let(
            "x".to_string(),
            Expression::Infix(
                Token::Plus,
                Box::new(Expression::Lit(Literal::Int(1))),
                Box::new(Expression::Lit(Literal::Int(2))),
            ),
        )]))
    );
    assert_eq!(
        parse("\"hi\"; fn(a) { return a; }(3)"),
        Ok(Node::Program(vec![
            Statement::Expr(Expression::Lit(Literal::String("hi".to_string()))),
            Statement::Expr(Expression::Call(
                Box::new(Expression::Fn(
                    vec!["a".to_string()],
                    vec![Statement::Return(Expression::Identifier("a".to_string()))],
                )),
                vec![Expression::Lit(Literal::Int(3))],
            )),
        ]))
    );
}

#[test]
fn malformed_let_gives_errors_and_no_program() {
    let result = parse("let = 5;");
    match result {
        Ok(node) => panic!("parsed: {:?}", node),
        Err(errors) => {
            assert!(!errors.is_empty());
            assert_eq!(
                errors,
                vec![ParserError::ExpectedIdentifier { found: Token::Assign }]
            );
            assert_eq!(errors[0].to_string(), "expected identifier, got =");
        }
    }
}

#[test]
fn let_needs_assign_and_semicolon() {
    assert_eq!(
        errors_of("let x 5;"),
        vec![unexpected(Token::Assign, Token::Int(5))]
    );
    assert_eq!(
        errors_of("let x 5;")[0].to_string(),
        "expected next token to be =, but got 5 instead"
    );
    assert_eq!(
        errors_of("let x = 5"),
        vec![unexpected(Token::Semicolon, Token::Eof)]
    );
    assert_eq!(
        errors_of("return 5"),
        vec![unexpected(Token::Semicolon, Token::Eof)]
    );
    assert_eq!(
        errors_of("let x = 5 6;"),
        vec![unexpected(Token::Semicolon, Token::Int(6))]
    );
}

#[test]
fn every_defect_is_reported_in_one_pass() {
    assert_eq!(
        errors_of("let = 1; let y 2; 3 + ; let z = 4;"),
        vec![
            ParserError::ExpectedIdentifier { found: Token::Assign },
            unexpected(Token::Assign, Token::Int(2)),
            ParserError::NoPrefixRule { found: Token::Semicolon },
        ]
    );
}

#[test]
fn recovery_goes_on_behind_the_semicolon() {
    assert_eq!(
        errors_of("let 1 2 3; ) ; x"),
        vec![
            ParserError::ExpectedIdentifier { found: Token::Int(1) },
            ParserError::NoPrefixRule { found: Token::RParen },
        ]
    );
}

#[test]
fn missing_prefix_rule() {
    assert_eq!(
        errors_of("* 5"),
        vec![ParserError::NoPrefixRule { found: Token::Asterisk }]
    );
    assert_eq!(
        errors_of("* 5")[0].to_string(),
        "no prefix parse function for * found"
    );
    assert_eq!(
        errors_of("-"),
        vec![ParserError::NoPrefixRule { found: Token::Eof }]
    );
}

#[test]
fn illegal_tokens_fail_the_parse() {
    assert_eq!(
        errors_of("@"),
        vec![ParserError::NoPrefixRule {
            found: Token::Illegal("Unknown character: @".to_string())
        }]
    );
    assert_eq!(
        errors_of("let x = 5 @;"),
        vec![unexpected(
            Token::Semicolon,
            Token::Illegal("Unknown character: @".to_string())
        )]
    );
}

#[test]
fn if_and_function_need_their_delimiters() {
    assert_eq!(
        errors_of("if x { y }"),
        vec![unexpected(Token::LParen, Token::Ident("x".to_string()))]
    );
    assert_eq!(
        errors_of("if (x { y }"),
        vec![unexpected(Token::RParen, Token::LBrace)]
    );
    assert_eq!(
        errors_of("if (x) y"),
        vec![unexpected(Token::LBrace, Token::Ident("y".to_string()))]
    );
    assert_eq!(
        errors_of("if (x) { y } else z"),
        vec![unexpected(Token::LBrace, Token::Ident("z".to_string()))]
    );
    assert_eq!(
        errors_of("fn x"),
        vec![unexpected(Token::LParen, Token::Ident("x".to_string()))]
    );
    assert_eq!(
        errors_of("fn(1) {}"),
        vec![ParserError::ExpectedIdentifier { found: Token::Int(1) }]
    );
    assert_eq!(
        errors_of("fn(a, 1) {}"),
        vec![ParserError::ExpectedIdentifier { found: Token::Int(1) }]
    );
    assert_eq!(
        errors_of("fn(a b) {}"),
        vec![unexpected(Token::RParen, Token::Ident("b".to_string()))]
    );
    assert_eq!(
        errors_of("fn(a) a"),
        vec![unexpected(Token::LBrace, Token::Ident("a".to_string()))]
    );
    assert_eq!(
        errors_of("add(1, 2"),
        vec![unexpected(Token::RParen, Token::Eof)]
    );
    assert_eq!(
        errors_of("(1 + 2"),
        vec![unexpected(Token::RParen, Token::Eof)]
    );
}

#[test]
fn an_error_inside_a_block_fails_the_statement() {
    assert_eq!(
        errors_of("if (x) { let = 1 } y; z"),
        vec![ParserError::ExpectedIdentifier { found: Token::Assign }]
    );
    assert_eq!(
        errors_of("if (x) { let = 1; } y"),
        vec![
            ParserError::ExpectedIdentifier { found: Token::Assign },
            ParserError::NoPrefixRule { found: Token::RBrace },
        ]
    );
}

#[test]
fn a_block_ends_with_the_input() {
    apply_test(&[("if (x) { y", "if x { y }")]);
}

#[test]
fn parser_steps_and_errors() {
    let mut parser = Parser::new(Lexer::new("a b"));
    assert_eq!(parser.cur_token, Token::Ident("a".to_string()));
    assert_eq!(parser.peek_token, Token::Ident("b".to_string()));
    assert!(parser.errors().is_empty());
    parser.consume();
    assert_eq!(parser.cur_token, Token::Ident("b".to_string()));
    assert_eq!(parser.peek_token, Token::Eof);
    parser.peek_error(&Token::Semicolon);
    assert_eq!(
        parser.errors(),
        vec![unexpected(Token::Semicolon, Token::Eof)]
    );
    parser.consume();
    parser.consume();
    assert_eq!(parser.cur_token, Token::Eof);
    assert_eq!(parser.peek_token, Token::Eof);
}

#[test]
fn parse_program_keeps_earlier_errors() {
    let mut parser = Parser::new(Lexer::new("1; 2"));
    parser.peek_error(&Token::Comma);
    match parser.parse_program() {
        Ok(stmts) => panic!("parsed: {:?}", stmts),
        Err(errors) => assert_eq!(errors, vec![unexpected(Token::Comma, Token::Semicolon)]),
    }
}

#[test]
fn precedence_levels() {
    assert_eq!(token_to_precedence(&Token::Eq), Precedence::Equals);
    assert_eq!(token_to_precedence(&Token::NotEq), Precedence::Equals);
    assert_eq!(token_to_precedence(&Token::Lt), Precedence::LessGreater);
    assert_eq!(token_to_precedence(&Token::Gt), Precedence::LessGreater);
    assert_eq!(token_to_precedence(&Token::Plus), Precedence::Sum);
    assert_eq!(token_to_precedence(&Token::Minus), Precedence::Sum);
    assert_eq!(token_to_precedence(&Token::Asterisk), Precedence::Product);
    assert_eq!(token_to_precedence(&Token::Slash), Precedence::Product);
    assert_eq!(token_to_precedence(&Token::LParen), Precedence::Call);
    assert_eq!(token_to_precedence(&Token::Semicolon), Precedence::Lowest);
    assert_eq!(token_to_precedence(&Token::LBracket), Precedence::Lowest);
    let ranks: Vec<u8> = [
        Precedence::Lowest,
        Precedence::Equals,
        Precedence::LessGreater,
        Precedence::Sum,
        Precedence::Product,
        Precedence::Prefix,
        Precedence::Call,
        Precedence::Index,
    ]
    .iter()
    .map(|p| p.rank())
    .collect();
    assert_eq!(ranks, vec![0, 1, 2, 3, 4, 5, 6, 7]);
}

#[test]
fn precedence_is_ordered() {
    assert!(Precedence::Lowest < Precedence::Equals);
    assert!(Precedence::Equals < Precedence::LessGreater);
    assert!(Precedence::LessGreater < Precedence::Sum);
    assert!(Precedence::Sum < Precedence::Product);
    assert!(Precedence::Product < Precedence::Prefix);
    assert!(Precedence::Prefix < Precedence::Call);
    assert!(Precedence::Call < Precedence::Index);
    assert!(!(Precedence::Sum < Precedence::Sum));
}

#[test]
fn what_was_parsed_prints_as_a_text_that_parses_to_the_same() {
    let texts = [
        "-a * b",
        "a + b * c + d",
        "!-a == !true != false",
        "1 + 2 - 3 * 4 / 5 < 6 > 7",
        "add(a + b, 1, f(x)(y)) * g()",
        "if (a < b) { let c = a + b; return c * 2; } else { -b }",
        "if (!a) { f(a); if (a == b) { 1 } return 2; }",
        "let x = 1 + 2; return x * (3 + 4);",
        "(a + b); let y = f(x); g(y); y",
    ];
    for text in texts {
        let first = parse(text).unwrap();
        let printed = first.to_string();
        let second = parse(&printed).unwrap();
        assert_eq!(second, first);
        assert_eq!(second.to_string(), printed);
    }
}
