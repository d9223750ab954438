use interpreter_rust::ast::{Expression, Literal, Node, Statement};
use interpreter_rust::printer::{format_expressions, format_statements};
use interpreter_rust::token::Token;

fn ident(name: &str) -> Expression {
    Expression::Identifier(name.to_string())
}

fn num(i: i64) -> Expression {
    Expression::Lit(Literal::Int(i))
}

#[test]
fn display() {
    let p = vec![Statement::Let(
        "asdf".to_string(),
        Expression::Identifier("bar".to_string()),
    )];

    let expected = "let asdf = bar;";

    for stmt in p {
        assert_eq!(stmt.to_string(), expected);
    }
}

#[test]
fn statements_print() {
    assert_eq!(Statement::Return(num(7)).to_string(), "return 7;");
    assert_eq!(Statement::Expr(ident("x")).to_string(), "x");
    assert_eq!(
        format_statements(&vec![
            Statement::Let("a".to_string(), num(1)),
            Statement::Expr(ident("a")),
            Statement::Return(ident("a")),
        ]),
        "let a = 1;areturn a;"
    );
    assert_eq!(format_statements(&vec![]), "");
}

#[test]
fn expressions_print() {
    assert_eq!(
        Expression::Prefix(Token::Minus, Box::new(ident("a"))).to_string(),
        "(-a)"
    );
    assert_eq!(
        Expression::Infix(Token::NotEq, Box::new(num(1)), Box::new(num(-2))).to_string(),
        "(1 != -2)"
    );
    assert_eq!(
        Expression::Postfix(Token::Bang, Box::new(ident("a"))).to_string(),
        "(a!)"
    );
    assert_eq!(
        Expression::If(Box::new(ident("c")), vec![Statement::Expr(num(1))], None).to_string(),
        "if c { 1 }"
    );
    assert_eq!(
        Expression::If(
            Box::new(ident("c")),
            vec![Statement::Expr(num(1))],
            Some(vec![Statement::Return(num(2))]),
        )
        .to_string(),
        "if c { 1 } else { return 2; }"
    );
    assert_eq!(
        Expression::Fn(
            vec!["x".to_string(), "y".to_string()],
            vec![Statement::Expr(ident("x"))],
        )
        .to_string(),
        "fn(x, y) {...}"
    );
    assert_eq!(
        Expression::Call(Box::new(ident("f")), vec![]).to_string(),
        "f()"
    );
    assert_eq!(
        Expression::Call(Box::new(ident("f")), vec![num(1), ident("b"), num(3)]).to_string(),
        "f(1, b, 3)"
    );
    assert_eq!(format_expressions(&vec![num(1), num(2)]), "1, 2");
    assert_eq!(format_expressions(&vec![num(1)]), "1");
    assert_eq!(format_expressions(&vec![]), "");
}

#[test]
fn literals_print() {
    assert_eq!(Literal::Int(-12).to_string(), "-12");
    assert_eq!(Literal::String("a b".to_string()).to_string(), "a b");
    assert_eq!(Literal::Bool(true).to_string(), "true");
    assert_eq!(Literal::Array(vec![num(1), ident("x")]).to_string(), "[1, x]");
    assert_eq!(Literal::Array(vec![]).to_string(), "[]");
    assert_eq!(
        Literal::Hash(vec![(ident("a"), num(1)), (ident("b"), num(2))]).to_string(),
        "{a: 1b: 2}"
    );
}

#[test]
fn nodes_print() {
    assert_eq!(
        Node::Program(vec![Statement::Expr(num(1)), Statement::Expr(num(2))]).to_string(),
        "12"
    );
    assert_eq!(Node::Statement(Statement::Return(num(1))).to_string(), "return 1;");
    assert_eq!(Node::Expr(ident("q")).to_string(), "q");
}

#[test]
fn clones_are_equal() {
    let e = Expression::If(
        Box::new(Expression::Infix(
            Token::Lt,
            Box::new(ident("a")),
            Box::new(num(3)),
        )),
        vec![Statement::Let(
            "f".to_string(),
            Expression::Fn(vec!["x".to_string()], vec![Statement::Return(ident("x"))]),
        )],
        Some(vec![Statement::Expr(Expression::Call(
            Box::new(ident("f")),
            vec![Expression::Lit(Literal::Array(vec![num(1)]))],
        ))]),
    );
    assert_eq!(e.clone(), e);
    let h = Literal::Hash(vec![(ident("k"), Expression::Lit(Literal::String("v".to_string())))]);
    assert_eq!(h.clone(), h);
    let n = Node::Program(vec![Statement::Expr(e)]);
    assert_eq!(n.clone(), n);
}
