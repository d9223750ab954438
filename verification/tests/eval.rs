use interpreter_rust::ast::{Expression, Literal, Node, Statement};
use interpreter_rust::eval::environment::Environment;
use interpreter_rust::eval::error::EvaluatorError;
use interpreter_rust::eval::{
    apply_function, eval, eval_bang_operator_expression, eval_block_statement,
    eval_boolean_infix_expression, eval_expression, eval_identifier, eval_infix_expression,
    eval_integer_infix_expression, eval_literal, eval_minus_prefix_operator_expression,
    eval_prefix_expression, eval_program, eval_statement, is_marked, is_truthy, unwrap_return,
    MAX_CALL_DEPTH,
};
use interpreter_rust::object::Object;
use interpreter_rust::parser::parse;
use interpreter_rust::token::Token;

fn apply_test(test_case: &[(&str, &str)]) {
    let mut env = Environment::new();

    for (input, expected) in test_case {
        match parse(input) {
            Ok(node) => match eval(node, &mut env, 0) {
                Ok(evaluated) => assert_eq!(expected, &evaluated.to_string()),
                Err(err) => assert_eq!(expected, &err.to_string()),
            },
            Err(err) => panic!("Parser Error: {:?}", err),
        }
    }
}

fn run(input: &str) -> Result<Object, EvaluatorError> {
    let mut env = Environment::new();
    match parse(input) {
        Ok(node) => eval(node, &mut env, 0),
        Err(err) => panic!("Parser Error: {:?}", err),
    }
}

fn message(input: &str) -> String {
    match run(input) {
        Ok(value) => panic!("evaluated to {:?}", value),
        Err(err) => err.to_string(),
    }
}

#[test]
fn test_integer_expression() {
    let test_case = vec![
        ("5", "5"),
        ("10", "10"),
        ("-5", "-5"),
        ("-10", "-10"),
        ("5+5", "10"),
        ("10+20", "30"),
    ];

    apply_test(&test_case);
}

#[test]
fn mod_test_boolean_expression() {
    let test_case = vec![
        ("true", "true"),
        ("false", "false"),
        ("1 < 2", "true"),
        ("1<1", "false"),
    ];

    apply_test(&test_case)
}

#[test]
fn test_if_else_expressions() {
    let test_case = vec![
        ("if (true) { 10 }", "10"),
        ("if (false) { 10 }", "null"),
        ("if (1) { 10 }", "10"),
        ("if (1 < 2) { 10 }", "10"),
        ("if (1 > 2) { 10 }", "null"),
        ("if (1 > 2) { 10 } else { 20 }", "20"),
        ("if (1 < 2) { 10 } else { 20 }", "10"),
    ];

    apply_test(&test_case)
}

#[test]
fn test_bang_operator() {
    let test_case = vec![
        ("!true", "false"),
        ("!false", "true"),
        ("!5", "false"),
        ("!!true", "true"),
        ("!!false", "false"),
        ("!!5", "true"),
    ];

    apply_test(&test_case)
}

#[test]
fn test_return_statements() {
    let test_case = vec![
        ("return 10;", "10"),
        ("return 10; 9;", "10"),
        ("return 2 * 5; 9;", "10"),
        ("9; return 2 * 5; 9;", "10"),
    ];

    apply_test(&test_case)
}

#[test]
fn literal_inputs_and_outputs() {
    assert_eq!(run("5"), Ok(Object::Integer(5)));
    assert_eq!(run("!false"), Ok(Object::Boolean(true)));
    assert_eq!(run("if (1 > 2) { 10 } else { 20 }"), Ok(Object::Integer(20)));
    assert_eq!(run("let x = 5; x + 1;"), Ok(Object::Integer(6)));
    assert_eq!(run("return 2 * 5; 9;"), Ok(Object::Integer(10)));
    assert_eq!(
        run("foobar;"),
        Err(EvaluatorError::new("identifier not found: foobar".to_string()))
    );
    assert_eq!(run(""), Ok(Object::Null));
    assert_eq!(run("\"hello\""), Ok(Object::String("hello".to_string())));
}

#[test]
fn closures_keep_the_scope_where_they_were_made() {
    assert_eq!(
        run("let f = fn(x) { fn(y) { x + y } }; let add5 = f(5); add5(3);"),
        Ok(Object::Integer(8))
    );
    assert_eq!(
        run("let x = 1; let f = fn() { x }; let g = fn(x) { f() }; g(2);"),
        Ok(Object::Integer(1))
    );
    assert_eq!(
        run("let x = 1; let f = fn() { x }; let x = 2; f();"),
        Ok(Object::Integer(2))
    );
}

#[test]
fn a_let_in_a_call_does_not_leak() {
    assert_eq!(
        run("let x = 1; let f = fn() { let x = 2; x }; f() + x;"),
        Ok(Object::Integer(3))
    );
    assert_eq!(
        message("let f = fn(a) { let b = a; b }; f(1); b;"),
        "identifier not found: b"
    );
    assert_eq!(
        message("let f = fn(a) { a }; f(1); a;"),
        "identifier not found: a"
    );
}

#[test]
fn bindings_persist_between_inputs() {
    apply_test(&[
        ("let a = 5;", "null"),
        ("let b = a * 2;", "null"),
        ("a + b", "15"),
        ("let twice = fn(f, x) { f(f(x)) };", "null"),
        ("twice(fn(n) { n * n }, 3)", "81"),
        ("c", "identifier not found: c"),
        ("a", "5"),
    ]);
}

#[test]
fn integer_arithmetic() {
    assert_eq!(run("7 / 2"), Ok(Object::Integer(3)));
    assert_eq!(run("-7 / 2"), Ok(Object::Integer(-3)));
    assert_eq!(run("7 / -2"), Ok(Object::Integer(-3)));
    assert_eq!(run("-7 / -2"), Ok(Object::Integer(3)));
    assert_eq!(run("0 / 5"), Ok(Object::Integer(0)));
    assert_eq!(run("2 * 3 + 4 * 5 - 6 / 3"), Ok(Object::Integer(24)));
    assert_eq!(run("(5 + 10 * 2 + 15 / 3) * 2 + -10"), Ok(Object::Integer(50)));
    assert_eq!(run("1 == 1"), Ok(Object::Boolean(true)));
    assert_eq!(run("1 != 1"), Ok(Object::Boolean(false)));
    assert_eq!(run("2 > 1"), Ok(Object::Boolean(true)));
    assert_eq!(run("true == false"), Ok(Object::Boolean(false)));
    assert_eq!(run("true != false"), Ok(Object::Boolean(true)));
    assert_eq!(run("(1 < 2) == true"), Ok(Object::Boolean(true)));
}

#[test]
fn arithmetic_at_the_limits() {
    assert_eq!(
        eval_integer_infix_expression(&Token::Plus, i64::MAX, 0),
        Ok(Object::Integer(i64::MAX))
    );
    assert_eq!(
        eval_integer_infix_expression(&Token::Minus, i64::MIN, 0),
        Ok(Object::Integer(i64::MIN))
    );
    assert_eq!(
        eval_integer_infix_expression(&Token::Slash, i64::MIN, 1),
        Ok(Object::Integer(i64::MIN))
    );
    assert_eq!(
        eval_integer_infix_expression(&Token::Plus, i64::MAX, 1),
        Err(EvaluatorError::new(
            "integer overflow: 9223372036854775807 + 1".to_string()
        ))
    );
    assert_eq!(
        eval_integer_infix_expression(&Token::Minus, i64::MIN, 1),
        Err(EvaluatorError::new(
            "integer overflow: -9223372036854775808 - 1".to_string()
        ))
    );
    assert_eq!(
        eval_integer_infix_expression(&Token::Asterisk, i64::MAX, 2),
        Err(EvaluatorError::new(
            "integer overflow: 9223372036854775807 * 2".to_string()
        ))
    );
    assert_eq!(
        eval_integer_infix_expression(&Token::Slash, i64::MIN, -1),
        Err(EvaluatorError::new(
            "integer overflow: -9223372036854775808 / -1".to_string()
        ))
    );
    assert_eq!(
        eval_minus_prefix_operator_expression(&Object::Integer(i64::MIN)),
        Err(EvaluatorError::new(
            "integer overflow: --9223372036854775808".to_string()
        ))
    );
    assert_eq!(
        eval_minus_prefix_operator_expression(&Object::Integer(i64::MAX)),
        Ok(Object::Integer(-i64::MAX))
    );
    assert_eq!(message("1 / 0"), "division by zero: 1 / 0");
    assert_eq!(message("9223372036854775807 + 1"), "integer overflow: 9223372036854775807 + 1");
}

#[test]
fn error_messages() {
    assert_eq!(message("foobar"), "identifier not found: foobar");
    assert_eq!(message("-true"), "unknown operator: -true");
    assert_eq!(message("true + false"), "unknown operator: true + false");
    assert_eq!(message("true < false"), "unknown operator: true < false");
    assert_eq!(message("5 + true"), "type mismatch: 5 + true");
    assert_eq!(message("true == 1"), "type mismatch: true == 1");
    assert_eq!(message("\"a\" + \"b\""), "type mismatch: a + b");
    assert_eq!(message("5(1)"), "not a function: 5");
    assert_eq!(message("let f = fn(a) { a }; f()"), "wrong number of arguments: expected 1, got 0");
    assert_eq!(
        message("let f = fn() { 1 }; f(1, 2)"),
        "wrong number of arguments: expected 0, got 2"
    );
}

#[test]
fn the_first_error_ends_the_evaluation() {
    assert_eq!(message("1 + true; foobar; 2"), "type mismatch: 1 + true");
    assert_eq!(message("let a = b; let c = 1;"), "identifier not found: b");
    assert_eq!(message("if (x) { 1 }"), "identifier not found: x");
    assert_eq!(message("(1 + a) * (2 + b)"), "identifier not found: a");
    assert_eq!(message("let f = fn(a) { a }; f(x, y)"), "identifier not found: x");
    assert_eq!(message("g(x)"), "identifier not found: g");
    assert_eq!(message("1(x)"), "not a function: 1");
    assert_eq!(message("-(true + 1)"), "type mismatch: true + 1");
    assert_eq!(message("return x; 1"), "identifier not found: x");
    assert_eq!(message("let f = fn() { 1 + true; 2 }; f()"), "type mismatch: 1 + true");
    let mut env = Environment::new();
    let node = parse("let a = 1; let b = c; let d = 2;").unwrap();
    assert!(eval(node, &mut env, 0).is_err());
    assert_eq!(env.get(0, "a"), Some(Object::Integer(1)));
    assert_eq!(env.get(0, "b"), None);
    assert_eq!(env.get(0, "d"), None);
}

#[test]
fn early_return_through_nested_blocks() {
    assert_eq!(
        run("if (10 > 1) { if (10 > 1) { return 10; } return 1; }"),
        Ok(Object::Integer(10))
    );
    assert_eq!(
        run("let f = fn(x) { if (x > 1) { if (x > 2) { return 3; } return 2; } 1 }; f(3) * 100 + f(2) * 10 + f(1)"),
        Ok(Object::Integer(321))
    );
    assert_eq!(
        run("let f = fn() { return 1; 2 }; f(); 5"),
        Ok(Object::Integer(5))
    );
}

#[test]
fn blocks_and_programs_treat_return_differently() {
    let stmts = vec![
        Statement::Expr(Expression::Lit(Literal::Int(1))),
        Statement::Return(Expression::Lit(Literal::Int(2))),
        Statement::Expr(Expression::Lit(Literal::Int(3))),
    ];
    let mut env = Environment::new();
    assert_eq!(
        eval_block_statement(&stmts, &mut env, 0, 10),
        Ok(Object::ReturnValue(Box::new(Object::Integer(2))))
    );
    assert_eq!(eval_program(stmts, &mut env, 0, 10), Ok(Object::Integer(2)));
    assert_eq!(eval_block_statement(&vec![], &mut env, 0, 10), Ok(Object::Null));
    assert_eq!(eval_program(vec![], &mut env, 0, 10), Ok(Object::Null));
    assert_eq!(
        eval_statement(
            &Statement::Return(Expression::Lit(Literal::Bool(true))),
            &mut env,
            0,
            10
        ),
        Ok(Object::ReturnValue(Box::new(Object::Boolean(true))))
    );
    assert_eq!(
        eval_statement(
            &Statement::Let("k".to_string(), Expression::Lit(Literal::Int(4))),
            &mut env,
            0,
            10
        ),
        Ok(Object::Null)
    );
    assert_eq!(env.get(0, "k"), Some(Object::Integer(4)));
    assert_eq!(
        eval(
            Node::Statement(Statement::Expr(Expression::Identifier("k".to_string()))),
            &mut env,
            0
        ),
        Ok(Object::Integer(4))
    );
    assert_eq!(
        eval(Node::Expr(Expression::Identifier("k".to_string())), &mut env, 0),
        Ok(Object::Integer(4))
    );
}

#[test]
fn truthiness() {
    assert!(!is_truthy(&Object::Null));
    assert!(!is_truthy(&Object::Boolean(false)));
    assert!(is_truthy(&Object::Boolean(true)));
    assert!(is_truthy(&Object::Integer(0)));
    assert!(is_truthy(&Object::String("".to_string())));
    assert_eq!(eval_bang_operator_expression(&Object::Null), Ok(Object::Boolean(true)));
    assert_eq!(eval_bang_operator_expression(&Object::Integer(0)), Ok(Object::Boolean(false)));
    assert_eq!(
        eval_bang_operator_expression(&Object::Boolean(false)),
        Ok(Object::Boolean(true))
    );
    assert_eq!(run("!if (false) { 1 }"), Ok(Object::Boolean(true)));
}

#[test]
fn operators_on_values() {
    assert_eq!(
        eval_prefix_expression(&Token::Minus, &Object::Integer(5)),
        Ok(Object::Integer(-5))
    );
    assert_eq!(
        eval_prefix_expression(&Token::Bang, &Object::Boolean(true)),
        Ok(Object::Boolean(false))
    );
    assert_eq!(
        eval_prefix_expression(&Token::Plus, &Object::Integer(5)),
        Err(EvaluatorError::new("unknown operator: +5".to_string()))
    );
    assert_eq!(
        eval_minus_prefix_operator_expression(&Object::Null),
        Err(EvaluatorError::new("unknown operator: -null".to_string()))
    );
    assert_eq!(
        eval_infix_expression(&Token::Asterisk, &Object::Integer(6), &Object::Integer(7)),
        Ok(Object::Integer(42))
    );
    assert_eq!(
        eval_infix_expression(&Token::Eq, &Object::Boolean(true), &Object::Boolean(true)),
        Ok(Object::Boolean(true))
    );
    assert_eq!(
        eval_infix_expression(&Token::Eq, &Object::Null, &Object::Null),
        Err(EvaluatorError::new("type mismatch: null == null".to_string()))
    );
    assert_eq!(
        eval_boolean_infix_expression(&Token::NotEq, true, true),
        Ok(Object::Boolean(false))
    );
    assert_eq!(
        eval_boolean_infix_expression(&Token::Gt, true, false),
        Err(EvaluatorError::new("unknown operator: true > false".to_string()))
    );
    assert_eq!(
        eval_integer_infix_expression(&Token::Comma, 1, 2),
        Err(EvaluatorError::new("unknown operator: 1 , 2".to_string()))
    );
    assert_eq!(
        eval_integer_infix_expression(&Token::Lt, -1, 2),
        Ok(Object::Boolean(true))
    );
}

#[test]
fn what_the_parser_never_builds() {
    assert_eq!(eval_literal(&Literal::Int(3)), Ok(Object::Integer(3)));
    assert_eq!(eval_literal(&Literal::Bool(false)), Ok(Object::Boolean(false)));
    assert_eq!(
        eval_literal(&Literal::Array(vec![Expression::Lit(Literal::Int(1))])),
        Err(EvaluatorError::new("unsupported literal: [1]".to_string()))
    );
    assert_eq!(
        eval_literal(&Literal::Hash(vec![])),
        Err(EvaluatorError::new("unsupported literal: {}".to_string()))
    );
    let mut env = Environment::new();
    assert_eq!(
        eval_expression(
            &Expression::Postfix(Token::Bang, Box::new(Expression::Lit(Literal::Int(1)))),
            &mut env,
            0,
            5
        ),
        Err(EvaluatorError::new("unknown operator: 1!".to_string()))
    );
}

#[test]
fn calls_nest_up_to_the_limit() {
    assert_eq!(message("let f = fn(n) { f(n + 1) }; f(0)"), "call depth exceeded");
    assert_eq!(
        run("let f = fn(n) { if (n == 0) { 0 } else { 1 + f(n - 1) } }; f(150)"),
        Ok(Object::Integer(150))
    );
    let mut env = Environment::new();
    let call = Expression::Call(
        Box::new(Expression::Fn(vec![], vec![Statement::Expr(Expression::Lit(Literal::Int(1)))])),
        vec![],
    );
    assert_eq!(
        eval_expression(&call, &mut env, 0, 0),
        Err(EvaluatorError::new("call depth exceeded".to_string()))
    );
    assert_eq!(eval_expression(&call, &mut env, 0, 1), Ok(Object::Integer(1)));
    assert_eq!(MAX_CALL_DEPTH, 200);
}

#[test]
fn applying_values() {
    let mut env = Environment::new();
    let identity = Object::Function(
        vec!["x".to_string()],
        vec![Statement::Return(Expression::Identifier("x".to_string()))],
        0,
    );
    assert_eq!(
        apply_function(&identity, vec![Object::Integer(9)], &mut env, 3),
        Ok(Object::Integer(9))
    );
    assert_eq!(env.len(), 2);
    assert_eq!(env.get(1, "x"), Some(Object::Integer(9)));
    assert_eq!(env.get(0, "x"), None);
    assert_eq!(
        apply_function(&identity, vec![], &mut env, 3),
        Err(EvaluatorError::new(
            "wrong number of arguments: expected 1, got 0".to_string()
        ))
    );
    assert_eq!(
        apply_function(&Object::Null, vec![], &mut env, 3),
        Err(EvaluatorError::new("not a function: null".to_string()))
    );
    let stray = Object::Function(vec![], vec![], 7);
    assert_eq!(
        apply_function(&stray, vec![], &mut env, 3),
        Err(EvaluatorError::new(
            "function of an unknown scope: fn() {...}".to_string()
        ))
    );
    assert_eq!(env.len(), 2);
}

#[test]
fn environment_scopes() {
    assert_eq!(Environment::default().len(), 1);
    let mut env = Environment::new();
    assert_eq!(env.len(), 1);
    assert_eq!(env.get(0, "a"), None);
    env.set(0, "a", Object::Integer(1));
    env.set(0, "b", Object::Integer(2));
    let inner = env.new_enclosed(0);
    assert_eq!(inner, 1);
    assert_eq!(env.get(inner, "a"), Some(Object::Integer(1)));
    env.set(inner, "a", Object::Integer(10));
    assert_eq!(env.get(inner, "a"), Some(Object::Integer(10)));
    assert_eq!(env.get(0, "a"), Some(Object::Integer(1)));
    assert_eq!(env.get(inner, "b"), Some(Object::Integer(2)));
    env.set(inner, "c", Object::Boolean(true));
    assert_eq!(env.get(0, "c"), None);
    let innermost = env.new_enclosed(inner);
    let sibling = env.new_enclosed(0);
    assert_eq!(env.get(innermost, "c"), Some(Object::Boolean(true)));
    assert_eq!(env.get(innermost, "a"), Some(Object::Integer(10)));
    assert_eq!(env.get(sibling, "c"), None);
    assert_eq!(env.get(sibling, "a"), Some(Object::Integer(1)));
    env.set(0, "a", Object::Integer(100));
    assert_eq!(env.get(sibling, "a"), Some(Object::Integer(100)));
    assert_eq!(env.get(innermost, "a"), Some(Object::Integer(10)));
    assert_eq!(
        eval_identifier("zzz", &env, innermost),
        Err(EvaluatorError::new("identifier not found: zzz".to_string()))
    );
    assert_eq!(eval_identifier("b", &env, innermost), Ok(Object::Integer(2)));
}

#[test]
fn objects_print() {
    assert_eq!(Object::Integer(-3).to_string(), "-3");
    assert_eq!(Object::Boolean(true).to_string(), "true");
    assert_eq!(Object::String("s".to_string()).to_string(), "s");
    assert_eq!(Object::Null.to_string(), "null");
    assert_eq!(
        Object::ReturnValue(Box::new(Object::Integer(4))).to_string(),
        "4"
    );
    assert_eq!(Object::Error("bad".to_string()).to_string(), "Error: bad");
    assert_eq!(
        Object::Function(vec!["a".to_string(), "b".to_string()], vec![], 0).to_string(),
        "fn(a, b) {...}"
    );
    assert_eq!(run("fn(x, y) { x }").unwrap().to_string(), "fn(x, y) {...}");
    let f = Object::Function(
        vec!["a".to_string()],
        vec![Statement::Expr(Expression::Identifier("a".to_string()))],
        3,
    );
    assert_eq!(f.clone(), f);
    assert_eq!(EvaluatorError::new("m".to_string()).to_string(), "m");
}

#[test]
fn a_higher_limit_changes_nothing_below_it() {
    let text = "let f = fn(n) { if (n == 0) { 0 } else { 1 + f(n - 1) } }; f(5)";
    let mut results = vec![];
    for depth in [5, 6, 7, 50, 1000] {
        let mut env = Environment::new();
        let program = match parse(text) {
            Ok(Node::Program(p)) => p,
            other => panic!("parsed: {:?}", other),
        };
        results.push(eval_program(program, &mut env, 0, depth));
    }
    assert_eq!(
        results[0],
        Err(EvaluatorError::new("call depth exceeded".to_string()))
    );
    for result in &results[1..] {
        assert_eq!(*result, Ok(Object::Integer(5)));
    }
}

#[test]
fn a_return_inside_a_return_is_one_return() {
    assert_eq!(run("return if (true) { return 1; };"), Ok(Object::Integer(1)));
    assert_eq!(
        run("fn() { return if (true) { return 1; }; }(); 99;"),
        Ok(Object::Integer(99))
    );
    let mut env = Environment::new();
    assert_eq!(
        eval_statement(
            &Statement::Return(Expression::If(
                Box::new(Expression::Lit(Literal::Bool(true))),
                vec![Statement::Return(Expression::Lit(Literal::Int(1)))],
                None,
            )),
            &mut env,
            0,
            10
        ),
        Ok(Object::ReturnValue(Box::new(Object::Integer(1))))
    );
}

#[test]
fn a_marked_value_ends_what_meets_it() {
    assert_eq!(run("1 + if (true) { return 2; }; 5"), Ok(Object::Integer(2)));
    assert_eq!(run("if (true) { return 2; } + x; 5"), Ok(Object::Integer(2)));
    assert_eq!(run("!if (true) { return 4; }; 5"), Ok(Object::Integer(4)));
    assert_eq!(run("-if (true) { return true; }; 5"), Ok(Object::Boolean(true)));
    assert_eq!(
        run("if (if (true) { return 5; }) { 1 } else { 2 }; 9"),
        Ok(Object::Integer(5))
    );
    assert_eq!(
        run("let f = fn(a, b) { a }; f(1, if (true) { return 6; }, x); 9"),
        Ok(Object::Integer(6))
    );
    assert_eq!(run("if (true) { return 7; }(x); 9"), Ok(Object::Integer(7)));
    assert_eq!(
        run("let g = fn() { 1 + if (true) { return 8; }; 9 }; g() + 1"),
        Ok(Object::Integer(9))
    );
    assert_eq!(
        run("let g = fn(c) { let y = if (c) { return 1; }; 2 }; g(true) * 10 + g(false)"),
        Ok(Object::Integer(12))
    );
    let mut env = Environment::new();
    let node = parse("let x = if (true) { return 3; }; 4").unwrap();
    assert_eq!(eval(node, &mut env, 0), Ok(Object::Integer(3)));
    assert_eq!(env.get(0, "x"), None);
    let mut env = Environment::new();
    assert_eq!(
        eval_expression(
            &Expression::Postfix(
                Token::Bang,
                Box::new(Expression::If(
                    Box::new(Expression::Lit(Literal::Bool(true))),
                    vec![Statement::Return(Expression::Lit(Literal::Int(1)))],
                    None,
                )),
            ),
            &mut env,
            0,
            5
        ),
        Ok(Object::ReturnValue(Box::new(Object::Integer(1))))
    );
}

#[test]
fn marks_come_off_at_a_call_and_at_the_end_of_a_program() {
    let twice = Object::ReturnValue(Box::new(Object::ReturnValue(Box::new(Object::Integer(1)))));
    assert!(is_marked(&twice));
    assert!(!is_marked(&Object::Integer(1)));
    assert!(!is_marked(&Object::Null));
    assert_eq!(unwrap_return(twice.clone()), Object::Integer(1));
    assert_eq!(unwrap_return(Object::Boolean(true)), Object::Boolean(true));
    let mut env = Environment::new();
    env.set(0, "x", twice);
    let node = parse("x; 5").unwrap();
    assert_eq!(eval(node, &mut env, 0), Ok(Object::Integer(1)));
    let node = parse("fn() { x; 5 }() + 1").unwrap();
    assert_eq!(eval(node, &mut env, 0), Ok(Object::Integer(2)));
}
