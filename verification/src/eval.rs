//! The evaluator: walks the syntax tree and reduces it to a value in an
//! environment, or stops at the first error.

use crate::ast::{
    expressions_view, names_view, statements_view, Expression, Literal, Node, Statement,
};
use crate::eval::environment::{enclose, lookup, Environment, ScopeView};
use crate::eval::error::EvaluatorError;
use crate::eval::semantics::{
    apply_spec, bang, bind_all, boolean_infix, division_by_zero, eval_arguments_spec,
    eval_block_spec, eval_expression_spec, eval_program_spec, eval_spec, eval_statement_spec,
    identifier_not_found, infix_value, integer_infix, integer_overflow, literal_value, minus,
    not_a_function, operation_text, prefix_value, truthy, type_mismatch, unknown_operator,
    unknown_postfix_operator, unknown_prefix_operator, unknown_scope, unwrapped,
    wrong_number_of_arguments, ArgumentsView, Evaluated, EvaluatedList,
};
use crate::object::{Object, ObjectView};
use crate::text::push_nat;
use crate::token::Token;
use vstd::prelude::*;
use vstd::string::StringExecFns;

pub mod depth;
pub mod environment;
pub mod error;
pub mod marks;
pub mod semantics;

verus! {

/// What evaluation gives: a value, or the error that ended it.
pub type EvaluatorResult = Result<Object, EvaluatorError>;

/// How many calls [`eval`] lets a program nest.
pub const MAX_CALL_DEPTH: usize = 200;

/// The mathematical value of a result.
pub open spec fn result_view(r: EvaluatorResult) -> Result<ObjectView, Seq<char>> {
    match r {
        Ok(o) => Ok(o@),
        Err(e) => Err(e@),
    }
}

/// A result and the scopes that it leaves, as one value.
pub open spec fn evaluated(r: EvaluatorResult, env: Seq<ScopeView>) -> Evaluated {
    Evaluated { value: result_view(r), env }
}

/// The values of a list of objects.
pub open spec fn objects_view(v: Vec<Object>) -> Seq<ObjectView> {
    Seq::new(v.len() as nat, |i: int| v[i]@)
}

/// What evaluating the arguments of a call gives, unless it fails: their
/// values, or the first value that carries the mark of a `return`.
pub enum Arguments {
    Values(Vec<Object>),
    Returned(Object),
}

/// What evaluating the arguments of a call gives and the scopes that it
/// leaves, as one value.
pub open spec fn evaluated_list(
    r: Result<Arguments, EvaluatorError>,
    env: Seq<ScopeView>,
) -> EvaluatedList {
    EvaluatedList {
        outcome: match r {
            Ok(Arguments::Values(v)) => ArgumentsView::Values(objects_view(v)),
            Ok(Arguments::Returned(o)) => ArgumentsView::Returned(o@),
            Err(e) => ArgumentsView::Failed(e@),
        },
        env,
    }
}

/// `after` is an environment that evaluation reaches from `before`:
/// consistent, and with every scope of `before` still there.
pub open spec fn grown(after: Environment, before: Environment) -> bool {
    &&& after.wf()
    &&& after@.len() >= before@.len()
}

/// Whether a condition with this value holds.
pub fn is_truthy(obj: &Object) -> (r: bool)
    ensures
        r == truthy(obj@),
{
    match obj {
        Object::Null => false,
        Object::Boolean(b) => *b,
        _ => true,
    }
}

/// Whether the value carries the mark of a `return`.
pub fn is_marked(obj: &Object) -> (r: bool)
    ensures
        r == (obj@ is ReturnValue),
{
    match obj {
        Object::ReturnValue(_) => true,
        _ => false,
    }
}

/// Evaluates a node in the scope `scope` of `env`, with at most
/// [`MAX_CALL_DEPTH`] calls nested.
pub fn eval(node: Node, env: &mut Environment, scope: usize) -> (r: EvaluatorResult)
    requires
        old(env).wf(),
        scope < old(env)@.len(),
    ensures
        grown(*final(env), *old(env)),
        evaluated(r, final(env)@) == eval_spec(
            node@,
            old(env)@,
            scope as nat,
            MAX_CALL_DEPTH as nat,
        ),
        node is Program && r is Ok ==> !(r->Ok_0@ is ReturnValue),
{
    match node {
        Node::Expr(expr) => eval_expression(&expr, env, scope, MAX_CALL_DEPTH),
        Node::Statement(statement) => eval_statement(&statement, env, scope, MAX_CALL_DEPTH),
        Node::Program(program) => eval_program(program, env, scope, MAX_CALL_DEPTH),
    }
}

/// Evaluates an expression in the scope `scope` of `env`, with at most
/// `depth` calls nested. Where a part of the expression gives a value that
/// carries the mark of a `return`, that value is the expression's.
pub fn eval_expression(expr: &Expression, env: &mut Environment, scope: usize, depth: usize) -> (r:
    EvaluatorResult)
    requires
        old(env).wf(),
        scope < old(env)@.len(),
    ensures
        grown(*final(env), *old(env)),
        evaluated(r, final(env)@) == eval_expression_spec(
            expr@,
            old(env)@,
            scope as nat,
            depth as nat,
        ),
    decreases depth, 1int, expr,
{
    match expr {
        Expression::Identifier(id) => eval_identifier(id.as_str(), env, scope),
        Expression::Lit(l) => eval_literal(l),
        Expression::Prefix(op, operand) => {
            let right = eval_expression(operand, env, scope, depth)?;
            if is_marked(&right) {
                return Ok(right);
            }
            eval_prefix_expression(op, &right)
        },
        Expression::Infix(op, left, right) => {
            let left = eval_expression(left, env, scope, depth)?;
            if is_marked(&left) {
                return Ok(left);
            }
            let right = eval_expression(right, env, scope, depth)?;
            if is_marked(&right) {
                return Ok(right);
            }
            eval_infix_expression(op, &left, &right)
        },
        Expression::Postfix(op, operand) => {
            let left = eval_expression(operand, env, scope, depth)?;
            if is_marked(&left) {
                return Ok(left);
            }
            Err(unknown_postfix_error(op, &left))
        },
        Expression::If(condition, consequence, alternative) => {
            let condition = eval_expression(condition, env, scope, depth)?;
            if is_marked(&condition) {
                return Ok(condition);
            }
            if is_truthy(&condition) {
                eval_block_statement(consequence, env, scope, depth)
            } else {
                match alternative {
                    Some(alt) => eval_block_statement(alt, env, scope, depth),
                    None => Ok(Object::Null),
                }
            }
        },
        Expression::Fn(params, body) => {
            let function = Object::Function(
                crate::ast::clone_names(params),
                crate::ast::clone_statements(body),
                scope,
            );
            assert(function@ == ObjectView::Function(
                names_view(*params),
                statements_view(*body),
                scope as nat,
            ));
            Ok(function)
        },
        Expression::Call(function, arguments) => {
            let callee = eval_expression(function, env, scope, depth)?;
            if is_marked(&callee) {
                return Ok(callee);
            }
            match &callee {
                Object::Function(_, _, _) => {},
                _ => {
                    return Err(not_a_function_error(&callee));
                },
            }
            match eval_arguments(arguments, env, scope, depth)? {
                Arguments::Returned(value) => Ok(value),
                Arguments::Values(values) => apply_function(&callee, values, env, depth),
            }
        },
    }
}

/// Evaluates the arguments of a call from left to right, up to the first
/// that carries the mark of a `return`.
pub fn eval_arguments(args: &Vec<Expression>, env: &mut Environment, scope: usize, depth: usize) -> (r:
    Result<Arguments, EvaluatorError>)
    requires
        old(env).wf(),
        scope < old(env)@.len(),
    ensures
        grown(*final(env), *old(env)),
        evaluated_list(r, final(env)@) == eval_arguments_spec(
            expressions_view(*args),
            old(env)@,
            scope as nat,
            depth as nat,
            Seq::empty(),
        ),
    decreases depth, 1int, args,
{
    let mut values: Vec<Object> = Vec::new();
    let ghost all = expressions_view(*args);
    let mut i: usize = 0;
    assert(objects_view(values) =~= Seq::empty());
    assert(all.subrange(0, all.len() as int) =~= all);
    while i < args.len()
        invariant
            i <= args.len(),
            all == expressions_view(*args),
            grown(*env, *old(env)),
            scope < old(env)@.len(),
            eval_arguments_spec(
                all.subrange(i as int, all.len() as int),
                env@,
                scope as nat,
                depth as nat,
                objects_view(values),
            ) == eval_arguments_spec(all, old(env)@, scope as nat, depth as nat, Seq::empty()),
        decreases args.len() - i,
    {
        let ghost rest = all.subrange(i as int, all.len() as int);
        assert(rest[0] == args[i as int]@);
        assert(rest.drop_first() =~= all.subrange(i + 1, all.len() as int));
        let value = eval_expression(&args[i], env, scope, depth)?;
        if is_marked(&value) {
            return Ok(Arguments::Returned(value));
        }
        let ghost added = objects_view(values).push(value@);
        values.push(value);
        assert(objects_view(values) =~= added);
        i = i + 1;
    }
    Ok(Arguments::Values(values))
}

/// Calls the function `callee` with the values `values`. The value of the
/// call carries no mark of a `return`.
pub fn apply_function(callee: &Object, values: Vec<Object>, env: &mut Environment, depth: usize) -> (r:
    EvaluatorResult)
    requires
        old(env).wf(),
    ensures
        grown(*final(env), *old(env)),
        evaluated(r, final(env)@) == apply_spec(
            callee@,
            objects_view(values),
            old(env)@,
            depth as nat,
        ),
        r is Ok ==> !(r->Ok_0@ is ReturnValue),
    decreases depth, 0int, callee,
{
    match callee {
        Object::Function(params, body, captured) => {
            assert(callee@ == ObjectView::Function(
                names_view(*params),
                statements_view(*body),
                *captured as nat,
            ));
            if params.len() != values.len() {
                return Err(wrong_number_of_arguments_error(params.len(), values.len()));
            }
            if *captured >= env.len() {
                return Err(unknown_scope_error(callee));
            }
            if depth == 0 {
                return Err(EvaluatorError::new(String::from_str("call depth exceeded")));
            }
            let frame = env.new_enclosed(*captured);
            let ghost names = names_view(*params);
            let ghost vals = objects_view(values);
            let mut i: usize = 0;
            assert(names.subrange(0, names.len() as int) =~= names);
            assert(vals.subrange(0, vals.len() as int) =~= vals);
            while i < params.len()
                invariant
                    i <= params.len(),
                    params.len() == values.len(),
                    names == names_view(*params),
                    vals == objects_view(values),
                    env.wf(),
                    env@.len() == old(env)@.len() + 1,
                    frame == old(env)@.len(),
                    bind_all(
                        env@,
                        frame as nat,
                        names.subrange(i as int, names.len() as int),
                        vals.subrange(i as int, vals.len() as int),
                    ) == bind_all(
                        enclose(old(env)@, *captured as nat),
                        frame as nat,
                        names,
                        vals,
                    ),
                decreases params.len() - i,
            {
                let ghost names_left = names.subrange(i as int, names.len() as int);
                let ghost vals_left = vals.subrange(i as int, vals.len() as int);
                assert(names_left.drop_first() =~= names.subrange(i + 1, names.len() as int));
                assert(vals_left.drop_first() =~= vals.subrange(i + 1, vals.len() as int));
                assert(names_left[0] == params[i as int]@);
                assert(vals_left[0] == values[i as int]@);
                env.set(frame, params[i].as_str(), values[i].clone());
                i = i + 1;
            }
            let result = eval_block_statement(body, env, frame, depth - 1)?;
            Ok(unwrap_return(result))
        },
        _ => Err(not_a_function_error(callee)),
    }
}

/// The value without the marks of a `return` around it.
pub fn unwrap_return(o: Object) -> (r: Object)
    ensures
        r@ == unwrapped(o@),
        !(r@ is ReturnValue),
    decreases o,
{
    match o {
        Object::ReturnValue(inner) => unwrap_return(*inner),
        other => other,
    }
}

/// Evaluates the statements of a block in order, up to the first that
/// gives the value of a `return`: that value comes back with its mark.
pub fn eval_block_statement(
    statements: &Vec<Statement>,
    env: &mut Environment,
    scope: usize,
    depth: usize,
) -> (r: EvaluatorResult)
    requires
        old(env).wf(),
        scope < old(env)@.len(),
    ensures
        grown(*final(env), *old(env)),
        evaluated(r, final(env)@) == eval_block_spec(
            statements_view(*statements),
            old(env)@,
            scope as nat,
            depth as nat,
            ObjectView::Null,
        ),
    decreases depth, 1int, statements,
{
    let mut result = Object::Null;
    let ghost all = statements_view(*statements);
    let mut i: usize = 0;
    assert(all.subrange(0, all.len() as int) =~= all);
    while i < statements.len()
        invariant
            i <= statements.len(),
            all == statements_view(*statements),
            grown(*env, *old(env)),
            scope < old(env)@.len(),
            eval_block_spec(
                all.subrange(i as int, all.len() as int),
                env@,
                scope as nat,
                depth as nat,
                result@,
            ) == eval_block_spec(all, old(env)@, scope as nat, depth as nat, ObjectView::Null),
        decreases statements.len() - i,
    {
        let ghost rest = all.subrange(i as int, all.len() as int);
        assert(rest[0] == statements[i as int]@);
        assert(rest.drop_first() =~= all.subrange(i + 1, all.len() as int));
        let val = eval_statement(&statements[i], env, scope, depth)?;
        match &val {
            Object::ReturnValue(_) => {
                return Ok(val);
            },
            _ => {},
        }
        result = val;
        i = i + 1;
    }
    Ok(result)
}

/// Appends the two operands with the operator between them to `out`.
fn push_operation(out: &mut String, left: &Object, op: &Token, right: &Object)
    ensures
        final(out)@ == old(out)@ + operation_text(left@, op@, right@),
{
    left.write_to(out);
    out.append(" ");
    op.write_to(out);
    out.append(" ");
    right.write_to(out);
    assert(out@ =~= old(out)@ + operation_text(left@, op@, right@));
}

fn type_mismatch_error(left: &Object, op: &Token, right: &Object) -> (e: EvaluatorError)
    ensures
        e@ == type_mismatch(left@, op@, right@),
{
    let mut out = String::from_str("type mismatch: ");
    push_operation(&mut out, left, op, right);
    EvaluatorError::new(out)
}

fn unknown_operator_error(left: &Object, op: &Token, right: &Object) -> (e: EvaluatorError)
    ensures
        e@ == unknown_operator(left@, op@, right@),
{
    let mut out = String::from_str("unknown operator: ");
    push_operation(&mut out, left, op, right);
    EvaluatorError::new(out)
}

fn integer_overflow_error(left: &Object, op: &Token, right: &Object) -> (e: EvaluatorError)
    ensures
        e@ == integer_overflow(left@, op@, right@),
{
    let mut out = String::from_str("integer overflow: ");
    push_operation(&mut out, left, op, right);
    EvaluatorError::new(out)
}

fn division_by_zero_error(left: &Object, op: &Token, right: &Object) -> (e: EvaluatorError)
    ensures
        e@ == division_by_zero(left@, op@, right@),
{
    let mut out = String::from_str("division by zero: ");
    push_operation(&mut out, left, op, right);
    EvaluatorError::new(out)
}

fn unknown_prefix_error(op: &Token, operand: &Object) -> (e: EvaluatorError)
    ensures
        e@ == unknown_prefix_operator(op@, operand@),
{
    let mut out = String::from_str("unknown operator: ");
    op.write_to(&mut out);
    operand.write_to(&mut out);
    assert(out@ =~= unknown_prefix_operator(op@, operand@));
    EvaluatorError::new(out)
}

fn unknown_postfix_error(op: &Token, operand: &Object) -> (e: EvaluatorError)
    ensures
        e@ == unknown_postfix_operator(op@, operand@),
{
    let mut out = String::from_str("unknown operator: ");
    operand.write_to(&mut out);
    op.write_to(&mut out);
    assert(out@ =~= unknown_postfix_operator(op@, operand@));
    EvaluatorError::new(out)
}

fn not_a_function_error(callee: &Object) -> (e: EvaluatorError)
    ensures
        e@ == not_a_function(callee@),
{
    let mut out = String::from_str("not a function: ");
    callee.write_to(&mut out);
    EvaluatorError::new(out)
}

fn unknown_scope_error(callee: &Object) -> (e: EvaluatorError)
    ensures
        e@ == unknown_scope(callee@),
{
    let mut out = String::from_str("function of an unknown scope: ");
    callee.write_to(&mut out);
    EvaluatorError::new(out)
}

fn wrong_number_of_arguments_error(expected: usize, got: usize) -> (e: EvaluatorError)
    ensures
        e@ == wrong_number_of_arguments(expected as nat, got as nat),
{
    let mut out = String::from_str("wrong number of arguments: expected ");
    push_nat(&mut out, expected as u64);
    out.append(", got ");
    push_nat(&mut out, got as u64);
    assert(out@ =~= wrong_number_of_arguments(expected as nat, got as nat));
    EvaluatorError::new(out)
}

/// Applies a binary operator to two values.
pub fn eval_infix_expression(op: &Token, left: &Object, right: &Object) -> (r: EvaluatorResult)
    ensures
        result_view(r) == infix_value(op@, left@, right@),
{
    match left {
        Object::Integer(l) => match right {
            Object::Integer(r) => eval_integer_infix_expression(op, *l, *r),
            _ => Err(type_mismatch_error(left, op, right)),
        },
        Object::Boolean(l) => match right {
            Object::Boolean(r) => eval_boolean_infix_expression(op, *l, *r),
            _ => Err(type_mismatch_error(left, op, right)),
        },
        _ => Err(type_mismatch_error(left, op, right)),
    }
}

/// Applies a binary operator to two truth values.
pub fn eval_boolean_infix_expression(op: &Token, l: bool, r: bool) -> (res: EvaluatorResult)
    ensures
        result_view(res) == boolean_infix(op@, l, r),
{
    match op {
        Token::Eq => Ok(Object::Boolean(l == r)),
        Token::NotEq => Ok(Object::Boolean(l != r)),
        _ => Err(unknown_operator_error(&Object::Boolean(l), op, &Object::Boolean(r))),
    }
}

/// An integer value, or the overflow error of the operation where the
/// number was beyond `i64`.
fn integer_or_error(value: Option<i64>, l: i64, op: &Token, r: i64) -> (res: EvaluatorResult)
    ensures
        result_view(res) == match value {
            Some(v) => Ok(ObjectView::Integer(v)),
            None => Err(integer_overflow(ObjectView::Integer(l), op@, ObjectView::Integer(r))),
        },
{
    match value {
        Some(v) => Ok(Object::Integer(v)),
        None => Err(integer_overflow_error(&Object::Integer(l), op, &Object::Integer(r))),
    }
}

/// Applies a binary operator to two integers. A result beyond `i64` and a
/// division by zero are errors.
pub fn eval_integer_infix_expression(op: &Token, l: i64, r: i64) -> (res: EvaluatorResult)
    ensures
        result_view(res) == integer_infix(op@, l, r),
{
    match op {
        Token::Plus => integer_or_error(l.checked_add(r), l, op, r),
        Token::Minus => integer_or_error(l.checked_sub(r), l, op, r),
        Token::Asterisk => integer_or_error(l.checked_mul(r), l, op, r),
        Token::Slash => {
            if r == 0 {
                Err(division_by_zero_error(&Object::Integer(l), op, &Object::Integer(r)))
            } else {
                integer_or_error(l.checked_div(r), l, op, r)
            }
        },
        Token::Lt => Ok(Object::Boolean(l < r)),
        Token::Gt => Ok(Object::Boolean(l > r)),
        Token::Eq => Ok(Object::Boolean(l == r)),
        Token::NotEq => Ok(Object::Boolean(l != r)),
        _ => Err(unknown_operator_error(&Object::Integer(l), op, &Object::Integer(r))),
    }
}

/// Applies a prefix operator to a value.
pub fn eval_prefix_expression(op: &Token, expr: &Object) -> (r: EvaluatorResult)
    ensures
        result_view(r) == prefix_value(op@, expr@),
{
    match op {
        Token::Bang => eval_bang_operator_expression(expr),
        Token::Minus => eval_minus_prefix_operator_expression(expr),
        _ => Err(unknown_prefix_error(op, expr)),
    }
}

/// Negates an integer.
pub fn eval_minus_prefix_operator_expression(expr: &Object) -> (r: EvaluatorResult)
    ensures
        result_view(r) == minus(expr@),
{
    match expr {
        Object::Integer(i) => match 0i64.checked_sub(*i) {
            Some(v) => Ok(Object::Integer(v)),
            None => {
                let mut out = String::from_str("integer overflow: -");
                expr.write_to(&mut out);
                Err(EvaluatorError::new(out))
            },
        },
        _ => Err(unknown_prefix_error(&Token::Minus, expr)),
    }
}

/// The opposite of a value as a condition.
pub fn eval_bang_operator_expression(expr: &Object) -> (r: EvaluatorResult)
    ensures
        result_view(r) == Ok::<ObjectView, Seq<char>>(bang(expr@)),
{
    match expr {
        Object::Boolean(b) => Ok(Object::Boolean(!*b)),
        Object::Null => Ok(Object::Boolean(true)),
        _ => Ok(Object::Boolean(false)),
    }
}

/// The value of a literal.
pub fn eval_literal(lit: &Literal) -> (r: EvaluatorResult)
    ensures
        result_view(r) == literal_value(lit@),
{
    match lit {
        Literal::Int(i) => Ok(Object::Integer(*i)),
        Literal::String(s) => Ok(Object::String(s.clone())),
        Literal::Bool(b) => Ok(Object::Boolean(*b)),
        _ => {
            let mut out = String::from_str("unsupported literal: ");
            lit.write_to(&mut out);
            Err(EvaluatorError::new(out))
        },
    }
}

/// The value that a name is bound to as seen from `scope`.
pub fn eval_identifier(id: &str, env: &Environment, scope: usize) -> (r: EvaluatorResult)
    requires
        env.wf(),
        scope < env@.len(),
    ensures
        result_view(r) == match lookup(env@, scope as nat, id@) {
            Some(v) => Ok(v),
            None => Err(identifier_not_found(id@)),
        },
{
    match env.get(scope, id) {
        Some(obj) => Ok(obj),
        None => {
            let mut out = String::from_str("identifier not found: ");
            out.append(id);
            Err(EvaluatorError::new(out))
        },
    }
}

/// Evaluates a statement in the scope `scope` of `env`: a `let` binds in
/// that scope, a `return` marks its value. A value that is marked already
/// is neither bound nor marked again: it is the statement's value.
pub fn eval_statement(statement: &Statement, env: &mut Environment, scope: usize, depth: usize) -> (r:
    EvaluatorResult)
    requires
        old(env).wf(),
        scope < old(env)@.len(),
    ensures
        grown(*final(env), *old(env)),
        evaluated(r, final(env)@) == eval_statement_spec(
            statement@,
            old(env)@,
            scope as nat,
            depth as nat,
        ),
    decreases depth, 1int, statement,
{
    match statement {
        Statement::Let(name, expr) => {
            let val = eval_expression(expr, env, scope, depth)?;
            if is_marked(&val) {
                return Ok(val);
            }
            env.set(scope, name.as_str(), val);
            Ok(Object::Null)
        },
        Statement::Return(expr) => {
            let val = eval_expression(expr, env, scope, depth)?;
            if is_marked(&val) {
                return Ok(val);
            }
            Ok(Object::ReturnValue(Box::new(val)))
        },
        Statement::Expr(expr) => eval_expression(expr, env, scope, depth),
    }
}

/// Evaluates the statements of a program in order, up to the first
/// `return`, whose value comes back without its mark: the value of a
/// program never carries one.
pub fn eval_program(program: Vec<Statement>, env: &mut Environment, scope: usize, depth: usize) -> (r:
    EvaluatorResult)
    requires
        old(env).wf(),
        scope < old(env)@.len(),
    ensures
        grown(*final(env), *old(env)),
        evaluated(r, final(env)@) == eval_program_spec(
            statements_view(program),
            old(env)@,
            scope as nat,
            depth as nat,
            ObjectView::Null,
        ),
        r is Ok ==> !(r->Ok_0@ is ReturnValue),
{
    let mut result = Object::Null;
    let ghost all = statements_view(program);
    let mut i: usize = 0;
    assert(all.subrange(0, all.len() as int) =~= all);
    while i < program.len()
        invariant
            i <= program.len(),
            all == statements_view(program),
            grown(*env, *old(env)),
            scope < old(env)@.len(),
            !(result@ is ReturnValue),
            eval_program_spec(
                all.subrange(i as int, all.len() as int),
                env@,
                scope as nat,
                depth as nat,
                result@,
            ) == eval_program_spec(all, old(env)@, scope as nat, depth as nat, ObjectView::Null),
        decreases program.len() - i,
    {
        let ghost rest = all.subrange(i as int, all.len() as int);
        assert(rest[0] == program[i as int]@);
        assert(rest.drop_first() =~= all.subrange(i + 1, all.len() as int));
        let val = eval_statement(&program[i], env, scope, depth)?;
        match &val {
            Object::ReturnValue(_) => {
                return Ok(unwrap_return(val));
            },
            _ => {},
        }
        result = val;
        i = i + 1;
    }
    Ok(result)
}

} // verus!
