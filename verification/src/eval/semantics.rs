//! What evaluation means: the value of every syntax tree, as functions on
//! mathematical values.
//!
//! Every function takes the scopes as they are and gives them back as
//! evaluation leaves them, with the value or the error. `depth` is the
//! number of calls that may still be nested.
//!
//! A `return` marks its value. The mark ends every construct that meets
//! it: an operator, a condition, a call and a `let` give a marked value on
//! as it is, and so do the blocks around them. A call and a program take
//! the mark off.

use crate::ast::{ExpressionView, LiteralView, NodeView, StatementView};
use crate::eval::environment::{bind, enclose, lookup, ScopeView};
use crate::object::ObjectView;
use crate::text::nat_text;
use crate::token::TokenView;
use vstd::prelude::*;

verus! {

/// What evaluating one tree gives: a value or the message of an error, and
/// the scopes afterwards.
pub struct Evaluated {
    pub value: Result<ObjectView, Seq<char>>,
    pub env: Seq<ScopeView>,
}

/// What evaluating the arguments of a call gives.
pub enum ArgumentsView {
    /// The values of all arguments; none carries the mark of a `return`.
    Values(Seq<ObjectView>),
    /// The value of the first argument that carries the mark of a `return`.
    Returned(ObjectView),
    /// The message of the first error.
    Failed(Seq<char>),
}

/// What evaluating a list of arguments gives, and the scopes afterwards.
pub struct EvaluatedList {
    pub outcome: ArgumentsView,
    pub env: Seq<ScopeView>,
}

/// Whether a condition with this value holds: `null` and `false` do not,
/// every other value does.
pub open spec fn truthy(o: ObjectView) -> bool {
    match o {
        ObjectView::Null => false,
        ObjectView::Boolean(b) => b,
        _ => true,
    }
}

pub open spec fn identifier_not_found(name: Seq<char>) -> Seq<char> {
    "identifier not found: "@ + name
}

pub open spec fn unknown_prefix_operator(op: TokenView, operand: ObjectView) -> Seq<char> {
    "unknown operator: "@ + op.text() + operand.text()
}

pub open spec fn unknown_postfix_operator(op: TokenView, operand: ObjectView) -> Seq<char> {
    "unknown operator: "@ + operand.text() + op.text()
}

/// The text of two operands with their operator between them.
pub open spec fn operation_text(left: ObjectView, op: TokenView, right: ObjectView) -> Seq<char> {
    left.text() + " "@ + op.text() + " "@ + right.text()
}

pub open spec fn unknown_operator(left: ObjectView, op: TokenView, right: ObjectView) -> Seq<char> {
    "unknown operator: "@ + operation_text(left, op, right)
}

pub open spec fn type_mismatch(left: ObjectView, op: TokenView, right: ObjectView) -> Seq<char> {
    "type mismatch: "@ + operation_text(left, op, right)
}

pub open spec fn integer_overflow(left: ObjectView, op: TokenView, right: ObjectView) -> Seq<
    char,
> {
    "integer overflow: "@ + operation_text(left, op, right)
}

pub open spec fn negation_overflow(operand: ObjectView) -> Seq<char> {
    "integer overflow: -"@ + operand.text()
}

pub open spec fn division_by_zero(left: ObjectView, op: TokenView, right: ObjectView) -> Seq<
    char,
> {
    "division by zero: "@ + operation_text(left, op, right)
}

pub open spec fn not_a_function(callee: ObjectView) -> Seq<char> {
    "not a function: "@ + callee.text()
}

pub open spec fn wrong_number_of_arguments(expected: nat, got: nat) -> Seq<char> {
    "wrong number of arguments: expected "@ + nat_text(expected) + ", got "@ + nat_text(got)
}

pub open spec fn call_depth_exceeded() -> Seq<char> {
    "call depth exceeded"@
}

pub open spec fn unknown_scope(callee: ObjectView) -> Seq<char> {
    "function of an unknown scope: "@ + callee.text()
}

pub open spec fn unsupported_literal(l: LiteralView) -> Seq<char> {
    "unsupported literal: "@ + l.text()
}

/// `!`: the opposite of a truth value, `true` for `null`, `false` for
/// every other value.
pub open spec fn bang(operand: ObjectView) -> ObjectView {
    match operand {
        ObjectView::Boolean(b) => ObjectView::Boolean(!b),
        ObjectView::Null => ObjectView::Boolean(true),
        _ => ObjectView::Boolean(false),
    }
}

/// A prefix `-`: the negative of an integer, where `i64` holds it.
pub open spec fn minus(operand: ObjectView) -> Result<ObjectView, Seq<char>> {
    match operand {
        ObjectView::Integer(i) => if i == i64::MIN {
            Err(negation_overflow(operand))
        } else {
            Ok(ObjectView::Integer((-i) as i64))
        },
        _ => Err(unknown_prefix_operator(TokenView::Minus, operand)),
    }
}

pub open spec fn prefix_value(op: TokenView, operand: ObjectView) -> Result<ObjectView, Seq<char>> {
    match op {
        TokenView::Bang => Ok(bang(operand)),
        TokenView::Minus => minus(operand),
        _ => Err(unknown_prefix_operator(op, operand)),
    }
}

/// The quotient rounded toward zero.
pub open spec fn truncated_quotient(l: int, r: int) -> int
    recommends
        r != 0,
{
    if l >= 0 && r > 0 {
        l / r
    } else if l < 0 && r < 0 {
        (-l) / (-r)
    } else if l < 0 {
        -((-l) / r)
    } else {
        -(l / (-r))
    }
}

/// A number as an integer value, where `i64` holds it; an overflow
/// otherwise.
pub open spec fn integer_or_overflow(n: int, l: i64, op: TokenView, r: i64) -> Result<
    ObjectView,
    Seq<char>,
> {
    if i64::MIN <= n <= i64::MAX {
        Ok(ObjectView::Integer(n as i64))
    } else {
        Err(integer_overflow(ObjectView::Integer(l), op, ObjectView::Integer(r)))
    }
}

pub open spec fn integer_infix(op: TokenView, l: i64, r: i64) -> Result<ObjectView, Seq<char>> {
    match op {
        TokenView::Plus => integer_or_overflow(l + r, l, op, r),
        TokenView::Minus => integer_or_overflow(l - r, l, op, r),
        TokenView::Asterisk => integer_or_overflow(l * r, l, op, r),
        TokenView::Slash => if r == 0 {
            Err(division_by_zero(ObjectView::Integer(l), op, ObjectView::Integer(r)))
        } else {
            integer_or_overflow(truncated_quotient(l as int, r as int), l, op, r)
        },
        TokenView::Lt => Ok(ObjectView::Boolean(l < r)),
        TokenView::Gt => Ok(ObjectView::Boolean(l > r)),
        TokenView::Eq => Ok(ObjectView::Boolean(l == r)),
        TokenView::NotEq => Ok(ObjectView::Boolean(l != r)),
        _ => Err(unknown_operator(ObjectView::Integer(l), op, ObjectView::Integer(r))),
    }
}

pub open spec fn boolean_infix(op: TokenView, l: bool, r: bool) -> Result<ObjectView, Seq<char>> {
    match op {
        TokenView::Eq => Ok(ObjectView::Boolean(l == r)),
        TokenView::NotEq => Ok(ObjectView::Boolean(l != r)),
        _ => Err(unknown_operator(ObjectView::Boolean(l), op, ObjectView::Boolean(r))),
    }
}

/// A binary operator on two values: arithmetic and comparison on two
/// integers, equality on two truth values, a type mismatch on every other
/// pair.
pub open spec fn infix_value(op: TokenView, left: ObjectView, right: ObjectView) -> Result<
    ObjectView,
    Seq<char>,
> {
    match (left, right) {
        (ObjectView::Integer(l), ObjectView::Integer(r)) => integer_infix(op, l, r),
        (ObjectView::Boolean(l), ObjectView::Boolean(r)) => boolean_infix(op, l, r),
        _ => Err(type_mismatch(left, op, right)),
    }
}

pub open spec fn literal_value(l: LiteralView) -> Result<ObjectView, Seq<char>> {
    match l {
        LiteralView::Int(i) => Ok(ObjectView::Integer(i)),
        LiteralView::String(s) => Ok(ObjectView::String(s)),
        LiteralView::Bool(b) => Ok(ObjectView::Boolean(b)),
        _ => Err(unsupported_literal(l)),
    }
}

/// The scopes after each of the first names is bound to the value at its
/// place, in `scope`.
pub open spec fn bind_all(
    env: Seq<ScopeView>,
    scope: nat,
    names: Seq<Seq<char>>,
    values: Seq<ObjectView>,
) -> Seq<ScopeView>
    decreases names.len(),
{
    if names.len() == 0 || values.len() == 0 {
        env
    } else {
        bind_all(
            bind(env, scope, names[0], values[0]),
            scope,
            names.drop_first(),
            values.drop_first(),
        )
    }
}

/// The value without the marks of a `return` around it.
pub open spec fn unwrapped(o: ObjectView) -> ObjectView
    decreases o,
{
    match o {
        ObjectView::ReturnValue(v) => unwrapped(*v),
        _ => o,
    }
}

/// The value of an expression in the scope `scope` of `env`. Where a part
/// of it gives a value that carries the mark of a `return`, that value is
/// the expression's, and nothing more is evaluated.
pub open spec fn eval_expression_spec(
    e: ExpressionView,
    env: Seq<ScopeView>,
    scope: nat,
    depth: nat,
) -> Evaluated
    decreases depth, 1int, e,
{
    match e {
        ExpressionView::Identifier(name) => Evaluated {
            value: match lookup(env, scope, name) {
                Some(v) => Ok(v),
                None => Err(identifier_not_found(name)),
            },
            env,
        },
        ExpressionView::Lit(l) => Evaluated { value: literal_value(l), env },
        ExpressionView::Prefix(op, operand) => {
            let r = eval_expression_spec(*operand, env, scope, depth);
            match r.value {
                Err(_) => r,
                Ok(v) => if v is ReturnValue {
                    r
                } else {
                    Evaluated { value: prefix_value(op, v), env: r.env }
                },
            }
        },
        ExpressionView::Infix(op, a, b) => {
            let l = eval_expression_spec(*a, env, scope, depth);
            match l.value {
                Err(_) => l,
                Ok(lv) => if lv is ReturnValue {
                    l
                } else {
                    let r = eval_expression_spec(*b, l.env, scope, depth);
                    match r.value {
                        Err(_) => r,
                        Ok(rv) => if rv is ReturnValue {
                            r
                        } else {
                            Evaluated { value: infix_value(op, lv, rv), env: r.env }
                        },
                    }
                },
            }
        },
        ExpressionView::Postfix(op, operand) => {
            let r = eval_expression_spec(*operand, env, scope, depth);
            match r.value {
                Err(_) => r,
                Ok(v) => if v is ReturnValue {
                    r
                } else {
                    Evaluated { value: Err(unknown_postfix_operator(op, v)), env: r.env }
                },
            }
        },
        ExpressionView::If(c, consequence, alternative) => {
            let r = eval_expression_spec(*c, env, scope, depth);
            match r.value {
                Err(_) => r,
                Ok(v) => if v is ReturnValue {
                    r
                } else if truthy(v) {
                    eval_block_spec(consequence, r.env, scope, depth, ObjectView::Null)
                } else {
                    match alternative {
                        Some(alt) => eval_block_spec(alt, r.env, scope, depth, ObjectView::Null),
                        None => Evaluated { value: Ok(ObjectView::Null), env: r.env },
                    }
                },
            }
        },
        ExpressionView::Fn(params, body) => Evaluated {
            value: Ok(ObjectView::Function(params, body, scope)),
            env,
        },
        ExpressionView::Call(f, args) => {
            let c = eval_expression_spec(*f, env, scope, depth);
            match c.value {
                Err(_) => c,
                Ok(callee) => if callee is ReturnValue {
                    c
                } else if callee is Function {
                    let a = eval_arguments_spec(args, c.env, scope, depth, Seq::empty());
                    match a.outcome {
                        ArgumentsView::Failed(m) => Evaluated { value: Err(m), env: a.env },
                        ArgumentsView::Returned(v) => Evaluated { value: Ok(v), env: a.env },
                        ArgumentsView::Values(values) => apply_spec(callee, values, a.env, depth),
                    }
                } else {
                    Evaluated { value: Err(not_a_function(callee)), env: c.env }
                },
            }
        },
    }
}

/// The values of the arguments `args`, from left to right, after those in
/// `done`. The first error ends the evaluation, and so does the first
/// value that carries the mark of a `return`.
pub open spec fn eval_arguments_spec(
    args: Seq<ExpressionView>,
    env: Seq<ScopeView>,
    scope: nat,
    depth: nat,
    done: Seq<ObjectView>,
) -> EvaluatedList
    decreases depth, 1int, args,
{
    if args.len() == 0 {
        EvaluatedList { outcome: ArgumentsView::Values(done), env }
    } else {
        let r = eval_expression_spec(args[0], env, scope, depth);
        match r.value {
            Err(m) => EvaluatedList { outcome: ArgumentsView::Failed(m), env: r.env },
            Ok(v) => if v is ReturnValue {
                EvaluatedList { outcome: ArgumentsView::Returned(v), env: r.env }
            } else {
                eval_arguments_spec(args.drop_first(), r.env, scope, depth, done.push(v))
            },
        }
    }
}

/// The call of the function `callee` with the values `values`: the body's
/// value in a new scope inside the one in which the function was made,
/// with every parameter bound to its argument. The value of a `return`
/// comes out without its mark.
pub open spec fn apply_spec(
    callee: ObjectView,
    values: Seq<ObjectView>,
    env: Seq<ScopeView>,
    depth: nat,
) -> Evaluated
    decreases depth, 0int, callee,
{
    match callee {
        ObjectView::Function(params, body, captured) => {
            if params.len() != values.len() {
                Evaluated {
                    value: Err(wrong_number_of_arguments(params.len(), values.len())),
                    env,
                }
            } else if captured >= env.len() {
                Evaluated { value: Err(unknown_scope(callee)), env }
            } else if depth == 0 {
                Evaluated { value: Err(call_depth_exceeded()), env }
            } else {
                let frame = env.len();
                let inside = bind_all(enclose(env, captured), frame, params, values);
                let r = eval_block_spec(body, inside, frame, (depth - 1) as nat, ObjectView::Null);
                match r.value {
                    Err(_) => r,
                    Ok(v) => Evaluated { value: Ok(unwrapped(v)), env: r.env },
                }
            }
        },
        _ => Evaluated { value: Err(not_a_function(callee)), env },
    }
}

/// The value of a statement: nothing for a `let`, which binds the value of
/// its expression; the marked value of its expression for a `return`; the
/// value of the expression otherwise. A value that is marked already is
/// neither bound nor marked again: it is the statement's value.
pub open spec fn eval_statement_spec(
    s: StatementView,
    env: Seq<ScopeView>,
    scope: nat,
    depth: nat,
) -> Evaluated
    decreases depth, 1int, s,
{
    match s {
        StatementView::Let(name, e) => {
            let r = eval_expression_spec(e, env, scope, depth);
            match r.value {
                Err(_) => r,
                Ok(v) => if v is ReturnValue {
                    r
                } else {
                    Evaluated { value: Ok(ObjectView::Null), env: bind(r.env, scope, name, v) }
                },
            }
        },
        StatementView::Return(e) => {
            let r = eval_expression_spec(e, env, scope, depth);
            match r.value {
                Err(_) => r,
                Ok(v) => if v is ReturnValue {
                    r
                } else {
                    Evaluated { value: Ok(ObjectView::ReturnValue(Box::new(v))), env: r.env }
                },
            }
        },
        StatementView::Expr(e) => eval_expression_spec(e, env, scope, depth),
    }
}

/// The value of a block whose statements `stmts` are still to come, `last`
/// being the value of the one before them: that of its last statement, or
/// of the first that gives the value of a `return`, which keeps its mark.
pub open spec fn eval_block_spec(
    stmts: Seq<StatementView>,
    env: Seq<ScopeView>,
    scope: nat,
    depth: nat,
    last: ObjectView,
) -> Evaluated
    decreases depth, 1int, stmts,
{
    if stmts.len() == 0 {
        Evaluated { value: Ok(last), env }
    } else {
        let r = eval_statement_spec(stmts[0], env, scope, depth);
        match r.value {
            Err(_) => r,
            Ok(v) => if v is ReturnValue {
                r
            } else {
                eval_block_spec(stmts.drop_first(), r.env, scope, depth, v)
            },
        }
    }
}

/// The value of a program whose statements `stmts` are still to come,
/// `last` being the value of the one before them: that of its last
/// statement, or the value that the first `return` gives, without its mark.
pub open spec fn eval_program_spec(
    stmts: Seq<StatementView>,
    env: Seq<ScopeView>,
    scope: nat,
    depth: nat,
    last: ObjectView,
) -> Evaluated
    decreases stmts.len(),
{
    if stmts.len() == 0 {
        Evaluated { value: Ok(last), env }
    } else {
        let r = eval_statement_spec(stmts[0], env, scope, depth);
        match r.value {
            Err(_) => r,
            Ok(v) => if v is ReturnValue {
                Evaluated { value: Ok(unwrapped(v)), env: r.env }
            } else {
                eval_program_spec(stmts.drop_first(), r.env, scope, depth, v)
            },
        }
    }
}

/// The value of a node.
pub open spec fn eval_spec(node: NodeView, env: Seq<ScopeView>, scope: nat, depth: nat) -> Evaluated {
    match node {
        NodeView::Program(p) => eval_program_spec(p, env, scope, depth, ObjectView::Null),
        NodeView::Statement(s) => eval_statement_spec(s, env, scope, depth),
        NodeView::Expr(e) => eval_expression_spec(e, env, scope, depth),
    }
}

} // verus!
