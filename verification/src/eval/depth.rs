//! The limit on nested calls changes nothing but the evaluations that
//! reach it.

use crate::ast::{ExpressionView, NodeView, StatementView};
use crate::eval::environment::ScopeView;
use crate::eval::semantics::{
    apply_spec, call_depth_exceeded, ArgumentsView, eval_arguments_spec, eval_block_spec,
    eval_expression_spec, eval_program_spec, eval_spec, eval_statement_spec, truthy,
};
use crate::object::ObjectView;
use vstd::prelude::*;

verus! {

/// An expression that does not reach the limit `depth` has the same value
/// under every higher limit.
pub proof fn lemma_depth_expression(
    e: ExpressionView,
    env: Seq<ScopeView>,
    scope: nat,
    depth: nat,
    more: nat,
)
    requires
        depth <= more,
        eval_expression_spec(e, env, scope, depth).value != Err::<ObjectView, Seq<char>>(
            call_depth_exceeded(),
        ),
    ensures
        eval_expression_spec(e, env, scope, more) == eval_expression_spec(e, env, scope, depth),
    decreases depth, 1int, e,
{
    match e {
        ExpressionView::Prefix(op, x) => {
            lemma_depth_expression(*x, env, scope, depth, more);
        },
        ExpressionView::Postfix(op, x) => {
            lemma_depth_expression(*x, env, scope, depth, more);
        },
        ExpressionView::Infix(op, a, b) => {
            let l = eval_expression_spec(*a, env, scope, depth);
            lemma_depth_expression(*a, env, scope, depth, more);
            if l.value is Ok && !(l.value->Ok_0 is ReturnValue) {
                lemma_depth_expression(*b, l.env, scope, depth, more);
            }
        },
        ExpressionView::If(c, consequence, alternative) => {
            let r = eval_expression_spec(*c, env, scope, depth);
            lemma_depth_expression(*c, env, scope, depth, more);
            if r.value is Ok && !(r.value->Ok_0 is ReturnValue) {
                if truthy(r.value->Ok_0) {
                    lemma_depth_block(consequence, r.env, scope, depth, more, ObjectView::Null);
                } else {
                    match alternative {
                        Some(alt) => {
                            lemma_depth_block(alt, r.env, scope, depth, more, ObjectView::Null);
                        },
                        None => {},
                    }
                }
            }
        },
        ExpressionView::Call(f, args) => {
            let c = eval_expression_spec(*f, env, scope, depth);
            lemma_depth_expression(*f, env, scope, depth, more);
            if c.value is Ok && c.value->Ok_0 is Function {
                let a = eval_arguments_spec(args, c.env, scope, depth, Seq::empty());
                lemma_depth_arguments(args, c.env, scope, depth, more, Seq::empty());
                match a.outcome {
                    ArgumentsView::Values(values) => {
                        lemma_depth_apply(c.value->Ok_0, values, a.env, depth, more);
                    },
                    _ => {},
                }
            }
        },
        _ => {},
    }
}

/// Arguments that do not reach the limit `depth` have the same values under
/// every higher limit.
pub proof fn lemma_depth_arguments(
    args: Seq<ExpressionView>,
    env: Seq<ScopeView>,
    scope: nat,
    depth: nat,
    more: nat,
    done: Seq<ObjectView>,
)
    requires
        depth <= more,
        eval_arguments_spec(args, env, scope, depth, done).outcome != ArgumentsView::Failed(
            call_depth_exceeded(),
        ),
    ensures
        eval_arguments_spec(args, env, scope, more, done) == eval_arguments_spec(
            args,
            env,
            scope,
            depth,
            done,
        ),
    decreases depth, 1int, args,
{
    if args.len() > 0 {
        let r = eval_expression_spec(args[0], env, scope, depth);
        lemma_depth_expression(args[0], env, scope, depth, more);
        if r.value is Ok && !(r.value->Ok_0 is ReturnValue) {
            lemma_depth_arguments(
                args.drop_first(),
                r.env,
                scope,
                depth,
                more,
                done.push(r.value->Ok_0),
            );
        }
    }
}

/// A call that does not reach the limit `depth` has the same value under
/// every higher limit.
pub proof fn lemma_depth_apply(
    callee: ObjectView,
    values: Seq<ObjectView>,
    env: Seq<ScopeView>,
    depth: nat,
    more: nat,
)
    requires
        depth <= more,
        apply_spec(callee, values, env, depth).value != Err::<ObjectView, Seq<char>>(
            call_depth_exceeded(),
        ),
    ensures
        apply_spec(callee, values, env, more) == apply_spec(callee, values, env, depth),
    decreases depth, 0int, callee,
{
    match callee {
        ObjectView::Function(params, body, captured) => {
            if params.len() == values.len() && captured < env.len() {
                let frame = env.len();
                let inside = crate::eval::semantics::bind_all(
                    crate::eval::environment::enclose(env, captured),
                    frame,
                    params,
                    values,
                );
                lemma_depth_block(
                    body,
                    inside,
                    frame,
                    (depth - 1) as nat,
                    (more - 1) as nat,
                    ObjectView::Null,
                );
            }
        },
        _ => {},
    }
}

/// A statement that does not reach the limit `depth` has the same value
/// under every higher limit.
pub proof fn lemma_depth_statement(
    s: StatementView,
    env: Seq<ScopeView>,
    scope: nat,
    depth: nat,
    more: nat,
)
    requires
        depth <= more,
        eval_statement_spec(s, env, scope, depth).value != Err::<ObjectView, Seq<char>>(
            call_depth_exceeded(),
        ),
    ensures
        eval_statement_spec(s, env, scope, more) == eval_statement_spec(s, env, scope, depth),
    decreases depth, 1int, s,
{
    match s {
        StatementView::Let(name, e) => {
            lemma_depth_expression(e, env, scope, depth, more);
        },
        StatementView::Return(e) => {
            lemma_depth_expression(e, env, scope, depth, more);
        },
        StatementView::Expr(e) => {
            lemma_depth_expression(e, env, scope, depth, more);
        },
    }
}

/// A block that does not reach the limit `depth` has the same value under
/// every higher limit.
pub proof fn lemma_depth_block(
    stmts: Seq<StatementView>,
    env: Seq<ScopeView>,
    scope: nat,
    depth: nat,
    more: nat,
    last: ObjectView,
)
    requires
        depth <= more,
        eval_block_spec(stmts, env, scope, depth, last).value != Err::<ObjectView, Seq<char>>(
            call_depth_exceeded(),
        ),
    ensures
        eval_block_spec(stmts, env, scope, more, last) == eval_block_spec(
            stmts,
            env,
            scope,
            depth,
            last,
        ),
    decreases depth, 1int, stmts,
{
    if stmts.len() > 0 {
        let r = eval_statement_spec(stmts[0], env, scope, depth);
        lemma_depth_statement(stmts[0], env, scope, depth, more);
        if r.value is Ok && !(r.value->Ok_0 is ReturnValue) {
            lemma_depth_block(stmts.drop_first(), r.env, scope, depth, more, r.value->Ok_0);
        }
    }
}

/// A program that does not reach the limit `depth` has the same value under
/// every higher limit.
pub proof fn lemma_depth_program(
    stmts: Seq<StatementView>,
    env: Seq<ScopeView>,
    scope: nat,
    depth: nat,
    more: nat,
    last: ObjectView,
)
    requires
        depth <= more,
        eval_program_spec(stmts, env, scope, depth, last).value != Err::<ObjectView, Seq<char>>(
            call_depth_exceeded(),
        ),
    ensures
        eval_program_spec(stmts, env, scope, more, last) == eval_program_spec(
            stmts,
            env,
            scope,
            depth,
            last,
        ),
    decreases stmts.len(),
{
    if stmts.len() > 0 {
        let r = eval_statement_spec(stmts[0], env, scope, depth);
        lemma_depth_statement(stmts[0], env, scope, depth, more);
        if r.value is Ok && !(r.value->Ok_0 is ReturnValue) {
            lemma_depth_program(stmts.drop_first(), r.env, scope, depth, more, r.value->Ok_0);
        }
    }
}

/// Whatever is evaluated without reaching the limit `depth` on nested
/// calls has the same value, and leaves the same scopes, under every higher
/// limit: the limit changes nothing but the evaluations that end with its
/// error.
pub proof fn lemma_depth(node: NodeView, env: Seq<ScopeView>, scope: nat, depth: nat, more: nat)
    requires
        depth <= more,
        eval_spec(node, env, scope, depth).value != Err::<ObjectView, Seq<char>>(
            call_depth_exceeded(),
        ),
    ensures
        eval_spec(node, env, scope, more) == eval_spec(node, env, scope, depth),
{
    match node {
        NodeView::Program(p) => lemma_depth_program(p, env, scope, depth, more, ObjectView::Null),
        NodeView::Statement(s) => lemma_depth_statement(s, env, scope, depth, more),
        NodeView::Expr(e) => lemma_depth_expression(e, env, scope, depth, more),
    }
}

} // verus!
