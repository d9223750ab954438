//! The mark of a `return` stays inside: a program and a call give values
//! without it, and no name is ever bound to a value that carries it.
//!
//! Evaluation binds in two places. A `let` binds the value of its
//! expression only where that value carries no mark. A call binds the
//! values of its arguments, and none of them carries one
//! ([`lemma_arguments_give_no_mark`]). So scopes that are free of marks
//! stay free of them ([`lemma_no_mark_is_bound`]).

use crate::ast::{ExpressionView, NodeView, StatementView};
use crate::eval::environment::{bind, enclose, ScopeView};
use crate::eval::semantics::{
    apply_spec, bind_all, eval_arguments_spec, eval_block_spec, eval_expression_spec,
    eval_program_spec, eval_spec, eval_statement_spec, truthy, unwrapped, ArgumentsView,
};
use crate::object::ObjectView;
use vstd::prelude::*;

verus! {

/// Whether none of the values carries the mark of a `return`.
pub open spec fn all_plain(values: Seq<ObjectView>) -> bool {
    forall|i: int| 0 <= i < values.len() ==> !(#[trigger] values[i] is ReturnValue)
}

/// Whether no name of any scope is bound to a value that carries the mark
/// of a `return`.
pub open spec fn unmarked(env: Seq<ScopeView>) -> bool {
    forall|i: int, name: Seq<char>|
        0 <= i < env.len() && #[trigger] env[i].store.contains_key(name) ==> !(
        env[i].store[name] is ReturnValue)
}

/// A value without its marks carries none.
pub proof fn lemma_unwrapped_plain(o: ObjectView)
    ensures
        !(unwrapped(o) is ReturnValue),
    decreases o,
{
    match o {
        ObjectView::ReturnValue(v) => {
            lemma_unwrapped_plain(*v);
        },
        _ => {},
    }
}

/// The value of a call never carries the mark of a `return`, whatever is
/// called, with whatever values, in whatever environment.
pub proof fn lemma_call_gives_no_mark(
    callee: ObjectView,
    values: Seq<ObjectView>,
    env: Seq<ScopeView>,
    depth: nat,
)
    ensures
        match apply_spec(callee, values, env, depth).value {
            Ok(v) => !(v is ReturnValue),
            Err(_) => true,
        },
{
    match callee {
        ObjectView::Function(params, body, captured) => {
            if params.len() == values.len() && captured < env.len() && depth > 0 {
                let frame = env.len();
                let inside = bind_all(enclose(env, captured), frame, params, values);
                let r = eval_block_spec(body, inside, frame, (depth - 1) as nat, ObjectView::Null);
                if r.value is Ok {
                    lemma_unwrapped_plain(r.value->Ok_0);
                }
            }
        },
        _ => {},
    }
}

/// The value of the rest of a program never carries the mark of a
/// `return`, if the value of the statement before it carries none.
pub proof fn lemma_rest_of_program_gives_no_mark(
    stmts: Seq<StatementView>,
    env: Seq<ScopeView>,
    scope: nat,
    depth: nat,
    last: ObjectView,
)
    requires
        !(last is ReturnValue),
    ensures
        match eval_program_spec(stmts, env, scope, depth, last).value {
            Ok(v) => !(v is ReturnValue),
            Err(_) => true,
        },
    decreases stmts.len(),
{
    if stmts.len() > 0 {
        let r = eval_statement_spec(stmts[0], env, scope, depth);
        if r.value is Ok {
            let v = r.value->Ok_0;
            if v is ReturnValue {
                lemma_unwrapped_plain(v);
            } else {
                lemma_rest_of_program_gives_no_mark(stmts.drop_first(), r.env, scope, depth, v);
            }
        }
    }
}

/// The value of a program never carries the mark of a `return`, whatever
/// the program and the environment: a `return` ends the program, and its
/// value comes out without the mark.
pub proof fn lemma_program_gives_no_mark(
    stmts: Seq<StatementView>,
    env: Seq<ScopeView>,
    scope: nat,
    depth: nat,
)
    ensures
        match eval_spec(NodeView::Program(stmts), env, scope, depth).value {
            Ok(v) => !(v is ReturnValue),
            Err(_) => true,
        },
{
    lemma_rest_of_program_gives_no_mark(stmts, env, scope, depth, ObjectView::Null);
}

/// The values of the arguments of a call never carry the mark of a
/// `return`, whatever the arguments and the environment: these are the
/// values that the call binds to the parameters.
pub proof fn lemma_arguments_give_no_mark(
    args: Seq<ExpressionView>,
    env: Seq<ScopeView>,
    scope: nat,
    depth: nat,
    done: Seq<ObjectView>,
)
    requires
        all_plain(done),
    ensures
        match eval_arguments_spec(args, env, scope, depth, done).outcome {
            ArgumentsView::Values(values) => all_plain(values),
            ArgumentsView::Returned(v) => v is ReturnValue,
            ArgumentsView::Failed(_) => true,
        },
    decreases args.len(),
{
    if args.len() > 0 {
        let r = eval_expression_spec(args[0], env, scope, depth);
        if r.value is Ok && !(r.value->Ok_0 is ReturnValue) {
            lemma_arguments_give_no_mark(
                args.drop_first(),
                r.env,
                scope,
                depth,
                done.push(r.value->Ok_0),
            );
        }
    }
}

/// Binding a value without a mark keeps the scopes free of marks.
pub proof fn lemma_bind_unmarked(
    env: Seq<ScopeView>,
    scope: nat,
    name: Seq<char>,
    value: ObjectView,
)
    requires
        unmarked(env),
        !(value is ReturnValue),
    ensures
        unmarked(bind(env, scope, name, value)),
{
    let after = bind(env, scope, name, value);
    assert forall|i: int, other: Seq<char>|
        0 <= i < after.len() && #[trigger] after[i].store.contains_key(other) implies !(
    after[i].store[other] is ReturnValue) by {
        if scope < env.len() {
            if i == scope && other != name {
                assert(env[i].store.contains_key(other));
            }
            if i != scope {
                assert(env[i].store.contains_key(other));
            }
        } else {
            assert(env[i].store.contains_key(other));
        }
    }
}

/// A new scope keeps the scopes free of marks.
pub proof fn lemma_enclose_unmarked(env: Seq<ScopeView>, outer: nat)
    requires
        unmarked(env),
    ensures
        unmarked(enclose(env, outer)),
{
    let after = enclose(env, outer);
    assert forall|i: int, name: Seq<char>|
        0 <= i < after.len() && #[trigger] after[i].store.contains_key(name) implies !(
    after[i].store[name] is ReturnValue) by {
        if i < env.len() {
            assert(env[i].store.contains_key(name));
        }
    }
}

/// Binding values without marks keeps the scopes free of marks.
pub proof fn lemma_bind_all_unmarked(
    env: Seq<ScopeView>,
    scope: nat,
    names: Seq<Seq<char>>,
    values: Seq<ObjectView>,
)
    requires
        unmarked(env),
        all_plain(values),
    ensures
        unmarked(bind_all(env, scope, names, values)),
    decreases names.len(),
{
    if names.len() > 0 && values.len() > 0 {
        lemma_bind_unmarked(env, scope, names[0], values[0]);
        let rest = values.drop_first();
        assert forall|i: int| 0 <= i < rest.len() implies !(#[trigger] rest[i] is ReturnValue) by {
            assert(rest[i] == values[i + 1]);
        }
        lemma_bind_all_unmarked(
            bind(env, scope, names[0], values[0]),
            scope,
            names.drop_first(),
            rest,
        );
    }
}

/// Evaluating an expression keeps the scopes free of marks: no name is
/// bound to a value that carries the mark of a `return`.
pub proof fn lemma_unmarked_expression(
    e: ExpressionView,
    env: Seq<ScopeView>,
    scope: nat,
    depth: nat,
)
    requires
        unmarked(env),
    ensures
        unmarked(eval_expression_spec(e, env, scope, depth).env),
    decreases depth, 1int, e,
{
    match e {
        ExpressionView::Prefix(op, x) => {
            lemma_unmarked_expression(*x, env, scope, depth);
        },
        ExpressionView::Postfix(op, x) => {
            lemma_unmarked_expression(*x, env, scope, depth);
        },
        ExpressionView::Infix(op, a, b) => {
            let l = eval_expression_spec(*a, env, scope, depth);
            lemma_unmarked_expression(*a, env, scope, depth);
            if l.value is Ok && !(l.value->Ok_0 is ReturnValue) {
                lemma_unmarked_expression(*b, l.env, scope, depth);
            }
        },
        ExpressionView::If(c, consequence, alternative) => {
            let r = eval_expression_spec(*c, env, scope, depth);
            lemma_unmarked_expression(*c, env, scope, depth);
            if r.value is Ok && !(r.value->Ok_0 is ReturnValue) {
                if truthy(r.value->Ok_0) {
                    lemma_unmarked_block(consequence, r.env, scope, depth, ObjectView::Null);
                } else {
                    match alternative {
                        Some(alt) => {
                            lemma_unmarked_block(alt, r.env, scope, depth, ObjectView::Null);
                        },
                        None => {},
                    }
                }
            }
        },
        ExpressionView::Call(f, args) => {
            let c = eval_expression_spec(*f, env, scope, depth);
            lemma_unmarked_expression(*f, env, scope, depth);
            if c.value is Ok && c.value->Ok_0 is Function {
                let a = eval_arguments_spec(args, c.env, scope, depth, Seq::empty());
                lemma_unmarked_arguments(args, c.env, scope, depth, Seq::empty());
                match a.outcome {
                    ArgumentsView::Values(values) => {
                        lemma_unmarked_call(c.value->Ok_0, values, a.env, depth);
                    },
                    _ => {},
                }
            }
        },
        _ => {},
    }
}

/// Evaluating arguments keeps the scopes free of marks, and the values of
/// the arguments carry none.
pub proof fn lemma_unmarked_arguments(
    args: Seq<ExpressionView>,
    env: Seq<ScopeView>,
    scope: nat,
    depth: nat,
    done: Seq<ObjectView>,
)
    requires
        unmarked(env),
        all_plain(done),
    ensures
        unmarked(eval_arguments_spec(args, env, scope, depth, done).env),
        match eval_arguments_spec(args, env, scope, depth, done).outcome {
            ArgumentsView::Values(values) => all_plain(values),
            ArgumentsView::Returned(v) => v is ReturnValue,
            ArgumentsView::Failed(_) => true,
        },
    decreases depth, 1int, args,
{
    if args.len() > 0 {
        let r = eval_expression_spec(args[0], env, scope, depth);
        lemma_unmarked_expression(args[0], env, scope, depth);
        if r.value is Ok && !(r.value->Ok_0 is ReturnValue) {
            lemma_unmarked_arguments(
                args.drop_first(),
                r.env,
                scope,
                depth,
                done.push(r.value->Ok_0),
            );
        }
    }
}

/// A call with values without marks keeps the scopes free of marks.
pub proof fn lemma_unmarked_call(
    callee: ObjectView,
    values: Seq<ObjectView>,
    env: Seq<ScopeView>,
    depth: nat,
)
    requires
        unmarked(env),
        all_plain(values),
    ensures
        unmarked(apply_spec(callee, values, env, depth).env),
    decreases depth, 0int, callee,
{
    match callee {
        ObjectView::Function(params, body, captured) => {
            if params.len() == values.len() && captured < env.len() && depth > 0 {
                let frame = env.len();
                lemma_enclose_unmarked(env, captured);
                lemma_bind_all_unmarked(enclose(env, captured), frame, params, values);
                let inside = bind_all(enclose(env, captured), frame, params, values);
                lemma_unmarked_block(body, inside, frame, (depth - 1) as nat, ObjectView::Null);
            }
        },
        _ => {},
    }
}

/// Evaluating a statement keeps the scopes free of marks: a `let` binds
/// no value that carries one.
pub proof fn lemma_unmarked_statement(
    s: StatementView,
    env: Seq<ScopeView>,
    scope: nat,
    depth: nat,
)
    requires
        unmarked(env),
    ensures
        unmarked(eval_statement_spec(s, env, scope, depth).env),
    decreases depth, 1int, s,
{
    match s {
        StatementView::Let(name, e) => {
            let r = eval_expression_spec(e, env, scope, depth);
            lemma_unmarked_expression(e, env, scope, depth);
            if r.value is Ok && !(r.value->Ok_0 is ReturnValue) {
                lemma_bind_unmarked(r.env, scope, name, r.value->Ok_0);
            }
        },
        StatementView::Return(e) => {
            lemma_unmarked_expression(e, env, scope, depth);
        },
        StatementView::Expr(e) => {
            lemma_unmarked_expression(e, env, scope, depth);
        },
    }
}

/// Evaluating a block keeps the scopes free of marks.
pub proof fn lemma_unmarked_block(
    stmts: Seq<StatementView>,
    env: Seq<ScopeView>,
    scope: nat,
    depth: nat,
    last: ObjectView,
)
    requires
        unmarked(env),
    ensures
        unmarked(eval_block_spec(stmts, env, scope, depth, last).env),
    decreases depth, 1int, stmts,
{
    if stmts.len() > 0 {
        let r = eval_statement_spec(stmts[0], env, scope, depth);
        lemma_unmarked_statement(stmts[0], env, scope, depth);
        if r.value is Ok && !(r.value->Ok_0 is ReturnValue) {
            lemma_unmarked_block(stmts.drop_first(), r.env, scope, depth, r.value->Ok_0);
        }
    }
}

/// Evaluating the rest of a program keeps the scopes free of marks.
pub proof fn lemma_unmarked_program(
    stmts: Seq<StatementView>,
    env: Seq<ScopeView>,
    scope: nat,
    depth: nat,
    last: ObjectView,
)
    requires
        unmarked(env),
    ensures
        unmarked(eval_program_spec(stmts, env, scope, depth, last).env),
    decreases stmts.len(),
{
    if stmts.len() > 0 {
        let r = eval_statement_spec(stmts[0], env, scope, depth);
        lemma_unmarked_statement(stmts[0], env, scope, depth);
        if r.value is Ok && !(r.value->Ok_0 is ReturnValue) {
            lemma_unmarked_program(stmts.drop_first(), r.env, scope, depth, r.value->Ok_0);
        }
    }
}

/// Evaluation never binds a name to a value that carries the mark of a
/// `return`: scopes that are free of marks stay so, whatever is evaluated.
pub proof fn lemma_no_mark_is_bound(node: NodeView, env: Seq<ScopeView>, scope: nat, depth: nat)
    requires
        unmarked(env),
    ensures
        unmarked(eval_spec(node, env, scope, depth).env),
{
    match node {
        NodeView::Program(p) => lemma_unmarked_program(p, env, scope, depth, ObjectView::Null),
        NodeView::Statement(s) => lemma_unmarked_statement(s, env, scope, depth),
        NodeView::Expr(e) => lemma_unmarked_expression(e, env, scope, depth),
    }
}

} // verus!
