//! The syntax tree: its shape, its mathematical value and its printed form.

use crate::token::{Token, TokenView};
use vstd::prelude::*;

verus! {

/// The statements between two braces.
pub type BlockStatement = Vec<Statement>;

/// Anything that can be evaluated.
#[derive(Debug, PartialEq)]
pub enum Node {
    Program(Vec<Statement>),
    Statement(Statement),
    Expr(Expression),
}

/// A statement.
#[derive(Debug, PartialEq)]
pub enum Statement {
    /// `let name = value;`
    Let(String, Expression),
    /// `return value;`
    Return(Expression),
    Expr(Expression),
}

/// An expression. Each owns its parts.
#[derive(Debug, PartialEq)]
pub enum Expression {
    Identifier(String),
    Lit(Literal),
    Prefix(Token, Box<Expression>),
    /// Operator, left operand, right operand.
    Infix(Token, Box<Expression>, Box<Expression>),
    Postfix(Token, Box<Expression>),
    /// Condition, consequence, alternative.
    If(Box<Expression>, BlockStatement, Option<BlockStatement>),
    /// Parameter names and body.
    Fn(Vec<String>, BlockStatement),
    /// Callee and arguments.
    Call(Box<Expression>, Vec<Expression>),
}

/// A literal value.
#[derive(Debug, PartialEq)]
pub enum Literal {
    Int(i64),
    String(String),
    Bool(bool),
    Array(Vec<Expression>),
    /// Key and value pairs, in source order.
    Hash(Vec<(Expression, Expression)>),
}

/// The mathematical value of a [`Node`].
pub enum NodeView {
    Program(Seq<StatementView>),
    Statement(StatementView),
    Expr(ExpressionView),
}

/// The mathematical value of a [`Statement`].
pub enum StatementView {
    Let(Seq<char>, ExpressionView),
    Return(ExpressionView),
    Expr(ExpressionView),
}

/// The mathematical value of an [`Expression`].
pub enum ExpressionView {
    Identifier(Seq<char>),
    Lit(LiteralView),
    Prefix(TokenView, Box<ExpressionView>),
    Infix(TokenView, Box<ExpressionView>, Box<ExpressionView>),
    Postfix(TokenView, Box<ExpressionView>),
    If(Box<ExpressionView>, Seq<StatementView>, Option<Seq<StatementView>>),
    Fn(Seq<Seq<char>>, Seq<StatementView>),
    Call(Box<ExpressionView>, Seq<ExpressionView>),
}

/// The mathematical value of a [`Literal`].
pub enum LiteralView {
    Int(i64),
    String(Seq<char>),
    Bool(bool),
    Array(Seq<ExpressionView>),
    Hash(Seq<(ExpressionView, ExpressionView)>),
}

/// The values of a list of names.
pub open spec fn names_view(v: Vec<String>) -> Seq<Seq<char>> {
    Seq::new(v.len() as nat, |i: int| v[i]@)
}

/// The values of a list of statements.
pub open spec fn statements_view(v: Vec<Statement>) -> Seq<StatementView>
    decreases v,
{
    Seq::new(
        v.len() as nat,
        |i: int|
            if 0 <= i < v.len() {
                v[i].model()
            } else {
                arbitrary()
            },
    )
}

/// The values of a list of expressions.
pub open spec fn expressions_view(v: Vec<Expression>) -> Seq<ExpressionView>
    decreases v,
{
    Seq::new(
        v.len() as nat,
        |i: int|
            if 0 <= i < v.len() {
                v[i].model()
            } else {
                arbitrary()
            },
    )
}

/// The values of a list of pairs of expressions.
pub open spec fn pairs_view(v: Vec<(Expression, Expression)>) -> Seq<
    (ExpressionView, ExpressionView),
>
    decreases v,
{
    Seq::new(
        v.len() as nat,
        |i: int|
            if 0 <= i < v.len() {
                (v[i].0.model(), v[i].1.model())
            } else {
                arbitrary()
            },
    )
}

impl Statement {
    pub open spec fn model(self) -> StatementView
        decreases self,
    {
        match self {
            Statement::Let(n, e) => StatementView::Let(n@, e.model()),
            Statement::Return(e) => StatementView::Return(e.model()),
            Statement::Expr(e) => StatementView::Expr(e.model()),
        }
    }
}

impl Literal {
    pub open spec fn model(self) -> LiteralView
        decreases self,
    {
        match self {
            Literal::Int(i) => LiteralView::Int(i),
            Literal::String(s) => LiteralView::String(s@),
            Literal::Bool(b) => LiteralView::Bool(b),
            Literal::Array(a) => LiteralView::Array(expressions_view(a)),
            Literal::Hash(h) => LiteralView::Hash(pairs_view(h)),
        }
    }
}

impl Expression {
    pub open spec fn model(self) -> ExpressionView
        decreases self,
    {
        match self {
            Expression::Identifier(n) => ExpressionView::Identifier(n@),
            Expression::Lit(l) => ExpressionView::Lit(l.model()),
            Expression::Prefix(t, e) => ExpressionView::Prefix(t@, Box::new(e.model())),
            Expression::Infix(t, a, b) => ExpressionView::Infix(
                t@,
                Box::new(a.model()),
                Box::new(b.model()),
            ),
            Expression::Postfix(t, e) => ExpressionView::Postfix(t@, Box::new(e.model())),
            Expression::If(c, a, b) => ExpressionView::If(
                Box::new(c.model()),
                statements_view(a),
                match b {
                    Some(b) => Some(statements_view(b)),
                    None => None,
                },
            ),
            Expression::Fn(params, body) => ExpressionView::Fn(
                names_view(params),
                statements_view(body),
            ),
            Expression::Call(f, args) => ExpressionView::Call(
                Box::new(f.model()),
                expressions_view(args),
            ),
        }
    }
}

impl View for Statement {
    type V = StatementView;

    open spec fn view(&self) -> StatementView {
        self.model()
    }
}

impl View for Literal {
    type V = LiteralView;

    open spec fn view(&self) -> LiteralView {
        self.model()
    }
}

impl View for Expression {
    type V = ExpressionView;

    open spec fn view(&self) -> ExpressionView {
        self.model()
    }
}

impl View for Node {
    type V = NodeView;

    open spec fn view(&self) -> NodeView {
        match self {
            Node::Program(p) => NodeView::Program(statements_view(*p)),
            Node::Statement(s) => NodeView::Statement(s@),
            Node::Expr(e) => NodeView::Expr(e@),
        }
    }
}

/// A copy of a list of names.
pub fn clone_names(v: &Vec<String>) -> (r: Vec<String>)
    ensures
        names_view(r) == names_view(*v),
{
    let mut out: Vec<String> = Vec::new();
    let mut i: usize = 0;
    while i < v.len()
        invariant
            i <= v.len(),
            out.len() == i,
            forall|j: int| 0 <= j < i ==> out[j]@ == v[j]@,
        decreases v.len() - i,
    {
        out.push(v[i].clone());
        i = i + 1;
    }
    assert(names_view(out) =~= names_view(*v));
    out
}

/// A copy of a list of statements.
pub fn clone_statements(v: &Vec<Statement>) -> (r: Vec<Statement>)
    ensures
        statements_view(r) == statements_view(*v),
    decreases v,
{
    let mut out: Vec<Statement> = Vec::new();
    let mut i: usize = 0;
    while i < v.len()
        invariant
            i <= v.len(),
            out.len() == i,
            forall|j: int| 0 <= j < i ==> out[j]@ == v[j]@,
        decreases v.len() - i,
    {
        out.push(v[i].clone());
        i = i + 1;
    }
    assert(statements_view(out) =~= statements_view(*v));
    out
}

/// A copy of a list of expressions.
pub fn clone_expressions(v: &Vec<Expression>) -> (r: Vec<Expression>)
    ensures
        expressions_view(r) == expressions_view(*v),
    decreases v,
{
    let mut out: Vec<Expression> = Vec::new();
    let mut i: usize = 0;
    while i < v.len()
        invariant
            i <= v.len(),
            out.len() == i,
            forall|j: int| 0 <= j < i ==> out[j]@ == v[j]@,
        decreases v.len() - i,
    {
        out.push(v[i].clone());
        i = i + 1;
    }
    assert(expressions_view(out) =~= expressions_view(*v));
    out
}

fn clone_pairs(v: &Vec<(Expression, Expression)>) -> (r: Vec<(Expression, Expression)>)
    ensures
        pairs_view(r) == pairs_view(*v),
    decreases v,
{
    let mut out: Vec<(Expression, Expression)> = Vec::new();
    let mut i: usize = 0;
    while i < v.len()
        invariant
            i <= v.len(),
            out.len() == i,
            forall|j: int| 0 <= j < i ==> out[j].0@ == v[j].0@ && out[j].1@ == v[j].1@,
        decreases v.len() - i,
    {
        let pair = &v[i];
        out.push((pair.0.clone(), pair.1.clone()));
        i = i + 1;
    }
    assert(pairs_view(out) =~= pairs_view(*v));
    out
}

impl Clone for Statement {
    fn clone(&self) -> (r: Self)
        ensures
            r@ == self@,
        decreases self,
    {
        match self {
            Statement::Let(n, e) => Statement::Let(n.clone(), e.clone()),
            Statement::Return(e) => Statement::Return(e.clone()),
            Statement::Expr(e) => Statement::Expr(e.clone()),
        }
    }
}

impl Clone for Literal {
    fn clone(&self) -> (r: Self)
        ensures
            r@ == self@,
        decreases self,
    {
        match self {
            Literal::Int(i) => Literal::Int(*i),
            Literal::String(s) => Literal::String(s.clone()),
            Literal::Bool(b) => Literal::Bool(*b),
            Literal::Array(a) => Literal::Array(clone_expressions(a)),
            Literal::Hash(h) => Literal::Hash(clone_pairs(h)),
        }
    }
}

impl Clone for Expression {
    fn clone(&self) -> (r: Self)
        ensures
            r@ == self@,
        decreases self,
    {
        match self {
            Expression::Identifier(n) => Expression::Identifier(n.clone()),
            Expression::Lit(l) => Expression::Lit(l.clone()),
            Expression::Prefix(t, e) => Expression::Prefix(t.clone(), Box::new((&**e).clone())),
            Expression::Infix(t, a, b) => Expression::Infix(
                t.clone(),
                Box::new((&**a).clone()),
                Box::new((&**b).clone()),
            ),
            Expression::Postfix(t, e) => Expression::Postfix(t.clone(), Box::new((&**e).clone())),
            Expression::If(c, a, b) => Expression::If(
                Box::new((&**c).clone()),
                clone_statements(a),
                match b {
                    Some(b) => Some(clone_statements(b)),
                    None => None,
                },
            ),
            Expression::Fn(params, body) => Expression::Fn(
                clone_names(params),
                clone_statements(body),
            ),
            Expression::Call(f, args) => Expression::Call(
                Box::new((&**f).clone()),
                clone_expressions(args),
            ),
        }
    }
}

impl Clone for Node {
    fn clone(&self) -> (r: Self)
        ensures
            r@ == self@,
    {
        match self {
            Node::Program(p) => Node::Program(clone_statements(p)),
            Node::Statement(s) => Node::Statement(s.clone()),
            Node::Expr(e) => Node::Expr(e.clone()),
        }
    }
}

} // verus!
