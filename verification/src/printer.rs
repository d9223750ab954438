//! The printed form of the syntax tree.

use crate::ast::{
    expressions_view, names_view, pairs_view, statements_view, Expression, ExpressionView, Literal,
    LiteralView, Node, NodeView, Statement, StatementView,
};
use crate::text::{bool_text, int_text, push_bool, push_int};
use vstd::prelude::*;
use vstd::string::StringExecFns;

verus! {

/// The names, with a comma and a blank between two of them.
pub open spec fn names_text(names: Seq<Seq<char>>) -> Seq<char>
    decreases names.len(),
{
    if names.len() == 0 {
        Seq::empty()
    } else if names.len() == 1 {
        names[0]
    } else {
        names_text(names.drop_last()) + ", "@ + names.last()
    }
}

/// The statements' texts, one directly behind the other.
pub open spec fn statements_text(stmts: Seq<StatementView>) -> Seq<char>
    decreases stmts,
{
    if stmts.len() == 0 {
        Seq::empty()
    } else {
        statements_text(stmts.drop_last()) + stmts.last().text()
    }
}

/// The expressions' texts, with a comma and a blank between two of them.
pub open spec fn expressions_text(exprs: Seq<ExpressionView>) -> Seq<char>
    decreases exprs,
{
    if exprs.len() == 0 {
        Seq::empty()
    } else if exprs.len() == 1 {
        exprs[0].text()
    } else {
        expressions_text(exprs.drop_last()) + ", "@ + exprs.last().text()
    }
}

/// The pairs' texts, each a key, a colon, a blank and a value, one directly
/// behind the other.
pub open spec fn pairs_text(pairs: Seq<(ExpressionView, ExpressionView)>) -> Seq<char>
    decreases pairs,
{
    if pairs.len() == 0 {
        Seq::empty()
    } else {
        pairs_text(pairs.drop_last()) + pairs.last().0.text() + ": "@ + pairs.last().1.text()
    }
}

impl StatementView {
    pub open spec fn text(self) -> Seq<char>
        decreases self,
    {
        match self {
            StatementView::Let(name, e) => "let "@ + name + " = "@ + e.text() + ";"@,
            StatementView::Return(e) => "return "@ + e.text() + ";"@,
            StatementView::Expr(e) => e.text(),
        }
    }
}

impl LiteralView {
    pub open spec fn text(self) -> Seq<char>
        decreases self,
    {
        match self {
            LiteralView::Int(i) => int_text(i as int),
            LiteralView::String(s) => s,
            LiteralView::Bool(b) => bool_text(b),
            LiteralView::Array(a) => "["@ + expressions_text(a) + "]"@,
            LiteralView::Hash(h) => "{"@ + pairs_text(h) + "}"@,
        }
    }
}

impl ExpressionView {
    /// Every operator application stands in parentheses of its own, so the
    /// text shows how the expression was grouped.
    pub open spec fn text(self) -> Seq<char>
        decreases self,
    {
        match self {
            ExpressionView::Identifier(name) => name,
            ExpressionView::Lit(l) => l.text(),
            ExpressionView::Prefix(op, e) => "("@ + op.text() + e.text() + ")"@,
            ExpressionView::Infix(op, a, b) => "("@ + a.text() + " "@ + op.text() + " "@ + b.text()
                + ")"@,
            ExpressionView::Postfix(op, e) => "("@ + e.text() + op.text() + ")"@,
            ExpressionView::If(c, cons, alt) => match alt {
                Some(alt) => "if "@ + c.text() + " { "@ + statements_text(cons) + " } else { "@
                    + statements_text(alt) + " }"@,
                None => "if "@ + c.text() + " { "@ + statements_text(cons) + " }"@,
            },
            ExpressionView::Fn(params, _) => "fn("@ + names_text(params) + ") {...}"@,
            ExpressionView::Call(f, args) => f.text() + "("@ + expressions_text(args) + ")"@,
        }
    }
}

impl NodeView {
    pub open spec fn text(self) -> Seq<char> {
        match self {
            NodeView::Program(p) => statements_text(p),
            NodeView::Statement(s) => s.text(),
            NodeView::Expr(e) => e.text(),
        }
    }
}

pub fn write_names(names: &Vec<String>, out: &mut String)
    ensures
        final(out)@ == old(out)@ + names_text(names_view(*names)),
{
    let ghost all = names_view(*names);
    let mut i: usize = 0;
    while i < names.len()
        invariant
            i <= names.len(),
            all == names_view(*names),
            out@ == old(out)@ + names_text(all.subrange(0, i as int)),
        decreases names.len() - i,
    {
        proof {
            assert(all.subrange(0, i + 1).drop_last() =~= all.subrange(0, i as int));
        }
        if i > 0 {
            out.append(", ");
        }
        out.append(names[i].as_str());
        i = i + 1;
        assert(out@ =~= old(out)@ + names_text(all.subrange(0, i as int)));
    }
    assert(all.subrange(0, i as int) =~= all);
}

fn write_statements(stmts: &Vec<Statement>, out: &mut String)
    ensures
        final(out)@ == old(out)@ + statements_text(statements_view(*stmts)),
    decreases stmts,
{
    let ghost all = statements_view(*stmts);
    let mut i: usize = 0;
    while i < stmts.len()
        invariant
            i <= stmts.len(),
            all == statements_view(*stmts),
            out@ == old(out)@ + statements_text(all.subrange(0, i as int)),
        decreases stmts.len() - i,
    {
        proof {
            assert(all.subrange(0, i + 1).drop_last() =~= all.subrange(0, i as int));
        }
        stmts[i].write_to(out);
        i = i + 1;
        assert(out@ =~= old(out)@ + statements_text(all.subrange(0, i as int)));
    }
    assert(all.subrange(0, i as int) =~= all);
}

fn write_expressions(exprs: &Vec<Expression>, out: &mut String)
    ensures
        final(out)@ == old(out)@ + expressions_text(expressions_view(*exprs)),
    decreases exprs,
{
    let ghost all = expressions_view(*exprs);
    let mut i: usize = 0;
    while i < exprs.len()
        invariant
            i <= exprs.len(),
            all == expressions_view(*exprs),
            out@ == old(out)@ + expressions_text(all.subrange(0, i as int)),
        decreases exprs.len() - i,
    {
        proof {
            assert(all.subrange(0, i + 1).drop_last() =~= all.subrange(0, i as int));
        }
        if i > 0 {
            out.append(", ");
        }
        exprs[i].write_to(out);
        i = i + 1;
        assert(out@ =~= old(out)@ + expressions_text(all.subrange(0, i as int)));
    }
    assert(all.subrange(0, i as int) =~= all);
}

fn write_pairs(pairs: &Vec<(Expression, Expression)>, out: &mut String)
    ensures
        final(out)@ == old(out)@ + pairs_text(pairs_view(*pairs)),
    decreases pairs,
{
    let ghost all = pairs_view(*pairs);
    let mut i: usize = 0;
    while i < pairs.len()
        invariant
            i <= pairs.len(),
            all == pairs_view(*pairs),
            out@ == old(out)@ + pairs_text(all.subrange(0, i as int)),
        decreases pairs.len() - i,
    {
        proof {
            assert(all.subrange(0, i + 1).drop_last() =~= all.subrange(0, i as int));
        }
        let pair = &pairs[i];
        pair.0.write_to(out);
        out.append(": ");
        pair.1.write_to(out);
        i = i + 1;
        assert(out@ =~= old(out)@ + pairs_text(all.subrange(0, i as int)));
    }
    assert(all.subrange(0, i as int) =~= all);
}

impl Statement {
    /// Appends the statement's text to `out`.
    pub fn write_to(&self, out: &mut String)
        ensures
            final(out)@ == old(out)@ + self@.text(),
        decreases self,
    {
        match self {
            Statement::Let(name, e) => {
                out.append("let ");
                out.append(name.as_str());
                out.append(" = ");
                e.write_to(out);
                out.append(";");
            },
            Statement::Return(e) => {
                out.append("return ");
                e.write_to(out);
                out.append(";");
            },
            Statement::Expr(e) => {
                e.write_to(out);
            },
        }
        assert(out@ =~= old(out)@ + self@.text());
    }

    /// The statement's text.
    pub fn to_string(&self) -> (r: String)
        ensures
            r@ == self@.text(),
    {
        let mut out = String::new();
        self.write_to(&mut out);
        assert(out@ =~= self@.text());
        out
    }
}

impl Literal {
    /// Appends the literal's text to `out`.
    pub fn write_to(&self, out: &mut String)
        ensures
            final(out)@ == old(out)@ + self@.text(),
        decreases self,
    {
        match self {
            Literal::Int(i) => push_int(out, *i),
            Literal::String(s) => out.append(s.as_str()),
            Literal::Bool(b) => push_bool(out, *b),
            Literal::Array(a) => {
                out.append("[");
                write_expressions(a, out);
                out.append("]");
            },
            Literal::Hash(h) => {
                out.append("{");
                write_pairs(h, out);
                out.append("}");
            },
        }
        assert(out@ =~= old(out)@ + self@.text());
    }

    /// The literal's text.
    pub fn to_string(&self) -> (r: String)
        ensures
            r@ == self@.text(),
    {
        let mut out = String::new();
        self.write_to(&mut out);
        assert(out@ =~= self@.text());
        out
    }
}

impl Expression {
    /// Appends the expression's text to `out`.
    pub fn write_to(&self, out: &mut String)
        ensures
            final(out)@ == old(out)@ + self@.text(),
        decreases self,
    {
        match self {
            Expression::Identifier(name) => out.append(name.as_str()),
            Expression::Lit(l) => l.write_to(out),
            Expression::Prefix(op, e) => {
                out.append("(");
                op.write_to(out);
                e.write_to(out);
                out.append(")");
            },
            Expression::Infix(op, a, b) => {
                out.append("(");
                a.write_to(out);
                out.append(" ");
                op.write_to(out);
                out.append(" ");
                b.write_to(out);
                out.append(")");
            },
            Expression::Postfix(op, e) => {
                out.append("(");
                e.write_to(out);
                op.write_to(out);
                out.append(")");
            },
            Expression::If(c, cons, alt) => {
                out.append("if ");
                c.write_to(out);
                out.append(" { ");
                write_statements(cons, out);
                match alt {
                    Some(alt) => {
                        out.append(" } else { ");
                        write_statements(alt, out);
                        out.append(" }");
                    },
                    None => {
                        out.append(" }");
                    },
                }
            },
            Expression::Fn(params, _) => {
                out.append("fn(");
                write_names(params, out);
                out.append(") {...}");
            },
            Expression::Call(f, args) => {
                f.write_to(out);
                out.append("(");
                write_expressions(args, out);
                out.append(")");
            },
        }
        assert(out@ =~= old(out)@ + self@.text());
    }

    /// The expression's text.
    pub fn to_string(&self) -> (r: String)
        ensures
            r@ == self@.text(),
    {
        let mut out = String::new();
        self.write_to(&mut out);
        assert(out@ =~= self@.text());
        out
    }
}

/// The text of a list of statements: their texts, one directly behind the
/// other.
pub fn format_statements(stmts: &Vec<Statement>) -> (r: String)
    ensures
        r@ == statements_text(statements_view(*stmts)),
{
    let mut out = String::new();
    write_statements(stmts, &mut out);
    assert(out@ =~= statements_text(statements_view(*stmts)));
    out
}

/// The text of a list of expressions: their texts, with a comma and a blank
/// between two of them.
pub fn format_expressions(exprs: &Vec<Expression>) -> (r: String)
    ensures
        r@ == expressions_text(expressions_view(*exprs)),
{
    let mut out = String::new();
    write_expressions(exprs, &mut out);
    assert(out@ =~= expressions_text(expressions_view(*exprs)));
    out
}

impl Node {
    /// The node's text.
    pub fn to_string(&self) -> (r: String)
        ensures
            r@ == self@.text(),
    {
        match self {
            Node::Program(p) => format_statements(p),
            Node::Statement(s) => s.to_string(),
            Node::Expr(e) => e.to_string(),
        }
    }
}

} // verus!
