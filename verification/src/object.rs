//! The values that evaluation produces.

use crate::ast::{
    clone_names, clone_statements, names_view, statements_view, Statement, StatementView,
};
use crate::printer::names_text;
use crate::text::{bool_text, int_text, push_bool, push_int};
use vstd::prelude::*;
use vstd::string::StringExecFns;

verus! {

/// A runtime value.
#[derive(Debug, PartialEq)]
pub enum Object {
    Integer(i64),
    Boolean(bool),
    String(String),
    Null,
    /// The value of a `return`, on its way out of the blocks around it.
    ReturnValue(Box<Object>),
    /// Parameter names, body, and the scope in which the function was made.
    Function(Vec<String>, Vec<Statement>, usize),
    Error(String),
}

/// The mathematical value of an [`Object`].
pub enum ObjectView {
    Integer(i64),
    Boolean(bool),
    String(Seq<char>),
    Null,
    ReturnValue(Box<ObjectView>),
    Function(Seq<Seq<char>>, Seq<StatementView>, nat),
    Error(Seq<char>),
}

impl Object {
    pub open spec fn model(self) -> ObjectView
        decreases self,
    {
        match self {
            Object::Integer(i) => ObjectView::Integer(i),
            Object::Boolean(b) => ObjectView::Boolean(b),
            Object::String(s) => ObjectView::String(s@),
            Object::Null => ObjectView::Null,
            Object::ReturnValue(o) => ObjectView::ReturnValue(Box::new(o.model())),
            Object::Function(params, body, scope) => ObjectView::Function(
                names_view(params),
                statements_view(body),
                scope as nat,
            ),
            Object::Error(m) => ObjectView::Error(m@),
        }
    }
}

impl View for Object {
    type V = ObjectView;

    open spec fn view(&self) -> ObjectView {
        self.model()
    }
}

impl ObjectView {
    /// How the value is printed.
    pub open spec fn text(self) -> Seq<char>
        decreases self,
    {
        match self {
            ObjectView::Integer(i) => int_text(i as int),
            ObjectView::Boolean(b) => bool_text(b),
            ObjectView::String(s) => s,
            ObjectView::Null => "null"@,
            ObjectView::ReturnValue(o) => o.text(),
            ObjectView::Function(params, _, _) => "fn("@ + names_text(params) + ") {...}"@,
            ObjectView::Error(m) => "Error: "@ + m,
        }
    }
}

impl Clone for Object {
    fn clone(&self) -> (r: Self)
        ensures
            r@ == self@,
        decreases self,
    {
        match self {
            Object::Integer(i) => Object::Integer(*i),
            Object::Boolean(b) => Object::Boolean(*b),
            Object::String(s) => Object::String(s.clone()),
            Object::Null => Object::Null,
            Object::ReturnValue(o) => Object::ReturnValue(Box::new((&**o).clone())),
            Object::Function(params, body, scope) => Object::Function(
                clone_names(params),
                clone_statements(body),
                *scope,
            ),
            Object::Error(m) => Object::Error(m.clone()),
        }
    }
}

impl Object {
    /// Appends the value's text to `out`.
    pub fn write_to(&self, out: &mut String)
        ensures
            final(out)@ == old(out)@ + self@.text(),
        decreases self,
    {
        match self {
            Object::Integer(i) => push_int(out, *i),
            Object::Boolean(b) => push_bool(out, *b),
            Object::String(s) => out.append(s.as_str()),
            Object::Null => out.append("null"),
            Object::ReturnValue(o) => o.write_to(out),
            Object::Function(params, _, _) => {
                out.append("fn(");
                crate::printer::write_names(params, out);
                out.append(") {...}");
            },
            Object::Error(m) => {
                out.append("Error: ");
                out.append(m.as_str());
            },
        }
        assert(out@ =~= old(out)@ + self@.text());
    }

    /// The value's text.
    pub fn to_string(&self) -> (r: String)
        ensures
            r@ == self@.text(),
    {
        let mut out = String::new();
        self.write_to(&mut out);
        assert(out@ =~= self@.text());
        out
    }
}

} // verus!
