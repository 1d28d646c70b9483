use std::borrow::Cow;
use vstd::prelude::*;
use vstd::string::StringExecFns;

use crate::js::display::Display;
use crate::js::layout::{expr_text, indentation};
use crate::text::write_signed_decimal;

verus! {

/// An expression of the target language. A variable holds the name that it
/// was resolved to.
#[derive(Debug, PartialEq, Eq)]
pub enum Expr<'a> {
    Number(i64),
    Parens(Box<Expr<'a>>),
    Var(Cow<'a, str>),
    Neg(Box<Expr<'a>>),
    Mul(Box<Expr<'a>>, Box<Expr<'a>>),
    Div(Box<Expr<'a>>, Box<Expr<'a>>),
    Add(Box<Expr<'a>>, Box<Expr<'a>>),
    Sub(Box<Expr<'a>>, Box<Expr<'a>>),
}

/// The mathematical model of an [`Expr`].
pub enum ExprModel {
    Number(int),
    Parens(Box<ExprModel>),
    Var(Seq<char>),
    Neg(Box<ExprModel>),
    Mul(Box<ExprModel>, Box<ExprModel>),
    Div(Box<ExprModel>, Box<ExprModel>),
    Add(Box<ExprModel>, Box<ExprModel>),
    Sub(Box<ExprModel>, Box<ExprModel>),
}

impl<'a> Expr<'a> {
    /// The model of the expression.
    pub open spec fn model(&self) -> ExprModel
        decreases self,
    {
        match self {
            Expr::Number(n) => ExprModel::Number(*n as int),
            Expr::Parens(inner) => ExprModel::Parens(Box::new(inner.model())),
            Expr::Var(name) => ExprModel::Var(name@),
            Expr::Neg(inner) => ExprModel::Neg(Box::new(inner.model())),
            Expr::Mul(lhs, rhs) => ExprModel::Mul(Box::new(lhs.model()), Box::new(rhs.model())),
            Expr::Div(lhs, rhs) => ExprModel::Div(Box::new(lhs.model()), Box::new(rhs.model())),
            Expr::Add(lhs, rhs) => ExprModel::Add(Box::new(lhs.model()), Box::new(rhs.model())),
            Expr::Sub(lhs, rhs) => ExprModel::Sub(Box::new(lhs.model()), Box::new(rhs.model())),
        }
    }

    /// Moves the expression to the heap.
    pub fn boxed(self) -> (b: Box<Self>)
        ensures
            *b == self,
    {
        Box::new(self)
    }

    /// The text of the expression.
    pub fn to_string(&self) -> (text: String)
        ensures
            text@ == expr_text(self@),
    {
        let mut text = String::new();
        write_expr(self, &mut text);
        text
    }
}

impl<'a> View for Expr<'a> {
    type V = ExprModel;

    open spec fn view(&self) -> ExprModel {
        self.model()
    }
}

/// The text that a name holds.
pub fn name_str<'b>(name: &'b Cow<'_, str>) -> (text: &'b str)
    ensures
        text@ == name@,
{
    match name {
        Cow::Borrowed(borrowed) => borrowed,
        Cow::Owned(owned) => owned.as_str(),
    }
}

/// Appends the text of `expr` to `out`.
pub fn write_expr(expr: &Expr<'_>, out: &mut String)
    ensures
        final(out)@ == old(out)@ + expr_text(expr@),
    decreases expr,
{
    match expr {
        Expr::Number(n) => {
            write_signed_decimal(*n, out);
        },
        Expr::Parens(inner) => {
            out.append("(");
            write_expr(inner, out);
            out.append(")");
        },
        Expr::Var(name) => {
            out.append(name_str(name));
        },
        Expr::Neg(inner) => {
            match **inner {
                Expr::Neg(_) => {
                    out.append("-(");
                    write_expr(inner, out);
                    out.append(")");
                },
                _ => {
                    out.append("-");
                    write_expr(inner, out);
                },
            }
        },
        Expr::Mul(lhs, rhs) => {
            write_expr(lhs, out);
            out.append(" * ");
            write_expr(rhs, out);
        },
        Expr::Div(lhs, rhs) => {
            write_expr(lhs, out);
            out.append(" / ");
            write_expr(rhs, out);
        },
        Expr::Add(lhs, rhs) => {
            write_expr(lhs, out);
            out.append(" + ");
            write_expr(rhs, out);
        },
        Expr::Sub(lhs, rhs) => {
            write_expr(lhs, out);
            out.append(" - ");
            write_expr(rhs, out);
        },
    }
    assert(final(out)@ =~= old(out)@ + expr_text(expr@));
}

impl<'a> Display<'a, Expr<'a>> {
    /// Appends the indentation of this level and the text of the expression
    /// to `out`.
    pub fn fmt(&self, out: &mut String)
        ensures
            final(out)@ == old(out)@ + indentation(self.indent as nat) + expr_text(self.value@),
    {
        self.write_indent(out);
        write_expr(self.value, out);
    }
}

} // verus!
