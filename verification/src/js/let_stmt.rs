use std::borrow::Cow;
use vstd::prelude::*;
use vstd::string::StringExecFns;

use crate::js::display::{margin, Display};
use crate::js::expr::{name_str, write_expr, Expr, ExprModel};
use crate::js::layout::{indentation, let_text};

verus! {

/// `let name = rhs;`, with the target name of the variable.
#[derive(Debug, PartialEq, Eq)]
pub struct Let<'a> {
    pub name: Cow<'a, str>,
    pub rhs: Box<Expr<'a>>,
}

/// The mathematical model of a [`Let`].
pub struct LetModel {
    pub name: Seq<char>,
    pub rhs: ExprModel,
}

impl<'a> Let<'a> {
    /// The model of the binding.
    pub open spec fn model(&self) -> LetModel {
        LetModel { name: self.name@, rhs: self.rhs.model() }
    }
}

impl<'a> View for Let<'a> {
    type V = LetModel;

    open spec fn view(&self) -> LetModel {
        self.model()
    }
}

/// Appends the line of `binding` to `out`, after `margin`.
pub fn write_let(binding: &Let<'_>, margin: &str, out: &mut String)
    ensures
        final(out)@ == old(out)@ + let_text(binding@, margin@),
{
    out.append(margin);
    out.append("let ");
    out.append(name_str(&binding.name));
    out.append(" = ");
    write_expr(&binding.rhs, out);
    out.append(";\n");
    assert(final(out)@ =~= old(out)@ + let_text(binding@, margin@));
}

impl<'a> Display<'a, Let<'a>> {
    /// Appends the line of the binding to `out`, at this level.
    pub fn fmt(&self, out: &mut String)
        ensures
            final(out)@ == old(out)@ + let_text(self.value@, indentation(self.indent as nat)),
    {
        let margin = margin(self.indent);
        write_let(self.value, margin.as_str(), out);
    }
}

} // verus!
