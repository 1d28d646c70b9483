use vstd::prelude::*;

use crate::syntax::expr::{Expr, ExprModel};
use crate::syntax::ident::{is_identifier, Ident};
use crate::syntax::span::Span;

verus! {

/// `let name [: ty] = rhs`. The type annotation is kept and never consulted.
#[derive(Debug, PartialEq, Eq)]
pub struct Let<'a> {
    pub name: Ident<'a>,
    pub ty: Option<Ident<'a>>,
    pub rhs: Expr<'a>,
}

/// The mathematical model of a [`Let`].
pub struct LetModel {
    pub name: Seq<char>,
    pub ty: Option<Seq<char>>,
    pub rhs: ExprModel,
}

impl LetModel {
    /// True when the name and the type are identifiers and the initializer
    /// is tidy inside `outer`.
    pub open spec fn tidy(self, outer: Span) -> bool
        decreases self,
    {
        &&& is_identifier(self.name)
        &&& (self.ty matches Some(ty) ==> is_identifier(ty))
        &&& self.rhs.tidy(outer)
    }
}

impl<'a> Let<'a> {
    /// The model of the binding.
    pub open spec fn model(&self) -> LetModel
        decreases self,
    {
        LetModel {
            name: self.name@,
            ty: match self.ty {
                Some(ty) => Some(ty@),
                None => None,
            },
            rhs: self.rhs.model(),
        }
    }
}

impl<'a> View for Let<'a> {
    type V = LetModel;

    open spec fn view(&self) -> LetModel {
        self.model()
    }
}

} // verus!
