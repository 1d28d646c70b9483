use vstd::prelude::*;

use crate::syntax::expr::{Expr, ExprModel};
use crate::syntax::let_stmt::{Let, LetModel};
use crate::syntax::span::Span;

verus! {

/// A statement of a block.
#[derive(Debug, PartialEq, Eq)]
pub enum Stmt<'a> {
    /// A binding of a new variable.
    Let(Let<'a>),
    /// An expression evaluated for its effect.
    Expr(Expr<'a>),
}

/// The mathematical model of a [`Stmt`].
pub enum StmtModel {
    Let(LetModel),
    Expr(ExprModel),
}

impl StmtModel {
    /// True when what the statement holds is tidy inside `outer`.
    pub open spec fn tidy(self, outer: Span) -> bool
        decreases self,
    {
        match self {
            StmtModel::Let(binding) => binding.tidy(outer),
            StmtModel::Expr(expr) => expr.tidy(outer),
        }
    }
}

impl<'a> Stmt<'a> {
    /// The model of the statement.
    pub open spec fn model(&self) -> StmtModel
        decreases self,
    {
        match self {
            Stmt::Let(binding) => StmtModel::Let(binding.model()),
            Stmt::Expr(expr) => StmtModel::Expr(expr.model()),
        }
    }
}

impl<'a> View for Stmt<'a> {
    type V = StmtModel;

    open spec fn view(&self) -> StmtModel {
        self.model()
    }
}

} // verus!
