use vstd::prelude::*;
use vstd::string::StringExecFns;

use crate::js::block::{write_block, Block, BlockModel};
use crate::js::display::{margin, Display};
use crate::js::expr::{write_expr, Expr, ExprModel};
use crate::js::function::{write_fn, Fn, FnModel};
use crate::js::layout::{indentation, stmt_text};
use crate::js::let_stmt::{write_let, Let, LetModel};

verus! {

/// A statement of the target language.
#[derive(Debug, PartialEq, Eq)]
pub enum Stmt<'a> {
    Fn(Fn<'a>),
    Let(Let<'a>),
    Expr(Expr<'a>),
    Block(Block<'a>),
}

/// The mathematical model of a [`Stmt`].
pub enum StmtModel {
    Fn(FnModel),
    Let(LetModel),
    Expr(ExprModel),
    Block(BlockModel),
}

impl<'a> Stmt<'a> {
    /// The model of the statement.
    pub open spec fn model(&self) -> StmtModel
        decreases self,
    {
        match self {
            Stmt::Fn(function) => StmtModel::Fn(function.model()),
            Stmt::Let(binding) => StmtModel::Let(binding.model()),
            Stmt::Expr(expr) => StmtModel::Expr(expr.model()),
            Stmt::Block(block) => StmtModel::Block(block.model()),
        }
    }
}

impl<'a> View for Stmt<'a> {
    type V = StmtModel;

    open spec fn view(&self) -> StmtModel {
        self.model()
    }
}

/// Appends the lines of `stmt` to `out`, each after `margin`.
pub fn write_stmt(stmt: &Stmt<'_>, margin: &str, out: &mut String)
    ensures
        final(out)@ == old(out)@ + stmt_text(stmt@, margin@),
    decreases stmt, 0int,
{
    match stmt {
        Stmt::Fn(function) => {
            write_fn(function, margin, out);
        },
        Stmt::Let(binding) => {
            write_let(binding, margin, out);
        },
        Stmt::Expr(expr) => {
            out.append(margin);
            write_expr(expr, out);
            out.append(";\n");
            assert(final(out)@ =~= old(out)@ + stmt_text(stmt@, margin@));
        },
        Stmt::Block(block) => {
            write_block(block, margin, out);
        },
    }
}

impl<'a> Stmt<'a> {
    /// The lines of the statement at the left margin.
    pub fn to_string(&self) -> (text: String)
        ensures
            text@ == stmt_text(self@, Seq::empty()),
    {
        let mut text = String::new();
        write_stmt(self, "", &mut text);
        proof {
            reveal_strlit("");
            assert(""@ =~= Seq::<char>::empty());
        }
        text
    }
}

impl<'a> Display<'a, Stmt<'a>> {
    /// Appends the lines of the statement to `out`, at this level.
    pub fn fmt(&self, out: &mut String)
        ensures
            final(out)@ == old(out)@ + stmt_text(self.value@, indentation(self.indent as nat)),
    {
        let margin = margin(self.indent);
        write_stmt(self.value, margin.as_str(), out);
    }
}

} // verus!
