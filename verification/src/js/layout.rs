//! The text of the target tree: what the renderer writes, as a function of
//! the model.

use vstd::prelude::*;

use crate::js::block::BlockModel;
use crate::js::expr::ExprModel;
use crate::js::file::FileModel;
use crate::js::function::FnModel;
use crate::js::let_stmt::LetModel;
use crate::js::stmt::StmtModel;
use crate::text::signed_decimal;

verus! {

/// The margin of a level: four spaces for every level.
pub open spec fn indentation(level: nat) -> Seq<char>
    decreases level,
{
    if level == 0 {
        Seq::empty()
    } else {
        indentation((level - 1) as nat) + "    "@
    }
}

/// The text of an expression: operands in their order, one space on each
/// side of a binary operator, and parentheses round a negation that is
/// itself negated.
pub open spec fn expr_text(expr: ExprModel) -> Seq<char>
    decreases expr,
{
    match expr {
        ExprModel::Number(n) => signed_decimal(n),
        ExprModel::Parens(inner) => "("@ + expr_text(*inner) + ")"@,
        ExprModel::Var(name) => name,
        ExprModel::Neg(inner) => if *inner is Neg {
            "-("@ + expr_text(*inner) + ")"@
        } else {
            "-"@ + expr_text(*inner)
        },
        ExprModel::Mul(lhs, rhs) => expr_text(*lhs) + " * "@ + expr_text(*rhs),
        ExprModel::Div(lhs, rhs) => expr_text(*lhs) + " / "@ + expr_text(*rhs),
        ExprModel::Add(lhs, rhs) => expr_text(*lhs) + " + "@ + expr_text(*rhs),
        ExprModel::Sub(lhs, rhs) => expr_text(*lhs) + " - "@ + expr_text(*rhs),
    }
}

/// The margin one level deeper than `margin`.
pub open spec fn deeper(margin: Seq<char>) -> Seq<char> {
    margin + "    "@
}

/// The line of a binding, after the margin.
pub open spec fn let_text(binding: LetModel, margin: Seq<char>) -> Seq<char> {
    margin + "let "@ + binding.name + " = "@ + expr_text(binding.rhs) + ";\n"@
}

/// The names of the parameters, with `, ` between them.
pub open spec fn args_text(args: Seq<Seq<char>>) -> Seq<char>
    decreases args.len(),
{
    if args.len() == 0 {
        Seq::empty()
    } else if args.len() == 1 {
        args[0]
    } else {
        args_text(args.drop_last()) + ", "@ + args.last()
    }
}

/// The lines of a statement, each after the margin. An expression gets a
/// semicolon; a block and a function get none.
pub open spec fn stmt_text(stmt: StmtModel, margin: Seq<char>) -> Seq<char>
    decreases stmt,
{
    match stmt {
        StmtModel::Fn(function) => fn_text(function, margin),
        StmtModel::Let(binding) => let_text(binding, margin),
        StmtModel::Expr(expr) => margin + expr_text(expr) + ";\n"@,
        StmtModel::Block(block) => block_text(block, margin),
    }
}

/// The lines of the statements, in their order.
pub open spec fn stmts_text(stmts: Seq<StmtModel>, margin: Seq<char>) -> Seq<char>
    decreases stmts,
{
    if stmts.len() == 0 {
        Seq::empty()
    } else {
        stmts_text(stmts.drop_last(), margin) + stmt_text(stmts.last(), margin)
    }
}

/// The lines of a block: its statements one level deeper, between braces on
/// lines of their own.
pub open spec fn block_text(block: BlockModel, margin: Seq<char>) -> Seq<char>
    decreases block,
{
    margin + "{\n"@ + stmts_text(block.stmts, deeper(margin)) + margin + "}\n"@
}

/// The lines of a function: its header, and its body at the same level.
pub open spec fn fn_text(function: FnModel, margin: Seq<char>) -> Seq<char>
    decreases function,
{
    margin + "function "@ + function.name + "("@ + args_text(function.args) + ")\n"@
        + block_text(function.body, margin)
}

/// The lines of a file: its statements.
pub open spec fn file_text(file: FileModel, margin: Seq<char>) -> Seq<char> {
    stmts_text(file.stmts, margin)
}

} // verus!
