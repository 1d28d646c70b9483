//! Lowering as a function of the models: from a source tree and the scopes
//! to the target tree or the first diagnostic, and to the scopes afterwards.

use vstd::prelude::*;

use crate::js;
use crate::report::{undeclared, unsupported_at, DiagnosticKind, DiagnosticModel};
use crate::syntax::block::BlockModel;
use crate::syntax::expr::ExprModel;
use crate::syntax::let_stmt::LetModel;
use crate::syntax::span::Span;
use crate::syntax::stmt::StmtModel;
use crate::trans::scopes::{
    declare, empty_scope, fresh_name, lemma_declare_well_formed, resolve, well_formed,
    ScopeModel,
};

verus! {

/// What lowering an expression yields.
pub type Lowered<T> = Result<T, DiagnosticModel>;

/// The two operands of a binary operator, the left one first: the first
/// diagnostic wins.
pub open spec fn both(
    lhs: Lowered<js::ExprModel>,
    rhs: Lowered<js::ExprModel>,
) -> Lowered<(js::ExprModel, js::ExprModel)> {
    match lhs {
        Ok(left) => match rhs {
            Ok(right) => Ok((left, right)),
            Err(d) => Err(d),
        },
        Err(d) => Err(d),
    }
}

/// The target expression of `expr` in `scopes`, or the diagnostic of the
/// first thing in it, from left to right, that cannot be lowered: a variable
/// that no scope declares, a block, a call or a function.
pub open spec fn lower_expr(expr: ExprModel, scopes: Seq<ScopeModel>) -> Lowered<js::ExprModel>
    decreases expr,
{
    match expr {
        ExprModel::Int(n) => Ok(js::ExprModel::Number(n)),
        ExprModel::Parens(inner) => match lower_expr(*inner, scopes) {
            Ok(inner) => Ok(js::ExprModel::Parens(Box::new(inner))),
            Err(d) => Err(d),
        },
        ExprModel::Var { name, name_span } => match resolve(scopes, name) {
            Some(target) => Ok(js::ExprModel::Var(target)),
            None => Err(undeclared(name, name_span)),
        },
        ExprModel::Neg(inner) => match lower_expr(*inner, scopes) {
            Ok(inner) => Ok(js::ExprModel::Neg(Box::new(inner))),
            Err(d) => Err(d),
        },
        ExprModel::Add(lhs, rhs) => match both(lower_expr(*lhs, scopes), lower_expr(*rhs, scopes)) {
            Ok((lhs, rhs)) => Ok(js::ExprModel::Add(Box::new(lhs), Box::new(rhs))),
            Err(d) => Err(d),
        },
        ExprModel::Sub(lhs, rhs) => match both(lower_expr(*lhs, scopes), lower_expr(*rhs, scopes)) {
            Ok((lhs, rhs)) => Ok(js::ExprModel::Sub(Box::new(lhs), Box::new(rhs))),
            Err(d) => Err(d),
        },
        ExprModel::Mul(lhs, rhs) => match both(lower_expr(*lhs, scopes), lower_expr(*rhs, scopes)) {
            Ok((lhs, rhs)) => Ok(js::ExprModel::Mul(Box::new(lhs), Box::new(rhs))),
            Err(d) => Err(d),
        },
        ExprModel::Div(lhs, rhs) => match both(lower_expr(*lhs, scopes), lower_expr(*rhs, scopes)) {
            Ok((lhs, rhs)) => Ok(js::ExprModel::Div(Box::new(lhs), Box::new(rhs))),
            Err(d) => Err(d),
        },
        ExprModel::Call(_, _) => Err(
            unsupported_at(DiagnosticKind::FunctionCall, scopes.last().span),
        ),
        ExprModel::Fn { .. } => Err(
            unsupported_at(DiagnosticKind::FunctionDeclaration, scopes.last().span),
        ),
        ExprModel::Block(block) => Err(unsupported_at(DiagnosticKind::BlockInExpression, block.span)),
    }
}

/// The target binding of `binding` and the scopes after it. The initializer
/// is lowered first, in the scopes before the binding; only then the
/// innermost scope declares the name. An initializer that holds a block is
/// refused before anything else.
pub open spec fn lower_let(binding: LetModel, scopes: Seq<ScopeModel>) -> (
    Lowered<js::LetModel>,
    Seq<ScopeModel>,
) {
    if binding.rhs.contains_block() {
        (Err(unsupported_at(DiagnosticKind::BlockInLet, scopes.last().span)), scopes)
    } else {
        match lower_expr(binding.rhs, scopes) {
            Ok(rhs) => (
                Ok(
                    js::LetModel {
                        name: fresh_name(scopes.last().variables, binding.name),
                        rhs,
                    },
                ),
                declare(scopes, binding.name),
            ),
            Err(d) => (Err(d), scopes),
        }
    }
}

/// The target statement of `stmt` and the scopes after it. A block that is a
/// statement of its own is lowered in a new scope, which is gone afterwards
/// whether the block could be lowered or not.
pub open spec fn lower_stmt(stmt: StmtModel, scopes: Seq<ScopeModel>) -> (
    Lowered<js::StmtModel>,
    Seq<ScopeModel>,
)
    decreases stmt,
{
    match stmt {
        StmtModel::Let(binding) => match lower_let(binding, scopes) {
            (Ok(lowered), after) => (Ok(js::StmtModel::Let(lowered)), after),
            (Err(d), after) => (Err(d), after),
        },
        StmtModel::Expr(ExprModel::Block(block)) => match lower_stmts(
            block.stmts,
            Seq::empty(),
            scopes.push(empty_scope(block.span)),
        ).0 {
            Ok(stmts) => (Ok(js::StmtModel::Block(js::BlockModel { stmts })), scopes),
            Err(d) => (Err(d), scopes),
        },
        StmtModel::Expr(expr) => match lower_expr(expr, scopes) {
            Ok(lowered) => (Ok(js::StmtModel::Expr(lowered)), scopes),
            Err(d) => (Err(d), scopes),
        },
    }
}

/// The target statements of `stmts` after those in `done`, and the scopes
/// after them: every statement is lowered in the scopes that the statements
/// before it left, and the first diagnostic ends the lowering.
pub open spec fn lower_stmts(
    stmts: Seq<StmtModel>,
    done: Seq<js::StmtModel>,
    scopes: Seq<ScopeModel>,
) -> (Lowered<Seq<js::StmtModel>>, Seq<ScopeModel>)
    decreases stmts,
{
    if stmts.len() == 0 {
        (Ok(done), scopes)
    } else {
        match lower_stmt(stmts.first(), scopes) {
            (Ok(lowered), after) => lower_stmts(stmts.drop_first(), done.push(lowered), after),
            (Err(d), after) => (Err(d), after),
        }
    }
}

/// The target block of `block`, lowered in the innermost scope of `scopes`,
/// and the scopes afterwards.
pub open spec fn lower_block(block: BlockModel, scopes: Seq<ScopeModel>) -> (
    Lowered<js::BlockModel>,
    Seq<ScopeModel>,
) {
    match lower_stmts(block.stmts, Seq::empty(), scopes) {
        (Ok(stmts), after) => (Ok(js::BlockModel { stmts }), after),
        (Err(d), after) => (Err(d), after),
    }
}

/// True when `after` is `before` but for what its innermost scope declares.
pub open spec fn same_outer(before: Seq<ScopeModel>, after: Seq<ScopeModel>) -> bool {
    &&& after.len() == before.len()
    &&& after.drop_last() == before.drop_last()
    &&& after.last().span == before.last().span
}

/// Lowering a statement leaves as many scopes as it found, and changes none
/// but the innermost.
pub proof fn lemma_lower_stmt_same_outer(stmt: StmtModel, scopes: Seq<ScopeModel>)
    requires
        scopes.len() >= 1,
    ensures
        same_outer(scopes, lower_stmt(stmt, scopes).1),
{
    match stmt {
        StmtModel::Let(binding) => {
            let after = lower_let(binding, scopes).1;
            assert(after.drop_last() =~= scopes.drop_last());
        },
        _ => {},
    }
}

/// Lowering statements leaves as many scopes as it found, and changes none
/// but the innermost, whether it ends with a diagnostic or not.
pub proof fn lemma_lower_stmts_same_outer(
    stmts: Seq<StmtModel>,
    done: Seq<js::StmtModel>,
    scopes: Seq<ScopeModel>,
)
    requires
        scopes.len() >= 1,
    ensures
        same_outer(scopes, lower_stmts(stmts, done, scopes).1),
    decreases stmts.len(),
{
    if stmts.len() > 0 {
        lemma_lower_stmt_same_outer(stmts.first(), scopes);
        let (lowered, after) = lower_stmt(stmts.first(), scopes);
        if let Ok(first) = lowered {
            lemma_lower_stmts_same_outer(stmts.drop_first(), done.push(first), after);
        }
    }
}

/// Scope isolation: a block that is a statement of its own leaves the scopes
/// exactly as it found them, whatever it declares and whether it can be
/// lowered or not. What it declares is visible to nothing after it.
pub proof fn lemma_block_leaves_scopes(block: BlockModel, scopes: Seq<ScopeModel>)
    ensures
        lower_stmt(StmtModel::Expr(ExprModel::Block(block)), scopes).1 == scopes,
{
}

/// A variable that no scope declares cannot be lowered: the diagnostic names
/// the variable and carries the span of the reference.
pub proof fn lemma_undeclared_variable(
    name: Seq<char>,
    name_span: Span,
    scopes: Seq<ScopeModel>,
)
    requires
        resolve(scopes, name) is None,
    ensures
        lower_expr(ExprModel::Var { name, name_span }, scopes) == Err::<js::ExprModel, _>(
            undeclared(name, name_span),
        ),
{
}

/// The initializer of a binding is lowered before the name is declared: where
/// the initializer uses the name and nothing outside declares it, the binding
/// cannot be lowered and declares nothing.
pub proof fn lemma_let_is_not_recursive(
    name: Seq<char>,
    name_span: Span,
    scopes: Seq<ScopeModel>,
)
    requires
        resolve(scopes, name) is None,
    ensures
        lower_let(
            LetModel { name, ty: None, rhs: ExprModel::Var { name, name_span } },
            scopes,
        ) == (Err::<js::LetModel, _>(undeclared(name, name_span)), scopes),
{
}

/// Lowering keeps the stack well formed.
pub proof fn lemma_lower_stmts_well_formed(
    stmts: Seq<StmtModel>,
    done: Seq<js::StmtModel>,
    scopes: Seq<ScopeModel>,
)
    requires
        well_formed(scopes),
    ensures
        well_formed(lower_stmts(stmts, done, scopes).1),
    decreases stmts.len(),
{
    if stmts.len() > 0 {
        let (lowered, after) = lower_stmt(stmts.first(), scopes);
        if let StmtModel::Let(binding) = stmts.first() {
            lemma_declare_well_formed(scopes, binding.name);
        }
        if let Ok(first) = lowered {
            lemma_lower_stmts_well_formed(stmts.drop_first(), done.push(first), after);
        }
    }
}

} // verus!
