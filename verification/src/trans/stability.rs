//! Lowering is stable: a target program, read again as a source program, is
//! lowered to itself.

use vstd::prelude::*;

use crate::js;
use crate::report::DiagnosticModel;
use crate::syntax::block::BlockModel;
use crate::syntax::expr::ExprModel;
use crate::syntax::let_stmt::LetModel;
use crate::syntax::span::Span;
use crate::syntax::stmt::StmtModel;
use crate::trans::lowering::{
    lemma_lower_stmts_well_formed, lower_block, lower_expr, lower_let, lower_stmt, lower_stmts,
};
use crate::trans::scopes::{
    declare, distinct_targets, empty_scope, fresh_name, lemma_declare_well_formed, lookup,
    resolve, taken, well_formed, ScopeModel, VariableModel,
};

verus! {

/// The source expression that reads like the target expression `expr`, with
/// `at` as the span of every reference.
pub open spec fn source_expr(expr: js::ExprModel, at: Span) -> ExprModel
    decreases expr,
{
    match expr {
        js::ExprModel::Number(n) => ExprModel::Int(n),
        js::ExprModel::Parens(inner) => ExprModel::Parens(Box::new(source_expr(*inner, at))),
        js::ExprModel::Var(name) => ExprModel::Var { name, name_span: at },
        js::ExprModel::Neg(inner) => ExprModel::Neg(Box::new(source_expr(*inner, at))),
        js::ExprModel::Mul(lhs, rhs) => ExprModel::Mul(
            Box::new(source_expr(*lhs, at)),
            Box::new(source_expr(*rhs, at)),
        ),
        js::ExprModel::Div(lhs, rhs) => ExprModel::Div(
            Box::new(source_expr(*lhs, at)),
            Box::new(source_expr(*rhs, at)),
        ),
        js::ExprModel::Add(lhs, rhs) => ExprModel::Add(
            Box::new(source_expr(*lhs, at)),
            Box::new(source_expr(*rhs, at)),
        ),
        js::ExprModel::Sub(lhs, rhs) => ExprModel::Sub(
            Box::new(source_expr(*lhs, at)),
            Box::new(source_expr(*rhs, at)),
        ),
    }
}

/// The source statement that reads like the target statement `stmt`. A
/// function has no source form; lowering yields none.
pub open spec fn source_stmt(stmt: js::StmtModel, at: Span) -> StmtModel
    decreases stmt,
{
    match stmt {
        js::StmtModel::Let(binding) => StmtModel::Let(
            LetModel { name: binding.name, ty: None, rhs: source_expr(binding.rhs, at) },
        ),
        js::StmtModel::Expr(expr) => StmtModel::Expr(source_expr(expr, at)),
        js::StmtModel::Block(block) => StmtModel::Expr(
            ExprModel::Block(BlockModel { stmts: source_stmts(block.stmts, at), span: at }),
        ),
        js::StmtModel::Fn(_) => arbitrary(),
    }
}

/// The source statements that read like the target statements `stmts`.
pub open spec fn source_stmts(stmts: Seq<js::StmtModel>, at: Span) -> Seq<StmtModel>
    decreases stmts,
{
    Seq::new(
        stmts.len(),
        |i: int|
            if 0 <= i < stmts.len() {
                source_stmt(stmts[i], at)
            } else {
                arbitrary()
            },
    )
}

/// The source block that reads like the target block `block`.
pub open spec fn source_block(block: js::BlockModel, at: Span) -> BlockModel {
    BlockModel { stmts: source_stmts(block.stmts, at), span: at }
}

/// True when `again` declares, scope by scope and in the same order, the
/// target names of `scopes` as source names, each under itself: the scopes of
/// a second lowering, of the target program, beside those of the first.
pub open spec fn mirrors(scopes: Seq<ScopeModel>, again: Seq<ScopeModel>) -> bool {
    &&& again.len() == scopes.len()
    &&& forall|k: int|
        0 <= k < scopes.len() ==> (#[trigger] again[k]).variables.len()
            == scopes[k].variables.len()
    &&& forall|k: int, i: int|
        0 <= k < scopes.len() && 0 <= i < scopes[k].variables.len() ==> {
            &&& (#[trigger] again[k].variables[i]).source_name == scopes[k].variables[i].target_name
            &&& again[k].variables[i].target_name == scopes[k].variables[i].target_name
        }
}

/// True when a variable of some scope has the target name `name`.
pub open spec fn declared_target(scopes: Seq<ScopeModel>, name: Seq<char>) -> bool {
    exists|k: int| 0 <= k < scopes.len() && taken((#[trigger] scopes[k]).variables, name)
}

/// What a lookup finds is the target name of a variable of the scope.
pub proof fn lemma_lookup_is_taken(variables: Seq<VariableModel>, name: Seq<char>)
    requires
        lookup(variables, name) is Some,
    ensures
        taken(variables, lookup(variables, name)->Some_0),
    decreases variables.len(),
{
    if variables.last().source_name == name {
        assert(variables[variables.len() - 1].target_name == lookup(variables, name)->Some_0);
    } else {
        lemma_lookup_is_taken(variables.drop_last(), name);
        let found = lookup(variables, name)->Some_0;
        let i = choose|i: int|
            0 <= i < variables.drop_last().len() && (#[trigger] variables.drop_last()[i]).target_name
                == found;
        assert(variables[i].target_name == found);
    }
}

/// What a name resolves to is the target name of a declared variable: a
/// lowered reference never holds a name that no scope has given out.
pub proof fn lemma_resolve_is_declared(scopes: Seq<ScopeModel>, name: Seq<char>)
    requires
        resolve(scopes, name) is Some,
    ensures
        declared_target(scopes, resolve(scopes, name)->Some_0),
    decreases scopes.len(),
{
    let found = resolve(scopes, name)->Some_0;
    if lookup(scopes.last().variables, name) is Some {
        lemma_lookup_is_taken(scopes.last().variables, name);
        assert(taken(scopes[scopes.len() - 1].variables, found));
    } else {
        lemma_resolve_is_declared(scopes.drop_last(), name);
        let k = choose|k: int|
            0 <= k < scopes.drop_last().len() && taken(
                (#[trigger] scopes.drop_last()[k]).variables,
                found,
            );
        assert(taken(scopes[k].variables, found));
    }
}

/// In a scope that declares every variable under itself, a lookup finds the
/// name that it looks for, or nothing; it finds the name where a variable
/// has it.
proof fn lemma_lookup_in_mirror(variables: Seq<VariableModel>, name: Seq<char>)
    requires
        forall|i: int|
            0 <= i < variables.len() ==> (#[trigger] variables[i]).source_name
                == variables[i].target_name,
    ensures
        lookup(variables, name) is Some ==> lookup(variables, name) == Some(name),
        taken(variables, name) ==> lookup(variables, name) == Some(name),
    decreases variables.len(),
{
    if variables.len() > 0 {
        let last = variables[variables.len() - 1];
        assert(last.source_name == last.target_name);
        let rest = variables.drop_last();
        assert forall|i: int| 0 <= i < rest.len() implies (#[trigger] rest[i]).source_name
            == rest[i].target_name by {
            assert(rest[i] == variables[i]);
        }
        lemma_lookup_in_mirror(rest, name);
        if taken(variables, name) && last.source_name != name {
            let i = choose|i: int|
                0 <= i < variables.len() && (#[trigger] variables[i]).target_name == name;
            assert(rest[i].target_name == name);
        }
    }
}

/// A target name of the first lowering resolves to itself in the second.
#[verifier::rlimit(30)]
proof fn lemma_resolve_in_mirror(scopes: Seq<ScopeModel>, again: Seq<ScopeModel>, name: Seq<char>)
    requires
        mirrors(scopes, again),
        declared_target(scopes, name),
    ensures
        resolve(again, name) == Some(name),
    decreases scopes.len(),
{
    let last = again.len() - 1;
    assert forall|i: int| 0 <= i < again[last].variables.len() implies (
    #[trigger] again[last].variables[i]).source_name == again[last].variables[i].target_name by {}
    lemma_lookup_in_mirror(again.last().variables, name);
    if lookup(again.last().variables, name) is None {
        let k = choose|k: int|
            0 <= k < scopes.len() && taken((#[trigger] scopes[k]).variables, name);
        if k == last {
            let i = choose|i: int|
                0 <= i < scopes[k].variables.len() && (#[trigger] scopes[k].variables[i]).target_name
                    == name;
            assert(again[k].variables[i].target_name == name);
            assert(taken(again[k].variables, name));
        }
        lemma_mirrors_outer(scopes, again);
        assert(taken(scopes.drop_last()[k].variables, name));
        lemma_resolve_in_mirror(scopes.drop_last(), again.drop_last(), name);
    }
}

/// The outer scopes of mirrored stacks mirror each other.
proof fn lemma_mirrors_outer(scopes: Seq<ScopeModel>, again: Seq<ScopeModel>)
    requires
        mirrors(scopes, again),
        scopes.len() >= 1,
    ensures
        mirrors(scopes.drop_last(), again.drop_last()),
{
    let outer = scopes.drop_last();
    let outer_again = again.drop_last();
    assert forall|k: int| 0 <= k < outer.len() implies (#[trigger] outer_again[k]).variables.len()
        == outer[k].variables.len() by {
        assert(outer_again[k] == again[k]);
    }
    assert forall|k: int, i: int|
        0 <= k < outer.len() && 0 <= i < outer[k].variables.len() implies {
        &&& (#[trigger] outer_again[k].variables[i]).source_name == outer[k].variables[i].target_name
        &&& outer_again[k].variables[i].target_name == outer[k].variables[i].target_name
    } by {
        assert(outer_again[k] == again[k]);
        assert(again[k].variables[i].target_name == scopes[k].variables[i].target_name);
    }
}

/// Mirrored stacks with a new empty scope each mirror each other.
proof fn lemma_mirrors_push(
    scopes: Seq<ScopeModel>,
    again: Seq<ScopeModel>,
    span: Span,
    at: Span,
)
    requires
        mirrors(scopes, again),
    ensures
        mirrors(scopes.push(empty_scope(span)), again.push(empty_scope(at))),
{
    let deeper = scopes.push(empty_scope(span));
    let deeper_again = again.push(empty_scope(at));
    assert forall|k: int| 0 <= k < deeper.len() implies (#[trigger] deeper_again[k]).variables.len()
        == deeper[k].variables.len() by {
        if k < scopes.len() {
            assert(deeper_again[k] == again[k]);
        }
    }
    assert forall|k: int, i: int|
        0 <= k < deeper.len() && 0 <= i < deeper[k].variables.len() implies {
        &&& (#[trigger] deeper_again[k].variables[i]).source_name
            == deeper[k].variables[i].target_name
        &&& deeper_again[k].variables[i].target_name == deeper[k].variables[i].target_name
    } by {
        assert(deeper_again[k] == again[k]);
        assert(again[k].variables[i].target_name == scopes[k].variables[i].target_name);
    }
}

/// A target expression, read as a source expression, holds no block and is
/// lowered to itself.
pub proof fn lemma_expr_is_stable(
    expr: ExprModel,
    scopes: Seq<ScopeModel>,
    again: Seq<ScopeModel>,
    at: Span,
)
    requires
        mirrors(scopes, again),
        lower_expr(expr, scopes) is Ok,
    ensures
        lower_expr(source_expr(lower_expr(expr, scopes)->Ok_0, at), again) == lower_expr(
            expr,
            scopes,
        ),
        !source_expr(lower_expr(expr, scopes)->Ok_0, at).contains_block(),
        !(source_expr(lower_expr(expr, scopes)->Ok_0, at) is Block),
    decreases expr,
{
    match expr {
        ExprModel::Parens(inner) => {
            lemma_expr_is_stable(*inner, scopes, again, at);
        },
        ExprModel::Var { name, name_span } => {
            lemma_resolve_is_declared(scopes, name);
            lemma_resolve_in_mirror(scopes, again, resolve(scopes, name)->Some_0);
        },
        ExprModel::Neg(inner) => {
            lemma_expr_is_stable(*inner, scopes, again, at);
        },
        ExprModel::Add(lhs, rhs) => {
            lemma_expr_is_stable(*lhs, scopes, again, at);
            lemma_expr_is_stable(*rhs, scopes, again, at);
        },
        ExprModel::Sub(lhs, rhs) => {
            lemma_expr_is_stable(*lhs, scopes, again, at);
            lemma_expr_is_stable(*rhs, scopes, again, at);
        },
        ExprModel::Mul(lhs, rhs) => {
            lemma_expr_is_stable(*lhs, scopes, again, at);
            lemma_expr_is_stable(*rhs, scopes, again, at);
        },
        ExprModel::Div(lhs, rhs) => {
            lemma_expr_is_stable(*lhs, scopes, again, at);
            lemma_expr_is_stable(*rhs, scopes, again, at);
        },
        _ => {},
    }
}

/// Mirrored stacks stay mirrored when the first declares `name` and the
/// second declares the target name that `name` got, which it gets again.
#[verifier::rlimit(30)]
proof fn lemma_declare_in_mirror(scopes: Seq<ScopeModel>, again: Seq<ScopeModel>, name: Seq<char>)
    requires
        well_formed(scopes),
        mirrors(scopes, again),
    ensures
        fresh_name(again.last().variables, fresh_name(scopes.last().variables, name))
            == fresh_name(scopes.last().variables, name),
        mirrors(
            declare(scopes, name),
            declare(again, fresh_name(scopes.last().variables, name)),
        ),
{
    let target = fresh_name(scopes.last().variables, name);
    let last = scopes.len() - 1;
    lemma_declare_well_formed(scopes, name);
    assert(!taken(again.last().variables, target)) by {
        if taken(again.last().variables, target) {
            let i = choose|i: int|
                0 <= i < again[last].variables.len() && (#[trigger] again[last].variables[i]).target_name
                    == target;
            assert(scopes[last].variables[i].target_name == target);
        }
    }
    let after = declare(scopes, name);
    let after_again = declare(again, target);
    assert forall|k: int| 0 <= k < after.len() implies (#[trigger] after_again[k]).variables.len()
        == after[k].variables.len() by {
        if k < last {
            assert(after_again[k] == again[k]);
        }
    }
    assert forall|k: int, i: int|
        0 <= k < after.len() && 0 <= i < after[k].variables.len() implies {
        &&& (#[trigger] after_again[k].variables[i]).source_name
            == after[k].variables[i].target_name
        &&& after_again[k].variables[i].target_name == after[k].variables[i].target_name
    } by {
        if k < last || i < scopes[last].variables.len() {
            assert(after_again[k].variables[i] == again[k].variables[i]);
            assert(again[k].variables[i].target_name == scopes[k].variables[i].target_name);
        }
    }
}

/// A target binding, read as a source binding, is lowered to itself.
pub proof fn lemma_let_is_stable(
    binding: LetModel,
    scopes: Seq<ScopeModel>,
    again: Seq<ScopeModel>,
    at: Span,
)
    requires
        well_formed(scopes),
        mirrors(scopes, again),
        lower_let(binding, scopes).0 is Ok,
    ensures
        lower_stmt(source_stmt(js::StmtModel::Let(lower_let(binding, scopes).0->Ok_0), at), again).0
            == Ok::<_, DiagnosticModel>(js::StmtModel::Let(lower_let(binding, scopes).0->Ok_0)),
        mirrors(
            lower_let(binding, scopes).1,
            lower_stmt(
                source_stmt(js::StmtModel::Let(lower_let(binding, scopes).0->Ok_0), at),
                again,
            ).1,
        ),
{
    lemma_expr_is_stable(binding.rhs, scopes, again, at);
    lemma_declare_in_mirror(scopes, again, binding.name);
}

/// A target statement, read as a source statement, is lowered to itself, and
/// the scopes of the two lowerings stay mirrored.
#[verifier::rlimit(30)]
pub proof fn lemma_stmt_is_stable(
    stmt: StmtModel,
    scopes: Seq<ScopeModel>,
    again: Seq<ScopeModel>,
    at: Span,
)
    requires
        well_formed(scopes),
        mirrors(scopes, again),
        lower_stmt(stmt, scopes).0 is Ok,
    ensures
        lower_stmt(source_stmt(lower_stmt(stmt, scopes).0->Ok_0, at), again).0 == lower_stmt(
            stmt,
            scopes,
        ).0,
        mirrors(
            lower_stmt(stmt, scopes).1,
            lower_stmt(source_stmt(lower_stmt(stmt, scopes).0->Ok_0, at), again).1,
        ),
    decreases stmt, 0int,
{
    match stmt {
        StmtModel::Let(binding) => {
            lemma_let_is_stable(binding, scopes, again, at);
        },
        StmtModel::Expr(ExprModel::Block(block)) => {
            let inner = scopes.push(empty_scope(block.span));
            let inner_again = again.push(empty_scope(at));
            lemma_mirrors_push(scopes, again, block.span, at);
            assert(well_formed(inner)) by {
                assert forall|k: int| 0 <= k < inner.len() implies distinct_targets(
                    (#[trigger] inner[k]).variables,
                ) by {
                    if k < scopes.len() {
                        assert(inner[k] == scopes[k]);
                    }
                }
            }
            lemma_stmts_are_stable(block.stmts, Seq::empty(), Seq::empty(), inner, inner_again, at);
            let lowered = lower_stmts(block.stmts, Seq::empty(), inner).0->Ok_0;
            assert(lowered.skip(0) =~= lowered);
            assert(Seq::<js::StmtModel>::empty() + lowered =~= lowered);
        },
        StmtModel::Expr(expr) => {
            lemma_expr_is_stable(expr, scopes, again, at);
        },
    }
}

/// Target statements, read as source statements, are lowered to themselves:
/// what the first lowering adds to `done` is what the second adds to `done2`.
#[verifier::rlimit(30)]
pub proof fn lemma_stmts_are_stable(
    stmts: Seq<StmtModel>,
    done: Seq<js::StmtModel>,
    done2: Seq<js::StmtModel>,
    scopes: Seq<ScopeModel>,
    again: Seq<ScopeModel>,
    at: Span,
)
    requires
        well_formed(scopes),
        mirrors(scopes, again),
        lower_stmts(stmts, done, scopes).0 is Ok,
    ensures
        ({
            let first = lower_stmts(stmts, done, scopes);
            let added = first.0->Ok_0.skip(done.len() as int);
            let second = lower_stmts(source_stmts(added, at), done2, again);
            &&& first.0->Ok_0.len() == done.len() + stmts.len()
            &&& first.0->Ok_0.take(done.len() as int) == done
            &&& second.0 == Ok::<_, DiagnosticModel>(done2 + added)
            &&& mirrors(first.1, second.1)
        }),
    decreases stmts, 1int,
{
    let first = lower_stmts(stmts, done, scopes);
    let out = first.0->Ok_0;
    let added = out.skip(done.len() as int);
    if stmts.len() == 0 {
        assert(out.take(done.len() as int) =~= done);
        assert(added =~= Seq::<js::StmtModel>::empty());
        assert(source_stmts(added, at).len() == 0);
        assert(done2 + added =~= done2);
    } else {
        let (head, after) = lower_stmt(stmts.first(), scopes);
        let lowered = head->Ok_0;
        lemma_stmt_is_stable(stmts.first(), scopes, again, at);
        let (head_again, after_again) = lower_stmt(source_stmt(lowered, at), again);
        lemma_lower_stmts_well_formed(
            seq![stmts.first()],
            Seq::empty(),
            scopes,
        );
        assert(well_formed(after)) by {
            let one = seq![stmts.first()];
            assert(one.first() == stmts.first());
            assert(one.drop_first() =~= Seq::<StmtModel>::empty());
            assert(lower_stmts(one.drop_first(), Seq::empty().push(lowered), after).1 == after);
            assert(lower_stmts(one, Seq::empty(), scopes).1 == after);
        }
        lemma_stmts_are_stable(
            stmts.drop_first(),
            done.push(lowered),
            done2.push(lowered),
            after,
            after_again,
            at,
        );
        let at_head = done.len() as int;
        let rest_added = out.skip(at_head + 1);
        assert(out.take(at_head) =~= out.take(at_head + 1).take(at_head));
        assert(out.take(at_head) =~= done);
        assert(out[at_head] == out.take(at_head + 1)[at_head]);
        assert(added.first() == lowered);
        assert(added.drop_first() =~= rest_added);
        let sources = source_stmts(added, at);
        assert(sources.first() == source_stmt(lowered, at));
        assert(sources.drop_first() =~= source_stmts(rest_added, at));
        assert(done2.push(lowered) + rest_added =~= done2 + added);
    }
}

/// Round-trip stability: where a block is lowered to a target block, that
/// target block, read again as a source block, is lowered to itself. Every
/// name of the target program resolves to itself, and every declaration gets
/// the name that it has: a second lowering changes nothing.
pub proof fn lemma_lowering_is_stable(
    block: BlockModel,
    scopes: Seq<ScopeModel>,
    again: Seq<ScopeModel>,
    at: Span,
)
    requires
        well_formed(scopes),
        mirrors(scopes, again),
        lower_block(block, scopes).0 is Ok,
    ensures
        lower_block(source_block(lower_block(block, scopes).0->Ok_0, at), again).0 == lower_block(
            block,
            scopes,
        ).0,
        mirrors(
            lower_block(block, scopes).1,
            lower_block(source_block(lower_block(block, scopes).0->Ok_0, at), again).1,
        ),
{
    lemma_stmts_are_stable(block.stmts, Seq::empty(), Seq::empty(), scopes, again, at);
    let lowered = lower_stmts(block.stmts, Seq::empty(), scopes).0->Ok_0;
    assert(lowered.skip(0) =~= lowered);
    assert(Seq::<js::StmtModel>::empty() + lowered =~= lowered);
}

/// Round-trip stability of a whole program: the target program of a unit,
/// read again as a source program and lowered from the start, gives the same
/// target program.
pub proof fn lemma_program_is_stable(block: BlockModel, span: Span, at: Span)
    requires
        lower_block(block, seq![empty_scope(span)]).0 is Ok,
    ensures
        lower_block(
            source_block(lower_block(block, seq![empty_scope(span)]).0->Ok_0, at),
            seq![empty_scope(at)],
        ).0 == lower_block(block, seq![empty_scope(span)]).0,
{
    let scopes = seq![empty_scope(span)];
    let again = seq![empty_scope(at)];
    assert(well_formed(scopes));
    assert(mirrors(scopes, again));
    lemma_lowering_is_stable(block, scopes, again, at);
}

} // verus!
