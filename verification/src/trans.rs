//! The resolver: it lowers a source tree to a target tree, and gives every
//! variable the target name of the declaration that is visible where the
//! variable is used.
//!
//! [`scopes`] and [`lowering`] state over the models what every step yields.
//! [`Trans`] holds the scope stack and computes it.

pub mod lowering;
pub mod scopes;
pub mod stability;

use std::borrow::Cow;
use vstd::prelude::*;
use vstd::string::StringExecFns;

use crate::js;
use crate::report::{undeclared_variable, unsupported, Diagnostic, DiagnosticKind, DiagnosticModel};
use crate::syntax::block::{models, Block};
use crate::syntax::expr::Expr;
use crate::syntax::let_stmt::Let;
use crate::syntax::span::Span;
use crate::syntax::stmt::Stmt;
use crate::text::{same, write_decimal};
use crate::trans::lowering::{
    lemma_lower_stmts_same_outer, lower_block, lower_expr, lower_let, lower_stmt, lower_stmts,
    same_outer, Lowered,
};
use crate::trans::scopes::{
    declare, declare_in, empty_scope, fresh_name, is_first_free_suffix,
    lemma_declare_distinct, lemma_first_free_suffix_unique, lemma_taken_suffixes_bound, lookup,
    resolve, suffixed, taken, well_formed, ScopeModel, VariableModel,
};

verus! {

/// A declared variable.
#[derive(Debug)]
pub struct Variable {
    jester_name: String,
    js_name: String,
}

impl View for Variable {
    type V = VariableModel;

    closed spec fn view(&self) -> VariableModel {
        VariableModel { source_name: self.jester_name@, target_name: self.js_name@ }
    }
}

/// The variables that one block has declared so far.
#[derive(Debug)]
pub struct Scope {
    variables: Vec<Variable>,
    span: Span,
}

impl View for Scope {
    type V = ScopeModel;

    closed spec fn view(&self) -> ScopeModel {
        ScopeModel {
            variables: Seq::new(self.variables@.len(), |i: int| self.variables@[i]@),
            span: self.span,
        }
    }
}

impl Scope {
    /// The scope of the block at `span`, with nothing declared.
    pub fn new(span: Span) -> (scope: Self)
        ensures
            scope@ == empty_scope(span),
    {
        let scope = Scope { variables: Vec::new(), span };
        proof {
            assert(scope@.variables =~= Seq::<VariableModel>::empty());
        }
        scope
    }

    /// The span of the block that owns the scope.
    pub fn span(&self) -> (span: Span)
        ensures
            span == self@.span,
    {
        self.span
    }

    /// Tells whether a variable of the scope has the target name `js_name`.
    pub fn has_js_variable(&self, js_name: &str) -> (found: bool)
        ensures
            found == taken(self@.variables, js_name@),
    {
        let mut i: usize = 0;
        while i < self.variables.len()
            invariant
                i <= self.variables@.len(),
                forall|k: int| 0 <= k < i ==> (#[trigger] self@.variables[k]).target_name != js_name@,
            decreases self.variables@.len() - i,
        {
            if same(self.variables[i].js_name.as_str(), js_name) {
                assert(self@.variables[i as int].target_name == js_name@);
                return true;
            }
            i += 1;
        }
        false
    }

    /// The target name of the variable that was declared last under the
    /// source name `jester_name`, if there is one.
    pub fn lookup_variable(&self, jester_name: &str) -> (found: Option<&str>)
        ensures
            match found {
                Some(target) => lookup(self@.variables, jester_name@) == Some(target@),
                None => lookup(self@.variables, jester_name@) is None,
            },
    {
        let mut i: usize = self.variables.len();
        proof {
            assert(self@.variables.take(i as int) =~= self@.variables);
        }
        while i > 0
            invariant
                i <= self.variables@.len(),
                lookup(self@.variables.take(i as int), jester_name@) == lookup(
                    self@.variables,
                    jester_name@,
                ),
            decreases i,
        {
            i -= 1;
            proof {
                let upto = self@.variables.take(i + 1);
                assert(upto.drop_last() =~= self@.variables.take(i as int));
                assert(upto.last() == self.variables@[i as int]@);
            }
            if same(self.variables[i].jester_name.as_str(), jester_name) {
                return Some(self.variables[i].js_name.as_str());
            }
        }
        proof {
            assert(self@.variables.take(0).len() == 0);
        }
        None
    }

    /// Declares a variable with the source name `jester_name`, and returns
    /// the target name that it gets: `jester_name` itself where no variable
    /// of the scope has that target name, else `jester_name` with the first
    /// free suffix among `__2`, `__3` and so on.
    pub fn declare_variable<'a>(&mut self, jester_name: &'a str) -> (js_name: Cow<'a, str>)
        ensures
            js_name@ == fresh_name(old(self)@.variables, jester_name@),
            final(self)@ == declare_in(old(self)@, jester_name@),
    {
        if !self.has_js_variable(jester_name) {
            self.declare_variable_unchecked(jester_name, jester_name);
            return Cow::Borrowed(jester_name);
        }
        let count = self.variables.len();
        let mut n: u128 = 2;
        loop
            invariant
                *self == *old(self),
                count == self@.variables.len(),
                n >= 2,
                taken(self@.variables, jester_name@),
                forall|m: nat| 2 <= m < n ==> taken(self@.variables, #[trigger] suffixed(jester_name@, m)),
            decreases self@.variables.len() + 2 - n,
        {
            proof {
                lemma_taken_suffixes_bound(self@.variables, jester_name@, n as nat);
            }
            let mut js_name = jester_name.to_owned();
            js_name.append("__");
            write_decimal(n, &mut js_name);
            proof {
                assert(js_name@ =~= suffixed(jester_name@, n as nat));
            }
            if !self.has_js_variable(js_name.as_str()) {
                proof {
                    assert(is_first_free_suffix(self@.variables, jester_name@, n as nat));
                    lemma_first_free_suffix_unique(self@.variables, jester_name@, n as nat);
                }
                self.declare_variable_unchecked(jester_name, js_name.as_str());
                return Cow::Owned(js_name);
            }
            proof {
                lemma_taken_suffixes_bound(self@.variables, jester_name@, (n + 1) as nat);
            }
            n += 1;
        }
    }

    /// Declares a variable with the source name `jester_name` and the target
    /// name `js_name`, whatever the scope holds.
    pub fn declare_variable_unchecked(&mut self, jester_name: &str, js_name: &str)
        ensures
            final(self)@.span == old(self)@.span,
            final(self)@.variables == old(self)@.variables.push(
                VariableModel { source_name: jester_name@, target_name: js_name@ },
            ),
    {
        self.variables.push(
            Variable { jester_name: jester_name.to_owned(), js_name: js_name.to_owned() },
        );
        proof {
            assert(final(self)@.variables =~= old(self)@.variables.push(
                VariableModel { source_name: jester_name@, target_name: js_name@ },
            ));
        }
    }
}

/// The scope stack of a lowering in progress. It always holds a scope, and
/// no scope holds one target name twice.
pub struct Trans {
    scopes: Vec<Scope>,
}

impl View for Trans {
    type V = Seq<ScopeModel>;

    closed spec fn view(&self) -> Seq<ScopeModel> {
        Seq::new(self.scopes@.len(), |i: int| self.scopes@[i]@)
    }
}

/// True when `r` is what lowering yields: the same target tree, in its
/// model, or the same diagnostic.
pub open spec fn lowered<T: View>(r: Result<T, Diagnostic>, rule: Lowered<T::V>) -> bool {
    match r {
        Ok(tree) => rule == Ok::<T::V, DiagnosticModel>(tree@),
        Err(d) => rule == Err::<T::V, DiagnosticModel>(d@),
    }
}

impl Trans {
    /// True when the stack holds a scope and no scope holds one target name
    /// twice. [`Trans::new`] makes such a stack and every method keeps it so.
    pub open spec fn wf(&self) -> bool {
        well_formed(self@)
    }

    /// The scope stack for a unit at `span`: the scope of its top-level
    /// block, with nothing declared.
    pub fn new(span: Span) -> (trans: Self)
        ensures
            trans@ == seq![empty_scope(span)],
            trans.wf(),
    {
        let mut scopes = Vec::new();
        scopes.push(Scope::new(span));
        let trans = Trans { scopes };
        proof {
            assert(trans@ =~= seq![empty_scope(span)]);
        }
        trans
    }

    /// The innermost scope, to declare in.
    fn last_scope_mut(&mut self) -> (scope: &mut Scope)
        requires
            old(self).wf(),
        ensures
            *scope == old(self).scopes@.last(),
            final(self).scopes@ == old(self).scopes@.update(
                old(self).scopes@.len() - 1,
                *final(scope),
            ),
    {
        let last = self.scopes.len() - 1;
        &mut self.scopes[last]
    }

    /// Declares a variable in the innermost scope, and returns its target
    /// name. This never fails: a name that is taken gets a suffix.
    pub fn declare_variable<'a>(&mut self, jester_name: &'a str) -> (js_name: Cow<'a, str>)
        requires
            old(self).wf(),
        ensures
            js_name@ == fresh_name(old(self)@.last().variables, jester_name@),
            final(self)@ == declare(old(self)@, jester_name@),
            final(self).wf(),
    {
        let js_name = self.last_scope_mut().declare_variable(jester_name);
        proof {
            lemma_declare_distinct(old(self)@.last(), jester_name@);
            assert(self@ =~= declare(old(self)@, jester_name@));
        }
        js_name
    }

    /// The target name that `jester_name` resolves to: the innermost scope
    /// that declares it decides, and in that scope the last declaration.
    pub fn resolve_variable(&self, jester_name: &str) -> (found: Option<&str>)
        ensures
            match found {
                Some(target) => resolve(self@, jester_name@) == Some(target@),
                None => resolve(self@, jester_name@) is None,
            },
    {
        let mut i: usize = self.scopes.len();
        proof {
            assert(self@.take(i as int) =~= self@);
        }
        while i > 0
            invariant
                i <= self.scopes@.len(),
                resolve(self@.take(i as int), jester_name@) == resolve(self@, jester_name@),
            decreases i,
        {
            i -= 1;
            proof {
                let upto = self@.take(i + 1);
                assert(upto.drop_last() =~= self@.take(i as int));
                assert(upto.last() == self.scopes@[i as int]@);
            }
            match self.scopes[i].lookup_variable(jester_name) {
                Some(target) => {
                    return Some(target);
                },
                None => {},
            }
        }
        proof {
            assert(self@.take(0).len() == 0);
        }
        None
    }

    /// The span of the block whose scope is the innermost.
    fn scope_span(&self) -> (span: Span)
        requires
            self.wf(),
        ensures
            span == self@.last().span,
    {
        self.scopes[self.scopes.len() - 1].span()
    }

    /// Lowers an expression: every variable becomes the target name that it
    /// resolves to. The first variable, from left to right, that no scope
    /// declares ends the lowering, and so does a block, a call or a function.
    pub fn trans_expr<'a>(&self, expr: &'a Expr<'_>) -> (r: Result<js::Expr<'a>, Diagnostic>)
        requires
            self.wf(),
        ensures
            lowered(r, lower_expr(expr@, self@)),
        decreases expr,
    {
        match expr {
            Expr::Int(n) => Ok(js::Expr::Number(*n as i64)),
            Expr::Parens(inner) => match self.trans_expr(inner) {
                Ok(inner) => Ok(js::Expr::Parens(Box::new(inner))),
                Err(d) => Err(d),
            },
            Expr::Var { name, name_span } => match self.resolve_variable(name.as_str()) {
                Some(target) => Ok(js::Expr::Var(Cow::Owned(target.to_owned()))),
                None => Err(undeclared_variable(name.as_str(), name_span)),
            },
            Expr::Neg(inner) => match self.trans_expr(inner) {
                Ok(inner) => Ok(js::Expr::Neg(Box::new(inner))),
                Err(d) => Err(d),
            },
            Expr::Add(lhs, rhs) => {
                let lhs = match self.trans_expr(lhs) {
                    Ok(lhs) => lhs,
                    Err(d) => { return Err(d); },
                };
                match self.trans_expr(rhs) {
                    Ok(rhs) => Ok(js::Expr::Add(Box::new(lhs), Box::new(rhs))),
                    Err(d) => Err(d),
                }
            },
            Expr::Sub(lhs, rhs) => {
                let lhs = match self.trans_expr(lhs) {
                    Ok(lhs) => lhs,
                    Err(d) => { return Err(d); },
                };
                match self.trans_expr(rhs) {
                    Ok(rhs) => Ok(js::Expr::Sub(Box::new(lhs), Box::new(rhs))),
                    Err(d) => Err(d),
                }
            },
            Expr::Mul(lhs, rhs) => {
                let lhs = match self.trans_expr(lhs) {
                    Ok(lhs) => lhs,
                    Err(d) => { return Err(d); },
                };
                match self.trans_expr(rhs) {
                    Ok(rhs) => Ok(js::Expr::Mul(Box::new(lhs), Box::new(rhs))),
                    Err(d) => Err(d),
                }
            },
            Expr::Div(lhs, rhs) => {
                let lhs = match self.trans_expr(lhs) {
                    Ok(lhs) => lhs,
                    Err(d) => { return Err(d); },
                };
                match self.trans_expr(rhs) {
                    Ok(rhs) => Ok(js::Expr::Div(Box::new(lhs), Box::new(rhs))),
                    Err(d) => Err(d),
                }
            },
            Expr::Call(_, _) => Err(unsupported(DiagnosticKind::FunctionCall, self.scope_span())),
            Expr::Fn { .. } => Err(
                unsupported(DiagnosticKind::FunctionDeclaration, self.scope_span()),
            ),
            Expr::Block(block) => {
                assert(block@.span == block.span);
                Err(unsupported(DiagnosticKind::BlockInExpression, block.span))
            },
        }
    }

    /// Lowers a binding: first the initializer, in the scopes as they are,
    /// then the declaration of the name in the innermost scope. A binding
    /// whose initializer holds a block is refused, and nothing is declared
    /// where the binding cannot be lowered.
    pub fn trans_let<'a>(&mut self, binding: &'a Let<'_>) -> (r: Result<js::Let<'a>, Diagnostic>)
        requires
            old(self).wf(),
        ensures
            lowered(r, lower_let(binding@, old(self)@).0),
            final(self)@ == lower_let(binding@, old(self)@).1,
            final(self).wf(),
    {
        if binding.rhs.contains_block() {
            return Err(unsupported(DiagnosticKind::BlockInLet, self.scope_span()));
        }
        let rhs = match self.trans_expr(&binding.rhs) {
            Ok(rhs) => rhs,
            Err(d) => { return Err(d); },
        };
        let name = self.declare_variable(binding.name.as_str());
        Ok(js::Let { name, rhs: Box::new(rhs) })
    }

    /// Lowers a statement. A block that is a statement of its own gets a new
    /// scope, which is gone when the block has been lowered, and also when it
    /// could not be.
    #[verifier::rlimit(30)]
    pub fn trans_stmt<'a>(&mut self, stmt: &'a Stmt<'_>) -> (r: Result<js::Stmt<'a>, Diagnostic>)
        requires
            old(self).wf(),
        ensures
            lowered(r, lower_stmt(stmt@, old(self)@).0),
            final(self)@ == lower_stmt(stmt@, old(self)@).1,
            final(self).wf(),
        decreases stmt,
    {
        match stmt {
            Stmt::Let(binding) => match self.trans_let(binding) {
                Ok(lowered) => Ok(js::Stmt::Let(lowered)),
                Err(d) => Err(d),
            },
            Stmt::Expr(Expr::Block(block)) => {
                let ghost outer = self@;
                self.scopes.push(Scope::new(block.span));
                proof {
                    assert(block@.span == block.span);
                    assert(block@.stmts =~= models(block.stmts@));
                    assert(self@ =~= outer.push(empty_scope(block.span)));
                    assert(self@.drop_last() =~= outer);
                    lemma_lower_stmts_same_outer(block@.stmts, Seq::empty(), self@);
                }
                let inner = self.trans_stmts(&block.stmts);
                self.scopes.pop();
                proof {
                    assert(self@ =~= outer);
                }
                match inner {
                    Ok(stmts) => {
                        let lowered = js::Block { stmts };
                        proof {
                            assert(lowered@.stmts =~= js::block::models(lowered.stmts@));
                        }
                        Ok(js::Stmt::Block(lowered))
                    },
                    Err(d) => Err(d),
                }
            },
            Stmt::Expr(expr) => match self.trans_expr(expr) {
                Ok(lowered) => Ok(js::Stmt::Expr(lowered)),
                Err(d) => Err(d),
            },
        }
    }

    /// Lowers statements in their order, each in the scopes that the ones
    /// before it left. The first diagnostic ends the lowering.
    #[verifier::rlimit(30)]
    pub fn trans_stmts<'a>(&mut self, stmts: &'a Vec<Stmt<'_>>) -> (r: Result<
        Vec<js::Stmt<'a>>,
        Diagnostic,
    >)
        requires
            old(self).wf(),
        ensures
            match r {
                Ok(lowered) => lower_stmts(models(stmts@), Seq::empty(), old(self)@).0 == Ok::<
                    _,
                    DiagnosticModel,
                >(js::block::models(lowered@)),
                Err(d) => lower_stmts(models(stmts@), Seq::empty(), old(self)@).0 == Err::<
                    Seq<js::StmtModel>,
                    _,
                >(d@),
            },
            final(self)@ == lower_stmts(models(stmts@), Seq::empty(), old(self)@).1,
            final(self).wf(),
        decreases stmts,
    {
        let mut done: Vec<js::Stmt<'a>> = Vec::new();
        let mut i: usize = 0;
        proof {
            assert(models(stmts@).skip(0) =~= models(stmts@));
            assert(js::block::models(done@) =~= Seq::<js::StmtModel>::empty());
        }
        while i < stmts.len()
            invariant
                i <= stmts@.len(),
                self.wf(),
                lower_stmts(models(stmts@).skip(i as int), js::block::models(done@), self@)
                    == lower_stmts(models(stmts@), Seq::empty(), old(self)@),
            decreases stmts@.len() - i,
        {
            let ghost rest = models(stmts@).skip(i as int);
            let ghost before = js::block::models(done@);
            proof {
                assert(rest.first() == stmts@[i as int]@);
                assert(rest.drop_first() =~= models(stmts@).skip(i + 1));
            }
            match self.trans_stmt(&stmts[i]) {
                Ok(lowered) => {
                    done.push(lowered);
                    proof {
                        assert(js::block::models(done@) =~= before.push(lowered@));
                    }
                },
                Err(d) => {
                    return Err(d);
                },
            }
            i += 1;
        }
        proof {
            assert(models(stmts@).skip(i as int).len() == 0);
        }
        Ok(done)
    }

    /// Lowers a block in the innermost scope: its statements in their order,
    /// up to the first that cannot be lowered. Whatever the outcome, the
    /// stack has as many scopes afterwards as before, and only the innermost
    /// one may hold more declarations.
    pub fn trans_block<'a>(&mut self, block: &'a Block<'_>) -> (r: Result<
        js::Block<'a>,
        Diagnostic,
    >)
        requires
            old(self).wf(),
        ensures
            lowered(r, lower_block(block@, old(self)@).0),
            final(self)@ == lower_block(block@, old(self)@).1,
            same_outer(old(self)@, final(self)@),
            final(self).wf(),
    {
        proof {
            assert(block@.stmts =~= models(block.stmts@));
            lemma_lower_stmts_same_outer(block@.stmts, Seq::empty(), self@);
        }
        match self.trans_stmts(&block.stmts) {
            Ok(stmts) => {
                let lowered = js::Block { stmts };
                proof {
                    assert(lowered@.stmts =~= js::block::models(lowered.stmts@));
                }
                Ok(lowered)
            },
            Err(d) => Err(d),
        }
    }
}

} // verus!
