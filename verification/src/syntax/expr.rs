use vstd::prelude::*;

use crate::syntax::block::{Block, BlockModel};
use crate::syntax::ident::{is_identifier, Ident};
use crate::syntax::span::Span;

verus! {

/// An expression of the source language.
#[derive(Debug, PartialEq, Eq)]
#[allow(inconsistent_fields)]
pub enum Expr<'a> {
    /// An integer literal.
    Int(i32),
    /// A parenthesized expression.
    Parens(Box<Expr<'a>>),
    /// A reference to a variable, with the span of the name.
    Var { name: Ident<'a>, name_span: Span },
    /// Unary negation.
    Neg(Box<Expr<'a>>),
    Add(Box<Expr<'a>>, Box<Expr<'a>>),
    Sub(Box<Expr<'a>>, Box<Expr<'a>>),
    Mul(Box<Expr<'a>>, Box<Expr<'a>>),
    Div(Box<Expr<'a>>, Box<Expr<'a>>),
    /// A call of a function by name. The grammar has no form for it yet.
    Call(String, Vec<Expr<'a>>),
    /// A function declaration followed by the expression that it is visible
    /// in. The grammar has no form for it yet.
    Fn { name: &'a str, args: Vec<String>, body: Box<Expr<'a>>, then: Box<Expr<'a>> },
    /// A block in expression position.
    Block(Block<'a>),
}

/// The mathematical model of an [`Expr`]: names are character sequences,
/// literals are integers and argument lists are sequences.
#[allow(inconsistent_fields)]
pub enum ExprModel {
    Int(int),
    Parens(Box<ExprModel>),
    Var { name: Seq<char>, name_span: Span },
    Neg(Box<ExprModel>),
    Add(Box<ExprModel>, Box<ExprModel>),
    Sub(Box<ExprModel>, Box<ExprModel>),
    Mul(Box<ExprModel>, Box<ExprModel>),
    Div(Box<ExprModel>, Box<ExprModel>),
    Call(Seq<char>, Seq<ExprModel>),
    Fn { name: Seq<char>, args: Seq<Seq<char>>, body: Box<ExprModel>, then: Box<ExprModel> },
    Block(BlockModel),
}

impl ExprModel {
    /// True when a block occurs anywhere inside the expression.
    pub open spec fn contains_block(self) -> bool
        decreases self,
    {
        match self {
            ExprModel::Int(_) => false,
            ExprModel::Parens(inner) => inner.contains_block(),
            ExprModel::Var { .. } => false,
            ExprModel::Neg(inner) => inner.contains_block(),
            ExprModel::Add(lhs, rhs) => lhs.contains_block() || rhs.contains_block(),
            ExprModel::Sub(lhs, rhs) => lhs.contains_block() || rhs.contains_block(),
            ExprModel::Mul(lhs, rhs) => lhs.contains_block() || rhs.contains_block(),
            ExprModel::Div(lhs, rhs) => lhs.contains_block() || rhs.contains_block(),
            ExprModel::Call(_, args) => exists|i: int|
                0 <= i < args.len() && (#[trigger] args[i]).contains_block(),
            ExprModel::Fn { body, then, .. } => body.contains_block() || then.contains_block(),
            ExprModel::Block(_) => true,
        }
    }
}

impl ExprModel {
    /// True when the expression is what a parse can yield inside `outer`:
    /// every name is an identifier, the span of every reference and of every
    /// block lies in `outer`, and what a block holds lies in the span of
    /// that block.
    pub open spec fn tidy(self, outer: Span) -> bool
        decreases self,
    {
        match self {
            ExprModel::Int(_) => true,
            ExprModel::Parens(inner) => inner.tidy(outer),
            ExprModel::Var { name, name_span } => is_identifier(name) && name_span.inside(outer),
            ExprModel::Neg(inner) => inner.tidy(outer),
            ExprModel::Add(lhs, rhs) => lhs.tidy(outer) && rhs.tidy(outer),
            ExprModel::Sub(lhs, rhs) => lhs.tidy(outer) && rhs.tidy(outer),
            ExprModel::Mul(lhs, rhs) => lhs.tidy(outer) && rhs.tidy(outer),
            ExprModel::Div(lhs, rhs) => lhs.tidy(outer) && rhs.tidy(outer),
            ExprModel::Call(_, args) => forall|i: int|
                0 <= i < args.len() ==> (#[trigger] args[i]).tidy(outer),
            ExprModel::Fn { body, then, .. } => body.tidy(outer) && then.tidy(outer),
            ExprModel::Block(block) => block.tidy(outer),
        }
    }
}

impl<'a> Expr<'a> {
    /// The model of the expression.
    pub open spec fn model(&self) -> ExprModel
        decreases self,
    {
        match self {
            Expr::Int(n) => ExprModel::Int(*n as int),
            Expr::Parens(inner) => ExprModel::Parens(Box::new(inner.model())),
            Expr::Var { name, name_span } => ExprModel::Var { name: name@, name_span: *name_span },
            Expr::Neg(inner) => ExprModel::Neg(Box::new(inner.model())),
            Expr::Add(lhs, rhs) => ExprModel::Add(Box::new(lhs.model()), Box::new(rhs.model())),
            Expr::Sub(lhs, rhs) => ExprModel::Sub(Box::new(lhs.model()), Box::new(rhs.model())),
            Expr::Mul(lhs, rhs) => ExprModel::Mul(Box::new(lhs.model()), Box::new(rhs.model())),
            Expr::Div(lhs, rhs) => ExprModel::Div(Box::new(lhs.model()), Box::new(rhs.model())),
            Expr::Call(name, args) => ExprModel::Call(
                name@,
                Seq::new(
                    args@.len(),
                    |i: int|
                        if 0 <= i < args@.len() {
                            args@[i].model()
                        } else {
                            arbitrary()
                        },
                ),
            ),
            Expr::Fn { name, args, body, then } => ExprModel::Fn {
                name: name@,
                args: Seq::new(args@.len(), |i: int| args@[i]@),
                body: Box::new(body.model()),
                then: Box::new(then.model()),
            },
            Expr::Block(block) => ExprModel::Block(block.model()),
        }
    }
}

impl<'a> View for Expr<'a> {
    type V = ExprModel;

    open spec fn view(&self) -> ExprModel {
        self.model()
    }
}

impl<'a> Expr<'a> {
    /// Tells whether a block occurs anywhere inside the expression.
    pub fn contains_block(&self) -> (found: bool)
        ensures
            found == self@.contains_block(),
        decreases self,
    {
        match self {
            Expr::Int(_) => false,
            Expr::Parens(inner) => inner.contains_block(),
            Expr::Var { .. } => false,
            Expr::Neg(inner) => inner.contains_block(),
            Expr::Add(lhs, rhs) => lhs.contains_block() || rhs.contains_block(),
            Expr::Sub(lhs, rhs) => lhs.contains_block() || rhs.contains_block(),
            Expr::Mul(lhs, rhs) => lhs.contains_block() || rhs.contains_block(),
            Expr::Div(lhs, rhs) => lhs.contains_block() || rhs.contains_block(),
            Expr::Call(_, args) => {
                let mut i: usize = 0;
                while i < args.len()
                    invariant
                        i <= args.len(),
                        self@ is Call,
                        self@->Call_1.len() == args@.len(),
                        forall|k: int| 0 <= k < args@.len() ==> self@->Call_1[k] == (#[trigger] args@[k])@,
                        forall|k: int| 0 <= k < args@.len() ==> decreases_to!(self => #[trigger] args@[k]),
                        forall|k: int| 0 <= k < i ==> !(#[trigger] self@->Call_1[k]).contains_block(),
                    decreases args.len() - i,
                {
                    if args[i].contains_block() {
                        return true;
                    }
                    i += 1;
                }
                false
            },
            Expr::Fn { body, then, .. } => body.contains_block() || then.contains_block(),
            Expr::Block(_) => true,
        }
    }

    /// Moves the expression to the heap.
    pub fn boxed(self) -> (b: Box<Self>)
        ensures
            *b == self,
    {
        Box::new(self)
    }
}

} // verus!
