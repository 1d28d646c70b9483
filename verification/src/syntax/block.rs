use vstd::prelude::*;

use crate::syntax::span::Span;
use crate::syntax::stmt::{Stmt, StmtModel};

verus! {

/// A sequence of statements between braces, in the order in which they were
/// written, with the span from the opening to the closing brace.
#[derive(Debug, PartialEq, Eq)]
pub struct Block<'a> {
    pub stmts: Vec<Stmt<'a>>,
    pub span: Span,
}

/// The mathematical model of a [`Block`].
pub struct BlockModel {
    pub stmts: Seq<StmtModel>,
    pub span: Span,
}

impl BlockModel {
    /// True when the span of the block lies in `outer` and every statement
    /// is tidy inside the span of the block.
    pub open spec fn tidy(self, outer: Span) -> bool
        decreases self,
    {
        &&& self.span.inside(outer)
        &&& forall|i: int| 0 <= i < self.stmts.len() ==> (#[trigger] self.stmts[i]).tidy(self.span)
    }
}

impl<'a> Block<'a> {
    /// The model of the block.
    pub open spec fn model(&self) -> BlockModel
        decreases self,
    {
        BlockModel {
            stmts: Seq::new(
                self.stmts@.len(),
                |i: int|
                    if 0 <= i < self.stmts@.len() {
                        self.stmts@[i].model()
                    } else {
                        arbitrary()
                    },
            ),
            span: self.span,
        }
    }
}

/// The models of the statements, in their order.
pub open spec fn models<'a>(stmts: Seq<Stmt<'a>>) -> Seq<StmtModel> {
    Seq::new(stmts.len(), |i: int| stmts[i].model())
}

impl<'a> View for Block<'a> {
    type V = BlockModel;

    open spec fn view(&self) -> BlockModel {
        self.model()
    }
}

} // verus!
