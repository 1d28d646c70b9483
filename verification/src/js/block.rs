use vstd::prelude::*;
use vstd::string::StringExecFns;

use crate::js::display::{margin, Display};
use crate::js::layout::{block_text, deeper, indentation, stmts_text};
use crate::js::stmt::{write_stmt, Stmt, StmtModel};

verus! {

/// A sequence of statements between braces.
#[derive(Debug, PartialEq, Eq)]
pub struct Block<'a> {
    pub stmts: Vec<Stmt<'a>>,
}

/// The mathematical model of a [`Block`].
pub struct BlockModel {
    pub stmts: Seq<StmtModel>,
}

impl<'a> Block<'a> {
    /// The model of the block.
    pub open spec fn model(&self) -> BlockModel
        decreases self,
    {
        BlockModel {
            stmts: Seq::new(
                self.stmts@.len(),
                |i: int|
                    if 0 <= i < self.stmts@.len() {
                        self.stmts@[i].model()
                    } else {
                        arbitrary()
                    },
            ),
        }
    }
}

impl<'a> View for Block<'a> {
    type V = BlockModel;

    open spec fn view(&self) -> BlockModel {
        self.model()
    }
}

/// The models of the statements, in their order.
pub open spec fn models<'a>(stmts: Seq<Stmt<'a>>) -> Seq<StmtModel> {
    Seq::new(stmts.len(), |i: int| stmts[i].model())
}

/// Appends the lines of the statements to `out`, each after `margin`.
pub fn write_stmts(stmts: &Vec<Stmt<'_>>, margin: &str, out: &mut String)
    ensures
        final(out)@ == old(out)@ + stmts_text(models(stmts@), margin@),
    decreases stmts, 0int,
{
    let mut i: usize = 0;
    proof {
        assert(models(stmts@).take(0) =~= Seq::<StmtModel>::empty());
        assert(out@ =~= old(out)@ + stmts_text(models(stmts@).take(0), margin@));
    }
    while i < stmts.len()
        invariant
            i <= stmts@.len(),
            out@ == old(out)@ + stmts_text(models(stmts@).take(i as int), margin@),
        decreases stmts@.len() - i,
    {
        let ghost before = out@;
        write_stmt(&stmts[i], margin, out);
        i += 1;
        proof {
            let done = models(stmts@).take(i as int);
            assert(done.drop_last() =~= models(stmts@).take(i - 1));
            assert(done.last() == stmts@[i - 1].model());
            assert(out@ =~= old(out)@ + stmts_text(done, margin@));
        }
    }
    proof {
        assert(models(stmts@).take(i as int) =~= models(stmts@));
    }
}

/// Appends the lines of `block` to `out`, each after `margin`.
pub fn write_block(block: &Block<'_>, margin: &str, out: &mut String)
    ensures
        final(out)@ == old(out)@ + block_text(block@, margin@),
    decreases block, 1int,
{
    out.append(margin);
    out.append("{\n");
    let mut inner = margin.to_owned();
    inner.append("    ");
    write_stmts(&block.stmts, inner.as_str(), out);
    out.append(margin);
    out.append("}\n");
    proof {
        assert(block@.stmts =~= models(block.stmts@));
        assert(final(out)@ =~= old(out)@ + block_text(block@, margin@));
    }
}

impl<'a> Display<'a, Block<'a>> {
    /// Appends the lines of the block to `out`: its statements, one level
    /// deeper, between braces at this level.
    pub fn fmt(&self, out: &mut String)
        ensures
            final(out)@ == old(out)@ + block_text(self.value@, indentation(self.indent as nat)),
    {
        let margin = margin(self.indent);
        write_block(self.value, margin.as_str(), out);
    }
}

} // verus!
