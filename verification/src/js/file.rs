use vstd::prelude::*;

use crate::js::block::{models, write_stmts};
use crate::js::display::{margin, Display};
use crate::js::layout::{file_text, indentation};
use crate::js::stmt::{Stmt, StmtModel};

verus! {

/// The statements of a whole file of the target language.
#[derive(Debug, PartialEq, Eq)]
pub struct File<'a> {
    pub stmts: Vec<Stmt<'a>>,
}

/// The mathematical model of a [`File`].
pub struct FileModel {
    pub stmts: Seq<StmtModel>,
}

impl<'a> File<'a> {
    /// The model of the file.
    pub open spec fn model(&self) -> FileModel {
        FileModel { stmts: Seq::new(self.stmts@.len(), |i: int| self.stmts@[i].model()) }
    }
}

impl<'a> View for File<'a> {
    type V = FileModel;

    open spec fn view(&self) -> FileModel {
        self.model()
    }
}

impl<'a> Display<'a, File<'a>> {
    /// Appends the lines of the file to `out`: its statements at this level.
    pub fn fmt(&self, out: &mut String)
        ensures
            final(out)@ == old(out)@ + file_text(self.value@, indentation(self.indent as nat)),
    {
        let margin = margin(self.indent);
        write_stmts(&self.value.stmts, margin.as_str(), out);
        proof {
            assert(self.value@.stmts =~= models(self.value.stmts@));
        }
    }
}

} // verus!
