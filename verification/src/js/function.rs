use vstd::prelude::*;
use vstd::string::StringExecFns;

use crate::js::block::{write_block, Block, BlockModel};
use crate::js::display::{margin, Display};
use crate::js::layout::{args_text, fn_text, indentation};

verus! {

/// A function declaration of the target language.
#[derive(Debug, PartialEq, Eq)]
pub struct Fn<'a> {
    pub name: &'a str,
    pub args: Vec<&'a str>,
    pub body: Block<'a>,
}

/// The mathematical model of a [`Fn`].
pub struct FnModel {
    pub name: Seq<char>,
    pub args: Seq<Seq<char>>,
    pub body: BlockModel,
}

impl<'a> Fn<'a> {
    /// The model of the function.
    pub open spec fn model(&self) -> FnModel
        decreases self,
    {
        FnModel {
            name: self.name@,
            args: Seq::new(self.args@.len(), |i: int| self.args@[i]@),
            body: self.body.model(),
        }
    }
}

impl<'a> View for Fn<'a> {
    type V = FnModel;

    open spec fn view(&self) -> FnModel {
        self.model()
    }
}

/// The names `args`, as character sequences.
pub open spec fn names<'a>(args: Seq<&'a str>) -> Seq<Seq<char>> {
    Seq::new(args.len(), |i: int| args[i]@)
}

/// Appends the names of the parameters to `out`, with `, ` between them.
pub fn write_args(args: &Vec<&str>, out: &mut String)
    ensures
        final(out)@ == old(out)@ + args_text(names(args@)),
{
    let mut i: usize = 0;
    proof {
        assert(names(args@).take(0) =~= Seq::<Seq<char>>::empty());
        assert(out@ =~= old(out)@ + args_text(names(args@).take(0)));
    }
    while i < args.len()
        invariant
            i <= args@.len(),
            out@ == old(out)@ + args_text(names(args@).take(i as int)),
        decreases args@.len() - i,
    {
        if i > 0 {
            out.append(", ");
        }
        out.append(args[i]);
        i += 1;
        proof {
            let done = names(args@).take(i as int);
            assert(done.drop_last() =~= names(args@).take(i - 1));
            assert(done.last() == args@[i - 1]@);
            if i == 1 {
                assert(done[0] == args@[0]@);
                assert(args_text(names(args@).take(0)) =~= Seq::<char>::empty());
            }
            assert(out@ =~= old(out)@ + args_text(done));
        }
    }
    proof {
        assert(names(args@).take(i as int) =~= names(args@));
    }
}

/// Appends the lines of `function` to `out`, each after `margin`.
pub fn write_fn(function: &Fn<'_>, margin: &str, out: &mut String)
    ensures
        final(out)@ == old(out)@ + fn_text(function@, margin@),
    decreases function, 2int,
{
    out.append(margin);
    out.append("function ");
    out.append(function.name);
    out.append("(");
    write_args(&function.args, out);
    out.append(")\n");
    write_block(&function.body, margin, out);
    proof {
        assert(function@.args =~= names(function.args@));
        assert(final(out)@ =~= old(out)@ + fn_text(function@, margin@));
    }
}

impl<'a> Display<'a, Fn<'a>> {
    /// Appends the lines of the function to `out`, at this level.
    pub fn fmt(&self, out: &mut String)
        ensures
            final(out)@ == old(out)@ + fn_text(self.value@, indentation(self.indent as nat)),
    {
        let margin = margin(self.indent);
        write_fn(self.value, margin.as_str(), out);
    }
}

} // verus!
