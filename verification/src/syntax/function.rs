use vstd::prelude::*;

use crate::syntax::block::{Block, BlockModel};
use crate::syntax::ident::Ident;

verus! {

/// A function declaration: `fn name(arg: type, ..) -> type { .. }`. The
/// parser reads it; nothing lowers it yet.
#[derive(Debug, PartialEq, Eq)]
pub struct Fn<'a> {
    pub name: Ident<'a>,
    pub args: Vec<Arg<'a>>,
    pub return_type: Option<Ident<'a>>,
    pub body: Block<'a>,
}

/// A parameter of a function: `name: type`.
#[derive(Debug, PartialEq, Eq)]
pub struct Arg<'a> {
    pub name: Ident<'a>,
    pub ty: Ident<'a>,
}

/// The mathematical model of an [`Arg`].
pub struct ArgModel {
    pub name: Seq<char>,
    pub ty: Seq<char>,
}

/// The mathematical model of a [`Fn`].
pub struct FnModel {
    pub name: Seq<char>,
    pub args: Seq<ArgModel>,
    pub return_type: Option<Seq<char>>,
    pub body: BlockModel,
}

impl<'a> View for Arg<'a> {
    type V = ArgModel;

    open spec fn view(&self) -> ArgModel {
        ArgModel { name: self.name@, ty: self.ty@ }
    }
}

/// The models of the parameters, in their order.
pub open spec fn arg_models<'a>(args: Seq<Arg<'a>>) -> Seq<ArgModel> {
    Seq::new(args.len(), |i: int| args[i]@)
}

impl<'a> View for Fn<'a> {
    type V = FnModel;

    open spec fn view(&self) -> FnModel {
        FnModel {
            name: self.name@,
            args: arg_models(self.args@),
            return_type: match self.return_type {
                Some(ty) => Some(ty@),
                None => None,
            },
            body: self.body@,
        }
    }
}

} // verus!
