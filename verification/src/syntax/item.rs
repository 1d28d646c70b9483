use vstd::prelude::*;

use crate::syntax::function::{Fn, FnModel};

verus! {

/// What a file holds at its top level.
#[derive(Debug, PartialEq, Eq)]
pub enum Item<'a> {
    Fn(Fn<'a>),
}

/// The mathematical model of an [`Item`].
pub enum ItemModel {
    Fn(FnModel),
}

impl<'a> View for Item<'a> {
    type V = ItemModel;

    open spec fn view(&self) -> ItemModel {
        match self {
            Item::Fn(function) => ItemModel::Fn(function@),
        }
    }
}

} // verus!
