use vstd::prelude::*;

use crate::syntax::item::{Item, ItemModel};

verus! {

/// The items of a whole file, in their order.
#[derive(Debug, PartialEq, Eq)]
pub struct File<'a> {
    pub items: Vec<Item<'a>>,
}

/// The mathematical model of a [`File`].
pub struct FileModel {
    pub items: Seq<ItemModel>,
}

/// The models of the items, in their order.
pub open spec fn item_models<'a>(items: Seq<Item<'a>>) -> Seq<ItemModel> {
    Seq::new(items.len(), |i: int| items[i]@)
}

impl<'a> View for File<'a> {
    type V = FileModel;

    open spec fn view(&self) -> FileModel {
        FileModel { items: item_models(self.items@) }
    }
}

} // verus!
