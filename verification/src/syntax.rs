//! The source syntax tree and its mathematical model.

pub mod block;
pub mod expr;
pub mod file;
pub mod function;
pub mod ident;
pub mod item;
pub mod let_stmt;
pub mod span;
pub mod stmt;

pub use block::{Block, BlockModel};
pub use expr::{Expr, ExprModel};
pub use file::{File, FileModel};
pub use function::{Arg, ArgModel, Fn, FnModel};
pub use ident::Ident;
pub use item::{Item, ItemModel};
pub use let_stmt::{Let, LetModel};
pub use span::Span;
pub use stmt::{Stmt, StmtModel};
