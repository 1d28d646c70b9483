//! The target syntax tree, its mathematical model and its text.

pub mod block;
pub mod display;
pub mod expr;
pub mod file;
pub mod function;
pub mod layout;
pub mod let_stmt;
pub mod stmt;

pub use block::{Block, BlockModel};
pub use display::Display;
pub use expr::{Expr, ExprModel};
pub use file::{File, FileModel};
pub use function::{Fn, FnModel};
pub use let_stmt::{Let, LetModel};
pub use stmt::{Stmt, StmtModel};
