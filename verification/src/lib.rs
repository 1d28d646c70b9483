//! A small front end for a scripting language: it parses source text into a
//! span-annotated syntax tree, resolves every variable against nested lexical
//! scopes while lowering the tree to a JavaScript tree, and renders that tree
//! as text.
//!
//! Every stage is specified over mathematical models: byte sequences for the
//! source text, `Seq<char>` for names and rendered text, and model trees for
//! the two syntaxes.

pub mod js;
pub mod parser;
pub mod pipeline;
pub mod report;
pub mod syntax;
pub mod text;
pub mod trans;

pub use pipeline::compile;
pub use syntax::Span;
