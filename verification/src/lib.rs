//! A reader for a small s-expression notation: text becomes a forest of
//! expression nodes, and reader prefixes (quote, unquote, metadata, ...) are
//! then rewritten into plain list forms.

pub mod eval;
pub mod expand;
pub mod expr;
pub mod failure;
pub mod grammar;
pub mod parse;
pub mod print;
pub mod repl;
pub mod roundtrip;
pub mod text;
pub mod unescape;

pub use eval::{Eval, Parser};
pub use expr::{Expr, ExprType};
pub use failure::ParseError;
pub use parse::exprs as from_str;
pub use unescape::unescape;
