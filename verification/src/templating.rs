//! The Mustache-like template engine: lexer, token stream parser and
//! the node tree. Rendering against a JSON context happens outside
//! this crate; the grammar and its node structure live here.

pub mod ast;
pub mod lexer;
pub mod parser;

pub use ast::MustacheLikeNode;
pub use lexer::{MustacheLikeLexer, MustacheLikeToken};
pub use parser::MustacheLikeParser;
