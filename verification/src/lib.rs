//! A small expression language: S-expression source text is split into located
//! tokens, built into a tree of call nodes over shared value cells, and
//! evaluated against four built-in operations.

pub mod arith;
pub mod ast;
pub mod compare;
pub mod error;
pub mod eval;
pub mod laws;
pub mod lexer;
pub mod literal;
pub mod location;
pub mod run;
pub mod scope;
pub mod text;
pub mod token;
pub mod value;

pub use ast::make_ast;
pub use error::{LispError, TypeError};
pub use eval::Callable;
pub use lexer::tokenize;
pub use location::Location;
pub use run::{run_lisp, run_lisp_dumped, Run, Trace};
pub use scope::Scope;
pub use token::{Token, TokenType};
pub use value::{IntrinsicOp, LispType, Runtime, Statement, Var};
