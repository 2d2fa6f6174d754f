pub mod ids;
pub mod text;
pub mod tokens;
pub mod lexer;
pub mod grammar;
pub mod parse;
pub mod ast;
pub mod sema;
pub mod vmap;
pub mod value_pool;
pub mod bindings;
pub mod scope;
pub mod gather;
pub mod resolve;
pub mod constraint;
pub mod liveness;
pub mod analyzer;
pub mod cli;
