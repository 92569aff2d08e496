//! A streaming SQL engine: a small SQL dialect is parsed into an AST, lowered
//! into a tree of relational operators, and evaluated record by record.

pub mod value;
pub mod sql;
pub mod grammar;
pub mod parser;
pub mod catalog;
pub mod eval;
pub mod planner;
pub mod operators;
pub mod laws;
pub mod executor;
pub mod printer;
pub mod reparse;
pub mod reparse_query;
