//! The schema compiler: the schema language's tokens, the abstract item
//! model, name resolution against a module's scope, and the lowering of
//! every reachable file to the canonical project model.

pub mod db;
pub mod ir;
pub mod lexer;
pub mod parser;
pub mod semantics;
