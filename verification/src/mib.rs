//! Management information base modules: reading them, and naming object identifiers by them.
pub mod files;
pub mod laws;
pub mod lexer;
pub mod load;
pub mod parser;
pub mod paths;
pub mod resolver;
pub mod state;
pub mod table;
pub mod unresolved;
pub mod waiting;
