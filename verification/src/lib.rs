pub mod text;
pub mod location;
pub mod token;
pub mod scan;
pub mod lexer;
pub mod ast;
pub mod parsing;
pub mod ids;
pub mod ty;
pub mod cfg;
pub mod symbol_table;
pub mod ast_resolved;
