//! Name and type resolution of the syntax tree, and what it produces.
pub mod nodes;
pub mod errors;
pub mod compute;
pub mod constant_fold;
pub mod context;
pub mod rules;
pub mod resolve;
