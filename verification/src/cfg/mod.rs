//! Control-flow graphs: functions made of basic blocks of instructions.
pub mod value;
pub mod inst;
pub mod basic_block;

pub mod function;
pub mod builder;
pub mod construct;
pub mod display;
pub use construct::CFG;
