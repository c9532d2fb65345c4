//! Values that instructions take: constants, results of instructions, parameters and
//! functions.
use vstd::prelude::*;

use crate::ids::SymbolID;
use crate::ty::Type;

verus! {

pub type BasicBlockID = u128;

pub type InstID = u128;

#[derive(Debug, Clone, Copy, PartialEq, Eq, Structural)]
pub struct Value {
    pub kind: ValueKind,
    pub ty: Type,
}

#[derive(Debug, Clone, Copy, PartialEq, Eq, Structural)]
pub enum ValueKind {
    Constant(ConstantValue),
    Inst(InstValue),
    Parameter(SymbolID),
    Function(SymbolID),
}

/// The result of an instruction of a block.
#[derive(Debug, Clone, Copy, PartialEq, Eq, Structural)]
pub struct InstValue {
    pub bb: BasicBlockID,
    pub inst: InstID,
}

#[derive(Debug, Clone, Copy, PartialEq, Eq, Structural)]
pub enum ConstantValue {
    Bool(bool),
    Integer(i64),
}

} // verus!
