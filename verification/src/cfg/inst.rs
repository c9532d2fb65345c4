//! Instructions of basic blocks.
use vstd::prelude::*;

use crate::cfg::value::{BasicBlockID, InstID, Value};
use crate::ty::Type;

verus! {

/// An instruction with the identifier it has in its block.
#[derive(Debug)]
pub struct TaggedInst {
    pub id: InstID,
    pub inst: Inst,
}

/// An instruction and the type of what it computes.
#[derive(Debug)]
pub struct Inst {
    pub kind: InstKind,
    pub ty: Type,
}

#[derive(Debug)]
pub enum InstKind {
    Alloca,
    Load(LoadInst),
    Store(StoreInst),
    Branch(BranchInst),
    BranchCond(BranchCondInst),
    Return(ReturnInst),
    Negate(NegateInst),
    Not(NotInst),
    Add(AddInst),
    Sub(SubInst),
    And(AndInst),
    Or(OrInst),
    Compare(CompareInst),
    Call(CallInst),
}

/// Branches and returns end a block.
pub open spec fn is_terminator(k: InstKind) -> bool {
    k is Branch || k is BranchCond || k is Return
}

impl InstKind {
    pub fn is_terminate_inst(&self) -> (r: bool)
        ensures
            r == is_terminator(*self),
    {
        match self {
            InstKind::Branch(_) | InstKind::BranchCond(_) | InstKind::Return(_) => true,
            _ => false,
        }
    }
}

impl Inst {
    pub fn is_terminate_inst(&self) -> (r: bool)
        ensures
            r == is_terminator(self.kind),
    {
        self.kind.is_terminate_inst()
    }
}

#[derive(Debug)]
pub struct CallInst {
    pub callee: Value,
    pub args: Vec<Value>,
}

#[derive(Debug, Clone, Copy)]
pub struct CompareInst {
    pub cond: CompareCond,
    pub lhs: Value,
    pub rhs: Value,
}

#[derive(Debug, Clone, Copy, PartialEq, Eq, Structural)]
pub enum CompareCond {
    Equal,
    NotEqual,
    Less,
    LessEqual,
    Greater,
    GreaterEqual,
}

#[derive(Debug, Clone, Copy)]
pub struct AddInst {
    pub lhs: Value,
    pub rhs: Value,
}

#[derive(Debug, Clone, Copy)]
pub struct SubInst {
    pub lhs: Value,
    pub rhs: Value,
}

#[derive(Debug, Clone, Copy)]
pub struct AndInst {
    pub lhs: Value,
    pub rhs: Value,
}

#[derive(Debug, Clone, Copy)]
pub struct OrInst {
    pub lhs: Value,
    pub rhs: Value,
}

#[derive(Debug, Clone, Copy)]
pub struct NotInst {
    pub value: Value,
}

#[derive(Debug, Clone, Copy)]
pub struct NegateInst {
    pub value: Value,
}

#[derive(Debug, Clone, Copy)]
pub struct LoadInst {
    pub value: Value,
}

#[derive(Debug, Clone, Copy)]
pub struct StoreInst {
    pub target: Value,
    pub value: Value,
}

#[derive(Debug, Clone, Copy)]
pub struct BranchInst {
    pub branch: BasicBlockID,
}

#[derive(Debug, Clone, Copy)]
pub struct BranchCondInst {
    pub cond: Value,
    pub then_branch: BasicBlockID,
    pub else_branch: BasicBlockID,
}

#[derive(Debug, Clone, Copy)]
pub struct ReturnInst {
    pub value: Option<Value>,
}

} // verus!
