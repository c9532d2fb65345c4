//! The types of resolved expressions.
use vstd::prelude::*;

pub use crate::ast::PrimType;
use crate::ids::SymbolID;

verus! {

/// The type of a function, named by the function's symbol.
#[derive(Debug, Clone, Copy, PartialEq, Eq, Structural)]
pub struct FuncType(pub SymbolID);

#[derive(Debug, Clone, Copy, PartialEq, Eq, Structural)]
pub enum Type {
    Primitive(PrimType),
    Function(FuncType),
}

impl Type {
    pub open spec fn spec_is_numeric(self) -> bool {
        self == Type::Primitive(PrimType::Int)
    }

    pub open spec fn spec_is_ord(self) -> bool {
        self == Type::Primitive(PrimType::Int) || self == Type::Primitive(PrimType::Bool)
    }

    /// Whether arithmetic applies to values of the type: only `int`.
    pub fn is_numeric_ty(&self) -> (r: bool)
        ensures
            r == self.spec_is_numeric(),
    {
        match self {
            Type::Primitive(PrimType::Int) => true,
            _ => false,
        }
    }

    /// Whether values of the type can be compared: `int` and `bool`.
    pub fn is_ord_ty(&self) -> (r: bool)
        ensures
            r == self.spec_is_ord(),
    {
        match self {
            Type::Primitive(PrimType::Int) => true,
            Type::Primitive(PrimType::Bool) => true,
            _ => false,
        }
    }

    pub fn unit() -> (r: Type)
        ensures
            r == Type::Primitive(PrimType::Unit),
    {
        Type::Primitive(PrimType::Unit)
    }

    pub fn bool_ty() -> (r: Type)
        ensures
            r == Type::Primitive(PrimType::Bool),
    {
        Type::Primitive(PrimType::Bool)
    }

    pub fn int_ty() -> (r: Type)
        ensures
            r == Type::Primitive(PrimType::Int),
    {
        Type::Primitive(PrimType::Int)
    }
}

} // verus!
