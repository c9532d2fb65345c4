//! The errors that resolution reports.
use vstd::prelude::*;

use crate::location::{Located, LocationRange};
use crate::symbol_table::{SymbolAttribute, SymbolKind};
use crate::token::Operator;
use crate::ty::Type;

verus! {

#[derive(Debug)]
pub enum ResolveError {
    LiteralResolveError(ValueResolveError),
    IdentResolveError(IdentResolveError),
    TypeResolveError(TypeResolveError),
    ControlFlowError(ControlFlowError),
}

#[derive(Debug)]
pub enum ControlFlowError {
    NotAllFuncPathReturned(Located<String>),
}

#[derive(Debug)]
pub enum ValueResolveError {
    IntegerOutOfRange { is_signed: bool, int_size: u16, val: Located<i64> },
    ArgumentCountMismatch { func_ty: Located<Type>, expect_count: usize, actual_count: usize },
    ArrayLengthMismatch { loc: LocationRange, expect_count: usize, actual_count: usize },
}

#[derive(Debug)]
pub enum IdentResolveError {
    GlobalIdentAlreadyUsed {
        ident: String,
        first_origin: (SymbolKind, LocationRange),
        dup_origin: (SymbolKind, LocationRange),
    },
    VarNameAlreadyUsed {
        ident: String,
        first_origin: (Type, LocationRange),
        dup_origin: (Type, LocationRange),
    },
    UnknownIdentifier(Located<String>),
    UnexpectedAttrib { attribute: Located<SymbolAttribute>, allowed_attributes: Vec<SymbolAttribute> },
}

#[derive(Debug)]
pub enum TypeResolveError {
    ReturnTypeMismatch { function_name: String, expected_type: Type, actual_type: Located<Type> },
    NonBoolInIfCond(Located<Type>),
    NonAssignableType(Located<Type>),
    AssignmentTypeMismatch { target_ty: Located<Type>, value_ty: Located<Type> },
    UnknownTypeForIdent(Located<String>),
    NonBoolUsedInNotOp(Located<Type>),
    NonNumericInUnaryOp(Operator, Located<Type>),
    UnsignedIntegerInUnaryOp(Located<Operator>),
    NonNumericTypeInBinaryOp { op: Located<Operator>, ty: Located<Type> },
    UnorderedTypeInBinaryOp { op: Located<Operator>, ty: Located<Type> },
    UnexpectedTypeInBinaryOp { op: Located<Operator>, expect_type: Type, actual_type: Located<Type> },
    TypeMismatchInBinaryOp { op: Located<Operator>, left_ty: Type, right_ty: Type },
    CallOnNonFunctionType(Located<Type>),
    ArgumentTypeMismatch {
        func_ty: Located<Type>,
        argument_index: usize,
        expect_type: Type,
        actual_type: Located<Type>,
    },
    ArrayElementTypeMismatch {
        element_index: usize,
        expect_type: Located<Type>,
        actual_type: Located<Type>,
    },
    IndexingOnNonArrayType(Located<Type>),
    ExpectUnsignedIntOnArrayIndex { arr_ty: Located<Type>, index_ty: Located<Type> },
    InvalidTypeCast { loc: LocationRange, from_ty: Type, to_ty: Type },
    BlockBranchTypeMismatch { branch: Located<Type>, other: Located<Type> },
}

} // verus!
