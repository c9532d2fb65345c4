//! The resolved syntax tree: names bound to symbols, expressions typed.
use vstd::prelude::*;

use crate::ids::SymbolID;
use crate::location::Located;
use crate::symbol_table::SymbolTable;
use crate::token::Operator;
use crate::ty::{PrimType, Type};

verus! {

/// Whether evaluation goes on after a construct, or has returned from the function.
#[derive(Debug, Clone, Copy, PartialEq, Eq, Structural)]
pub enum ControlFlow {
    Flow,
    Return,
}

#[derive(Debug)]
pub enum Expr {
    Unit,
    Integer(i64),
    Bool(bool),
    Identifier(IdentExpr),
    Unary(UnaryExpr),
    Binary(BinaryExpr),
    Call(CallExpr),
    Block(BlockExpr),
    Return(ReturnExpr),
    If(IfExpr),
}

#[derive(Debug)]
pub struct IdentExpr {
    pub sym_id: SymbolID,
    pub ident: String,
    pub ty: Type,
}

#[derive(Debug)]
pub struct UnaryExpr {
    pub op: Operator,
    pub expr: Box<Expr>,
    pub ty: Type,
}

#[derive(Debug)]
pub struct BinaryExpr {
    pub op: Operator,
    pub left: Box<Expr>,
    pub right: Box<Expr>,
    pub ty: Type,
}

#[derive(Debug)]
pub struct CallExpr {
    pub callee: Box<Expr>,
    pub args: Vec<Expr>,
    pub ty: Type,
}

/// A block with the table of the names it declares.
#[derive(Debug)]
pub struct BlockExpr {
    pub table_id: SymbolID,
    pub stmts: Vec<Stmt>,
    pub eval_expr: Option<Box<Expr>>,
    pub ty: Type,
}

#[derive(Debug)]
pub struct ReturnExpr {
    pub expr: Option<Box<Expr>>,
}

#[derive(Debug)]
pub struct IfExpr {
    pub cond: Box<Expr>,
    pub then_body: BlockExpr,
    pub else_body: Option<BlockExpr>,
    pub ty: Type,
}

#[derive(Debug)]
pub enum Stmt {
    Expr(ExprStmt),
    Let(LetStmt),
}

#[derive(Debug)]
pub struct ExprStmt {
    pub expr: Expr,
}

#[derive(Debug)]
pub struct LetStmt {
    pub sym_id: SymbolID,
    pub name: Located<String>,
    pub ty: Type,
    pub value: Expr,
}

#[derive(Debug)]
pub struct Function {
    pub table_id: SymbolID,
    pub sig: FunctionSig,
    pub body: BlockExpr,
}

#[derive(Debug)]
pub struct ExternFunction(pub FunctionSig);

#[derive(Debug)]
pub struct FunctionSig {
    pub sym_id: SymbolID,
    pub name: Located<String>,
    pub params: Vec<Param>,
    pub ret_ty: Type,
}

#[derive(Debug)]
pub struct Param {
    pub sym_id: SymbolID,
    pub name: String,
}

#[derive(Debug)]
pub enum Item {
    Function(Function),
    ExternFunction(ExternFunction),
}

#[derive(Debug)]
pub struct ResolvedAST {
    pub sym_table: SymbolTable,
    pub items: Vec<Item>,
}

/// The type of a resolved expression; a `return` has the unit type.
pub open spec fn expr_type(e: Expr) -> Type {
    match e {
        Expr::Unit => Type::Primitive(PrimType::Unit),
        Expr::Integer(_) => Type::Primitive(PrimType::Int),
        Expr::Bool(_) => Type::Primitive(PrimType::Bool),
        Expr::Identifier(x) => x.ty,
        Expr::Unary(x) => x.ty,
        Expr::Binary(x) => x.ty,
        Expr::Call(x) => x.ty,
        Expr::Block(x) => x.ty,
        Expr::Return(_) => Type::Primitive(PrimType::Unit),
        Expr::If(x) => x.ty,
    }
}

impl Expr {
    pub fn get_type(&self) -> (r: Type)
        ensures
            r == expr_type(*self),
    {
        match self {
            Expr::Unit => Type::Primitive(PrimType::Unit),
            Expr::Integer(_) => Type::Primitive(PrimType::Int),
            Expr::Bool(_) => Type::Primitive(PrimType::Bool),
            Expr::Identifier(x) => x.ty,
            Expr::Unary(x) => x.ty,
            Expr::Binary(x) => x.ty,
            Expr::Call(x) => x.ty,
            Expr::Block(x) => x.ty,
            Expr::Return(_) => Type::Primitive(PrimType::Unit),
            Expr::If(x) => x.ty,
        }
    }
}

} // verus!
