//! The syntax tree the parser builds.
use vstd::prelude::*;

use crate::location::{Locatable, Located, LocationRange, spec_combine};
use crate::token::{Delimiter, Keyword, Operator};

verus! {

/// A list of items separated by a delimiter.
#[derive(Debug)]
pub struct Punctuated<T> {
    pub items: Vec<T>,
    pub sep: Delimiter,
}

/// Keywords written before an item, such as `pub`.
#[derive(Debug, Clone)]
pub struct Attributes {
    pub attribs: Vec<Located<Keyword>>,
}

impl Attributes {
    pub fn empty() -> (r: Attributes)
        ensures
            r.attribs@.len() == 0,
    {
        Attributes { attribs: Vec::new() }
    }
}

#[derive(Debug, Clone, Copy, PartialEq, Eq, Structural)]
pub enum PrimType {
    Unit,
    Int,
    Bool,
}

#[derive(Debug, Clone)]
pub enum Type {
    Primitive(Located<PrimType>),
    Ident(Located<String>),
}

#[derive(Debug, Clone)]
pub struct Field {
    pub name: Located<String>,
    pub ty: Type,
}

#[derive(Debug)]
pub struct Struct {
    pub struct_tok: Located<Keyword>,
    pub brace_open_tok: Located<Delimiter>,
    pub fields: Punctuated<Field>,
    pub brace_close_tok: Located<Delimiter>,
}

#[derive(Debug)]
pub enum TypeDeclKind {
    Type(Type),
    Struct(Struct),
}

#[derive(Debug)]
pub struct TypeDecl {
    pub attributes: Attributes,
    pub ty_tok: Located<Keyword>,
    pub name: Located<String>,
    pub assign_tok: Located<Operator>,
    pub kind: TypeDeclKind,
    pub semi_tok: Located<Delimiter>,
}

#[derive(Debug)]
pub enum Expr {
    Unit(LocationRange),
    Integer(Located<i64>),
    Bool(Located<bool>),
    Identifier(Located<String>),
    Unary(UnaryExpr),
    Binary(BinaryExpr),
    Grouped(GroupedExpr),
    Call(CallExpr),
    Block(BlockExpr),
    Return(ReturnExpr),
    If(IfExpr),
    Loop(LoopExpr),
}

#[derive(Debug)]
pub struct UnaryExpr {
    pub op: Located<Operator>,
    pub expr: Box<Expr>,
}

#[derive(Debug)]
pub struct BinaryExpr {
    pub op: Located<Operator>,
    pub left: Box<Expr>,
    pub right: Box<Expr>,
}

#[derive(Debug)]
pub struct GroupedExpr {
    pub paren_open_tok: Located<Delimiter>,
    pub expr: Box<Expr>,
    pub paren_close_tok: Located<Delimiter>,
}

#[derive(Debug)]
pub struct CallExpr {
    pub callee: Box<Expr>,
    pub paren_open_tok: Located<Delimiter>,
    pub args: Punctuated<Expr>,
    pub paren_close_tok: Located<Delimiter>,
}

#[derive(Debug)]
pub struct BlockExpr {
    pub brace_open_tok: Located<Delimiter>,
    pub stmts: Vec<Stmt>,
    pub eval_expr: Option<Box<Expr>>,
    pub brace_close_tok: Located<Delimiter>,
}

#[derive(Debug)]
pub struct ReturnExpr {
    pub return_tok: Located<Keyword>,
    pub expr: Option<Box<Expr>>,
}

#[derive(Debug)]
pub struct IfExpr {
    pub if_tok: Located<Keyword>,
    pub cond: Box<Expr>,
    pub then_body: BlockExpr,
    pub else_expr: Option<ElseExpr>,
}

#[derive(Debug)]
pub struct ElseExpr {
    pub else_tok: Located<Keyword>,
    pub body: BlockExpr,
}

#[derive(Debug)]
pub struct LoopExpr {
    pub loop_tok: Located<Keyword>,
    pub body: BlockExpr,
}

#[derive(Debug)]
pub enum Stmt {
    Expr(ExprStmt),
    Let(LetStmt),
}

#[derive(Debug)]
pub struct ExprStmt {
    pub expr: Expr,
    pub semi_tok: Option<Located<Delimiter>>,
}

#[derive(Debug)]
pub struct LetStmt {
    pub let_tok: Located<Keyword>,
    pub name: Located<String>,
    pub ty: Option<Type>,
    pub assign_tok: Located<Operator>,
    pub value: Expr,
    pub semi_tok: Located<Delimiter>,
}

#[derive(Debug, Clone)]
pub struct Param(pub Located<String>, pub Type);

#[derive(Debug)]
pub struct FunctionSig {
    pub attributes: Attributes,
    pub func_tok: Located<Keyword>,
    pub name: Located<String>,
    pub paren_open_tok: Located<Delimiter>,
    pub params: Punctuated<Param>,
    pub paren_close_tok: Located<Delimiter>,
    pub ret_ty: Type,
}

#[derive(Debug)]
pub struct Function {
    pub sig: FunctionSig,
    pub body: BlockExpr,
}

#[derive(Debug)]
pub struct ExternFunction {
    pub extern_tok: Located<Keyword>,
    pub sig: FunctionSig,
    pub semi_tok: Located<Delimiter>,
}

#[derive(Debug)]
pub enum Item {
    Function(Function),
    ExternFunction(ExternFunction),
    TypeDecl(TypeDecl),
}

/// A parsed source file.
#[derive(Debug)]
pub struct AST {
    pub items: Vec<Item>,
}

// ----- source ranges -----

pub open spec fn type_loc(t: Type) -> LocationRange {
    match t {
        Type::Primitive(p) => p.1,
        Type::Ident(i) => i.1,
    }
}

pub open spec fn block_loc(b: BlockExpr) -> LocationRange {
    spec_combine(b.brace_open_tok.1, b.brace_close_tok.1)
}

pub open spec fn else_loc(e: ElseExpr) -> LocationRange {
    spec_combine(e.else_tok.1, block_loc(e.body))
}

/// The source range an expression spans.
pub open spec fn expr_loc(e: Expr) -> LocationRange
    decreases e,
{
    match e {
        Expr::Unit(loc) => loc,
        Expr::Integer(v) => v.1,
        Expr::Bool(v) => v.1,
        Expr::Identifier(v) => v.1,
        Expr::Unary(u) => spec_combine(u.op.1, expr_loc(*u.expr)),
        Expr::Binary(b) => spec_combine(expr_loc(*b.left), expr_loc(*b.right)),
        Expr::Grouped(g) => spec_combine(g.paren_open_tok.1, g.paren_close_tok.1),
        Expr::Call(c) => spec_combine(expr_loc(*c.callee), c.paren_close_tok.1),
        Expr::Block(b) => block_loc(b),
        Expr::Return(r) => match r.expr {
            Some(x) => spec_combine(r.return_tok.1, expr_loc(*x)),
            None => spec_combine(r.return_tok.1, r.return_tok.1),
        },
        Expr::If(i) => match i.else_expr {
            Some(e) => spec_combine(i.if_tok.1, else_loc(e)),
            None => spec_combine(i.if_tok.1, block_loc(i.then_body)),
        },
        Expr::Loop(l) => spec_combine(l.loop_tok.1, block_loc(l.body)),
    }
}

impl Type {
    pub fn location(&self) -> (r: LocationRange)
        ensures
            r == type_loc(*self),
    {
        match self {
            Type::Primitive(ty) => ty.1,
            Type::Ident(ty) => ty.1,
        }
    }
}

impl Locatable for Type {
    fn get_location(&self) -> (r: LocationRange)
        ensures
            r == type_loc(*self),
    {
        self.location()
    }
}

impl Locatable for Struct {
    fn get_location(&self) -> (r: LocationRange)
        ensures
            r == spec_combine(self.struct_tok.1, self.brace_close_tok.1),
    {
        LocationRange::combine(self.struct_tok.1, self.brace_close_tok.1)
    }
}

impl Locatable for Field {
    fn get_location(&self) -> (r: LocationRange)
        ensures
            r == spec_combine(self.name.1, type_loc(self.ty)),
    {
        LocationRange::combine(self.name.1, self.ty.location())
    }
}

impl Locatable for TypeDeclKind {
    fn get_location(&self) -> (r: LocationRange)
        ensures
            r == (match *self {
                TypeDeclKind::Type(t) => type_loc(t),
                TypeDeclKind::Struct(s) => spec_combine(s.struct_tok.1, s.brace_close_tok.1),
            }),
    {
        match self {
            TypeDeclKind::Type(v) => v.location(),
            TypeDeclKind::Struct(v) => v.get_location(),
        }
    }
}

impl BlockExpr {
    pub fn location(&self) -> (r: LocationRange)
        ensures
            r == block_loc(*self),
    {
        LocationRange::combine(self.brace_open_tok.1, self.brace_close_tok.1)
    }
}

impl ElseExpr {
    pub fn location(&self) -> (r: LocationRange)
        ensures
            r == else_loc(*self),
    {
        LocationRange::combine(self.else_tok.1, self.body.location())
    }
}

impl Expr {
    /// The source range the expression spans.
    pub fn location(&self) -> (r: LocationRange)
        ensures
            r == expr_loc(*self),
        decreases self,
    {
        match self {
            Expr::Unit(loc) => *loc,
            Expr::Integer(v) => v.1,
            Expr::Bool(v) => v.1,
            Expr::Identifier(v) => v.1,
            Expr::Unary(u) => LocationRange::combine(u.op.1, u.expr.location()),
            Expr::Binary(b) => LocationRange::combine(b.left.location(), b.right.location()),
            Expr::Grouped(g) => LocationRange::combine(g.paren_open_tok.1, g.paren_close_tok.1),
            Expr::Call(c) => LocationRange::combine(c.callee.location(), c.paren_close_tok.1),
            Expr::Block(b) => b.location(),
            Expr::Return(r) => {
                let end_loc = match &r.expr {
                    Some(x) => x.location(),
                    None => r.return_tok.1,
                };
                LocationRange::combine(r.return_tok.1, end_loc)
            },
            Expr::If(i) => match &i.else_expr {
                Some(e) => LocationRange::combine(i.if_tok.1, e.location()),
                None => LocationRange::combine(i.if_tok.1, i.then_body.location()),
            },
            Expr::Loop(l) => LocationRange::combine(l.loop_tok.1, l.body.location()),
        }
    }

    /// Whether the expression is block-like: a block, an `if` or a `loop`.
    pub fn is_block(&self) -> (r: bool)
        ensures
            r == (*self is Block || *self is If || *self is Loop),
    {
        match self {
            Expr::Block(_) | Expr::If(_) | Expr::Loop(_) => true,
            _ => false,
        }
    }

    /// Whether a block-like expression ends with a value: a block or a loop whose body
    /// ends with an expression, or an `if` whose branches both do.
    pub fn has_eval_expr(&self) -> (r: bool)
        ensures
            r == (match *self {
                Expr::Block(b) => b.eval_expr is Some,
                Expr::If(i) => i.then_body.eval_expr is Some && (match i.else_expr {
                    Some(e) => e.body.eval_expr is Some,
                    None => false,
                }),
                Expr::Loop(l) => l.body.eval_expr is Some,
                _ => false,
            }),
    {
        match self {
            Expr::Block(v) => v.eval_expr.is_some(),
            Expr::If(v) => v.then_body.eval_expr.is_some() && match &v.else_expr {
                Some(e) => e.body.eval_expr.is_some(),
                None => false,
            },
            Expr::Loop(v) => v.body.eval_expr.is_some(),
            _ => false,
        }
    }
}

impl Locatable for Expr {
    fn get_location(&self) -> (r: LocationRange)
        ensures
            r == expr_loc(*self),
    {
        self.location()
    }
}

} // verus!
