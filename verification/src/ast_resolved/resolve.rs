//! Resolution: binds names to symbols, types expressions, and checks the typing rules
//! (see `rules`), recording an error for each rule broken.
use vstd::prelude::*;

use crate::ast;
use crate::ast_resolved::context::{
    ResolveContext, extends, lemma_extends_refl, lemma_extends_trans, lemma_in_function_kept,
    lemma_scope_table_lookup, local_ok, outer_scopes_kept, scopes_kept, named_entry, scope_lookup, scope_table,
};
use crate::ast_resolved::errors::{
    ControlFlowError, IdentResolveError, ResolveError, TypeResolveError, ValueResolveError,
};
use crate::ast_resolved::nodes::{
    BinaryExpr, BlockExpr, CallExpr, ControlFlow, Expr, ExprStmt, ExternFunction, Function,
    FunctionSig, IdentExpr, IfExpr, Item, LetStmt, Param, ResolvedAST, ReturnExpr, Stmt, UnaryExpr,
    expr_type,
};
use crate::ast_resolved::rules::{
    binary_op_supported, binary_rule, bool_ty, check_binary, check_if, check_unary, if_rule, int_ty,
    unary_op_supported, unary_rule, unit_ty,
};
use crate::ids::{NIL_ID, SymbolID};
use crate::location::{Located, LocationRange, spec_combine};
use crate::symbol_table::{
    FuncSymbol, Symbol, SymbolAttribute, SymbolKind, SymbolTable, SymbolTableEntry, VarSymbol,
    visible_symbol,
};
use crate::token::{Keyword, Operator};
use crate::ty::{FuncType, PrimType, Type};

verus! {

/// A resolved expression (`None` when it could not be resolved) and whether evaluation
/// goes on after it.
pub struct ExprFlow(pub Option<Expr>, pub ControlFlow);

/// The expressions resolution handles: no `loop`, no assignment, and only `-` and `!`
/// as unary operators.
pub open spec fn supported_expr(e: ast::Expr) -> bool
    decreases e,
{
    match e {
        ast::Expr::Unary(u) => unary_op_supported(u.op.0) && supported_expr(*u.expr),
        ast::Expr::Binary(b) => binary_op_supported(b.op.0) && supported_expr(*b.left)
            && supported_expr(*b.right),
        ast::Expr::Grouped(g) => supported_expr(*g.expr),
        ast::Expr::Call(c) => supported_expr(*c.callee) && supported_exprs(c.args.items@),
        ast::Expr::Block(b) => supported_block(b),
        ast::Expr::Return(r) => match r.expr {
            Some(x) => supported_expr(*x),
            None => true,
        },
        ast::Expr::If(i) => supported_expr(*i.cond) && supported_block(i.then_body) && match i.else_expr {
            Some(e) => supported_block(e.body),
            None => true,
        },
        ast::Expr::Loop(_) => false,
        _ => true,
    }
}

pub open spec fn supported_exprs(s: Seq<ast::Expr>) -> bool
    decreases s,
{
    if s.len() == 0 {
        true
    } else {
        supported_exprs(s.drop_last()) && supported_expr(s.last())
    }
}

pub open spec fn supported_stmts(s: Seq<ast::Stmt>) -> bool
    decreases s,
{
    if s.len() == 0 {
        true
    } else {
        supported_stmts(s.drop_last()) && supported_stmt(s.last())
    }
}

pub open spec fn supported_block(b: ast::BlockExpr) -> bool
    decreases b,
{
    &&& supported_stmts(b.stmts@)
    &&& match b.eval_expr {
        Some(x) => supported_expr(*x),
        None => true,
    }
}

pub open spec fn supported_stmt(s: ast::Stmt) -> bool
    decreases s,
{
    match s {
        ast::Stmt::Expr(e) => supported_expr(e.expr),
        ast::Stmt::Let(l) => supported_expr(l.value),
    }
}


/// Whether `return` occurs in an expression.
pub open spec fn has_return(e: ast::Expr) -> bool
    decreases e,
{
    match e {
        ast::Expr::Return(_) => true,
        ast::Expr::Unary(u) => has_return(*u.expr),
        ast::Expr::Binary(b) => has_return(*b.left) || has_return(*b.right),
        ast::Expr::Grouped(g) => has_return(*g.expr),
        ast::Expr::Call(c) => has_return(*c.callee) || exprs_have_return(c.args.items@),
        ast::Expr::Block(b) => block_has_return(b),
        ast::Expr::If(i) => has_return(*i.cond) || block_has_return(i.then_body) || match i.else_expr {
            Some(e) => block_has_return(e.body),
            None => false,
        },
        ast::Expr::Loop(l) => block_has_return(l.body),
        _ => false,
    }
}

pub open spec fn exprs_have_return(s: Seq<ast::Expr>) -> bool
    decreases s,
{
    if s.len() == 0 {
        false
    } else {
        exprs_have_return(s.drop_last()) || has_return(s.last())
    }
}

pub open spec fn stmts_have_return(s: Seq<ast::Stmt>) -> bool
    decreases s,
{
    if s.len() == 0 {
        false
    } else {
        stmts_have_return(s.drop_last()) || stmt_has_return(s.last())
    }
}

pub open spec fn block_has_return(b: ast::BlockExpr) -> bool
    decreases b,
{
    stmts_have_return(b.stmts@) || match b.eval_expr {
        Some(x) => has_return(*x),
        None => false,
    }
}

pub open spec fn stmt_has_return(s: ast::Stmt) -> bool
    decreases s,
{
    match s {
        ast::Stmt::Expr(e) => has_return(e.expr),
        ast::Stmt::Let(l) => has_return(l.value),
    }
}

/// Expressions that resolve to something whatever the names and types around them: a
/// literal, a `return` (whose value does not itself return), a block whose final
/// expression is one of these or that has none, and one of these in parentheses.
pub open spec fn always_resolves(e: ast::Expr) -> bool
    decreases e,
{
    match e {
        ast::Expr::Unit(_) => true,
        ast::Expr::Integer(_) => true,
        ast::Expr::Bool(_) => true,
        ast::Expr::Grouped(g) => always_resolves(*g.expr),
        ast::Expr::Block(b) => block_always_resolves(b),
        ast::Expr::Return(r) => match r.expr {
            Some(x) => !has_return(*x),
            None => true,
        },
        _ => false,
    }
}

/// A block without a final expression, or whose final expression always resolves.
pub open spec fn block_always_resolves(b: ast::BlockExpr) -> bool
    decreases b,
{
    match b.eval_expr {
        Some(x) => always_resolves(*x),
        None => true,
    }
}

proof fn lemma_no_return_exprs(s: Seq<ast::Expr>, i: int)
    requires
        !exprs_have_return(s),
        0 <= i < s.len(),
    ensures
        !has_return(s[i]),
    decreases s.len(),
{
    if i < s.len() - 1 {
        lemma_no_return_exprs(s.drop_last(), i);
    }
}

proof fn lemma_no_return_stmts(s: Seq<ast::Stmt>, i: int)
    requires
        !stmts_have_return(s),
        0 <= i < s.len(),
    ensures
        !stmt_has_return(s[i]),
    decreases s.len(),
{
    if i < s.len() - 1 {
        lemma_no_return_stmts(s.drop_last(), i);
    }
}

proof fn lemma_exprs_step(s: Seq<ast::Expr>, i: int)
    requires
        0 <= i < s.len(),
    ensures
        supported_exprs(s.subrange(0, i + 1)) == (supported_exprs(s.subrange(0, i))
            && supported_expr(s[i])),
{
    assert(s.subrange(0, i + 1).drop_last() =~= s.subrange(0, i));
}

proof fn lemma_exprs_prefix(s: Seq<ast::Expr>, k: int)
    requires
        0 <= k <= s.len(),
        !supported_exprs(s.subrange(0, k)),
    ensures
        !supported_exprs(s),
    decreases s.len(),
{
    if k == s.len() {
        assert(s.subrange(0, k) =~= s);
    } else {
        assert(s.drop_last().subrange(0, k) =~= s.subrange(0, k));
        lemma_exprs_prefix(s.drop_last(), k);
    }
}

proof fn lemma_stmts_step(s: Seq<ast::Stmt>, i: int)
    requires
        0 <= i < s.len(),
    ensures
        supported_stmts(s.subrange(0, i + 1)) == (supported_stmts(s.subrange(0, i))
            && supported_stmt(s[i])),
{
    assert(s.subrange(0, i + 1).drop_last() =~= s.subrange(0, i));
}

proof fn lemma_stmts_prefix(s: Seq<ast::Stmt>, k: int)
    requires
        0 <= k <= s.len(),
        !supported_stmts(s.subrange(0, k)),
    ensures
        !supported_stmts(s),
    decreases s.len(),
{
    if k == s.len() {
        assert(s.subrange(0, k) =~= s);
    } else {
        assert(s.drop_last().subrange(0, k) =~= s.subrange(0, k));
        lemma_stmts_prefix(s.drop_last(), k);
    }
}

/// Whether resolution handles the expression (see `supported_expr`).
pub fn expr_supported(e: &ast::Expr) -> (r: bool)
    ensures
        r == supported_expr(*e),
    decreases e,
{
    match e {
        ast::Expr::Unary(u) => {
            let op_ok = u.op.0 == Operator::Sub || u.op.0 == Operator::Not;
            op_ok && expr_supported(&u.expr)
        },
        ast::Expr::Binary(b) => b.op.0 != Operator::Assign && b.op.0 != Operator::Not
            && expr_supported(&b.left) && expr_supported(&b.right),
        ast::Expr::Grouped(g) => expr_supported(&g.expr),
        ast::Expr::Call(c) => expr_supported(&c.callee) && exprs_supported(&c.args.items),
        ast::Expr::Block(b) => block_supported(b),
        ast::Expr::Return(r) => match &r.expr {
            Some(x) => expr_supported(x),
            None => true,
        },
        ast::Expr::If(i) => {
            expr_supported(&i.cond) && block_supported(&i.then_body) && match &i.else_expr {
                Some(e) => block_supported(&e.body),
                None => true,
            }
        },
        ast::Expr::Loop(_) => false,
        _ => true,
    }
}

fn exprs_supported(v: &Vec<ast::Expr>) -> (r: bool)
    ensures
        r == supported_exprs(v@),
    decreases v@,
{
    let mut i: usize = 0;
    proof {
        assert(v@.subrange(0, 0) =~= Seq::<ast::Expr>::empty());
    }
    while i < v.len()
        invariant
            i <= v@.len(),
            supported_exprs(v@.subrange(0, i as int)),
        decreases v.len() - i,
    {
        proof {
            lemma_exprs_step(v@, i as int);
        }
        if !expr_supported(&v[i]) {
            proof {
                lemma_exprs_prefix(v@, i + 1);
            }
            return false;
        }
        i = i + 1;
    }
    proof {
        assert(v@.subrange(0, v@.len() as int) =~= v@);
    }
    true
}

fn stmts_supported(v: &Vec<ast::Stmt>) -> (r: bool)
    ensures
        r == supported_stmts(v@),
    decreases v@,
{
    let mut i: usize = 0;
    proof {
        assert(v@.subrange(0, 0) =~= Seq::<ast::Stmt>::empty());
    }
    while i < v.len()
        invariant
            i <= v@.len(),
            supported_stmts(v@.subrange(0, i as int)),
        decreases v.len() - i,
    {
        proof {
            lemma_stmts_step(v@, i as int);
        }
        let ok = match &v[i] {
            ast::Stmt::Expr(e) => expr_supported(&e.expr),
            ast::Stmt::Let(l) => expr_supported(&l.value),
        };
        if !ok {
            proof {
                lemma_stmts_prefix(v@, i + 1);
            }
            return false;
        }
        i = i + 1;
    }
    proof {
        assert(v@.subrange(0, v@.len() as int) =~= v@);
    }
    true
}

/// Whether resolution handles the block (see `supported_block`).
pub fn block_supported(b: &ast::BlockExpr) -> (r: bool)
    ensures
        r == supported_block(*b),
    decreases b,
{
    stmts_supported(&b.stmts) && match &b.eval_expr {
        Some(x) => expr_supported(x),
        None => true,
    }
}

/// The items resolution handles: functions and extern functions whose signatures name
/// only primitive types, and whose bodies it handles.
pub open spec fn supported_item(item: ast::Item) -> bool {
    match item {
        ast::Item::Function(f) => primitive_sig(f.sig) && supported_block(f.body),
        ast::Item::ExternFunction(f) => primitive_sig(f.sig),
        ast::Item::TypeDecl(_) => false,
    }
}

pub open spec fn primitive_sig(sig: ast::FunctionSig) -> bool {
    &&& sig.ret_ty is Primitive
    &&& forall|i: int| 0 <= i < sig.params.items@.len() ==> (#[trigger] sig.params.items@[i]).1 is Primitive
}

pub open spec fn supported_ast(a: ast::AST) -> bool {
    forall|i: int| 0 <= i < a.items@.len() ==> #[trigger] supported_item(a.items@[i])
}

fn sig_primitive(sig: &ast::FunctionSig) -> (r: bool)
    ensures
        r == primitive_sig(*sig),
{
    match &sig.ret_ty {
        ast::Type::Primitive(_) => {},
        _ => {
            return false;
        },
    }
    let mut i: usize = 0;
    while i < sig.params.items.len()
        invariant
            i <= sig.params.items@.len(),
            sig.ret_ty is Primitive,
            forall|j: int| 0 <= j < i ==> (#[trigger] sig.params.items@[j]).1 is Primitive,
        decreases sig.params.items.len() - i,
    {
        match &sig.params.items[i].1 {
            ast::Type::Primitive(_) => {},
            _ => {
                return false;
            },
        }
        i = i + 1;
    }
    true
}

/// Whether resolution handles the whole tree (see `supported_ast`).
pub fn ast_supported(a: &ast::AST) -> (r: bool)
    ensures
        r == supported_ast(*a),
{
    let mut i: usize = 0;
    while i < a.items.len()
        invariant
            i <= a.items@.len(),
            forall|j: int| 0 <= j < i ==> #[trigger] supported_item(a.items@[j]),
        decreases a.items.len() - i,
    {
        let ok = match &a.items[i] {
            ast::Item::Function(f) => sig_primitive(&f.sig) && block_supported(&f.body),
            ast::Item::ExternFunction(f) => sig_primitive(&f.sig),
            ast::Item::TypeDecl(_) => false,
        };
        if !ok {
            assert(!supported_item(a.items@[i as int]));
            return false;
        }
        i = i + 1;
    }
    true
}


fn clone_name(l: &Located<String>) -> (r: Located<String>)
    ensures
        r == *l,
{
    Located(l.0.clone(), l.1)
}

/// The errors recorded from `old` to `new`.
pub open spec fn added_errors(old: ResolveContext, new: ResolveContext) -> Seq<ResolveError> {
    new.errors().subrange(old.errors().len() as int, new.errors().len() as int)
}

/// The last errors of `s` are `errs`.
pub open spec fn ends_with(s: Seq<ResolveError>, errs: Seq<ResolveError>) -> bool {
    s.len() >= errs.len() && s.subrange(s.len() - errs.len(), s.len() as int) == errs
}

/// The range of a unary operation: from its operator to the end of its operand.
pub open spec fn unary_loc(u: ast::UnaryExpr) -> LocationRange {
    spec_combine(u.op.1, ast::expr_loc(*u.expr))
}

/// A unary operation on the resolved operand `x`, typed by `unary_rule`; none when the
/// rule gives no type.
pub open spec fn unary_result(u: ast::UnaryExpr, x: Expr) -> Option<Expr> {
    match unary_rule(u.op.0, expr_type(x), unary_loc(u)).0 {
        Some(t) => Some(Expr::Unary(UnaryExpr { op: u.op.0, expr: Box::new(x), ty: t })),
        None => None,
    }
}

/// The errors `unary_rule` reports for the resolved operand `x`.
pub open spec fn unary_errors(u: ast::UnaryExpr, x: Expr) -> Seq<ResolveError> {
    unary_rule(u.op.0, expr_type(x), unary_loc(u)).1
}

/// The range of a binary operation: from its left operand to the end of its right one.
pub open spec fn binary_loc(b: ast::BinaryExpr) -> LocationRange {
    spec_combine(ast::expr_loc(*b.left), ast::expr_loc(*b.right))
}

pub open spec fn binary_rule_of(b: ast::BinaryExpr, l: Expr, x: Expr) -> (Option<Type>, Seq<ResolveError>) {
    binary_rule(b.op, expr_type(l), ast::expr_loc(*b.left), expr_type(x), ast::expr_loc(*b.right), binary_loc(b))
}

/// A binary operation on the resolved operands `l` and `x`, typed by `binary_rule`; none
/// when the rule gives no type.
pub open spec fn binary_result(b: ast::BinaryExpr, l: Expr, x: Expr) -> Option<Expr> {
    match binary_rule_of(b, l, x).0 {
        Some(t) => Some(Expr::Binary(BinaryExpr { op: b.op.0, left: Box::new(l), right: Box::new(x), ty: t })),
        None => None,
    }
}

/// What resolving a tree of literals and unary and binary operations gives, in any
/// context: the result, and the errors recorded, in order. Operands resolve left to right;
/// an operand that fails ends the operation there, and a right operand is not resolved
/// after a left one that failed. `None` for any other expression.
pub open spec fn const_resolve(e: ast::Expr) -> Option<(Option<Expr>, Seq<ResolveError>)>
    decreases e,
{
    match e {
        ast::Expr::Unit(_) => Some((Some(Expr::Unit), Seq::empty())),
        ast::Expr::Integer(v) => Some((Some(Expr::Integer(v.0)), Seq::empty())),
        ast::Expr::Bool(v) => Some((Some(Expr::Bool(v.0)), Seq::empty())),
        ast::Expr::Grouped(g) => const_resolve(*g.expr),
        ast::Expr::Unary(u) => match const_resolve(*u.expr) {
            Some((Some(x), es)) => Some((unary_result(u, x), es + unary_errors(u, x))),
            Some((None, es)) => Some((None, es)),
            None => None,
        },
        ast::Expr::Binary(b) => match const_resolve(*b.left) {
            Some((None, es)) => Some((None, es)),
            Some((Some(l), es)) => match const_resolve(*b.right) {
                Some((None, es2)) => Some((None, es + es2)),
                Some((Some(x), es2)) => Some(
                    (binary_result(b, l, x), es + es2 + binary_rule_of(b, l, x).1),
                ),
                None => None,
            },
            None => None,
        },
        _ => None,
    }
}

/// A block without statements whose final expression is made of literals and operators
/// and resolves to something.
pub open spec fn const_block(b: ast::BlockExpr) -> bool {
    &&& b.stmts@.len() == 0
    &&& b.eval_expr is Some
    &&& const_resolve(*b.eval_expr->Some_0) is Some
    &&& const_resolve(*b.eval_expr->Some_0)->Some_0.0 is Some
}

/// A block without statements whose final expression, if any, is made of literals and
/// operators and resolves with no error.
pub open spec fn clean_const_block(b: ast::BlockExpr) -> bool {
    &&& b.stmts@.len() == 0
    &&& match b.eval_expr {
        Some(v) => const_resolve(*v) matches Some((r, es)) && r is Some && es.len() == 0,
        None => true,
    }
}

/// The type of such a block: that of its final expression.
pub open spec fn const_block_ty(b: ast::BlockExpr) -> Type {
    expr_type(const_resolve(*b.eval_expr->Some_0)->Some_0.0->Some_0)
}

/// A condition made of literals and operators that resolves to the literal `false`.
pub open spec fn const_false_cond(c: ast::Expr) -> bool {
    const_resolve(c) matches Some((r, _)) && r == Some(Expr::Bool(false))
}

/// A condition made of literals and operators that resolves to something other than the
/// literal `false`.
pub open spec fn const_other_cond(c: ast::Expr) -> bool {
    const_resolve(c) matches Some((r, _)) && r is Some && r != Some(Expr::Bool(false))
}

/// What a tree of literals and operators resolves to has a primitive type.
proof fn lemma_const_primitive(e: ast::Expr)
    requires
        const_resolve(e) matches Some((v, _)) && v is Some,
    ensures
        expr_type(const_resolve(e)->Some_0.0->Some_0) is Primitive,
    decreases e,
{
    match e {
        ast::Expr::Grouped(g) => lemma_const_primitive(*g.expr),
        ast::Expr::Unary(u) => {
            lemma_const_primitive(*u.expr);
        },
        ast::Expr::Binary(b) => {
            lemma_const_primitive(*b.left);
            lemma_const_primitive(*b.right);
        },
        _ => {},
    }
}

/// What resolving a name gives from the scopes `locals` of `g`: the symbol it names, or
/// nothing and an unknown-identifier error.
pub open spec fn ident_resolve(g: SymbolTable, locals: Seq<SymbolID>, name: Located<String>) -> (
    Option<Expr>,
    Seq<ResolveError>,
) {
    if scope_table(g, locals, name.0@) is Some && named_entry(
        g,
        scope_table(g, locals, name.0@)->Some_0,
        name.0@,
    ) is Symbol {
        let s = named_entry(g, scope_table(g, locals, name.0@)->Some_0, name.0@)->Symbol_0;
        (Some(Expr::Identifier(IdentExpr { sym_id: s.spec_id(), ident: name.0, ty: s.spec_type() })), Seq::empty())
    } else {
        (None, seq![ResolveError::IdentResolveError(IdentResolveError::UnknownIdentifier(name))])
    }
}

/// What resolving a tree of literals, names and unary and binary operations gives from
/// the scopes `locals` of `g`: the result, and the errors recorded, in order, as in
/// `const_resolve`, with each name resolved as `ident_resolve` says. `None` for any other
/// expression.
pub open spec fn pure_resolve(g: SymbolTable, locals: Seq<SymbolID>, e: ast::Expr) -> Option<
    (Option<Expr>, Seq<ResolveError>),
>
    decreases e,
{
    match e {
        ast::Expr::Unit(_) => Some((Some(Expr::Unit), Seq::empty())),
        ast::Expr::Integer(v) => Some((Some(Expr::Integer(v.0)), Seq::empty())),
        ast::Expr::Bool(v) => Some((Some(Expr::Bool(v.0)), Seq::empty())),
        ast::Expr::Identifier(name) => Some(ident_resolve(g, locals, name)),
        ast::Expr::Grouped(gr) => pure_resolve(g, locals, *gr.expr),
        ast::Expr::Unary(u) => match pure_resolve(g, locals, *u.expr) {
            Some((Some(x), es)) => Some((unary_result(u, x), es + unary_errors(u, x))),
            Some((None, es)) => Some((None, es)),
            None => None,
        },
        ast::Expr::Binary(b) => match pure_resolve(g, locals, *b.left) {
            Some((None, es)) => Some((None, es)),
            Some((Some(l), es)) => match pure_resolve(g, locals, *b.right) {
                Some((None, es2)) => Some((None, es + es2)),
                Some((Some(x), es2)) => Some(
                    (binary_result(b, l, x), es + es2 + binary_rule_of(b, l, x).1),
                ),
                None => None,
            },
            None => None,
        },
        _ => None,
    }
}

/// A tree without names resolves the same way in every scope.
proof fn lemma_const_is_pure(g: SymbolTable, locals: Seq<SymbolID>, e: ast::Expr)
    requires
        const_resolve(e) is Some,
    ensures
        pure_resolve(g, locals, e) == const_resolve(e),
    decreases e,
{
    match e {
        ast::Expr::Grouped(gr) => lemma_const_is_pure(g, locals, *gr.expr),
        ast::Expr::Unary(u) => lemma_const_is_pure(g, locals, *u.expr),
        ast::Expr::Binary(b) => {
            lemma_const_is_pure(g, locals, *b.left);
            if const_resolve(*b.left)->Some_0.0 is Some {
                lemma_const_is_pure(g, locals, *b.right);
            }
        },
        _ => {},
    }
}

/// `e` resolves from `old` to `new` as `pure_resolve` says, in the scopes of `old`, and
/// no table changes.
pub open spec fn resolved_as_pure(e: ast::Expr, old: ResolveContext, new: ResolveContext, r: ExprFlow) -> bool {
    pure_resolve(old.global(), old.locals(), e) matches Some((res, es)) ==> r.0 == res && r.1
        == ControlFlow::Flow && new.errors() == old.errors() + es && new.global() == old.global()
}

/// What every resolution of `e` from `c0` to `c1` with result `r` satisfies: the context
/// only grows, the open scopes are kept, an expression without `return` flows on, and a
/// tree of literals, names and operators resolves as `pure_resolve` says.
pub open spec fn expr_resolution(e: ast::Expr, c0: ResolveContext, c1: ResolveContext, r: ExprFlow) -> bool {
    &&& extends(c0, c1)
    &&& scopes_kept(c0, c1)
    &&& (!has_return(e) ==> r.1 == ControlFlow::Flow)
    &&& resolved_as_pure(e, c0, c1, r)
}

/// A unary operation resolves from `c0` to `c2` with result `r` by resolving its operand,
/// then (unless that fails or returns, which ends the operation with the operand's
/// result) applying `unary_rule` to it and recording its errors.
pub open spec fn unary_resolution(u: ast::UnaryExpr, c0: ResolveContext, c2: ResolveContext, r: ExprFlow) -> bool {
    exists|c1: ResolveContext, x: ExprFlow|
        #[trigger] expr_resolution(*u.expr, c0, c1, x) && if x.0 is None || x.1
            == ControlFlow::Return {
            r == x && c2 == c1
        } else {
            &&& r.1 == ControlFlow::Flow
            &&& r.0 == unary_result(u, x.0->Some_0)
            &&& c2.errors() == c1.errors() + unary_errors(u, x.0->Some_0)
            &&& c2.global() == c1.global()
        }
}

/// A binary operation resolves from `c0` to `c3` with result `r` by resolving its left
/// operand, then (unless that fails or returns, which ends the operation with the left
/// operand's result) its right operand, then (unless that fails or returns, likewise)
/// applying `binary_rule` to the two results and recording its errors.
pub open spec fn binary_resolution(b: ast::BinaryExpr, c0: ResolveContext, c3: ResolveContext, r: ExprFlow) -> bool {
    exists|c1: ResolveContext, l: ExprFlow|
        #[trigger] expr_resolution(*b.left, c0, c1, l) && if l.0 is None || l.1
            == ControlFlow::Return {
            r == l && c3 == c1
        } else {
            exists|c2: ResolveContext, x: ExprFlow|
                #[trigger] expr_resolution(*b.right, c1, c2, x) && if x.0 is None || x.1
                    == ControlFlow::Return {
                    r == x && c3 == c2
                } else {
                    &&& r.1 == ControlFlow::Flow
                    &&& r.0 == binary_result(b, l.0->Some_0, x.0->Some_0)
                    &&& c3.errors() == c2.errors() + binary_rule_of(b, l.0->Some_0, x.0->Some_0).1
                    &&& c3.global() == c2.global()
                }
        }
}

/// An error recorded between `a` and `b` is among those recorded between `a` and any
/// later context.
pub proof fn lemma_added_kept(a: ResolveContext, b: ResolveContext, c: ResolveContext, i: int)
    requires
        extends(a, b),
        extends(b, c),
        0 <= i < added_errors(a, b).len(),
    ensures
        added_errors(a, c).contains(added_errors(a, b)[i]),
{
    let k = a.errors().len() + i;
    assert(c.errors().subrange(0, b.errors().len() as int)[k] == c.errors()[k]);
    assert(added_errors(a, c)[i] == c.errors()[k]);
}

/// The range an `if` reports its `else` side at: the `else` part, or the `then` block
/// when there is none.
pub open spec fn if_else_loc(i: ast::IfExpr) -> LocationRange {
    match i.else_expr {
        Some(e) => ast::else_loc(e),
        None => ast::block_loc(i.then_body),
    }
}

/// The type of an optional resolved block.
pub open spec fn block_ty(b: Option<BlockExpr>) -> Option<Type> {
    match b {
        Some(b) => Some(b.ty),
        None => None,
    }
}

/// A return of a value of type `actual` from the function being resolved in `old` was
/// reported between `old` and `new`.
pub open spec fn mismatch_reported(old: ResolveContext, new: ResolveContext, actual: Type) -> bool {
    exists|i: int|
        0 <= i < added_errors(old, new).len() && is_return_mismatch(
            #[trigger] added_errors(old, new)[i],
            old.func(),
            actual,
        )
}

/// `e` reports that a function of symbol `f` returns a value of type `actual`.
pub open spec fn is_return_mismatch(e: ResolveError, f: FuncSymbol, actual: Type) -> bool {
    &&& e matches ResolveError::TypeResolveError(
        TypeResolveError::ReturnTypeMismatch { function_name, expected_type, actual_type },
    )
    &&& function_name@ == f.spec_name().0@
    &&& expected_type == f.spec_ret_ty()
    &&& actual_type.0 == actual
}

/// The range of a call: from its callee to its closing parenthesis.
pub open spec fn call_loc(c: ast::CallExpr) -> LocationRange {
    spec_combine(ast::expr_loc(*c.callee), c.paren_close_tok.1)
}

/// The global names all name function symbols.
pub open spec fn globals_are_functions(g: SymbolTable) -> bool {
    forall|n: Seq<char>| #[trigger]
        g.names().contains_key(n) ==> g.ids().contains(g.names()[n]) && g.entry(
            g.names()[n],
        ) matches SymbolTableEntry::Symbol(Symbol::Function(_))
}

impl ast::Type {
    /// Resolves a type name: a primitive type stands for itself; no other type is known,
    /// so a named type is reported.
    pub fn resolve(&self, ctx: &mut ResolveContext) -> (r: Option<Type>)
        requires
            old(ctx).wf(),
        ensures
            extends(*old(ctx), *final(ctx)),
            scopes_kept(*old(ctx), *final(ctx)),
            *self matches ast::Type::Primitive(p) ==> r == Some(Type::Primitive(p.0)) && final(ctx).errors() == old(ctx).errors(),
            *self matches ast::Type::Ident(n) ==> r is None && final(ctx).errors() == old(ctx).errors().push(ResolveError::TypeResolveError(TypeResolveError::UnknownTypeForIdent(n))),
    {
        proof {
            lemma_extends_refl(*ctx);
        }
        match self {
            ast::Type::Primitive(p) => Some(Type::Primitive(p.0)),
            ast::Type::Ident(n) => {
                ctx.push_error(
                    ResolveError::TypeResolveError(
                        TypeResolveError::UnknownTypeForIdent(clone_name(n)),
                    ),
                );
                proof {
                    assert(ctx.errors().subrange(0, old(ctx).errors().len() as int) =~= old(ctx).errors());
                }
                None
            },
        }
    }
}

impl ast::Attributes {
    /// The attributes the keywords stand for: `pub` is `Public`. An attribute that is not
    /// among `allowed` is reported and left out.
    pub fn resolve(&self, ctx: &mut ResolveContext, allowed: &Vec<SymbolAttribute>) -> (r: Vec<
        SymbolAttribute,
    >)
        requires
            old(ctx).wf(),
        ensures
            extends(*old(ctx), *final(ctx)),
            allowed@.contains(SymbolAttribute::Public) ==> final(ctx).errors() == old(ctx).errors(),
            forall|i: int| 0 <= i < r@.len() ==> #[trigger] r@[i] == SymbolAttribute::Public,
    {
        let mut out: Vec<SymbolAttribute> = Vec::new();
        let public_ok = crate::ast_resolved::resolve::attribute_allowed(allowed);
        let mut i: usize = 0;
        proof {
            lemma_extends_refl(*ctx);
        }
        while i < self.attribs.len()
            invariant
                i <= self.attribs@.len(),
                extends(*old(ctx), *ctx),
                public_ok == allowed@.contains(SymbolAttribute::Public),
                public_ok ==> ctx.errors() == old(ctx).errors(),
                forall|j: int| 0 <= j < out@.len() ==> #[trigger] out@[j] == SymbolAttribute::Public,
            decreases self.attribs.len() - i,
        {
            let kw = self.attribs[i];
            if kw.0 == Keyword::Pub {
                if public_ok {
                    out.push(SymbolAttribute::Public);
                } else {
                    let ghost c1 = *ctx;
                    let mut allowed_copy: Vec<SymbolAttribute> = Vec::new();
                    let mut k: usize = 0;
                    while k < allowed.len()
                        decreases allowed.len() - k,
                    {
                        allowed_copy.push(allowed[k]);
                        k = k + 1;
                    }
                    ctx.push_error(
                        ResolveError::IdentResolveError(
                            IdentResolveError::UnexpectedAttrib {
                                attribute: Located(SymbolAttribute::Public, kw.1),
                                allowed_attributes: allowed_copy,
                            },
                        ),
                    );
                    proof {
                        assert(ctx.errors().subrange(0, c1.errors().len() as int) =~= c1.errors());
                        lemma_extends_trans(*old(ctx), c1, *ctx);
                    }
                }
            }
            i = i + 1;
        }
        out
    }
}

fn attribute_allowed(allowed: &Vec<SymbolAttribute>) -> (r: bool)
    ensures
        r == allowed@.contains(SymbolAttribute::Public),
{
    let mut i: usize = 0;
    while i < allowed.len()
        invariant
            i <= allowed@.len(),
            forall|j: int| 0 <= j < i ==> allowed@[j] != SymbolAttribute::Public,
        decreases allowed.len() - i,
    {
        if allowed[i] == SymbolAttribute::Public {
            return true;
        }
        i = i + 1;
    }
    false
}

/// Resolves a name to the symbol it names in the current scopes; reports an unknown
/// name.
pub fn resolve_ident(name: &Located<String>, ctx: &mut ResolveContext) -> (r: ExprFlow)
    requires
        old(ctx).wf(),
    ensures
        extends(*old(ctx), *final(ctx)),
        scopes_kept(*old(ctx), *final(ctx)),
        r.1 == ControlFlow::Flow,
        r.0 matches Some(e) ==> (e matches Expr::Identifier(x) && x.ident@ == name.0@) && final(ctx).errors() == old(ctx).errors(),
        r.0 is None ==> final(ctx).errors() == old(ctx).errors().push(
            ResolveError::IdentResolveError(IdentResolveError::UnknownIdentifier(*name)),
        ),
        scope_lookup(old(ctx).global(), old(ctx).locals(), name.0@) is None ==> r.0 is None,
        r.0 is Some <==> (scope_table(old(ctx).global(), old(ctx).locals(), name.0@) matches Some(t)
            && named_entry(old(ctx).global(), t, name.0@) is Symbol),
        final(ctx).global() == old(ctx).global(),
        (r.0, final(ctx).errors()) == ({
            let (x, es) = ident_resolve(old(ctx).global(), old(ctx).locals(), *name);
            (x, old(ctx).errors() + es)
        }),
        r.0 matches Some(Expr::Identifier(x)) ==> (scope_table(
            old(ctx).global(),
            old(ctx).locals(),
            name.0@,
        ) matches Some(t) && named_entry(old(ctx).global(), t, name.0@) matches SymbolTableEntry::Symbol(
            s,
        ) && x.sym_id == s.spec_id() && x.ty == s.spec_type()),
{
    proof {
        lemma_extends_refl(*ctx);
        lemma_scope_table_lookup(ctx.global(), ctx.locals(), name.0@);
    }
    let found = match ctx.get_symbol_by_name(name.0.as_str()) {
        Some((symbol, _)) => Some((symbol.get_id(), symbol.get_type())),
        None => None,
    };
    match found {
        Some((sym_id, ty)) => ExprFlow(
            Some(Expr::Identifier(IdentExpr { sym_id, ident: name.0.clone(), ty })),
            ControlFlow::Flow,
        ),
        None => {
            ctx.push_error(
                ResolveError::IdentResolveError(IdentResolveError::UnknownIdentifier(clone_name(name))),
            );
            proof {
                assert(ctx.errors().subrange(0, old(ctx).errors().len() as int) =~= old(ctx).errors());
            }
            ExprFlow(None, ControlFlow::Flow)
        },
    }
}

/// Pushes errors in order.
fn push_errors(ctx: &mut ResolveContext, errs: Vec<ResolveError>)
    requires
        old(ctx).wf(),
    ensures
        extends(*old(ctx), *final(ctx)),
        final(ctx).global() == old(ctx).global(),
        scopes_kept(*old(ctx), *final(ctx)),
        final(ctx).errors() == old(ctx).errors() + errs@,
{
    let mut rest = errs;
    let ghost all = errs@;
    proof {
        lemma_extends_refl(*ctx);
        assert(old(ctx).errors() + all.subrange(0, 0) =~= old(ctx).errors());
        assert(rest@ =~= all.subrange(0, all.len() as int));
    }
    while rest.len() > 0
        invariant
            rest@.len() <= all.len(),
            rest@ == all.subrange(all.len() - rest@.len(), all.len() as int),
            extends(*old(ctx), *ctx),
            scopes_kept(*old(ctx), *ctx),
            ctx.global() == old(ctx).global(),
            ctx.errors() == old(ctx).errors() + all.subrange(0, all.len() - rest@.len()),
        decreases rest.len(),
    {
        let ghost c1 = *ctx;
        let ghost k = all.len() - rest@.len();
        let e = rest.remove(0);
        ctx.push_error(e);
        proof {
            assert(e == all[k]);
            assert(ctx.errors().subrange(0, c1.errors().len() as int) =~= c1.errors());
            lemma_extends_trans(*old(ctx), c1, *ctx);
            assert(all.subrange(0, k + 1) =~= all.subrange(0, k).push(all[k]));
            assert(old(ctx).errors() + all.subrange(0, k + 1) =~= (old(ctx).errors() + all.subrange(
                0,
                k,
            )).push(all[k]));
            assert(rest@ =~= all.subrange(all.len() - rest@.len(), all.len() as int));
        }
    }
    proof {
        assert(all.subrange(0, all.len() as int) =~= all);
    }
}


/// Opening a scope, resolving in it, and closing it again goes on from where it began.
proof fn lemma_scope_roundtrip(
    a: ResolveContext,
    b: ResolveContext,
    c: ResolveContext,
    d: ResolveContext,
    t: SymbolID,
)
    requires
        a.wf(),
        b.wf(),
        b.locals() == a.locals().push(t),
        b.func_id() == a.func_id(),
        b.errors() == a.errors(),
        b.global().names() == a.global().names(),
        b.global().ids() == a.global().ids().insert(t),
        forall|k: SymbolID| #[trigger]
            a.global().ids().contains(k) ==> b.global().entry(k) == a.global().entry(k),
        extends(b, c),
        d.locals() == c.locals().drop_last(),
        d.global() == c.global(),
        d.errors() == c.errors(),
        d.func_id() == c.func_id(),
    ensures
        extends(a, d),
{
    assert(d.locals() =~= a.locals());
    assert forall|i: int| 0 <= i < d.locals().len() implies #[trigger] local_ok(
        d.global(),
        d.locals()[i],
    ) by {
        assert(local_ok(c.global(), c.locals()[i]));
    }
    assert forall|k: SymbolID| #[trigger]
        a.global().ids().contains(k) && a.global().entry(k) is Symbol implies d.global().entry(k)
        == a.global().entry(k) by {
        assert(b.global().ids().contains(k));
        assert(b.global().entry(k) == a.global().entry(k));
    }
}

impl ast::Expr {
    /// Resolves an expression (see the resolution of each kind of expression). Only a
    /// `return` needs the function being resolved, to check the returned type against.
    pub fn resolve(&self, ctx: &mut ResolveContext) -> (r: ExprFlow)
        requires
            old(ctx).wf(),
            (has_return(*self)) ==> old(ctx).in_function(),
            supported_expr(*self),
        ensures
            extends(*old(ctx), *final(ctx)),
            scopes_kept(*old(ctx), *final(ctx)),
            *self matches ast::Expr::Unit(_) ==> r.0 == Some(Expr::Unit) && r.1 == ControlFlow::Flow,
            *self matches ast::Expr::Integer(v) ==> r.0 == Some(Expr::Integer(v.0)) && r.1
                == ControlFlow::Flow,
            *self matches ast::Expr::Bool(v) ==> r.0 == Some(Expr::Bool(v.0)) && r.1
                == ControlFlow::Flow,
            *self is Return ==> r.1 == ControlFlow::Return,
            !has_return(*self) ==> r.1 == ControlFlow::Flow,
            always_resolves(*self) ==> r.0 is Some,
            resolved_as_pure(*self, *old(ctx), *final(ctx), r),
            expr_resolution(*self, *old(ctx), *final(ctx), r),
        decreases self,
    {
        match self {
            ast::Expr::Unit(_) => {
                proof {
                    lemma_extends_refl(*ctx);
                }
                ExprFlow(Some(Expr::Unit), ControlFlow::Flow)
            },
            ast::Expr::Integer(v) => {
                proof {
                    lemma_extends_refl(*ctx);
                }
                ExprFlow(Some(Expr::Integer(v.0)), ControlFlow::Flow)
            },
            ast::Expr::Bool(v) => {
                proof {
                    lemma_extends_refl(*ctx);
                }
                ExprFlow(Some(Expr::Bool(v.0)), ControlFlow::Flow)
            },
            ast::Expr::Identifier(name) => resolve_ident(name, ctx),
            ast::Expr::Unary(e) => e.resolve(ctx),
            ast::Expr::Binary(e) => e.resolve(ctx),
            ast::Expr::Grouped(e) => e.expr.resolve(ctx),
            ast::Expr::Call(e) => e.resolve(ctx),
            ast::Expr::Block(e) => e.resolve(ctx),
            ast::Expr::Return(e) => e.resolve(ctx),
            ast::Expr::If(e) => e.resolve(ctx),
            ast::Expr::Loop(_) => {
                proof {
                    lemma_extends_refl(*ctx);
                }
                ExprFlow(None, ControlFlow::Flow)
            },
        }
    }
}

impl ast::UnaryExpr {
    /// Resolves a unary operation: its operand, then the rule of `unary_rule`. A negation
    /// is an `int`, a `!` a `bool`. Constants are not folded here (see `constant_fold`).
    pub fn resolve(&self, ctx: &mut ResolveContext) -> (r: ExprFlow)
        requires
            old(ctx).wf(),
            (has_return(*self.expr)) ==> old(ctx).in_function(),
            supported_expr(ast::Expr::Unary(*self)),
        ensures
            extends(*old(ctx), *final(ctx)),
            scopes_kept(*old(ctx), *final(ctx)),
            r.1 == ControlFlow::Flow && r.0 is Some ==> (self.op.0 == Operator::Sub ==> expr_type(
                r.0->Some_0,
            ) == int_ty()) && (self.op.0 == Operator::Not ==> expr_type(r.0->Some_0) == bool_ty()),
            r.1 == ControlFlow::Flow && r.0 is Some ==> exists|x: Expr| #![trigger expr_type(x)]
                r.0 == unary_result(*self, x) && ends_with(final(ctx).errors(), unary_errors(*self, x)),
            !has_return(*self.expr) ==> r.1 == ControlFlow::Flow,
            resolved_as_pure(ast::Expr::Unary(*self), *old(ctx), *final(ctx), r),
            unary_resolution(*self, *old(ctx), *final(ctx), r),
        decreases self,
    {
        let ExprFlow(expr, flow) = self.expr.resolve(ctx);
        let ghost c0 = *ctx;
        let ghost xf = ExprFlow(expr, flow);
        proof {
            assert(expr_resolution(*self.expr, *old(ctx), c0, xf));
        }
        let expr = match expr {
            Some(e) => e,
            None => {
                return ExprFlow(None, flow);
            },
        };
        if flow == ControlFlow::Return {
            return ExprFlow(Some(expr), flow);
        }
        let ghost c1 = *ctx;
        let loc = crate::location::LocationRange::combine(self.op.1, self.expr.location());
        let (ty, errs) = check_unary(self.op.0, expr.get_type(), loc);
        let ghost es = errs@;
        push_errors(ctx, errs);
        proof {
            lemma_extends_trans(*old(ctx), c1, *ctx);
        }
        proof {
            assert(ends_with(ctx.errors(), unary_errors(*self, expr))) by {
                assert(ctx.errors().subrange(ctx.errors().len() - es.len(), ctx.errors().len() as int) =~= es);
            }
            if pure_resolve(old(ctx).global(), old(ctx).locals(), *self.expr) is Some {
                let es0 = pure_resolve(old(ctx).global(), old(ctx).locals(), *self.expr)->Some_0.1;
                assert(ctx.errors() =~= old(ctx).errors() + (es0 + unary_errors(*self, expr)));
            }
        }
        match ty {
            Some(ty) => {
                let e = Expr::Unary(UnaryExpr { op: self.op.0, expr: Box::new(expr), ty });
                let r = ExprFlow(Some(e), ControlFlow::Flow);
                assert(r.0 == unary_result(*self, expr));
                r
            },
            None => ExprFlow(None, ControlFlow::Flow),
        }
    }
}

impl ast::BinaryExpr {
    /// Resolves a binary operation: its operands left to right, then the rule of
    /// `binary_rule`. Arithmetic gives an `int`, anything else a `bool`. Constants are not
    /// folded here (see `constant_fold`).
    pub fn resolve(&self, ctx: &mut ResolveContext) -> (r: ExprFlow)
        requires
            old(ctx).wf(),
            (has_return(*self.left) || has_return(*self.right)) ==> old(ctx).in_function(),
            supported_expr(ast::Expr::Binary(*self)),
        ensures
            extends(*old(ctx), *final(ctx)),
            scopes_kept(*old(ctx), *final(ctx)),
            r.1 == ControlFlow::Flow && r.0 is Some ==> expr_type(r.0->Some_0) == (if self.op.0
                == Operator::Add || self.op.0 == Operator::Sub {
                int_ty()
            } else {
                bool_ty()
            }),
            r.1 == ControlFlow::Flow && r.0 is Some ==> exists|l: Expr, x: Expr|
                #![trigger expr_type(l), expr_type(x)]
                r.0 == binary_result(*self, l, x) && ends_with(
                    final(ctx).errors(),
                    binary_rule_of(*self, l, x).1,
                ),
            !has_return(*self.left) && !has_return(*self.right) ==> r.1 == ControlFlow::Flow,
            resolved_as_pure(ast::Expr::Binary(*self), *old(ctx), *final(ctx), r),
            binary_resolution(*self, *old(ctx), *final(ctx), r),
        decreases self,
    {
        let ExprFlow(left, flow) = self.left.resolve(ctx);
        let ghost c1 = *ctx;
        let ghost lf = ExprFlow(left, flow);
        proof {
            assert(expr_resolution(*self.left, *old(ctx), c1, lf));
        }
        let left = match left {
            Some(e) => e,
            None => {
                return ExprFlow(None, flow);
            },
        };
        if flow == ControlFlow::Return {
            return ExprFlow(Some(left), flow);
        }
        proof {
            lemma_in_function_kept(*old(ctx), c1);
        }
        let ExprFlow(right, flow) = self.right.resolve(ctx);
        let ghost c2x = *ctx;
        let ghost xf = ExprFlow(right, flow);
        proof {
            lemma_extends_trans(*old(ctx), c1, *ctx);
            assert(expr_resolution(*self.right, c1, c2x, xf));
        }
        let right = match right {
            Some(e) => e,
            None => {
                proof {
                    if pure_resolve(old(ctx).global(), old(ctx).locals(), ast::Expr::Binary(*self)) is Some {
                        let es0 = pure_resolve(old(ctx).global(), old(ctx).locals(), *self.left)->Some_0.1;
                        let es1 = pure_resolve(old(ctx).global(), old(ctx).locals(), *self.right)->Some_0.1;
                        assert(ctx.errors() =~= old(ctx).errors() + (es0 + es1));
                    }
                }
                return ExprFlow(None, flow);
            },
        };
        if flow == ControlFlow::Return {
            return ExprFlow(Some(right), flow);
        }
        let ghost c2 = *ctx;
        let lloc = self.left.location();
        let rloc = self.right.location();
        let loc = crate::location::LocationRange::combine(lloc, rloc);
        let (ty, errs) = check_binary(self.op, left.get_type(), lloc, right.get_type(), rloc, loc);
        let ghost es = errs@;
        push_errors(ctx, errs);
        proof {
            lemma_extends_trans(*old(ctx), c2, *ctx);
        }
        proof {
            assert(ends_with(ctx.errors(), binary_rule_of(*self, left, right).1)) by {
                assert(ctx.errors().subrange(ctx.errors().len() - es.len(), ctx.errors().len() as int) =~= es);
            }
            if pure_resolve(old(ctx).global(), old(ctx).locals(), ast::Expr::Binary(*self)) is Some {
                let es0 = pure_resolve(old(ctx).global(), old(ctx).locals(), *self.left)->Some_0.1;
                let es1 = pure_resolve(old(ctx).global(), old(ctx).locals(), *self.right)->Some_0.1;
                assert(ctx.errors() =~= old(ctx).errors() + (es0 + es1 + binary_rule_of(
                    *self,
                    left,
                    right,
                ).1));
            }
        }
        match ty {
            Some(ty) => {
                let e = Expr::Binary(
                    BinaryExpr { op: self.op.0, left: Box::new(left), right: Box::new(right), ty },
                );
                let r = ExprFlow(Some(e), ControlFlow::Flow);
                assert(r.0 == binary_result(*self, left, right));
                r
            },
            None => ExprFlow(None, ControlFlow::Flow),
        }
    }
}


/// The parameter types of a function.
fn param_types(f: &FuncSymbol) -> (r: Vec<Type>)
    ensures
        r@.len() == f.spec_params().len(),
        forall|i: int| 0 <= i < r@.len() ==> #[trigger] r@[i] == f.spec_params()[i].1,
{
    let params = f.get_params();
    let mut out: Vec<Type> = Vec::new();
    let mut i: usize = 0;
    while i < params.len()
        invariant
            i <= params@.len(),
            params@ == f.spec_params(),
            out@.len() == i,
            forall|j: int| 0 <= j < i ==> #[trigger] out@[j] == params@[j].1,
        decreases params.len() - i,
    {
        out.push(params[i].1);
        i = i + 1;
    }
    out
}

/// Resolves the arguments of a call against the parameter types, as far as both go: an
/// argument of the wrong type is reported (and left out). Stops at an argument that
/// returns.
/// One argument of a call to a function of type `func_ty` at `loc`: `item` resolves from
/// `c0` with result `x`; an argument that resolves with a type other than its parameter
/// type `ty` is reported (as argument `j`), which gives `c1`.
pub open spec fn arg_resolution(
    item: ast::Expr,
    ty: Type,
    j: int,
    func_ty: Type,
    loc: LocationRange,
    c0: ResolveContext,
    c1: ResolveContext,
    x: ExprFlow,
) -> bool {
    exists|c: ResolveContext|
        #[trigger] expr_resolution(item, c0, c, x) && if x.1 == ControlFlow::Flow && x.0 is Some
            && expr_type(x.0->Some_0) != ty {
            &&& c1.errors() == c.errors().push(
                ResolveError::TypeResolveError(
                    TypeResolveError::ArgumentTypeMismatch {
                        func_ty: Located(func_ty, loc),
                        argument_index: j as usize,
                        expect_type: ty,
                        actual_type: Located(expr_type(x.0->Some_0), ast::expr_loc(item)),
                    },
                ),
            )
            &&& c1.global() == c.global()
            &&& c1.locals() == c.locals()
        } else {
            c1 == c
        }
}

/// The arguments kept from the results `rs`: those that resolved with their parameter
/// type, in order.
pub open spec fn kept_args(rs: Seq<ExprFlow>, tys: Seq<Type>) -> Seq<Expr>
    decreases rs.len(),
{
    if rs.len() == 0 {
        Seq::empty()
    } else {
        let prev = kept_args(rs.drop_last(), tys);
        let x = rs.last();
        if x.0 is Some && expr_type(x.0->Some_0) == tys[rs.len() - 1] {
            prev.push(x.0->Some_0)
        } else {
            prev
        }
    }
}

/// The arguments `items` of a call resolve one after the other through the contexts
/// `cs`, with results `rs`; all but the last flow on.
pub open spec fn args_trace(
    items: Seq<ast::Expr>,
    tys: Seq<Type>,
    func_ty: Type,
    loc: LocationRange,
    cs: Seq<ResolveContext>,
    rs: Seq<ExprFlow>,
) -> bool {
    &&& cs.len() == rs.len() + 1
    &&& rs.len() <= items.len()
    &&& rs.len() <= tys.len()
    &&& forall|j: int|
        0 <= j < rs.len() ==> #[trigger] arg_resolution(
            items[j],
            tys[j],
            j,
            func_ty,
            loc,
            cs[j],
            cs[j + 1],
            rs[j],
        )
    &&& forall|j: int| 0 <= j < rs.len() - 1 ==> (#[trigger] rs[j]).1 == ControlFlow::Flow
}

/// The smaller of two counts.
pub open spec fn min_count(a: int, b: int) -> int {
    if a < b {
        a
    } else {
        b
    }
}

fn resolve_args(
    items: &Vec<ast::Expr>,
    param_tys: &Vec<Type>,
    func_ty: Type,
    loc: LocationRange,
    ctx: &mut ResolveContext,
) -> (r: (Vec<Expr>, Option<ExprFlow>))
    requires
        old(ctx).wf(),
        (exprs_have_return(items@)) ==> old(ctx).in_function(),
        supported_exprs(items@),
    ensures
        extends(*old(ctx), *final(ctx)),
        scopes_kept(*old(ctx), *final(ctx)),
        r.1 matches Some(f) ==> f.1 == ControlFlow::Return,
        r.0@.len() <= items@.len(),
        r.0@.len() <= param_tys@.len(),
        !exprs_have_return(items@) ==> r.1 is None,
        exists|cs: Seq<ResolveContext>, rs: Seq<ExprFlow>|
            #[trigger] args_trace(items@, param_tys@, func_ty, loc, cs, rs) && cs[0] == *old(ctx)
                && cs.last() == *final(ctx) && match r.1 {
                None => rs.len() == min_count(items@.len() as int, param_tys@.len() as int) && (
                rs.len() > 0 ==> rs.last().1 == ControlFlow::Flow) && r.0@ == kept_args(
                    rs,
                    param_tys@,
                ),
                Some(f) => rs.len() > 0 && f == rs.last() && f.1 == ControlFlow::Return && r.0@
                    == kept_args(rs.drop_last(), param_tys@),
            },
    decreases items@,
{
    let mut args: Vec<Expr> = Vec::new();
    let n = if items.len() < param_tys.len() {
        items.len()
    } else {
        param_tys.len()
    };
    let mut i: usize = 0;
    let ghost mut cs: Seq<ResolveContext> = seq![*ctx];
    let ghost mut rs: Seq<ExprFlow> = Seq::empty();
    proof {
        lemma_extends_refl(*ctx);
    }
    while i < n
        invariant
            i <= n,
            n <= items@.len(),
            n <= param_tys@.len(),
            scopes_kept(*old(ctx), *ctx),
            supported_exprs(items@),
            extends(*old(ctx), *ctx),
            (exprs_have_return(items@)) ==> old(ctx).in_function(),
            args@.len() <= i,
            n == min_count(items@.len() as int, param_tys@.len() as int),
            rs.len() == i,
            args_trace(items@, param_tys@, func_ty, loc, cs, rs),
            cs[0] == *old(ctx),
            cs.last() == *ctx,
            i > 0 ==> rs.last().1 == ControlFlow::Flow,
            args@ == kept_args(rs, param_tys@),
        decreases n - i,
    {
        let ghost c1 = *ctx;
        proof {
            lemma_in_function_kept(*old(ctx), c1);
            lemma_exprs_all(items@, i as int);
            assert(decreases_to!(items@ => items@[i as int]));
            if !exprs_have_return(items@) {
                lemma_no_return_exprs(items@, i as int);
            }
        }
        let ExprFlow(arg, flow) = items[i].resolve(ctx);
        let ghost cm = *ctx;
        let ghost xf = ExprFlow(arg, flow);
        proof {
            lemma_extends_trans(*old(ctx), c1, *ctx);
            assert(expr_resolution(items@[i as int], c1, cm, xf));
        }
        if flow == ControlFlow::Return {
            proof {
                let cs2 = cs.push(cm);
                let rs2 = rs.push(xf);
                assert(arg_resolution(items@[i as int], param_tys@[i as int], i as int, func_ty, loc, cs2[i as int], cs2[i + 1], rs2[i as int]));
                assert forall|j: int| 0 <= j < rs2.len() implies #[trigger] arg_resolution(
                    items@[j], param_tys@[j], j, func_ty, loc, cs2[j], cs2[j + 1], rs2[j]) by {
                    if j < i {
                        assert(cs2[j] == cs[j] && cs2[j + 1] == cs[j + 1] && rs2[j] == rs[j]);
                    }
                }
                assert forall|j: int| 0 <= j < rs2.len() - 1 implies (#[trigger] rs2[j]).1 == ControlFlow::Flow by {
                    assert(rs2[j] == rs[j]);
                    if j < rs.len() - 1 {
                    } else {
                        assert(rs[j] == rs.last());
                    }
                }
                assert(rs2.drop_last() =~= rs);
                assert(args_trace(items@, param_tys@, func_ty, loc, cs2, rs2));
            }
            return (args, Some(ExprFlow(arg, flow)));
        }
        let ghost args0 = args@;
        match arg {
            None => {},
            Some(a) => {
                let aty = a.get_type();
                if param_tys[i] == aty {
                    args.push(a);
                } else {
                    let ghost c2 = *ctx;
                    ctx.push_error(
                        ResolveError::TypeResolveError(
                            TypeResolveError::ArgumentTypeMismatch {
                                func_ty: Located(func_ty, loc),
                                argument_index: i,
                                expect_type: param_tys[i],
                                actual_type: Located(aty, items[i].location()),
                            },
                        ),
                    );
                    proof {
                        assert(ctx.errors().subrange(0, c2.errors().len() as int) =~= c2.errors());
                        lemma_extends_trans(*old(ctx), c2, *ctx);
                    }
                }
            },
        }
        proof {
            let cs2 = cs.push(*ctx);
            let rs2 = rs.push(xf);
            assert(arg_resolution(items@[i as int], param_tys@[i as int], i as int, func_ty, loc, cs2[i as int], cs2[i + 1], rs2[i as int]));
            assert forall|j: int| 0 <= j < rs2.len() implies #[trigger] arg_resolution(
                items@[j], param_tys@[j], j, func_ty, loc, cs2[j], cs2[j + 1], rs2[j]) by {
                if j < i {
                    assert(cs2[j] == cs[j] && cs2[j + 1] == cs[j + 1] && rs2[j] == rs[j]);
                }
            }
            assert forall|j: int| 0 <= j < rs2.len() - 1 implies (#[trigger] rs2[j]).1 == ControlFlow::Flow by {
                assert(rs2[j] == rs[j]);
                if j < rs.len() - 1 {
                } else {
                    assert(rs[j] == rs.last());
                }
            }
            assert(rs2.drop_last() =~= rs);
            assert(args@ == kept_args(rs2, param_tys@));
            cs = cs2;
            rs = rs2;
        }
        i = i + 1;
    }
    (args, None)
}

proof fn lemma_exprs_all(s: Seq<ast::Expr>, i: int)
    requires
        supported_exprs(s),
        0 <= i < s.len(),
    ensures
        supported_expr(s[i]),
    decreases s.len(),
{
    if i == s.len() - 1 {
    } else {
        lemma_exprs_all(s.drop_last(), i);
    }
}

proof fn lemma_stmts_all(s: Seq<ast::Stmt>, i: int)
    requires
        supported_stmts(s),
        0 <= i < s.len(),
    ensures
        supported_stmt(s[i]),
    decreases s.len(),
{
    if i == s.len() - 1 {
    } else {
        lemma_stmts_all(s.drop_last(), i);
    }
}

/// The parameter types of a function symbol, in order.
pub open spec fn fn_param_tys(f: FuncSymbol) -> Seq<Type> {
    Seq::new(f.spec_params().len(), |i: int| f.spec_params()[i].1)
}

/// The function that a resolved callee `ce` names from the scopes `locals` of `g`: the
/// function symbol under the identifier of its function type.
pub open spec fn called_function(g: SymbolTable, locals: Seq<SymbolID>, ce: Expr) -> Option<
    FuncSymbol,
> {
    match expr_type(ce) {
        Type::Function(FuncType(id)) => match visible_symbol(locals, g, id) {
            Some(Symbol::Function(f)) => Some(f),
            _ => None,
        },
        _ => None,
    }
}

/// A call whose callee is a name (or a tree of literals and operators) of a known
/// function, and whose arguments do not return, is a call of that function: its type is
/// the function's return type, and a count of arguments other than the function's count
/// of parameters is reported.
pub open spec fn call_of_known_function(
    old: ResolveContext,
    new: ResolveContext,
    call: ast::CallExpr,
    r: ExprFlow,
) -> bool {
    let g = old.global();
    let l = old.locals();
    match pure_resolve(g, l, *call.callee) {
        Some((Some(ce), _)) => match called_function(g, l, ce) {
            Some(f) => !exprs_have_return(call.args.items@) ==> (r.1 == ControlFlow::Flow && (
            r.0 matches Some(Expr::Call(c)) && *c.callee == ce && c.ty == f.spec_ret_ty() && (
            exists|cs: Seq<ResolveContext>, rs: Seq<ExprFlow>|
                #[trigger] args_trace(
                    call.args.items@,
                    fn_param_tys(f),
                    expr_type(ce),
                    call_loc(call),
                    cs,
                    rs,
                ) && cs.last() == new && rs.len() == min_count(
                    call.args.items@.len() as int,
                    f.spec_params().len() as int,
                ) && c.args@ == kept_args(rs, fn_param_tys(f))) && (
            f.spec_params().len() != call.args.items@.len() ==> added_errors(old, new).contains(
                ResolveError::LiteralResolveError(
                    ValueResolveError::ArgumentCountMismatch {
                        func_ty: Located(expr_type(ce), call_loc(call)),
                        expect_count: f.spec_params().len() as usize,
                        actual_count: call.args.items@.len() as usize,
                    },
                ),
            )))),
            None => true,
        },
        _ => true,
    }
}

impl ast::CallExpr {
    /// Resolves a call: the callee must have a function type; a count of arguments other
    /// than the function's count of parameters is reported; the arguments are checked
    /// against the parameter types. The call has the function's return type.
    pub fn resolve(&self, ctx: &mut ResolveContext) -> (r: ExprFlow)
        requires
            old(ctx).wf(),
            (has_return(*self.callee) || exprs_have_return(self.args.items@)) ==> old(ctx).in_function(),
            supported_expr(ast::Expr::Call(*self)),
        ensures
            extends(*old(ctx), *final(ctx)),
            scopes_kept(*old(ctx), *final(ctx)),
            r.1 == ControlFlow::Flow && r.0 is Some ==> r.0->Some_0 is Call,
            r.0 matches Some(Expr::Call(c)) ==> (r.1 == ControlFlow::Flow ==> exists|f: FuncSymbol|
                #![trigger f.spec_ret_ty()]
                expr_type(*c.callee) is Function && c.ty == f.spec_ret_ty() && c.args@.len()
                    <= f.spec_params().len() && c.args@.len() <= self.args.items@.len() && (f.spec_params().len()
                    != self.args.items@.len() ==> added_errors(*old(ctx), *final(ctx)).contains(
                    ResolveError::LiteralResolveError(
                        ValueResolveError::ArgumentCountMismatch {
                            func_ty: Located(expr_type(*c.callee), call_loc(*self)),
                            expect_count: f.spec_params().len() as usize,
                            actual_count: self.args.items@.len() as usize,
                        },
                    ),
                ))),
            !has_return(*self.callee) && !exprs_have_return(self.args.items@) ==> r.1
                == ControlFlow::Flow,
            call_of_known_function(*old(ctx), *final(ctx), *self, r),
            const_resolve(*self.callee) matches Some((v, _)) && v is Some ==> r == ExprFlow(
                None,
                ControlFlow::Flow,
            ) && final(ctx).errors() == old(ctx).errors() + const_resolve(*self.callee)->Some_0.1
                + seq![
                ResolveError::TypeResolveError(
                    TypeResolveError::CallOnNonFunctionType(
                        Located(expr_type(const_resolve(*self.callee)->Some_0.0->Some_0), call_loc(*self)),
                    ),
                ),
            ],
        decreases self,
    {
        proof {
            if const_resolve(*self.callee) is Some {
                lemma_const_is_pure(ctx.global(), ctx.locals(), *self.callee);
            }
        }
        let ExprFlow(callee, flow) = self.callee.resolve(ctx);
        let callee = match callee {
            Some(e) => e,
            None => {
                return ExprFlow(None, flow);
            },
        };
        if flow == ControlFlow::Return {
            return ExprFlow(Some(callee), flow);
        }
        proof {
            if const_resolve(*self.callee) is Some && const_resolve(*self.callee)->Some_0.0 is Some {
                lemma_const_primitive(*self.callee);
            }
        }
        let ghost c1 = *ctx;
        let loc = crate::location::LocationRange::combine(self.callee.location(), self.paren_close_tok.1);
        let callee_ty = callee.get_type();
        let func_id = match callee_ty {
            Type::Function(FuncType(id)) => id,
            _ => {
                ctx.push_error(
                    ResolveError::TypeResolveError(
                        TypeResolveError::CallOnNonFunctionType(Located(callee_ty, loc)),
                    ),
                );
                proof {
                    assert(ctx.errors().subrange(0, c1.errors().len() as int) =~= c1.errors());
                    lemma_extends_trans(*old(ctx), c1, *ctx);
                }
                return ExprFlow(None, ControlFlow::Flow);
            },
        };
        let found = match ctx.get_symbol(func_id) {
            Some(Symbol::Function(f)) => Some((param_types(f), f.get_return_type(), Ghost(*f))),
            _ => None,
        };
        let (param_tys, ret_ty, Ghost(gf)) = match found {
            Some(x) => x,
            None => {
                ctx.push_error(
                    ResolveError::TypeResolveError(
                        TypeResolveError::CallOnNonFunctionType(Located(callee_ty, loc)),
                    ),
                );
                proof {
                    assert(ctx.errors().subrange(0, c1.errors().len() as int) =~= c1.errors());
                    lemma_extends_trans(*old(ctx), c1, *ctx);
                }
                return ExprFlow(None, ControlFlow::Flow);
            },
        };
        let ghost c1b = *ctx;
        if param_tys.len() != self.args.items.len() {
            ctx.push_error(
                ResolveError::LiteralResolveError(
                    ValueResolveError::ArgumentCountMismatch {
                        func_ty: Located(callee_ty, loc),
                        expect_count: param_tys.len(),
                        actual_count: self.args.items.len(),
                    },
                ),
            );
            proof {
                assert(ctx.errors().subrange(0, c1.errors().len() as int) =~= c1.errors());
            }
        } else {
            proof {
                lemma_extends_refl(*ctx);
            }
        }
        proof {
            lemma_extends_trans(*old(ctx), c1, *ctx);
        }
        let ghost c2 = *ctx;
        proof {
            lemma_in_function_kept(*old(ctx), c2);
        }
        proof {
            assert(param_tys@ =~= fn_param_tys(gf));
        }
        let (args, ret) = resolve_args(&self.args.items, &param_tys, callee_ty, loc, ctx);
        proof {
            lemma_extends_trans(*old(ctx), c2, *ctx);
        }
        match ret {
            Some(f) => f,
            None => {
                proof {
                    if param_tys@.len() != self.args.items@.len() {
                        assert(added_errors(c1b, c2)[0] == c2.errors().last());
                        lemma_added_kept(c1b, c2, *ctx, 0);
                        let j = choose|j: int| 0 <= j < added_errors(c1b, *ctx).len() && added_errors(c1b, *ctx)[j] == added_errors(c1b, c2)[0];
                        assert(added_errors(*old(ctx), *ctx)[j + c1b.errors().len() - old(ctx).errors().len()] == added_errors(c1b, *ctx)[j]);
                    }
                }
                ExprFlow(
                    Some(Expr::Call(CallExpr { callee: Box::new(callee), args, ty: ret_ty })),
                    ControlFlow::Flow,
                )
            },
        }
    }
}


/// The scopes open around a block are kept when the block's own table is the only one
/// entered in.
proof fn lemma_block_scopes(a: ResolveContext, b: ResolveContext, c: ResolveContext, d: ResolveContext)
    requires
        a.wf(),
        b.locals().len() == a.locals().len() + 1,
        b.locals().subrange(0, a.locals().len() as int) == a.locals(),
        !a.global().ids().contains(b.locals().last()),
        forall|k: SymbolID| #[trigger]
            a.global().ids().contains(k) ==> b.global().entry(k) == a.global().entry(k),
        outer_scopes_kept(b, c),
        d.global() == c.global(),
    ensures
        scopes_kept(a, d),
{
    assert forall|i: int| 0 <= i < a.locals().len() implies d.global().entry(
        #[trigger] a.locals()[i],
    ) == a.global().entry(a.locals()[i]) by {
        assert(local_ok(a.global(), a.locals()[i]));
        assert(b.locals()[i] == b.locals().subrange(0, a.locals().len() as int)[i]);
    }
}

/// The block `b` resolves from `c0` with result `r` in a new local table: its statements
/// as `stmts_resolution` says (from the context with that table open), then, unless one
/// returned, its final expression; a final expression that returns becomes the block's
/// last statement.
pub open spec fn block_body_resolution(b: ast::BlockExpr, c0: ResolveContext, r: ExprFlow) -> bool {
    r.0 matches Some(Expr::Block(rb)) ==> exists|
        cs: Seq<ResolveContext>,
        rs: Seq<(Option<Stmt>, ControlFlow)>,
        sf: ControlFlow,
    |
        #[trigger] stmts_resolution(b.stmts@, cs, rs, (kept_stmts(rs), sf)) && cs[0].locals()
            == c0.locals().push(rb.table_id) && cs[0].errors() == c0.errors() && if sf
            == ControlFlow::Return {
            rb.stmts@ == kept_stmts(rs) && rb.eval_expr is None && r.1 == ControlFlow::Return
        } else {
            match b.eval_expr {
                None => rb.stmts@ == kept_stmts(rs) && rb.eval_expr is None && r.1
                    == ControlFlow::Flow,
                Some(e) => exists|c: ResolveContext, x: ExprFlow|
                    #[trigger] expr_resolution(*e, cs.last(), c, x) && x.0 is Some && if x.1
                        == ControlFlow::Return {
                        rb.stmts@ == kept_stmts(rs).push(Stmt::Expr(ExprStmt { expr: x.0->Some_0 }))
                            && rb.eval_expr is None && r.1 == ControlFlow::Return
                    } else {
                        rb.stmts@ == kept_stmts(rs) && rb.eval_expr == Some(Box::new(x.0->Some_0))
                            && r.1 == ControlFlow::Flow
                    },
            }
        }
}

impl ast::BlockExpr {
    /// Resolves a block in a new local table: its statements in order (up to one that
    /// returns), then its final expression, whose type is the block's (`()` without one).
    /// A final expression that returns ends the block as its last statement.
    pub fn resolve(&self, ctx: &mut ResolveContext) -> (r: ExprFlow)
        requires
            old(ctx).wf(),
            (block_has_return(*self)) ==> old(ctx).in_function(),
            supported_block(*self),
        ensures
            extends(*old(ctx), *final(ctx)),
            scopes_kept(*old(ctx), *final(ctx)),
            r.0 is None || r.0->Some_0 is Block,
            r.0 matches Some(Expr::Block(b)) ==> (self.eval_expr is None ==> b.eval_expr is None),
            r.0 matches Some(Expr::Block(b)) ==> b.ty == (match b.eval_expr {
                Some(v) => expr_type(*v),
                None => unit_ty(),
            }),
            r.0 matches Some(Expr::Block(b)) ==> !old(ctx).global().ids().contains(b.table_id)
                && final(ctx).global().ids().contains(b.table_id),
            !block_has_return(*self) ==> r.1 == ControlFlow::Flow,
            block_always_resolves(*self) ==> r.0 is Some,
            const_block(*self) ==> r.1 == ControlFlow::Flow && (r.0 matches Some(Expr::Block(b))
                && b.ty == const_block_ty(*self)),
            block_resolution(*self, *old(ctx), *final(ctx), r),
            block_body_resolution(*self, *old(ctx), r),
            clean_const_block(*self) ==> r.1 == ControlFlow::Flow && final(ctx).errors() == old(
                ctx,
            ).errors() && (r.0 matches Some(Expr::Block(b)) && b.ty == (match self.eval_expr {
                Some(v) => expr_type(const_resolve(*v)->Some_0.0->Some_0),
                None => unit_ty(),
            })),
        decreases self,
    {
        let ghost a = *ctx;
        let table_id = ctx.push_local();
        let ghost b = *ctx;
        proof {
            lemma_extends_refl(*ctx);
            if block_has_return(*self) {
                assert(b.global().entry(a.func_id()) == a.global().entry(a.func_id()));
                assert(b.in_function());
            }
        }
        let (mut stmts, flow) = resolve_stmts(&self.stmts, ctx);
        let ghost (gcs, grs) = choose|cs: Seq<ResolveContext>, rs: Seq<(Option<Stmt>, ControlFlow)>|
            #[trigger] stmts_resolution(self.stmts@, cs, rs, (stmts@, flow)) && cs[0] == b
                && cs.last() == *ctx;
        proof {
            assert(stmts_resolution(self.stmts@, gcs, grs, (kept_stmts(grs), flow)));
        }
        if flow == ControlFlow::Return {
            let ghost c = *ctx;
            ctx.pop_local();
            proof {
                lemma_scope_roundtrip(a, b, c, *ctx, table_id);
                lemma_block_scopes(a, b, c, *ctx);
            }
            return ExprFlow(
                Some(Expr::Block(BlockExpr { table_id, stmts, eval_expr: None, ty: Type::unit() })),
                ControlFlow::Return,
            );
        }
        match &self.eval_expr {
            None => {
                let ghost c = *ctx;
                ctx.pop_local();
                proof {
                    lemma_scope_roundtrip(a, b, c, *ctx, table_id);
                    lemma_block_scopes(a, b, c, *ctx);
                }
                ExprFlow(
                    Some(Expr::Block(BlockExpr { table_id, stmts, eval_expr: None, ty: Type::unit() })),
                    ControlFlow::Flow,
                )
            },
            Some(e) => {
                let ghost c0 = *ctx;
                proof {
                    lemma_in_function_kept(b, c0);
                    if const_resolve(**e) is Some {
                        lemma_const_is_pure(c0.global(), c0.locals(), **e);
                    }
                }
                let ExprFlow(value, flow) = e.resolve(ctx);
                proof {
                    lemma_extends_trans(b, c0, *ctx);
                }
                let ghost c = *ctx;
                ctx.pop_local();
                proof {
                    lemma_scope_roundtrip(a, b, c, *ctx, table_id);
                    assert(outer_scopes_kept(b, c)) by {
                        assert forall|i: int|
                            0 <= i < b.locals().len() && b.locals()[i] != b.locals().last() implies c.global().entry(
                            #[trigger] b.locals()[i],
                        ) == b.global().entry(b.locals()[i]) by {
                            assert(c0.locals()[i] == b.locals()[i]);
                        }
                    }
                    lemma_block_scopes(a, b, c, *ctx);
                }
                match value {
                    None => ExprFlow(None, flow),
                    Some(v) => {
                        if flow == ControlFlow::Return {
                            stmts.push(Stmt::Expr(ExprStmt { expr: v }));
                            ExprFlow(
                                Some(
                                    Expr::Block(
                                        BlockExpr { table_id, stmts, eval_expr: None, ty: Type::unit() },
                                    ),
                                ),
                                ControlFlow::Return,
                            )
                        } else {
                            let ty = v.get_type();
                            ExprFlow(
                                Some(
                                    Expr::Block(
                                        BlockExpr { table_id, stmts, eval_expr: Some(Box::new(v)), ty },
                                    ),
                                ),
                                ControlFlow::Flow,
                            )
                        }
                    },
                }
            },
        }
    }
}

/// A statement resolves from `c0` to `c1` with result `r`: an expression statement holds
/// the resolution of its expression, a let statement is resolved as `let_resolution`
/// says.
pub open spec fn stmt_resolution(s: ast::Stmt, c0: ResolveContext, c1: ResolveContext, r: (Option<Stmt>, ControlFlow)) -> bool {
    &&& extends(c0, c1)
    &&& outer_scopes_kept(c0, c1)
    &&& (!stmt_has_return(s) ==> r.1 == ControlFlow::Flow)
    &&& match s {
        ast::Stmt::Expr(es) => exists|x: ExprFlow|
            #[trigger] expr_resolution(es.expr, c0, c1, x) && r.1 == x.1 && r.0 == match x.0 {
                Some(e) => Some(Stmt::Expr(ExprStmt { expr: e })),
                None => None,
            },
        ast::Stmt::Let(l) => exists|lr: (Option<LetStmt>, ControlFlow)|
            #[trigger] let_resolution(l, c0, c1, lr) && r.1 == lr.1 && r.0 == match lr.0 {
                Some(x) => Some(Stmt::Let(x)),
                None => None,
            },
    }
}

/// The statements kept from the results `rs`: those that resolved, in order.
pub open spec fn kept_stmts(rs: Seq<(Option<Stmt>, ControlFlow)>) -> Seq<Stmt>
    decreases rs.len(),
{
    if rs.len() == 0 {
        Seq::empty()
    } else {
        match rs.last().0 {
            Some(x) => kept_stmts(rs.drop_last()).push(x),
            None => kept_stmts(rs.drop_last()),
        }
    }
}

/// The statements `items` resolve one after the other through the contexts `cs`, with
/// results `rs`: all of them, or up to the first that returns; the result keeps those
/// that resolved.
pub open spec fn stmts_resolution(
    items: Seq<ast::Stmt>,
    cs: Seq<ResolveContext>,
    rs: Seq<(Option<Stmt>, ControlFlow)>,
    r: (Seq<Stmt>, ControlFlow),
) -> bool {
    &&& cs.len() == rs.len() + 1
    &&& rs.len() <= items.len()
    &&& forall|j: int| 0 <= j < rs.len() ==> #[trigger] stmt_resolution(items[j], cs[j], cs[j + 1], rs[j])
    &&& forall|j: int| 0 <= j < rs.len() - 1 ==> (#[trigger] rs[j]).1 == ControlFlow::Flow
    &&& r.0 == kept_stmts(rs)
    &&& if r.1 == ControlFlow::Return {
        rs.len() > 0 && rs.last().1 == ControlFlow::Return
    } else {
        rs.len() == items.len() && (rs.len() > 0 ==> rs.last().1 == ControlFlow::Flow)
    }
}

/// Resolves statements in order, keeping those that resolve, up to one that returns.
fn resolve_stmts(items: &Vec<ast::Stmt>, ctx: &mut ResolveContext) -> (r: (Vec<Stmt>, ControlFlow))
    requires
        old(ctx).wf(),
        (stmts_have_return(items@)) ==> old(ctx).in_function(),
        old(ctx).locals().len() > 0,
        supported_stmts(items@),
    ensures
        extends(*old(ctx), *final(ctx)),
        outer_scopes_kept(*old(ctx), *final(ctx)),
        !stmts_have_return(items@) ==> r.1 == ControlFlow::Flow,
        items@.len() == 0 ==> *final(ctx) == *old(ctx) && r.0@.len() == 0 && r.1
            == ControlFlow::Flow,
        exists|cs: Seq<ResolveContext>, rs: Seq<(Option<Stmt>, ControlFlow)>|
            #[trigger] stmts_resolution(items@, cs, rs, (r.0@, r.1)) && cs[0] == *old(ctx) && cs.last()
                == *final(ctx),
    decreases items@,
{
    let mut out: Vec<Stmt> = Vec::new();
    let mut i: usize = 0;
    let ghost mut cs: Seq<ResolveContext> = seq![*ctx];
    let ghost mut rs: Seq<(Option<Stmt>, ControlFlow)> = Seq::empty();
    proof {
        lemma_extends_refl(*ctx);
        if !stmts_have_return(items@) {
            assert forall|j: int| 0 <= j < items@.len() implies !stmt_has_return(#[trigger] items@[j]) by {
                lemma_no_return_stmts(items@, j);
            }
        }
    }
    while i < items.len()
        invariant
            i <= items@.len(),
            supported_stmts(items@),
            extends(*old(ctx), *ctx),
            outer_scopes_kept(*old(ctx), *ctx),
            (stmts_have_return(items@)) ==> old(ctx).in_function(),
            old(ctx).locals().len() > 0,
            !stmts_have_return(items@) ==> forall|j: int| 0 <= j < items@.len() ==> !stmt_has_return(#[trigger] items@[j]),
            items@.len() == 0 ==> *ctx == *old(ctx) && out@.len() == 0,
            cs.len() == rs.len() + 1,
            rs.len() == i,
            forall|j: int| 0 <= j < rs.len() ==> #[trigger] stmt_resolution(items@[j], cs[j], cs[j + 1], rs[j]),
            forall|j: int| 0 <= j < rs.len() ==> (#[trigger] rs[j]).1 == ControlFlow::Flow,
            out@ == kept_stmts(rs),
            cs[0] == *old(ctx),
            cs.last() == *ctx,
        decreases items.len() - i,
    {
        let ghost c1 = *ctx;
        proof {
            lemma_in_function_kept(*old(ctx), c1);
            lemma_stmts_all(items@, i as int);
            assert(decreases_to!(items@ => items@[i as int]));
        }
        let (stmt, flow) = items[i].resolve(ctx);
        let ghost sr = (stmt, flow);
        proof {
            lemma_extends_trans(*old(ctx), c1, *ctx);
            assert(stmt_resolution(items@[i as int], c1, *ctx, sr));
        }
        let ghost out0 = out@;
        match stmt {
            Some(s) => out.push(s),
            None => {},
        }
        proof {
            let cs2 = cs.push(*ctx);
            let rs2 = rs.push(sr);
            assert forall|j: int| 0 <= j < rs2.len() implies #[trigger] stmt_resolution(items@[j], cs2[j], cs2[j + 1], rs2[j]) by {
                if j < i {
                    assert(cs2[j] == cs[j] && cs2[j + 1] == cs[j + 1] && rs2[j] == rs[j]);
                }
            }
            assert forall|j: int| 0 <= j < rs2.len() - 1 implies (#[trigger] rs2[j]).1 == ControlFlow::Flow by {
                assert(rs2[j] == rs[j]);
            }
            assert(rs2.drop_last() =~= rs);
            assert(out@ == kept_stmts(rs2));
            cs = cs2;
            rs = rs2;
        }
        if flow == ControlFlow::Return {
            proof {
                assert(stmts_resolution(items@, cs, rs, (out@, ControlFlow::Return)));
            }
            return (out, ControlFlow::Return);
        }
        i = i + 1;
    }
    proof {
        assert(stmts_resolution(items@, cs, rs, (out@, ControlFlow::Flow)));
    }
    (out, ControlFlow::Flow)
}

impl ast::Stmt {
    /// Resolves a statement: an expression statement, or a let statement.
    pub fn resolve(&self, ctx: &mut ResolveContext) -> (r: (Option<Stmt>, ControlFlow))
        requires
            old(ctx).wf(),
            (stmt_has_return(*self)) ==> old(ctx).in_function(),
            old(ctx).locals().len() > 0,
            supported_stmt(*self),
        ensures
            extends(*old(ctx), *final(ctx)),
            outer_scopes_kept(*old(ctx), *final(ctx)),
            !stmt_has_return(*self) ==> r.1 == ControlFlow::Flow,
            stmt_resolution(*self, *old(ctx), *final(ctx), r),
        decreases self,
    {
        match self {
            ast::Stmt::Expr(es) => {
                let ExprFlow(e, flow) = es.expr.resolve(ctx);
                proof {
                    assert(expr_resolution(es.expr, *old(ctx), *ctx, ExprFlow(e, flow)));
                }
                match e {
                    Some(e) => (Some(Stmt::Expr(ExprStmt { expr: e })), flow),
                    None => (None, flow),
                }
            },
            ast::Stmt::Let(l) => {
                let (s, flow) = l.resolve(ctx);
                proof {
                    assert(let_resolution(*l, *old(ctx), *ctx, (s, flow)));
                }
                match s {
                    Some(s) => (Some(Stmt::Let(s)), flow),
                    None => (None, flow),
                }
            },
        }
    }
}

/// The type and origin of the symbol already named `name` in the current table.
fn first_origin(ctx: &ResolveContext, name: &str, fallback: (Type, LocationRange)) -> (r: (
    Type,
    LocationRange,
))
    requires
        ctx.wf(),
    ensures
        ctx.locals().len() == 0 ==> r == (if ctx.global().names().contains_key(name@)
            && ctx.global().entry(ctx.global().names()[name@]) is Symbol {
            let s = ctx.global().entry(ctx.global().names()[name@])->Symbol_0;
            (s.spec_type(), s.spec_name().1)
        } else {
            fallback
        }),
        ctx.locals().len() > 0 ==> r == (if ctx.current_table().names().contains_key(name@)
            && ctx.current_table().entry(ctx.current_table().names()[name@]) is Symbol {
            let s = ctx.current_table().entry(ctx.current_table().names()[name@])->Symbol_0;
            (s.spec_type(), s.spec_name().1)
        } else {
            fallback
        }),
{
    match ctx.current_symbol_by_name(name) {
        Some(s) => (s.get_type(), s.get_origin()),
        None => fallback,
    }
}

/// A variable symbol entered under `id` is a variable with that identifier, and keeps its
/// name and type.
proof fn var_sym_entry(s: Symbol, id: SymbolID)
    requires
        s is Variable,
    ensures
        SymbolTableEntry::Symbol(s).with_id(id) matches SymbolTableEntry::Symbol(Symbol::Variable(v))
            && v.spec_id() == id && v.spec_ty() == s->Variable_0.spec_ty() && v.spec_name()
            == s->Variable_0.spec_name(),
{
    s.lemma_with_id(id);
}

/// `e` reports that `name` is already used in `table`: the error names it, gives the
/// place of the new declaration, and the type and place of the symbol already there.
pub open spec fn dup_var_error(e: ResolveError, table: SymbolTable, name: Located<String>) -> bool {
    &&& e matches ResolveError::IdentResolveError(
        IdentResolveError::VarNameAlreadyUsed { ident, first_origin, dup_origin },
    )
    &&& ident@ == name.0@
    &&& dup_origin.1 == name.1
    &&& (table.names().contains_key(name.0@) && table.entry(table.names()[name.0@]) is Symbol
        ==> first_origin == (
        table.entry(table.names()[name.0@])->Symbol_0.spec_type(),
        table.entry(table.names()[name.0@])->Symbol_0.spec_name().1,
    ))
}

/// A let statement resolves from `c0` to `c1` with result `r` by first resolving its
/// value: a value that returns ends the statement (nothing more is done), and the
/// statement, when it resolves, holds the value's result.
pub open spec fn let_resolution(l: ast::LetStmt, c0: ResolveContext, c2: ResolveContext, r: (Option<LetStmt>, ControlFlow)) -> bool {
    exists|c1: ResolveContext, v: ExprFlow|
        #[trigger] expr_resolution(l.value, c0, c1, v) && (v.1 == ControlFlow::Return ==> r.0 is None
            && r.1 == ControlFlow::Return && c2 == c1) && (r.0 matches Some(s) ==> v.1
            == ControlFlow::Flow && v.0 == Some(s.value))
}

impl ast::LetStmt {
    /// Resolves `let name [type] = value;`: the declared type, when there is one, must be
    /// the value's; the variable gets the declared type (or the value's) and is entered
    /// in the current table, where its name must be new.
    pub fn resolve(&self, ctx: &mut ResolveContext) -> (r: (Option<LetStmt>, ControlFlow))
        requires
            old(ctx).wf(),
            (has_return(self.value)) ==> old(ctx).in_function(),
            old(ctx).locals().len() > 0,
            supported_expr(self.value),
        ensures
            extends(*old(ctx), *final(ctx)),
            outer_scopes_kept(*old(ctx), *final(ctx)),
            r.0 matches Some(s) ==> s.name == self.name && final(ctx).current_table().names().contains_key(
                self.name.0@,
            ),
            r.0 matches Some(s) ==> (final(ctx).current_table().names() == old(ctx).current_table().names().insert(
                self.name.0@,
                s.sym_id,
            ) && (final(ctx).current_table().entry(s.sym_id) matches SymbolTableEntry::Symbol(
                Symbol::Variable(v),
            ) && v.spec_id() == s.sym_id && v.spec_ty() == s.ty && v.spec_name() == self.name)),
            !old(ctx).current_table().names().contains_key(self.name.0@) && !has_return(self.value)
                && always_resolves(self.value) ==> r.0 is Some,
            old(ctx).current_table().names().contains_key(self.name.0@) ==> r.0 is None && scopes_kept(
                *old(ctx),
                *final(ctx),
            ),
            old(ctx).current_table().names().contains_key(self.name.0@) && !has_return(self.value) && (
            always_resolves(self.value) || self.ty matches Some(ast::Type::Primitive(_))) ==> (
            old(ctx).errors().len() < final(ctx).errors().len() && dup_var_error(
                final(ctx).errors().last(),
                old(ctx).current_table(),
                self.name,
            )),
            let_resolution(*self, *old(ctx), *final(ctx), r),
            !has_return(self.value) ==> r.1 == ControlFlow::Flow,
            r.0 matches Some(s) ==> s.ty == (match self.ty {
                Some(ast::Type::Primitive(p)) => Type::Primitive(p.0),
                _ => expr_type(s.value),
            }),
            r.0 matches Some(s) ==> (self.ty matches Some(ast::Type::Primitive(p)) ==> (Type::Primitive(p.0)
                != expr_type(s.value) ==> added_errors(*old(ctx), *final(ctx)).contains(
                ResolveError::TypeResolveError(
                    TypeResolveError::AssignmentTypeMismatch {
                        target_ty: Located(Type::Primitive(p.0), p.1),
                        value_ty: Located(expr_type(s.value), ast::expr_loc(self.value)),
                    },
                ),
            ))),
        decreases self,
    {
        let ExprFlow(value, flow) = self.value.resolve(ctx);
        let ghost c1 = *ctx;
        let ghost vf = ExprFlow(value, flow);
        proof {
            assert(expr_resolution(self.value, *old(ctx), c1, vf));
        }
        if flow == ControlFlow::Return {
            return (None, ControlFlow::Return);
        }
        let ann = match &self.ty {
            Some(t) => t.resolve(ctx),
            None => {
                proof {
                    lemma_extends_refl(*ctx);
                }
                None
            },
        };
        proof {
            lemma_extends_trans(*old(ctx), c1, *ctx);
        }
        let ghost c2 = *ctx;
        let ty = match &value {
            Some(v) => {
                let vty = v.get_type();
                match ann {
                    Some(a) => {
                        if a != vty {
                            let tloc = match &self.ty {
                                Some(t) => t.location(),
                                None => self.name.1,
                            };
                            ctx.push_error(
                                ResolveError::TypeResolveError(
                                    TypeResolveError::AssignmentTypeMismatch {
                                        target_ty: Located(a, tloc),
                                        value_ty: Located(vty, self.value.location()),
                                    },
                                ),
                            );
                            proof {
                                assert(ctx.errors().subrange(0, c2.errors().len() as int)
                                    =~= c2.errors());
                                assert(added_errors(c2, *ctx)[0] == ctx.errors().last());
                            }
                        }
                        a
                    },
                    None => vty,
                }
            },
            None => match ann {
                Some(a) => a,
                None => {
                    return (None, ControlFlow::Flow);
                },
            },
        };
        proof {
            if ctx.errors() == c2.errors() {
                lemma_extends_refl(*ctx);
            }
            lemma_extends_trans(*old(ctx), c2, *ctx);
        }
        let ghost c3 = *ctx;
        let var_sym = VarSymbol::new(clone_name(&self.name), ty);
        let sym_id = ctx.new_symbol(self.name.0.as_str(), Symbol::Variable(var_sym));
        let ghost c4 = *ctx;
        proof {
            assert(extends(c3, c4)) by {
                assert(c4.errors().subrange(0, c3.errors().len() as int) =~= c3.errors());
            }
            lemma_extends_trans(*old(ctx), c3, c4);
            assert(c3.locals() == old(ctx).locals());
            assert(local_ok(old(ctx).global(), old(ctx).locals()[old(ctx).locals().len() - 1]));
            assert(c3.current_table() == old(ctx).current_table()) by {
                assert(old(ctx).locals()[old(ctx).locals().len() - 1] == old(ctx).locals().last());
            }
            assert forall|i: int|
                0 <= i < old(ctx).locals().len() && old(ctx).locals()[i] != old(ctx).locals().last() implies c4.global().entry(
                #[trigger] old(ctx).locals()[i],
            ) == old(ctx).global().entry(old(ctx).locals()[i]) by {
                assert(local_ok(c3.global(), c3.locals()[i]));
            }
            if sym_id is None {
                assert forall|i: int| 0 <= i < old(ctx).locals().len() implies c4.global().entry(
                    #[trigger] old(ctx).locals()[i],
                ) == old(ctx).global().entry(old(ctx).locals()[i]) by {
                    assert(local_ok(c3.global(), c3.locals()[i]));
                }
            } else {
                var_sym_entry(Symbol::Variable(var_sym), sym_id->Some_0);
            }
        }
        match sym_id {
            None => {
                let first = first_origin(ctx, self.name.0.as_str(), (ty, self.name.1));
                ctx.push_error(
                    ResolveError::IdentResolveError(
                        IdentResolveError::VarNameAlreadyUsed {
                            ident: self.name.0.clone(),
                            first_origin: first,
                            dup_origin: (ty, self.name.1),
                        },
                    ),
                );
                proof {
                    assert(ctx.errors().subrange(0, c4.errors().len() as int) =~= c4.errors());
                    lemma_extends_trans(*old(ctx), c4, *ctx);
                }
                (None, ControlFlow::Flow)
            },
            Some(sym_id) => match value {
                Some(v) => {
                    proof {
                        if self.ty matches Some(ast::Type::Primitive(p)) && Type::Primitive(p.0)
                            != expr_type(v) {
                            assert(added_errors(c2, c3).len() == 1);
                            lemma_added_kept(c2, c3, *ctx, 0);
                            assert(added_errors(c2, *ctx).contains(added_errors(c2, c3)[0]));
                            let j = choose|j: int| 0 <= j < added_errors(c2, *ctx).len() && added_errors(c2, *ctx)[j] == added_errors(c2, c3)[0];
                            assert(added_errors(*old(ctx), *ctx)[j + c2.errors().len() - old(ctx).errors().len()] == added_errors(c2, *ctx)[j]);
                        }
                    }
                    (
                        Some(LetStmt { sym_id, name: clone_name(&self.name), ty, value: v }),
                        ControlFlow::Flow,
                    )
                },
                None => (None, ControlFlow::Flow),
            },
        }
    }
}

impl ast::ReturnExpr {
    /// Resolves `return [value]`: the value's type (`()` without one) must be the return
    /// type of the function being resolved. A return never flows on.
    pub fn resolve(&self, ctx: &mut ResolveContext) -> (r: ExprFlow)
        requires
            old(ctx).wf(),
            old(ctx).in_function(),
            supported_expr(ast::Expr::Return(*self)),
        ensures
            extends(*old(ctx), *final(ctx)),
            scopes_kept(*old(ctx), *final(ctx)),
            r.1 == ControlFlow::Return,
            self.expr is None ==> r.0 == Some(Expr::Return(ReturnExpr { expr: None })),
            self.expr is None && old(ctx).func().spec_ret_ty() == unit_ty() ==> final(ctx).errors()
                == old(ctx).errors(),
            self.expr is None && old(ctx).func().spec_ret_ty() != unit_ty() ==> mismatch_reported(
                *old(ctx),
                *final(ctx),
                unit_ty(),
            ),
            self.expr matches Some(x) && !has_return(*x) ==> (r.0 matches Some(Expr::Return(rx))
                && (rx.expr matches Some(v) ==> (expr_type(*v) != old(ctx).func().spec_ret_ty()
                ==> mismatch_reported(*old(ctx), *final(ctx), expr_type(*v))))),
        decreases self,
    {
        let func_sym_id = ctx.get_func_symbol_id();
        let (func_name, expect_ret_ty) = match ctx.get_global_symbol(func_sym_id) {
            Some(Symbol::Function(f)) => {
                proof {
                    assert(*f == old(ctx).func());
                }
                (f.get_name().to_owned(), f.get_return_type())
            },
            _ => {
                assert(false);
                (String::new(), Type::unit())
            },
        };
        let loc = crate::location::LocationRange::combine(
            self.return_tok.1,
            match &self.expr {
                Some(x) => x.location(),
                None => self.return_tok.1,
            },
        );
        let (value, val_ty) = match &self.expr {
            Some(e) => {
                let ExprFlow(v, flow) = e.resolve(ctx);
                if flow == ControlFlow::Return {
                    return ExprFlow(v, flow);
                }
                let vty = match &v {
                    Some(x) => x.get_type(),
                    None => expect_ret_ty,
                };
                (v, vty)
            },
            None => {
                proof {
                    lemma_extends_refl(*ctx);
                }
                (None, Type::unit())
            },
        };
        if expect_ret_ty != val_ty {
            let ghost c1 = *ctx;
            ctx.push_error(
                ResolveError::TypeResolveError(
                    TypeResolveError::ReturnTypeMismatch {
                        function_name: func_name,
                        expected_type: expect_ret_ty,
                        actual_type: Located(val_ty, loc),
                    },
                ),
            );
            proof {
                assert(ctx.errors().subrange(0, c1.errors().len() as int) =~= c1.errors());
                lemma_extends_trans(*old(ctx), c1, *ctx);
                let k = added_errors(*old(ctx), *ctx).len() - 1;
                assert(added_errors(*old(ctx), *ctx)[k] == ctx.errors().last());
                assert(is_return_mismatch(added_errors(*old(ctx), *ctx)[k], old(ctx).func(), val_ty));
            }
        }
        let expr = match value {
            Some(v) => Some(Box::new(v)),
            None => None,
        };
        ExprFlow(Some(Expr::Return(ReturnExpr { expr })), ControlFlow::Return)
    }
}

/// What every resolution of the block `b` from `c0` to `c1` with result `r` satisfies:
/// the context only grows, the open scopes are kept, the result is a block, and a block
/// without `return` flows on.
pub open spec fn block_resolution(b: ast::BlockExpr, c0: ResolveContext, c1: ResolveContext, r: ExprFlow) -> bool {
    &&& extends(c0, c1)
    &&& scopes_kept(c0, c1)
    &&& (r.0 is None || r.0->Some_0 is Block)
    &&& (!block_has_return(b) ==> r.1 == ControlFlow::Flow)
}

/// The type of a resolved branch, when it resolved.
pub open spec fn flow_ty(r: ExprFlow) -> Option<Type> {
    match r.0 {
        Some(e) => Some(expr_type(e)),
        None => None,
    }
}

/// The `else` part resolves from `c0` to `c1` with result `r`: its block, or nothing.
pub open spec fn else_resolution(e: Option<ast::ElseExpr>, c0: ResolveContext, c1: ResolveContext, r: ExprFlow) -> bool {
    match e {
        Some(e) => block_resolution(e.body, c0, c1, r),
        None => c1 == c0 && r == ExprFlow(None, ControlFlow::Flow),
    }
}

/// The branches of `i` resolve from `c0` to `c3` with result `r`: the `then` block, then
/// the `else` part, then `if_rule` on their types, whose errors are recorded; the `if`
/// returns when both branches return.
pub open spec fn if_branches(i: ast::IfExpr, c0: ResolveContext, c3: ResolveContext, r: ExprFlow) -> bool {
    exists|c1: ResolveContext, t: ExprFlow|
        #[trigger] block_resolution(i.then_body, c0, c1, t) && exists|c2: ResolveContext, x: ExprFlow|
            #[trigger] else_resolution(i.else_expr, c1, c2, x) && {
                let rule = if_rule(flow_ty(t), ast::block_loc(i.then_body), flow_ty(x), if_else_loc(i));
                &&& c3.errors() == c2.errors() + rule.1
                &&& c3.global() == c2.global()
                &&& r.1 == (if t.1 == ControlFlow::Return && x.1 == ControlFlow::Return {
                    ControlFlow::Return
                } else {
                    ControlFlow::Flow
                })
                &&& (rule.0 is None ==> r.0 is None)
                &&& (r.0 is Some ==> r.0->Some_0 is If && rule.0 == Some(r.0->Some_0->If_0.ty) && t.0
                    == Some(Expr::Block(r.0->Some_0->If_0.then_body)))
            }
}

/// An `if` resolves from `c0` to `c2` with result `r` by resolving its condition: a
/// condition that returns ends the `if`; a condition that resolves to the literal `false`
/// makes the `if` its `else` part (resolved right after the condition; the `then` block
/// is not resolved); any other condition is checked to be a `bool` and then both
/// branches are resolved.
pub open spec fn if_resolution(i: ast::IfExpr, c0: ResolveContext, c2: ResolveContext, r: ExprFlow) -> bool {
    exists|c1: ResolveContext, cf: ExprFlow|
        #[trigger] expr_resolution(*i.cond, c0, c1, cf) && if cf.1 == ControlFlow::Return {
            r == cf && c2 == c1
        } else if cf.0 == Some(Expr::Bool(false)) {
            match i.else_expr {
                Some(e) => block_resolution(e.body, c1, c2, r),
                None => r == ExprFlow(None, ControlFlow::Flow) && c2 == c1,
            }
        } else {
            exists|cb: ResolveContext|
                extends(c1, cb) && cb.global() == c1.global() && #[trigger] if_branches(i, cb, c2, r)
        }
}

impl ast::IfExpr {
    /// Resolves `if`: the condition must be a `bool`; when it is the constant `false`,
    /// the `if` is its `else` block (or nothing). Otherwise both branches are resolved,
    /// the type follows `if_rule`, and the `if` returns when both branches return.
    pub fn resolve(&self, ctx: &mut ResolveContext) -> (r: ExprFlow)
        requires
            old(ctx).wf(),
            (has_return(ast::Expr::If(*self))) ==> old(ctx).in_function(),
            supported_expr(ast::Expr::If(*self)),
        ensures
            extends(*old(ctx), *final(ctx)),
            scopes_kept(*old(ctx), *final(ctx)),
            r.0 matches Some(Expr::If(i)) ==> (r.1 == ControlFlow::Flow ==> if_rule(
                Some(i.then_body.ty),
                ast::block_loc(self.then_body),
                block_ty(i.else_body),
                if_else_loc(*self),
            ).0 == Some(i.ty)),
            r.0 matches Some(Expr::If(i)) ==> (r.1 == ControlFlow::Flow ==> (self.else_expr is None
                ==> i.else_body is None)),
            !has_return(*self.cond) ==> (r.0 matches Some(Expr::If(i)) ==> !(*i.cond matches Expr::Bool(
                false,
            ))),
            !has_return(ast::Expr::If(*self)) ==> r.1 == ControlFlow::Flow,
            r.0 matches Some(Expr::If(i)) ==> (r.1 == ControlFlow::Flow && expr_type(*i.cond)
                != bool_ty() ==> added_errors(
                *old(ctx),
                *final(ctx),
            ).contains(
                ResolveError::TypeResolveError(
                    TypeResolveError::NonBoolInIfCond(
                        Located(expr_type(*i.cond), ast::expr_loc(*self.cond)),
                    ),
                ),
            )),
            const_false_cond(*self.cond) && self.else_expr is None ==> r == ExprFlow(
                None,
                ControlFlow::Flow,
            ) && final(ctx).errors() == old(ctx).errors() + const_resolve(*self.cond)->Some_0.1,
            const_false_cond(*self.cond) && self.else_expr is Some ==> (r.0 is None
                || r.0->Some_0 is Block),
            const_false_cond(*self.cond) && self.else_expr is Some && const_block(
                self.else_expr->Some_0.body,
            ) ==> r.1 == ControlFlow::Flow && (r.0 matches Some(Expr::Block(b)) && b.ty
                == const_block_ty(self.else_expr->Some_0.body)),
            const_other_cond(*self.cond) && self.else_expr is None && block_always_resolves(
                self.then_body,
            ) ==> (r.0 matches Some(Expr::If(i)) && const_resolve(*self.cond)->Some_0.0 == Some(
                *i.cond,
            )),
            if_resolution(*self, *old(ctx), *final(ctx), r),
            const_other_cond(*self.cond) && self.else_expr is Some && const_block(self.then_body)
                && const_block(self.else_expr->Some_0.body) ==> (if const_block_ty(self.then_body)
                == const_block_ty(self.else_expr->Some_0.body) {
                r.0 matches Some(Expr::If(i)) && i.ty == const_block_ty(self.then_body)
            } else {
                r == ExprFlow(None, ControlFlow::Flow) && final(ctx).errors().last()
                    == ResolveError::TypeResolveError(
                    TypeResolveError::BlockBranchTypeMismatch {
                        branch: Located(const_block_ty(self.then_body), ast::block_loc(self.then_body)),
                        other: Located(
                            const_block_ty(self.else_expr->Some_0.body),
                            ast::else_loc(self.else_expr->Some_0),
                        ),
                    },
                )
            }),
        decreases self,
    {
        proof {
            if const_resolve(*self.cond) is Some {
                lemma_const_is_pure(ctx.global(), ctx.locals(), *self.cond);
            }
        }
        let ExprFlow(cond, flow) = self.cond.resolve(ctx);
        let ghost c1 = *ctx;
        let ghost cff = ExprFlow(cond, flow);
        proof {
            assert(expr_resolution(*self.cond, *old(ctx), c1, cff));
        }
        if flow == ControlFlow::Return {
            return ExprFlow(cond, flow);
        }
        let mut const_false = false;
        match &cond {
            Some(c) => {
                if c.get_type() != Type::bool_ty() {
                    ctx.push_error(
                        ResolveError::TypeResolveError(
                            TypeResolveError::NonBoolInIfCond(Located(c.get_type(), self.cond.location())),
                        ),
                    );
                    proof {
                        assert(ctx.errors().subrange(0, c1.errors().len() as int) =~= c1.errors());
                        assert(added_errors(*old(ctx), *ctx).last() == ctx.errors().last());
                    }
                } else {
                    proof {
                        lemma_extends_refl(*ctx);
                    }
                }
                const_false = match c {
                    Expr::Bool(false) => true,
                    _ => false,
                };
            },
            None => {
                proof {
                    lemma_extends_refl(*ctx);
                }
            },
        }
        proof {
            lemma_extends_trans(*old(ctx), c1, *ctx);
        }
        if const_false {
            return match &self.else_expr {
                Some(e) => {
                    let ghost c2 = *ctx;
                    proof {
                        lemma_in_function_kept(*old(ctx), c2);
                    }
                    let r = e.body.resolve(ctx);
                    proof {
                        lemma_extends_trans(*old(ctx), c2, *ctx);
                        assert(block_resolution(e.body, c1, *ctx, r));
                    }
                    r
                },
                None => ExprFlow(None, ControlFlow::Flow),
            };
        }
        let ghost c3 = *ctx;
        proof {
            lemma_in_function_kept(*old(ctx), c3);
        }
        let ExprFlow(then_block, then_flow) = self.then_body.resolve(ctx);
        let ghost tf = ExprFlow(then_block, then_flow);
        proof {
            lemma_extends_trans(*old(ctx), c3, *ctx);
            assert(block_resolution(self.then_body, c3, *ctx, tf));
        }
        let then_ty = match &then_block {
            Some(b) => Some(b.get_type()),
            None => None,
        };
        let ghost c4 = *ctx;
        proof {
            lemma_in_function_kept(*old(ctx), c4);
        }
        let ExprFlow(else_block, else_flow) = match &self.else_expr {
            Some(e) => e.body.resolve(ctx),
            None => {
                proof {
                    lemma_extends_refl(*ctx);
                }
                ExprFlow(None, ControlFlow::Flow)
            },
        };
        proof {
            lemma_extends_trans(*old(ctx), c4, *ctx);
        }
        let else_ty = match &else_block {
            Some(b) => Some(b.get_type()),
            None => None,
        };
        let result_flow = if then_flow == ControlFlow::Return && else_flow == ControlFlow::Return {
            ControlFlow::Return
        } else {
            ControlFlow::Flow
        };
        let else_loc = match &self.else_expr {
            Some(e) => e.location(),
            None => self.then_body.location(),
        };
        let ghost c5 = *ctx;
        let ghost ef = ExprFlow(else_block, else_flow);
        proof {
            assert(else_resolution(self.else_expr, c4, c5, ef));
        }
        let (result_ty, errs) = check_if(then_ty, self.then_body.location(), else_ty, else_loc);
        push_errors(ctx, errs);
        proof {
            lemma_extends_trans(*old(ctx), c5, *ctx);
        }
        proof {
            lemma_extends_trans(c3, c4, c5);
            lemma_extends_trans(c3, c5, *ctx);
            if cond is Some && expr_type(cond->Some_0) != bool_ty() {
                assert(added_errors(*old(ctx), c3).len() > 0);
                lemma_added_kept(*old(ctx), c3, *ctx, added_errors(*old(ctx), c3).len() - 1);
            }
        }
        let res = match (cond, then_block, result_ty) {
            (Some(cond), Some(Expr::Block(then_body)), Some(ty)) => {
                let else_body = match else_block {
                    Some(Expr::Block(b)) => Some(b),
                    _ => None,
                };
                ExprFlow(
                    Some(Expr::If(IfExpr { cond: Box::new(cond), then_body, else_body, ty })),
                    result_flow,
                )
            },
            _ => ExprFlow(None, result_flow),
        };
        proof {
            assert(c3.global() == c1.global());
            assert(extends(c1, c3));
            let rule = if_rule(flow_ty(tf), ast::block_loc(self.then_body), flow_ty(ef), if_else_loc(*self));
            assert(rule.1 == errs@);
            assert(if_branches(*self, c3, *ctx, res));
            assert(cff.0 != Some(Expr::Bool(false)));
        }
        res
    }
}


/// Resolution of signatures went on from `old` to `new`: same scopes and function,
/// errors only appended, global names only added, symbols kept.
pub open spec fn sig_extends(old: ResolveContext, new: ResolveContext) -> bool {
    &&& new.wf()
    &&& new.locals() == old.locals()
    &&& new.func_id() == old.func_id()
    &&& old.errors().len() <= new.errors().len()
    &&& new.errors().subrange(0, old.errors().len() as int) == old.errors()
    &&& old.global().names().submap_of(new.global().names())
    &&& old.global().ids().subset_of(new.global().ids())
    &&& forall|k: SymbolID| #[trigger]
        old.global().ids().contains(k) && old.global().entry(k) is Symbol ==> new.global().entry(k)
            == old.global().entry(k)
}

/// The return type of the function symbol that `name` names in the global table `g`.
pub open spec fn entered_ret_ty(g: SymbolTable, name: Seq<char>) -> Option<Type> {
    if g.names().contains_key(name) && g.ids().contains(g.names()[name]) && g.entry(
        g.names()[name],
    ) is Symbol && g.entry(g.names()[name])->Symbol_0 is Function {
        Some(g.entry(g.names()[name])->Symbol_0->Function_0.spec_ret_ty())
    } else {
        None
    }
}

impl ast::FunctionSig {
    /// Enters the function's symbol (name, parameter types, return type, attributes) in
    /// the global table; a name already taken is reported (and `None` returned).
    pub fn resolve(&self, ctx: &mut ResolveContext) -> (r: Option<()>)
        requires
            old(ctx).wf(),
            old(ctx).locals().len() == 0,
            primitive_sig(*self),
            globals_are_functions(old(ctx).global()),
        ensures
            sig_extends(*old(ctx), *final(ctx)),
            globals_are_functions(final(ctx).global()),
            final(ctx).global().names().contains_key(self.name.0@),
            r is Some <==> !old(ctx).global().names().contains_key(self.name.0@),
            r is Some ==> final(ctx).errors() == old(ctx).errors(),
            r is Some ==> final(ctx).global().names().dom() == old(ctx).global().names().dom().insert(
                self.name.0@,
            ),
            r is None ==> old(ctx).errors().len() < final(ctx).errors().len(),
            r is Some ==> entered_ret_ty(final(ctx).global(), self.name.0@) == Some(
                Type::Primitive(self.ret_ty->Primitive_0.0),
            ),
    {
        let mut params: Vec<(Located<String>, Type)> = Vec::new();
        let mut i: usize = 0;
        proof {
            lemma_extends_refl(*ctx);
        }
        while i < self.params.items.len()
            invariant
                i <= self.params.items@.len(),
                primitive_sig(*self),
                extends(*old(ctx), *ctx),
                ctx.errors() == old(ctx).errors(),
            decreases self.params.items.len() - i,
        {
            let p = &self.params.items[i];
            assert(p.1 is Primitive);
            let ghost c1 = *ctx;
            let ty = match p.1.resolve(ctx) {
                Some(t) => t,
                None => {
                    assert(false);
                    Type::unit()
                },
            };
            proof {
                lemma_extends_trans(*old(ctx), c1, *ctx);
            }
            params.push((clone_name(&p.0), ty));
            i = i + 1;
        }
        let ghost c2 = *ctx;
        let ret_ty = match self.ret_ty.resolve(ctx) {
            Some(t) => t,
            None => {
                assert(false);
                Type::unit()
            },
        };
        proof {
            lemma_extends_trans(*old(ctx), c2, *ctx);
        }
        let mut func_sym = FuncSymbol::new(clone_name(&self.name), params, ret_ty);
        let mut allowed: Vec<SymbolAttribute> = Vec::new();
        allowed.push(SymbolAttribute::Public);
        assert(allowed@[0] == SymbolAttribute::Public);
        let ghost c3 = *ctx;
        let attributes = self.attributes.resolve(ctx, &allowed);
        proof {
            lemma_extends_trans(*old(ctx), c3, *ctx);
        }
        func_sym.add_attributes(attributes);
        let ghost c4 = *ctx;
        let ghost sym = Symbol::Function(func_sym);
        match ctx.new_symbol(self.name.0.as_str(), Symbol::Function(func_sym)) {
            Some(id) => {
                proof {
                    assert(ctx.errors().subrange(0, old(ctx).errors().len() as int) =~= old(ctx).errors());
                    assert forall|n: Seq<char>| #[trigger]
                        ctx.global().names().contains_key(n) implies ctx.global().ids().contains(
                        ctx.global().names()[n],
                    ) && ctx.global().entry(ctx.global().names()[n]) matches SymbolTableEntry::Symbol(
                        Symbol::Function(_),
                    ) by {
                        if n != self.name.0@ {
                            assert(c4.global().names().contains_key(n));
                        } else {
                            sym.lemma_with_id(id);
                        }
                    }
                    sym.lemma_with_id(id);
                    assert(ctx.global().names()[self.name.0@] == id);
                }
                Some(())
            },
            None => {
                let ghost c5 = *ctx;
                let first = match ctx.current_symbol_by_name(self.name.0.as_str()) {
                    Some(s) => (s.get_kind(), s.get_origin()),
                    None => (SymbolKind::Function, self.name.1),
                };
                ctx.push_error(
                    ResolveError::IdentResolveError(
                        IdentResolveError::GlobalIdentAlreadyUsed {
                            ident: self.name.0.clone(),
                            first_origin: first,
                            dup_origin: (SymbolKind::Function, self.name.1),
                        },
                    ),
                );
                proof {
                    assert(ctx.errors().subrange(0, old(ctx).errors().len() as int) =~= old(ctx).errors().push(ctx.errors().last()).subrange(
                        0,
                        old(ctx).errors().len() as int,
                    ));
                    assert(ctx.errors().subrange(0, old(ctx).errors().len() as int) =~= old(ctx).errors());
                }
                None
            },
        }
    }
}

/// A function without parameters whose body is a block without statements ending, if
/// at all, in literals and operators of the function's entered return type `ret` (or
/// with no final expression when `ret` is `()`): it resolves with no error.
pub open spec fn clean_function(f: ast::Function, ret: Option<Type>) -> bool {
    &&& f.sig.params.items@.len() == 0
    &&& clean_const_block(f.body)
    &&& ret is Some
    &&& match f.body.eval_expr {
        Some(v) => expr_type(const_resolve(*v)->Some_0.0->Some_0) == ret->Some_0,
        None => ret->Some_0 == unit_ty(),
    }
}

/// `e` reports that the function named `name`, of return type `expected`, ends in a
/// value of type `actual`.
pub open spec fn return_mismatch_for(e: ResolveError, name: Seq<char>, expected: Type, actual: Type) -> bool {
    &&& e matches ResolveError::TypeResolveError(
        TypeResolveError::ReturnTypeMismatch { function_name, expected_type, actual_type },
    )
    &&& function_name@ == name
    &&& expected_type == expected
    &&& actual_type.0 == actual
}

impl ast::Function {
    /// Resolves a function whose signature is entered: its parameters become variables of
    /// a local table (a repeated name is reported), its body is resolved, a final value
    /// must have the return type, and a body that does not return on every path is
    /// reported unless the function returns `()`.
    pub fn resolve(&self, ctx: &mut ResolveContext) -> (r: Option<Function>)
        requires
            old(ctx).wf(),
            old(ctx).locals().len() == 0,
            old(ctx).func_id() == NIL_ID,
            primitive_sig(self.sig),
            supported_block(self.body),
            globals_are_functions(old(ctx).global()),
            old(ctx).global().names().contains_key(self.sig.name.0@),
        ensures
            final(ctx).wf(),
            final(ctx).locals().len() == 0,
            final(ctx).func_id() == NIL_ID,
            old(ctx).errors().len() <= final(ctx).errors().len(),
            final(ctx).errors().subrange(0, old(ctx).errors().len() as int) == old(ctx).errors(),
            final(ctx).global().names() == old(ctx).global().names(),
            globals_are_functions(final(ctx).global()),
            forall|k: SymbolID| #[trigger]
                old(ctx).global().ids().contains(k) && old(ctx).global().entry(k) is Symbol
                    ==> final(ctx).global().ids().contains(k) && final(ctx).global().entry(k)
                    == old(ctx).global().entry(k),
            r matches Some(f) ==> f.sig.sym_id == old(ctx).global().names()[self.sig.name.0@]
                && f.sig.name == self.sig.name,
            r matches Some(f) ==> f.sig.ret_ty == old(ctx).global().entry(
                f.sig.sym_id,
            )->Symbol_0->Function_0.spec_ret_ty() && f.sig.params@.len()
                <= self.sig.params.items@.len(),
            r matches Some(f) ==> !old(ctx).global().ids().contains(f.table_id) && final(ctx).global().ids().contains(f.table_id),
            block_always_resolves(self.body) ==> r is Some,
            r matches Some(f) ==> exists|c: ResolveContext, fl: ControlFlow|
                #[trigger] block_body_resolution(self.body, c, ExprFlow(Some(Expr::Block(f.body)), fl)),
            r matches Some(f) ==> (f.body.eval_expr is Some && expr_type(*f.body.eval_expr->Some_0)
                != f.sig.ret_ty ==> exists|i: int|
                0 <= i < added_errors(*old(ctx), *final(ctx)).len() && return_mismatch_for(
                    #[trigger] added_errors(*old(ctx), *final(ctx))[i],
                    self.sig.name.0@,
                    f.sig.ret_ty,
                    expr_type(*f.body.eval_expr->Some_0),
                )),
            clean_function(*self, entered_ret_ty(old(ctx).global(), self.sig.name.0@)) ==> r is Some
                && final(ctx).errors() == old(ctx).errors(),
            r matches Some(f) ==> (self.body.eval_expr is None && !block_has_return(self.body)
                && f.sig.ret_ty != unit_ty() ==> added_errors(*old(ctx), *final(ctx)).contains(
                ResolveError::ControlFlowError(ControlFlowError::NotAllFuncPathReturned(self.sig.name)),
            )),
    {
        let func_sym_id = match ctx.get_symbol_id_by_name(self.sig.name.0.as_str()) {
            Some(id) => id,
            None => {
                assert(false);
                NIL_ID
            },
        };
        let ghost a = *ctx;
        proof {
            assert(a.locals() =~= Seq::<SymbolID>::empty());
            assert(scope_lookup(a.global(), a.locals(), self.sig.name.0@) == Some(
                a.global().names()[self.sig.name.0@],
            ));
            assert(a.global().names().contains_key(self.sig.name.0@));
            assert(func_sym_id == a.global().names()[self.sig.name.0@]);
            assert(a.global().ids().contains(func_sym_id));
            assert(a.global().entry(func_sym_id) matches SymbolTableEntry::Symbol(Symbol::Function(_)));
            a.global().lemma_wf();
            assert(func_sym_id != NIL_ID);
        }
        ctx.set_func_symbol_id(func_sym_id);
        proof {
            assert(ctx.wf());
            assert(ctx.in_function());
        }
        let ghost a1 = *ctx;
        let table_id = ctx.push_local();
        let ghost b = *ctx;
        proof {
            lemma_extends_refl(*ctx);
            assert(b.global().entry(func_sym_id) == a1.global().entry(func_sym_id));
            assert(b.in_function());
        }
        let mut params: Vec<Param> = Vec::new();
        let mut i: usize = 0;
        while i < self.sig.params.items.len()
            invariant
                i <= self.sig.params.items@.len(),
                primitive_sig(self.sig),
                extends(b, *ctx),
                b.in_function(),
                b.locals().len() > 0,
                params@.len() <= i,
                self.sig.params.items@.len() == 0 ==> *ctx == b,
            decreases self.sig.params.items.len() - i,
        {
            let p = &self.sig.params.items[i];
            let ghost c1 = *ctx;
            let pty = p.1.resolve(ctx);
            proof {
                lemma_extends_trans(b, c1, *ctx);
            }
            match pty {
                Some(pty) => {
                    let ghost c2 = *ctx;
                    let symbol = VarSymbol::new(clone_name(&p.0), pty);
                    let sym_id = ctx.new_symbol(p.0.0.as_str(), Symbol::Variable(symbol));
                    proof {
                        assert(ctx.errors().subrange(0, c2.errors().len() as int) =~= c2.errors());
                        assert(extends(c2, *ctx));
                        lemma_extends_trans(b, c2, *ctx);
                    }
                    if sym_id.is_none() {
                        let ghost c3 = *ctx;
                        let first = first_origin(ctx, p.0.0.as_str(), (pty, p.0.1));
                        ctx.push_error(
                            ResolveError::IdentResolveError(
                                IdentResolveError::VarNameAlreadyUsed {
                                    ident: p.0.0.clone(),
                                    first_origin: first,
                                    dup_origin: (pty, p.0.1),
                                },
                            ),
                        );
                        proof {
                            assert(ctx.errors().subrange(0, c3.errors().len() as int) =~= c3.errors());
                            lemma_extends_trans(b, c3, *ctx);
                        }
                    }
                    params.push(
                        Param {
                            sym_id: match sym_id {
                                Some(id) => id,
                                None => NIL_ID,
                            },
                            name: p.0.0.clone(),
                        },
                    );
                },
                None => {},
            }
            i = i + 1;
        }
        let ghost c4 = *ctx;
        proof {
            lemma_in_function_kept(b, c4);
        }
        let ExprFlow(body, flow) = self.body.resolve(ctx);
        let ghost bf = ExprFlow(body, flow);
        proof {
            lemma_extends_trans(b, c4, *ctx);
            lemma_in_function_kept(b, *ctx);
            assert(block_body_resolution(self.body, c4, bf));
        }
        let body = match body {
            Some(Expr::Block(body)) => body,
            _ => {
                let ghost c5 = *ctx;
                ctx.pop_local();
                proof {
                    lemma_scope_roundtrip(a1, b, c5, *ctx, table_id);
                }
                ctx.unset_func_symbol_id();
                proof {
                    assert(ctx.locals() =~= Seq::<SymbolID>::empty());
                    assert forall|n: Seq<char>| #[trigger] ctx.global().names().contains_key(n) implies ctx.global().ids().contains(
                        ctx.global().names()[n],
                    ) && ctx.global().entry(ctx.global().names()[n]) matches SymbolTableEntry::Symbol(
                        Symbol::Function(_),
                    ) by {
                        assert(a.global().names().contains_key(n));
                    }
                }
                return None;
            },
        };
        proof {
            assert(ctx.global().entry(func_sym_id) == old(ctx).global().entry(func_sym_id));
        }
        let ret_ty = match ctx.get_global_symbol(func_sym_id) {
            Some(Symbol::Function(f)) => f.get_return_type(),
            _ => {
                assert(false);
                Type::unit()
            },
        };
        let ghost flow0 = flow;
        proof {
            assert(bf == ExprFlow(Some(Expr::Block(body)), flow0));
        }
        let mut flow = flow;
        let ghost c6 = *ctx;
        match &body.eval_expr {
            Some(e) => {
                flow = ControlFlow::Return;
                if e.get_type() != ret_ty {
                    let eloc = match &self.body.eval_expr {
                        Some(x) => x.location(),
                        None => self.body.location(),
                    };
                    ctx.push_error(
                        ResolveError::TypeResolveError(
                            TypeResolveError::ReturnTypeMismatch {
                                function_name: self.sig.name.0.clone(),
                                expected_type: ret_ty,
                                actual_type: Located(e.get_type(), eloc),
                            },
                        ),
                    );
                    proof {
                        assert(ctx.errors().subrange(0, c6.errors().len() as int) =~= c6.errors());
                    }
                } else {
                    proof {
                        lemma_extends_refl(*ctx);
                    }
                }
            },
            None => {
                proof {
                    lemma_extends_refl(*ctx);
                }
            },
        }
        proof {
            lemma_extends_trans(b, c6, *ctx);
        }
        let ghost c7 = *ctx;
        if flow != ControlFlow::Return && ret_ty != Type::unit() {
            ctx.push_error(
                ResolveError::ControlFlowError(
                    ControlFlowError::NotAllFuncPathReturned(clone_name(&self.sig.name)),
                ),
            );
            proof {
                assert(ctx.errors().subrange(0, c7.errors().len() as int) =~= c7.errors());
            }
        } else {
            proof {
                lemma_extends_refl(*ctx);
            }
        }
        proof {
            lemma_extends_trans(b, c7, *ctx);
        }
        let ghost c8 = *ctx;
        ctx.pop_local();
        proof {
            lemma_scope_roundtrip(a1, b, c8, *ctx, table_id);
        }
        ctx.unset_func_symbol_id();
        proof {
            assert(ctx.locals() =~= Seq::<SymbolID>::empty());
            assert forall|n: Seq<char>| #[trigger] ctx.global().names().contains_key(n) implies ctx.global().ids().contains(
                ctx.global().names()[n],
            ) && ctx.global().entry(ctx.global().names()[n]) matches SymbolTableEntry::Symbol(
                Symbol::Function(_),
            ) by {
                assert(a.global().names().contains_key(n));
            }
            if body.eval_expr is Some && expr_type(*body.eval_expr->Some_0) != ret_ty {
                let k = c6.errors().len() as int;
                assert(c7.errors()[k] == ctx.errors()[k]);
                assert(return_mismatch_for(c7.errors()[k], self.sig.name.0@, ret_ty, expr_type(*body.eval_expr->Some_0)));
                assert(added_errors(*old(ctx), *ctx)[k - old(ctx).errors().len()] == ctx.errors()[k]);
            }
            if self.body.eval_expr is None && !block_has_return(self.body) && ret_ty != unit_ty() {
                let e = ResolveError::ControlFlowError(
                    ControlFlowError::NotAllFuncPathReturned(self.sig.name),
                );
                assert(ctx.errors() == c8.errors());
                assert(c8.errors().last() == e);
                let added = added_errors(*old(ctx), *ctx);
                assert(added[added.len() - 1] == e);
            }
        }
        Some(
            Function {
                table_id,
                sig: FunctionSig {
                    sym_id: func_sym_id,
                    name: clone_name(&self.sig.name),
                    params,
                    ret_ty,
                },
                body,
            },
        )
    }
}

impl ast::ExternFunction {
    /// Resolves an extern function whose signature is entered: its return type; its
    /// parameters keep only their names.
    pub fn resolve(&self, ctx: &mut ResolveContext) -> (r: Option<ExternFunction>)
        requires
            old(ctx).wf(),
            old(ctx).locals().len() == 0,
            primitive_sig(self.sig),
            old(ctx).global().names().contains_key(self.sig.name.0@),
        ensures
            extends(*old(ctx), *final(ctx)),
            final(ctx).errors() == old(ctx).errors(),
            r matches Some(f) ==> f.0.sym_id == old(ctx).global().names()[self.sig.name.0@]
                && f.0.name == self.sig.name && f.0.params@.len() == self.sig.params.items@.len(),
            r matches Some(f) ==> (self.sig.ret_ty matches ast::Type::Primitive(p) ==> f.0.ret_ty
                == Type::Primitive(p.0)),
            r is Some,
    {
        let sym_id = match ctx.get_symbol_id_by_name(self.sig.name.0.as_str()) {
            Some(id) => id,
            None => {
                assert(false);
                NIL_ID
            },
        };
        let ret_ty = match self.sig.ret_ty.resolve(ctx) {
            Some(t) => t,
            None => {
                assert(false);
                return None;
            },
        };
        let mut params: Vec<Param> = Vec::new();
        let mut i: usize = 0;
        while i < self.sig.params.items.len()
            invariant
                i <= self.sig.params.items@.len(),
                params@.len() == i,
            decreases self.sig.params.items.len() - i,
        {
            params.push(Param { sym_id: NIL_ID, name: self.sig.params.items[i].0.0.clone() });
            i = i + 1;
        }
        Some(
            ExternFunction(
                FunctionSig { sym_id, name: clone_name(&self.sig.name), params, ret_ty },
            ),
        )
    }
}

/// The signature of a resolved item.
pub open spec fn item_sig(item: Item) -> FunctionSig {
    match item {
        Item::Function(f) => f.sig,
        Item::ExternFunction(e) => e.0,
    }
}

/// The name of an item's function.
pub open spec fn item_name(item: ast::Item) -> Seq<char> {
    match item {
        ast::Item::Function(f) => f.sig.name.0@,
        ast::Item::ExternFunction(f) => f.sig.name.0@,
        ast::Item::TypeDecl(t) => t.name.0@,
    }
}

/// Two of the first `n` items have the same name.
pub open spec fn duplicate_names(items: Seq<ast::Item>, n: int) -> bool {
    exists|a: int, b: int|
        0 <= a < b < n && #[trigger] item_name(items[a]) == #[trigger] item_name(items[b])
}

/// An item that resolves with no error once its signature is entered: an extern
/// function, or a function without parameters whose body has no statements and ends, if
/// at all, in literals and operators of its declared return type (`()` without one).
pub open spec fn clean_item(item: ast::Item) -> bool {
    match item {
        ast::Item::ExternFunction(_) => true,
        ast::Item::Function(f) => clean_function(
            f,
            Some(Type::Primitive(f.sig.ret_ty->Primitive_0.0)),
        ),
        ast::Item::TypeDecl(_) => false,
    }
}

/// Every item is clean.
pub open spec fn all_clean(items: Seq<ast::Item>) -> bool {
    forall|i: int| 0 <= i < items.len() ==> #[trigger] clean_item(items[i])
}

/// The resolved item `r` is of the same kind as `a`, under the same name.
pub open spec fn same_kind_and_name(a: ast::Item, r: Item) -> bool {
    &&& (a is Function <==> r is Function)
    &&& (a is ExternFunction <==> r is ExternFunction)
    &&& item_sig(r).name.0@ == item_name(a)
}

/// The function items among the first `n` have their return types entered in `g`.
pub open spec fn ret_tys_entered(g: SymbolTable, items: Seq<ast::Item>, n: int) -> bool {
    forall|j: int|
        0 <= j < n && #[trigger] items[j] is Function ==> entered_ret_ty(g, item_name(items[j]))
            == Some(Type::Primitive(items[j]->Function_0.sig.ret_ty->Primitive_0.0))
}

/// A return type entered in `g1` stays entered in a table `g2` that keeps the names and
/// the symbols of `g1`.
proof fn lemma_entered_kept(g1: SymbolTable, g2: SymbolTable, n: Seq<char>)
    requires
        g1.names().submap_of(g2.names()),
        forall|k: SymbolID| #[trigger]
            g1.ids().contains(k) && g1.entry(k) is Symbol ==> g2.ids().contains(k) && g2.entry(k)
                == g1.entry(k),
        entered_ret_ty(g1, n) is Some,
    ensures
        entered_ret_ty(g2, n) == entered_ret_ty(g1, n),
{
    assert(g1.names().dom().contains(n));
    assert(g2.names()[n] == g1.names()[n]);
}

/// Every item is an extern function.
pub open spec fn all_extern(items: Seq<ast::Item>) -> bool {
    forall|i: int| 0 <= i < items.len() ==> #[trigger] items[i] is ExternFunction
}

/// Resolves a syntax tree: first the signatures of all functions, so that a function can
/// call one declared after it, then the functions. The result is `Err` with every error
/// when there was any.
pub fn resolve(ast: &ast::AST) -> (r: Result<ResolvedAST, Vec<ResolveError>>)
    requires
        supported_ast(*ast),
    ensures
        r matches Err(v) ==> v@.len() > 0,
        r matches Ok(res) ==> res.sym_table.wf() && res.items@.len() <= ast.items@.len()
            && forall|i: int| 0 <= i < ast.items@.len() ==> #[trigger] res.sym_table.names().contains_key(
                item_name(ast.items@[i]),
            ),
        r matches Ok(res) ==> forall|i: int|
            0 <= i < res.items@.len() ==> res.sym_table.names().contains_key(
                (#[trigger] item_sig(res.items@[i])).name.0@,
            ) && res.sym_table.names()[item_sig(res.items@[i]).name.0@] == item_sig(
                res.items@[i],
            ).sym_id,
        duplicate_names(ast.items@, ast.items@.len() as int) ==> r is Err,
        all_clean(ast.items@) && !duplicate_names(ast.items@, ast.items@.len() as int) ==> (r matches Ok(
            res,
        ) && res.items@.len() == ast.items@.len() && forall|i: int|
            0 <= i < ast.items@.len() ==> same_kind_and_name(ast.items@[i], #[trigger] res.items@[i])),
        all_extern(ast.items@) && !duplicate_names(ast.items@, ast.items@.len() as int) ==> (r matches Ok(
            res,
        ) && res.items@.len() == ast.items@.len() && forall|i: int|
            0 <= i < ast.items@.len() ==> (#[trigger] res.items@[i]) is ExternFunction
                && item_sig(res.items@[i]).name.0@ == item_name(ast.items@[i])),
{
    let table = SymbolTable::new();
    let mut ctx = ResolveContext::new(table);
    let mut i: usize = 0;
    while i < ast.items.len()
        invariant
            i <= ast.items@.len(),
            supported_ast(*ast),
            ctx.wf(),
            ctx.locals().len() == 0,
            ctx.func_id() == NIL_ID,
            globals_are_functions(ctx.global()),
            forall|j: int| 0 <= j < i ==> #[trigger] ctx.global().names().contains_key(
                item_name(ast.items@[j]),
            ),
            duplicate_names(ast.items@, i as int) ==> ctx.errors().len() > 0,
            !duplicate_names(ast.items@, i as int) ==> ctx.errors().len() == 0 && forall|n: Seq<char>|
                #[trigger] ctx.global().names().contains_key(n) ==> exists|j: int|
                    0 <= j < i && item_name(ast.items@[j]) == n,
            !duplicate_names(ast.items@, i as int) ==> ret_tys_entered(ctx.global(), ast.items@, i as int),
        decreases ast.items.len() - i,
    {
        assert(supported_item(ast.items@[i as int]));
        let ghost c1 = ctx;
        let entered = match &ast.items[i] {
            ast::Item::Function(f) => f.sig.resolve(&mut ctx),
            ast::Item::ExternFunction(f) => f.sig.resolve(&mut ctx),
            ast::Item::TypeDecl(_) => None,
        };
        proof {
            assert forall|j: int| 0 <= j < i + 1 implies #[trigger] ctx.global().names().contains_key(
                item_name(ast.items@[j]),
            ) by {
                if j < i {
                    assert(c1.global().names().contains_key(item_name(ast.items@[j])));
                }
            }
            let nm = item_name(ast.items@[i as int]);
            if duplicate_names(ast.items@, i + 1) {
                if !duplicate_names(ast.items@, i as int) {
                    let (a, b) = choose|a: int, b: int|
                        0 <= a < b < i + 1 && #[trigger] item_name(ast.items@[a]) == #[trigger] item_name(
                            ast.items@[b],
                        );
                    if b < i {
                        assert(duplicate_names(ast.items@, i as int));
                    }
                    assert(c1.global().names().contains_key(item_name(ast.items@[a])));
                    assert(c1.global().names().contains_key(nm));
                }
            } else {
                assert(!duplicate_names(ast.items@, i as int)) by {
                    if duplicate_names(ast.items@, i as int) {
                        let (a, b) = choose|a: int, b: int|
                            0 <= a < b < i && #[trigger] item_name(ast.items@[a]) == #[trigger] item_name(
                                ast.items@[b],
                            );
                        assert(duplicate_names(ast.items@, i + 1));
                    }
                }
                assert(!c1.global().names().contains_key(nm)) by {
                    if c1.global().names().contains_key(nm) {
                        let j = choose|j: int| 0 <= j < i && item_name(ast.items@[j]) == nm;
                        assert(item_name(ast.items@[j]) == item_name(ast.items@[i as int]));
                        assert(duplicate_names(ast.items@, i + 1));
                    }
                }
                assert forall|j: int|
                    0 <= j < i + 1 && #[trigger] ast.items@[j] is Function implies entered_ret_ty(
                    ctx.global(),
                    item_name(ast.items@[j]),
                ) == Some(Type::Primitive(ast.items@[j]->Function_0.sig.ret_ty->Primitive_0.0)) by {
                    if j < i {
                        assert(c1.global().ids().subset_of(ctx.global().ids()));
                        lemma_entered_kept(c1.global(), ctx.global(), item_name(ast.items@[j]));
                    }
                }
                assert forall|n: Seq<char>| #[trigger] ctx.global().names().contains_key(n) implies exists|j: int|
                    0 <= j < i + 1 && item_name(ast.items@[j]) == n by {
                    if n == nm {
                        assert(item_name(ast.items@[i as int]) == n);
                    } else {
                        assert(ctx.global().names().dom().contains(n));
                        assert(c1.global().names().contains_key(n));
                        let j = choose|j: int| 0 <= j < i && item_name(ast.items@[j]) == n;
                        assert(item_name(ast.items@[j]) == n);
                    }
                }
            }
        }
        i = i + 1;
    }
    let ghost names_after = ctx.global().names();
    let ghost errs_after = ctx.errors().len();
    let ghost simple = all_clean(ast.items@) && !duplicate_names(ast.items@, ast.items@.len() as int);
    let mut items: Vec<Item> = Vec::new();
    let mut i: usize = 0;
    while i < ast.items.len()
        invariant
            i <= ast.items@.len(),
            supported_ast(*ast),
            ctx.wf(),
            ctx.locals().len() == 0,
            ctx.func_id() == NIL_ID,
            globals_are_functions(ctx.global()),
            ctx.global().names() == names_after,
            items@.len() <= i,
            forall|j: int| 0 <= j < ast.items@.len() ==> #[trigger] names_after.contains_key(
                item_name(ast.items@[j]),
            ),
            forall|j: int|
                0 <= j < items@.len() ==> names_after.contains_key(
                    (#[trigger] item_sig(items@[j])).name.0@,
                ) && names_after[item_sig(items@[j]).name.0@] == item_sig(items@[j]).sym_id,
            errs_after <= ctx.errors().len(),
            duplicate_names(ast.items@, ast.items@.len() as int) ==> errs_after > 0,
            simple == (all_clean(ast.items@) && !duplicate_names(ast.items@, ast.items@.len() as int)),
            simple ==> errs_after == 0 && ctx.errors().len() == 0 && items@.len() == i && forall|j: int|
                0 <= j < i ==> same_kind_and_name(ast.items@[j], #[trigger] items@[j]),
            simple ==> ret_tys_entered(ctx.global(), ast.items@, ast.items@.len() as int),
        decreases ast.items.len() - i,
    {
        assert(supported_item(ast.items@[i as int]));
        assert(names_after.contains_key(item_name(ast.items@[i as int])));
        let ghost c1 = ctx;
        proof {
            if simple {
                assert(clean_item(ast.items@[i as int]));
            }
        }
        let item = match &ast.items[i] {
            ast::Item::Function(f) => match f.resolve(&mut ctx) {
                Some(f) => Some(Item::Function(f)),
                None => None,
            },
            ast::Item::ExternFunction(f) => match f.resolve(&mut ctx) {
                Some(f) => Some(Item::ExternFunction(f)),
                None => None,
            },
            ast::Item::TypeDecl(_) => None,
        };
        proof {
            if simple {
                assert forall|j: int|
                    0 <= j < ast.items@.len() && #[trigger] ast.items@[j] is Function implies entered_ret_ty(
                    ctx.global(),
                    item_name(ast.items@[j]),
                ) == Some(Type::Primitive(ast.items@[j]->Function_0.sig.ret_ty->Primitive_0.0)) by {
                    lemma_entered_kept(c1.global(), ctx.global(), item_name(ast.items@[j]));
                }
            }
        }
        let ghost items0 = items@;
        match item {
            Some(item) => items.push(item),
            None => {},
        }
        proof {
            if simple {
                assert forall|j: int| 0 <= j < i + 1 implies same_kind_and_name(
                    ast.items@[j],
                    #[trigger] items@[j],
                ) by {
                    if j < i {
                        assert(items@[j] == items0[j]);
                    }
                }
            }
        }
        i = i + 1;
    }
    let ghost g = ctx.global();
    match ctx.finalize() {
        Ok(sym_table) => Ok(ResolvedAST { sym_table, items }),
        Err(errors) => Err(errors),
    }
}

} // verus!
