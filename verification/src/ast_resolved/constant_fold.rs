//! Folding of constant operations in place.
use vstd::prelude::*;

use crate::ast_resolved::compute::{eval_overflows, eval_spec};
use crate::ast_resolved::nodes::{
    BinaryExpr, BlockExpr, CallExpr, Expr, ExprStmt, IfExpr, Item, LetStmt, ResolvedAST,
    ReturnExpr, Stmt, UnaryExpr,
};
use crate::token::Operator;

verus! {

/// What folding a unary operation on a literal gives; anything else stays.
pub open spec fn fold_unary_spec(e: Expr) -> Option<Expr> {
    match e {
        Expr::Unary(u) => match (u.op, *u.expr) {
            (Operator::Sub, Expr::Integer(v)) => Some(Expr::Integer((-v) as i64)),
            (Operator::Not, Expr::Bool(v)) => Some(Expr::Bool(!v)),
            _ => None,
        },
        _ => None,
    }
}

/// What folding a binary operation on two literals of the kind it takes gives:
/// arithmetic on integers, `&&` and `||` on booleans, comparisons on integers.
pub open spec fn fold_binary_spec(e: Expr) -> Option<Expr> {
    match e {
        Expr::Binary(b) => match (b.op, *b.left, *b.right) {
            (Operator::Add, Expr::Integer(l), Expr::Integer(r)) => Some(Expr::Integer((l + r) as i64)),
            (Operator::Sub, Expr::Integer(l), Expr::Integer(r)) => Some(Expr::Integer((l - r) as i64)),
            (Operator::And, Expr::Bool(l), Expr::Bool(r)) => Some(Expr::Bool(l && r)),
            (Operator::Or, Expr::Bool(l), Expr::Bool(r)) => Some(Expr::Bool(l || r)),
            (Operator::Equal, Expr::Integer(l), Expr::Integer(r)) => Some(Expr::Bool(l == r)),
            (Operator::NotEqual, Expr::Integer(l), Expr::Integer(r)) => Some(Expr::Bool(l != r)),
            (Operator::Less, Expr::Integer(l), Expr::Integer(r)) => Some(Expr::Bool(l < r)),
            (Operator::LessEqual, Expr::Integer(l), Expr::Integer(r)) => Some(Expr::Bool(l <= r)),
            (Operator::Greater, Expr::Integer(l), Expr::Integer(r)) => Some(Expr::Bool(l > r)),
            (Operator::GreaterEqual, Expr::Integer(l), Expr::Integer(r)) => Some(
                Expr::Bool(l >= r),
            ),
            _ => None,
        },
        _ => None,
    }
}

/// Replaces a unary operation on a literal by its value; leaves anything else.
pub fn constant_fold_unary(expr: &mut Expr)
    requires
        !eval_overflows(*old(expr)),
    ensures
        fold_unary_spec(*old(expr)) matches Some(v) ==> *final(expr) == v,
        fold_unary_spec(*old(expr)) is None ==> *final(expr) == *old(expr),
{
    let folded = match &*expr {
        Expr::Unary(UnaryExpr { op, expr: value, .. }) => match (op, &**value) {
            (Operator::Sub, Expr::Integer(v)) => Some(Expr::Integer(-*v)),
            (Operator::Not, Expr::Bool(v)) => Some(Expr::Bool(!*v)),
            _ => None,
        },
        _ => None,
    };
    match folded {
        Some(v) => {
            *expr = v;
        },
        None => {},
    }
}

/// Replaces a binary operation on two literals by its value; leaves anything else.
pub fn constant_fold_binary(expr: &mut Expr)
    requires
        !eval_overflows(*old(expr)),
    ensures
        fold_binary_spec(*old(expr)) matches Some(v) ==> *final(expr) == v,
        fold_binary_spec(*old(expr)) is None ==> *final(expr) == *old(expr),
{
    let folded = match &*expr {
        Expr::Binary(BinaryExpr { op, left, right, .. }) => match (&**left, &**right) {
            (Expr::Integer(l), Expr::Integer(r)) => match op {
                Operator::Add => Some(Expr::Integer(*l + *r)),
                Operator::Sub => Some(Expr::Integer(*l - *r)),
                Operator::Equal => Some(Expr::Bool(*l == *r)),
                Operator::NotEqual => Some(Expr::Bool(*l != *r)),
                Operator::Less => Some(Expr::Bool(*l < *r)),
                Operator::LessEqual => Some(Expr::Bool(*l <= *r)),
                Operator::Greater => Some(Expr::Bool(*l > *r)),
                Operator::GreaterEqual => Some(Expr::Bool(*l >= *r)),
                _ => None,
            },
            (Expr::Bool(l), Expr::Bool(r)) => match op {
                Operator::And => Some(Expr::Bool(*l && *r)),
                Operator::Or => Some(Expr::Bool(*l || *r)),
                _ => None,
            },
            _ => None,
        },
        _ => None,
    };
    match folded {
        Some(v) => {
            *expr = v;
        },
        None => {},
    }
}

/// The operation `op` on the integer literals `l` and `r`.
pub open spec fn int_operation(op: Operator, l: i64, r: i64) -> Expr {
    Expr::Binary(
        BinaryExpr {
            op,
            left: Box::new(Expr::Integer(l)),
            right: Box::new(Expr::Integer(r)),
            ty: crate::ty::Type::Primitive(crate::ty::PrimType::Bool),
        },
    )
}

/// Folding a comparison of two integer literals gives the truth of that comparison
/// between the two integers.
pub proof fn lemma_fold_comparison_is_true_value(l: i64, r: i64)
    ensures
        fold_binary_spec(int_operation(Operator::Equal, l, r)) == Some(Expr::Bool(l == r)),
        fold_binary_spec(int_operation(Operator::NotEqual, l, r)) == Some(Expr::Bool(l != r)),
        fold_binary_spec(int_operation(Operator::Less, l, r)) == Some(Expr::Bool(l < r)),
        fold_binary_spec(int_operation(Operator::LessEqual, l, r)) == Some(Expr::Bool(l <= r)),
        fold_binary_spec(int_operation(Operator::Greater, l, r)) == Some(Expr::Bool(l > r)),
        fold_binary_spec(int_operation(Operator::GreaterEqual, l, r)) == Some(Expr::Bool(l >= r)),
{
}

/// The comparisons fold consistently with one another: `<=` is `<` or `==`, `>` is `<`
/// with the operands swapped, `>=` is `<=` swapped, `!=` is the negation of `==`.
pub proof fn lemma_fold_comparisons_agree(l: i64, r: i64)
    ensures
        fold_binary_spec(int_operation(Operator::LessEqual, l, r)) == Some(Expr::Bool(
            fold_binary_spec(int_operation(Operator::Less, l, r)) == Some(Expr::Bool(true))
                || fold_binary_spec(int_operation(Operator::Equal, l, r)) == Some(Expr::Bool(true)),
        )),
        fold_binary_spec(int_operation(Operator::Greater, l, r)) == fold_binary_spec(
            int_operation(Operator::Less, r, l),
        ),
        fold_binary_spec(int_operation(Operator::GreaterEqual, l, r)) == fold_binary_spec(
            int_operation(Operator::LessEqual, r, l),
        ),
        fold_binary_spec(int_operation(Operator::NotEqual, l, r)) == Some(Expr::Bool(
            fold_binary_spec(int_operation(Operator::Equal, l, r)) == Some(Expr::Bool(false)),
        )),
{
}

/// Folding `+` and `-` of two integer literals gives their sum and difference, where
/// these fit in an `i64`.
pub proof fn lemma_fold_arithmetic_is_exact(l: i64, r: i64)
    ensures
        i64::MIN <= l + r <= i64::MAX ==> (fold_binary_spec(int_operation(Operator::Add, l, r))
            matches Some(Expr::Integer(v)) && v == l + r),
        i64::MIN <= l - r <= i64::MAX ==> (fold_binary_spec(int_operation(Operator::Sub, l, r))
            matches Some(Expr::Integer(v)) && v == l - r),
{
}

/// Folding agrees with evaluation: where folding replaces an operation, evaluating the
/// operation gives the same constant.
pub proof fn lemma_fold_agrees_with_eval(e: Expr)
    ensures
        fold_unary_spec(e) matches Some(v) ==> eval_spec(e) == Some(v),
        fold_binary_spec(e) matches Some(v) ==> eval_spec(e) == Some(v),
{
}

/// One folding step at the top of an expression: an operation on literals that folds
/// becomes its value; anything else, and an operation whose value overflows, stays.
pub open spec fn fold_step(e: Expr) -> Expr {
    if eval_overflows(e) {
        e
    } else {
        match fold_unary_spec(e) {
            Some(v) => v,
            None => match fold_binary_spec(e) {
                Some(v) => v,
                None => e,
            },
        }
    }
}

/// The literal an expression folds to, if it folds to one: a literal is its own value,
/// and an operation whose operands fold to literals takes the folding step on them.
pub open spec fn fold_value(e: Expr) -> Option<Expr>
    decreases e,
{
    match e {
        Expr::Integer(_) => Some(e),
        Expr::Bool(_) => Some(e),
        Expr::Unary(u) => match fold_value(*u.expr) {
            Some(c) => {
                let n = Expr::Unary(UnaryExpr { op: u.op, expr: Box::new(c), ty: u.ty });
                if eval_overflows(n) {
                    None
                } else {
                    fold_unary_spec(n)
                }
            },
            None => None,
        },
        Expr::Binary(b) => match (fold_value(*b.left), fold_value(*b.right)) {
            (Some(lc), Some(rc)) => {
                let n = Expr::Binary(
                    BinaryExpr { op: b.op, left: Box::new(lc), right: Box::new(rc), ty: b.ty },
                );
                if eval_overflows(n) {
                    None
                } else {
                    fold_binary_spec(n)
                }
            },
            _ => None,
        },
        _ => None,
    }
}

/// `r` is `e` folded bottom-up: an expression that folds to a literal becomes that
/// literal; every other construct keeps its shape and its annotations, with its parts
/// folded.
pub open spec fn folds_to(e: Expr, r: Expr) -> bool
    decreases e,
{
    match e {
        Expr::Unary(u) => match fold_value(e) {
            Some(v) => r == v,
            None => r matches Expr::Unary(ru) && ru.op == u.op && ru.ty == u.ty && folds_to(
                *u.expr,
                *ru.expr,
            ),
        },
        Expr::Binary(b) => match fold_value(e) {
            Some(v) => r == v,
            None => r matches Expr::Binary(rb) && rb.op == b.op && rb.ty == b.ty && folds_to(
                *b.left,
                *rb.left,
            ) && folds_to(*b.right, *rb.right),
        },
        Expr::Call(c) => r matches Expr::Call(rc) && rc.ty == c.ty && folds_to(
            *c.callee,
            *rc.callee,
        ) && rc.args@.len() == c.args@.len() && forall|i: int|
            0 <= i < c.args@.len() ==> folds_to(#[trigger] c.args@[i], rc.args@[i]),
        Expr::Block(b) => r matches Expr::Block(rb) && block_folds_to(b, rb),
        Expr::Return(x) => r matches Expr::Return(rx) && match (x.expr, rx.expr) {
            (None, None) => true,
            (Some(v), Some(w)) => folds_to(*v, *w),
            _ => false,
        },
        Expr::If(i) => r matches Expr::If(ri) && ri.ty == i.ty && folds_to(*i.cond, *ri.cond)
            && block_folds_to(i.then_body, ri.then_body) && match (i.else_body, ri.else_body) {
            (None, None) => true,
            (Some(v), Some(w)) => block_folds_to(v, w),
            _ => false,
        },
        _ => r == e,
    }
}

/// A block folded: same table and type, each statement and the final expression folded.
pub open spec fn block_folds_to(b: BlockExpr, r: BlockExpr) -> bool
    decreases b,
{
    &&& r.table_id == b.table_id
    &&& r.ty == b.ty
    &&& r.stmts@.len() == b.stmts@.len()
    &&& forall|i: int| 0 <= i < b.stmts@.len() ==> stmt_folds_to(#[trigger] b.stmts@[i], r.stmts@[i])
    &&& match (b.eval_expr, r.eval_expr) {
        (None, None) => true,
        (Some(v), Some(w)) => folds_to(*v, *w),
        _ => false,
    }
}

/// A statement folded: same kind and annotations, its expression folded.
pub open spec fn stmt_folds_to(s: Stmt, r: Stmt) -> bool
    decreases s,
{
    match s {
        Stmt::Expr(x) => r matches Stmt::Expr(rx) && folds_to(x.expr, rx.expr),
        Stmt::Let(l) => r matches Stmt::Let(rl) && rl.sym_id == l.sym_id && rl.name == l.name
            && rl.ty == l.ty && folds_to(l.value, rl.value),
    }
}

/// An item folded: a function keeps its table and signature and has its body folded; an
/// external function stays as it is.
pub open spec fn item_folds_to(i: Item, r: Item) -> bool {
    match i {
        Item::Function(f) => r matches Item::Function(rf) && rf.table_id == f.table_id && rf.sig
            == f.sig && block_folds_to(f.body, rf.body),
        Item::ExternFunction(_) => r == i,
    }
}

/// Takes one folding step at the top of an expression.
fn fold_top(e: Expr) -> (r: Expr)
    ensures
        r == fold_step(e),
{
    if e.eval_would_overflow() {
        return e;
    }
    let mut e = e;
    constant_fold_unary(&mut e);
    constant_fold_binary(&mut e);
    e
}

/// Folds an expression bottom-up.
pub fn fold_expr(e: Expr) -> (r: Expr)
    ensures
        folds_to(e, r),
        fold_value(e) matches Some(v) ==> r == v,
        fold_value(e) is None ==> !(r is Integer || r is Bool),
    decreases e,
{
    match e {
        Expr::Unary(UnaryExpr { op, expr, ty }) => {
            let c = fold_expr(*expr);
            fold_top(Expr::Unary(UnaryExpr { op, expr: Box::new(c), ty }))
        },
        Expr::Binary(BinaryExpr { op, left, right, ty }) => {
            let lc = fold_expr(*left);
            let rc = fold_expr(*right);
            fold_top(Expr::Binary(BinaryExpr { op, left: Box::new(lc), right: Box::new(rc), ty }))
        },
        Expr::Call(CallExpr { callee, args, ty }) => {
            let callee = fold_expr(*callee);
            let args = fold_exprs(args);
            Expr::Call(CallExpr { callee: Box::new(callee), args, ty })
        },
        Expr::Block(b) => Expr::Block(fold_block(b)),
        Expr::Return(ReturnExpr { expr }) => match expr {
            Some(x) => Expr::Return(ReturnExpr { expr: Some(Box::new(fold_expr(*x))) }),
            None => Expr::Return(ReturnExpr { expr: None }),
        },
        Expr::If(IfExpr { cond, then_body, else_body, ty }) => {
            let cond = fold_expr(*cond);
            let then_body = fold_block(then_body);
            let else_body = match else_body {
                Some(b) => Some(fold_block(b)),
                None => None,
            };
            Expr::If(IfExpr { cond: Box::new(cond), then_body, else_body, ty })
        },
        _ => e,
    }
}

/// Folds each expression of a list, in order.
fn fold_exprs(v: Vec<Expr>) -> (r: Vec<Expr>)
    ensures
        r@.len() == v@.len(),
        forall|i: int| 0 <= i < v@.len() ==> folds_to(#[trigger] v@[i], r@[i]),
    decreases v@,
{
    let ghost orig = v@;
    let mut rest = v;
    let mut out: Vec<Expr> = Vec::new();
    while rest.len() > 0
        invariant
            orig == v@,
            out@.len() + rest@.len() == orig.len(),
            rest@ == orig.subrange(out@.len() as int, orig.len() as int),
            forall|i: int| 0 <= i < out@.len() ==> folds_to(#[trigger] orig[i], out@[i]),
        decreases rest@.len(),
    {
        let ghost k = out@.len() as int;
        let x = rest.remove(0);
        proof {
            assert(x == orig[k]);
            assert(decreases_to!(v@ => orig[k]));
        }
        let y = fold_expr(x);
        out.push(y);
        proof {
            assert(rest@ =~= orig.subrange(out@.len() as int, orig.len() as int));
        }
    }
    out
}

/// Folds each statement of a list, in order.
fn fold_stmts(v: Vec<Stmt>) -> (r: Vec<Stmt>)
    ensures
        r@.len() == v@.len(),
        forall|i: int| 0 <= i < v@.len() ==> stmt_folds_to(#[trigger] v@[i], r@[i]),
    decreases v@,
{
    let ghost orig = v@;
    let mut rest = v;
    let mut out: Vec<Stmt> = Vec::new();
    while rest.len() > 0
        invariant
            orig == v@,
            out@.len() + rest@.len() == orig.len(),
            rest@ == orig.subrange(out@.len() as int, orig.len() as int),
            forall|i: int| 0 <= i < out@.len() ==> stmt_folds_to(#[trigger] orig[i], out@[i]),
        decreases rest@.len(),
    {
        let ghost k = out@.len() as int;
        let x = rest.remove(0);
        proof {
            assert(x == orig[k]);
            assert(decreases_to!(v@ => orig[k]));
        }
        let y = fold_stmt(x);
        out.push(y);
        proof {
            assert(rest@ =~= orig.subrange(out@.len() as int, orig.len() as int));
        }
    }
    out
}

/// Folds a statement's expression.
fn fold_stmt(s: Stmt) -> (r: Stmt)
    ensures
        stmt_folds_to(s, r),
    decreases s,
{
    match s {
        Stmt::Expr(ExprStmt { expr }) => Stmt::Expr(ExprStmt { expr: fold_expr(expr) }),
        Stmt::Let(LetStmt { sym_id, name, ty, value }) => Stmt::Let(
            LetStmt { sym_id, name, ty, value: fold_expr(value) },
        ),
    }
}

/// Folds a block's statements and final expression.
fn fold_block(b: BlockExpr) -> (r: BlockExpr)
    ensures
        block_folds_to(b, r),
    decreases b,
{
    let BlockExpr { table_id, stmts, eval_expr, ty } = b;
    let stmts = fold_stmts(stmts);
    let eval_expr = match eval_expr {
        Some(x) => Some(Box::new(fold_expr(*x))),
        None => None,
    };
    BlockExpr { table_id, stmts, eval_expr, ty }
}

/// Folds every constant operation of the tree, operands before the operation that holds
/// them, in the body of each function; the symbol table is left as it is.
pub fn constant_fold(ast: &mut ResolvedAST)
    ensures
        final(ast).sym_table == old(ast).sym_table,
        final(ast).items@.len() == old(ast).items@.len(),
        forall|i: int|
            0 <= i < old(ast).items@.len() ==> item_folds_to(
                #[trigger] old(ast).items@[i],
                final(ast).items@[i],
            ),
{
    let mut rest: Vec<Item> = Vec::new();
    std::mem::swap(&mut rest, &mut ast.items);
    let ghost orig = rest@;
    let mut out: Vec<Item> = Vec::new();
    while rest.len() > 0
        invariant
            out@.len() + rest@.len() == orig.len(),
            rest@ == orig.subrange(out@.len() as int, orig.len() as int),
            forall|i: int| 0 <= i < out@.len() ==> item_folds_to(#[trigger] orig[i], out@[i]),
        decreases rest@.len(),
    {
        let ghost k = out@.len() as int;
        let item = rest.remove(0);
        proof {
            assert(item == orig[k]);
        }
        let folded = match item {
            Item::Function(f) => {
                let body = fold_block(f.body);
                Item::Function(
                    crate::ast_resolved::nodes::Function { table_id: f.table_id, sig: f.sig, body },
                )
            },
            Item::ExternFunction(x) => Item::ExternFunction(x),
        };
        out.push(folded);
        proof {
            assert(rest@ =~= orig.subrange(out@.len() as int, orig.len() as int));
        }
    }
    ast.items = out;
}

} // verus!
