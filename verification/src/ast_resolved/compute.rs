//! Evaluation of constant operations: an operation whose operands are literals is
//! replaced by its value.
use vstd::prelude::*;

use crate::ast_resolved::nodes::{BinaryExpr, Expr, UnaryExpr};
use crate::token::Operator;

verus! {

pub open spec fn fits_i64(v: int) -> bool {
    i64::MIN <= v <= i64::MAX
}

/// Evaluating the operation at the top of `e` would overflow an `i64`.
pub open spec fn eval_overflows(e: Expr) -> bool {
    match e {
        Expr::Unary(u) => u.op == Operator::Sub && (*u.expr matches Expr::Integer(v) && v
            == i64::MIN),
        Expr::Binary(b) => match (*b.left, *b.right) {
            (Expr::Integer(l), Expr::Integer(r)) => (b.op == Operator::Add && !fits_i64(l + r)) || (
            b.op == Operator::Sub && !fits_i64(l - r)),
            _ => false,
        },
        _ => false,
    }
}

/// The expressions evaluation is defined on: literals, names, calls, and unary and
/// binary operations other than assignment.
pub open spec fn eval_supported(e: Expr) -> bool {
    match e {
        Expr::Integer(_) => true,
        Expr::Bool(_) => true,
        Expr::Identifier(_) => true,
        Expr::Call(_) => true,
        Expr::Unary(u) => u.op == Operator::Sub || u.op == Operator::Not,
        Expr::Binary(b) => b.op != Operator::Assign && b.op != Operator::Not,
        _ => false,
    }
}

/// The value of a unary operation on a literal of the right kind.
pub open spec fn unary_eval_spec(op: Operator, v: Expr) -> Option<Expr> {
    match (op, v) {
        (Operator::Sub, Expr::Integer(x)) => Some(Expr::Integer((-x) as i64)),
        (Operator::Not, Expr::Bool(x)) => Some(Expr::Bool(!x)),
        _ => None,
    }
}

/// The value of a binary operation. `&&` is `false` as soon as one side is the literal
/// `false`, `||` is `true` as soon as one side is the literal `true`; `==` and `!=`
/// compare two integers or two booleans; the other comparisons compare integers.
pub open spec fn binary_eval_spec(op: Operator, l: Expr, r: Expr) -> Option<Expr> {
    match op {
        Operator::Add => match (l, r) {
            (Expr::Integer(a), Expr::Integer(b)) => Some(Expr::Integer((a + b) as i64)),
            _ => None,
        },
        Operator::Sub => match (l, r) {
            (Expr::Integer(a), Expr::Integer(b)) => Some(Expr::Integer((a - b) as i64)),
            _ => None,
        },
        Operator::And => if l matches Expr::Bool(false) || r matches Expr::Bool(false) {
            Some(Expr::Bool(false))
        } else {
            match (l, r) {
                (Expr::Bool(a), Expr::Bool(b)) => Some(Expr::Bool(a && b)),
                _ => None,
            }
        },
        Operator::Or => if l matches Expr::Bool(true) || r matches Expr::Bool(true) {
            Some(Expr::Bool(true))
        } else {
            match (l, r) {
                (Expr::Bool(a), Expr::Bool(b)) => Some(Expr::Bool(a || b)),
                _ => None,
            }
        },
        Operator::Equal => match (l, r) {
            (Expr::Integer(a), Expr::Integer(b)) => Some(Expr::Bool(a == b)),
            (Expr::Bool(a), Expr::Bool(b)) => Some(Expr::Bool(a == b)),
            _ => None,
        },
        Operator::NotEqual => match (l, r) {
            (Expr::Integer(a), Expr::Integer(b)) => Some(Expr::Bool(a != b)),
            (Expr::Bool(a), Expr::Bool(b)) => Some(Expr::Bool(a != b)),
            _ => None,
        },
        Operator::Less => match (l, r) {
            (Expr::Integer(a), Expr::Integer(b)) => Some(Expr::Bool(a < b)),
            _ => None,
        },
        Operator::LessEqual => match (l, r) {
            (Expr::Integer(a), Expr::Integer(b)) => Some(Expr::Bool(a <= b)),
            _ => None,
        },
        Operator::Greater => match (l, r) {
            (Expr::Integer(a), Expr::Integer(b)) => Some(Expr::Bool(a > b)),
            _ => None,
        },
        Operator::GreaterEqual => match (l, r) {
            (Expr::Integer(a), Expr::Integer(b)) => Some(Expr::Bool(a >= b)),
            _ => None,
        },
        _ => None,
    }
}

/// The constant an expression evaluates to, if its top operation can be evaluated.
pub open spec fn eval_spec(e: Expr) -> Option<Expr> {
    match e {
        Expr::Unary(u) => unary_eval_spec(u.op, *u.expr),
        Expr::Binary(b) => binary_eval_spec(b.op, *b.left, *b.right),
        _ => None,
    }
}

/// Evaluating a comparison of two integer literals gives the truth of that comparison
/// between the two integers.
pub proof fn lemma_eval_comparison_is_true_value(l: i64, r: i64)
    ensures
        binary_eval_spec(Operator::Equal, Expr::Integer(l), Expr::Integer(r)) == Some(Expr::Bool(l == r)),
        binary_eval_spec(Operator::NotEqual, Expr::Integer(l), Expr::Integer(r)) == Some(Expr::Bool(l != r)),
        binary_eval_spec(Operator::Less, Expr::Integer(l), Expr::Integer(r)) == Some(Expr::Bool(l < r)),
        binary_eval_spec(Operator::LessEqual, Expr::Integer(l), Expr::Integer(r)) == Some(Expr::Bool(l <= r)),
        binary_eval_spec(Operator::Greater, Expr::Integer(l), Expr::Integer(r)) == Some(Expr::Bool(l > r)),
        binary_eval_spec(Operator::GreaterEqual, Expr::Integer(l), Expr::Integer(r)) == Some(Expr::Bool(l >= r)),
{
}

/// Evaluating `&&` and `||` of two boolean literals gives their conjunction and
/// disjunction; `==` and `!=` of booleans compare them.
pub proof fn lemma_eval_logic_is_true_value(a: bool, b: bool)
    ensures
        binary_eval_spec(Operator::And, Expr::Bool(a), Expr::Bool(b)) == Some(Expr::Bool(a && b)),
        binary_eval_spec(Operator::Or, Expr::Bool(a), Expr::Bool(b)) == Some(Expr::Bool(a || b)),
        binary_eval_spec(Operator::Equal, Expr::Bool(a), Expr::Bool(b)) == Some(Expr::Bool(a == b)),
        binary_eval_spec(Operator::NotEqual, Expr::Bool(a), Expr::Bool(b)) == Some(Expr::Bool(a != b)),
{
}

impl UnaryExpr {
    pub fn eval_constant(&self) -> (r: Option<Expr>)
        requires
            self.op == Operator::Sub || self.op == Operator::Not,
            !(self.op == Operator::Sub && (*self.expr matches Expr::Integer(v) && v == i64::MIN)),
        ensures
            r == unary_eval_spec(self.op, *self.expr),
    {
        match self.op {
            Operator::Sub => match &*self.expr {
                Expr::Integer(v) => Some(Expr::Integer(-*v)),
                _ => None,
            },
            _ => match &*self.expr {
                Expr::Bool(v) => Some(Expr::Bool(!*v)),
                _ => None,
            },
        }
    }
}

fn bool_of(e: &Expr) -> (r: Option<bool>)
    ensures
        r == (match *e {
            Expr::Bool(b) => Some(b),
            _ => None,
        }),
{
    match e {
        Expr::Bool(b) => Some(*b),
        _ => None,
    }
}

impl BinaryExpr {
    pub fn eval_constant(&self) -> (r: Option<Expr>)
        requires
            self.op != Operator::Assign,
            self.op != Operator::Not,
            !eval_overflows(Expr::Binary(*self)),
        ensures
            r == binary_eval_spec(self.op, *self.left, *self.right),
    {
        let ints = match (&*self.left, &*self.right) {
            (Expr::Integer(a), Expr::Integer(b)) => Some((*a, *b)),
            _ => None,
        };
        let bools = match (&*self.left, &*self.right) {
            (Expr::Bool(a), Expr::Bool(b)) => Some((*a, *b)),
            _ => None,
        };
        let lhs = bool_of(&*self.left);
        let rhs = bool_of(&*self.right);
        match self.op {
            Operator::Add => match ints {
                Some((a, b)) => Some(Expr::Integer(a + b)),
                None => None,
            },
            Operator::Sub => match ints {
                Some((a, b)) => Some(Expr::Integer(a - b)),
                None => None,
            },
            Operator::And => {
                if lhs == Some(false) {
                    Some(Expr::Bool(false))
                } else if rhs == Some(false) {
                    Some(Expr::Bool(false))
                } else {
                    match (lhs, rhs) {
                        (Some(a), Some(b)) => Some(Expr::Bool(a && b)),
                        _ => None,
                    }
                }
            },
            Operator::Or => {
                if lhs == Some(true) {
                    Some(Expr::Bool(true))
                } else if rhs == Some(true) {
                    Some(Expr::Bool(true))
                } else {
                    match (lhs, rhs) {
                        (Some(a), Some(b)) => Some(Expr::Bool(a || b)),
                        _ => None,
                    }
                }
            },
            Operator::Equal => match ints {
                Some((a, b)) => Some(Expr::Bool(a == b)),
                None => match bools {
                    Some((a, b)) => Some(Expr::Bool(a == b)),
                    None => None,
                },
            },
            Operator::NotEqual => match ints {
                Some((a, b)) => Some(Expr::Bool(a != b)),
                None => match bools {
                    Some((a, b)) => Some(Expr::Bool(a != b)),
                    None => None,
                },
            },
            Operator::Less => match ints {
                Some((a, b)) => Some(Expr::Bool(a < b)),
                None => None,
            },
            Operator::LessEqual => match ints {
                Some((a, b)) => Some(Expr::Bool(a <= b)),
                None => None,
            },
            Operator::Greater => match ints {
                Some((a, b)) => Some(Expr::Bool(a > b)),
                None => None,
            },
            _ => match ints {
                Some((a, b)) => Some(Expr::Bool(a >= b)),
                None => None,
            },
        }
    }
}

impl Expr {
    /// The constant the expression's top operation evaluates to, if its operands are
    /// literals of the right kind.
    pub fn eval_constant(&self) -> (r: Option<Expr>)
        requires
            eval_supported(*self),
            !eval_overflows(*self),
        ensures
            r == eval_spec(*self),
    {
        match self {
            Expr::Unary(e) => e.eval_constant(),
            Expr::Binary(e) => e.eval_constant(),
            _ => None,
        }
    }

    /// Whether evaluating the expression's top operation would overflow.
    pub fn eval_would_overflow(&self) -> (r: bool)
        ensures
            r == eval_overflows(*self),
    {
        match self {
            Expr::Unary(u) => match (u.op, &*u.expr) {
                (Operator::Sub, Expr::Integer(v)) => *v == i64::MIN,
                _ => false,
            },
            Expr::Binary(b) => match (&*b.left, &*b.right) {
                (Expr::Integer(l), Expr::Integer(r)) => match b.op {
                    Operator::Add => l.checked_add(*r).is_none(),
                    Operator::Sub => l.checked_sub(*r).is_none(),
                    _ => false,
                },
                _ => false,
            },
            _ => false,
        }
    }
}

} // verus!
