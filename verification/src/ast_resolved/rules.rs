//! The typing rules of resolution, each a function from the types involved to the
//! resulting type and the errors to report.
use vstd::prelude::*;

use crate::ast_resolved::errors::{ResolveError, TypeResolveError};
use crate::location::{Located, LocationRange};
use crate::token::Operator;
use crate::ty::{PrimType, Type};

verus! {

pub open spec fn bool_ty() -> Type {
    Type::Primitive(PrimType::Bool)
}

pub open spec fn int_ty() -> Type {
    Type::Primitive(PrimType::Int)
}

pub open spec fn unit_ty() -> Type {
    Type::Primitive(PrimType::Unit)
}

pub open spec fn type_err(e: TypeResolveError) -> ResolveError {
    ResolveError::TypeResolveError(e)
}

/// The unary operators resolution handles.
pub open spec fn unary_op_supported(op: Operator) -> bool {
    op == Operator::Sub || op == Operator::Not
}

/// The binary operators resolution handles: all but assignment (and `!`, which is not
/// binary).
pub open spec fn binary_op_supported(op: Operator) -> bool {
    op != Operator::Assign && op != Operator::Not
}

/// `-` takes an `int` and gives it back; `!` gives a `bool`, and reports an operand of
/// another type. `loc` is the whole operation's range.
pub open spec fn unary_rule(op: Operator, t: Type, loc: LocationRange) -> (Option<Type>, Seq<
    ResolveError,
>) {
    if op == Operator::Sub {
        if !t.spec_is_numeric() {
            (None, seq![type_err(TypeResolveError::NonNumericInUnaryOp(op, Located(t, loc)))])
        } else {
            (Some(t), Seq::empty())
        }
    } else if t != bool_ty() {
        (Some(bool_ty()), seq![type_err(TypeResolveError::NonBoolUsedInNotOp(Located(t, loc)))])
    } else {
        (Some(bool_ty()), Seq::empty())
    }
}

pub fn check_unary(op: Operator, t: Type, loc: LocationRange) -> (r: (Option<Type>, Vec<ResolveError>))
    requires
        unary_op_supported(op),
    ensures
        r.0 == unary_rule(op, t, loc).0,
        r.1@ == unary_rule(op, t, loc).1,
{
    let mut errs: Vec<ResolveError> = Vec::new();
    match op {
        Operator::Sub => {
            if !t.is_numeric_ty() {
                errs.push(
                    ResolveError::TypeResolveError(
                        TypeResolveError::NonNumericInUnaryOp(op, Located(t, loc)),
                    ),
                );
                assert(errs@ =~= unary_rule(op, t, loc).1);
                return (None, errs);
            }
            assert(errs@ =~= unary_rule(op, t, loc).1);
            (Some(t), errs)
        },
        _ => {
            if t != Type::bool_ty() {
                errs.push(
                    ResolveError::TypeResolveError(
                        TypeResolveError::NonBoolUsedInNotOp(Located(t, loc)),
                    ),
                );
            }
            assert(errs@ =~= unary_rule(op, t, loc).1);
            (Some(Type::bool_ty()), errs)
        },
    }
}

/// Addition and subtraction take two `int`s (reported in that order: the left operand,
/// the right one, then a mismatch between them) and give an `int`; `&&` and `||` give a
/// `bool` and report each operand that is not one (the right one at the left operand's
/// range); comparisons give a `bool` and report unordered operands and a mismatch.
pub open spec fn binary_rule(
    op: Located<Operator>,
    lt: Type,
    lloc: LocationRange,
    rt: Type,
    rloc: LocationRange,
    loc: LocationRange,
) -> (Option<Type>, Seq<ResolveError>) {
    let mismatch = type_err(
        TypeResolveError::TypeMismatchInBinaryOp { op: Located(op.0, loc), left_ty: lt, right_ty: rt },
    );
    if op.0 == Operator::Add || op.0 == Operator::Sub {
        if !lt.spec_is_numeric() {
            (
                None,
                seq![type_err(TypeResolveError::NonNumericTypeInBinaryOp { op, ty: Located(lt, lloc) })],
            )
        } else if !rt.spec_is_numeric() {
            (
                None,
                seq![type_err(TypeResolveError::NonNumericTypeInBinaryOp { op, ty: Located(rt, rloc) })],
            )
        } else if lt != rt {
            (None, seq![mismatch])
        } else {
            (Some(lt), Seq::empty())
        }
    } else if op.0 == Operator::And || op.0 == Operator::Or {
        let l = if lt != bool_ty() {
            seq![
                type_err(
                    TypeResolveError::UnexpectedTypeInBinaryOp {
                        op,
                        expect_type: bool_ty(),
                        actual_type: Located(lt, lloc),
                    },
                ),
            ]
        } else {
            Seq::empty()
        };
        let r = if rt != bool_ty() {
            seq![
                type_err(
                    TypeResolveError::UnexpectedTypeInBinaryOp {
                        op,
                        expect_type: bool_ty(),
                        actual_type: Located(rt, lloc),
                    },
                ),
            ]
        } else {
            Seq::empty()
        };
        (Some(bool_ty()), l + r)
    } else {
        let l = if !lt.spec_is_ord() {
            seq![type_err(TypeResolveError::UnorderedTypeInBinaryOp { op, ty: Located(lt, lloc) })]
        } else {
            Seq::empty()
        };
        let r = if !rt.spec_is_ord() {
            seq![type_err(TypeResolveError::UnorderedTypeInBinaryOp { op, ty: Located(rt, rloc) })]
        } else {
            Seq::empty()
        };
        let m = if lt != rt {
            seq![mismatch]
        } else {
            Seq::empty()
        };
        (Some(bool_ty()), l + r + m)
    }
}

/// An operation is typed without error only on operands of one type: whenever the
/// operand types differ, the rule reports an error.
pub proof fn lemma_binary_rule_needs_equal_types(
    op: Located<Operator>,
    lt: Type,
    lloc: LocationRange,
    rt: Type,
    rloc: LocationRange,
    loc: LocationRange,
)
    ensures
        binary_rule(op, lt, lloc, rt, rloc, loc).1.len() == 0 ==> lt == rt,
{
}

/// A comparison (`==`, `!=`, `<`, `<=`, `>`, `>=`) of operands of different types
/// reports a type mismatch between them, with both types.
pub proof fn lemma_comparison_mismatch_reported(
    op: Located<Operator>,
    lt: Type,
    lloc: LocationRange,
    rt: Type,
    rloc: LocationRange,
    loc: LocationRange,
)
    requires
        op.0 == Operator::Equal || op.0 == Operator::NotEqual || op.0 == Operator::Less || op.0
            == Operator::LessEqual || op.0 == Operator::Greater || op.0 == Operator::GreaterEqual,
        lt != rt,
    ensures
        binary_rule(op, lt, lloc, rt, rloc, loc).1.contains(
            ResolveError::TypeResolveError(
                TypeResolveError::TypeMismatchInBinaryOp {
                    op: Located(op.0, loc),
                    left_ty: lt,
                    right_ty: rt,
                },
            ),
        ),
{
    let rule = binary_rule(op, lt, lloc, rt, rloc, loc);
    assert(rule.1[rule.1.len() - 1] == ResolveError::TypeResolveError(
        TypeResolveError::TypeMismatchInBinaryOp { op: Located(op.0, loc), left_ty: lt, right_ty: rt },
    ));
}

pub fn check_binary(
    op: Located<Operator>,
    lt: Type,
    lloc: LocationRange,
    rt: Type,
    rloc: LocationRange,
    loc: LocationRange,
) -> (r: (Option<Type>, Vec<ResolveError>))
    requires
        binary_op_supported(op.0),
    ensures
        r.0 == binary_rule(op, lt, lloc, rt, rloc, loc).0,
        r.1@ == binary_rule(op, lt, lloc, rt, rloc, loc).1,
{
    let ghost spec = binary_rule(op, lt, lloc, rt, rloc, loc);
    let mut errs: Vec<ResolveError> = Vec::new();
    let mismatch = ResolveError::TypeResolveError(
        TypeResolveError::TypeMismatchInBinaryOp { op: Located(op.0, loc), left_ty: lt, right_ty: rt },
    );
    match op.0 {
        Operator::Add | Operator::Sub => {
            if !lt.is_numeric_ty() {
                errs.push(
                    ResolveError::TypeResolveError(
                        TypeResolveError::NonNumericTypeInBinaryOp { op, ty: Located(lt, lloc) },
                    ),
                );
                assert(errs@ =~= spec.1);
                return (None, errs);
            }
            if !rt.is_numeric_ty() {
                errs.push(
                    ResolveError::TypeResolveError(
                        TypeResolveError::NonNumericTypeInBinaryOp { op, ty: Located(rt, rloc) },
                    ),
                );
                assert(errs@ =~= spec.1);
                return (None, errs);
            }
            if lt != rt {
                errs.push(mismatch);
                assert(errs@ =~= spec.1);
                return (None, errs);
            }
            assert(errs@ =~= spec.1);
            (Some(lt), errs)
        },
        Operator::And | Operator::Or => {
            if lt != Type::bool_ty() {
                errs.push(
                    ResolveError::TypeResolveError(
                        TypeResolveError::UnexpectedTypeInBinaryOp {
                            op,
                            expect_type: Type::bool_ty(),
                            actual_type: Located(lt, lloc),
                        },
                    ),
                );
            }
            if rt != Type::bool_ty() {
                errs.push(
                    ResolveError::TypeResolveError(
                        TypeResolveError::UnexpectedTypeInBinaryOp {
                            op,
                            expect_type: Type::bool_ty(),
                            actual_type: Located(rt, lloc),
                        },
                    ),
                );
            }
            assert(errs@ =~= spec.1);
            (Some(Type::bool_ty()), errs)
        },
        _ => {
            if !lt.is_ord_ty() {
                errs.push(
                    ResolveError::TypeResolveError(
                        TypeResolveError::UnorderedTypeInBinaryOp { op, ty: Located(lt, lloc) },
                    ),
                );
            }
            if !rt.is_ord_ty() {
                errs.push(
                    ResolveError::TypeResolveError(
                        TypeResolveError::UnorderedTypeInBinaryOp { op, ty: Located(rt, rloc) },
                    ),
                );
            }
            if lt != rt {
                errs.push(mismatch);
            }
            assert(errs@ =~= spec.1);
            (Some(Type::bool_ty()), errs)
        },
    }
}

/// The type of an `if`: the type of its branches (of the one that has one), reporting
/// branches of different types (then there is none).
pub open spec fn if_rule(
    then_ty: Option<Type>,
    then_loc: LocationRange,
    else_ty: Option<Type>,
    else_loc: LocationRange,
) -> (Option<Type>, Seq<ResolveError>) {
    match (then_ty, else_ty) {
        (Some(a), Some(b)) => if a != b {
            (
                None,
                seq![
                    type_err(
                        TypeResolveError::BlockBranchTypeMismatch {
                            branch: Located(a, then_loc),
                            other: Located(b, else_loc),
                        },
                    ),
                ],
            )
        } else {
            (Some(a), Seq::empty())
        },
        (Some(a), None) => (Some(a), Seq::empty()),
        (None, Some(b)) => (Some(b), Seq::empty()),
        (None, None) => (None, Seq::empty()),
    }
}

pub fn check_if(
    then_ty: Option<Type>,
    then_loc: LocationRange,
    else_ty: Option<Type>,
    else_loc: LocationRange,
) -> (r: (Option<Type>, Vec<ResolveError>))
    ensures
        r.0 == if_rule(then_ty, then_loc, else_ty, else_loc).0,
        r.1@ == if_rule(then_ty, then_loc, else_ty, else_loc).1,
{
    let mut errs: Vec<ResolveError> = Vec::new();
    let ghost spec = if_rule(then_ty, then_loc, else_ty, else_loc);
    let r = match (then_ty, else_ty) {
        (Some(a), Some(b)) => {
            if a != b {
                errs.push(
                    ResolveError::TypeResolveError(
                        TypeResolveError::BlockBranchTypeMismatch {
                            branch: Located(a, then_loc),
                            other: Located(b, else_loc),
                        },
                    ),
                );
                None
            } else {
                Some(a)
            }
        },
        (Some(a), None) => Some(a),
        (None, Some(b)) => Some(b),
        (None, None) => None,
    };
    assert(errs@ =~= spec.1);
    (r, errs)
}

} // verus!
