use whiskc::ast_resolved::errors::{
    ControlFlowError, IdentResolveError, ResolveError, TypeResolveError,
};
use whiskc::ast_resolved::nodes::{
    BinaryExpr, BlockExpr, CallExpr, Expr, ExprStmt, IdentExpr, Item, Stmt, UnaryExpr,
};
use whiskc::ast_resolved::constant_fold::{
    constant_fold, constant_fold_binary, constant_fold_unary, fold_expr,
};
use whiskc::ast_resolved::context::ResolveContext;
use whiskc::ast_resolved::resolve::{ast_supported, resolve};
use whiskc::symbol_table::SymbolTable;
use whiskc::ast_resolved::rules::{check_binary, check_unary};
use whiskc::lexer::lexes_completely;
use whiskc::location::{Located, LocationRange};
use whiskc::parsing::items::parse;
use whiskc::token::Operator;
use whiskc::ty::{PrimType, Type};

fn errors_of(src: &str) -> Vec<ResolveError> {
    let v: Vec<char> = src.chars().collect();
    assert!(lexes_completely(&v));
    let ast = parse(&v).ok().expect("parses");
    assert!(ast_supported(&ast));
    match resolve(&ast) {
        Ok(_) => Vec::new(),
        Err(e) => e,
    }
}

fn int_ty() -> Type {
    Type::Primitive(PrimType::Int)
}

fn bool_ty() -> Type {
    Type::Primitive(PrimType::Bool)
}

#[test]
fn a_well_typed_program_resolves() {
    assert!(errors_of("func f(a int) bool {\n    return a < 3 && true;\n}\n").is_empty());
}

#[test]
fn resolved_program_has_its_functions_in_the_table() {
    let v: Vec<char> = "extern func put(x int) ();\nfunc main() () { put(1); }".chars().collect();
    let ast = parse(&v).ok().expect("parses");
    let res = resolve(&ast).ok().expect("resolves");
    assert_eq!(res.items.len(), 2);
    assert!(res.sym_table.name_exists("put"));
    assert!(res.sym_table.name_exists("main"));
    assert!(!res.sym_table.name_exists("x"));
}

#[test]
fn unknown_identifiers_are_reported() {
    let errs = errors_of("func f() int { return y; }");
    assert!(errs.iter().any(|e| matches!(
        e,
        ResolveError::IdentResolveError(IdentResolveError::UnknownIdentifier(n)) if n.0 == "y"
    )));
}

#[test]
fn arithmetic_on_bool_is_reported() {
    let errs = errors_of("func f() int { return true + 1; }");
    assert!(errs.iter().any(|e| matches!(
        e,
        ResolveError::TypeResolveError(TypeResolveError::NonNumericTypeInBinaryOp { .. })
    )));
}

#[test]
fn missing_return_is_reported() {
    let errs = errors_of("func f() int { let x = 1; }");
    assert!(errs.iter().any(|e| matches!(
        e,
        ResolveError::ControlFlowError(ControlFlowError::NotAllFuncPathReturned(n)) if n.0 == "f"
    )));
}

#[test]
fn unit_functions_need_no_return() {
    assert!(errors_of("func f() () { let x = 1; }").is_empty());
}

#[test]
fn duplicate_globals_are_reported() {
    let errs = errors_of("func f() () { }\nfunc f() () { }");
    assert!(errs.iter().any(|e| matches!(
        e,
        ResolveError::IdentResolveError(IdentResolveError::GlobalIdentAlreadyUsed { ident, .. }) if ident == "f"
    )));
}

#[test]
fn duplicate_parameters_are_reported() {
    let errs = errors_of("func f(a int, a int) () { }");
    assert!(errs.iter().any(|e| matches!(
        e,
        ResolveError::IdentResolveError(IdentResolveError::VarNameAlreadyUsed { ident, .. }) if ident == "a"
    )));
}

#[test]
fn non_bool_conditions_are_reported() {
    let errs = errors_of("func f() () { if 1 { } }");
    assert!(errs.iter().any(|e| matches!(
        e,
        ResolveError::TypeResolveError(TypeResolveError::NonBoolInIfCond(_))
    )));
}

#[test]
fn wrong_return_type_is_reported() {
    let errs = errors_of("func f() int { return true; }");
    assert!(errs.iter().any(|e| matches!(
        e,
        ResolveError::TypeResolveError(TypeResolveError::ReturnTypeMismatch { .. })
    )));
}

#[test]
fn unary_rules() {
    let loc = LocationRange::default();
    let (t, errs) = check_unary(Operator::Sub, int_ty(), loc);
    assert_eq!(t, Some(int_ty()));
    assert!(errs.is_empty());
    let (t, errs) = check_unary(Operator::Sub, bool_ty(), loc);
    assert_eq!(t, None);
    assert_eq!(errs.len(), 1);
    let (t, errs) = check_unary(Operator::Not, int_ty(), loc);
    assert_eq!(t, Some(bool_ty()));
    assert!(matches!(errs[0], ResolveError::TypeResolveError(TypeResolveError::NonBoolUsedInNotOp(_))));
}

#[test]
fn binary_rules() {
    let loc = LocationRange::default();
    let add = Located(Operator::Add, loc);
    let (t, errs) = check_binary(add, int_ty(), loc, int_ty(), loc, loc);
    assert_eq!(t, Some(int_ty()));
    assert!(errs.is_empty());
    let less = Located(Operator::Less, loc);
    let (t, errs) = check_binary(less, int_ty(), loc, int_ty(), loc, loc);
    assert_eq!(t, Some(bool_ty()));
    assert!(errs.is_empty());
    let (_, errs) = check_binary(less, int_ty(), loc, bool_ty(), loc, loc);
    assert!(errs.iter().any(|e| matches!(e, ResolveError::TypeResolveError(TypeResolveError::TypeMismatchInBinaryOp { .. }))));
    let and = Located(Operator::And, loc);
    let (t, errs) = check_binary(and, int_ty(), loc, int_ty(), loc, loc);
    assert_eq!(t, Some(bool_ty()));
    assert_eq!(errs.len(), 2);
}

fn binary(op: Operator, l: Expr, r: Expr, ty: Type) -> Expr {
    Expr::Binary(BinaryExpr { op, left: Box::new(l), right: Box::new(r), ty })
}

#[test]
fn evaluation_of_constant_operations() {
    let e = binary(Operator::Add, Expr::Integer(40), Expr::Integer(2), int_ty());
    assert!(matches!(e.eval_constant(), Some(Expr::Integer(42))));
    let e = binary(Operator::Sub, Expr::Integer(1), Expr::Integer(3), int_ty());
    assert!(matches!(e.eval_constant(), Some(Expr::Integer(-2))));
    let e = binary(Operator::GreaterEqual, Expr::Integer(3), Expr::Integer(3), bool_ty());
    assert!(matches!(e.eval_constant(), Some(Expr::Bool(true))));
    let e = binary(Operator::Equal, Expr::Bool(true), Expr::Bool(false), bool_ty());
    assert!(matches!(e.eval_constant(), Some(Expr::Bool(false))));
    let e = Expr::Unary(UnaryExpr { op: Operator::Not, expr: Box::new(Expr::Bool(false)), ty: bool_ty() });
    assert!(matches!(e.eval_constant(), Some(Expr::Bool(true))));
    let e = Expr::Unary(UnaryExpr { op: Operator::Sub, expr: Box::new(Expr::Integer(5)), ty: int_ty() });
    assert!(matches!(e.eval_constant(), Some(Expr::Integer(-5))));
}

#[test]
fn evaluation_short_circuits_on_one_known_side() {
    let x = || Expr::Unit;
    let e = binary(Operator::And, x(), Expr::Bool(false), bool_ty());
    assert!(matches!(e.eval_constant(), Some(Expr::Bool(false))));
    let e = binary(Operator::Or, Expr::Bool(true), x(), bool_ty());
    assert!(matches!(e.eval_constant(), Some(Expr::Bool(true))));
    let e = binary(Operator::And, Expr::Bool(true), x(), bool_ty());
    assert!(e.eval_constant().is_none());
}

#[test]
fn overflow_is_detected_before_evaluation() {
    let e = binary(Operator::Add, Expr::Integer(i64::MAX), Expr::Integer(1), int_ty());
    assert!(e.eval_would_overflow());
    let e = binary(Operator::Sub, Expr::Integer(i64::MIN), Expr::Integer(1), int_ty());
    assert!(e.eval_would_overflow());
    let e = Expr::Unary(UnaryExpr { op: Operator::Sub, expr: Box::new(Expr::Integer(i64::MIN)), ty: int_ty() });
    assert!(e.eval_would_overflow());
    let e = binary(Operator::Add, Expr::Integer(i64::MAX), Expr::Integer(0), int_ty());
    assert!(!e.eval_would_overflow());
}

#[test]
fn folding_replaces_constant_operations() {
    let mut e = binary(Operator::Less, Expr::Integer(1), Expr::Integer(2), bool_ty());
    constant_fold_binary(&mut e);
    assert!(matches!(e, Expr::Bool(true)));
    let mut e = Expr::Unary(UnaryExpr { op: Operator::Sub, expr: Box::new(Expr::Integer(7)), ty: int_ty() });
    constant_fold_unary(&mut e);
    assert!(matches!(e, Expr::Integer(-7)));
    let mut e = binary(Operator::Add, Expr::Integer(1), Expr::Bool(true), int_ty());
    constant_fold_binary(&mut e);
    assert!(matches!(e, Expr::Binary(_)));
}

#[test]
fn constants_are_kept_as_operations_while_resolving() {
    let v: Vec<char> = "func f() int { return 2 - 5; }".chars().collect();
    let ast = parse(&v).ok().expect("parses");
    let res = resolve(&ast).ok().expect("resolves");
    match &res.items[0] {
        whiskc::ast_resolved::nodes::Item::Function(f) => {
            let first = &f.body.stmts[0];
            match first {
                whiskc::ast_resolved::nodes::Stmt::Expr(s) => match &s.expr {
                    Expr::Return(r) => assert!(matches!(
                        r.expr.as_deref(),
                        Some(Expr::Binary(b)) if b.op == Operator::Sub
                            && matches!(*b.left, Expr::Integer(2))
                            && matches!(*b.right, Expr::Integer(5))
                    )),
                    _ => panic!("expected a return"),
                },
                _ => panic!("expected an expression statement"),
            }
        },
        _ => panic!("expected a function"),
    }
}

#[test]
fn a_declared_type_must_match_the_value() {
    let errs = errors_of("func f() () { let x bool = 1; }");
    assert!(errs.iter().any(|e| matches!(
        e,
        ResolveError::TypeResolveError(TypeResolveError::AssignmentTypeMismatch { target_ty, value_ty })
            if target_ty.0 == bool_ty() && value_ty.0 == int_ty()
    )));
}

#[test]
fn argument_count_must_match() {
    let errs = errors_of("extern func put(x int) ();\nfunc main() { put(1, 2); }");
    assert!(errs.iter().any(|e| matches!(
        e,
        whiskc::ast_resolved::errors::ResolveError::LiteralResolveError(
            whiskc::ast_resolved::errors::ValueResolveError::ArgumentCountMismatch { expect_count: 1, actual_count: 2, .. }
        )
    )));
}

#[test]
fn argument_types_must_match() {
    let errs = errors_of("extern func put(x int) ();\nfunc main() { put(true); }");
    assert!(errs.iter().any(|e| matches!(
        e,
        ResolveError::TypeResolveError(TypeResolveError::ArgumentTypeMismatch { argument_index: 0, .. })
    )));
}

#[test]
fn only_functions_can_be_called() {
    let errs = errors_of("func main() { let x = 1; x(); }");
    assert!(errs.iter().any(|e| matches!(
        e,
        ResolveError::TypeResolveError(TypeResolveError::CallOnNonFunctionType(_))
    )));
}

#[test]
fn branches_of_different_types_are_reported() {
    let errs = errors_of("func f(c bool) int { let x = if c { 1 } else { true }; return 0; }");
    assert!(errs.iter().any(|e| matches!(
        e,
        ResolveError::TypeResolveError(TypeResolveError::BlockBranchTypeMismatch { .. })
    )));
}

#[test]
fn not_needs_a_bool() {
    let errs = errors_of("func f() bool { return !1; }");
    assert!(errs.iter().any(|e| matches!(
        e,
        ResolveError::TypeResolveError(TypeResolveError::NonBoolUsedInNotOp(_))
    )));
}

#[test]
fn return_without_value_in_an_int_function_is_reported() {
    let errs = errors_of("func f() int { return; }");
    assert!(errs.iter().any(|e| matches!(
        e,
        ResolveError::TypeResolveError(TypeResolveError::ReturnTypeMismatch { function_name, .. }) if function_name == "f"
    )));
}

#[test]
fn folding_respects_overflow() {
    let v: Vec<char> = "func f() int { return 9223372036854775807 + 1; }".chars().collect();
    let ast = parse(&v).ok().expect("parses");
    let res = resolve(&ast).ok().expect("resolves");
    match &res.items[0] {
        whiskc::ast_resolved::nodes::Item::Function(f) => match &f.body.stmts[0] {
            whiskc::ast_resolved::nodes::Stmt::Expr(s) => match &s.expr {
                Expr::Return(r) => assert!(matches!(r.expr.as_deref(), Some(Expr::Binary(_)))),
                _ => panic!("expected a return"),
            },
            _ => panic!("expected an expression statement"),
        },
        _ => panic!("expected a function"),
    }
}

#[test]
fn folding_gives_what_evaluation_gives() {
    let make = || binary(Operator::NotEqual, Expr::Integer(4), Expr::Integer(5), bool_ty());
    let evaluated = make().eval_constant();
    let mut folded = make();
    constant_fold_binary(&mut folded);
    assert!(matches!(evaluated, Some(Expr::Bool(true))));
    assert!(matches!(folded, Expr::Bool(true)));
}

#[test]
fn folding_works_bottom_up() {
    // (-3) + 5 folds to 2: the operand first, then the operation holding it.
    let neg = Expr::Unary(UnaryExpr { op: Operator::Sub, expr: Box::new(Expr::Integer(3)), ty: int_ty() });
    let e = binary(Operator::Add, neg, Expr::Integer(5), int_ty());
    assert!(matches!(fold_expr(e), Expr::Integer(2)));
    // !(1 < 2) folds to false.
    let lt = binary(Operator::Less, Expr::Integer(1), Expr::Integer(2), bool_ty());
    let e = Expr::Unary(UnaryExpr { op: Operator::Not, expr: Box::new(lt), ty: bool_ty() });
    assert!(matches!(fold_expr(e), Expr::Bool(false)));
}

#[test]
fn folding_keeps_operations_on_names() {
    // x < 1 + 2 keeps the comparison and folds its right side to 3.
    let x = Expr::Identifier(IdentExpr { sym_id: 7, ident: "x".to_string(), ty: int_ty() });
    let sum = binary(Operator::Add, Expr::Integer(1), Expr::Integer(2), int_ty());
    let e = binary(Operator::Less, x, sum, bool_ty());
    match fold_expr(e) {
        Expr::Binary(b) => {
            assert_eq!(b.op, Operator::Less);
            assert!(matches!(*b.left, Expr::Identifier(ref i) if i.ident == "x"));
            assert!(matches!(*b.right, Expr::Integer(3)));
        },
        _ => panic!("expected the comparison to stay"),
    }
}

#[test]
fn folding_leaves_overflowing_operations() {
    let e = binary(Operator::Add, Expr::Integer(i64::MAX), Expr::Integer(1), int_ty());
    assert!(matches!(fold_expr(e), Expr::Binary(_)));
    let e = Expr::Unary(UnaryExpr { op: Operator::Sub, expr: Box::new(Expr::Integer(i64::MIN)), ty: int_ty() });
    assert!(matches!(fold_expr(e), Expr::Unary(_)));
}

#[test]
fn folding_reaches_into_blocks_and_calls() {
    let callee = Expr::Identifier(IdentExpr { sym_id: 9, ident: "g".to_string(), ty: int_ty() });
    let arg = binary(Operator::Sub, Expr::Integer(10), Expr::Integer(4), int_ty());
    let call = Expr::Call(CallExpr { callee: Box::new(callee), args: vec![arg, Expr::Bool(true)], ty: int_ty() });
    let stmt = Stmt::Expr(ExprStmt { expr: call });
    let tail = binary(Operator::Or, Expr::Bool(false), Expr::Bool(true), bool_ty());
    let block = Expr::Block(BlockExpr { table_id: 3, stmts: vec![stmt], eval_expr: Some(Box::new(tail)), ty: bool_ty() });
    match fold_expr(block) {
        Expr::Block(b) => {
            assert_eq!(b.table_id, 3);
            assert!(matches!(b.eval_expr.as_deref(), Some(Expr::Bool(true))));
            match &b.stmts[0] {
                Stmt::Expr(s) => match &s.expr {
                    Expr::Call(c) => {
                        assert_eq!(c.args.len(), 2);
                        assert!(matches!(c.args[0], Expr::Integer(6)));
                        assert!(matches!(c.args[1], Expr::Bool(true)));
                    },
                    _ => panic!("expected the call to stay"),
                },
                _ => panic!("expected an expression statement"),
            }
        },
        _ => panic!("expected the block to stay"),
    }
}

#[test]
fn constant_fold_rewrites_function_bodies() {
    let v: Vec<char> = "func f(a int) int { let b = a; return b; }".chars().collect();
    let ast = parse(&v).ok().expect("parses");
    let mut res = resolve(&ast).ok().expect("resolves");
    // Put an unfolded operation in the body, as a later rewrite might leave one.
    match &mut res.items[0] {
        Item::Function(f) => {
            f.body.eval_expr = Some(Box::new(binary(Operator::Add, Expr::Integer(20), Expr::Integer(22), int_ty())));
        },
        _ => panic!("expected a function"),
    }
    let count = res.items.len();
    constant_fold(&mut res);
    assert_eq!(res.items.len(), count);
    assert!(res.sym_table.name_exists("f"));
    match &res.items[0] {
        Item::Function(f) => {
            assert_eq!(f.sig.name.0, "f");
            assert_eq!(f.body.stmts.len(), 2);
            assert!(matches!(f.body.eval_expr.as_deref(), Some(Expr::Integer(42))));
        },
        _ => panic!("expected a function"),
    }
}

#[test]
fn an_if_on_false_keeps_only_its_else_block() {
    let v: Vec<char> = "func f() int { if false { return 1; } else { return 2; }; }".chars().collect();
    let ast = parse(&v).ok().expect("parses");
    let res = resolve(&ast).ok().expect("resolves");
    match &res.items[0] {
        Item::Function(f) => {
            let first = &f.body.stmts[0];
            match first {
                Stmt::Expr(s) => assert!(matches!(s.expr, Expr::Block(_))),
                _ => panic!("expected an expression statement"),
            }
        },
        _ => panic!("expected a function"),
    }
}

#[test]
fn a_body_ending_in_if_false_drops_its_function() {
    // The final `if false { }` resolves to nothing, and so does the body around it,
    // without any error: the function is left out of the result.
    let v: Vec<char> = "func f() () { if false { } }".chars().collect();
    let ast = parse(&v).ok().expect("parses");
    let res = resolve(&ast).ok().expect("resolves");
    assert_eq!(res.items.len(), 0);
    assert!(res.sym_table.name_exists("f"));
}

#[test]
fn only_a_literal_false_condition_drops_the_then_branch() {
    // `1 > 2` is not folded while resolving, so both branches stay.
    let v: Vec<char> = "func f() int { if 1 > 2 { return 1; } else { return 2; }; }".chars().collect();
    let ast = parse(&v).ok().expect("parses");
    let res = resolve(&ast).ok().expect("resolves");
    match &res.items[0] {
        Item::Function(f) => match &f.body.stmts[0] {
            Stmt::Expr(s) => assert!(matches!(s.expr, Expr::If(_))),
            _ => panic!("expected an expression statement"),
        },
        _ => panic!("expected a function"),
    }
}

#[test]
fn a_body_ending_in_a_literal_always_resolves() {
    let v: Vec<char> = "func f() int { 1 }".chars().collect();
    let ast = parse(&v).ok().expect("parses");
    let res = resolve(&ast).ok().expect("resolves");
    assert_eq!(res.items.len(), 1);
}

#[test]
fn constant_operations_resolve_in_any_context() {
    let v: Vec<char> = "1 < 2".chars().collect();
    let mut ctx = whiskc::parsing::ParseContext::new(whiskc::lexer::Lexer::new(&v));
    let e = whiskc::ast::Expr::parse(&mut ctx).expect("parses");
    let mut rctx = ResolveContext::new(SymbolTable::new());
    let r = e.resolve(&mut rctx);
    match r.0 {
        Some(Expr::Binary(b)) => {
            assert_eq!(b.op, Operator::Less);
            assert!(matches!(*b.left, Expr::Integer(1)));
            assert!(matches!(*b.right, Expr::Integer(2)));
            assert_eq!(b.ty, bool_ty());
        },
        _ => panic!("expected the comparison"),
    }
    assert!(rctx.finalize().is_ok());

    let v: Vec<char> = "true + 1".chars().collect();
    let mut ctx = whiskc::parsing::ParseContext::new(whiskc::lexer::Lexer::new(&v));
    let e = whiskc::ast::Expr::parse(&mut ctx).expect("parses");
    let mut rctx = ResolveContext::new(SymbolTable::new());
    let r = e.resolve(&mut rctx);
    assert!(r.0.is_none());
    assert_eq!(rctx.finalize().err().map(|v| v.len()), Some(1));
}

#[test]
fn branches_of_different_constant_types_are_reported() {
    let errs = errors_of("func f() () { let x = if true { 1 } else { false }; }");
    assert!(errs.iter().any(|e| matches!(
        e,
        ResolveError::TypeResolveError(TypeResolveError::BlockBranchTypeMismatch { .. })
    )));
}

#[test]
fn clean_functions_and_externs_resolve_without_errors() {
    let v: Vec<char> = "extern func h() int;\nfunc f() () { }\nfunc g() int { 1 + 2 }\n".chars().collect();
    let ast = parse(&v).ok().expect("parses");
    let res = resolve(&ast).ok().expect("resolves");
    assert_eq!(res.items.len(), 3);
    assert!(matches!(res.items[0], Item::ExternFunction(_)));
    assert!(matches!(res.items[1], Item::Function(_)));
    match &res.items[2] {
        Item::Function(g) => match g.body.eval_expr.as_deref() {
            Some(Expr::Binary(b)) => assert_eq!(b.op, Operator::Add),
            _ => panic!("expected the addition as the final value"),
        },
        _ => panic!("expected a function"),
    }
}
