use whiskc::ast::{Expr, Item, PrimType, Stmt, Type};
use whiskc::lexer::Lexer;
use whiskc::parsing::items::parse;
use whiskc::parsing::{
    ExprParseError, FunctionParseError, ItemParseError, ParseContext, ParseError, TryParse,
};
use whiskc::token::{Delimiter, Keyword, Operator};

fn chars(s: &str) -> Vec<char> {
    s.chars().collect()
}

fn parse_expr(src: &str) -> (Option<Expr>, usize) {
    let v = chars(src);
    let mut ctx = ParseContext::new(Lexer::new(&v));
    let e = Expr::parse(&mut ctx);
    (e, ctx.error_count())
}

#[test]
fn addition_is_left_associative() {
    let (e, errs) = parse_expr("1 + 2 - 3");
    assert_eq!(errs, 0);
    match e {
        Some(Expr::Binary(b)) => {
            assert_eq!(b.op.0, Operator::Sub);
            assert!(matches!(*b.right, Expr::Integer(ref i) if i.0 == 3));
            match *b.left {
                Expr::Binary(ref l) => {
                    assert_eq!(l.op.0, Operator::Add);
                    assert!(matches!(*l.left, Expr::Integer(ref i) if i.0 == 1));
                    assert!(matches!(*l.right, Expr::Integer(ref i) if i.0 == 2));
                },
                _ => panic!("expected a binary left operand"),
            }
        },
        _ => panic!("expected a binary expression"),
    }
}

#[test]
fn comparison_binds_tighter_than_logic() {
    let (e, errs) = parse_expr("a == b && c < d");
    assert_eq!(errs, 0);
    match e {
        Some(Expr::Binary(b)) => {
            assert_eq!(b.op.0, Operator::And);
            assert!(matches!(*b.left, Expr::Binary(ref l) if l.op.0 == Operator::Equal));
            assert!(matches!(*b.right, Expr::Binary(ref r) if r.op.0 == Operator::Less));
        },
        _ => panic!("expected a binary expression"),
    }
}

#[test]
fn and_binds_tighter_than_or() {
    let (e, _) = parse_expr("a || b && c");
    match e {
        Some(Expr::Binary(b)) => {
            assert_eq!(b.op.0, Operator::Or);
            assert!(matches!(*b.right, Expr::Binary(ref r) if r.op.0 == Operator::And));
        },
        _ => panic!("expected a binary expression"),
    }
}

#[test]
fn prefix_operators_and_groups() {
    let (e, errs) = parse_expr("-(1 + 2)");
    assert_eq!(errs, 0);
    match e {
        Some(Expr::Unary(u)) => {
            assert_eq!(u.op.0, Operator::Sub);
            assert!(matches!(*u.expr, Expr::Grouped(_)));
        },
        _ => panic!("expected a unary expression"),
    }
    let (e, _) = parse_expr("!true");
    assert!(matches!(e, Some(Expr::Unary(ref u)) if u.op.0 == Operator::Not));
    let (e, _) = parse_expr("()");
    assert!(matches!(e, Some(Expr::Unit(_))));
}

#[test]
fn calls_take_argument_lists() {
    let (e, errs) = parse_expr("f(1, x, g())");
    assert_eq!(errs, 0);
    match e {
        Some(Expr::Call(c)) => {
            assert!(matches!(*c.callee, Expr::Identifier(ref n) if n.0 == "f"));
            assert_eq!(c.args.items.len(), 3);
            assert_eq!(c.args.sep, Delimiter::Comma);
            assert!(matches!(c.args.items[2], Expr::Call(_)));
        },
        _ => panic!("expected a call"),
    }
}

#[test]
fn an_expression_cannot_start_with_a_delimiter() {
    let (e, errs) = parse_expr(")");
    assert!(e.is_none());
    assert_eq!(errs, 1);
}

#[test]
fn blocks_keep_statements_and_a_final_value() {
    let (e, errs) = parse_expr("{ let x = 1; x }");
    assert_eq!(errs, 0);
    match e {
        Some(Expr::Block(b)) => {
            assert_eq!(b.stmts.len(), 1);
            assert!(matches!(b.stmts[0], Stmt::Let(ref l) if l.name.0 == "x"));
            assert!(matches!(b.eval_expr.as_deref(), Some(Expr::Identifier(n)) if n.0 == "x"));
        },
        _ => panic!("expected a block"),
    }
}

#[test]
fn if_else_and_return() {
    let (e, errs) = parse_expr("if c { return 1; } else { 2 }");
    assert_eq!(errs, 0);
    match e {
        Some(Expr::If(i)) => {
            assert!(matches!(*i.cond, Expr::Identifier(ref n) if n.0 == "c"));
            assert_eq!(i.then_body.stmts.len(), 1);
            assert!(i.else_expr.is_some());
        },
        _ => panic!("expected an if"),
    }
}

#[test]
fn types_parse_and_try_parse() {
    let v = chars("int");
    let mut ctx = ParseContext::new(Lexer::new(&v));
    assert!(matches!(Type::parse(&mut ctx), Some(Type::Primitive(ref p)) if p.0 == PrimType::Int));
    let v = chars(")");
    let mut ctx = ParseContext::new(Lexer::new(&v));
    assert!(<Type as TryParse>::try_parse(&mut ctx).is_none());
    assert_eq!(ctx.error_count(), 0);
    let v = chars(")");
    let mut ctx = ParseContext::new(Lexer::new(&v));
    assert!(Type::parse(&mut ctx).is_none());
    assert_eq!(ctx.error_count(), 1);
}

#[test]
fn whole_files_parse_into_items() {
    let v = chars("pub func main() () { }\nextern func put(x int, y bool) int;\n");
    let ast = match parse(&v) {
        Ok(a) => a,
        Err(e) => panic!("{:?}", e),
    };
    assert_eq!(ast.items.len(), 2);
    match &ast.items[0] {
        Item::Function(f) => {
            assert_eq!(f.sig.name.0, "main");
            assert_eq!(f.sig.attributes.attribs.len(), 1);
            assert_eq!(f.sig.attributes.attribs[0].0, Keyword::Pub);
            assert_eq!(f.sig.params.items.len(), 0);
        },
        _ => panic!("expected a function"),
    }
    match &ast.items[1] {
        Item::ExternFunction(f) => {
            assert_eq!(f.sig.name.0, "put");
            assert_eq!(f.sig.params.items.len(), 2);
            assert_eq!(f.sig.params.items[1].0 .0, "y");
        },
        _ => panic!("expected an extern function"),
    }
}

#[test]
fn empty_file_parses_to_no_items() {
    let ast = parse(&chars("")).ok().expect("empty source parses");
    assert_eq!(ast.items.len(), 0);
}

#[test]
fn a_function_without_body_is_reported() {
    match parse(&chars("func f() int 5")) {
        Err(errors) => {
            assert!(errors.iter().any(|e| matches!(
                &e.0,
                ParseError::FuncParseError(FunctionParseError::MissingFunctionBody { func_name }) if func_name == "f"
            )));
        },
        Ok(_) => panic!("expected errors"),
    }
}

#[test]
fn unexpected_tokens_are_reported() {
    match parse(&chars("func f() int { let = ; }")) {
        Err(errors) => assert!(!errors.is_empty()),
        Ok(_) => panic!("expected errors"),
    }
    match parse(&chars("func f() int { + }")) {
        Err(errors) => assert!(errors.iter().any(|e| matches!(
            e.0,
            ParseError::ExprParseError(ExprParseError::UnexpectedToken(_))
        ))),
        Ok(_) => panic!("expected errors"),
    }
    match parse(&chars("42")) {
        Err(errors) => assert!(!errors.is_empty()),
        Ok(_) => panic!("expected errors"),
    }
}

#[test]
fn subtraction_groups_to_the_left() {
    let (e, _) = parse_expr("1 - 2 - 3");
    match e {
        Some(Expr::Binary(b)) => {
            assert!(matches!(*b.left, Expr::Binary(_)));
            assert!(matches!(*b.right, Expr::Integer(ref i) if i.0 == 3));
        },
        _ => panic!("expected a binary expression"),
    }
}

#[test]
fn the_parse_trait_gives_the_same_expression() {
    let v = chars("a + b");
    let mut ctx = ParseContext::new(Lexer::new(&v));
    let e = <Expr as whiskc::parsing::Parse>::parse(&mut ctx);
    assert!(matches!(e, Some(Expr::Binary(ref b)) if b.op.0 == Operator::Add));
}

#[test]
fn an_item_cannot_start_with_a_literal() {
    match parse(&chars("42 func f() { }")) {
        Err(errors) => assert!(matches!(
            errors[0].0,
            ParseError::ItemParseError(whiskc::parsing::ItemParseError::UnexpectedToken(_))
        )),
        Ok(_) => panic!("expected errors"),
    }
}

#[test]
fn a_source_not_starting_an_item_fails_at_its_first_token() {
    let v = chars("x func f() () {}");
    match parse(&v) {
        Err(errs) => {
            assert!(matches!(
                &errs[0].0,
                ParseError::ItemParseError(ItemParseError::UnexpectedToken(whiskc::token::TokenKind::Identifier(_)))
            ));
            assert_eq!(errs[0].1.start.line, 1);
            assert_eq!(errs[0].1.start.col, 1);
        },
        Ok(_) => panic!("expected an error"),
    }
}

#[test]
fn a_source_of_items_gives_them_all() {
    let v = chars("extern func put(x int) ();\nfunc main() () { put(1); }");
    let ast = parse(&v).ok().expect("parses");
    assert_eq!(ast.items.len(), 2);
}

#[test]
fn a_missing_separator_is_reported_and_the_list_goes_on() {
    let v = chars("a int b bool)");
    let mut ctx = ParseContext::new(Lexer::new(&v));
    let list = whiskc::ast::Punctuated::<whiskc::ast::Param>::parse(&mut ctx, Delimiter::Comma, Delimiter::ParenClose)
        .expect("parses");
    assert_eq!(list.items.len(), 2);
    assert_eq!(list.items[0].0 .0, "a");
    assert_eq!(list.items[1].0 .0, "b");
    assert_eq!(ctx.error_count(), 1);
}

#[test]
fn a_failing_element_ends_the_list() {
    let v = chars("a int, 5)");
    let mut ctx = ParseContext::new(Lexer::new(&v));
    let list = whiskc::ast::Punctuated::<whiskc::ast::Param>::parse(&mut ctx, Delimiter::Comma, Delimiter::ParenClose);
    assert!(list.is_none());
    assert!(ctx.error_count() >= 1);
}

#[test]
fn addition_binds_tighter_than_comparison() {
    let (e, errs) = parse_expr("1 == 2 + 3");
    assert_eq!(errs, 0);
    match e {
        Some(Expr::Binary(b)) => {
            assert_eq!(b.op.0, Operator::Equal);
            assert!(matches!(*b.left, Expr::Integer(ref l) if l.0 == 1));
            match *b.right {
                Expr::Binary(ref r) => {
                    assert_eq!(r.op.0, Operator::Add);
                    assert!(matches!(*r.left, Expr::Integer(ref l) if l.0 == 2));
                    assert!(matches!(*r.right, Expr::Integer(ref l) if l.0 == 3));
                },
                _ => panic!("expected the addition on the right"),
            }
        },
        _ => panic!("expected a comparison"),
    }
}

#[test]
fn an_empty_block_is_empty() {
    let v = chars("{}");
    let mut ctx = ParseContext::new(Lexer::new(&v));
    let b = whiskc::ast::BlockExpr::parse(&mut ctx);
    assert!(b.stmts.is_empty());
    assert!(b.eval_expr.is_none());
    assert_eq!(ctx.error_count(), 0);
}

#[test]
fn try_parse_never_records_an_error() {
    // A `(` without its `)` is taken as `()` by `try_parse`, with no error recorded.
    let v = chars("( x");
    let mut ctx = ParseContext::new(Lexer::new(&v));
    let t = <Type as TryParse>::try_parse(&mut ctx);
    assert!(matches!(t, Some(Type::Primitive(ref p)) if p.0 == PrimType::Unit));
    assert_eq!(ctx.error_count(), 0);
}

#[test]
fn plain_extern_declarations_parse_without_errors() {
    let v = chars("extern func a() int;\n  extern func b() bool;\n");
    match parse(&v) {
        Ok(ast) => {
            assert_eq!(ast.items.len(), 2);
            match (&ast.items[0], &ast.items[1]) {
                (Item::ExternFunction(a), Item::ExternFunction(b)) => {
                    assert_eq!(a.sig.name.0, "a");
                    assert_eq!(b.sig.name.0, "b");
                    assert!(a.sig.params.items.is_empty());
                },
                _ => panic!("expected two extern functions"),
            }
        },
        Err(_) => panic!("unexpected errors"),
    }
}
