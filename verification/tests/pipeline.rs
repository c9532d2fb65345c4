use whiskc::ast_resolved::resolve::{ast_supported, resolve};
use whiskc::cfg::display::display_cfg;
use whiskc::cfg::CFG;
use whiskc::lexer::lexes_completely;
use whiskc::parsing::items::parse;
use whiskc::symbol_table::SymbolTable;

fn compile(src: &str) -> String {
    let chars: Vec<char> = src.chars().collect();
    assert!(lexes_completely(&chars));
    let ast = match parse(&chars) {
        Ok(ast) => ast,
        Err(errors) => panic!("parse errors: {:?}", errors),
    };
    assert!(ast_supported(&ast));
    let mut resolved = match resolve(&ast) {
        Ok(r) => r,
        Err(errors) => panic!("resolve errors: {:?}", errors),
    };
    let mut table = std::mem::replace(&mut resolved.sym_table, SymbolTable::new());
    let cfg = CFG::new(&resolved, &mut table);
    let mut out = String::new();
    display_cfg(&mut out, &cfg, &table);
    out
}

#[test]
fn add_function_graph() {
    let out = compile("func add(a int, b int) int {\n    return a + b;\n}\n");
    assert_eq!(
        out,
        "func add(int %0, int %1) int {\n  bb_0: // entry\n    %2 = int add int %0, int %1\n    ret int %2\n\n}\n\n"
    );
}

#[test]
fn let_and_if_graph() {
    let src = "func f(x int) int {\n    let y = x + 1;\n    if y < 10 {\n        return y;\n    };\n    return 0;\n}\n";
    let expected = "func f(int %0) int {\n  bb_0: // entry\n    %1 = int add int %0, int 1\n    %2 = int alloca int\n    store int %1, int %2\n    %3 = bool cmp int %2 less int 10\n    branch bool %3, bb_1, bb_2\n\n  bb_1: // then\n    ret int %2\n    branch bb_2\n\n  bb_2: // merge\n    ret int 0\n\n}\n\n";
    assert_eq!(compile(src), expected);
}

#[test]
fn if_else_graph_numbers_blocks_by_first_mention() {
    // Both branches return, so what follows the `if` is dropped while resolving.
    let src = "func g(c bool) int {\n    if c {\n        return 1;\n    } else {\n        return 2;\n    };\n    return 3;\n}\n";
    let expected = "func g(bool %0) int {\n  bb_0: // entry\n    branch bool %0, bb_1, bb_2\n\n  bb_1: // then\n    ret int 1\n    branch bb_3\n\n  bb_3: // merge\n\n  bb_2: // else\n    ret int 2\n    branch bb_3\n\n}\n\n";
    assert_eq!(compile(src), expected);
}

#[test]
fn extern_and_call_graph() {
    let src = "extern func put(x int) ();\nfunc main() () {\n    put(1 + 2);\n}\n";
    let expected = "extern func put(int %0) ()\n\nfunc main() () {\n  bb_0: // entry\n    %0 = int add int 1, int 2\n    %1 = () call put(int %0)\n\n}\n\n";
    assert_eq!(compile(src), expected);
}

#[test]
fn unary_operators_graph() {
    let src = "func h(a int, b bool) bool {\n    let n = -a;\n    return !b;\n}\n";
    let expected = "func h(int %0, bool %1) bool {\n  bb_0: // entry\n    %2 = int neg int %0\n    %3 = int alloca int\n    store int %2, int %3\n    %4 = bool not bool %1\n    ret bool %4\n\n}\n\n";
    assert_eq!(compile(src), expected);
}

#[test]
fn empty_source_has_no_functions() {
    assert_eq!(compile(""), "");
}

#[test]
fn comparisons_show_their_condition() {
    let src = "func k(a int, b int) bool {\n    let x = a != b;\n    let y = a >= b;\n    return a <= b;\n}\n";
    let expected = "func k(int %0, int %1) bool {\n  bb_0: // entry\n    %2 = bool cmp int %0 notequal int %1\n    %3 = bool alloca bool\n    store bool %2, bool %3\n    %4 = bool cmp int %0 greaterequal int %1\n    %5 = bool alloca bool\n    store bool %4, bool %5\n    %6 = bool cmp int %0 lessequal int %1\n    ret bool %6\n\n}\n\n";
    assert_eq!(compile(src), expected);
}

#[test]
fn variables_are_read_through_their_slot() {
    let src = "func m(a int) int {\n    let x = a;\n    return x + 1;\n}\n";
    let expected = "func m(int %0) int {\n  bb_0: // entry\n    %1 = int alloca int\n    store int %0, int %1\n    %2 = int add int %1, int 1\n    ret int %2\n\n}\n\n";
    assert_eq!(compile(src), expected);
}

#[test]
fn functions_are_numbered_afresh() {
    let src = "func one() int { return 1; }\nfunc two(a int) int { return a - 1; }\n";
    let expected = "func one() int {\n  bb_0: // entry\n    ret int 1\n\n}\n\nfunc two(int %0) int {\n  bb_0: // entry\n    %1 = int sub int %0, int 1\n    ret int %1\n\n}\n\n";
    assert_eq!(compile(src), expected);
}

#[test]
fn every_branch_goes_to_a_block_of_its_function() {
    use_branch_check("func g(c bool) int {\n    if c {\n        return 1;\n    } else {\n        if !c { return 3; };\n        return 2;\n    };\n}\nextern func e() ();\n");
}

fn use_branch_check(src: &str) {
    let chars: Vec<char> = src.chars().collect();
    let ast = parse(&chars).ok().expect("parses");
    let mut resolved = resolve(&ast).ok().expect("resolves");
    let mut table = std::mem::replace(&mut resolved.sym_table, SymbolTable::new());
    let cfg = CFG::new(&resolved, &mut table);
    assert_eq!(cfg.get_functions().len(), 2);
    let mut branches = 0;
    for f in cfg.get_functions() {
        for (_, block) in f.get_blocks() {
            for ti in block.get_insts() {
                match &ti.inst.kind {
                    whiskc::cfg::inst::InstKind::Branch(b) => {
                        branches += 1;
                        assert!(f.is_valid_block(b.branch));
                    },
                    whiskc::cfg::inst::InstKind::BranchCond(b) => {
                        branches += 1;
                        assert!(f.is_valid_block(b.then_branch));
                        assert!(f.is_valid_block(b.else_branch));
                    },
                    _ => {},
                }
            }
        }
    }
    assert!(branches >= 4);
    assert!(!cfg.get_functions()[1].has_entry());
}
