use whiskc::cfg::basic_block::BasicBlock;
use whiskc::cfg::builder::Builder;
use whiskc::cfg::display::DisplayContext;
use whiskc::text::{push_int, push_nat};
use whiskc::cfg::function::Function;
use whiskc::cfg::inst::{AddInst, BranchInst, Inst, InstKind, ReturnInst};
use whiskc::cfg::value::{ConstantValue, Value, ValueKind};
use whiskc::ids::{fresh_id, NIL_ID};
use whiskc::location::Located;
use whiskc::symbol_table::{Symbol, SymbolTable, SymbolTableEntry, VarSymbol};
use whiskc::ty::{PrimType, Type};

fn int_value(v: i64) -> Value {
    Value { kind: ValueKind::Constant(ConstantValue::Integer(v)), ty: Type::Primitive(PrimType::Int) }
}

fn unit_inst(kind: InstKind) -> Inst {
    Inst { kind, ty: Type::Primitive(PrimType::Unit) }
}

#[test]
fn decimal_text() {
    let mut s = String::new();
    push_nat(&mut s, 0);
    s.push(' ');
    push_nat(&mut s, 1234567890);
    s.push(' ');
    push_int(&mut s, -42);
    s.push(' ');
    push_int(&mut s, i64::MIN);
    s.push(' ');
    push_int(&mut s, i64::MAX);
    assert_eq!(s, "0 1234567890 -42 -9223372036854775808 9223372036854775807");
}

#[test]
fn numbering_is_by_first_mention() {
    let mut ctx = DisplayContext::new();
    assert_eq!(ctx.get_reg_sym_id(77), 0);
    assert_eq!(ctx.get_reg_inst_id(77), 1);
    assert_eq!(ctx.get_reg_sym_id(77), 0);
    assert_eq!(ctx.get_reg_inst_id(5), 2);
    assert_eq!(ctx.get_reg_inst_id(77), 1);
    assert_eq!(ctx.get_bb(9), 0);
    assert_eq!(ctx.get_bb(3), 1);
    assert_eq!(ctx.get_bb(9), 0);
}

#[test]
fn fresh_ids_avoid_used_ones() {
    let used = vec![1u128, 2, 3];
    let id = fresh_id(&used);
    assert_ne!(id, NIL_ID);
    assert!(!used.contains(&id));
    let a = fresh_id(&Vec::new());
    assert_ne!(a, NIL_ID);
}

#[test]
fn the_first_block_is_the_entry() {
    let mut f = Function::new(10, 20);
    assert!(!f.has_entry());
    let a = f.add_block(BasicBlock::new(Some("entry".to_owned())));
    let b = f.add_block(BasicBlock::new(None));
    assert!(f.has_entry());
    assert_eq!(f.get_entry_block(), a);
    assert_ne!(a, b);
    assert!(f.is_valid_block(b));
    assert_eq!(f.get_blocks().len(), 2);
    assert_eq!(f.get_symbol_id(), 10);
    assert_eq!(f.get_table_id(), 20);
}

#[test]
fn linking_records_both_directions() {
    let mut f = Function::new(1, 2);
    let a = f.add_block(BasicBlock::new(None));
    let b = f.add_block(BasicBlock::new(None));
    f.link_block(a, b);
    f.link_block(a, b);
    assert_eq!(f.get_block(a).unwrap().outgoings, vec![b]);
    assert_eq!(f.get_block(b).unwrap().incomings, vec![a]);
    f.unlink_block_outgoings(a);
    assert!(f.get_block(a).unwrap().outgoings.is_empty());
    assert!(f.get_block(b).unwrap().incomings.is_empty());
}

#[test]
fn builder_pushes_into_the_current_block() {
    let mut f = Function::new(1, 2);
    let entry = f.add_block(BasicBlock::new(Some("entry".to_owned())));
    let mut b = Builder::new(f, entry);
    let add = b.push_inst(Inst {
        kind: InstKind::Add(AddInst { lhs: int_value(1), rhs: int_value(2) }),
        ty: Type::Primitive(PrimType::Int),
    });
    assert!(!b.is_termiated());
    let next = b.add_block(Some("next".to_owned()));
    b.push_inst(unit_inst(InstKind::Branch(BranchInst { branch: next })));
    assert!(b.is_termiated());
    assert_eq!(b.get_current_block_id(), entry);
    b.set_current_block(next);
    b.push_inst(unit_inst(InstKind::Return(ReturnInst { value: None })));
    let f = b.into_function();
    let insts = f.get_block(entry).unwrap().get_insts();
    assert_eq!(insts.len(), 2);
    assert_eq!(insts[0].id, add);
    assert_eq!(f.get_block(next).unwrap().get_insts().len(), 1);
}

#[test]
fn inserting_a_branch_in_the_middle_splits_the_block() {
    let mut f = Function::new(1, 2);
    let entry = f.add_block(BasicBlock::new(Some("entry".to_owned())));
    let target = f.add_block(BasicBlock::new(Some("target".to_owned())));
    let mut b = Builder::new(f, entry);
    let first = b.push_inst(Inst {
        kind: InstKind::Add(AddInst { lhs: int_value(1), rhs: int_value(2) }),
        ty: Type::Primitive(PrimType::Int),
    });
    b.push_inst(Inst {
        kind: InstKind::Add(AddInst { lhs: int_value(3), rhs: int_value(4) }),
        ty: Type::Primitive(PrimType::Int),
    });
    let r = b.insert_inst(unit_inst(InstKind::Branch(BranchInst { branch: target })), first);
    assert!(r.is_some());
    let f = b.into_function();
    assert_eq!(f.get_blocks().len(), 3);
    let head = f.get_block(entry).unwrap();
    assert_eq!(head.get_insts().len(), 1);
    assert_eq!(Some(head.get_insts()[0].id), r);
    assert_eq!(head.outgoings, vec![target]);
    let latter = &f.get_blocks()[2].1;
    assert_eq!(latter.get_insts().len(), 2);
    assert_eq!(latter.get_insts()[0].id, first);
    assert_eq!(latter.desc.as_deref(), Some("entry_latter"));
    assert!(latter.outgoings.is_empty());
}

#[test]
fn basic_block_positions() {
    let mut bb = BasicBlock::new(None);
    let a = bb.insert_inst(unit_inst(InstKind::Alloca), None).unwrap();
    let c = bb.insert_inst(unit_inst(InstKind::Alloca), None).unwrap();
    let b = bb.insert_inst(unit_inst(InstKind::Alloca), Some(c)).unwrap();
    assert_eq!(bb.position(a), Some(0));
    assert_eq!(bb.position(b), Some(1));
    assert_eq!(bb.position(c), Some(2));
    assert_eq!(bb.insert_inst(unit_inst(InstKind::Alloca), Some(NIL_ID)), None);
    assert!(bb.get_inst(b).is_some());
}

#[test]
fn symbol_table_reads_back_what_was_entered() {
    let mut t = SymbolTable::new();
    let var = VarSymbol::new(Located::new_temporary("x".to_owned()), Type::Primitive(PrimType::Int));
    let id = t.new_named_entry(NIL_ID, "x", SymbolTableEntry::Symbol(Symbol::Variable(var))).unwrap();
    assert_eq!(t.get_symbol_id_by_name("x"), Some(id));
    assert!(t.has_entry(id));
    assert_eq!(t.get_entry_parent_id(id), Some(NIL_ID));
    match t.get_symbol(id) {
        Some(Symbol::Variable(v)) => {
            assert_eq!(v.get_name(), "x");
            assert_eq!(v.get_id(), id);
            assert_eq!(v.get_type(), Type::Primitive(PrimType::Int));
        },
        _ => panic!("expected the variable"),
    }
    let dup = VarSymbol::new(Located::new_temporary("x".to_owned()), Type::Primitive(PrimType::Bool));
    assert!(t.new_named_entry(NIL_ID, "x", SymbolTableEntry::Symbol(Symbol::Variable(dup))).is_none());
    assert!(t.get_symbol_by_name("y").is_none());
}

#[test]
fn nested_tables_hold_their_own_names() {
    let mut t = SymbolTable::new();
    let inner = t.new_entry(NIL_ID, SymbolTableEntry::Table(SymbolTable::new()));
    let var = VarSymbol::new(Located::new_temporary("v".to_owned()), Type::Primitive(PrimType::Int));
    let id = t
        .new_named_entry_in(inner, inner, "v", SymbolTableEntry::Symbol(Symbol::Variable(var)))
        .unwrap();
    assert!(!t.name_exists("v"));
    let nested = t.get_table(inner).unwrap();
    assert_eq!(nested.get_symbol_id_by_name("v"), Some(id));
    assert!(nested.has_var(id));
    assert!(!t.has_var(id));
    assert!(t.set_var_value(inner, id, int_value(5)));
    match t.get_table(inner).unwrap().get_symbol(id) {
        Some(Symbol::Variable(v)) => assert_eq!(v.get_value(), Some(int_value(5))),
        _ => panic!("expected the variable"),
    }
    assert!(!t.set_var_value(inner, 12345, int_value(5)));
}

#[test]
fn inserting_a_plain_instruction_keeps_the_block_whole() {
    let mut f = Function::new(1, 2);
    let entry = f.add_block(BasicBlock::new(Some("entry".to_owned())));
    let mut b = Builder::new(f, entry);
    let first = b.push_inst(Inst {
        kind: InstKind::Add(AddInst { lhs: int_value(1), rhs: int_value(2) }),
        ty: Type::Primitive(PrimType::Int),
    });
    let mid = b
        .insert_inst(
            Inst { kind: InstKind::Add(AddInst { lhs: int_value(5), rhs: int_value(6) }), ty: Type::Primitive(PrimType::Int) },
            first,
        )
        .unwrap();
    assert!(b.insert_inst(unit_inst(InstKind::Alloca), 424242).is_none());
    let f = b.into_function();
    assert_eq!(f.get_blocks().len(), 1);
    let insts = f.get_block(entry).unwrap().get_insts();
    assert_eq!(insts.len(), 2);
    assert_eq!(insts[0].id, mid);
    assert_eq!(insts[1].id, first);
}

#[test]
fn inserting_a_return_in_the_middle_splits_the_block() {
    let mut f = Function::new(1, 2);
    let entry = f.add_block(BasicBlock::new(Some("entry".to_owned())));
    let mut b = Builder::new(f, entry);
    let first = b.push_inst(Inst {
        kind: InstKind::Add(AddInst { lhs: int_value(1), rhs: int_value(2) }),
        ty: Type::Primitive(PrimType::Int),
    });
    let r = b.insert_inst(unit_inst(InstKind::Return(ReturnInst { value: None })), first);
    assert!(r.is_some());
    let f = b.into_function();
    assert_eq!(f.get_blocks().len(), 2);
    let head = f.get_block(entry).unwrap();
    assert_eq!(head.get_insts().len(), 1);
    assert_eq!(Some(head.get_insts()[0].id), r);
    assert!(head.outgoings.is_empty());
    let latter = &f.get_blocks()[1].1;
    assert_eq!(latter.get_insts().len(), 1);
    assert_eq!(latter.get_insts()[0].id, first);
    assert_eq!(latter.desc.as_deref(), Some("entry_latter"));
}

#[test]
fn splitting_hands_the_successors_to_the_latter_block() {
    let mut f = Function::new(1, 2);
    let mut first = BasicBlock::new(Some("body".to_owned()));
    let i1 = first
        .insert_inst(Inst { kind: InstKind::Add(AddInst { lhs: int_value(1), rhs: int_value(2) }), ty: Type::Primitive(PrimType::Int) }, None)
        .unwrap();
    let i2 = first
        .insert_inst(Inst { kind: InstKind::Add(AddInst { lhs: int_value(3), rhs: int_value(4) }), ty: Type::Primitive(PrimType::Int) }, None)
        .unwrap();
    let a = f.add_block(first);
    let b = f.add_block(BasicBlock::new(None));
    f.link_block(a, b);
    let (kept, latter) = f.split_block_at(a, i1).unwrap();
    assert_eq!(kept, a);
    assert_eq!(f.get_block(a).unwrap().get_insts().len(), 1);
    assert_eq!(f.get_block(latter).unwrap().get_insts()[0].id, i2);
    assert!(f.get_block(a).unwrap().outgoings.is_empty());
    assert_eq!(f.get_block(latter).unwrap().outgoings, vec![b]);
    assert_eq!(f.get_block(b).unwrap().incomings, vec![latter]);
    assert_eq!(f.get_block(latter).unwrap().desc.as_deref(), Some("body_latter"));
    assert!(f.split_block_at(a, 987654).is_none());
}
