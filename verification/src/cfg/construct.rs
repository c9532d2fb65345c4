//! Building the control-flow graph of a resolved syntax tree.
use vstd::prelude::*;

use crate::ast_resolved::nodes::{
    BinaryExpr, BlockExpr, CallExpr, Expr, IfExpr, Item, ResolvedAST, ReturnExpr, Stmt, UnaryExpr,
    expr_type,
};
use crate::cfg::basic_block::BasicBlock;
use crate::cfg::builder::{
    Builder, branches_valid, grows, lemma_grows_refl, lemma_grows_trans, lemma_grows_valid,
};
use crate::cfg::function::Function;
use crate::cfg::inst::{
    AddInst, AndInst, BranchCondInst, BranchInst, CallInst, CompareCond, CompareInst, Inst,
    InstKind, NegateInst, NotInst, OrInst, ReturnInst, StoreInst, SubInst,
};
use crate::cfg::value::{BasicBlockID, ConstantValue, InstValue, Value, ValueKind};
use crate::ids::{NIL_ID, SymbolID};
use crate::symbol_table::{Symbol, SymbolTable, visible_symbol};
use crate::token::Operator;
use crate::ty::{FuncType, PrimType, Type};

verus! {

/// The graph of a program: one function per item.
#[derive(Debug)]
pub struct CFG {
    funcs: Vec<Function>,
}

/// The graph of an item: a function is built from its body, starting in an entry block;
/// an extern function has no blocks and no table. Every branch goes to a block of the
/// same function.
pub open spec fn item_graph(item: Item, f: Function) -> bool {
    &&& f.wf()
    &&& branches_valid(f)
    &&& match item {
        Item::Function(func) => {
            &&& f.spec_symbol_id() == func.sig.sym_id
            &&& f.spec_table_id() == func.table_id
            &&& f.spec_entry() is Some
        },
        Item::ExternFunction(ext) => {
            &&& f.spec_symbol_id() == ext.0.sym_id
            &&& f.spec_table_id() == NIL_ID
            &&& f.spec_entry() is None
            &&& f.blocks().len() == 0
        },
    }
}

impl CFG {
    pub closed spec fn functions(&self) -> Seq<Function> {
        self.funcs@
    }

    /// Every function of the graph is well formed.
    pub open spec fn wf(&self) -> bool {
        forall|i: int| 0 <= i < self.functions().len() ==> #[trigger] self.functions()[i].wf()
    }

    /// Builds one function per item, in the order of the items. The values of the
    /// parameters and of the `let` variables are recorded in the symbol table.
    pub fn new(ast: &ResolvedAST, table: &mut SymbolTable) -> (r: CFG)
        requires
            old(table).wf(),
        ensures
            final(table).wf(),
            final(table).ids() == old(table).ids(),
            final(table).names() == old(table).names(),
            r.wf(),
            r.functions().len() == ast.items@.len(),
            forall|i: int|
                0 <= i < ast.items@.len() ==> item_graph(ast.items@[i], #[trigger] r.functions()[i]),
            forall|i: int|
                0 <= i < ast.items@.len() ==> (ast.items@[i] matches Item::Function(func)
                    ==> function_lowered(func, #[trigger] r.functions()[i])),
    {
        let mut funcs: Vec<Function> = Vec::new();
        let mut ctx = BuildContext::new();
        let mut i: usize = 0;
        while i < ast.items.len()
            invariant
                i <= ast.items@.len(),
                funcs@.len() == i,
                forall|j: int| 0 <= j < i ==> item_graph(ast.items@[j], #[trigger] funcs@[j]),
                forall|j: int|
                    0 <= j < i ==> (ast.items@[j] matches Item::Function(func) ==> function_lowered(
                        func,
                        #[trigger] funcs@[j],
                    )),
                table.wf(),
                table.ids() == old(table).ids(),
                table.names() == old(table).names(),
                ctx.locals().len() == 0,
                ctx.func_id() == NIL_ID,
            decreases ast.items.len() - i,
        {
            match &ast.items[i] {
                Item::Function(func) => {
                    let f = build_function(func, &mut ctx, table);
                    funcs.push(f);
                },
                Item::ExternFunction(ext) => {
                    funcs.push(Function::new(ext.0.sym_id, NIL_ID));
                },
            }
            i = i + 1;
        }
        CFG { funcs }
    }

    pub fn get_functions(&self) -> (r: &Vec<Function>)
        ensures
            r@ == self.functions(),
    {
        &self.funcs
    }
}

/// The value that a symbol stands for: a variable's current value, or the function
/// itself.
pub open spec fn symbol_value(s: Option<Symbol>) -> Option<Value> {
    match s {
        Some(Symbol::Variable(v)) => v.spec_value(),
        Some(Symbol::Function(f)) => Some(
            Value { kind: ValueKind::Function(f.spec_id()), ty: Type::Function(FuncType(f.spec_id())) },
        ),
        None => None,
    }
}

/// What an operand stands for without emitting anything: a literal gives its constant,
/// a name the value of the symbol it names (`None` when the expression is neither).
pub open spec fn operand_value(e: Expr, locals: Seq<SymbolID>, table: SymbolTable) -> Option<
    Option<Value>,
> {
    match e {
        Expr::Identifier(x) => Some(symbol_value(visible_symbol(locals, table, x.sym_id))),
        _ => match literal_value(e) {
            Some(v) => Some(Some(v)),
            None => None,
        },
    }
}

/// The scopes and the function that building is in.
pub struct BuildContext {
    local_tables: Vec<SymbolID>,
    func_sym_id: SymbolID,
}

impl BuildContext {
    pub closed spec fn locals(&self) -> Seq<SymbolID> {
        self.local_tables@
    }

    pub closed spec fn func_id(&self) -> SymbolID {
        self.func_sym_id
    }

    pub fn new() -> (r: BuildContext)
        ensures
            r.locals().len() == 0,
            r.func_id() == NIL_ID,
    {
        BuildContext { local_tables: Vec::new(), func_sym_id: NIL_ID }
    }

    pub fn set_func_symbol_id(&mut self, id: SymbolID)
        requires
            old(self).func_id() == NIL_ID,
        ensures
            final(self).func_id() == id,
            final(self).locals() == old(self).locals(),
    {
        self.func_sym_id = id;
    }

    pub fn unset_func_symbol_id(&mut self)
        requires
            old(self).locals().len() == 0,
        ensures
            final(self).func_id() == NIL_ID,
            final(self).locals() == old(self).locals(),
    {
        self.func_sym_id = NIL_ID;
    }

    pub fn push_local(&mut self, table_id: SymbolID)
        ensures
            final(self).locals() == old(self).locals().push(table_id),
            final(self).func_id() == old(self).func_id(),
    {
        self.local_tables.push(table_id);
    }

    pub fn pop_local(&mut self)
        requires
            old(self).locals().len() > 0,
        ensures
            final(self).locals() == old(self).locals().drop_last(),
            final(self).func_id() == old(self).func_id(),
    {
        self.local_tables.pop();
    }

    /// The innermost local table (`NIL_ID` when there is none).
    pub fn current_table(&self) -> (r: SymbolID)
        ensures
            self.locals().len() == 0 ==> r == NIL_ID,
            self.locals().len() > 0 ==> r == self.locals().last(),
    {
        if self.local_tables.len() == 0 {
            NIL_ID
        } else {
            self.local_tables[self.local_tables.len() - 1]
        }
    }

    /// The symbol under `id`: in the local tables from the innermost, then in the global
    /// table.
    pub fn get_symbol<'a>(&self, table: &'a SymbolTable, id: SymbolID) -> (r: Option<&'a Symbol>)
        requires
            table.wf(),
        ensures
            r is Some <==> visible_symbol(self.locals(), *table, id) is Some,
            r matches Some(s) ==> visible_symbol(self.locals(), *table, id) == Some(*s),
            self.locals().len() == 0 ==> (r is Some <==> table.ids().contains(id) && table.entry(
                id,
            ) is Symbol),
    {
        let mut i = self.local_tables.len();
        proof {
            assert(self.locals().take(i as int) =~= self.locals());
        }
        while i > 0
            invariant
                i <= self.locals().len(),
                visible_symbol(self.locals(), *table, id) == visible_symbol(
                    self.locals().take(i as int),
                    *table,
                    id,
                ),
            decreases i,
        {
            proof {
                let cur = self.locals().take(i as int);
                assert(cur.last() == self.locals()[i - 1]);
                assert(cur.drop_last() =~= self.locals().take(i - 1));
            }
            match table.get_table(self.local_tables[i - 1]) {
                Some(t) => match t.get_symbol(id) {
                    Some(s) => {
                        return Some(s);
                    },
                    None => {},
                },
                None => {},
            }
            i = i - 1;
        }
        table.get_symbol(id)
    }
}

/// What building keeps: the builder and the table stay well formed, blocks are only
/// added, and the table keeps its entries and names.
pub open spec fn build_step(
    b0: Builder,
    b1: Builder,
    t0: SymbolTable,
    t1: SymbolTable,
    c0: BuildContext,
    c1: BuildContext,
) -> bool {
    &&& b1.wf()
    &&& grows(b0.function(), b1.function())
    &&& t1.wf()
    &&& t1.ids() == t0.ids()
    &&& t1.names() == t0.names()
    &&& c1.locals() == c0.locals()
    &&& c1.func_id() == c0.func_id()
}

proof fn lemma_build_step_trans(
    b0: Builder,
    b1: Builder,
    b2: Builder,
    t0: SymbolTable,
    t1: SymbolTable,
    t2: SymbolTable,
    c0: BuildContext,
    c1: BuildContext,
    c2: BuildContext,
)
    requires
        build_step(b0, b1, t0, t1, c0, c1),
        build_step(b1, b2, t1, t2, c1, c2),
    ensures
        build_step(b0, b2, t0, t2, c0, c2),
{
    lemma_grows_trans(b0.function(), b1.function(), b2.function());
}

proof fn lemma_build_step_refl(b0: Builder, t0: SymbolTable, c0: BuildContext)
    requires
        b0.wf(),
        t0.wf(),
    ensures
        build_step(b0, b0, t0, t0, c0, c0),
{
    lemma_grows_refl(b0.function());
}

/// The instruction a binary operator becomes: `add`, `sub`, `and`, `or`, or `cmp` with
/// the comparison's condition.
pub open spec fn binary_inst_kind(op: Operator, lhs: Value, rhs: Value) -> Option<InstKind> {
    match op {
        Operator::Add => Some(InstKind::Add(AddInst { lhs, rhs })),
        Operator::Sub => Some(InstKind::Sub(SubInst { lhs, rhs })),
        Operator::And => Some(InstKind::And(AndInst { lhs, rhs })),
        Operator::Or => Some(InstKind::Or(OrInst { lhs, rhs })),
        Operator::Equal => Some(InstKind::Compare(CompareInst { cond: CompareCond::Equal, lhs, rhs })),
        Operator::NotEqual => Some(
            InstKind::Compare(CompareInst { cond: CompareCond::NotEqual, lhs, rhs }),
        ),
        Operator::Less => Some(InstKind::Compare(CompareInst { cond: CompareCond::Less, lhs, rhs })),
        Operator::LessEqual => Some(
            InstKind::Compare(CompareInst { cond: CompareCond::LessEqual, lhs, rhs }),
        ),
        Operator::Greater => Some(
            InstKind::Compare(CompareInst { cond: CompareCond::Greater, lhs, rhs }),
        ),
        Operator::GreaterEqual => Some(
            InstKind::Compare(CompareInst { cond: CompareCond::GreaterEqual, lhs, rhs }),
        ),
        _ => None,
    }
}

/// Whether a comparison operator holds between two integers.
pub open spec fn operator_holds(op: Operator, a: int, b: int) -> bool {
    match op {
        Operator::Equal => a == b,
        Operator::NotEqual => a != b,
        Operator::Less => a < b,
        Operator::LessEqual => a <= b,
        Operator::Greater => a > b,
        Operator::GreaterEqual => a >= b,
        _ => false,
    }
}

/// Whether the condition of a `cmp` holds between two integers.
pub open spec fn cond_holds(c: CompareCond, a: int, b: int) -> bool {
    match c {
        CompareCond::Equal => a == b,
        CompareCond::NotEqual => a != b,
        CompareCond::Less => a < b,
        CompareCond::LessEqual => a <= b,
        CompareCond::Greater => a > b,
        CompareCond::GreaterEqual => a >= b,
    }
}

/// A comparison operator.
pub open spec fn is_comparison(op: Operator) -> bool {
    op == Operator::Equal || op == Operator::NotEqual || op == Operator::Less || op
        == Operator::LessEqual || op == Operator::Greater || op == Operator::GreaterEqual
}

/// A comparison is built as a `cmp` of its operands, in order, whose condition is the
/// same relation as the operator: for all integers, the condition holds exactly when the
/// operator does.
pub proof fn lemma_comparison_lowering_keeps_relation(op: Operator, lhs: Value, rhs: Value)
    requires
        is_comparison(op),
    ensures
        binary_inst_kind(op, lhs, rhs) matches Some(InstKind::Compare(ci)) && ci.lhs == lhs && ci.rhs
            == rhs && forall|a: int, b: int| cond_holds(ci.cond, a, b) == operator_holds(op, a, b),
{
}

/// `+`, `-`, `&&` and `||` are built as `add`, `sub`, `and` and `or` of their operands,
/// in order.
pub proof fn lemma_arithmetic_lowering(op: Operator, lhs: Value, rhs: Value)
    ensures
        op == Operator::Add ==> binary_inst_kind(op, lhs, rhs) == Some(InstKind::Add(AddInst { lhs, rhs })),
        op == Operator::Sub ==> binary_inst_kind(op, lhs, rhs) == Some(InstKind::Sub(SubInst { lhs, rhs })),
        op == Operator::And ==> binary_inst_kind(op, lhs, rhs) == Some(InstKind::And(AndInst { lhs, rhs })),
        op == Operator::Or ==> binary_inst_kind(op, lhs, rhs) == Some(InstKind::Or(OrInst { lhs, rhs })),
{
}

/// `v` is the result of the last instruction of the current block of `b`, and that
/// instruction has type `ty`.
pub open spec fn last_result(b: Builder, v: Value, ty: Type) -> bool {
    let insts = b.function().block(b.current()).insts@;
    &&& insts.len() > 0
    &&& v == (Value { kind: ValueKind::Inst(InstValue { bb: b.current(), inst: insts.last().id }), ty })
    &&& insts.last().inst.ty == ty
}

/// The value of the result of an instruction of the current block.
fn inst_value(b: &Builder, inst: crate::cfg::value::InstID, ty: Type) -> (r: Value)
    ensures
        r == (Value { kind: ValueKind::Inst(InstValue { bb: b.current(), inst }), ty }),
{
    Value { kind: ValueKind::Inst(InstValue { bb: b.get_current_block_id(), inst }), ty }
}

fn unit_inst(kind: InstKind) -> (r: Inst)
    ensures
        r.kind == kind,
        r.ty == Type::Primitive(PrimType::Unit),
{
    Inst { kind, ty: Type::unit() }
}

/// A constant, standing for any value where only an operator matters.
pub open spec fn int_zero() -> Value {
    Value { kind: ValueKind::Constant(ConstantValue::Integer(0)), ty: Type::Primitive(PrimType::Int) }
}

/// The value a literal stands for: a constant of its type.
pub open spec fn literal_value(e: Expr) -> Option<Value> {
    match e {
        Expr::Integer(v) => Some(
            Value { kind: ValueKind::Constant(ConstantValue::Integer(v)), ty: Type::Primitive(PrimType::Int) },
        ),
        Expr::Bool(v) => Some(
            Value { kind: ValueKind::Constant(ConstantValue::Bool(v)), ty: Type::Primitive(PrimType::Bool) },
        ),
        _ => None,
    }
}

/// `b1` is `b0` with `inst` appended to its current block, which stays current; no other
/// block changes.
pub open spec fn appended(b0: Builder, b1: Builder, inst: Inst) -> bool {
    let bb = b0.current();
    let s0 = b0.function().block(bb).insts@;
    let s1 = b1.function().block(bb).insts@;
    &&& b1.wf()
    &&& b1.current() == bb
    &&& b1.function().ids() == b0.function().ids()
    &&& s1.len() == s0.len() + 1
    &&& s1.drop_last() == s0
    &&& s1.last().inst == inst
    &&& forall|k: BasicBlockID| #[trigger]
        b0.function().valid(k) && k != bb ==> b1.function().block(k) == b0.function().block(k)
}

/// Building `e` takes the builder from `b0` to `b1` (the symbol table from `t0` to `t1`,
/// the scopes from `c0` to `c1`) and gives the value `r`: a literal or a name emits
/// nothing and gives its value; the value of an operation is the result of the last
/// instruction emitted.
pub open spec fn expr_lowering(
    e: Expr,
    b0: Builder,
    b1: Builder,
    t0: SymbolTable,
    t1: SymbolTable,
    c0: BuildContext,
    c1: BuildContext,
    r: Option<Value>,
) -> bool {
    &&& build_step(b0, b1, t0, t1, c0, c1)
    &&& (operand_value(e, c0.locals(), t0) matches Some(v) ==> r == v && b1 == b0 && t1 == t0)
    &&& (e is Binary || e is Unary ==> (r matches Some(v) ==> last_result(b1, v, expr_type(e))))
}

/// A binary operation emits its operands left to right, then its instruction on their
/// values (nothing more when an operand has no value or the operator has no
/// instruction).
pub open spec fn binary_lowering(
    x: BinaryExpr,
    b0: Builder,
    b1: Builder,
    t0: SymbolTable,
    t1: SymbolTable,
    c0: BuildContext,
    c1: BuildContext,
    r: Option<Value>,
) -> bool {
    exists|bm: Builder, tm: SymbolTable, cm: BuildContext, l: Option<Value>|
        #[trigger] expr_lowering(*x.left, b0, bm, t0, tm, c0, cm, l) && exists|
            bn: Builder,
            tn: SymbolTable,
            cn: BuildContext,
            v: Option<Value>,
        |
            #[trigger] expr_lowering(*x.right, bm, bn, tm, tn, cm, cn, v) && t1 == tn && c1 == cn
                && if l is Some && v is Some && binary_inst_kind(x.op, l->Some_0, v->Some_0) is Some {
                appended(
                    bn,
                    b1,
                    Inst { kind: binary_inst_kind(x.op, l->Some_0, v->Some_0)->Some_0, ty: x.ty },
                ) && r is Some && last_result(b1, r->Some_0, x.ty)
            } else {
                r is None && b1 == bn
            }
}

/// A unary operation emits its operand, then `neg` or `not` of its value.
pub open spec fn unary_lowering(
    u: UnaryExpr,
    b0: Builder,
    b1: Builder,
    t0: SymbolTable,
    t1: SymbolTable,
    c0: BuildContext,
    c1: BuildContext,
    r: Option<Value>,
) -> bool {
    exists|bm: Builder, tm: SymbolTable, cm: BuildContext, v: Option<Value>|
        #[trigger] expr_lowering(*u.expr, b0, bm, t0, tm, c0, cm, v) && t1 == tm && c1 == cm && if v is Some
            && (u.op == Operator::Sub || u.op == Operator::Not) {
            appended(
                bm,
                b1,
                Inst {
                    kind: if u.op == Operator::Sub {
                        InstKind::Negate(NegateInst { value: v->Some_0 })
                    } else {
                        InstKind::Not(NotInst { value: v->Some_0 })
                    },
                    ty: u.ty,
                },
            ) && r is Some && last_result(b1, r->Some_0, u.ty)
        } else {
            r is None && b1 == bm
        }
}

/// A `return` emits its value, then `ret` of it.
pub open spec fn return_lowering(
    rt: ReturnExpr,
    b0: Builder,
    b1: Builder,
    t0: SymbolTable,
    t1: SymbolTable,
    c0: BuildContext,
    c1: BuildContext,
) -> bool {
    match rt.expr {
        Some(x) => exists|bm: Builder, tm: SymbolTable, cm: BuildContext, v: Option<Value>|
            #[trigger] expr_lowering(*x, b0, bm, t0, tm, c0, cm, v) && t1 == tm && c1 == cm
                && appended(
                bm,
                b1,
                Inst {
                    kind: InstKind::Return(ReturnInst { value: v }),
                    ty: match v {
                        Some(w) => w.ty,
                        None => Type::Primitive(PrimType::Unit),
                    },
                },
            ),
        None => t1 == t0 && c1 == c0 && appended(
            b0,
            b1,
            Inst { kind: InstKind::Return(ReturnInst { value: None }), ty: Type::Primitive(PrimType::Unit) },
        ),
    }
}

/// `b1` is `b0` with one more instruction at the end of its current block, which stays
/// current; no other block changes.
pub open spec fn appended_one(b0: Builder, b1: Builder) -> bool {
    let bb = b0.current();
    let s0 = b0.function().block(bb).insts@;
    let s1 = b1.function().block(bb).insts@;
    &&& b1.wf()
    &&& b1.current() == bb
    &&& b1.function().ids() == b0.function().ids()
    &&& s1.len() == s0.len() + 1
    &&& s1.drop_last() == s0
    &&& forall|k: BasicBlockID| #[trigger]
        b0.function().valid(k) && k != bb ==> b1.function().block(k) == b0.function().block(k)
}

/// The values among the results `rs` that are there, in order.
pub open spec fn kept_values(rs: Seq<Option<Value>>) -> Seq<Value>
    decreases rs.len(),
{
    if rs.len() == 0 {
        Seq::empty()
    } else {
        match rs.last() {
            Some(v) => kept_values(rs.drop_last()).push(v),
            None => kept_values(rs.drop_last()),
        }
    }
}

/// Expressions built one after the other, through the builders `bs`, tables `ts` and
/// scopes `cs`, with values `rs`.
pub open spec fn exprs_lowering(
    es: Seq<Expr>,
    bs: Seq<Builder>,
    ts: Seq<SymbolTable>,
    cs: Seq<BuildContext>,
    rs: Seq<Option<Value>>,
) -> bool {
    &&& bs.len() == es.len() + 1
    &&& ts.len() == es.len() + 1
    &&& cs.len() == es.len() + 1
    &&& rs.len() == es.len()
    &&& forall|j: int|
        0 <= j < es.len() ==> #[trigger] expr_lowering(
            es[j],
            bs[j],
            bs[j + 1],
            ts[j],
            ts[j + 1],
            cs[j],
            cs[j + 1],
            rs[j],
        )
}

/// A call emits its callee, then its arguments left to right, then (when the callee has
/// a value) `call` of the callee's value with the arguments' values.
pub open spec fn call_lowering(
    c: CallExpr,
    b0: Builder,
    b1: Builder,
    t0: SymbolTable,
    t1: SymbolTable,
    c0: BuildContext,
    c1: BuildContext,
    r: Option<Value>,
) -> bool {
    exists|bm: Builder, tm: SymbolTable, cm: BuildContext, cv: Option<Value>|
        #[trigger] expr_lowering(*c.callee, b0, bm, t0, tm, c0, cm, cv) && exists|
            bs: Seq<Builder>,
            ts: Seq<SymbolTable>,
            cs: Seq<BuildContext>,
            rs: Seq<Option<Value>>,
        |
            #[trigger] exprs_lowering(c.args@, bs, ts, cs, rs) && bs[0] == bm && ts[0] == tm && cs[0]
                == cm && t1 == ts.last() && c1 == cs.last() && if cv is Some {
                &&& appended_one(bs.last(), b1)
                &&& b1.function().block(b1.current()).insts@.last().inst.ty == c.ty
                &&& b1.function().block(b1.current()).insts@.last().inst.kind matches InstKind::Call(ci)
                &&& ci.callee == cv->Some_0
                &&& ci.args@ == kept_values(rs)
                &&& r is Some
                &&& last_result(b1, r->Some_0, c.ty)
            } else {
                r is None && b1 == bs.last()
            }
}

/// Building `e` as `expr_lowering` says, and, for an operation or a `return`, as its own
/// lowering says.
pub open spec fn full_lowering(
    e: Expr,
    b0: Builder,
    b1: Builder,
    t0: SymbolTable,
    t1: SymbolTable,
    c0: BuildContext,
    c1: BuildContext,
    r: Option<Value>,
) -> bool {
    &&& expr_lowering(e, b0, b1, t0, t1, c0, c1, r)
    &&& match e {
        Expr::Binary(x) => binary_lowering(x, b0, b1, t0, t1, c0, c1, r),
        Expr::Unary(u) => unary_lowering(u, b0, b1, t0, t1, c0, c1, r),
        Expr::Return(rt) => return_lowering(rt, b0, b1, t0, t1, c0, c1),
        Expr::Call(ce) => call_lowering(ce, b0, b1, t0, t1, c0, c1, r),
        _ => true,
    }
}

/// The result of the last instruction of the current block of `b`, as a value of type
/// `ty`.
pub open spec fn last_value(b: Builder, ty: Type) -> Value {
    Value {
        kind: ValueKind::Inst(
            InstValue { bb: b.current(), inst: b.function().block(b.current()).insts@.last().id },
        ),
        ty,
    }
}

/// A statement: an expression statement emits its expression; a let statement emits its
/// value, then an `alloca` of the variable's type, then (when the value has one) a
/// `store` of the value into what the `alloca` gave.
pub open spec fn stmt_lowering(
    s: Stmt,
    b0: Builder,
    b1: Builder,
    t0: SymbolTable,
    t1: SymbolTable,
    c0: BuildContext,
    c1: BuildContext,
) -> bool {
    &&& build_step(b0, b1, t0, t1, c0, c1)
    &&& match s {
        Stmt::Expr(es) => exists|r: Option<Value>| #[trigger] full_lowering(es.expr, b0, b1, t0, t1, c0, c1, r),
        Stmt::Let(l) => exists|bm: Builder, tm: SymbolTable, cm: BuildContext, v: Option<Value>|
            #[trigger] full_lowering(l.value, b0, bm, t0, tm, c0, cm, v) && c1 == cm && exists|
                b2: Builder,
            |
                #[trigger] appended(bm, b2, Inst { kind: InstKind::Alloca, ty: l.ty }) && match v {
                    Some(val) => appended(
                        b2,
                        b1,
                        Inst {
                            kind: InstKind::Store(StoreInst { target: last_value(b2, l.ty), value: val }),
                            ty: l.ty,
                        },
                    ),
                    None => b1 == b2,
                },
    }
}

/// Statements one after the other, through the builders `bs`, tables `ts` and scopes
/// `cs`.
pub open spec fn stmts_lowering(
    stmts: Seq<Stmt>,
    bs: Seq<Builder>,
    ts: Seq<SymbolTable>,
    cs: Seq<BuildContext>,
) -> bool {
    &&& bs.len() == stmts.len() + 1
    &&& ts.len() == stmts.len() + 1
    &&& cs.len() == stmts.len() + 1
    &&& forall|j: int|
        0 <= j < stmts.len() ==> #[trigger] stmt_lowering(
            stmts[j],
            bs[j],
            bs[j + 1],
            ts[j],
            ts[j + 1],
            cs[j],
            cs[j + 1],
        )
}

/// A block, in the scope of its table: its statements, then its final expression, whose
/// value is the block's.
pub open spec fn block_lowering(
    blk: BlockExpr,
    b0: Builder,
    b1: Builder,
    t0: SymbolTable,
    t1: SymbolTable,
    c0: BuildContext,
    r: Option<Value>,
) -> bool {
    exists|bs: Seq<Builder>, ts: Seq<SymbolTable>, cs: Seq<BuildContext>|
        #[trigger] stmts_lowering(blk.stmts@, bs, ts, cs) && bs[0] == b0 && ts[0] == t0
            && cs[0].locals() == c0.locals().push(blk.table_id) && match blk.eval_expr {
            None => r is None && b1 == bs.last() && t1 == ts.last(),
            Some(e) => exists|c: BuildContext|
                #[trigger] full_lowering(*e, bs.last(), b1, ts.last(), t1, cs.last(), c, r),
        }
}

/// `b` builds into a function whose only block, the current one, is empty.
pub open spec fn fresh_builder(b: Builder) -> bool {
    &&& b.function().ids().len() == 1
    &&& b.current() == b.function().ids()[0]
    &&& b.function().block(b.current()).insts@.len() == 0
}

/// The graph `f` of the function `func` is what building its body gives, starting from a
/// function with one empty block.
pub open spec fn function_lowered(func: crate::ast_resolved::nodes::Function, f: Function) -> bool {
    exists|b0: Builder, b1: Builder, t0: SymbolTable, t1: SymbolTable, c0: BuildContext, v: Option<Value>|
        #[trigger] block_lowering(func.body, b0, b1, t0, t1, c0, v) && fresh_builder(b0) && f
            == b1.function()
}

/// Emits the instructions that compute `e` into the current block (and new blocks, for
/// `if`); gives the value of `e`, if it has one (a unit expression, an `if` and a
/// `return` have none).
pub fn cvt_expr(e: &Expr, ctx: &mut BuildContext, table: &mut SymbolTable, b: &mut Builder) -> (r:
    Option<Value>)
    requires
        old(b).wf(),
        old(table).wf(),
    ensures
        build_step(*old(b), *final(b), *old(table), *final(table), *old(ctx), *final(ctx)),
        *e matches Expr::Integer(v) ==> r == Some(
            Value { kind: ValueKind::Constant(ConstantValue::Integer(v)), ty: Type::Primitive(PrimType::Int) },
        ),
        *e matches Expr::Bool(v) ==> r == Some(
            Value { kind: ValueKind::Constant(ConstantValue::Bool(v)), ty: Type::Primitive(PrimType::Bool) },
        ),
        *e is Unit ==> r is None,
        literal_value(*e) matches Some(v) ==> r == Some(v) && *final(b) == *old(b),
        operand_value(*e, old(ctx).locals(), *old(table)) matches Some(v) ==> r == v && *final(b)
            == *old(b) && *final(table) == *old(table),
        expr_lowering(*e, *old(b), *final(b), *old(table), *final(table), *old(ctx), *final(ctx), r),
        full_lowering(*e, *old(b), *final(b), *old(table), *final(table), *old(ctx), *final(ctx), r),
    decreases e,
{
    match e {
        Expr::Unit => {
            proof {
                lemma_build_step_refl(*b, *table, *ctx);
            }
            None
        },
        Expr::Integer(v) => {
            proof {
                lemma_build_step_refl(*b, *table, *ctx);
            }
            Some(Value { kind: ValueKind::Constant(ConstantValue::Integer(*v)), ty: Type::int_ty() })
        },
        Expr::Bool(v) => {
            proof {
                lemma_build_step_refl(*b, *table, *ctx);
            }
            Some(Value { kind: ValueKind::Constant(ConstantValue::Bool(*v)), ty: Type::bool_ty() })
        },
        Expr::Identifier(x) => {
            proof {
                lemma_build_step_refl(*b, *table, *ctx);
            }
            match ctx.get_symbol(table, x.sym_id) {
                Some(Symbol::Variable(v)) => v.get_value(),
                Some(Symbol::Function(f)) => Some(
                    Value { kind: ValueKind::Function(f.get_id()), ty: f.get_type() },
                ),
                None => None,
            }
        },
        Expr::Unary(u) => cvt_unary(u, ctx, table, b),
        Expr::Binary(x) => cvt_binary(x, ctx, table, b),
        Expr::Call(c) => cvt_call(c, ctx, table, b),
        Expr::Block(blk) => cvt_block(blk, ctx, table, b),
        Expr::Return(r) => cvt_return(r, ctx, table, b),
        Expr::If(i) => {
            cvt_if(i, ctx, table, b);
            None
        },
    }
}

/// `-` becomes `neg`, `!` becomes `not`.
fn cvt_unary(u: &UnaryExpr, ctx: &mut BuildContext, table: &mut SymbolTable, b: &mut Builder) -> (r:
    Option<Value>)
    requires
        old(b).wf(),
        old(table).wf(),
    ensures
        build_step(*old(b), *final(b), *old(table), *final(table), *old(ctx), *final(ctx)),
        r matches Some(v) ==> last_result(*final(b), v, u.ty) && (final(b).function().block(
            final(b).current(),
        ).insts@.last().inst.kind matches InstKind::Negate(_) ==> u.op == Operator::Sub) && (
        final(b).function().block(final(b).current()).insts@.last().inst.kind matches InstKind::Not(
            _,
        ) ==> u.op == Operator::Not) && (u.op == Operator::Sub ==> final(b).function().block(
            final(b).current(),
        ).insts@.last().inst.kind is Negate) && (u.op == Operator::Not ==> final(b).function().block(
            final(b).current(),
        ).insts@.last().inst.kind is Not),
        u.op != Operator::Sub && u.op != Operator::Not ==> r is None,
        unary_lowering(*u, *old(b), *final(b), *old(table), *final(table), *old(ctx), *final(ctx), r),
    decreases u,
{
    let ov = cvt_expr(&u.expr, ctx, table, b);
    let ghost bm = *b;
    let ghost tm = *table;
    let ghost cm = *ctx;
    proof {
        assert(expr_lowering(*u.expr, *old(b), bm, *old(table), tm, *old(ctx), cm, ov));
    }
    let value = match ov {
        Some(v) => v,
        None => {
            return None;
        },
    };
    let kind = match u.op {
        Operator::Sub => InstKind::Negate(NegateInst { value }),
        Operator::Not => InstKind::Not(NotInst { value }),
        _ => {
            return None;
        },
    };
    let ghost b1 = *b;
    let ghost gk = kind;
    let id = b.push_inst(Inst { kind, ty: u.ty });
    proof {
        lemma_grows_trans(old(b).function(), b1.function(), b.function());
        assert(appended(bm, *b, Inst { kind: gk, ty: u.ty })) by {
            assert(b.function().block(bm.current()).insts@.drop_last() =~= bm.function().block(bm.current()).insts@);
        }
    }
    Some(inst_value(b, id, u.ty))
}

/// Arithmetic and logic become `add`, `sub`, `and`, `or`; comparisons become `cmp` with
/// their condition.
fn cvt_binary(x: &BinaryExpr, ctx: &mut BuildContext, table: &mut SymbolTable, b: &mut Builder) -> (r:
    Option<Value>)
    requires
        old(b).wf(),
        old(table).wf(),
    ensures
        build_step(*old(b), *final(b), *old(table), *final(table), *old(ctx), *final(ctx)),
        r matches Some(v) ==> last_result(*final(b), v, x.ty) && exists|lhs: Value, rhs: Value|
            binary_inst_kind(x.op, lhs, rhs) == Some(
                final(b).function().block(final(b).current()).insts@.last().inst.kind,
            ) && (literal_value(*x.left) is Some ==> lhs == literal_value(*x.left)->Some_0) && (
            literal_value(*x.right) is Some ==> rhs == literal_value(*x.right)->Some_0) && (
            operand_value(*x.left, old(ctx).locals(), *old(table)) is Some ==> Some(lhs)
                == operand_value(*x.left, old(ctx).locals(), *old(table))->Some_0) && (
            operand_value(*x.left, old(ctx).locals(), *old(table)) is Some && operand_value(
                *x.right,
                old(ctx).locals(),
                *old(table),
            ) is Some ==> Some(rhs) == operand_value(*x.right, old(ctx).locals(), *old(table))->Some_0),
        binary_lowering(*x, *old(b), *final(b), *old(table), *final(table), *old(ctx), *final(ctx), r),
        binary_inst_kind(x.op, int_zero(), int_zero()) is None ==> r is None,
        literal_value(*x.left) is Some && literal_value(*x.right) is Some ==> (binary_inst_kind(
            x.op,
            literal_value(*x.left)->Some_0,
            literal_value(*x.right)->Some_0,
        ) matches Some(k) ==> (r is Some && final(b).current()
            == old(b).current() && final(b).function().block(old(b).current()).insts@.len()
            == old(b).function().block(old(b).current()).insts@.len() + 1 && final(b).function().block(
            old(b).current(),
        ).insts@.last().inst == Inst { kind: k, ty: x.ty })),
    decreases x,
{
    let ghost b0 = *b;
    let ghost t0 = *table;
    let ghost c0 = *ctx;
    let lhs = cvt_expr(&x.left, ctx, table, b);
    let ghost b1 = *b;
    let ghost t1 = *table;
    let ghost c1 = *ctx;
    let rhs = cvt_expr(&x.right, ctx, table, b);
    let ghost b2x = *b;
    proof {
        assert(expr_lowering(*x.left, b0, b1, t0, t1, c0, c1, lhs));
        assert(expr_lowering(*x.right, b1, b2x, t1, *table, c1, *ctx, rhs));
        lemma_build_step_trans(b0, b1, *b, t0, t1, *table, c0, c1, *ctx);
        if literal_value(*x.left) is Some {
            assert(lhs == literal_value(*x.left));
        }
        if operand_value(*x.left, c0.locals(), t0) is Some {
            assert(t1 == t0);
            assert(lhs == operand_value(*x.left, c0.locals(), t0)->Some_0);
            if operand_value(*x.right, c0.locals(), t0) is Some {
                assert(rhs == operand_value(*x.right, c0.locals(), t0)->Some_0);
            }
        }
        if literal_value(*x.right) is Some {
            assert(rhs == literal_value(*x.right));
        }
    }
    let (lhs, rhs) = match (lhs, rhs) {
        (Some(l), Some(r)) => (l, r),
        _ => {
            return None;
        },
    };
    let kind = match x.op {
        Operator::Add => InstKind::Add(AddInst { lhs, rhs }),
        Operator::Sub => InstKind::Sub(SubInst { lhs, rhs }),
        Operator::And => InstKind::And(AndInst { lhs, rhs }),
        Operator::Or => InstKind::Or(OrInst { lhs, rhs }),
        Operator::Equal => InstKind::Compare(CompareInst { cond: CompareCond::Equal, lhs, rhs }),
        Operator::NotEqual => InstKind::Compare(
            CompareInst { cond: CompareCond::NotEqual, lhs, rhs },
        ),
        Operator::Less => InstKind::Compare(CompareInst { cond: CompareCond::Less, lhs, rhs }),
        Operator::LessEqual => InstKind::Compare(
            CompareInst { cond: CompareCond::LessEqual, lhs, rhs },
        ),
        Operator::Greater => InstKind::Compare(
            CompareInst { cond: CompareCond::Greater, lhs, rhs },
        ),
        Operator::GreaterEqual => InstKind::Compare(
            CompareInst { cond: CompareCond::GreaterEqual, lhs, rhs },
        ),
        _ => {
            return None;
        },
    };
    let ghost b2 = *b;
    let ghost gk = kind;
    let id = b.push_inst(Inst { kind, ty: x.ty });
    proof {
        lemma_grows_trans(b0.function(), b2.function(), b.function());
        assert(binary_inst_kind(x.op, lhs, rhs) == Some(gk));
        assert(appended(b2, *b, Inst { kind: gk, ty: x.ty })) by {
            assert(b.function().block(b2.current()).insts@.drop_last() =~= b2.function().block(b2.current()).insts@);
        }
    }
    Some(inst_value(b, id, x.ty))
}

/// The values of expressions, in order (those that have one).
fn cvt_args(args: &Vec<Expr>, ctx: &mut BuildContext, table: &mut SymbolTable, b: &mut Builder) -> (r:
    Vec<Value>)
    requires
        old(b).wf(),
        old(table).wf(),
    ensures
        build_step(*old(b), *final(b), *old(table), *final(table), *old(ctx), *final(ctx)),
        exists|bs: Seq<Builder>, ts: Seq<SymbolTable>, cs: Seq<BuildContext>, rs: Seq<Option<Value>>|
            #[trigger] exprs_lowering(args@, bs, ts, cs, rs) && bs[0] == *old(b) && ts[0] == *old(table)
                && cs[0] == *old(ctx) && bs.last() == *final(b) && ts.last() == *final(table)
                && cs.last() == *final(ctx) && r@ == kept_values(rs),
    decreases args@,
{
    let mut out: Vec<Value> = Vec::new();
    let mut i: usize = 0;
    let ghost mut bs: Seq<Builder> = seq![*b];
    let ghost mut ts: Seq<SymbolTable> = seq![*table];
    let ghost mut cs: Seq<BuildContext> = seq![*ctx];
    let ghost mut rs: Seq<Option<Value>> = Seq::empty();
    proof {
        lemma_build_step_refl(*b, *table, *ctx);
    }
    while i < args.len()
        invariant
            i <= args@.len(),
            build_step(*old(b), *b, *old(table), *table, *old(ctx), *ctx),
            exprs_lowering(args@.subrange(0, i as int), bs, ts, cs, rs),
            bs[0] == *old(b),
            ts[0] == *old(table),
            cs[0] == *old(ctx),
            bs.last() == *b,
            ts.last() == *table,
            cs.last() == *ctx,
            out@ == kept_values(rs),
        decreases args.len() - i,
    {
        let ghost b1 = *b;
        let ghost t1 = *table;
        let ghost c1 = *ctx;
        proof {
            assert(decreases_to!(args@ => args@[i as int]));
        }
        let v = cvt_expr(&args[i], ctx, table, b);
        let ghost gv = v;
        match v {
            Some(v) => out.push(v),
            None => {},
        }
        proof {
            lemma_build_step_trans(*old(b), b1, *b, *old(table), t1, *table, *old(ctx), c1, *ctx);
            let bs2 = bs.push(*b);
            let ts2 = ts.push(*table);
            let cs2 = cs.push(*ctx);
            let rs2 = rs.push(gv);
            let sub = args@.subrange(0, i + 1);
            assert forall|j: int| 0 <= j < sub.len() implies #[trigger] expr_lowering(
                sub[j], bs2[j], bs2[j + 1], ts2[j], ts2[j + 1], cs2[j], cs2[j + 1], rs2[j]) by {
                if j < i {
                    assert(sub[j] == args@.subrange(0, i as int)[j]);
                } else {
                    assert(sub[j] == args@[i as int]);
                }
            }
            assert(rs2.drop_last() =~= rs);
            bs = bs2;
            ts = ts2;
            cs = cs2;
            rs = rs2;
        }
        i = i + 1;
    }
    proof {
        assert(args@.subrange(0, i as int) =~= args@);
    }
    out
}

/// A call becomes `call` of the callee's value with the arguments' values.
fn cvt_call(c: &CallExpr, ctx: &mut BuildContext, table: &mut SymbolTable, b: &mut Builder) -> (r:
    Option<Value>)
    requires
        old(b).wf(),
        old(table).wf(),
    ensures
        build_step(*old(b), *final(b), *old(table), *final(table), *old(ctx), *final(ctx)),
        r matches Some(v) ==> last_result(*final(b), v, c.ty) && final(b).function().block(
            final(b).current(),
        ).insts@.last().inst.kind is Call,
        call_lowering(*c, *old(b), *final(b), *old(table), *final(table), *old(ctx), *final(ctx), r),
    decreases c,
{
    let ghost b0 = *b;
    let ghost t0 = *table;
    let ghost c0 = *ctx;
    let callee = cvt_expr(&c.callee, ctx, table, b);
    let ghost b1 = *b;
    let ghost t1 = *table;
    let ghost c1 = *ctx;
    proof {
        assert(expr_lowering(*c.callee, b0, b1, t0, t1, c0, c1, callee));
    }
    let args = cvt_args(&c.args, ctx, table, b);
    let ghost (gbs, gts, gcs, grs) = choose|bs: Seq<Builder>, ts: Seq<SymbolTable>, cs: Seq<BuildContext>, rs: Seq<Option<Value>>|
        #[trigger] exprs_lowering(c.args@, bs, ts, cs, rs) && bs[0] == b1 && ts[0] == t1
            && cs[0] == c1 && bs.last() == *b && ts.last() == *table
            && cs.last() == *ctx && args@ == kept_values(rs);
    proof {
        lemma_build_step_trans(b0, b1, *b, t0, t1, *table, c0, c1, *ctx);
    }
    let callee = match callee {
        Some(v) => v,
        None => {
            return None;
        },
    };
    let ghost b2 = *b;
    let ghost gargs = args@;
    let id = b.push_inst(Inst { kind: InstKind::Call(CallInst { callee, args }), ty: c.ty });
    proof {
        lemma_grows_trans(b0.function(), b2.function(), b.function());
        assert(appended_one(b2, *b)) by {
            assert(b.function().block(b2.current()).insts@.drop_last() =~= b2.function().block(b2.current()).insts@);
        }
        assert(exprs_lowering(c.args@, gbs, gts, gcs, grs));
    }
    Some(inst_value(b, id, c.ty))
}

/// A block's statements in its own scope; its value is that of its final expression.
fn cvt_block(blk: &BlockExpr, ctx: &mut BuildContext, table: &mut SymbolTable, b: &mut Builder) -> (r:
    Option<Value>)
    requires
        old(b).wf(),
        old(table).wf(),
    ensures
        build_step(*old(b), *final(b), *old(table), *final(table), *old(ctx), *final(ctx)),
        block_lowering(*blk, *old(b), *final(b), *old(table), *final(table), *old(ctx), r),
    decreases blk,
{
    let ghost c0 = *ctx;
    ctx.push_local(blk.table_id);
    let ghost b1 = *b;
    let ghost t1 = *table;
    let ghost c1 = *ctx;
    cvt_stmts(&blk.stmts, ctx, table, b);
    let ghost b2 = *b;
    let ghost t2 = *table;
    let ghost c2 = *ctx;
    let ghost (gbs, gts, gcs) = choose|bs: Seq<Builder>, ts: Seq<SymbolTable>, cs: Seq<BuildContext>|
        #[trigger] stmts_lowering(blk.stmts@, bs, ts, cs) && bs[0] == b1 && ts[0] == t1 && cs[0] == c1
            && bs.last() == b2 && ts.last() == t2 && cs.last() == c2;
    let value = match &blk.eval_expr {
        Some(e) => cvt_expr(e, ctx, table, b),
        None => {
            proof {
                lemma_build_step_refl(*b, *table, *ctx);
            }
            None
        },
    };
    proof {
        assert(stmts_lowering(blk.stmts@, gbs, gts, gcs));
        if blk.eval_expr is Some {
            assert(full_lowering(*blk.eval_expr->Some_0, gbs.last(), *b, gts.last(), *table, gcs.last(), *ctx, value));
        }
    }
    proof {
        lemma_build_step_trans(b1, b2, *b, t1, t2, *table, c1, c2, *ctx);
    }
    ctx.pop_local();
    proof {
        assert(ctx.locals() =~= c0.locals());
    }
    value
}

fn cvt_stmts(stmts: &Vec<Stmt>, ctx: &mut BuildContext, table: &mut SymbolTable, b: &mut Builder)
    requires
        old(b).wf(),
        old(table).wf(),
    ensures
        build_step(*old(b), *final(b), *old(table), *final(table), *old(ctx), *final(ctx)),
        exists|bs: Seq<Builder>, ts: Seq<SymbolTable>, cs: Seq<BuildContext>|
            #[trigger] stmts_lowering(stmts@, bs, ts, cs) && bs[0] == *old(b) && ts[0] == *old(table)
                && cs[0] == *old(ctx) && bs.last() == *final(b) && ts.last() == *final(table) && cs.last()
                == *final(ctx),
    decreases stmts@,
{
    let mut i: usize = 0;
    let ghost mut bs: Seq<Builder> = seq![*b];
    let ghost mut ts: Seq<SymbolTable> = seq![*table];
    let ghost mut cs: Seq<BuildContext> = seq![*ctx];
    proof {
        lemma_build_step_refl(*b, *table, *ctx);
    }
    while i < stmts.len()
        invariant
            i <= stmts@.len(),
            build_step(*old(b), *b, *old(table), *table, *old(ctx), *ctx),
            stmts_lowering(stmts@.subrange(0, i as int), bs, ts, cs),
            bs[0] == *old(b),
            ts[0] == *old(table),
            cs[0] == *old(ctx),
            bs.last() == *b,
            ts.last() == *table,
            cs.last() == *ctx,
        decreases stmts.len() - i,
    {
        let ghost b1 = *b;
        let ghost t1 = *table;
        let ghost c1 = *ctx;
        proof {
            assert(decreases_to!(stmts@ => stmts@[i as int]));
        }
        cvt_stmt(&stmts[i], ctx, table, b);
        proof {
            lemma_build_step_trans(*old(b), b1, *b, *old(table), t1, *table, *old(ctx), c1, *ctx);
            let bs2 = bs.push(*b);
            let ts2 = ts.push(*table);
            let cs2 = cs.push(*ctx);
            let sub = stmts@.subrange(0, i + 1);
            assert forall|j: int| 0 <= j < sub.len() implies #[trigger] stmt_lowering(
                sub[j], bs2[j], bs2[j + 1], ts2[j], ts2[j + 1], cs2[j], cs2[j + 1]) by {
                if j < i {
                    assert(sub[j] == stmts@.subrange(0, i as int)[j]);
                } else {
                    assert(sub[j] == stmts@[i as int]);
                }
            }
            bs = bs2;
            ts = ts2;
            cs = cs2;
        }
        i = i + 1;
    }
    proof {
        assert(stmts@.subrange(0, i as int) =~= stmts@);
    }
}

/// An expression statement emits its expression. A let statement emits its value, an
/// `alloca` of the variable's type (which becomes the variable's value) and a `store` of
/// the value into it.
fn cvt_stmt(s: &Stmt, ctx: &mut BuildContext, table: &mut SymbolTable, b: &mut Builder)
    requires
        old(b).wf(),
        old(table).wf(),
    ensures
        build_step(*old(b), *final(b), *old(table), *final(table), *old(ctx), *final(ctx)),
        stmt_lowering(*s, *old(b), *final(b), *old(table), *final(table), *old(ctx), *final(ctx)),
    decreases s,
{
    match s {
        Stmt::Expr(es) => {
            let rv = cvt_expr(&es.expr, ctx, table, b);
            proof {
                assert(full_lowering(es.expr, *old(b), *b, *old(table), *table, *old(ctx), *ctx, rv));
            }
        },
        Stmt::Let(l) => {
            let ghost b0 = *b;
            let ghost t0 = *table;
            let ghost c0 = *ctx;
            let value = cvt_expr(&l.value, ctx, table, b);
            let ghost b1 = *b;
            let ghost tm = *table;
            let ghost cm = *ctx;
            proof {
                assert(full_lowering(l.value, b0, b1, t0, tm, c0, cm, value));
            }
            let alloca = b.push_inst(Inst { kind: InstKind::Alloca, ty: l.ty });
            let target = inst_value(b, alloca, l.ty);
            let current = ctx.current_table();
            table.set_var_value(current, l.sym_id, target);
            let ghost b2 = *b;
            proof {
                assert(appended(b1, b2, Inst { kind: InstKind::Alloca, ty: l.ty })) by {
                    assert(b2.function().block(b1.current()).insts@.drop_last() =~= b1.function().block(b1.current()).insts@);
                }
                assert(last_result(b2, target, l.ty));
                assert(target == last_value(b2, l.ty));
            }
            match value {
                Some(value) => {
                    b.push_inst(Inst { kind: InstKind::Store(StoreInst { target, value }), ty: l.ty });
                    proof {
                        assert(appended(b2, *b, Inst { kind: InstKind::Store(StoreInst { target, value }), ty: l.ty })) by {
                            assert(b.function().block(b2.current()).insts@.drop_last() =~= b2.function().block(b2.current()).insts@);
                        }
                    }
                },
                None => {},
            }
            proof {
                lemma_grows_trans(b0.function(), b1.function(), b2.function());
                lemma_grows_trans(b0.function(), b2.function(), b.function());
            }
        },
    }
}

/// `return` becomes `ret` with the value, if there is one.
fn cvt_return(r: &ReturnExpr, ctx: &mut BuildContext, table: &mut SymbolTable, b: &mut Builder) -> (res:
    Option<Value>)
    requires
        old(b).wf(),
        old(table).wf(),
    ensures
        build_step(*old(b), *final(b), *old(table), *final(table), *old(ctx), *final(ctx)),
        res is None,
        final(b).function().block(final(b).current()).insts@.len() > 0,
        final(b).function().block(final(b).current()).insts@.last().inst.kind matches InstKind::Return(
            ri,
        ) && (r.expr is None ==> ri.value is None) && (r.expr is Some && literal_value(
            *r.expr->Some_0,
        ) is Some ==> ri.value == literal_value(*r.expr->Some_0)),
        return_lowering(*r, *old(b), *final(b), *old(table), *final(table), *old(ctx), *final(ctx)),
    decreases r,
{
    let value = match &r.expr {
        Some(e) => cvt_expr(e, ctx, table, b),
        None => {
            proof {
                lemma_build_step_refl(*b, *table, *ctx);
            }
            None
        },
    };
    proof {
        if r.expr is Some {
            assert(expr_lowering(*r.expr->Some_0, *old(b), *b, *old(table), *table, *old(ctx), *ctx, value));
        }
    }
    let ty = match value {
        Some(v) => v.ty,
        None => Type::unit(),
    };
    let ghost b1 = *b;
    b.push_inst(Inst { kind: InstKind::Return(ReturnInst { value }), ty });
    proof {
        lemma_grows_trans(old(b).function(), b1.function(), b.function());
        assert(appended(b1, *b, Inst { kind: InstKind::Return(ReturnInst { value }), ty })) by {
            assert(b.function().block(b1.current()).insts@.drop_last() =~= b1.function().block(b1.current()).insts@);
        }
    }
    None
}

/// `if` branches on its condition to a `then` block and to an `else` block (or straight
/// to the `merge` block without one); each branch ends by going to `merge`, where
/// building goes on.
fn cvt_if(i: &IfExpr, ctx: &mut BuildContext, table: &mut SymbolTable, b: &mut Builder)
    requires
        old(b).wf(),
        old(table).wf(),
    ensures
        build_step(*old(b), *final(b), *old(table), *final(table), *old(ctx), *final(ctx)),
    decreases i,
{
    let ghost b0 = *b;
    let ghost t0 = *table;
    let ghost c0 = *ctx;
    let cond = match cvt_expr(&i.cond, ctx, table, b) {
        Some(c) => c,
        None => {
            return ;
        },
    };
    let ghost b1 = *b;
    let then_branch = b.add_block(Some("then".to_owned()));
    let ghost bt = *b;
    let merge_branch = b.add_block(Some("merge".to_owned()));
    let ghost bm = *b;
    let else_branch = match &i.else_body {
        Some(_) => b.add_block(Some("else".to_owned())),
        None => {
            proof {
                lemma_grows_refl(b.function());
            }
            merge_branch
        },
    };
    let ghost b2 = *b;
    proof {
        assert(bt.function().valid(then_branch)) by {
            assert(bt.function().ids()[bt.function().ids().len() - 1] == then_branch);
        }
        assert(bm.function().valid(merge_branch)) by {
            assert(bm.function().ids()[bm.function().ids().len() - 1] == merge_branch);
        }
        if i.else_body is Some {
            assert(b2.function().ids()[b2.function().ids().len() - 1] == else_branch);
        }
        lemma_grows_valid(bt.function(), bm.function(), then_branch);
        lemma_grows_trans(bt.function(), bm.function(), b2.function());
        lemma_grows_valid(bt.function(), b2.function(), then_branch);
        lemma_grows_valid(bm.function(), b2.function(), merge_branch);
        lemma_grows_trans(b1.function(), bt.function(), bm.function());
        lemma_grows_trans(b1.function(), bm.function(), b2.function());
        lemma_grows_trans(b0.function(), b1.function(), b2.function());
    }
    b.push_inst(
        unit_inst(InstKind::BranchCond(BranchCondInst { cond, then_branch, else_branch })),
    );
    let ghost b3 = *b;
    b.set_current_block(then_branch);
    let ghost t3 = *table;
    let ghost c3 = *ctx;
    cvt_block(&i.then_body, ctx, table, b);
    let ghost b4 = *b;
    proof {
        lemma_grows_valid(b3.function(), b4.function(), merge_branch);
    }
    b.push_inst(unit_inst(InstKind::Branch(BranchInst { branch: merge_branch })));
    let ghost b5 = *b;
    match &i.else_body {
        Some(else_block) => {
            proof {
                lemma_grows_trans(b3.function(), b4.function(), b5.function());
                lemma_grows_valid(b3.function(), b5.function(), else_branch);
            }
            b.set_current_block(else_branch);
            let ghost b6 = *b;
            cvt_block(else_block, ctx, table, b);
            let ghost b7 = *b;
            proof {
                lemma_grows_trans(b3.function(), b5.function(), b7.function());
                lemma_grows_valid(b3.function(), b7.function(), merge_branch);
            }
            b.push_inst(unit_inst(InstKind::Branch(BranchInst { branch: merge_branch })));
        },
        None => {},
    }
    let ghost b8 = *b;
    proof {
        lemma_grows_trans(b3.function(), b4.function(), b5.function());
        lemma_grows_trans(b3.function(), b5.function(), b8.function());
        lemma_grows_valid(b3.function(), b8.function(), merge_branch);
    }
    b.set_current_block(merge_branch);
    proof {
        lemma_grows_trans(b0.function(), b2.function(), b3.function());
        lemma_grows_trans(b0.function(), b3.function(), b.function());
    }
}

/// Builds a function's graph: an entry block, the parameters' values, then its body.
fn build_function(func: &crate::ast_resolved::nodes::Function, ctx: &mut BuildContext, table: &mut SymbolTable) -> (r: Function)
    requires
        old(table).wf(),
        old(ctx).locals().len() == 0,
        old(ctx).func_id() == NIL_ID,
    ensures
        final(table).wf(),
        final(table).ids() == old(table).ids(),
        final(table).names() == old(table).names(),
        final(ctx).locals().len() == 0,
        final(ctx).func_id() == NIL_ID,
        item_graph(Item::Function(*func), r),
        function_lowered(*func, r),
{
    ctx.set_func_symbol_id(func.sig.sym_id);
    ctx.push_local(func.table_id);
    let mut f = Function::new(func.sig.sym_id, func.table_id);
    let entry = f.add_block(BasicBlock::new(Some("entry".to_owned())));
    proof {
        assert(f.ids()[0] == entry);
    }
    let mut j: usize = 0;
    while j < func.sig.params.len()
        invariant
            j <= func.sig.params@.len(),
            table.wf(),
            table.ids() == old(table).ids(),
            table.names() == old(table).names(),
        decreases func.sig.params.len() - j,
    {
        let id = func.sig.params[j].sym_id;
        let ty = match table.get_table(func.table_id) {
            Some(t) => match t.get_symbol(id) {
                Some(Symbol::Variable(v)) => Some(v.get_type()),
                _ => None,
            },
            None => None,
        };
        match ty {
            Some(ty) => {
                table.set_var_value(func.table_id, id, Value { kind: ValueKind::Parameter(id), ty });
            },
            None => {},
        }
        j = j + 1;
    }
    proof {
        assert forall|k: BasicBlockID, i: int|
            f.valid(k) && 0 <= i < f.block(k).insts@.len() implies crate::cfg::builder::targets_valid(
            f,
            #[trigger] f.block(k).insts@[i].inst.kind,
        ) by {
            assert(f.ids().len() == 1);
            assert(k == entry);
        }
    }
    let mut b = Builder::new(f, entry);
    let ghost gb0 = b;
    let ghost gt0 = *table;
    let ghost gc0 = *ctx;
    let v = cvt_block(&func.body, ctx, table, &mut b);
    proof {
        assert(fresh_builder(gb0));
        assert(block_lowering(func.body, gb0, b, gt0, *table, gc0, v));
    }
    let f = b.into_function();
    ctx.pop_local();
    ctx.unset_func_symbol_id();
    proof {
        assert(ctx.locals() =~= Seq::<SymbolID>::empty());
    }
    f
}

} // verus!
