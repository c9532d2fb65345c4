//! The text form of a graph: each function with its parameters and blocks, each block
//! with its instructions. Registers (`%n`) and blocks (`bb_n`) are numbered per function,
//! in the order they are first mentioned.
use vstd::prelude::*;

use crate::cfg::basic_block::BasicBlock;
use crate::cfg::construct::CFG;
use crate::cfg::function::Function;
use crate::cfg::inst::{BranchCondInst, CompareCond, Inst, InstKind, TaggedInst};
use crate::cfg::value::{BasicBlockID, ConstantValue, InstID, Value, ValueKind};
use crate::ids::{NIL_ID, SymbolID};
use crate::location::Located;
use crate::text::{int_text, nat_text, push_int, push_nat, push_str};
use crate::symbol_table::{FuncSymbol, Symbol, SymbolTable, SymbolTableEntry};
use crate::ty::{PrimType, Type};

verus! {

/// The text of a type: `()`, `int`, `bool`, or `func` for the type of a function.
pub open spec fn type_text(t: Type) -> Seq<char> {
    match t {
        Type::Primitive(PrimType::Unit) => "()"@,
        Type::Primitive(PrimType::Int) => "int"@,
        Type::Primitive(PrimType::Bool) => "bool"@,
        Type::Function(_) => "func"@,
    }
}

pub fn type_str(t: &Type) -> (r: &'static str)
    ensures
        r@ == type_text(*t),
{
    match t {
        Type::Primitive(PrimType::Unit) => "()",
        Type::Primitive(PrimType::Int) => "int",
        Type::Primitive(PrimType::Bool) => "bool",
        Type::Function(_) => "func",
    }
}

/// What a register number is given for: a symbol (a parameter or a variable), the result
/// of an instruction, or a parameter that names no variable (by its position).
#[derive(Debug, Clone, Copy, PartialEq, Eq, Structural)]
pub enum RegKey {
    Symbol(SymbolID),
    Inst(InstID),
    Param(usize),
}

/// The number of `k` among the keys numbered so far, and the keys afterwards: a key seen
/// before keeps its number; a new key gets the next number.
pub open spec fn number_of<K>(s: Seq<K>, k: K) -> (nat, Seq<K>) {
    if s.contains(k) {
        (s.index_of(k) as nat, s)
    } else {
        (s.len(), s.push(k))
    }
}

/// Numbering is stable and one to one: asking again for a key gives the number it got,
/// a key not numbered before gets the count of keys numbered so far, and a different key
/// never gets the same number.
pub proof fn lemma_numbering<K>(s: Seq<K>, k1: K, k2: K)
    requires
        s.no_duplicates(),
    ensures
        number_of(s, k1).1.no_duplicates(),
        number_of(number_of(s, k1).1, k1) == (number_of(s, k1).0, number_of(s, k1).1),
        !s.contains(k1) ==> number_of(s, k1).0 == s.len(),
        k1 != k2 ==> number_of(number_of(s, k1).1, k2).0 != number_of(s, k1).0,
{
    let (n1, s1) = number_of(s, k1);
    if s.contains(k1) {
        let j = s.index_of(k1);
        assert(0 <= j < s.len() && s[j] == k1);
    } else {
        assert forall|a: int, b: int| 0 <= a < b < s1.len() implies s1[a] != s1[b] by {
            if b == s.len() {
                assert(s.contains(s[a]));
            }
        }
        assert(s1[s.len() as int] == k1);
        lemma_unique_index(s1, s.len() as int);
    }
    assert(s1.contains(k1));
    let j1 = s1.index_of(k1);
    assert(0 <= j1 < s1.len() && s1[j1] == k1);
    lemma_unique_index(s1, n1 as int);
    if k1 != k2 && s1.contains(k2) {
        let j2 = s1.index_of(k2);
        assert(0 <= j2 < s1.len() && s1[j2] == k2);
    }
}

/// The registers and the blocks numbered so far, each in the order of its number.
pub type Numbering = (Seq<RegKey>, Seq<BasicBlockID>);

pub open spec fn reg(st: Numbering, k: RegKey) -> (nat, Numbering) {
    let (n, regs) = number_of(st.0, k);
    (n, (regs, st.1))
}

pub open spec fn bb(st: Numbering, id: BasicBlockID) -> (nat, Numbering) {
    let (n, bbs) = number_of(st.1, id);
    (n, (st.0, bbs))
}

/// The numbering of registers and blocks while a function is shown.
pub struct DisplayContext {
    regs: Vec<RegKey>,
    bbs: Vec<BasicBlockID>,
}

proof fn lemma_unique_index<K>(s: Seq<K>, i: int)
    requires
        s.no_duplicates(),
        0 <= i < s.len(),
    ensures
        s.index_of(s[i]) == i,
{
    assert(s.contains(s[i]));
    let j = s.index_of(s[i]);
    assert(0 <= j < s.len() && s[j] == s[i]);
}

fn find_reg(v: &Vec<RegKey>, k: RegKey) -> (r: Option<usize>)
    requires
        v@.no_duplicates(),
    ensures
        r is None <==> !v@.contains(k),
        r matches Some(i) ==> i < v@.len() && v@[i as int] == k && v@.index_of(k) == i,
{
    let mut i: usize = 0;
    while i < v.len()
        invariant
            i <= v@.len(),
            v@.no_duplicates(),
            forall|j: int| 0 <= j < i ==> v@[j] != k,
        decreases v.len() - i,
    {
        if v[i] == k {
            proof {
                lemma_unique_index(v@, i as int);
            }
            return Some(i);
        }
        i = i + 1;
    }
    None
}

fn find_bb(v: &Vec<BasicBlockID>, k: BasicBlockID) -> (r: Option<usize>)
    requires
        v@.no_duplicates(),
    ensures
        r is None <==> !v@.contains(k),
        r matches Some(i) ==> i < v@.len() && v@[i as int] == k && v@.index_of(k) == i,
{
    let mut i: usize = 0;
    while i < v.len()
        invariant
            i <= v@.len(),
            v@.no_duplicates(),
            forall|j: int| 0 <= j < i ==> v@[j] != k,
        decreases v.len() - i,
    {
        if v[i] == k {
            proof {
                lemma_unique_index(v@, i as int);
            }
            return Some(i);
        }
        i = i + 1;
    }
    None
}

impl DisplayContext {
    pub closed spec fn numbering(&self) -> Numbering {
        (self.regs@, self.bbs@)
    }

    /// No key and no block is numbered twice.
    pub closed spec fn wf(&self) -> bool {
        self.regs@.no_duplicates() && self.bbs@.no_duplicates()
    }

    pub fn new() -> (r: DisplayContext)
        ensures
            r.wf(),
            r.numbering() == (Seq::<RegKey>::empty(), Seq::<BasicBlockID>::empty()),
    {
        DisplayContext { regs: Vec::new(), bbs: Vec::new() }
    }

    /// The number of block `id`.
    pub fn get_bb(&mut self, id: BasicBlockID) -> (r: usize)
        requires
            old(self).wf(),
        ensures
            final(self).wf(),
            (r as nat, final(self).numbering()) == bb(old(self).numbering(), id),
    {
        match find_bb(&self.bbs, id) {
            Some(i) => i,
            None => {
                let n = self.bbs.len();
                self.bbs.push(id);
                proof {
                    assert forall|a: int, b: int| 0 <= a < b < self.bbs@.len() implies self.bbs@[a]
                        != self.bbs@[b] by {
                        if b == n {
                            assert(old(self).bbs@.contains(old(self).bbs@[a]));
                        }
                    }
                }
                n
            },
        }
    }

    fn get_reg(&mut self, k: RegKey) -> (r: usize)
        requires
            old(self).wf(),
        ensures
            final(self).wf(),
            (r as nat, final(self).numbering()) == reg(old(self).numbering(), k),
    {
        match find_reg(&self.regs, k) {
            Some(i) => i,
            None => {
                let n = self.regs.len();
                self.regs.push(k);
                proof {
                    assert forall|a: int, b: int| 0 <= a < b < self.regs@.len() implies self.regs@[a]
                        != self.regs@[b] by {
                        if b == n {
                            assert(old(self).regs@.contains(old(self).regs@[a]));
                        }
                    }
                }
                n
            },
        }
    }

    /// The register of symbol `id`.
    pub fn get_reg_sym_id(&mut self, id: SymbolID) -> (r: usize)
        requires
            old(self).wf(),
        ensures
            final(self).wf(),
            (r as nat, final(self).numbering()) == reg(old(self).numbering(), RegKey::Symbol(id)),
    {
        self.get_reg(RegKey::Symbol(id))
    }

    /// The register of the result of instruction `id`.
    pub fn get_reg_inst_id(&mut self, id: InstID) -> (r: usize)
        requires
            old(self).wf(),
        ensures
            final(self).wf(),
            (r as nat, final(self).numbering()) == reg(old(self).numbering(), RegKey::Inst(id)),
    {
        self.get_reg(RegKey::Inst(id))
    }
}

/// The function symbol under `id` in `table`, if there is one.
pub open spec fn func_symbol(table: SymbolTable, id: SymbolID) -> Option<FuncSymbol> {
    if table.ids().contains(id) {
        match table.entry(id) {
            SymbolTableEntry::Symbol(Symbol::Function(f)) => Some(f),
            _ => None,
        }
    } else {
        None
    }
}

/// The name of the function under `id`; empty when `table` holds no function there.
pub open spec fn func_name(table: SymbolTable, id: SymbolID) -> Seq<char> {
    match func_symbol(table, id) {
        Some(f) => f.spec_name().0@,
        None => Seq::empty(),
    }
}

/// The text of a value: its type and a space (but for a function), then the constant,
/// the register, or the function's name.
pub open spec fn value_text(st: Numbering, table: SymbolTable, v: Value) -> (Seq<char>, Numbering) {
    let prefix = if v.kind is Function {
        Seq::empty()
    } else {
        type_text(v.ty) + " "@
    };
    match v.kind {
        ValueKind::Constant(ConstantValue::Bool(b)) => (prefix + if b {
            "true"@
        } else {
            "false"@
        }, st),
        ValueKind::Constant(ConstantValue::Integer(i)) => (prefix + int_text(i as int), st),
        ValueKind::Inst(iv) => {
            let (n, st1) = reg(st, RegKey::Inst(iv.inst));
            (prefix + "%"@ + nat_text(n), st1)
        },
        ValueKind::Parameter(id) => {
            let (n, st1) = reg(st, RegKey::Symbol(id));
            (prefix + "%"@ + nat_text(n), st1)
        },
        ValueKind::Function(id) => (func_name(table, id), st),
    }
}

fn get_func_symbol<'a>(table: &'a SymbolTable, id: SymbolID) -> (r: Option<&'a FuncSymbol>)
    ensures
        r matches Some(f) ==> func_symbol(*table, id) == Some(*f),
        r is None ==> func_symbol(*table, id) is None,
{
    match table.get_symbol(id) {
        Some(Symbol::Function(f)) => Some(f),
        _ => None,
    }
}

/// Appends the text of `v`.
pub fn display_value(v: &Value, w: &mut String, ctx: &mut DisplayContext, table: &SymbolTable)
    requires
        old(ctx).wf(),
    ensures
        final(ctx).wf(),
        final(w)@ == old(w)@ + value_text(old(ctx).numbering(), *table, *v).0,
        final(ctx).numbering() == value_text(old(ctx).numbering(), *table, *v).1,
{
    let ghost st = ctx.numbering();
    let is_func = match v.kind {
        ValueKind::Function(_) => true,
        _ => false,
    };
    if !is_func {
        push_str(w, type_str(&v.ty));
        push_str(w, " ");
    }
    let ghost w1 = w@;
    match v.kind {
        ValueKind::Constant(ConstantValue::Bool(b)) => {
            push_str(w, if b { "true" } else { "false" });
        },
        ValueKind::Constant(ConstantValue::Integer(i)) => {
            push_int(w, i);
        },
        ValueKind::Inst(iv) => {
            let n = ctx.get_reg_inst_id(iv.inst);
            push_str(w, "%");
            push_nat(w, n as u64);
        },
        ValueKind::Parameter(id) => {
            let n = ctx.get_reg_sym_id(id);
            push_str(w, "%");
            push_nat(w, n as u64);
        },
        ValueKind::Function(id) => {
            match get_func_symbol(table, id) {
                Some(f) => push_str(w, f.get_name()),
                None => {},
            }
        },
    }
    proof {
        assert(w@ =~= old(w)@ + value_text(st, *table, *v).0);
    }
}

/// Whether an instruction's result gets a register: all but stores, branches and returns.
pub open spec fn has_result(k: InstKind) -> bool {
    !(k is Store || k is Branch || k is BranchCond || k is Return)
}

/// The name of a comparison, as the instruction shows it.
pub open spec fn cond_text(c: CompareCond) -> Seq<char> {
    match c {
        CompareCond::Equal => "equal"@,
        CompareCond::NotEqual => "notequal"@,
        CompareCond::Less => "less"@,
        CompareCond::LessEqual => "lessequal"@,
        CompareCond::Greater => "greater"@,
        CompareCond::GreaterEqual => "greaterequal"@,
    }
}

/// Each condition is shown by its name in lower case, so the text of a `cmp` tells its
/// condition.
pub proof fn lemma_cond_text_names()
    ensures
        cond_text(CompareCond::Equal) == seq!['e', 'q', 'u', 'a', 'l'],
        cond_text(CompareCond::NotEqual) == seq!['n', 'o', 't', 'e', 'q', 'u', 'a', 'l'],
        cond_text(CompareCond::Less) == seq!['l', 'e', 's', 's'],
        cond_text(CompareCond::LessEqual) == seq!['l', 'e', 's', 's', 'e', 'q', 'u', 'a', 'l'],
        cond_text(CompareCond::Greater) == seq!['g', 'r', 'e', 'a', 't', 'e', 'r'],
        cond_text(CompareCond::GreaterEqual) == seq![
            'g',
            'r',
            'e',
            'a',
            't',
            'e',
            'r',
            'e',
            'q',
            'u',
            'a',
            'l',
        ],
{
    reveal_strlit("equal");
    reveal_strlit("notequal");
    reveal_strlit("less");
    reveal_strlit("lessequal");
    reveal_strlit("greater");
    reveal_strlit("greaterequal");
    assert(cond_text(CompareCond::Equal) =~= seq!['e', 'q', 'u', 'a', 'l']);
    assert(cond_text(CompareCond::NotEqual) =~= seq!['n', 'o', 't', 'e', 'q', 'u', 'a', 'l']);
    assert(cond_text(CompareCond::Less) =~= seq!['l', 'e', 's', 's']);
    assert(cond_text(CompareCond::LessEqual) =~= seq!['l', 'e', 's', 's', 'e', 'q', 'u', 'a', 'l']);
    assert(cond_text(CompareCond::Greater) =~= seq!['g', 'r', 'e', 'a', 't', 'e', 'r']);
    assert(cond_text(CompareCond::GreaterEqual) =~= seq![
        'g', 'r', 'e', 'a', 't', 'e', 'r', 'e', 'q', 'u', 'a', 'l',
    ]);
}

/// Distinct conditions are shown by distinct texts.
pub proof fn lemma_cond_text_one_to_one(c1: CompareCond, c2: CompareCond)
    requires
        cond_text(c1) == cond_text(c2),
    ensures
        c1 == c2,
{
    lemma_cond_text_names();
    let n = cond_text(c1).len();
    assert(n == cond_text(c2).len());
    match c1 {
        CompareCond::Equal => assert(n == 5),
        CompareCond::NotEqual => assert(n == 8),
        CompareCond::Less => assert(n == 4),
        CompareCond::LessEqual => assert(n == 9),
        CompareCond::Greater => assert(n == 7),
        CompareCond::GreaterEqual => assert(n == 12),
    }
    match c2 {
        CompareCond::Equal => assert(n == 5),
        CompareCond::NotEqual => assert(n == 8),
        CompareCond::Less => assert(n == 4),
        CompareCond::LessEqual => assert(n == 9),
        CompareCond::Greater => assert(n == 7),
        CompareCond::GreaterEqual => assert(n == 12),
    }
}

fn cond_str(c: CompareCond) -> (r: &'static str)
    ensures
        r@ == cond_text(c),
{
    match c {
        CompareCond::Equal => "equal",
        CompareCond::NotEqual => "notequal",
        CompareCond::Less => "less",
        CompareCond::LessEqual => "lessequal",
        CompareCond::Greater => "greater",
        CompareCond::GreaterEqual => "greaterequal",
    }
}

/// `op` followed by two values, separated by a comma.
pub open spec fn pair_text(st: Numbering, table: SymbolTable, op: Seq<char>, lhs: Value, rhs: Value) -> (
    Seq<char>,
    Numbering,
) {
    let (l, s1) = value_text(st, table, lhs);
    let (r, s2) = value_text(s1, table, rhs);
    (op + l + ", "@ + r, s2)
}

/// Values separated by commas.
pub open spec fn args_text(st: Numbering, table: SymbolTable, args: Seq<Value>) -> (
    Seq<char>,
    Numbering,
)
    decreases args.len(),
{
    if args.len() == 0 {
        (Seq::empty(), st)
    } else {
        let (t0, s0) = args_text(st, table, args.drop_last());
        let (t1, s1) = value_text(s0, table, args.last());
        (t0 + (if args.len() > 1 {
            ", "@
        } else {
            Seq::empty()
        }) + t1, s1)
    }
}

/// What an instruction shows after its register: its name and its operands.
pub open spec fn inst_body_text(st: Numbering, table: SymbolTable, inst: Inst) -> (
    Seq<char>,
    Numbering,
) {
    match inst.kind {
        InstKind::Alloca => ("alloca "@ + type_text(inst.ty), st),
        InstKind::Load(i) => {
            let (t, s1) = value_text(st, table, i.value);
            ("load "@ + t, s1)
        },
        InstKind::Store(i) => pair_text(st, table, "store "@, i.value, i.target),
        InstKind::Branch(i) => {
            let (n, s1) = bb(st, i.branch);
            ("branch bb_"@ + nat_text(n), s1)
        },
        InstKind::BranchCond(i) => {
            let (t, s1) = bb(st, i.then_branch);
            let (e, s2) = bb(s1, i.else_branch);
            let (c, s3) = value_text(s2, table, i.cond);
            ("branch "@ + c + ", bb_"@ + nat_text(t) + ", bb_"@ + nat_text(e), s3)
        },
        InstKind::Return(i) => match i.value {
            Some(v) => {
                let (t, s1) = value_text(st, table, v);
                ("ret "@ + t, s1)
            },
            None => ("ret "@ + "()"@, st),
        },
        InstKind::Negate(i) => {
            let (t, s1) = value_text(st, table, i.value);
            ("neg "@ + t, s1)
        },
        InstKind::Not(i) => {
            let (t, s1) = value_text(st, table, i.value);
            ("not "@ + t, s1)
        },
        InstKind::Add(i) => pair_text(st, table, "add "@, i.lhs, i.rhs),
        InstKind::Sub(i) => pair_text(st, table, "sub "@, i.lhs, i.rhs),
        InstKind::And(i) => pair_text(st, table, "and "@, i.lhs, i.rhs),
        InstKind::Or(i) => pair_text(st, table, "or "@, i.lhs, i.rhs),
        InstKind::Compare(i) => {
            let (l, s1) = value_text(st, table, i.lhs);
            let (r, s2) = value_text(s1, table, i.rhs);
            ("cmp "@ + l + " "@ + cond_text(i.cond) + " "@ + r, s2)
        },
        InstKind::Call(i) => {
            let (c, s1) = value_text(st, table, i.callee);
            let (a, s2) = args_text(s1, table, i.args@);
            ("call "@ + c + "("@ + a + ")"@, s2)
        },
    }
}

/// The line of an instruction: indented, with `%n = <type> ` before it when its result
/// gets a register.
pub open spec fn inst_text(st: Numbering, table: SymbolTable, ti: TaggedInst) -> (
    Seq<char>,
    Numbering,
) {
    let (head, s1) = if has_result(ti.inst.kind) {
        let (n, s) = reg(st, RegKey::Inst(ti.id));
        ("%"@ + nat_text(n) + " = "@ + type_text(ti.inst.ty) + " "@, s)
    } else {
        (Seq::empty(), st)
    };
    let (body, s2) = inst_body_text(s1, table, ti.inst);
    ("    "@ + head + body + "\n"@, s2)
}

fn display_pair(op: &str, lhs: &Value, rhs: &Value, w: &mut String, ctx: &mut DisplayContext, table: &SymbolTable)
    requires
        old(ctx).wf(),
    ensures
        final(ctx).wf(),
        final(w)@ == old(w)@ + pair_text(old(ctx).numbering(), *table, op@, *lhs, *rhs).0,
        final(ctx).numbering() == pair_text(old(ctx).numbering(), *table, op@, *lhs, *rhs).1,
{
    let ghost st = ctx.numbering();
    push_str(w, op);
    display_value(lhs, w, ctx, table);
    push_str(w, ", ");
    display_value(rhs, w, ctx, table);
    proof {
        assert(w@ =~= old(w)@ + pair_text(st, *table, op@, *lhs, *rhs).0);
    }
}

fn display_args(args: &Vec<Value>, w: &mut String, ctx: &mut DisplayContext, table: &SymbolTable)
    requires
        old(ctx).wf(),
    ensures
        final(ctx).wf(),
        final(w)@ == old(w)@ + args_text(old(ctx).numbering(), *table, args@).0,
        final(ctx).numbering() == args_text(old(ctx).numbering(), *table, args@).1,
{
    let ghost st = ctx.numbering();
    let mut i: usize = 0;
    proof {
        assert(args@.subrange(0, 0) =~= Seq::<Value>::empty());
    }
    while i < args.len()
        invariant
            i <= args@.len(),
            ctx.wf(),
            w@ == old(w)@ + args_text(st, *table, args@.subrange(0, i as int)).0,
            ctx.numbering() == args_text(st, *table, args@.subrange(0, i as int)).1,
        decreases args.len() - i,
    {
        let ghost w0 = w@;
        if i > 0 {
            push_str(w, ", ");
        }
        display_value(&args[i], w, ctx, table);
        proof {
            let s = args@.subrange(0, i + 1);
            assert(s.drop_last() =~= args@.subrange(0, i as int));
            assert(s.last() == args@[i as int]);
            assert(w@ =~= old(w)@ + args_text(st, *table, s).0);
        }
        i = i + 1;
    }
    proof {
        assert(args@.subrange(0, args@.len() as int) =~= args@);
    }
}

/// Appends what an instruction shows after its register.
fn display_inst_body(inst: &Inst, w: &mut String, ctx: &mut DisplayContext, table: &SymbolTable)
    requires
        old(ctx).wf(),
    ensures
        final(ctx).wf(),
        final(w)@ == old(w)@ + inst_body_text(old(ctx).numbering(), *table, *inst).0,
        final(ctx).numbering() == inst_body_text(old(ctx).numbering(), *table, *inst).1,
{
    let ghost st = ctx.numbering();
    match &inst.kind {
        InstKind::Alloca => {
            push_str(w, "alloca ");
            push_str(w, type_str(&inst.ty));
            assert(w@ =~= old(w)@ + inst_body_text(st, *table, *inst).0);
        },
        InstKind::Load(i) => {
            push_str(w, "load ");
            display_value(&i.value, w, ctx, table);
            assert(w@ =~= old(w)@ + inst_body_text(st, *table, *inst).0);
        },
        InstKind::Store(i) => {
            display_pair("store ", &i.value, &i.target, w, ctx, table);
        },
        InstKind::Branch(i) => {
            let n = ctx.get_bb(i.branch);
            push_str(w, "branch bb_");
            push_nat(w, n as u64);
            assert(w@ =~= old(w)@ + inst_body_text(st, *table, *inst).0);
        },
        InstKind::BranchCond(i) => {
            display_branch_cond(i, w, ctx, table);
        },
        InstKind::Return(i) => {
            push_str(w, "ret ");
            match &i.value {
                Some(v) => display_value(v, w, ctx, table),
                None => push_str(w, "()"),
            }
            assert(w@ =~= old(w)@ + inst_body_text(st, *table, *inst).0);
        },
        InstKind::Negate(i) => {
            push_str(w, "neg ");
            display_value(&i.value, w, ctx, table);
            assert(w@ =~= old(w)@ + inst_body_text(st, *table, *inst).0);
        },
        InstKind::Not(i) => {
            push_str(w, "not ");
            display_value(&i.value, w, ctx, table);
            assert(w@ =~= old(w)@ + inst_body_text(st, *table, *inst).0);
        },
        InstKind::Add(i) => display_pair("add ", &i.lhs, &i.rhs, w, ctx, table),
        InstKind::Sub(i) => display_pair("sub ", &i.lhs, &i.rhs, w, ctx, table),
        InstKind::And(i) => display_pair("and ", &i.lhs, &i.rhs, w, ctx, table),
        InstKind::Or(i) => display_pair("or ", &i.lhs, &i.rhs, w, ctx, table),
        InstKind::Compare(i) => {
            push_str(w, "cmp ");
            display_value(&i.lhs, w, ctx, table);
            push_str(w, " ");
            push_str(w, cond_str(i.cond));
            push_str(w, " ");
            display_value(&i.rhs, w, ctx, table);
            assert(w@ =~= old(w)@ + inst_body_text(st, *table, *inst).0);
        },
        InstKind::Call(i) => {
            push_str(w, "call ");
            display_value(&i.callee, w, ctx, table);
            push_str(w, "(");
            display_args(&i.args, w, ctx, table);
            push_str(w, ")");
            assert(w@ =~= old(w)@ + inst_body_text(st, *table, *inst).0);
        },
    }
}

fn display_branch_cond(i: &BranchCondInst, w: &mut String, ctx: &mut DisplayContext, table: &SymbolTable)
    requires
        old(ctx).wf(),
    ensures
        final(ctx).wf(),
        final(w)@ == old(w)@ + inst_body_text(old(ctx).numbering(), *table, Inst { kind: InstKind::BranchCond(*i), ty: Type::Primitive(PrimType::Unit) }).0,
        final(ctx).numbering() == inst_body_text(old(ctx).numbering(), *table, Inst { kind: InstKind::BranchCond(*i), ty: Type::Primitive(PrimType::Unit) }).1,
{
    let ghost st = ctx.numbering();
    let t = ctx.get_bb(i.then_branch);
    let e = ctx.get_bb(i.else_branch);
    push_str(w, "branch ");
    display_value(&i.cond, w, ctx, table);
    push_str(w, ", bb_");
    push_nat(w, t as u64);
    push_str(w, ", bb_");
    push_nat(w, e as u64);
    assert(w@ =~= old(w)@ + inst_body_text(st, *table, Inst { kind: InstKind::BranchCond(*i), ty: Type::Primitive(PrimType::Unit) }).0);
}

/// Appends the line of an instruction.
pub fn display_inst(ti: &TaggedInst, w: &mut String, ctx: &mut DisplayContext, table: &SymbolTable)
    requires
        old(ctx).wf(),
    ensures
        final(ctx).wf(),
        final(w)@ == old(w)@ + inst_text(old(ctx).numbering(), *table, *ti).0,
        final(ctx).numbering() == inst_text(old(ctx).numbering(), *table, *ti).1,
{
    let ghost st = ctx.numbering();
    push_str(w, "    ");
    let result = match &ti.inst.kind {
        InstKind::Store(_) | InstKind::Branch(_) | InstKind::BranchCond(_) | InstKind::Return(_) => false,
        _ => true,
    };
    if result {
        let n = ctx.get_reg_inst_id(ti.id);
        push_str(w, "%");
        push_nat(w, n as u64);
        push_str(w, " = ");
        push_str(w, type_str(&ti.inst.ty));
        push_str(w, " ");
    }
    let ghost w1 = w@;
    display_inst_body(&ti.inst, w, ctx, table);
    push_str(w, "\n");
    proof {
        assert(w@ =~= old(w)@ + inst_text(st, *table, *ti).0);
    }
}

/// The lines of instructions, in order.
pub open spec fn insts_text(st: Numbering, table: SymbolTable, insts: Seq<TaggedInst>) -> (
    Seq<char>,
    Numbering,
)
    decreases insts.len(),
{
    if insts.len() == 0 {
        (Seq::empty(), st)
    } else {
        let (t0, s0) = insts_text(st, table, insts.drop_last());
        let (t1, s1) = inst_text(s0, table, insts.last());
        (t0 + t1, s1)
    }
}

/// A block: its label `bb_n:` (with its description as a comment), its instructions, and
/// an empty line.
pub open spec fn block_text(st: Numbering, table: SymbolTable, id: BasicBlockID, b: BasicBlock) -> (
    Seq<char>,
    Numbering,
) {
    let (n, s1) = bb(st, id);
    let head = "  bb_"@ + nat_text(n) + ":"@ + match b.desc {
        Some(d) => " // "@ + d@ + "\n"@,
        None => "\n"@,
    };
    let (body, s2) = insts_text(s1, table, b.insts@);
    (head + body + "\n"@, s2)
}

/// Appends a block.
pub fn display_block(id: BasicBlockID, b: &BasicBlock, w: &mut String, ctx: &mut DisplayContext, table: &SymbolTable)
    requires
        old(ctx).wf(),
    ensures
        final(ctx).wf(),
        final(w)@ == old(w)@ + block_text(old(ctx).numbering(), *table, id, *b).0,
        final(ctx).numbering() == block_text(old(ctx).numbering(), *table, id, *b).1,
{
    let ghost st = ctx.numbering();
    let n = ctx.get_bb(id);
    push_str(w, "  bb_");
    push_nat(w, n as u64);
    push_str(w, ":");
    match &b.desc {
        Some(d) => {
            push_str(w, " // ");
            push_str(w, d.as_str());
            push_str(w, "\n");
        },
        None => push_str(w, "\n"),
    }
    let ghost w1 = w@;
    let ghost s1 = ctx.numbering();
    let insts = b.get_insts();
    let mut i: usize = 0;
    proof {
        assert(insts@.subrange(0, 0) =~= Seq::<TaggedInst>::empty());
    }
    while i < insts.len()
        invariant
            i <= insts@.len(),
            ctx.wf(),
            w@ == w1 + insts_text(s1, *table, insts@.subrange(0, i as int)).0,
            ctx.numbering() == insts_text(s1, *table, insts@.subrange(0, i as int)).1,
        decreases insts.len() - i,
    {
        display_inst(&insts[i], w, ctx, table);
        proof {
            let s = insts@.subrange(0, i + 1);
            assert(s.drop_last() =~= insts@.subrange(0, i as int));
            assert(w@ =~= w1 + insts_text(s1, *table, s).0);
        }
        i = i + 1;
    }
    proof {
        assert(insts@.subrange(0, insts@.len() as int) =~= insts@);
    }
    push_str(w, "\n");
    proof {
        assert(w@ =~= old(w)@ + block_text(st, *table, id, *b).0);
    }
}

/// The register key of the parameter `name`, the `j`-th: the variable of that name in
/// the function's table, or the position when the table holds no such variable.
pub open spec fn param_key(table: SymbolTable, table_id: SymbolID, name: Seq<char>, j: int) -> RegKey {
    if table.ids().contains(table_id) && table.entry(table_id) is Table {
        let t = table.entry(table_id)->Table_0;
        if t.names().contains_key(name) && t.ids().contains(t.names()[name]) && t.entry(
            t.names()[name],
        ) matches SymbolTableEntry::Symbol(Symbol::Variable(_)) {
            RegKey::Symbol(t.names()[name])
        } else {
            RegKey::Param(j as usize)
        }
    } else {
        RegKey::Param(j as usize)
    }
}

/// The parameters, each as its type and its register, separated by commas.
pub open spec fn params_text(
    st: Numbering,
    table: SymbolTable,
    table_id: SymbolID,
    params: Seq<(Located<String>, Type)>,
) -> (Seq<char>, Numbering)
    decreases params.len(),
{
    if params.len() == 0 {
        (Seq::empty(), st)
    } else {
        let (t0, s0) = params_text(st, table, table_id, params.drop_last());
        let p = params.last();
        let (n, s1) = reg(s0, param_key(table, table_id, p.0.0@, params.len() - 1));
        (t0 + (if params.len() > 1 {
            ", "@
        } else {
            Seq::empty()
        }) + type_text(p.1) + " %"@ + nat_text(n), s1)
    }
}

/// The blocks of `bs` but `entry`, in order.
pub open spec fn other_blocks_text(
    st: Numbering,
    table: SymbolTable,
    bs: Seq<(BasicBlockID, BasicBlock)>,
    entry: BasicBlockID,
) -> (Seq<char>, Numbering)
    decreases bs.len(),
{
    if bs.len() == 0 {
        (Seq::empty(), st)
    } else {
        let (t0, s0) = other_blocks_text(st, table, bs.drop_last(), entry);
        if bs.last().0 == entry {
            (t0, s0)
        } else {
            let (t1, s1) = block_text(s0, table, bs.last().0, bs.last().1);
            (t0 + t1, s1)
        }
    }
}

/// The head of a function: `func <name>(<params>) <return type>`, marked `extern` when it
/// has no blocks, and the numbering after its parameters. When `table` holds no function
/// under the function's symbol, the name is empty and there are no parameters and a unit
/// return type.
pub open spec fn function_head(table: SymbolTable, f: Function) -> (Seq<char>, Numbering) {
    let st0: Numbering = (Seq::empty(), Seq::empty());
    let (name, params, ret) = match func_symbol(table, f.spec_symbol_id()) {
        Some(fs) => (fs.spec_name().0@, fs.spec_params(), fs.spec_ret_ty()),
        None => (Seq::empty(), Seq::empty(), Type::Primitive(PrimType::Unit)),
    };
    let (ptext, s1) = params_text(st0, table, f.spec_table_id(), params);
    ((if f.spec_entry() is None {
        "extern "@
    } else {
        Seq::empty()
    }) + "func "@ + name + "("@ + ptext + ") "@ + type_text(ret), s1)
}

/// The blocks of a function: the entry block, then the others in order.
pub open spec fn function_blocks_text(st: Numbering, table: SymbolTable, f: Function, e: BasicBlockID) -> Seq<char> {
    let (et, s2) = block_text(st, table, e, f.block(e));
    let (ot, s3) = other_blocks_text(s2, table, f.blocks(), e);
    et + ot
}

/// A function: its head, then, unless it is extern, its blocks in braces. Numbering
/// starts afresh for each function.
pub open spec fn function_text(table: SymbolTable, f: Function) -> Seq<char> {
    let (head, s1) = function_head(table, f);
    match f.spec_entry() {
        None => head + "\n"@,
        Some(e) => head + " {\n"@ + function_blocks_text(s1, table, f, e) + "}\n"@,
    }
}

fn param_reg_key(table: &SymbolTable, table_id: SymbolID, name: &str, j: usize) -> (r: RegKey)
    ensures
        r == param_key(*table, table_id, name@, j as int),
{
    match table.get_table(table_id) {
        Some(t) => match t.get_symbol_id_by_name(name) {
            Some(id) => match t.get_symbol(id) {
                Some(Symbol::Variable(_)) => RegKey::Symbol(id),
                _ => RegKey::Param(j),
            },
            None => RegKey::Param(j),
        },
        None => RegKey::Param(j),
    }
}

fn display_params(
    params: &Vec<(Located<String>, Type)>,
    table_id: SymbolID,
    w: &mut String,
    ctx: &mut DisplayContext,
    table: &SymbolTable,
)
    requires
        old(ctx).wf(),
    ensures
        final(ctx).wf(),
        final(w)@ == old(w)@ + params_text(old(ctx).numbering(), *table, table_id, params@).0,
        final(ctx).numbering() == params_text(old(ctx).numbering(), *table, table_id, params@).1,
{
    let ghost st = ctx.numbering();
    let mut i: usize = 0;
    proof {
        assert(params@.subrange(0, 0) =~= Seq::<(Located<String>, Type)>::empty());
    }
    while i < params.len()
        invariant
            i <= params@.len(),
            ctx.wf(),
            w@ == old(w)@ + params_text(st, *table, table_id, params@.subrange(0, i as int)).0,
            ctx.numbering() == params_text(st, *table, table_id, params@.subrange(0, i as int)).1,
        decreases params.len() - i,
    {
        let key = param_reg_key(table, table_id, params[i].0.0.as_str(), i);
        let n = ctx.get_reg(key);
        if i > 0 {
            push_str(w, ", ");
        }
        push_str(w, type_str(&params[i].1));
        push_str(w, " %");
        push_nat(w, n as u64);
        proof {
            let s = params@.subrange(0, i + 1);
            assert(s.drop_last() =~= params@.subrange(0, i as int));
            assert(s.last() == params@[i as int]);
            assert(w@ =~= old(w)@ + params_text(st, *table, table_id, s).0);
        }
        i = i + 1;
    }
    proof {
        assert(params@.subrange(0, params@.len() as int) =~= params@);
    }
}

fn display_head(f: &Function, w: &mut String, ctx: &mut DisplayContext, table: &SymbolTable)
    requires
        old(ctx).wf(),
        old(ctx).numbering() == (Seq::<RegKey>::empty(), Seq::<BasicBlockID>::empty()),
    ensures
        final(ctx).wf(),
        final(w)@ == old(w)@ + function_head(*table, *f).0,
        final(ctx).numbering() == function_head(*table, *f).1,
{
    if !f.has_entry() {
        push_str(w, "extern ");
    }
    push_str(w, "func ");
    let ret = match get_func_symbol(table, f.get_symbol_id()) {
        Some(fs) => {
            push_str(w, fs.get_name());
            push_str(w, "(");
            display_params(fs.get_params(), f.get_table_id(), w, ctx, table);
            fs.get_return_type()
        },
        None => {
            push_str(w, "(");
            Type::unit()
        },
    };
    push_str(w, ") ");
    push_str(w, type_str(&ret));
    proof {
        assert(w@ =~= old(w)@ + function_head(*table, *f).0);
    }
}

fn display_blocks(f: &Function, entry: BasicBlockID, w: &mut String, ctx: &mut DisplayContext, table: &SymbolTable)
    requires
        old(ctx).wf(),
        f.wf(),
        f.spec_entry() == Some(entry),
    ensures
        final(w)@ == old(w)@ + function_blocks_text(old(ctx).numbering(), *table, *f, entry),
{
    let ghost st = ctx.numbering();
    let eb = match f.get_block(entry) {
        Some(b) => b,
        None => {
            assert(false);
            return;
        },
    };
    display_block(entry, eb, w, ctx, table);
    let ghost w2 = w@;
    let ghost s2 = ctx.numbering();
    let blocks = f.get_blocks();
    let mut i: usize = 0;
    proof {
        assert(blocks@.subrange(0, 0) =~= Seq::<(BasicBlockID, BasicBlock)>::empty());
    }
    while i < blocks.len()
        invariant
            i <= blocks@.len(),
            ctx.wf(),
            w@ == w2 + other_blocks_text(s2, *table, blocks@.subrange(0, i as int), entry).0,
            ctx.numbering() == other_blocks_text(s2, *table, blocks@.subrange(0, i as int), entry).1,
        decreases blocks.len() - i,
    {
        if blocks[i].0 != entry {
            display_block(blocks[i].0, &blocks[i].1, w, ctx, table);
        }
        proof {
            let s = blocks@.subrange(0, i + 1);
            assert(s.drop_last() =~= blocks@.subrange(0, i as int));
            assert(s.last() == blocks@[i as int]);
            assert(w@ =~= w2 + other_blocks_text(s2, *table, s, entry).0);
        }
        i = i + 1;
    }
    proof {
        assert(blocks@.subrange(0, blocks@.len() as int) =~= blocks@);
        assert(w@ =~= old(w)@ + function_blocks_text(st, *table, *f, entry));
    }
}

/// Appends a function; numbering starts afresh.
pub fn display_function(f: &Function, w: &mut String, table: &SymbolTable)
    requires
        f.wf(),
    ensures
        final(w)@ == old(w)@ + function_text(*table, *f),
{
    let mut ctx = DisplayContext::new();
    display_head(f, w, &mut ctx, table);
    let ghost head = w@;
    if !f.has_entry() {
        push_str(w, "\n");
        proof {
            assert(w@ =~= old(w)@ + function_text(*table, *f));
        }
        return;
    }
    push_str(w, " {\n");
    let entry = f.get_entry_block();
    display_blocks(f, entry, w, &mut ctx, table);
    push_str(w, "}\n");
    proof {
        assert(w@ =~= old(w)@ + function_text(*table, *f));
    }
}

/// The functions of a graph, each followed by an empty line.
pub open spec fn cfg_text(table: SymbolTable, fs: Seq<Function>) -> Seq<char>
    decreases fs.len(),
{
    if fs.len() == 0 {
        Seq::empty()
    } else {
        cfg_text(table, fs.drop_last()) + function_text(table, fs.last()) + "\n"@
    }
}

/// Appends the text of a graph: its functions in order, each followed by an empty line.
pub fn display_cfg(w: &mut String, cfg: &CFG, table: &SymbolTable)
    requires
        cfg.wf(),
    ensures
        final(w)@ == old(w)@ + cfg_text(*table, cfg.functions()),
{
    let funcs = cfg.get_functions();
    let mut i: usize = 0;
    proof {
        assert(funcs@.subrange(0, 0) =~= Seq::<Function>::empty());
    }
    while i < funcs.len()
        invariant
            i <= funcs@.len(),
            funcs@ == cfg.functions(),
            cfg.wf(),
            w@ == old(w)@ + cfg_text(*table, funcs@.subrange(0, i as int)),
        decreases funcs.len() - i,
    {
        display_function(&funcs[i], w, table);
        push_str(w, "\n");
        proof {
            let s = funcs@.subrange(0, i + 1);
            assert(s.drop_last() =~= funcs@.subrange(0, i as int));
            assert(w@ =~= old(w)@ + cfg_text(*table, s));
        }
        i = i + 1;
    }
    proof {
        assert(funcs@.subrange(0, funcs@.len() as int) =~= funcs@);
    }
}

} // verus!
