//! Building a function's graph: a cursor on one of its blocks, into which instructions
//! are pushed.
use vstd::prelude::*;

use crate::cfg::basic_block::{BasicBlock, inst_ids};
use crate::cfg::function::Function;
use crate::cfg::inst::{Inst, InstKind, TaggedInst, is_terminator};
use crate::cfg::value::{BasicBlockID, InstID};

verus! {

/// The blocks an instruction branches to are blocks of `f`.
pub open spec fn targets_valid(f: Function, k: InstKind) -> bool {
    match k {
        InstKind::Branch(b) => f.valid(b.branch),
        InstKind::BranchCond(c) => f.valid(c.then_branch) && f.valid(c.else_branch),
        _ => true,
    }
}

/// Every branch of `f` goes to blocks of `f`.
pub open spec fn branches_valid(f: Function) -> bool {
    forall|k: BasicBlockID, i: int|
        #![trigger f.block(k).insts@[i]]
        f.valid(k) && 0 <= i < f.block(k).insts@.len() ==> targets_valid(
            f,
            f.block(k).insts@[i].inst.kind,
        )
}

/// Branch targets stay valid as the function grows.
pub proof fn lemma_targets_grow(old: Function, new: Function, k: InstKind)
    requires
        grows(old, new),
        targets_valid(old, k),
    ensures
        targets_valid(new, k),
{
    match k {
        InstKind::Branch(b) => lemma_grows_valid(old, new, b.branch),
        InstKind::BranchCond(c) => {
            lemma_grows_valid(old, new, c.then_branch);
            lemma_grows_valid(old, new, c.else_branch);
        },
        _ => {},
    }
}

/// An instruction of `old` keeps valid targets in `new`.
proof fn lemma_inst_from_old(old: Function, new: Function, k: BasicBlockID, j: int, kind: InstKind)
    requires
        grows(old, new),
        branches_valid(old),
        old.valid(k),
        0 <= j < old.block(k).insts@.len(),
        kind == old.block(k).insts@[j].inst.kind,
    ensures
        targets_valid(new, kind),
{
    assert(targets_valid(old, old.block(k).insts@[j].inst.kind));
    lemma_targets_grow(old, new, kind);
}

/// The blocks a branch instruction goes to; none for other instructions.
pub open spec fn branch_targets(k: InstKind) -> Seq<BasicBlockID> {
    match k {
        InstKind::Branch(b) => seq![b.branch],
        InstKind::BranchCond(c) => seq![c.then_branch, c.else_branch],
        _ => Seq::empty(),
    }
}

/// `new` is `old` after `inst` went, under identifier `id`, into block `bb` before the
/// instruction at position `p`. A terminator (a branch or a return) ends the block there:
/// the instructions from `p` on move to a new last block, which takes over the block's
/// outgoing edges, and the block's outgoing edges become exactly the branch's targets,
/// each of which has the block among its incoming edges. Any other instruction just goes
/// in at `p`.
pub open spec fn inserted_before(
    old: Function,
    new: Function,
    bb: BasicBlockID,
    inst: Inst,
    id: InstID,
    p: int,
) -> bool {
    let s = old.block(bb).insts@;
    let t = TaggedInst { id, inst };
    if is_terminator(inst.kind) {
        let l = new.ids().last();
        &&& new.ids() == old.ids().push(l)
        &&& new.block(bb).insts@ == s.subrange(0, p).push(t)
        &&& new.block(l).insts@ == s.subrange(p, s.len() as int)
        &&& new.block(l).outgoings@ == old.block(bb).outgoings@
        &&& forall|y: BasicBlockID| #[trigger]
            new.block(bb).outgoings@.contains(y) <==> branch_targets(inst.kind).contains(y)
        &&& forall|j: int|
            0 <= j < branch_targets(inst.kind).len() ==> new.block(
                #[trigger] branch_targets(inst.kind)[j],
            ).incomings@.contains(bb)
    } else {
        &&& new.ids() == old.ids()
        &&& new.block(bb).insts@ == s.insert(p, t)
    }
}

/// `new` has the blocks of `old` (and maybe more), in the same order.
pub open spec fn grows(old: Function, new: Function) -> bool {
    &&& new.wf()
    &&& old.ids().len() <= new.ids().len()
    &&& new.ids().subrange(0, old.ids().len() as int) == old.ids()
    &&& new.spec_symbol_id() == old.spec_symbol_id()
    &&& new.spec_table_id() == old.spec_table_id()
    &&& old.spec_entry() is Some ==> new.spec_entry() == old.spec_entry()
}

pub proof fn lemma_grows_valid(old: Function, new: Function, k: BasicBlockID)
    requires
        grows(old, new),
        old.valid(k),
    ensures
        new.valid(k),
{
    let j = choose|j: int| 0 <= j < old.ids().len() && old.ids()[j] == k;
    assert(new.ids().subrange(0, old.ids().len() as int)[j] == k);
}

pub proof fn lemma_grows_trans(a: Function, b: Function, c: Function)
    requires
        grows(a, b),
        grows(b, c),
    ensures
        grows(a, c),
{
    assert(c.ids().subrange(0, a.ids().len() as int) =~= c.ids().subrange(0, b.ids().len() as int).subrange(
        0,
        a.ids().len() as int,
    ));
}

pub proof fn lemma_grows_refl(a: Function)
    requires
        a.wf(),
    ensures
        grows(a, a),
{
    assert(a.ids().subrange(0, a.ids().len() as int) =~= a.ids());
}

pub struct Builder {
    func: Function,
    current: BasicBlockID,
}

impl Builder {
    pub closed spec fn function(&self) -> Function {
        self.func
    }

    pub closed spec fn current(&self) -> BasicBlockID {
        self.current
    }

    /// The function is well formed, its branches go to its blocks, and the current block
    /// is one of them.
    pub open spec fn wf(&self) -> bool {
        self.function().wf() && self.function().valid(self.current()) && branches_valid(
            self.function(),
        )
    }

    /// A builder on block `bb` of `func`.
    pub fn new(func: Function, bb: BasicBlockID) -> (r: Builder)
        requires
            func.wf(),
            func.valid(bb),
            branches_valid(func),
        ensures
            r.wf(),
            r.function() == func,
            r.current() == bb,
    {
        Builder { func, current: bb }
    }

    /// The function built.
    pub fn into_function(self) -> (r: Function)
        ensures
            r == self.function(),
    {
        self.func
    }

    /// Adds an empty block, described by `desc`.
    pub fn add_block(&mut self, desc: Option<String>) -> (r: BasicBlockID)
        requires
            old(self).wf(),
        ensures
            final(self).wf(),
            final(self).current() == old(self).current(),
            grows(old(self).function(), final(self).function()),
            final(self).function().ids() == old(self).function().ids().push(r),
            !old(self).function().valid(r),
            final(self).function().block(r).insts@.len() == 0,
            forall|k: BasicBlockID| #[trigger]
                old(self).function().valid(k) ==> final(self).function().block(k) == old(self).function().block(k),
    {
        let r = self.func.add_block(BasicBlock::new(desc));
        proof {
            assert(self.func.ids().subrange(0, old(self).func.ids().len() as int) =~= old(self).func.ids());
            let j = choose|j: int| 0 <= j < old(self).func.ids().len() && old(self).func.ids()[j] == self.current;
            assert(self.func.ids()[j] == self.current);
            assert(grows(old(self).func, self.func));
            assert forall|k: BasicBlockID, i: int|
                self.func.valid(k) && 0 <= i < self.func.block(k).insts@.len() implies targets_valid(
                self.func,
                #[trigger] self.func.block(k).insts@[i].inst.kind,
            ) by {
                if k != r {
                    let m = choose|m: int| 0 <= m < self.func.ids().len() && self.func.ids()[m] == k;
                    assert(old(self).func.ids()[m] == k);
                    assert(old(self).func.valid(k));
                    assert(targets_valid(old(self).func, old(self).func.block(k).insts@[i].inst.kind));
                    lemma_targets_grow(old(self).func, self.func, self.func.block(k).insts@[i].inst.kind);
                }
            }
        }
        r
    }

    pub fn get_block(&self, bb: BasicBlockID) -> (r: Option<&BasicBlock>)
        requires
            self.wf(),
        ensures
            r is Some <==> self.function().valid(bb),
            r matches Some(b) ==> *b == self.function().block(bb),
    {
        self.func.get_block(bb)
    }

    pub fn set_current_block(&mut self, bb: BasicBlockID)
        requires
            old(self).wf(),
            old(self).function().valid(bb),
        ensures
            final(self).wf(),
            final(self).current() == bb,
            final(self).function() == old(self).function(),
    {
        self.current = bb;
    }

    pub fn get_current_block_id(&self) -> (r: BasicBlockID)
        ensures
            r == self.current(),
    {
        self.current
    }

    pub fn get_current_block(&self) -> (r: &BasicBlock)
        requires
            self.wf(),
        ensures
            *r == self.function().block(self.current()),
    {
        match self.func.get_block(self.current) {
            Some(b) => b,
            None => {
                assert(false);
                &self.func.get_blocks()[0].1
            },
        }
    }

    /// Whether the current block ends with a branch or a return.
    pub fn is_termiated(&self) -> (r: bool)
        requires
            self.wf(),
        ensures
            r == (self.function().block(self.current()).insts@.len() > 0
                && crate::cfg::inst::is_terminator(
                self.function().block(self.current()).insts@.last().inst.kind,
            )),
    {
        self.get_current_block().is_terminated()
    }

    /// Inserts `inst` into block `bb`, before `before_inst` (or at the end). A terminator
    /// inserted before another instruction ends the block there: the block is split after
    /// it and linked to the branch's targets. The current block does not change.
    fn insert_inst_at(&mut self, bb: BasicBlockID, inst: Inst, before_inst: Option<InstID>) -> (r:
        Option<InstID>)
        requires
            old(self).wf(),
            targets_valid(old(self).function(), inst.kind),
        ensures
            final(self).wf(),
            final(self).current() == old(self).current(),
            grows(old(self).function(), final(self).function()),
            before_inst is None && old(self).function().valid(bb) ==> (r matches Some(id) && final(self).function().ids() == old(self).function().ids() && final(self).function().block(
                bb,
            ).insts@ == old(self).function().block(bb).insts@.push(TaggedInst { id, inst })
                && forall|k: BasicBlockID| #[trigger]
                old(self).function().valid(k) && k != bb ==> final(self).function().block(k) == old(self).function().block(k)),
            old(self).function().valid(bb) && (before_inst matches Some(bi) && inst_ids(
                old(self).function().block(bb).insts@,
            ).contains(bi)) ==> (r matches Some(id) && exists|p: int|
                0 <= p < old(self).function().block(bb).insts@.len() && old(self).function().block(
                    bb,
                ).insts@[p].id == before_inst->Some_0 && inserted_before(
                    old(self).function(),
                    final(self).function(),
                    bb,
                    inst,
                    id,
                    p,
                )),
            !old(self).function().valid(bb) || (before_inst matches Some(bi) && !inst_ids(
                old(self).function().block(bb).insts@,
            ).contains(bi)) ==> r is None && final(self).function().blocks() == old(self).function().blocks(),
    {
        let targets = match &inst.kind {
            InstKind::Branch(b) => (Some(b.branch), None),
            InstKind::BranchCond(c) => (Some(c.then_branch), Some(c.else_branch)),
            _ => (None, None),
        };
        let is_term = inst.kind.is_terminate_inst();
        let ghost f0 = self.func;
        let ghost g_inst = inst;
        let inst_id = match self.func.insert_inst_in(bb, inst, before_inst) {
            Some(id) => id,
            None => {
                proof {
                    assert(self.func.ids() == f0.ids());
                    lemma_grows_refl(self.func);
                    assert forall|k: BasicBlockID, i: int|
                        self.func.valid(k) && 0 <= i < self.func.block(k).insts@.len() implies targets_valid(
                        self.func,
                        #[trigger] self.func.block(k).insts@[i].inst.kind,
                    ) by {
                        lemma_inst_from_old(f0, self.func, k, i, self.func.block(k).insts@[i].inst.kind);
                    }
                }
                return None;
            },
        };
        proof {
            assert(self.func.ids() =~= f0.ids());
            lemma_grows_refl(self.func);
            assert(grows(f0, self.func));
        }
        if before_inst.is_none() {
            proof {
                let f1 = self.func;
                assert forall|k: BasicBlockID, i: int|
                    f1.valid(k) && 0 <= i < f1.block(k).insts@.len() implies targets_valid(
                    f1,
                    #[trigger] f1.block(k).insts@[i].inst.kind,
                ) by {
                    assert(f0.valid(k));
                    if k == bb {
                        if i < f0.block(bb).insts@.len() {
                            lemma_inst_from_old(f0, f1, bb, i, f1.block(k).insts@[i].inst.kind);
                        } else {
                            lemma_targets_grow(f0, f1, g_inst.kind);
                        }
                    } else {
                        lemma_inst_from_old(f0, f1, k, i, f1.block(k).insts@[i].inst.kind);
                    }
                }
            }
            return Some(inst_id);
        }
        let ghost f1 = self.func;
        let ghost s0 = f0.block(bb).insts@;
        let ghost tagged = TaggedInst { id: inst_id, inst: g_inst };
        let ghost p = choose|p: int|
            0 <= p < s0.len() && s0[p].id == before_inst->Some_0 && f1.block(bb).insts@
                == s0.insert(p, tagged);
        if !is_term {
            proof {
                assert(branch_targets(g_inst.kind) =~= Seq::<BasicBlockID>::empty());
                assert forall|k: BasicBlockID, i: int|
                    f1.valid(k) && 0 <= i < f1.block(k).insts@.len() implies targets_valid(
                    f1,
                    #[trigger] f1.block(k).insts@[i].inst.kind,
                ) by {
                    assert(f0.valid(k));
                    if k == bb {
                        if i < p {
                            assert(f1.block(k).insts@[i] == s0[i]);
                            lemma_inst_from_old(f0, f1, bb, i, f1.block(k).insts@[i].inst.kind);
                        } else if i == p {
                            lemma_targets_grow(f0, f1, g_inst.kind);
                        } else {
                            assert(f1.block(k).insts@[i] == s0[i - 1]);
                            lemma_inst_from_old(f0, f1, bb, i - 1, f1.block(k).insts@[i].inst.kind);
                        }
                    } else {
                        lemma_inst_from_old(f0, f1, k, i, f1.block(k).insts@[i].inst.kind);
                    }
                }
            }
        } else {
            let (bb1, latter) = match self.func.split_block_at(bb, inst_id) {
                Some(x) => x,
                None => {
                    assert(false);
                    return None;
                },
            };
            let ghost f2 = self.func;
            proof {
                let s1 = f1.block(bb).insts@;
                f1.lemma_block_wf(bb);
                assert(s1[p] == tagged);
                let q = choose|q: int|
                    0 <= q < s1.len() && s1[q].id == inst_id && f2.block(bb).insts@
                        == s1.subrange(0, q + 1) && f2.block(latter).insts@ == s1.subrange(
                        q + 1,
                        s1.len() as int,
                    );
                assert(inst_ids(s1)[p] == inst_id);
                assert(inst_ids(s1)[q] == inst_id);
                assert(p == q);
                assert(s1.subrange(0, p + 1) =~= s0.subrange(0, p).push(tagged));
                assert(s1.subrange(p + 1, s1.len() as int) =~= s0.subrange(p, s0.len() as int));
                assert(self.func.ids().subrange(0, f1.ids().len() as int) =~= f1.ids());
                assert(grows(f1, self.func));
                lemma_grows_trans(f0, f1, self.func);
                lemma_grows_valid(f0, self.func, self.current);
                lemma_grows_valid(f0, self.func, bb);
                assert(self.func.ids().last() == latter);
                assert(f2.valid(latter));
                assert(f2.block(bb).outgoings@.len() == 0);
            }
            match targets.0 {
                Some(t) => {
                    proof {
                        lemma_grows_valid(f0, self.func, t);
                        assert(latter != t);
                    }
                    self.func.link_block(bb1, t);
                    let ghost f3 = self.func;
                    proof {
                        assert(self.func.ids() == f2.ids());
                        lemma_grows_refl(self.func);
                        lemma_grows_trans(f0, f2, self.func);
                        assert(latter != bb);
                        assert(self.func.block(bb).insts == f2.block(bb).insts);
                        assert(self.func.block(latter) == f2.block(latter));
                        assert(self.func.block(t).incomings@.contains(bb));
                    }
                    match targets.1 {
                        Some(e) => {
                            proof {
                                lemma_grows_valid(f0, self.func, e);
                            }
                            self.func.link_block(bb1, e);
                            proof {
                                assert(self.func.ids() == f3.ids());
                                lemma_grows_refl(self.func);
                                lemma_grows_trans(f0, f3, self.func);
                                assert(latter != e);
                                assert(f3.valid(bb));
                                assert(f3.valid(latter));
                                assert(self.func.block(bb).insts == f3.block(bb).insts);
                                assert(self.func.block(latter) == f3.block(latter));
                                assert(branch_targets(g_inst.kind) == seq![t, e]);
                                assert(self.func.block(t).incomings@.contains(bb)) by {
                                    assert(f2.valid(t));
                                    assert(f3.valid(t));
                                    if t != e && t != bb {
                                        assert(self.func.block(t) == f3.block(t));
                                    }
                                }
                                assert forall|y: BasicBlockID|
                                    #[trigger] self.func.block(bb).outgoings@.contains(y)
                                        <==> branch_targets(g_inst.kind).contains(y) by {
                                    if y == t {
                                        assert(branch_targets(g_inst.kind)[0] == y);
                                    }
                                    if y == e {
                                        assert(branch_targets(g_inst.kind)[1] == y);
                                    }
                                    if branch_targets(g_inst.kind).contains(y) {
                                        let j = choose|j: int| 0 <= j < 2 && branch_targets(g_inst.kind)[j] == y;
                                    }
                                    if bb == e {
                                        assert(f3.block(bb).outgoings@.contains(y) <==> y == t);
                                    }
                                }
                            }
                        },
                        None => {
                            proof {
                                assert(branch_targets(g_inst.kind) == seq![t]);
                                assert forall|y: BasicBlockID|
                                    #[trigger] self.func.block(bb).outgoings@.contains(y)
                                        <==> branch_targets(g_inst.kind).contains(y) by {
                                    if y == t {
                                        assert(branch_targets(g_inst.kind)[0] == y);
                                    }
                                }
                            }
                        },
                    }
                    proof {
                        assert forall|k: BasicBlockID| #[trigger] f2.valid(k) implies self.func.block(
                            k,
                        ).insts == f2.block(k).insts by {
                            assert(f3.valid(k));
                        }
                    }
                },
                None => {
                    proof {
                        assert(branch_targets(g_inst.kind) =~= Seq::<BasicBlockID>::empty());
                    }
                },
            }
            proof {
                let l = self.func.ids().last();
                assert(self.func.ids() =~= f0.ids().push(latter));
                assert(l == latter);
                assert(self.func.block(bb).insts@ == s0.subrange(0, p).push(tagged));
                assert(self.func.block(l).insts@ == s0.subrange(p, s0.len() as int));
                assert(self.func.block(l).outgoings@ == f0.block(bb).outgoings@);
                let fz = self.func;
                lemma_grows_trans(f0, f1, f2);
                assert forall|k: BasicBlockID, i: int|
                    fz.valid(k) && 0 <= i < fz.block(k).insts@.len() implies targets_valid(
                    fz,
                    #[trigger] fz.block(k).insts@[i].inst.kind,
                ) by {
                    if k == bb {
                        if i < p {
                            assert(fz.block(k).insts@[i] == s0[i]);
                            lemma_inst_from_old(f0, fz, bb, i, fz.block(k).insts@[i].inst.kind);
                        } else {
                            lemma_targets_grow(f0, fz, g_inst.kind);
                        }
                    } else if k == latter {
                        assert(fz.block(k).insts@[i] == s0[p + i]);
                        lemma_inst_from_old(f0, fz, bb, p + i, fz.block(k).insts@[i].inst.kind);
                    } else {
                        assert(fz.ids() =~= f0.ids().push(latter));
                        assert(f0.valid(k)) by {
                            let m = choose|m: int| 0 <= m < fz.ids().len() && fz.ids()[m] == k;
                            assert(m < f0.ids().len());
                            assert(f0.ids()[m] == k);
                        }
                        assert(f1.valid(k));
                        assert(f2.valid(k));
                        assert(fz.block(k).insts == f2.block(k).insts);
                        assert(f2.block(k).insts == f1.block(k).insts);
                        lemma_inst_from_old(f0, fz, k, i, fz.block(k).insts@[i].inst.kind);
                    }
                }
            }
        }
        proof {
            lemma_grows_valid(f0, self.func, self.current);
            assert(inserted_before(f0, self.func, bb, g_inst, inst_id, p));
        }
        Some(inst_id)
    }

    /// Inserts `inst` before `before_inst` in the current block (see `insert_inst_at`).
    pub fn insert_inst(&mut self, inst: Inst, before_inst: InstID) -> (r: Option<InstID>)
        requires
            old(self).wf(),
            targets_valid(old(self).function(), inst.kind),
        ensures
            final(self).wf(),
            final(self).current() == old(self).current(),
            grows(old(self).function(), final(self).function()),
            inst_ids(old(self).function().block(old(self).current()).insts@).contains(before_inst)
                ==> (r matches Some(id) && exists|p: int|
                0 <= p < old(self).function().block(old(self).current()).insts@.len()
                    && old(self).function().block(old(self).current()).insts@[p].id == before_inst
                    && inserted_before(
                    old(self).function(),
                    final(self).function(),
                    old(self).current(),
                    inst,
                    id,
                    p,
                )),
            !inst_ids(old(self).function().block(old(self).current()).insts@).contains(before_inst)
                ==> r is None && final(self).function().blocks() == old(self).function().blocks(),
    {
        self.insert_inst_at(self.current, inst, Some(before_inst))
    }

    /// Appends `inst` to the current block.
    pub fn push_inst(&mut self, inst: Inst) -> (r: InstID)
        requires
            old(self).wf(),
            targets_valid(old(self).function(), inst.kind),
        ensures
            final(self).wf(),
            final(self).current() == old(self).current(),
            grows(old(self).function(), final(self).function()),
            final(self).function().ids() == old(self).function().ids(),
            final(self).function().block(old(self).current()).insts@ == old(self).function().block(
                old(self).current(),
            ).insts@.push(TaggedInst { id: r, inst }),
            forall|k: BasicBlockID| #[trigger]
                old(self).function().valid(k) && k != old(self).current() ==> final(self).function().block(k) == old(self).function().block(k),
    {
        match self.insert_inst_at(self.current, inst, None) {
            Some(id) => id,
            None => {
                assert(false);
                0
            },
        }
    }
}

} // verus!
