//! Functions of a control-flow graph: basic blocks by identifier, the first of which is
//! the entry, and the edges between them.
use vstd::prelude::*;

use crate::cfg::basic_block::{BasicBlock, inst_ids};
use crate::cfg::inst::TaggedInst;
use crate::cfg::value::{BasicBlockID, InstID};
use crate::ids::{NIL_ID, SymbolID, fresh_id};

verus! {

pub open spec fn ids_of(s: Seq<(BasicBlockID, BasicBlock)>) -> Seq<BasicBlockID> {
    s.map_values(|p: (BasicBlockID, BasicBlock)| p.0)
}

/// In a list without duplicates, an element's index is where it is.
pub proof fn lemma_index_of_unique(s: Seq<BasicBlockID>, i: int)
    requires
        s.no_duplicates(),
        0 <= i < s.len(),
    ensures
        s.index_of(s[i]) == i,
{
    let j = s.index_of(s[i]);
    assert(0 <= j < s.len() && s[j] == s[i]);
}

impl Function {
    /// Every block of a well-formed function is well formed.
    pub proof fn lemma_block_wf(self, bb: BasicBlockID)
        requires
            self.wf(),
            self.valid(bb),
        ensures
            self.block(bb).wf(),
    {
        let k = self.ids().index_of(bb);
        assert(0 <= k < self.ids().len() && self.ids()[k] == bb);
        assert(self.blocks()[k].1.wf());
    }
}

/// Adds `x` to a list used as a set.
pub fn push_unique(v: &mut Vec<BasicBlockID>, x: BasicBlockID)
    requires
        old(v)@.no_duplicates(),
    ensures
        final(v)@.no_duplicates(),
        final(v)@.to_set() == old(v)@.to_set().insert(x),
        forall|y: BasicBlockID| #[trigger] final(v)@.contains(y) <==> old(v)@.contains(y) || y == x,
{
    let mut i: usize = 0;
    while i < v.len()
        invariant
            i <= v@.len(),
            v@ == old(v)@,
            old(v)@.no_duplicates(),
            forall|j: int| 0 <= j < i ==> v@[j] != x,
        decreases v.len() - i,
    {
        if v[i] == x {
            proof {
                assert(v@.to_set() =~= old(v)@.to_set().insert(x));
            }
            return;
        }
        i = i + 1;
    }
    let ghost before = v@;
    v.push(x);
    proof {
        assert forall|y: BasicBlockID| #[trigger] v@.contains(y) <==> before.contains(y) || y == x by {
            if v@.contains(y) {
                let k = choose|k: int| 0 <= k < v@.len() && v@[k] == y;
                if k < before.len() {
                    assert(before[k] == y);
                }
            }
            if before.contains(y) {
                let k = choose|k: int| 0 <= k < before.len() && before[k] == y;
                assert(v@[k] == y);
            }
            if y == x {
                assert(v@[before.len() as int] == x);
            }
        }
        assert(v@.to_set() =~= old(v)@.to_set().insert(x));
    }
}

/// Removes `x` from a list used as a set.
pub fn remove_value(v: &mut Vec<BasicBlockID>, x: BasicBlockID)
    requires
        old(v)@.no_duplicates(),
    ensures
        final(v)@.no_duplicates(),
        forall|y: BasicBlockID| #[trigger] final(v)@.contains(y) <==> old(v)@.contains(y) && y != x,
{
    let mut i: usize = 0;
    while i < v.len()
        invariant
            i <= v@.len(),
            v@ == old(v)@,
            old(v)@.no_duplicates(),
            forall|j: int| 0 <= j < i ==> v@[j] != x,
        decreases v.len() - i,
    {
        if v[i] == x {
            let ghost before = v@;
            v.remove(i);
            proof {
                assert(v@ =~= before.remove(i as int));
                assert forall|y: BasicBlockID| #[trigger] v@.contains(y) <==> before.contains(y) && y
                    != x by {
                    if v@.contains(y) {
                        let k = choose|k: int| 0 <= k < v@.len() && v@[k] == y;
                        if k < i {
                            assert(before[k] == y);
                        } else {
                            assert(before[k + 1] == y);
                            if y == x {
                                assert(before[i as int] == x);
                            }
                        }
                    }
                    if before.contains(y) && y != x {
                        let k = choose|k: int| 0 <= k < before.len() && before[k] == y;
                        if k < i {
                            assert(v@[k] == y);
                        } else {
                            assert(k != i);
                            assert(v@[k - 1] == y);
                        }
                    }
                }
            }
            return;
        }
        i = i + 1;
    }
}

#[derive(Debug)]
pub struct Function {
    func_sym_id: SymbolID,
    table_id: SymbolID,
    entry: Option<BasicBlockID>,
    bbs: Vec<(BasicBlockID, BasicBlock)>,
}

impl Function {
    pub closed spec fn blocks(&self) -> Seq<(BasicBlockID, BasicBlock)> {
        self.bbs@
    }

    pub closed spec fn spec_entry(&self) -> Option<BasicBlockID> {
        self.entry
    }

    pub closed spec fn spec_symbol_id(&self) -> SymbolID {
        self.func_sym_id
    }

    pub closed spec fn spec_table_id(&self) -> SymbolID {
        self.table_id
    }

    /// The identifiers of the blocks, in the order they were added.
    pub open spec fn ids(&self) -> Seq<BasicBlockID> {
        ids_of(self.blocks())
    }

    pub open spec fn valid(&self, id: BasicBlockID) -> bool {
        self.ids().contains(id)
    }

    /// The block under `id`.
    pub open spec fn block(&self, id: BasicBlockID) -> BasicBlock {
        self.blocks()[self.ids().index_of(id)].1
    }

    /// Block identifiers are distinct and not nil; the entry is the first block (there is
    /// an entry exactly when there is a block); every block is well formed and its edges
    /// lead to blocks of the function.
    pub open spec fn wf(&self) -> bool {
        &&& self.ids().no_duplicates()
        &&& !self.ids().contains(NIL_ID)
        &&& (self.spec_entry() is Some <==> self.ids().len() > 0)
        &&& self.spec_entry() matches Some(e) ==> e == self.ids()[0]
        &&& forall|k: int|
            0 <= k < self.blocks().len() ==> #[trigger] self.blocks()[k].1.wf() && (forall|x|
                #[trigger] self.blocks()[k].1.outgoings@.contains(x) ==> self.valid(x)) && (forall|x|
                #[trigger] self.blocks()[k].1.incomings@.contains(x) ==> self.valid(x))
    }

    pub fn new(func_sym_id: SymbolID, table_id: SymbolID) -> (r: Function)
        ensures
            r.wf(),
            r.spec_symbol_id() == func_sym_id,
            r.spec_table_id() == table_id,
            r.spec_entry() is None,
            r.blocks().len() == 0,
    {
        let r = Function { func_sym_id, table_id, entry: None, bbs: Vec::new() };
        assert(r.ids() =~= Seq::<BasicBlockID>::empty());
        r
    }

    pub fn get_symbol_id(&self) -> (r: SymbolID)
        ensures
            r == self.spec_symbol_id(),
    {
        self.func_sym_id
    }

    pub fn get_table_id(&self) -> (r: SymbolID)
        ensures
            r == self.spec_table_id(),
    {
        self.table_id
    }

    /// Whether the function has a block (an extern function has none).
    pub fn has_entry(&self) -> (r: bool)
        ensures
            r == self.spec_entry() is Some,
    {
        self.entry.is_some()
    }

    fn index(&self, id: BasicBlockID) -> (r: Option<usize>)
        requires
            self.wf(),
        ensures
            r is None <==> !self.valid(id),
            r matches Some(i) ==> i < self.blocks().len() && self.blocks()[i as int].0 == id
                && self.ids().index_of(id) == i,
    {
        let mut i: usize = 0;
        while i < self.bbs.len()
            invariant
                i <= self.blocks().len(),
                self.wf(),
                forall|j: int| 0 <= j < i ==> self.blocks()[j].0 != id,
            decreases self.bbs.len() - i,
        {
            if self.bbs[i].0 == id {
                proof {
                    assert(self.ids()[i as int] == id);
                    lemma_index_of_unique(self.ids(), i as int);
                }
                return Some(i);
            }
            i = i + 1;
        }
        proof {
            if self.valid(id) {
                let j = choose|j: int| 0 <= j < self.ids().len() && self.ids()[j] == id;
                assert(self.blocks()[j].0 == id);
            }
        }
        None
    }

    fn used_ids(&self) -> (r: Vec<u128>)
        ensures
            r@ == self.ids(),
    {
        let mut v: Vec<u128> = Vec::new();
        let mut i: usize = 0;
        while i < self.bbs.len()
            invariant
                i <= self.blocks().len(),
                v@ == self.ids().subrange(0, i as int),
            decreases self.bbs.len() - i,
        {
            v.push(self.bbs[i].0);
            proof {
                assert(self.ids().subrange(0, i + 1) =~= self.ids().subrange(0, i as int).push(
                    self.blocks()[i as int].0,
                ));
            }
            i = i + 1;
        }
        assert(self.ids().subrange(0, self.blocks().len() as int) =~= self.ids());
        v
    }

    /// Adds a block under a new identifier (returned); the first block added is the
    /// entry.
    pub fn add_block(&mut self, block: BasicBlock) -> (r: BasicBlockID)
        requires
            old(self).wf(),
            block.wf(),
            forall|x| #[trigger] block.outgoings@.contains(x) ==> old(self).valid(x),
            forall|x| #[trigger] block.incomings@.contains(x) ==> old(self).valid(x),
        ensures
            final(self).wf(),
            !old(self).valid(r),
            r != NIL_ID,
            final(self).blocks() == old(self).blocks().push((r, block)),
            final(self).ids() == old(self).ids().push(r),
            final(self).spec_entry() == (if old(self).spec_entry() is None {
                Some(r)
            } else {
                old(self).spec_entry()
            }),
            final(self).spec_symbol_id() == old(self).spec_symbol_id(),
            final(self).spec_table_id() == old(self).spec_table_id(),
            final(self).block(r) == block,
            forall|k: BasicBlockID| #[trigger] old(self).valid(k) ==> final(self).block(k) == old(self).block(k),
    {
        let used = self.used_ids();
        let id = fresh_id(&used);
        let ghost before = self.bbs@;
        self.bbs.push((id, block));
        if self.entry.is_none() {
            self.entry = Some(id);
        }
        proof {
            assert(self.ids() =~= ids_of(before).push(id));
            assert forall|x: int, y: int|
                0 <= x < self.ids().len() && 0 <= y < self.ids().len() && x != y implies self.ids()[x]
                != self.ids()[y] by {
                if x < before.len() && y < before.len() {
                } else if x == before.len() {
                    assert(ids_of(before).contains(self.ids()[y]));
                } else {
                    assert(ids_of(before).contains(self.ids()[x]));
                }
            }
            assert(!self.ids().contains(NIL_ID)) by {
                if self.ids().contains(NIL_ID) {
                    let k = choose|k: int| 0 <= k < self.ids().len() && self.ids()[k] == NIL_ID;
                    if k < before.len() {
                        assert(ids_of(before)[k] == NIL_ID);
                    }
                }
            }
            lemma_index_of_unique(self.ids(), before.len() as int);
            assert forall|k: BasicBlockID| #[trigger] old(self).valid(k) implies self.block(k) == old(self).block(k) by {
                let j = old(self).ids().index_of(k);
                assert(0 <= j < old(self).ids().len() && old(self).ids()[j] == k);
                lemma_index_of_unique(old(self).ids(), j);
                assert(self.ids()[j] == k);
                lemma_index_of_unique(self.ids(), j);
            }
            assert forall|k: int| 0 <= k < self.blocks().len() implies #[trigger] self.blocks()[k].1.wf()
                && (forall|x| #[trigger] self.blocks()[k].1.outgoings@.contains(x) ==> self.valid(x))
                && (forall|x| #[trigger] self.blocks()[k].1.incomings@.contains(x) ==> self.valid(
                x,
            )) by {
                if k < before.len() {
                    assert(self.blocks()[k] == old(self).blocks()[k]);
                    assert(old(self).blocks()[k].1.wf());
                } else {
                    assert(self.blocks()[k].1 == block);
                }
                assert forall|x| #[trigger] self.blocks()[k].1.outgoings@.contains(x) implies self.valid(
                    x,
                ) by {
                    if k < before.len() {
                        assert(old(self).blocks()[k].1.outgoings@.contains(x));
                    }
                    assert(old(self).valid(x));
                    let j = choose|j: int| 0 <= j < old(self).ids().len() && old(self).ids()[j] == x;
                    assert(self.ids()[j] == x);
                }
                assert forall|x| #[trigger] self.blocks()[k].1.incomings@.contains(x) implies self.valid(
                    x,
                ) by {
                    if k < before.len() {
                        assert(old(self).blocks()[k].1.incomings@.contains(x));
                    }
                    assert(old(self).valid(x));
                    let j = choose|j: int| 0 <= j < old(self).ids().len() && old(self).ids()[j] == x;
                    assert(self.ids()[j] == x);
                }
            }
        }
        id
    }

    pub fn get_block(&self, id: BasicBlockID) -> (r: Option<&BasicBlock>)
        requires
            self.wf(),
        ensures
            r is Some <==> self.valid(id),
            r matches Some(b) ==> *b == self.block(id),
    {
        match self.index(id) {
            Some(i) => Some(&self.bbs[i].1),
            None => None,
        }
    }

    /// The blocks, in the order they were added.
    pub fn get_blocks(&self) -> (r: &Vec<(BasicBlockID, BasicBlock)>)
        ensures
            r@ == self.blocks(),
    {
        &self.bbs
    }

    pub fn get_entry_block(&self) -> (r: BasicBlockID)
        requires
            self.spec_entry() is Some,
        ensures
            Some(r) == self.spec_entry(),
    {
        match self.entry {
            Some(e) => e,
            None => {
                assert(false);
                NIL_ID
            },
        }
    }

    pub fn is_valid_block(&self, block: BasicBlockID) -> (r: bool)
        requires
            self.wf(),
        ensures
            r == self.valid(block),
    {
        self.index(block).is_some()
    }
}


impl Function {
    /// Replacing the block at position `i` by a well-formed block whose edges lead to
    /// blocks of the function keeps the function well formed and changes only that block.
    proof fn lemma_update_block(old_f: Function, new_f: Function, i: int, b: BasicBlock)
        requires
            old_f.wf(),
            0 <= i < old_f.blocks().len(),
            new_f.blocks() == old_f.blocks().update(i, (old_f.blocks()[i].0, b)),
            new_f.spec_entry() == old_f.spec_entry(),
            b.wf(),
            forall|x| #[trigger] b.outgoings@.contains(x) ==> old_f.valid(x),
            forall|x| #[trigger] b.incomings@.contains(x) ==> old_f.valid(x),
        ensures
            new_f.wf(),
            new_f.ids() == old_f.ids(),
            new_f.block(old_f.blocks()[i].0) == b,
            forall|k: BasicBlockID| #[trigger]
                old_f.valid(k) && k != old_f.blocks()[i].0 ==> new_f.block(k) == old_f.block(k),
    {
        assert(new_f.ids() =~= old_f.ids());
        lemma_index_of_unique(old_f.ids(), i);
        assert forall|k: BasicBlockID| #[trigger]
            old_f.valid(k) && k != old_f.blocks()[i].0 implies new_f.block(k) == old_f.block(k) by {
            let j = old_f.ids().index_of(k);
            assert(0 <= j < old_f.ids().len() && old_f.ids()[j] == k);
        }
        assert forall|k: int| 0 <= k < new_f.blocks().len() implies #[trigger] new_f.blocks()[k].1.wf()
            && (forall|x| #[trigger] new_f.blocks()[k].1.outgoings@.contains(x) ==> new_f.valid(x))
            && (forall|x| #[trigger] new_f.blocks()[k].1.incomings@.contains(x) ==> new_f.valid(x)) by {
            if k != i {
                assert(new_f.blocks()[k] == old_f.blocks()[k]);
                assert(old_f.blocks()[k].1.wf());
                assert forall|x| #[trigger] new_f.blocks()[k].1.outgoings@.contains(x) implies new_f.valid(
                    x,
                ) by {
                    assert(old_f.blocks()[k].1.outgoings@.contains(x));
                }
                assert forall|x| #[trigger] new_f.blocks()[k].1.incomings@.contains(x) implies new_f.valid(
                    x,
                ) by {
                    assert(old_f.blocks()[k].1.incomings@.contains(x));
                }
            }
        }
    }

    /// Inserts `inst` into block `bb` (see `BasicBlock::insert_inst`); `None` when there is
    /// no such block or no such instruction to insert before.
    pub fn insert_inst_in(&mut self, bb: BasicBlockID, inst: crate::cfg::inst::Inst, before_inst: Option<
        InstID,
    >) -> (r: Option<InstID>)
        requires
            old(self).wf(),
        ensures
            final(self).wf(),
            final(self).ids() == old(self).ids(),
            final(self).spec_entry() == old(self).spec_entry(),
            final(self).spec_symbol_id() == old(self).spec_symbol_id(),
            final(self).spec_table_id() == old(self).spec_table_id(),
            !old(self).valid(bb) ==> r is None,
            forall|k: BasicBlockID| #[trigger]
                old(self).valid(k) && k != bb ==> final(self).block(k) == old(self).block(k),
            old(self).valid(bb) ==> final(self).block(bb).incomings == old(self).block(bb).incomings
                && final(self).block(bb).outgoings == old(self).block(bb).outgoings
                && final(self).block(bb).desc == old(self).block(bb).desc,
            old(self).valid(bb) && before_inst is None ==> (r matches Some(id) && final(self).block(
                bb,
            ).insts@ == old(self).block(bb).insts@.push(crate::cfg::inst::TaggedInst { id, inst })
                && id != NIL_ID),
            old(self).valid(bb) && (before_inst matches Some(bi) && inst_ids(
                old(self).block(bb).insts@,
            ).contains(bi)) ==> (r matches Some(id) && id != NIL_ID && !inst_ids(
                old(self).block(bb).insts@,
            ).contains(id) && exists|p: int|
                0 <= p < old(self).block(bb).insts@.len() && old(self).block(bb).insts@[p].id
                    == before_inst->Some_0 && final(self).block(bb).insts@ == old(self).block(
                    bb,
                ).insts@.insert(p, crate::cfg::inst::TaggedInst { id, inst })),
            old(self).valid(bb) && (before_inst matches Some(bi) && !inst_ids(
                old(self).block(bb).insts@,
            ).contains(bi)) ==> r is None,
            r is None ==> final(self).blocks() == old(self).blocks(),
            r matches Some(id) ==> inst_ids(final(self).block(bb).insts@).contains(id),
    {
        let i = match self.index(bb) {
            Some(i) => i,
            None => {
                return None;
            },
        };
        match before_inst {
            Some(bi) => {
                if self.bbs[i].1.position(bi).is_none() {
                    return None;
                }
            },
            None => {},
        }
        let ghost old_f = *self;
        let (id, mut b) = self.bbs.remove(i);
        proof {
            assert(b == old_f.blocks()[i as int].1);
            assert(old_f.blocks()[i as int].1.wf());
        }
        let r = b.insert_inst(inst, before_inst);
        self.bbs.insert(i, (id, b));
        proof {
            assert(self.blocks() =~= old_f.blocks().update(i as int, (id, b)));
            assert(old_f.blocks()[i as int].1.wf());
            assert forall|x| #[trigger] b.outgoings@.contains(x) implies old_f.valid(x) by {
                assert(old_f.blocks()[i as int].1.outgoings@.contains(x));
            }
            assert forall|x| #[trigger] b.incomings@.contains(x) implies old_f.valid(x) by {
                assert(old_f.blocks()[i as int].1.incomings@.contains(x));
            }
            Function::lemma_update_block(old_f, *self, i as int, b);
            assert(r is Some);
            if r is Some {
                let id2 = r->Some_0;
                if before_inst is None {
                    assert(b.insts@.last().id == id2);
                    assert(inst_ids(b.insts@)[b.insts@.len() - 1] == id2);
                } else {
                    let p = choose|p: int|
                        0 <= p < old_f.block(bb).insts@.len() && old_f.block(bb).insts@[p].id
                            == before_inst->Some_0 && b.insts@ == old_f.block(bb).insts@.insert(
                            p,
                            crate::cfg::inst::TaggedInst { id: id2, inst },
                        );
                    assert(inst_ids(b.insts@)[p] == id2);
                }
            }
        }
        r
    }

    /// Adds the edge `from` to `to`: `to` becomes a successor of `from`, `from` a
    /// predecessor of `to`.
    pub fn link_block(&mut self, from: BasicBlockID, to: BasicBlockID)
        requires
            old(self).wf(),
            old(self).valid(from),
            old(self).valid(to),
        ensures
            final(self).wf(),
            final(self).ids() == old(self).ids(),
            final(self).spec_entry() == old(self).spec_entry(),
            final(self).spec_symbol_id() == old(self).spec_symbol_id(),
            final(self).spec_table_id() == old(self).spec_table_id(),
            forall|y| #[trigger] final(self).block(from).outgoings@.contains(y) <==> old(self).block(
                from,
            ).outgoings@.contains(y) || y == to,
            forall|y| #[trigger] final(self).block(to).incomings@.contains(y) <==> old(self).block(
                to,
            ).incomings@.contains(y) || y == from,
            from != to ==> final(self).block(from).incomings == old(self).block(from).incomings,
            from != to ==> final(self).block(to).outgoings == old(self).block(to).outgoings,
            forall|k: BasicBlockID| #[trigger]
                old(self).valid(k) ==> final(self).block(k).insts == old(self).block(k).insts
                    && final(self).block(k).desc == old(self).block(k).desc,
            forall|k: BasicBlockID| #[trigger]
                old(self).valid(k) && k != from && k != to ==> final(self).block(k) == old(self).block(k),
    {
        let i = match self.index(from) {
            Some(i) => i,
            None => {
                assert(false);
                return ;
            },
        };
        let ghost f0 = *self;
        let (id, mut b) = self.bbs.remove(i);
        proof {
            assert(b == f0.blocks()[i as int].1);
            assert(f0.blocks()[i as int].1.wf());
        }
        push_unique(&mut b.outgoings, to);
        self.bbs.insert(i, (id, b));
        proof {
            assert(self.blocks() =~= f0.blocks().update(i as int, (id, b)));
            assert(f0.blocks()[i as int].1.wf());
            assert forall|x| #[trigger] b.outgoings@.contains(x) implies f0.valid(x) by {
                if x != to {
                    assert(f0.blocks()[i as int].1.outgoings@.contains(x));
                }
            }
            assert forall|x| #[trigger] b.incomings@.contains(x) implies f0.valid(x) by {
                assert(f0.blocks()[i as int].1.incomings@.contains(x));
            }
            Function::lemma_update_block(f0, *self, i as int, b);
        }
        let j = match self.index(to) {
            Some(j) => j,
            None => {
                assert(false);
                return ;
            },
        };
        let ghost f1 = *self;
        let (id2, mut b2) = self.bbs.remove(j);
        proof {
            assert(b2 == f1.blocks()[j as int].1);
            assert(f1.blocks()[j as int].1.wf());
        }
        push_unique(&mut b2.incomings, from);
        self.bbs.insert(j, (id2, b2));
        proof {
            assert(self.blocks() =~= f1.blocks().update(j as int, (id2, b2)));
            assert(f1.blocks()[j as int].1.wf());
            assert forall|x| #[trigger] b2.outgoings@.contains(x) implies f1.valid(x) by {
                assert(f1.blocks()[j as int].1.outgoings@.contains(x));
            }
            assert forall|x| #[trigger] b2.incomings@.contains(x) implies f1.valid(x) by {
                if x != from {
                    assert(f1.blocks()[j as int].1.incomings@.contains(x));
                }
            }
            Function::lemma_update_block(f1, *self, j as int, b2);
        }
    }

    /// Removes every edge out of `bb`: its successors forget it as a predecessor.
    pub fn unlink_block_outgoings(&mut self, bb: BasicBlockID)
        requires
            old(self).wf(),
            old(self).valid(bb),
        ensures
            final(self).wf(),
            final(self).ids() == old(self).ids(),
            final(self).spec_entry() == old(self).spec_entry(),
            final(self).block(bb).outgoings@.len() == 0,
            forall|k: BasicBlockID, y: BasicBlockID|
                old(self).valid(k) ==> (#[trigger] final(self).block(k).incomings@.contains(y) <==> old(self).block(k).incomings@.contains(y) && !(y == bb && old(self).block(
                    bb,
                ).outgoings@.contains(k))),
            forall|k: BasicBlockID| #[trigger]
                old(self).valid(k) ==> final(self).block(k).insts == old(self).block(k).insts,
    {
        let i = match self.index(bb) {
            Some(i) => i,
            None => {
                assert(false);
                return ;
            },
        };
        let ghost f0 = *self;
        let (id, mut b) = self.bbs.remove(i);
        let mut outs: Vec<BasicBlockID> = Vec::new();
        std::mem::swap(&mut outs, &mut b.outgoings);
        self.bbs.insert(i, (id, b));
        proof {
            assert(self.blocks() =~= f0.blocks().update(i as int, (id, b)));
            assert(f0.blocks()[i as int].1.wf());
            assert(b.outgoings@ =~= Seq::<BasicBlockID>::empty());
            assert forall|x| #[trigger] b.incomings@.contains(x) implies f0.valid(x) by {
                assert(f0.blocks()[i as int].1.incomings@.contains(x));
            }
            Function::lemma_update_block(f0, *self, i as int, b);
            assert forall|x| #[trigger] outs@.contains(x) implies f0.valid(x) by {
                assert(f0.blocks()[i as int].1.outgoings@.contains(x));
            }
        }
        let mut n: usize = 0;
        while n < outs.len()
            invariant
                n <= outs@.len(),
                outs@ == f0.block(bb).outgoings@,
                outs@.no_duplicates(),
                self.wf(),
                self.ids() == f0.ids(),
                self.spec_entry() == f0.spec_entry(),
                f0.valid(bb),
                self.block(bb).outgoings@.len() == 0,
                forall|x| #[trigger] outs@.contains(x) ==> f0.valid(x),
                forall|k: BasicBlockID, y: BasicBlockID|
                    f0.valid(k) ==> (#[trigger] self.block(k).incomings@.contains(y) <==> f0.block(
                        k,
                    ).incomings@.contains(y) && !(y == bb && outs@.subrange(0, n as int).contains(k))),
                forall|k: BasicBlockID| #[trigger] f0.valid(k) ==> self.block(k).insts == f0.block(k).insts,
            decreases outs.len() - n,
        {
            let o = outs[n];
            proof {
                assert(outs@.contains(o));
            }
            let j = match self.index(o) {
                Some(j) => j,
                None => {
                    assert(false);
                    return ;
                },
            };
            let ghost f1 = *self;
            let (id2, mut b2) = self.bbs.remove(j);
            proof {
                assert(b2 == f1.blocks()[j as int].1);
                assert(f1.blocks()[j as int].1.wf());
            }
            remove_value(&mut b2.incomings, bb);
            self.bbs.insert(j, (id2, b2));
            proof {
                assert(self.blocks() =~= f1.blocks().update(j as int, (id2, b2)));
                assert(f1.blocks()[j as int].1.wf());
                assert forall|x| #[trigger] b2.outgoings@.contains(x) implies f1.valid(x) by {
                    assert(f1.blocks()[j as int].1.outgoings@.contains(x));
                }
                assert forall|x| #[trigger] b2.incomings@.contains(x) implies f1.valid(x) by {
                    assert(f1.blocks()[j as int].1.incomings@.contains(x));
                }
                Function::lemma_update_block(f1, *self, j as int, b2);
                assert(outs@.subrange(0, n + 1) =~= outs@.subrange(0, n as int).push(o));
                assert forall|k: BasicBlockID, y: BasicBlockID| f0.valid(k) implies (
                #[trigger] self.block(k).incomings@.contains(y) <==> f0.block(k).incomings@.contains(y)
                    && !(y == bb && outs@.subrange(0, n + 1).contains(k))) by {
                    let s0 = outs@.subrange(0, n as int);
                    let s1 = outs@.subrange(0, n + 1);
                    assert(s1.contains(k) <==> s0.contains(k) || k == o) by {
                        if s1.contains(k) {
                            let q = choose|q: int| 0 <= q < s1.len() && s1[q] == k;
                            if q < n {
                                assert(s0[q] == k);
                            }
                        }
                        if s0.contains(k) {
                            let q = choose|q: int| 0 <= q < s0.len() && s0[q] == k;
                            assert(s1[q] == k);
                        }
                        if k == o {
                            assert(s1[n as int] == o);
                        }
                    }
                    assert(f1.block(k).incomings@.contains(y) <==> f0.block(k).incomings@.contains(y)
                        && !(y == bb && s0.contains(k)));
                    if k == o {
                        assert(f1.blocks()[j as int].0 == o);
                        assert(self.block(o) == b2);
                        assert(f1.block(o) == f1.blocks()[j as int].1);
                        if s0.contains(k) {
                            let q = choose|q: int| 0 <= q < s0.len() && s0[q] == k;
                            assert(outs@[q] == outs@[n as int]);
                        }
                    } else {
                        assert(self.block(k) == f1.block(k));
                    }
                }
                if o == bb {
                    assert(self.block(bb).outgoings == f1.block(bb).outgoings);
                }
                assert forall|k: BasicBlockID| #[trigger] f0.valid(k) implies self.block(k).insts
                    == f0.block(k).insts by {
                    if k != o {
                        assert(self.block(k) == f1.block(k));
                    }
                }
            }
            n = n + 1;
        }
        proof {
            assert(outs@.subrange(0, outs@.len() as int) =~= outs@);
        }
    }
}

/// `d` followed by `_latter`.
fn latter_desc(d: &String) -> (r: String)
    ensures
        r@ == d@ + seq!['_', 'l', 'a', 't', 't', 'e', 'r'],
{
    let mut s = d.clone();
    crate::text::push_char(&mut s, '_');
    crate::text::push_char(&mut s, 'l');
    crate::text::push_char(&mut s, 'a');
    crate::text::push_char(&mut s, 't');
    crate::text::push_char(&mut s, 't');
    crate::text::push_char(&mut s, 'e');
    crate::text::push_char(&mut s, 'r');
    assert(s@ =~= d@ + seq!['_', 'l', 'a', 't', 't', 'e', 'r']);
    s
}

impl Function {
    /// Splits block `bb` after its instruction `inst`: the instructions up to `inst` stay,
    /// with the incoming edges; the rest go to a new block (returned second), with the
    /// outgoing edges and the description with `_latter` appended. The successors list the
    /// new block as their predecessor in place of `bb`. `None` when there is no such block
    /// or instruction.
    pub fn split_block_at(&mut self, bb: BasicBlockID, inst: InstID) -> (r: Option<
        (BasicBlockID, BasicBlockID),
    >)
        requires
            old(self).wf(),
        ensures
            final(self).wf(),
            final(self).spec_symbol_id() == old(self).spec_symbol_id(),
            final(self).spec_table_id() == old(self).spec_table_id(),
            r is None <==> !old(self).valid(bb) || !inst_ids(old(self).block(bb).insts@).contains(
                inst,
            ),
            r is None ==> final(self).blocks() == old(self).blocks() && final(self).spec_entry()
                == old(self).spec_entry(),
            r matches Some((a, l)) ==> a == bb && !old(self).valid(l) && final(self).ids() == old(self).ids().push(l) && final(self).spec_entry() == old(self).spec_entry() && exists|p: int|
                0 <= p < old(self).block(bb).insts@.len() && old(self).block(bb).insts@[p].id == inst
                    && final(self).block(bb).insts@ == old(self).block(bb).insts@.subrange(0, p + 1)
                    && final(self).block(l).insts@ == old(self).block(bb).insts@.subrange(
                    p + 1,
                    old(self).block(bb).insts@.len() as int,
                ),
            r matches Some((a, l)) ==> final(self).block(l).outgoings@ == old(self).block(
                bb,
            ).outgoings@ && final(self).block(bb).outgoings@.len() == 0 && final(self).block(
                l,
            ).incomings@.len() == 0,
            r matches Some((a, l)) ==> forall|k: BasicBlockID, y: BasicBlockID|
                old(self).valid(k) ==> (#[trigger] final(self).block(k).incomings@.contains(y) <==> (
                old(self).block(k).incomings@.contains(y) && !(y == bb && old(self).block(
                    bb,
                ).outgoings@.contains(k))) || (y == l && old(self).block(bb).outgoings@.contains(
                    k,
                ))),
            r matches Some((a, l)) ==> forall|k: BasicBlockID| #[trigger]
                old(self).valid(k) && k != bb ==> final(self).block(k).insts == old(self).block(
                    k,
                ).insts && final(self).block(k).outgoings == old(self).block(k).outgoings
                    && final(self).block(k).desc == old(self).block(k).desc,
            r matches Some((a, l)) ==> final(self).block(bb).desc == old(self).block(bb).desc
                && match old(self).block(bb).desc {
                Some(d) => final(self).block(l).desc matches Some(nd) && nd@ == d@ + seq![
                    '_',
                    'l',
                    'a',
                    't',
                    't',
                    'e',
                    'r',
                ],
                None => final(self).block(l).desc is None,
            },
    {
        let i = match self.index(bb) {
            Some(i) => i,
            None => {
                return None;
            },
        };
        let p = match self.bbs[i].1.position(inst) {
            Some(p) => p,
            None => {
                return None;
            },
        };
        let ghost f0 = *self;
        let ghost old_insts = f0.block(bb).insts@;
        let (id, mut b) = self.bbs.remove(i);
        proof {
            assert(b == f0.blocks()[i as int].1);
            assert(f0.blocks()[i as int].1.wf());
            assert(p < b.insts@.len());
            assert(f0.block(bb) == b);
            assert(old_insts[p as int].id == inst);
        }
        let n_insts = b.insts.len();
        let latter_insts = b.insts.split_off(p + 1);
        let mut latter_out: Vec<BasicBlockID> = Vec::new();
        std::mem::swap(&mut latter_out, &mut b.outgoings);
        let desc = match &b.desc {
            Some(d) => Some(latter_desc(d)),
            None => None,
        };
        let ghost bg = b;
        self.bbs.insert(i, (id, b));
        proof {
            assert(self.blocks() =~= f0.blocks().update(i as int, (id, b)));
            assert(f0.blocks()[i as int].1.wf());
            assert(b.insts@ =~= old_insts.subrange(0, p + 1));
            assert(inst_ids(b.insts@) =~= inst_ids(old_insts).subrange(0, p + 1));
            assert(b.outgoings@ =~= Seq::<BasicBlockID>::empty());
            assert forall|x| #[trigger] b.incomings@.contains(x) implies f0.valid(x) by {
                assert(f0.blocks()[i as int].1.incomings@.contains(x));
            }
            assert(!inst_ids(b.insts@).contains(NIL_ID)) by {
                if inst_ids(b.insts@).contains(NIL_ID) {
                    let k = choose|k: int| 0 <= k < inst_ids(b.insts@).len() && inst_ids(b.insts@)[k] == NIL_ID;
                    assert(inst_ids(old_insts)[k] == NIL_ID);
                }
            }
            Function::lemma_update_block(f0, *self, i as int, b);
        }
        let ghost f1 = *self;
        let latter = BasicBlock { desc, incomings: Vec::new(), outgoings: latter_out, insts: latter_insts };
        proof {
            assert(latter.insts@ =~= old_insts.subrange(p + 1, old_insts.len() as int));
            assert(inst_ids(latter.insts@) =~= inst_ids(old_insts).subrange(p + 1, old_insts.len() as int));
            assert(latter.incomings@ =~= Seq::<BasicBlockID>::empty());
            assert(!inst_ids(latter.insts@).contains(NIL_ID)) by {
                if inst_ids(latter.insts@).contains(NIL_ID) {
                    let k = choose|k: int| 0 <= k < inst_ids(latter.insts@).len() && inst_ids(latter.insts@)[k] == NIL_ID;
                    assert(inst_ids(old_insts)[p + 1 + k] == NIL_ID);
                }
            }
            assert forall|x| #[trigger] latter.outgoings@.contains(x) implies self.valid(x) by {
                assert(f0.blocks()[i as int].1.outgoings@.contains(x));
            }
        }
        let ghost lg = latter;
        let mut outs: Vec<BasicBlockID> = Vec::new();
        let mut c: usize = 0;
        while c < latter.outgoings.len()
            invariant
                c <= latter.outgoings@.len(),
                outs@ == latter.outgoings@.subrange(0, c as int),
            decreases latter.outgoings.len() - c,
        {
            outs.push(latter.outgoings[c]);
            c = c + 1;
        }
        proof {
            assert(outs@ =~= latter.outgoings@);
        }
        let l = self.add_block(latter);
        proof {
            assert(f1.block(bb) == bg);
            assert(f1.ids() == f0.ids());
            assert(f1.valid(bb));
            assert(self.block(bb) == f1.block(bb));
            assert(self.block(l) == lg);
            assert(0 <= p < old_insts.len() && old_insts[p as int].id == inst && self.block(bb).insts@
                == old_insts.subrange(0, p + 1) && self.block(l).insts@ == old_insts.subrange(
                p + 1,
                old_insts.len() as int,
            ));
            assert forall|k: BasicBlockID| #[trigger] f0.valid(k) && k != bb implies self.block(k)
                == f0.block(k) by {
                assert(f1.valid(k));
                assert(f1.block(k) == f0.block(k));
            }
        }
        let ghost f2 = *self;
        proof {
            assert(f2.ids()[f1.ids().len() as int] == l);
            assert(f2.valid(l));
            let ib = f1.ids().index_of(bb);
            assert(f2.ids()[ib] == bb);
            assert(f2.valid(bb));
            assert forall|x| #[trigger] outs@.contains(x) implies f2.valid(x) by {
                assert(f0.valid(x));
                let ix = f0.ids().index_of(x);
                assert(f1.ids() == f0.ids());
                assert(f2.ids()[ix] == x);
            }
        }
        let mut n: usize = 0;
        while n < outs.len()
            invariant
                n <= outs@.len(),
                outs@ == f0.block(bb).outgoings@,
                outs@.no_duplicates(),
                f2.wf(),
                f2.valid(l),
                f2.valid(bb),
                l != bb,
                !outs@.contains(l),
                forall|x| #[trigger] outs@.contains(x) ==> f2.valid(x),
                self.wf(),
                self.ids() == f2.ids(),
                self.spec_entry() == f2.spec_entry(),
                self.spec_symbol_id() == f2.spec_symbol_id(),
                self.spec_table_id() == f2.spec_table_id(),
                forall|k: BasicBlockID| #[trigger]
                    f2.valid(k) ==> self.block(k).insts == f2.block(k).insts && self.block(k).outgoings
                        == f2.block(k).outgoings && self.block(k).desc == f2.block(k).desc,
                forall|k: BasicBlockID, y: BasicBlockID|
                    f2.valid(k) ==> (#[trigger] self.block(k).incomings@.contains(y) <==> (f2.block(
                        k,
                    ).incomings@.contains(y) && !(y == bb && outs@.subrange(0, n as int).contains(k)))
                        || (y == l && outs@.subrange(0, n as int).contains(k))),
            decreases outs.len() - n,
        {
            let o = outs[n];
            proof {
                assert(outs@.contains(o));
            }
            let ghost s0 = *self;
            self.replace_incoming(o, bb, l);
            proof {
                assert forall|k: BasicBlockID| #[trigger] f2.valid(k) implies self.block(k).insts
                    == f2.block(k).insts && self.block(k).outgoings == f2.block(k).outgoings
                    && self.block(k).desc == f2.block(k).desc by {
                    assert(s0.valid(k));
                    assert(s0.block(k).insts == f2.block(k).insts);
                }
                assert forall|k: BasicBlockID| #[trigger]
                    outs@.subrange(0, n + 1).contains(k) <==> outs@.subrange(0, n as int).contains(k)
                        || k == o by {
                    let a = outs@.subrange(0, n + 1);
                    let b = outs@.subrange(0, n as int);
                    assert(a =~= b.push(o));
                    if a.contains(k) {
                        let j = choose|j: int| 0 <= j < a.len() && a[j] == k;
                        if j < n {
                            assert(b[j] == k);
                        }
                    }
                    if b.contains(k) {
                        let j = choose|j: int| 0 <= j < b.len() && b[j] == k;
                        assert(a[j] == k);
                    }
                    if k == o {
                        assert(a[n as int] == k);
                    }
                }
                assert forall|k: BasicBlockID, y: BasicBlockID|
                    f2.valid(k) implies (#[trigger] self.block(k).incomings@.contains(y) <==> (f2.block(
                        k,
                    ).incomings@.contains(y) && !(y == bb && outs@.subrange(0, n + 1).contains(k)))
                        || (y == l && outs@.subrange(0, n + 1).contains(k))) by {
                    assert(outs@.subrange(0, n + 1) =~= outs@.subrange(0, n as int).push(o));
                    assert(s0.valid(k));
                    if k != o {
                        assert(s0.block(k) == self.block(k));
                    }
                    assert(!outs@.subrange(0, n as int).contains(o)) by {
                        if outs@.subrange(0, n as int).contains(o) {
                            let j = choose|j: int| 0 <= j < outs@.subrange(0, n as int).len() && outs@.subrange(0, n as int)[j] == o;
                            assert(outs@[j] == outs@.subrange(0, n as int)[j]);
                            assert(outs@[j] == outs@[n as int]);
                        }
                    }
                }
            }
            n = n + 1;
        }
        proof {
            assert(outs@.subrange(0, n as int) =~= outs@);
            assert forall|k: BasicBlockID| #[trigger] f0.valid(k) implies f2.valid(k) by {
                let ix = f0.ids().index_of(k);
                assert(f2.ids()[ix] == k);
            }
            assert forall|k: BasicBlockID| #[trigger] f0.valid(k) implies f2.block(k).incomings
                == f0.block(k).incomings by {
                let ix = f0.ids().index_of(k);
                assert(f2.ids()[ix] == k);
                if k != bb {
                    assert(f1.block(k) == f0.block(k));
                }
            }
            assert(self.block(l).outgoings == f2.block(l).outgoings);
            assert(self.block(bb).outgoings == f2.block(bb).outgoings);
            assert(f2.block(l).incomings@.len() == 0);
            if self.block(l).incomings@.len() > 0 {
                let y = self.block(l).incomings@[0];
                assert(self.block(l).incomings@.contains(y));
            }
        }
        Some((bb, l))
    }

    /// In the predecessors of block `x`, `from` is replaced by `to`.
    fn replace_incoming(&mut self, x: BasicBlockID, from: BasicBlockID, to: BasicBlockID)
        requires
            old(self).wf(),
            old(self).valid(x),
            old(self).valid(to),
        ensures
            final(self).wf(),
            final(self).ids() == old(self).ids(),
            final(self).spec_entry() == old(self).spec_entry(),
            final(self).spec_symbol_id() == old(self).spec_symbol_id(),
            final(self).spec_table_id() == old(self).spec_table_id(),
            forall|y: BasicBlockID| #[trigger] final(self).block(x).incomings@.contains(y) <==> (old(
                self,
            ).block(x).incomings@.contains(y) && y != from) || y == to,
            final(self).block(x).insts == old(self).block(x).insts,
            final(self).block(x).outgoings == old(self).block(x).outgoings,
            final(self).block(x).desc == old(self).block(x).desc,
            forall|k: BasicBlockID| #[trigger]
                old(self).valid(k) && k != x ==> final(self).block(k) == old(self).block(k),
    {
        let j = match self.index(x) {
            Some(j) => j,
            None => {
                assert(false);
                return ;
            },
        };
        let ghost f0 = *self;
        let (id, mut b) = self.bbs.remove(j);
        proof {
            assert(b == f0.blocks()[j as int].1);
            assert(f0.blocks()[j as int].1.wf());
        }
        remove_value(&mut b.incomings, from);
        push_unique(&mut b.incomings, to);
        self.bbs.insert(j, (id, b));
        proof {
            assert(self.blocks() =~= f0.blocks().update(j as int, (id, b)));
            assert forall|y| #[trigger] b.outgoings@.contains(y) implies f0.valid(y) by {
                assert(f0.blocks()[j as int].1.outgoings@.contains(y));
            }
            assert forall|y| #[trigger] b.incomings@.contains(y) implies f0.valid(y) by {
                if y != to {
                    assert(f0.blocks()[j as int].1.incomings@.contains(y));
                }
            }
            Function::lemma_update_block(f0, *self, j as int, b);
        }
    }
}

} // verus!
