//! Basic blocks: a list of instructions, and the blocks that branch in and out.
use vstd::prelude::*;

use crate::cfg::inst::{Inst, TaggedInst, is_terminator};
use crate::cfg::value::{BasicBlockID, InstID};
use crate::ids::{NIL_ID, fresh_id};

verus! {

#[derive(Debug)]
pub struct BasicBlock {
    pub desc: Option<String>,
    pub incomings: Vec<BasicBlockID>,
    pub outgoings: Vec<BasicBlockID>,
    pub insts: Vec<TaggedInst>,
}

/// The identifiers of a list of instructions.
pub open spec fn inst_ids(s: Seq<TaggedInst>) -> Seq<InstID> {
    s.map_values(|t: TaggedInst| t.id)
}

impl BasicBlock {
    /// Instruction identifiers are distinct and not nil; no block is listed twice as a
    /// predecessor or a successor.
    pub open spec fn wf(&self) -> bool {
        &&& inst_ids(self.insts@).no_duplicates()
        &&& !inst_ids(self.insts@).contains(NIL_ID)
        &&& self.incomings@.no_duplicates()
        &&& self.outgoings@.no_duplicates()
    }

    pub fn new(desc: Option<String>) -> (r: BasicBlock)
        ensures
            r.wf(),
            r.desc == desc,
            r.insts@.len() == 0,
            r.incomings@.len() == 0,
            r.outgoings@.len() == 0,
    {
        let r = BasicBlock { desc, incomings: Vec::new(), outgoings: Vec::new(), insts: Vec::new() };
        assert(inst_ids(r.insts@) =~= Seq::<InstID>::empty());
        r
    }

    /// The position of the instruction `id`.
    pub fn position(&self, id: InstID) -> (r: Option<usize>)
        ensures
            r is None <==> !inst_ids(self.insts@).contains(id),
            r matches Some(i) ==> i < self.insts@.len() && self.insts@[i as int].id == id,
    {
        let mut i: usize = 0;
        while i < self.insts.len()
            invariant
                i <= self.insts@.len(),
                forall|j: int| 0 <= j < i ==> self.insts@[j].id != id,
            decreases self.insts.len() - i,
        {
            if self.insts[i].id == id {
                assert(inst_ids(self.insts@)[i as int] == id);
                return Some(i);
            }
            i = i + 1;
        }
        proof {
            if inst_ids(self.insts@).contains(id) {
                let j = choose|j: int| 0 <= j < inst_ids(self.insts@).len() && inst_ids(self.insts@)[j] == id;
                assert(self.insts@[j].id == id);
            }
        }
        None
    }

    fn used_ids(&self) -> (r: Vec<u128>)
        ensures
            r@ == inst_ids(self.insts@),
    {
        let mut v: Vec<u128> = Vec::new();
        let mut i: usize = 0;
        while i < self.insts.len()
            invariant
                i <= self.insts@.len(),
                v@ == inst_ids(self.insts@).subrange(0, i as int),
            decreases self.insts.len() - i,
        {
            v.push(self.insts[i].id);
            proof {
                assert(inst_ids(self.insts@).subrange(0, i + 1) =~= inst_ids(self.insts@).subrange(
                    0,
                    i as int,
                ).push(self.insts@[i as int].id));
            }
            i = i + 1;
        }
        assert(inst_ids(self.insts@).subrange(0, self.insts@.len() as int) =~= inst_ids(self.insts@));
        v
    }

    /// Inserts `inst` before the instruction `before_inst`, or at the end when there is
    /// none, under a new identifier (returned). `None`, and no change, when
    /// `before_inst` is not in the block. Terminators are not treated specially here.
    pub fn insert_inst(&mut self, inst: Inst, before_inst: Option<InstID>) -> (r: Option<InstID>)
        requires
            old(self).wf(),
        ensures
            final(self).wf(),
            final(self).desc == old(self).desc,
            final(self).incomings == old(self).incomings,
            final(self).outgoings == old(self).outgoings,
            before_inst is None ==> (r matches Some(id) && final(self).insts@ == old(self).insts@.push(
                TaggedInst { id, inst },
            ) && !inst_ids(old(self).insts@).contains(id) && id != NIL_ID),
            before_inst matches Some(b) ==> (!inst_ids(old(self).insts@).contains(b) ==> r is None
                && final(self).insts@ == old(self).insts@),
            before_inst matches Some(b) ==> (inst_ids(old(self).insts@).contains(b) ==> (r matches Some(
                id,
            ) && !inst_ids(old(self).insts@).contains(id) && id != NIL_ID && exists|p: int|
                0 <= p < old(self).insts@.len() && old(self).insts@[p].id == b && final(self).insts@ == old(self).insts@.insert(p, TaggedInst { id, inst }))),
    {
        let index = match before_inst {
            None => self.insts.len(),
            Some(b) => match self.position(b) {
                Some(p) => p,
                None => {
                    return None;
                },
            },
        };
        let used = self.used_ids();
        let id = fresh_id(&used);
        let ghost before = self.insts@;
        let tagged = TaggedInst { id, inst };
        self.insts.insert(index, tagged);
        proof {
            assert(inst_ids(self.insts@) =~= inst_ids(before).insert(index as int, id));
            assert forall|x: int, y: int|
                0 <= x < inst_ids(self.insts@).len() && 0 <= y < inst_ids(self.insts@).len() && x != y
                    implies inst_ids(self.insts@)[x] != inst_ids(self.insts@)[y] by {
                let s = inst_ids(self.insts@);
                if x != index && y != index {
                    let xo = if x < index { x } else { x - 1 };
                    let yo = if y < index { y } else { y - 1 };
                    assert(s[x] == inst_ids(before)[xo]);
                    assert(s[y] == inst_ids(before)[yo]);
                } else if x == index {
                    let yo = if y < index { y } else { y - 1 };
                    assert(s[y] == inst_ids(before)[yo]);
                    assert(inst_ids(before).contains(s[y]));
                } else {
                    let xo = if x < index { x } else { x - 1 };
                    assert(s[x] == inst_ids(before)[xo]);
                    assert(inst_ids(before).contains(s[x]));
                }
            }
            assert(!inst_ids(self.insts@).contains(NIL_ID)) by {
                if inst_ids(self.insts@).contains(NIL_ID) {
                    let k = choose|k: int| 0 <= k < inst_ids(self.insts@).len() && inst_ids(self.insts@)[k] == NIL_ID;
                    if k != index {
                        let ko = if k < index { k } else { k - 1 };
                        assert(inst_ids(before)[ko] == NIL_ID);
                    }
                }
            }
            if before_inst is None {
                assert(self.insts@ =~= before.push(tagged));
            }
        }
        Some(id)
    }

    /// The instruction `inst`, if it is in the block.
    pub fn get_inst(&self, inst: InstID) -> (r: Option<&TaggedInst>)
        ensures
            r is None <==> !inst_ids(self.insts@).contains(inst),
            r matches Some(t) ==> t.id == inst && self.insts@.contains(*t),
    {
        match self.position(inst) {
            Some(i) => Some(&self.insts[i]),
            None => None,
        }
    }

    pub fn get_insts(&self) -> (r: &Vec<TaggedInst>)
        ensures
            r@ == self.insts@,
    {
        &self.insts
    }

    /// Whether the block ends with a branch or a return.
    pub fn is_terminated(&self) -> (r: bool)
        ensures
            r == (self.insts@.len() > 0 && is_terminator(self.insts@.last().inst.kind)),
    {
        if self.insts.len() == 0 {
            false
        } else {
            self.insts[self.insts.len() - 1].inst.is_terminate_inst()
        }
    }
}

} // verus!
