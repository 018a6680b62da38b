use vstd::prelude::*;

use crate::IR::abstract_present::{
    blocks_view, code_view, AbstractCode, AbstractFunction, AbstractInstruction, BlockM, CodeM, InstrM,
};

verus! {

/// Builds the control flow graph of a function: which blocks follow each.
pub struct CFG {
    pub function: AbstractFunction,
}

/// The index of the first block called `name`, from `k` on.
pub open spec fn first_block(bs: Seq<BlockM>, name: Seq<char>, k: int) -> Option<int>
    decreases bs.len() - k,
{
    if k < 0 || k >= bs.len() {
        None
    } else if bs[k].name == name {
        Some(k)
    } else {
        first_block(bs, name, k + 1)
    }
}

/// The blocks that follow block `b`: the two targets of a branch that ends
/// it, the target of a jump that ends it, and otherwise the block after
/// it, if it ends with another instruction and is not the last.
pub open spec fn block_succs(bs: Seq<BlockM>, b: BlockM) -> Seq<usize> {
    if b.instrs.len() == 0 {
        Seq::empty()
    } else {
        match b.instrs.last() {
            CodeM::Instruction(InstrM::Br { true_label, false_label, .. }) => seq![
                first_block(bs, true_label, 0)->Some_0 as usize,
                first_block(bs, false_label, 0)->Some_0 as usize,
            ],
            CodeM::Instruction(InstrM::Jmp { label }) => seq![first_block(bs, label, 0)->Some_0 as usize],
            CodeM::Instruction(_) => {
                let idx = first_block(bs, b.name, 0)->Some_0;
                if idx != bs.len() - 1 {
                    seq![(idx + 1) as usize]
                } else {
                    Seq::empty()
                }
            },
            CodeM::Label(_) => Seq::empty(),
        }
    }
}

/// Every branch or jump that ends a block names a block.
pub open spec fn targets_exist(bs: Seq<BlockM>) -> bool {
    forall|i: int|
        0 <= i < bs.len() && (#[trigger] bs[i]).instrs.len() > 0 ==> match bs[i].instrs.last() {
            CodeM::Instruction(InstrM::Br { true_label, false_label, .. }) => first_block(bs, true_label, 0) is Some
                && first_block(bs, false_label, 0) is Some,
            CodeM::Instruction(InstrM::Jmp { label }) => first_block(bs, label, 0) is Some,
            _ => true,
        }
}

proof fn lemma_first_block_found(bs: Seq<BlockM>, name: Seq<char>, k: int, j: int)
    requires
        0 <= k <= j < bs.len(),
        bs[j].name == name,
    ensures
        first_block(bs, name, k) is Some,
        first_block(bs, name, k)->Some_0 <= j,
        first_block(bs, name, k)->Some_0 >= k,
    decreases j - k,
{
    if bs[k].name != name {
        lemma_first_block_found(bs, name, k + 1, j);
    }
}

/// The index of the first name equal to `name`.
fn find_block(names: &Vec<String>, name: &String, Ghost(bs): Ghost<Seq<BlockM>>) -> (r: usize)
    requires
        names@.len() == bs.len(),
        forall|i: int| 0 <= i < bs.len() ==> (#[trigger] bs[i]).name == names@[i]@,
        first_block(bs, name@, 0) is Some,
    ensures
        first_block(bs, name@, 0) == Some(r as int),
{
    let mut k: usize = 0;
    while k < names.len()
        invariant
            names@.len() == bs.len(),
            forall|i: int| 0 <= i < bs.len() ==> (#[trigger] bs[i]).name == names@[i]@,
            first_block(bs, name@, 0) == first_block(bs, name@, k as int),
            first_block(bs, name@, k as int) is Some,
        decreases names@.len() - k,
    {
        assert(bs[k as int].name == names@[k as int]@);
        if names[k] == *name {
            return k;
        }
        k = k + 1;
    }
    vstd::pervasive::unreached()
}

impl CFG {
    /// Adds to each block the blocks that follow it; see `block_succs`.
    pub fn create_cfg(&mut self)
        requires
            targets_exist(blocks_view(old(self).function.blocks@)),
        ensures
            final(self).function.args == old(self).function.args,
            final(self).function.name == old(self).function.name,
            final(self).function.return_type == old(self).function.return_type,
            blocks_view(final(self).function.blocks@).len() == blocks_view(old(self).function.blocks@).len(),
            forall|i: int|
                #![trigger blocks_view(final(self).function.blocks@)[i]]
                0 <= i < old(self).function.blocks@.len() ==> {
                    let b = blocks_view(old(self).function.blocks@)[i];
                    blocks_view(final(self).function.blocks@)[i] == BlockM {
                        successors: b.successors + block_succs(blocks_view(old(self).function.blocks@), b),
                        ..b
                    }
                },
    {
        let ghost bs = blocks_view(self.function.blocks@);
        let n = self.function.blocks.len();
        let mut names: Vec<String> = Vec::new();
        for i in 0..n
            invariant
                n == self.function.blocks@.len(),
                bs == blocks_view(self.function.blocks@),
                names@.len() == i,
                forall|j: int| 0 <= j < i ==> (#[trigger] bs[j]).name == names@[j]@,
        {
            names.push(self.function.blocks[i].name.clone());
        }
        for i in 0..n
            invariant
                n == bs.len(),
                n == self.function.blocks@.len(),
                names@.len() == n,
                forall|j: int| 0 <= j < n ==> (#[trigger] bs[j]).name == names@[j]@,
                targets_exist(bs),
                self.function.args == old(self).function.args,
                self.function.name == old(self).function.name,
                self.function.return_type == old(self).function.return_type,
                bs == blocks_view(old(self).function.blocks@),
                forall|j: int|
                    #![trigger blocks_view(self.function.blocks@)[j]]
                    0 <= j < n ==> blocks_view(self.function.blocks@)[j] == if j < i {
                        BlockM { successors: bs[j].successors + block_succs(bs, bs[j]), ..bs[j] }
                    } else {
                        bs[j]
                    },
        {
            let ghost before = self.function.blocks@;
            let ghost b = bs[i as int];
            assert(blocks_view(before)[i as int] == b);
            let block = &mut self.function.blocks[i];
            let len = block.instrs.len();
            let ghost added: Seq<usize> = block_succs(bs, b);
            if len > 0 {
                let last_is = match &block.instrs[len - 1] {
                    AbstractCode::Instruction(AbstractInstruction::Br { true_label, false_label, .. }) => {
                        let t = find_block(&names, true_label, Ghost(bs));
                        let f = find_block(&names, false_label, Ghost(bs));
                        block.successors.push(t);
                        block.successors.push(f);
                        0u8
                    },
                    AbstractCode::Instruction(AbstractInstruction::Jmp { label }) => {
                        let t = find_block(&names, label, Ghost(bs));
                        block.successors.push(t);
                        0u8
                    },
                    AbstractCode::Instruction(_) => {
                        proof {
                            lemma_first_block_found(bs, b.name, 0, i as int);
                        }
                        let index = find_block(&names, &block.name, Ghost(bs));
                        if index != n - 1 {
                            block.successors.push(index + 1);
                        }
                        0u8
                    },
                    AbstractCode::Label { .. } => 0u8,
                };
            }
            assert(block.successors@ =~= b.successors + added);
            assert(blocks_view(self.function.blocks@) =~= blocks_view(before).update(
                i as int,
                BlockM { successors: b.successors + added, ..b },
            ));
        }
    }
}

} // verus!
