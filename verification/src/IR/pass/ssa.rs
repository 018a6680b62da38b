use vstd::prelude::*;

use crate::IR::abstract_present::{
    block_view, blocks_view, code_view, codes_view, strs_view, AbstractArgument, AbstractBasicBlock, AbstractCode,
    AbstractFunction, AbstractInstruction, BlockM, CodeM, InstrM,
};
use crate::IR::pass::cfg::first_block;
use crate::IR::pass::dom::{rows_view, Rows};
use crate::IR::util::{
    code_dest, dest_renamable, phi_renamable, rename_dest, rename_phi, rename_src, src_renamable, Stacks,
};
use crate::utils::table::{lemma_entries_map_last, StrMap};

verus! {

/// The rewriting of a function into and out of SSA form, with the
/// dominance facts it works from, one row of block flags per block: the
/// dominance frontier of each block, its children in the dominator tree,
/// and its predecessors.
pub struct SSAPass {
    pub function: AbstractFunction,
    pub dom_frontier: Vec<Vec<bool>>,
    pub dom_tree: Vec<Vec<bool>>,
    pub pred: Vec<Vec<bool>>,
}

/// The variables met so far, in the order they were first met, and the
/// blocks that write each of them.
pub type VarInfo = (Seq<Seq<char>>, Map<Seq<char>, Seq<usize>>);

/// Each variable is listed once, and the listed ones are those the map
/// knows.
pub open spec fn info_wf(info: VarInfo) -> bool {
    &&& info.0.no_duplicates()
    &&& forall|k: Seq<char>| #[trigger] info.1.contains_key(k) <==> info.0.contains(k)
}

/// `info` with `v` noted as written in block `i`.
pub open spec fn note_def(info: VarInfo, v: Seq<char>, i: usize) -> VarInfo {
    if info.1.contains_key(v) {
        if info.1[v].contains(i) {
            info
        } else {
            (info.0, info.1.insert(v, info.1[v].push(i)))
        }
    } else {
        (info.0.push(v), info.1.insert(v, seq![i]))
    }
}

/// The arguments `args[..k]`, each written in the first block.
pub open spec fn info_args(args: Seq<Seq<char>>, k: int) -> VarInfo
    decreases k,
{
    if k <= 0 {
        (Seq::empty(), Map::empty())
    } else {
        let info = info_args(args, k - 1);
        let v = args[k - 1];
        (if info.1.contains_key(v) {
            info.0
        } else {
            info.0.push(v)
        }, info.1.insert(v, seq![0usize]))
    }
}

/// `info` with the places written by the lines `cs[..k]` of block `i`.
pub open spec fn info_codes(info: VarInfo, cs: Seq<CodeM>, k: int, i: usize) -> VarInfo
    decreases k,
{
    if k <= 0 {
        info
    } else {
        let prev = info_codes(info, cs, k - 1, i);
        match code_dest(cs[k - 1]) {
            Some(d) => note_def(prev, d, i),
            None => prev,
        }
    }
}

/// `info` with the places written in the blocks `bs[..n]`.
pub open spec fn info_blocks(info: VarInfo, bs: Seq<BlockM>, n: int) -> VarInfo
    decreases n,
{
    if n <= 0 {
        info
    } else {
        let prev = info_blocks(info, bs, n - 1);
        info_codes(prev, bs[n - 1].instrs, bs[n - 1].instrs.len() as int, (n - 1) as usize)
    }
}

/// The names of the arguments of a function.
pub open spec fn arg_names(args: Seq<AbstractArgument>) -> Seq<Seq<char>> {
    args.map_values(|a: AbstractArgument| a.name@)
}

/// The variables of a function with the blocks that write each: its
/// arguments, written in the first block, then the places that the lines
/// of each block write, in order.
pub open spec fn var_info(args: Seq<Seq<char>>, bs: Seq<BlockM>) -> VarInfo {
    info_blocks(info_args(args, args.len() as int), bs, bs.len() as int)
}

/// The names of the blocks `i < k` that `row` marks.
pub open spec fn pred_labels(bs: Seq<BlockM>, row: Seq<bool>, k: int) -> Seq<Seq<char>>
    decreases k,
{
    if k <= 0 {
        Seq::empty()
    } else if k - 1 < row.len() && row[k - 1] {
        pred_labels(bs, row, k - 1).push(bs[k - 1].name)
    } else {
        pred_labels(bs, row, k - 1)
    }
}

/// A phi for `v` that reads `v` from each of the `labels`.
pub open spec fn phi_code(v: Seq<char>, labels: Seq<Seq<char>>) -> CodeM {
    CodeM::Instruction(InstrM::Phi { dest: v, labels, args: Seq::new(labels.len(), |i: int| v) })
}

/// The blocks with a phi for `v` put into block `b` right after its first
/// line, reading from each predecessor of `b`; `None` where `b` has no
/// block, no row of predecessors or no first line.
pub open spec fn insert_phi(bs: Seq<BlockM>, v: Seq<char>, b: int, preds: Rows) -> Option<Seq<BlockM>> {
    if 0 <= b < bs.len() && b < preds.len() && bs[b].instrs.len() >= 1 {
        Some(
            bs.update(
                b,
                BlockM { instrs: bs[b].instrs.insert(1, phi_code(v, pred_labels(bs, preds[b], bs.len() as int))), ..bs[b] },
            ),
        )
    } else {
        None
    }
}

/// The number of blocks not yet marked.
pub open spec fn false_count(done: Seq<bool>) -> nat
    decreases done.len(),
{
    if done.len() == 0 {
        0
    } else {
        false_count(done.drop_last()) + if done.last() {
            0nat
        } else {
            1nat
        }
    }
}

/// Marking a block not yet marked leaves one fewer unmarked.
pub proof fn lemma_false_count_mark(done: Seq<bool>, b: int)
    requires
        0 <= b < done.len(),
        !done[b],
    ensures
        false_count(done.update(b, true)) + 1 == false_count(done),
    decreases done.len(),
{
    let d2 = done.update(b, true);
    if b < done.len() - 1 {
        lemma_false_count_mark(done.drop_last(), b);
        assert(d2.drop_last() =~= done.drop_last().update(b, true));
    } else {
        assert(d2.drop_last() =~= done.drop_last());
    }
}

/// The row of the dominance frontier of `defs[k]`, or an empty row.
pub open spec fn walk_row(defs: Seq<usize>, k: int, df: Rows) -> Seq<bool> {
    if 0 <= k < defs.len() && defs[k] < df.len() {
        df[defs[k] as int]
    } else {
        Seq::empty()
    }
}

/// The phis for `v`, worked out over a list of blocks that grows: for each
/// block `defs[k]` in turn, each block `b` of its dominance frontier, from
/// `b` on, gets a phi for `v` unless it has been given one already
/// (`done[b]`); a block that gets one is marked and joins the list, unless
/// it is in it already, since it now writes `v`. `None` where a listed
/// block has no row of dominance frontier or a phi cannot be put in.
pub open spec fn phis_walk(
    bs: Seq<BlockM>,
    v: Seq<char>,
    defs: Seq<usize>,
    k: int,
    b: int,
    done: Seq<bool>,
    df: Rows,
    preds: Rows,
) -> Option<Seq<BlockM>>
    decreases false_count(done), defs.len() - k, walk_row(defs, k, df).len() - b,
{
    if k < 0 || k >= defs.len() {
        Some(bs)
    } else if defs[k] >= df.len() {
        None
    } else {
        let row = df[defs[k] as int];
        if b < 0 || b >= row.len() {
            phis_walk(bs, v, defs, k + 1, 0, done, df, preds)
        } else if !row[b] {
            phis_walk(bs, v, defs, k, b + 1, done, df, preds)
        } else if b >= done.len() {
            None
        } else if done[b] {
            phis_walk(bs, v, defs, k, b + 1, done, df, preds)
        } else {
            match insert_phi(bs, v, b, preds) {
                None => None,
                Some(bs1) => {
                    proof {
                        lemma_false_count_mark(done, b);
                    }
                    phis_walk(
                        bs1,
                        v,
                        if defs.contains(b as usize) {
                            defs
                        } else {
                            defs.push(b as usize)
                        },
                        k,
                        b + 1,
                        done.update(b, true),
                        df,
                        preds,
                    )
                },
            }
        }
    }
}

/// The phis for `v`, starting from the blocks `defs` that write it, with
/// no block given a phi yet.
pub open spec fn phis_var(bs: Seq<BlockM>, v: Seq<char>, defs: Seq<usize>, df: Rows, preds: Rows) -> Option<Seq<BlockM>> {
    phis_walk(bs, v, defs, 0, 0, Seq::new(bs.len(), |i: int| false), df, preds)
}

/// Phis for each variable `vars[k..]`, put into the iterated dominance
/// frontier of the blocks that write it; see `phis_walk`.
pub open spec fn phis_vars(
    bs: Seq<BlockM>,
    vars: Seq<Seq<char>>,
    defs: Map<Seq<char>, Seq<usize>>,
    k: int,
    df: Rows,
    preds: Rows,
) -> Option<Seq<BlockM>>
    decreases vars.len() - k,
{
    if k < 0 || k >= vars.len() {
        Some(bs)
    } else {
        match phis_var(bs, vars[k], defs[vars[k]], df, preds) {
            None => None,
            Some(bs1) => phis_vars(bs1, vars, defs, k + 1, df, preds),
        }
    }
}

/// The blocks after the phis are put in: for each variable of the
/// function, in order, a phi for the variable goes once into each block of
/// the iterated dominance frontier of the blocks that write it.
pub open spec fn with_phis(args: Seq<Seq<char>>, bs: Seq<BlockM>, df: Rows, preds: Rows) -> Option<Seq<BlockM>> {
    let info = var_info(args, bs);
    phis_vars(bs, info.0, info.1, 0, df, preds)
}

/// Two passes differ at most in the blocks of their function.
pub open spec fn same_facts(a: SSAPass, b: SSAPass) -> bool {
    &&& a.dom_frontier == b.dom_frontier
    &&& a.dom_tree == b.dom_tree
    &&& a.pred == b.pred
    &&& a.function.args == b.function.args
    &&& a.function.name == b.function.name
    &&& a.function.return_type == b.function.return_type
}

/// Whether `v` holds `x`.
fn has_index(v: &Vec<usize>, x: usize) -> (r: bool)
    ensures
        r == v@.contains(x),
{
    for i in 0..v.len()
        invariant
            forall|j: int| 0 <= j < i ==> v@[j] != x,
    {
        if v[i] == x {
            assert(v@[i as int] == x);
            return true;
        }
    }
    false
}

/// A copy of a list of block indices.
fn copy_indices(v: &Vec<usize>) -> (r: Vec<usize>)
    ensures
        r@ == v@,
{
    let mut r: Vec<usize> = Vec::new();
    for i in 0..v.len()
        invariant
            r@ == v@.take(i as int),
    {
        r.push(v[i]);
        assert(v@.take(i + 1) =~= v@.take(i as int).push(v@[i as int]));
    }
    assert(v@.take(v@.len() as int) =~= v@);
    r
}

proof fn lemma_push_contains(s: Seq<Seq<char>>, v: Seq<char>, k: Seq<char>)
    ensures
        s.push(v).contains(k) <==> (s.contains(k) || k == v),
{
    if s.contains(k) {
        let j = choose|j: int| 0 <= j < s.len() && s[j] == k;
        assert(s.push(v)[j] == k);
    }
    if k == v {
        assert(s.push(v)[s.len() as int] == k);
    }
    if s.push(v).contains(k) {
        let j = choose|j: int| 0 <= j < s.push(v).len() && s.push(v)[j] == k;
        if j < s.len() {
            assert(s[j] == k);
        }
    }
}

/// When no key is listed twice, entry `j` gives the map's value for its key.
proof fn lemma_distinct_entry(s: Seq<(String, Vec<usize>)>, j: int)
    requires
        0 <= j < s.len(),
        s.map_values(|e: (String, Vec<usize>)| e.0@).no_duplicates(),
    ensures
        crate::utils::table::entries_map(s).contains_key(s[j].0@),
        crate::utils::table::entries_map(s)[s[j].0@] == s[j].1.deep_view(),
{
    let ks = s.map_values(|e: (String, Vec<usize>)| e.0@);
    assert forall|q: int| j < q < s.len() implies (#[trigger] s[q]).0@ != s[j].0@ by {
        assert(ks[q] == s[q].0@);
        assert(ks[j] == s[j].0@);
    }
    lemma_entries_map_last(s, s[j].0@, j);
}

/// The keys of the map, in order, and what it maps them to.
pub open spec fn info_of(m: StrMap<Vec<usize>>) -> VarInfo {
    (m.keys(), m.map())
}

/// Notes that `v` is written in block `i`; see `note_def`.
fn note_def_exec(m: &mut StrMap<Vec<usize>>, v: String, i: usize)
    requires
        info_wf(info_of(*old(m))),
    ensures
        info_wf(info_of(*final(m))),
        info_of(*final(m)) == note_def(info_of(*old(m)), v@, i),
{
    let ghost m0 = info_of(*m);
    match m.get(&v) {
        Some(defs) => {
            assert(defs.deep_view() =~= defs@);
            if !has_index(defs, i) {
                let mut d = copy_indices(defs);
                d.push(i);
                assert(d.deep_view() =~= d@);
                m.insert(v, d);
                assert(info_of(*m).0 == m0.0);
                assert forall|k: Seq<char>| #[trigger] info_of(*m).1.contains_key(k) <==> info_of(*m).0.contains(k) by {
                    assert(m0.1.contains_key(k) <==> m0.0.contains(k));
                }
            }
        },
        None => {
            let ghost v0 = v@;
            assert(m0.1.contains_key(v0) <==> m0.0.contains(v0));
            let nv = vec![i];
            assert(nv@ =~= seq![i]);
            assert(nv.deep_view() =~= seq![i]);
            m.insert(v, nv);
            assert(!m0.0.contains(v0));
            assert forall|k: Seq<char>| #[trigger] info_of(*m).1.contains_key(k) <==> info_of(*m).0.contains(k) by {
                assert(m0.1.contains_key(k) <==> m0.0.contains(k));
                lemma_push_contains(m0.0, v0, k);
            }
        },
    }
}

impl SSAPass {
    /// The variables of the function and the blocks that write each; see
    /// `var_info`.
    fn get_var_info(&self) -> (r: StrMap<Vec<usize>>)
        ensures
            info_of(r) == var_info(arg_names(self.function.args@), blocks_view(self.function.blocks@)),
            info_wf(info_of(r)),
    {
        let ghost args = arg_names(self.function.args@);
        let ghost bs = blocks_view(self.function.blocks@);
        let mut var_info: StrMap<Vec<usize>> = StrMap::new();
        assert(var_info.keys() =~= Seq::<Seq<char>>::empty());
        for a in 0..self.function.args.len()
            invariant
                args == arg_names(self.function.args@),
                info_of(var_info) == info_args(args, a as int),
                info_wf(info_of(var_info)),
        {
            let ghost m0 = info_of(var_info);
            let name = self.function.args[a].name.clone();
            assert(args[a as int] == name@);
            let ghost v0 = name@;
            assert(m0.1.contains_key(v0) <==> m0.0.contains(v0));
            let nv = vec![0usize];
            assert(nv@ =~= seq![0usize]);
            assert(nv.deep_view() =~= seq![0usize]);
            var_info.insert(name, nv);
            assert forall|k: Seq<char>| #[trigger] info_of(var_info).1.contains_key(k) <==> info_of(var_info).0.contains(k) by {
                assert(m0.1.contains_key(k) <==> m0.0.contains(k));
                lemma_push_contains(m0.0, v0, k);
            }
            assert(!m0.1.contains_key(v0) ==> !m0.0.contains(v0));
        }
        let ghost start = info_of(var_info);
        for index in 0..self.function.blocks.len()
            invariant
                bs == blocks_view(self.function.blocks@),
                args == arg_names(self.function.args@),
                start == info_args(args, args.len() as int),
                info_of(var_info) == info_blocks(start, bs, index as int),
                info_wf(info_of(var_info)),
        {
            let block = &self.function.blocks[index];
            let ghost cs = bs[index as int].instrs;
            let ghost before = info_of(var_info);
            assert(cs == codes_view(block.instrs@));
            for k in 0..block.instrs.len()
                invariant
                    cs == codes_view(block.instrs@),
                    cs.len() == block.instrs@.len(),
                    info_of(var_info) == info_codes(before, cs, k as int, index),
                    info_wf(info_of(var_info)),
            {
                assert(cs[k as int] == block.instrs@[k as int]@);
                if let Some(d) = block.instrs[k].get_dest() {
                    note_def_exec(&mut var_info, d, index);
                }
            }
        }
        var_info
    }
}


/// The names of the blocks that `row` marks, in order; see `pred_labels`.
fn pred_label_names(blocks: &Vec<AbstractBasicBlock>, row: &Vec<bool>) -> (r: Vec<String>)
    ensures
        strs_view(r@) == pred_labels(blocks_view(blocks@), row@, blocks@.len() as int),
{
    let ghost bs = blocks_view(blocks@);
    let mut r: Vec<String> = Vec::new();
    for i in 0..blocks.len()
        invariant
            bs == blocks_view(blocks@),
            strs_view(r@) == pred_labels(bs, row@, i as int),
    {
        if i < row.len() && row[i] {
            let ghost r0 = r@;
            r.push(blocks[i].name.clone());
            assert(bs[i as int] == block_view(blocks@[i as int]));
            assert(strs_view(r@) =~= strs_view(r0).push(bs[i as int].name));
        }
    }
    r
}

/// `n` copies of `v`.
fn repeat_name(v: &String, n: usize) -> (r: Vec<String>)
    ensures
        strs_view(r@) == Seq::new(n as nat, |i: int| v@),
{
    let mut r: Vec<String> = Vec::new();
    for i in 0..n
        invariant
            strs_view(r@) == Seq::new(i as nat, |j: int| v@),
    {
        let ghost r0 = r@;
        r.push(v.clone());
        assert(strs_view(r@) =~= strs_view(r0).push(v@));
        assert(strs_view(r@) =~= Seq::new((i + 1) as nat, |j: int| v@));
    }
    r
}

impl SSAPass {
    /// Puts a phi for `v` into block `b`; see `insert_phi`.
    fn insert_phi_at(&mut self, v: &String, b: usize)
        requires
            insert_phi(blocks_view(old(self).function.blocks@), v@, b as int, rows_view(old(self).pred@)) is Some,
        ensures
            insert_phi(blocks_view(old(self).function.blocks@), v@, b as int, rows_view(old(self).pred@)) == Some(
                blocks_view(final(self).function.blocks@),
            ),
            same_facts(*old(self), *final(self)),
    {
        let ghost bs = blocks_view(self.function.blocks@);
        let ghost pr = rows_view(self.pred@);
        assert(pr[b as int] == self.pred@[b as int]@);
        let labels = pred_label_names(&self.function.blocks, &self.pred[b]);
        let ghost lv = strs_view(labels@);
        let args = repeat_name(v, labels.len());
        let phi = AbstractCode::Instruction(AbstractInstruction::Phi { dest: v.clone(), labels, args });
        assert(code_view(phi) == phi_code(v@, lv));
        let ghost old_blocks = self.function.blocks@;
        let blk = &mut self.function.blocks[b];
        let ghost old_instrs = blk.instrs@;
        assert(codes_view(old_instrs) == bs[b as int].instrs);
        blk.instrs.insert(1, phi);
        assert(codes_view(blk.instrs@) =~= codes_view(old_instrs).insert(1, code_view(phi)));
        assert(blocks_view(self.function.blocks@) =~= bs.update(
            b as int,
            BlockM { instrs: bs[b as int].instrs.insert(1, phi_code(v@, lv)), ..bs[b as int] },
        ));
    }
}

impl SSAPass {
    /// Puts the phis for `v` into the iterated dominance frontier of the
    /// blocks `defs0`; see `phis_var`.
    fn phis_for_var(&mut self, v: &String, defs0: &Vec<usize>)
        requires
            phis_var(blocks_view(old(self).function.blocks@), v@, defs0@, rows_view(old(self).dom_frontier@), rows_view(old(self).pred@)) is Some,
        ensures
            phis_var(blocks_view(old(self).function.blocks@), v@, defs0@, rows_view(old(self).dom_frontier@), rows_view(old(self).pred@))
                == Some(blocks_view(final(self).function.blocks@)),
            same_facts(*old(self), *final(self)),
    {
        let ghost start = *self;
        let ghost target = phis_var(blocks_view(self.function.blocks@), v@, defs0@, rows_view(self.dom_frontier@), rows_view(self.pred@));
        let mut defs = copy_indices(defs0);
        let n = self.function.blocks.len();
        let mut done: Vec<bool> = Vec::new();
        for i in 0..n
            invariant
                done@ == Seq::new(i as nat, |j: int| false),
        {
            done.push(false);
            assert(done@ =~= Seq::new((i + 1) as nat, |j: int| false));
        }
        let mut k: usize = 0;
        let mut b: usize = 0;
        while k < defs.len()
            invariant
                same_facts(start, *self),
                target is Some,
                target == phis_walk(
                    blocks_view(self.function.blocks@),
                    v@,
                    defs@,
                    k as int,
                    b as int,
                    done@,
                    rows_view(self.dom_frontier@),
                    rows_view(self.pred@),
                ),
            decreases false_count(done@), defs@.len() - k, walk_row(defs@, k as int, rows_view(self.dom_frontier@)).len() - b,
        {
            let d = defs[k];
            if d >= self.dom_frontier.len() {
                return;
            }
            assert(rows_view(self.dom_frontier@)[d as int] == self.dom_frontier@[d as int]@);
            if b >= self.dom_frontier[d].len() {
                k = k + 1;
                b = 0;
            } else if !self.dom_frontier[d][b] {
                b = b + 1;
            } else if b >= done.len() {
                return;
            } else if done[b] {
                b = b + 1;
            } else {
                self.insert_phi_at(v, b);
                proof {
                    lemma_false_count_mark(done@, b as int);
                }
                done.set(b, true);
                if !has_index(&defs, b) {
                    defs.push(b);
                }
                b = b + 1;
            }
        }
    }

    /// Puts a phi for each variable once into each block of the iterated
    /// dominance frontier of the blocks that write it; see `with_phis`.
    fn insert_phi_node(&mut self)
        requires
            with_phis(arg_names(old(self).function.args@), blocks_view(old(self).function.blocks@), rows_view(old(self).dom_frontier@), rows_view(old(self).pred@)) is Some,
        ensures
            with_phis(arg_names(old(self).function.args@), blocks_view(old(self).function.blocks@), rows_view(old(self).dom_frontier@), rows_view(old(self).pred@))
                == Some(blocks_view(final(self).function.blocks@)),
            same_facts(*old(self), *final(self)),
    {
        let ghost start = *self;
        let var_infos = self.get_var_info();
        let ghost info = info_of(var_infos);
        let ghost target = phis_vars(blocks_view(self.function.blocks@), info.0, info.1, 0, rows_view(self.dom_frontier@), rows_view(self.pred@));
        for j in 0..var_infos.entries.len()
            invariant
                same_facts(start, *self),
                info == info_of(var_infos),
                info_wf(info),
                target is Some,
                target == phis_vars(blocks_view(self.function.blocks@), info.0, info.1, j as int, rows_view(self.dom_frontier@), rows_view(self.pred@)),
        {
            let v = &var_infos.entries[j].0;
            let defs = &var_infos.entries[j].1;
            proof {
                assert(info.0[j as int] == v@);
                lemma_distinct_entry(var_infos.entries@, j as int);
                assert(defs.deep_view() =~= defs@);
            }
            self.phis_for_var(v, defs);
        }
    }
}

/// The counters of new names, one per variable.
pub type Counters = Map<Seq<char>, usize>;

/// The place the line writes, if any, has a stack and a counter that can
/// still count.
pub open spec fn dest_ok(c: CodeM, st: Stacks, ve: Counters) -> bool {
    match code_dest(c) {
        Some(d) => st.contains_key(d) && ve.contains_key(d) && ve[d] < usize::MAX,
        None => true,
    }
}

/// The lines `cs[k..]` renamed one after the other: each reads the newest
/// names and gives the place it writes a new name; `None` where a name is
/// missing.
pub open spec fn rename_codes(cs: Seq<CodeM>, k: int, st: Stacks, ve: Counters) -> Option<(Seq<CodeM>, Stacks, Counters)>
    decreases cs.len() - k,
{
    if k < 0 || k >= cs.len() {
        Some((cs, st, ve))
    } else if !src_renamable(cs[k], st) || !dest_ok(cs[k], st, ve) {
        None
    } else {
        let r = rename_dest(rename_src(cs[k], st), st, ve);
        rename_codes(cs.update(k, r.0), k + 1, r.1, r.2)
    }
}

/// The phis among the lines `cs[k..]` with their argument for `label`
/// renamed.
pub open spec fn rename_phi_codes(cs: Seq<CodeM>, k: int, st: Stacks, label: Seq<char>) -> Option<Seq<CodeM>>
    decreases cs.len() - k,
{
    if k < 0 || k >= cs.len() {
        Some(cs)
    } else if !phi_renamable(cs[k], st, label) {
        None
    } else {
        rename_phi_codes(cs.update(k, rename_phi(cs[k], st, label)), k + 1, st, label)
    }
}

/// The phis of each block `succs[k..]` with their argument for `label`
/// renamed.
pub open spec fn rename_succs(bs: Seq<BlockM>, succs: Seq<usize>, k: int, st: Stacks, label: Seq<char>) -> Option<
    Seq<BlockM>,
>
    decreases succs.len() - k,
{
    if k < 0 || k >= succs.len() {
        Some(bs)
    } else if succs[k] >= bs.len() {
        None
    } else {
        let s = succs[k] as int;
        match rename_phi_codes(bs[s].instrs, 0, st, label) {
            None => None,
            Some(cs) => rename_succs(bs.update(s, BlockM { instrs: cs, ..bs[s] }), succs, k + 1, st, label),
        }
    }
}

/// Renaming from block `i` down the dominator tree: its lines, then the
/// phis of its successors for what comes from it, then the blocks below it
/// in the tree, in order; `None` where a name or a block is missing, or
/// where the tree goes deeper than `fuel`.
pub open spec fn rename_block(bs: Seq<BlockM>, tree: Rows, i: int, st: Stacks, ve: Counters, fuel: nat) -> Option<
    (Seq<BlockM>, Stacks, Counters),
>
    decreases fuel, 0int, 0int,
{
    if fuel == 0 || i < 0 || i >= bs.len() || i >= tree.len() {
        None
    } else {
        match rename_codes(bs[i].instrs, 0, st, ve) {
            None => None,
            Some((cs, st1, ve1)) => match rename_succs(
                bs.update(i, BlockM { instrs: cs, ..bs[i] }),
                bs[i].successors,
                0,
                st1,
                bs[i].name,
            ) {
                None => None,
                Some(bs2) => rename_children(bs2, tree, i, 0, st1, ve1, (fuel - 1) as nat),
            },
        }
    }
}

/// Renaming from each child `j >= k` of block `i` in the dominator tree,
/// in order.
pub open spec fn rename_children(bs: Seq<BlockM>, tree: Rows, i: int, k: int, st: Stacks, ve: Counters, fuel: nat) -> Option<
    (Seq<BlockM>, Stacks, Counters),
>
    decreases fuel, 1int, if 0 <= i < tree.len() { tree[i].len() - k } else { 0 },
{
    if i < 0 || i >= tree.len() || k < 0 || k >= tree[i].len() {
        Some((bs, st, ve))
    } else if tree[i][k] {
        match rename_block(bs, tree, k, st, ve, fuel) {
            None => None,
            Some((bs1, st1, ve1)) => rename_children(bs1, tree, i, k + 1, st1, ve1, fuel),
        }
    } else {
        rename_children(bs, tree, i, k + 1, st, ve, fuel)
    }
}

/// Each variable of the table starts with its own name on its stack.
pub open spec fn init_stacks(vars: Map<Seq<char>, Seq<usize>>) -> Stacks {
    Map::new(|k: Seq<char>| vars.contains_key(k), |k: Seq<char>| seq![k])
}

/// Each variable of the table starts counting at zero.
pub open spec fn init_counters(vars: Map<Seq<char>, Seq<usize>>) -> Counters {
    Map::new(|k: Seq<char>| vars.contains_key(k), |k: Seq<char>| 0usize)
}

/// The blocks after renaming: each variable of the function starts with
/// its own name and counts from zero, and renaming starts from the first
/// block, going no deeper than the number of blocks.
pub open spec fn renamed(args: Seq<Seq<char>>, bs: Seq<BlockM>, tree: Rows) -> Option<Seq<BlockM>> {
    let info = var_info(args, bs);
    match rename_block(bs, tree, 0, init_stacks(info.1), init_counters(info.1), bs.len()) {
        None => None,
        Some((bs1, _, _)) => Some(bs1),
    }
}

/// The blocks of the function in SSA form: the phis put in, then every
/// variable renamed.
pub open spec fn ssa_blocks(args: Seq<Seq<char>>, bs: Seq<BlockM>, df: Rows, tree: Rows, preds: Rows) -> Option<Seq<BlockM>> {
    match with_phis(args, bs, df, preds) {
        None => None,
        Some(bs1) => renamed(args, bs1, tree),
    }
}

/// Renames the lines of a block; see `rename_codes`.
fn rename_codes_exec(
    instrs: &mut Vec<AbstractCode>,
    stack: &mut StrMap<Vec<String>>,
    push_num: &mut StrMap<usize>,
    var_env: &mut StrMap<usize>,
)
    requires
        rename_codes(codes_view(old(instrs)@), 0, old(stack).map(), old(var_env).map()) is Some,
        old(push_num).map().dom() == old(var_env).map().dom(),
    ensures
        rename_codes(codes_view(old(instrs)@), 0, old(stack).map(), old(var_env).map()) == Some(
            (codes_view(final(instrs)@), final(stack).map(), final(var_env).map()),
        ),
        final(push_num).map() == old(push_num).map(),
        final(var_env).map().dom() == old(var_env).map().dom(),
{
    let ghost target = rename_codes(codes_view(instrs@), 0, stack.map(), var_env.map());
    let ghost pn = push_num.map();
    let ghost dom = var_env.map().dom();
    let n = instrs.len();
    for k in 0..n
        invariant
            instrs@.len() == n,
            target is Some,
            target == rename_codes(codes_view(instrs@), k as int, stack.map(), var_env.map()),
            push_num.map() == pn,
            var_env.map().dom() == dom,
            pn.dom() == dom,
    {
        let ghost cs = codes_view(instrs@);
        let ghost st = stack.map();
        let ghost ve = var_env.map();
        let ghost old_instrs = instrs@;
        assert(cs[k as int] == instrs@[k as int]@);
        let c = &mut instrs[k];
        c.ssa_change_src(stack);
        assert(code_dest(rename_src(cs[k as int], st)) == code_dest(cs[k as int]));
        c.ssa_change_dest(stack, push_num, var_env);
        assert(codes_view(instrs@) =~= cs.update(k as int, rename_dest(rename_src(cs[k as int], st), st, ve).0));
        assert(var_env.map().dom() =~= dom);
    }
}

/// Renames, in the lines `instrs`, the argument of each phi that comes
/// from `label`; see `rename_phi_codes`.
fn rename_phis_exec(instrs: &mut Vec<AbstractCode>, stack: &mut StrMap<Vec<String>>, label: &String)
    requires
        rename_phi_codes(codes_view(old(instrs)@), 0, old(stack).map(), label@) is Some,
    ensures
        rename_phi_codes(codes_view(old(instrs)@), 0, old(stack).map(), label@) == Some(codes_view(final(instrs)@)),
        final(stack).map() == old(stack).map(),
{
    let ghost target = rename_phi_codes(codes_view(instrs@), 0, stack.map(), label@);
    let ghost st = stack.map();
    let n = instrs.len();
    for k in 0..n
        invariant
            instrs@.len() == n,
            target is Some,
            stack.map() == st,
            target == rename_phi_codes(codes_view(instrs@), k as int, st, label@),
    {
        let ghost cs = codes_view(instrs@);
        assert(cs[k as int] == instrs@[k as int]@);
        let c = &mut instrs[k];
        c.ssa_change_phi(stack, label);
        assert(codes_view(instrs@) =~= cs.update(k as int, rename_phi(cs[k as int], st, label@)));
    }
}

impl SSAPass {
    /// Renames the variables from block `index` down the dominator tree;
    /// see `rename_block`.
    fn rename(&mut self, index: usize, stack: &mut StrMap<Vec<String>>, var_env: &mut StrMap<usize>, Ghost(fuel): Ghost<nat>)
        requires
            rename_block(blocks_view(old(self).function.blocks@), rows_view(old(self).dom_tree@), index as int, old(stack).map(), old(var_env).map(), fuel) is Some,
        ensures
            rename_block(blocks_view(old(self).function.blocks@), rows_view(old(self).dom_tree@), index as int, old(stack).map(), old(var_env).map(), fuel)
                == Some((blocks_view(final(self).function.blocks@), final(stack).map(), final(var_env).map())),
            same_facts(*old(self), *final(self)),
        decreases fuel,
    {
        let ghost start = *self;
        let ghost bs0 = blocks_view(self.function.blocks@);
        let ghost tree = rows_view(self.dom_tree@);
        let block_name = self.function.blocks[index].name.clone();
        let mut push_num: StrMap<usize> = StrMap::new();
        for q in 0..var_env.entries.len()
            invariant
                push_num.map().dom() == Set::new(|k: Seq<char>| exists|j: int| 0 <= j < q && (#[trigger] var_env.entries@[j]).0@ == k),
        {
            let ghost d0 = push_num.map().dom();
            push_num.insert(var_env.entries[q].0.clone(), 0);
            assert(push_num.map().dom() =~= Set::new(|k: Seq<char>| exists|j: int| 0 <= j < q + 1 && (#[trigger] var_env.entries@[j]).0@ == k));
        }
        proof {
            crate::utils::table::lemma_entries_map_from(var_env.entries@, |x: usize| true);
            assert forall|k: Seq<char>| #[trigger] var_env.map().contains_key(k) implies push_num.map().contains_key(k) by {
                let j = choose|j: int| 0 <= j < var_env.entries@.len() && (#[trigger] var_env.entries@[j]).0@ == k;
            }
            assert forall|k: Seq<char>| push_num.map().contains_key(k) implies #[trigger] var_env.map().contains_key(k) by {
                let j = choose|j: int| 0 <= j < var_env.entries@.len() && (#[trigger] var_env.entries@[j]).0@ == k;
                lemma_entries_last_key(var_env.entries@, j);
            }
            assert(push_num.map().dom() =~= var_env.map().dom());
        }
        let successors = copy_indices(&self.function.blocks[index].successors);
        assert(successors@ == bs0[index as int].successors);
        {
            let blk = &mut self.function.blocks[index];
            rename_codes_exec(&mut blk.instrs, stack, &mut push_num, var_env);
        }
        let ghost st1 = stack.map();
        let ghost ve1 = var_env.map();
        let ghost bs1 = blocks_view(self.function.blocks@);
        assert(bs1 =~= bs0.update(index as int, BlockM { instrs: bs1[index as int].instrs, ..bs0[index as int] }));
        let ghost succ_target = rename_succs(bs1, successors@, 0, st1, block_name@);
        for k in 0..successors.len()
            invariant
                same_facts(start, *self),
                stack.map() == st1,
                succ_target is Some,
                succ_target == rename_succs(blocks_view(self.function.blocks@), successors@, k as int, st1, block_name@),
        {
            let succ = successors[k];
            let ghost bsk = blocks_view(self.function.blocks@);
            let blk = &mut self.function.blocks[succ];
            rename_phis_exec(&mut blk.instrs, stack, &block_name);
            assert(blocks_view(self.function.blocks@) =~= bsk.update(
                succ as int,
                BlockM { instrs: blocks_view(self.function.blocks@)[succ as int].instrs, ..bsk[succ as int] },
            ));
        }
        let row = copy_bools(&self.dom_tree[index]);
        assert(row@ == tree[index as int]);
        let ghost child_target = rename_children(blocks_view(self.function.blocks@), tree, index as int, 0, st1, ve1, (fuel - 1) as nat);
        for j in 0..row.len()
            invariant
                same_facts(start, *self),
                tree == rows_view(self.dom_tree@),
                row@ == tree[index as int],
                index < tree.len(),
                fuel > 0,
                child_target is Some,
                child_target == rename_children(
                    blocks_view(self.function.blocks@),
                    tree,
                    index as int,
                    j as int,
                    stack.map(),
                    var_env.map(),
                    (fuel - 1) as nat,
                ),
        {
            if row[j] {
                self.rename(j, stack, var_env, Ghost((fuel - 1) as nat));
            }
        }
    }
}

/// A copy of a row of flags.
fn copy_bools(v: &Vec<bool>) -> (r: Vec<bool>)
    ensures
        r@ == v@,
{
    let mut r: Vec<bool> = Vec::new();
    for i in 0..v.len()
        invariant
            r@ == v@.take(i as int),
    {
        r.push(v[i]);
        assert(v@.take(i + 1) =~= v@.take(i as int).push(v@[i as int]));
    }
    assert(v@.take(v@.len() as int) =~= v@);
    r
}

/// The key of every entry is a key of the map.
proof fn lemma_entries_last_key<V: DeepView>(s: Seq<(String, V)>, j: int)
    requires
        0 <= j < s.len(),
    ensures
        crate::utils::table::entries_map(s).contains_key(s[j].0@),
    decreases s.len(),
{
    if j < s.len() - 1 {
        lemma_entries_last_key(s.drop_last(), j);
        assert(s.drop_last()[j] == s[j]);
    }
}

impl SSAPass {
    /// Gives each variable a stack holding its own name and a counter at
    /// zero, then renames from the first block; see `renamed`.
    fn rename_var(&mut self)
        requires
            renamed(arg_names(old(self).function.args@), blocks_view(old(self).function.blocks@), rows_view(old(self).dom_tree@)) is Some,
        ensures
            renamed(arg_names(old(self).function.args@), blocks_view(old(self).function.blocks@), rows_view(old(self).dom_tree@))
                == Some(blocks_view(final(self).function.blocks@)),
            same_facts(*old(self), *final(self)),
    {
        let var_infos = self.get_var_info();
        let ghost info = info_of(var_infos);
        let mut stack: StrMap<Vec<String>> = StrMap::new();
        let mut var_env: StrMap<usize> = StrMap::new();
        for j in 0..var_infos.entries.len()
            invariant
                info == info_of(var_infos),
                stack.map() == Map::new(|k: Seq<char>| info.0.take(j as int).contains(k), |k: Seq<char>| seq![k]),
                var_env.map() == Map::new(|k: Seq<char>| info.0.take(j as int).contains(k), |k: Seq<char>| 0usize),
        {
            let v = &var_infos.entries[j].0;
            assert(info.0[j as int] == v@);
            let names = vec![v.clone()];
            assert(names.deep_view() =~= seq![v@]);
            stack.insert(v.clone(), names);
            var_env.insert(v.clone(), 0);
            proof {
                assert forall|k: Seq<char>| info.0.take(j + 1).contains(k) <==> (info.0.take(j as int).contains(k) || k == v@) by {
                    assert(info.0.take(j + 1) =~= info.0.take(j as int).push(v@));
                    lemma_push_contains(info.0.take(j as int), v@, k);
                }
            }
            assert(stack.map() =~= Map::new(|k: Seq<char>| info.0.take(j + 1).contains(k), |k: Seq<char>| seq![k]));
            assert(var_env.map() =~= Map::new(|k: Seq<char>| info.0.take(j + 1).contains(k), |k: Seq<char>| 0usize));
        }
        assert(info.0.take(info.0.len() as int) =~= info.0);
        assert(stack.map() =~= init_stacks(info.1));
        assert(var_env.map() =~= init_counters(info.1));
        let n = self.function.blocks.len();
        self.rename(0, &mut stack, &mut var_env, Ghost(n as nat));
    }

    /// Puts the function into SSA form: phis go into the dominance
    /// frontiers of the blocks that write each variable, then every
    /// variable is renamed down the dominator tree; see `ssa_blocks`.
    pub fn to_ssa(&mut self)
        requires
            ssa_blocks(
                arg_names(old(self).function.args@),
                blocks_view(old(self).function.blocks@),
                rows_view(old(self).dom_frontier@),
                rows_view(old(self).dom_tree@),
                rows_view(old(self).pred@),
            ) is Some,
        ensures
            ssa_blocks(
                arg_names(old(self).function.args@),
                blocks_view(old(self).function.blocks@),
                rows_view(old(self).dom_frontier@),
                rows_view(old(self).dom_tree@),
                rows_view(old(self).pred@),
            ) == Some(blocks_view(final(self).function.blocks@)),
            same_facts(*old(self), *final(self)),
    {
        self.insert_phi_node();
        self.rename_var();
    }
}

/// An assignment of `src` to `dest`.
pub open spec fn assign_code(src: Seq<char>, dest: Seq<char>) -> CodeM {
    CodeM::Instruction(InstrM::Assign { src, dest, type_: None })
}

/// For each label `labels[k..]`, an assignment of the matching argument to
/// `dest` put into the first block of that name just before its last line,
/// so that it runs before the block jumps on; `None` where no block has the
/// name, the block has no line, or the argument is missing.
pub open spec fn push_assigns(bs: Seq<BlockM>, dest: Seq<char>, labels: Seq<Seq<char>>, args: Seq<Seq<char>>, k: int) -> Option<
    Seq<BlockM>,
>
    decreases labels.len() - k,
{
    if k < 0 || k >= labels.len() {
        Some(bs)
    } else if k >= args.len() {
        None
    } else {
        match first_block(bs, labels[k], 0) {
            None => None,
            Some(p) => if 0 <= p < bs.len() && bs[p].instrs.len() >= 1 {
                push_assigns(bs.update(p, BlockM { instrs: before_last(bs[p].instrs, assign_code(args[k], dest)), ..bs[p] }), dest, labels, args, k + 1)
            } else {
                None
            },
        }
    }
}

/// The lines with `c` put in just before the last one.
pub open spec fn before_last(cs: Seq<CodeM>, c: CodeM) -> Seq<CodeM> {
    cs.insert(cs.len() - 1, c)
}

/// For each phi among the lines `cs[k..]`, its assignments added to the
/// blocks it reads from, and the number of phis counted on from `count`.
pub open spec fn lower_phis(bs: Seq<BlockM>, cs: Seq<CodeM>, k: int, count: nat) -> Option<(Seq<BlockM>, nat)>
    decreases cs.len() - k,
{
    if k < 0 || k >= cs.len() {
        Some((bs, count))
    } else {
        match cs[k] {
            CodeM::Instruction(InstrM::Phi { dest, labels, args }) => match push_assigns(bs, dest, labels, args, 0) {
                None => None,
                Some(bs1) => lower_phis(bs1, cs, k + 1, count + 1),
            },
            _ => lower_phis(bs, cs, k + 1, count),
        }
    }
}

/// The lines with the second one taken out `n` times; `None` where fewer
/// than two lines are left.
pub open spec fn drop_seconds(cs: Seq<CodeM>, n: nat) -> Option<Seq<CodeM>>
    decreases n,
{
    if n == 0 {
        Some(cs)
    } else if cs.len() <= 1 {
        None
    } else {
        drop_seconds(cs.remove(1), (n - 1) as nat)
    }
}

/// Leaving SSA form from block `i` on: the phis of each block as it was
/// at the start turn into assignments in the blocks they read from, then
/// the block loses as many lines after its first as it had phis.
pub open spec fn from_blocks(bs: Seq<BlockM>, snap: Seq<BlockM>, i: int) -> Option<Seq<BlockM>>
    decreases snap.len() - i,
{
    if i < 0 || i >= snap.len() {
        Some(bs)
    } else {
        match lower_phis(bs, snap[i].instrs, 0, 0) {
            None => None,
            Some((bs1, c)) => if i >= bs1.len() {
                None
            } else {
                match drop_seconds(bs1[i].instrs, c) {
                    None => None,
                    Some(cs) => from_blocks(bs1.update(i, BlockM { instrs: cs, ..bs1[i] }), snap, i + 1),
                }
            },
        }
    }
}

/// The blocks out of SSA form; see `from_blocks`.
pub open spec fn out_of_ssa(bs: Seq<BlockM>) -> Option<Seq<BlockM>> {
    from_blocks(bs, bs, 0)
}

proof fn lemma_first_block_range(bs: Seq<BlockM>, name: Seq<char>, k: int)
    ensures
        first_block(bs, name, k) matches Some(p) ==> 0 <= p < bs.len() && bs[p].name == name,
    decreases bs.len() - k,
{
    if !(k < 0 || k >= bs.len()) && bs[k].name != name {
        lemma_first_block_range(bs, name, k + 1);
    }
}

/// The index of the first block called `name`; see `first_block`.
fn find_block(blocks: &Vec<AbstractBasicBlock>, name: &String) -> (r: Option<usize>)
    ensures
        match r {
            Some(p) => first_block(blocks_view(blocks@), name@, 0) == Some(p as int),
            None => first_block(blocks_view(blocks@), name@, 0) is None,
        },
{
    let ghost bs = blocks_view(blocks@);
    let mut i: usize = 0;
    while i < blocks.len()
        invariant
            bs == blocks_view(blocks@),
            i <= blocks@.len(),
            first_block(bs, name@, 0) == first_block(bs, name@, i as int),
        decreases blocks@.len() - i,
    {
        assert(bs[i as int].name == blocks@[i as int].name@);
        if blocks[i].name == *name {
            return Some(i);
        }
        i = i + 1;
    }
    None
}

impl SSAPass {
    /// Adds, for each label, an assignment of the matching argument to
    /// `dest` just before the last line of the block of that name; see
    /// `push_assigns`.
    fn push_assigns_exec(&mut self, dest: &String, labels: &Vec<String>, args: &Vec<String>)
        requires
            push_assigns(blocks_view(old(self).function.blocks@), dest@, strs_view(labels@), strs_view(args@), 0) is Some,
        ensures
            push_assigns(blocks_view(old(self).function.blocks@), dest@, strs_view(labels@), strs_view(args@), 0) == Some(
                blocks_view(final(self).function.blocks@),
            ),
            same_facts(*old(self), *final(self)),
    {
        let ghost start = *self;
        let ghost target = push_assigns(blocks_view(self.function.blocks@), dest@, strs_view(labels@), strs_view(args@), 0);
        for i in 0..labels.len()
            invariant
                same_facts(start, *self),
                target is Some,
                target == push_assigns(blocks_view(self.function.blocks@), dest@, strs_view(labels@), strs_view(args@), i as int),
        {
            let ghost bs = blocks_view(self.function.blocks@);
            assert(strs_view(labels@)[i as int] == labels@[i as int]@);
            let label_pos = find_block(&self.function.blocks, &labels[i]).unwrap();
            proof {
                lemma_first_block_range(bs, labels@[i as int]@, 0);
            }
            assert(strs_view(args@)[i as int] == args@[i as int]@);
            let code = AbstractCode::Instruction(
                AbstractInstruction::Assign { src: args[i].clone(), dest: dest.clone(), type_: None },
            );
            assert(code_view(code) == assign_code(args@[i as int]@, dest@));
            assert(bs[label_pos as int] == block_view(self.function.blocks@[label_pos as int]));
            let blk = &mut self.function.blocks[label_pos];
            let ghost old_instrs = blk.instrs@;
            let last = blk.instrs.len() - 1;
            blk.instrs.insert(last, code);
            assert(codes_view(blk.instrs@) =~= before_last(codes_view(old_instrs), code_view(code)));
            assert(blocks_view(self.function.blocks@) =~= bs.update(
                label_pos as int,
                BlockM { instrs: before_last(bs[label_pos as int].instrs, assign_code(args@[i as int]@, dest@)), ..bs[label_pos as int] },
            ));
        }
    }

    /// Turns the phis among the lines `cs` of a block, as `phis` lists them,
    /// into assignments in the blocks they read from, and counts them; see
    /// `lower_phis`.
    fn lower_block_phis(&mut self, phis: &Vec<PhiCopy>, Ghost(cs): Ghost<Seq<CodeM>>) -> (count: usize)
        requires
            phis_copied(phis@, cs),
            lower_phis(blocks_view(old(self).function.blocks@), cs, 0, 0) is Some,
        ensures
            lower_phis(blocks_view(old(self).function.blocks@), cs, 0, 0) == Some((blocks_view(final(self).function.blocks@), count as nat)),
            same_facts(*old(self), *final(self)),
    {
        let ghost start = *self;
        let ghost target = lower_phis(blocks_view(self.function.blocks@), cs, 0, 0);
        let mut count: usize = 0;
        for idx in 0..phis.len()
            invariant
                same_facts(start, *self),
                phis_copied(phis@, cs),
                count <= idx,
                target is Some,
                target == lower_phis(blocks_view(self.function.blocks@), cs, idx as int, count as nat),
        {
            assert(phi_copied(phis@[idx as int], cs[idx as int]));
            match &phis[idx] {
                Some((dest, labels, args)) => {
                    self.push_assigns_exec(dest, labels, args);
                    count = count + 1;
                },
                None => {},
            }
        }
        count
    }

    /// Takes the phis out of the function: the phis of each block, as the
    /// block was at the start, become assignments put just before the last
    /// line of the blocks they read from, and the block then loses as many
    /// lines after its first as it had phis; see `out_of_ssa`.
    pub fn from_ssa(&mut self)
        requires
            out_of_ssa(blocks_view(old(self).function.blocks@)) is Some,
        ensures
            out_of_ssa(blocks_view(old(self).function.blocks@)) == Some(blocks_view(final(self).function.blocks@)),
            same_facts(*old(self), *final(self)),
    {
        let ghost start = *self;
        let ghost snap = blocks_view(self.function.blocks@);
        let n = self.function.blocks.len();
        let mut snaps: Vec<Vec<PhiCopy>> = Vec::new();
        for i in 0..n
            invariant
                n == self.function.blocks@.len(),
                snap == blocks_view(self.function.blocks@),
                snaps@.len() == i,
                forall|j: int| 0 <= j < i ==> phis_copied((#[trigger] snaps@[j])@, snap[j].instrs),
        {
            assert(snap[i as int] == block_view(self.function.blocks@[i as int]));
            snaps.push(copy_phis(&self.function.blocks[i]));
        }
        for i in 0..n
            invariant
                same_facts(start, *self),
                n == snap.len(),
                snaps@.len() == n,
                forall|j: int| 0 <= j < n ==> phis_copied((#[trigger] snaps@[j])@, snap[j].instrs),
                blocks_view(self.function.blocks@).len() == n,
                out_of_ssa(snap) is Some,
                out_of_ssa(snap) == from_blocks(blocks_view(self.function.blocks@), snap, i as int),
        {
            let ghost bs = blocks_view(self.function.blocks@);
            assert(phis_copied(snaps@[i as int]@, snap[i as int].instrs));
            let count = self.lower_block_phis(&snaps[i], Ghost(snap[i as int].instrs));
            let ghost bs1 = blocks_view(self.function.blocks@);
            proof {
                lemma_lower_phis_shape(bs, snap[i as int].instrs, 0, 0);
            }
            let ghost target_i = drop_seconds(bs1[i as int].instrs, count as nat);
            for r in 0..count
                invariant
                    same_facts(start, *self),
                    i < n,
                    blocks_view(self.function.blocks@) == bs1.update(i as int, BlockM { instrs: blocks_view(self.function.blocks@)[i as int].instrs, ..bs1[i as int] }),
                    bs1.len() == n,
                    self.function.blocks@.len() == n,
                    target_i is Some,
                    target_i == drop_seconds(blocks_view(self.function.blocks@)[i as int].instrs, (count - r) as nat),
            {
                let ghost bsr = blocks_view(self.function.blocks@);
                assert(bsr[i as int] == block_view(self.function.blocks@[i as int]));
                assert(bsr[i as int].instrs.len() == self.function.blocks@[i as int].instrs@.len());
                let blk = &mut self.function.blocks[i];
                let ghost old_instrs = blk.instrs@;
                blk.instrs.remove(1);
                assert(codes_view(blk.instrs@) =~= codes_view(old_instrs).remove(1));
                assert(blocks_view(self.function.blocks@)[i as int] == BlockM { instrs: codes_view(old_instrs).remove(1), ..bs1[i as int] });
                assert forall|p: int| 0 <= p < n && p != i implies blocks_view(self.function.blocks@)[p] == bs1[p] by {
                    assert(bsr[p] == bs1[p]);
                }
                assert(blocks_view(self.function.blocks@) =~= bs1.update(
                    i as int,
                    BlockM { instrs: codes_view(old_instrs).remove(1), ..bs1[i as int] },
                ));
            }
            proof {
                let bs2 = blocks_view(self.function.blocks@);
                assert(bs2 =~= bs1.update(i as int, BlockM { instrs: target_i->Some_0, ..bs1[i as int] }));
            }
        }
    }
}

/// What a line of a block says, kept for later: the place, labels and
/// arguments of a phi, or nothing for any other line.
pub type PhiCopy = Option<(String, Vec<String>, Vec<String>)>;

pub open spec fn phi_copied(o: PhiCopy, c: CodeM) -> bool {
    match c {
        CodeM::Instruction(InstrM::Phi { dest, labels, args }) => o matches Some(t) && t.0@ == dest && strs_view(t.1@)
            == labels && strs_view(t.2@) == args,
        _ => o is None,
    }
}

pub open spec fn phis_copied(v: Seq<PhiCopy>, cs: Seq<CodeM>) -> bool {
    &&& v.len() == cs.len()
    &&& forall|i: int| 0 <= i < v.len() ==> phi_copied(#[trigger] v[i], cs[i])
}

/// The phis of a block, line by line.
fn copy_phis(b: &AbstractBasicBlock) -> (r: Vec<PhiCopy>)
    ensures
        phis_copied(r@, block_view(*b).instrs),
{
    let ghost cs = block_view(*b).instrs;
    let mut r: Vec<PhiCopy> = Vec::new();
    for k in 0..b.instrs.len()
        invariant
            cs == block_view(*b).instrs,
            cs.len() == b.instrs@.len(),
            r@.len() == k,
            forall|i: int| 0 <= i < k ==> phi_copied(#[trigger] r@[i], cs[i]),
    {
        assert(cs[k as int] == b.instrs@[k as int]@);
        let o = match &b.instrs[k] {
            AbstractCode::Instruction(AbstractInstruction::Phi { dest, labels, args }) => Some(
                (dest.clone(), clone_names(labels), clone_names(args)),
            ),
            _ => None,
        };
        r.push(o);
    }
    r
}

/// A copy of a list of names.
fn clone_names(v: &Vec<String>) -> (r: Vec<String>)
    ensures
        strs_view(r@) == strs_view(v@),
{
    let mut r: Vec<String> = Vec::new();
    for i in 0..v.len()
        invariant
            strs_view(r@) == strs_view(v@).take(i as int),
    {
        let ghost r0 = r@;
        r.push(v[i].clone());
        assert(strs_view(r@) =~= strs_view(r0).push(v@[i as int]@));
        assert(strs_view(v@).take(i + 1) =~= strs_view(v@).take(i as int).push(v@[i as int]@));
    }
    assert(strs_view(v@).take(v@.len() as int) =~= strs_view(v@));
    r
}

/// `b` has as many blocks as `a`, each with the name and successors it has
/// in `a`.
pub open spec fn same_shape(a: Seq<BlockM>, b: Seq<BlockM>) -> bool {
    &&& b.len() == a.len()
    &&& forall|p: int| 0 <= p < a.len() ==> (#[trigger] b[p]).name == a[p].name && b[p].successors == a[p].successors
}

proof fn lemma_shape_trans(a: Seq<BlockM>, b: Seq<BlockM>, c: Seq<BlockM>)
    requires
        same_shape(a, b),
        same_shape(b, c),
    ensures
        same_shape(a, c),
{
    assert forall|p: int| 0 <= p < a.len() implies (#[trigger] c[p]).name == a[p].name && c[p].successors == a[p].successors by {
        assert(b[p].name == a[p].name);
    }
}

/// Changing the lines of one block keeps the shape.
proof fn lemma_shape_update(a: Seq<BlockM>, i: int, cs: Seq<CodeM>)
    requires
        0 <= i < a.len(),
    ensures
        same_shape(a, a.update(i, BlockM { instrs: cs, ..a[i] })),
{
}

proof fn lemma_phis_walk_shape(
    bs: Seq<BlockM>,
    v: Seq<char>,
    defs: Seq<usize>,
    k: int,
    b: int,
    done: Seq<bool>,
    df: Rows,
    preds: Rows,
)
    requires
        phis_walk(bs, v, defs, k, b, done, df, preds) is Some,
    ensures
        same_shape(bs, phis_walk(bs, v, defs, k, b, done, df, preds)->Some_0),
    decreases false_count(done), defs.len() - k, walk_row(defs, k, df).len() - b,
{
    if k < 0 || k >= defs.len() {
    } else {
        let row = df[defs[k] as int];
        if b < 0 || b >= row.len() {
            lemma_phis_walk_shape(bs, v, defs, k + 1, 0, done, df, preds);
        } else if !row[b] || done[b] {
            lemma_phis_walk_shape(bs, v, defs, k, b + 1, done, df, preds);
        } else {
            let bs1 = insert_phi(bs, v, b, preds)->Some_0;
            lemma_false_count_mark(done, b);
            lemma_shape_update(bs, b, bs[b].instrs.insert(1, phi_code(v, pred_labels(bs, preds[b], bs.len() as int))));
            let defs1 = if defs.contains(b as usize) {
                defs
            } else {
                defs.push(b as usize)
            };
            lemma_phis_walk_shape(bs1, v, defs1, k, b + 1, done.update(b, true), df, preds);
            lemma_shape_trans(bs, bs1, phis_walk(bs1, v, defs1, k, b + 1, done.update(b, true), df, preds)->Some_0);
        }
    }
}

proof fn lemma_phis_vars_shape(
    bs: Seq<BlockM>,
    vars: Seq<Seq<char>>,
    defs: Map<Seq<char>, Seq<usize>>,
    k: int,
    df: Rows,
    preds: Rows,
)
    requires
        phis_vars(bs, vars, defs, k, df, preds) is Some,
    ensures
        same_shape(bs, phis_vars(bs, vars, defs, k, df, preds)->Some_0),
    decreases vars.len() - k,
{
    if !(k < 0 || k >= vars.len()) {
        lemma_phis_walk_shape(bs, vars[k], defs[vars[k]], 0, 0, Seq::new(bs.len(), |i: int| false), df, preds);
        let bs1 = phis_var(bs, vars[k], defs[vars[k]], df, preds)->Some_0;
        lemma_phis_vars_shape(bs1, vars, defs, k + 1, df, preds);
        lemma_shape_trans(bs, bs1, phis_vars(bs1, vars, defs, k + 1, df, preds)->Some_0);
    }
}

proof fn lemma_rename_succs_shape(bs: Seq<BlockM>, succs: Seq<usize>, k: int, st: Stacks, label: Seq<char>)
    requires
        rename_succs(bs, succs, k, st, label) is Some,
    ensures
        same_shape(bs, rename_succs(bs, succs, k, st, label)->Some_0),
    decreases succs.len() - k,
{
    if !(k < 0 || k >= succs.len()) {
        let s = succs[k] as int;
        let cs = rename_phi_codes(bs[s].instrs, 0, st, label)->Some_0;
        let bs1 = bs.update(s, BlockM { instrs: cs, ..bs[s] });
        lemma_shape_update(bs, s, cs);
        lemma_rename_succs_shape(bs1, succs, k + 1, st, label);
        lemma_shape_trans(bs, bs1, rename_succs(bs1, succs, k + 1, st, label)->Some_0);
    }
}

proof fn lemma_rename_block_shape(bs: Seq<BlockM>, tree: Rows, i: int, st: Stacks, ve: Counters, fuel: nat)
    requires
        rename_block(bs, tree, i, st, ve, fuel) is Some,
    ensures
        same_shape(bs, rename_block(bs, tree, i, st, ve, fuel)->Some_0.0),
    decreases fuel, 0int, 0int,
{
    let (cs, st1, ve1) = rename_codes(bs[i].instrs, 0, st, ve)->Some_0;
    let bs1 = bs.update(i, BlockM { instrs: cs, ..bs[i] });
    lemma_shape_update(bs, i, cs);
    lemma_rename_succs_shape(bs1, bs[i].successors, 0, st1, bs[i].name);
    let bs2 = rename_succs(bs1, bs[i].successors, 0, st1, bs[i].name)->Some_0;
    lemma_shape_trans(bs, bs1, bs2);
    lemma_rename_children_shape(bs2, tree, i, 0, st1, ve1, (fuel - 1) as nat);
    lemma_shape_trans(bs, bs2, rename_children(bs2, tree, i, 0, st1, ve1, (fuel - 1) as nat)->Some_0.0);
}

proof fn lemma_rename_children_shape(bs: Seq<BlockM>, tree: Rows, i: int, k: int, st: Stacks, ve: Counters, fuel: nat)
    requires
        rename_children(bs, tree, i, k, st, ve, fuel) is Some,
    ensures
        same_shape(bs, rename_children(bs, tree, i, k, st, ve, fuel)->Some_0.0),
    decreases fuel, 1int, if 0 <= i < tree.len() { tree[i].len() - k } else { 0 },
{
    if i < 0 || i >= tree.len() || k < 0 || k >= tree[i].len() {
    } else if tree[i][k] {
        lemma_rename_block_shape(bs, tree, k, st, ve, fuel);
        let (bs1, st1, ve1) = rename_block(bs, tree, k, st, ve, fuel)->Some_0;
        lemma_rename_children_shape(bs1, tree, i, k + 1, st1, ve1, fuel);
        lemma_shape_trans(bs, bs1, rename_children(bs1, tree, i, k + 1, st1, ve1, fuel)->Some_0.0);
    } else {
        lemma_rename_children_shape(bs, tree, i, k + 1, st, ve, fuel);
    }
}

/// Putting a function into SSA form keeps its blocks, their names and
/// their successors: only lines change.
pub(crate) proof fn lemma_ssa_shape(args: Seq<Seq<char>>, bs: Seq<BlockM>, df: Rows, tree: Rows, preds: Rows)
    requires
        ssa_blocks(args, bs, df, tree, preds) is Some,
    ensures
        same_shape(bs, ssa_blocks(args, bs, df, tree, preds)->Some_0),
{
    let info = var_info(args, bs);
    lemma_phis_vars_shape(bs, info.0, info.1, 0, df, preds);
    let bs1 = with_phis(args, bs, df, preds)->Some_0;
    let info1 = var_info(args, bs1);
    lemma_rename_block_shape(bs1, tree, 0, init_stacks(info1.1), init_counters(info1.1), bs1.len());
    lemma_shape_trans(bs, bs1, ssa_blocks(args, bs, df, tree, preds)->Some_0);
}

proof fn lemma_push_assigns_shape(bs: Seq<BlockM>, dest: Seq<char>, labels: Seq<Seq<char>>, args: Seq<Seq<char>>, k: int)
    requires
        push_assigns(bs, dest, labels, args, k) is Some,
    ensures
        same_shape(bs, push_assigns(bs, dest, labels, args, k)->Some_0),
    decreases labels.len() - k,
{
    if !(k < 0 || k >= labels.len()) {
        let p = first_block(bs, labels[k], 0)->Some_0;
        lemma_first_block_range(bs, labels[k], 0);
        let bs1 = bs.update(p, BlockM { instrs: before_last(bs[p].instrs, assign_code(args[k], dest)), ..bs[p] });
        lemma_shape_update(bs, p, before_last(bs[p].instrs, assign_code(args[k], dest)));
        lemma_push_assigns_shape(bs1, dest, labels, args, k + 1);
        lemma_shape_trans(bs, bs1, push_assigns(bs1, dest, labels, args, k + 1)->Some_0);
    }
}

proof fn lemma_lower_phis_shape(bs: Seq<BlockM>, cs: Seq<CodeM>, k: int, count: nat)
    requires
        lower_phis(bs, cs, k, count) is Some,
    ensures
        same_shape(bs, lower_phis(bs, cs, k, count)->Some_0.0),
    decreases cs.len() - k,
{
    if !(k < 0 || k >= cs.len()) {
        match cs[k] {
            CodeM::Instruction(InstrM::Phi { dest, labels, args }) => {
                lemma_push_assigns_shape(bs, dest, labels, args, 0);
                let bs1 = push_assigns(bs, dest, labels, args, 0)->Some_0;
                lemma_lower_phis_shape(bs1, cs, k + 1, count + 1);
                lemma_shape_trans(bs, bs1, lower_phis(bs1, cs, k + 1, count + 1)->Some_0.0);
            },
            _ => {
                lemma_lower_phis_shape(bs, cs, k + 1, count);
            },
        }
    }
}

proof fn lemma_from_blocks_shape(bs: Seq<BlockM>, snap: Seq<BlockM>, i: int)
    requires
        from_blocks(bs, snap, i) is Some,
    ensures
        same_shape(bs, from_blocks(bs, snap, i)->Some_0),
    decreases snap.len() - i,
{
    if !(i < 0 || i >= snap.len()) {
        lemma_lower_phis_shape(bs, snap[i].instrs, 0, 0);
        let (bs1, c) = lower_phis(bs, snap[i].instrs, 0, 0)->Some_0;
        let cs = drop_seconds(bs1[i].instrs, c)->Some_0;
        let bs2 = bs1.update(i, BlockM { instrs: cs, ..bs1[i] });
        lemma_shape_update(bs1, i, cs);
        lemma_shape_trans(bs, bs1, bs2);
        lemma_from_blocks_shape(bs2, snap, i + 1);
        lemma_shape_trans(bs, bs2, from_blocks(bs2, snap, i + 1)->Some_0);
    }
}

/// Taking a function out of SSA form keeps its blocks, their names and
/// their successors: only lines change.
pub(crate) proof fn lemma_out_of_ssa_shape(bs: Seq<BlockM>)
    requires
        out_of_ssa(bs) is Some,
    ensures
        same_shape(bs, out_of_ssa(bs)->Some_0),
{
    lemma_from_blocks_shape(bs, bs, 0);
}

/// The line is a phi for `v`.
pub open spec fn is_phi_for(c: CodeM, v: Seq<char>) -> bool {
    c matches CodeM::Instruction(InstrM::Phi { dest, .. }) && dest == v
}

/// The number of phis for `v` among the lines.
pub open spec fn phi_count(cs: Seq<CodeM>, v: Seq<char>) -> nat
    decreases cs.len(),
{
    if cs.len() == 0 {
        0
    } else {
        (if is_phi_for(cs[0], v) {
            1nat
        } else {
            0nat
        }) + phi_count(cs.drop_first(), v)
    }
}

proof fn lemma_phi_count_insert(cs: Seq<CodeM>, x: CodeM, v: Seq<char>)
    requires
        cs.len() >= 1,
    ensures
        phi_count(cs.insert(1, x), v) == phi_count(cs, v) + (if is_phi_for(x, v) {
            1nat
        } else {
            0nat
        }),
{
    let c2 = cs.insert(1, x);
    let mid = seq![x] + cs.drop_first();
    assert(c2[0] == cs[0]);
    assert(c2.drop_first() =~= mid);
    assert(mid[0] == x);
    assert(mid.drop_first() =~= cs.drop_first());
    assert(phi_count(mid, v) == (if is_phi_for(x, v) {
        1nat
    } else {
        0nat
    }) + phi_count(cs.drop_first(), v));
    assert(phi_count(c2, v) == (if is_phi_for(cs[0], v) {
        1nat
    } else {
        0nat
    }) + phi_count(mid, v));
}

proof fn lemma_insert_phi_count(bs: Seq<BlockM>, v2: Seq<char>, b2: int, preds: Rows, v: Seq<char>, b: int)
    requires
        insert_phi(bs, v2, b2, preds) is Some,
        0 <= b < bs.len(),
    ensures
        insert_phi(bs, v2, b2, preds)->Some_0.len() == bs.len(),
        phi_count(insert_phi(bs, v2, b2, preds)->Some_0[b].instrs, v) == phi_count(bs[b].instrs, v) + (if b == b2
            && v == v2 {
            1nat
        } else {
            0nat
        }),
{
    let x = phi_code(v2, pred_labels(bs, preds[b2], bs.len() as int));
    if b == b2 {
        lemma_phi_count_insert(bs[b].instrs, x, v);
    }
}

proof fn lemma_phis_walk_count(
    bs: Seq<BlockM>,
    v2: Seq<char>,
    defs: Seq<usize>,
    k: int,
    b2: int,
    done: Seq<bool>,
    df: Rows,
    preds: Rows,
    v: Seq<char>,
    b: int,
)
    requires
        phis_walk(bs, v2, defs, k, b2, done, df, preds) is Some,
        0 <= b < bs.len(),
    ensures
        phis_walk(bs, v2, defs, k, b2, done, df, preds)->Some_0.len() == bs.len(),
        v != v2 ==> phi_count(phis_walk(bs, v2, defs, k, b2, done, df, preds)->Some_0[b].instrs, v) == phi_count(bs[b].instrs, v),
        v == v2 ==> phi_count(phis_walk(bs, v2, defs, k, b2, done, df, preds)->Some_0[b].instrs, v) <= phi_count(bs[b].instrs, v)
            + (if b < done.len() && !done[b] {
            1nat
        } else {
            0nat
        }),
    decreases false_count(done), defs.len() - k, walk_row(defs, k, df).len() - b2,
{
    if k < 0 || k >= defs.len() {
    } else {
        let row = df[defs[k] as int];
        if b2 < 0 || b2 >= row.len() {
            lemma_phis_walk_count(bs, v2, defs, k + 1, 0, done, df, preds, v, b);
        } else if !row[b2] || done[b2] {
            lemma_phis_walk_count(bs, v2, defs, k, b2 + 1, done, df, preds, v, b);
        } else {
            let bs1 = insert_phi(bs, v2, b2, preds)->Some_0;
            lemma_false_count_mark(done, b2);
            lemma_insert_phi_count(bs, v2, b2, preds, v, b);
            let defs1 = if defs.contains(b2 as usize) {
                defs
            } else {
                defs.push(b2 as usize)
            };
            lemma_phis_walk_count(bs1, v2, defs1, k, b2 + 1, done.update(b2, true), df, preds, v, b);
        }
    }
}

/// The walk of `phis_walk` on the marks alone: the list of writers it ends
/// with and the blocks it has marked (given a phi).
pub open spec fn walk_marks(defs: Seq<usize>, k: int, b: int, done: Seq<bool>, df: Rows) -> (Seq<usize>, Seq<bool>)
    decreases false_count(done), defs.len() - k, walk_row(defs, k, df).len() - b,
{
    if k < 0 || k >= defs.len() || defs[k] >= df.len() {
        (defs, done)
    } else {
        let row = df[defs[k] as int];
        if b < 0 || b >= row.len() {
            walk_marks(defs, k + 1, 0, done, df)
        } else if !row[b] {
            walk_marks(defs, k, b + 1, done, df)
        } else if b >= done.len() {
            (defs, done)
        } else if done[b] {
            walk_marks(defs, k, b + 1, done, df)
        } else {
            proof {
                lemma_false_count_mark(done, b);
            }
            walk_marks(
                if defs.contains(b as usize) {
                    defs
                } else {
                    defs.push(b as usize)
                },
                k,
                b + 1,
                done.update(b, true),
                df,
            )
        }
    }
}

/// Whether block `d` writes the variable: it is listed in `defs` or is in `s`.
pub open spec fn writes_in(defs: Seq<usize>, s: Set<int>, d: int) -> bool {
    defs.map_values(|x: usize| x as int).contains(d) || s.contains(d)
}

/// Whether `s` holds the dominance frontier of every block that writes the
/// variable, the blocks of `s` counted among the writers.
pub open spec fn frontier_closed(defs: Seq<usize>, s: Set<int>, df: Rows) -> bool {
    forall|d: int, j: int|
        #![trigger writes_in(defs, s, d), df[d][j]]
        0 <= d < df.len() && 0 <= j < df[d].len() && df[d][j] && writes_in(defs, s, d) ==> s.contains(j)
}

/// The walk gives a phi exactly to the blocks it marks, and keeps what was
/// marked before.
proof fn lemma_walk_marks_count(
    bs: Seq<BlockM>,
    v: Seq<char>,
    defs: Seq<usize>,
    k: int,
    b2: int,
    done: Seq<bool>,
    df: Rows,
    preds: Rows,
    b: int,
)
    requires
        phis_walk(bs, v, defs, k, b2, done, df, preds) is Some,
        done.len() == bs.len(),
        0 <= b,
    ensures
        walk_marks(defs, k, b2, done, df).1.len() == done.len(),
        b < bs.len() && done[b] ==> walk_marks(defs, k, b2, done, df).1[b],
        b < bs.len() ==> phi_count(phis_walk(bs, v, defs, k, b2, done, df, preds)->Some_0[b].instrs, v) == phi_count(bs[b].instrs, v)
            + (if walk_marks(defs, k, b2, done, df).1[b] && !done[b] {
            1nat
        } else {
            0nat
        }),
    decreases false_count(done), defs.len() - k, walk_row(defs, k, df).len() - b2,
{
    if k < 0 || k >= defs.len() {
    } else {
        let row = df[defs[k] as int];
        if b2 < 0 || b2 >= row.len() {
            lemma_walk_marks_count(bs, v, defs, k + 1, 0, done, df, preds, b);
        } else if !row[b2] || done[b2] {
            lemma_walk_marks_count(bs, v, defs, k, b2 + 1, done, df, preds, b);
        } else {
            let bs1 = insert_phi(bs, v, b2, preds)->Some_0;
            lemma_false_count_mark(done, b2);
            if b < bs.len() {
                lemma_insert_phi_count(bs, v, b2, preds, v, b);
            }
            lemma_phis_walk_shape(bs, v, defs, k, b2, done, df, preds);
            let defs1 = if defs.contains(b2 as usize) {
                defs
            } else {
                defs.push(b2 as usize)
            };
            lemma_walk_marks_count(bs1, v, defs1, k, b2 + 1, done.update(b2, true), df, preds, b);
        }
    }
}

/// Where the walk completes, every writer it ends with has a row of
/// dominance frontier all of whose blocks are marked, and every marked
/// block is among those writers.
proof fn lemma_walk_marks_closed(
    bs: Seq<BlockM>,
    v: Seq<char>,
    defs: Seq<usize>,
    k: int,
    b2: int,
    done: Seq<bool>,
    df: Rows,
    preds: Rows,
)
    requires
        phis_walk(bs, v, defs, k, b2, done, df, preds) is Some,
        done.len() == bs.len(),
        bs.len() <= usize::MAX,
        0 <= k,
        0 <= b2,
        forall|i: int, j: int|
            #![trigger df[defs[i] as int][j]]
            0 <= i < k && i < defs.len() && defs[i] < df.len() && 0 <= j < df[defs[i] as int].len()
                && df[defs[i] as int][j] ==> j < done.len() && done[j],
        k < defs.len() && defs[k] < df.len() ==> forall|j: int|
            #![trigger df[defs[k] as int][j]]
            0 <= j < b2 && j < df[defs[k] as int].len() && df[defs[k] as int][j] ==> j < done.len() && done[j],
        forall|i: int| #![trigger done[i]] 0 <= i < done.len() && done[i] ==> defs.contains(i as usize),
        forall|i: int| #![trigger defs[i]] 0 <= i < k && i < defs.len() ==> defs[i] < df.len(),
    ensures
        ({
            let (dd, mm) = walk_marks(defs, k, b2, done, df);
            &&& forall|i: int| #![trigger dd[i]] 0 <= i < dd.len() ==> dd[i] < df.len()
            &&& forall|i: int, j: int|
                #![trigger df[dd[i] as int][j]]
                0 <= i < dd.len() && 0 <= j < df[dd[i] as int].len() && df[dd[i] as int][j] ==> j < mm.len() && mm[j]
            &&& forall|i: int| #![trigger mm[i]] 0 <= i < mm.len() && mm[i] ==> dd.contains(i as usize)
            &&& defs.len() <= dd.len()
            &&& forall|i: int| #![trigger defs[i]] 0 <= i < defs.len() ==> dd[i] == defs[i]
        }),
    decreases false_count(done), defs.len() - k, walk_row(defs, k, df).len() - b2,
{
    if k >= defs.len() {
    } else {
        let row = df[defs[k] as int];
        if b2 >= row.len() {
            lemma_walk_marks_closed(bs, v, defs, k + 1, 0, done, df, preds);
        } else if !row[b2] || done[b2] {
            lemma_walk_marks_closed(bs, v, defs, k, b2 + 1, done, df, preds);
        } else {
            let bs1 = insert_phi(bs, v, b2, preds)->Some_0;
            lemma_false_count_mark(done, b2);
            let defs1 = if defs.contains(b2 as usize) {
                defs
            } else {
                defs.push(b2 as usize)
            };
            let done1 = done.update(b2, true);
            assert forall|i: int| #![trigger done1[i]] 0 <= i < done1.len() && done1[i] implies defs1.contains(i as usize) by {
                if i == b2 {
                    if !defs.contains(b2 as usize) {
                        assert(defs1[defs.len() as int] == b2 as usize);
                    }
                } else {
                    let w = choose|w: int| 0 <= w < defs.len() && defs[w] == i as usize;
                    assert(defs1[w] == i as usize);
                }
            }
            assert forall|i: int| #![trigger defs1[i]] 0 <= i < k && i < defs1.len() implies defs1[i] < df.len() by {
                assert(defs1[i] == defs[i]);
            }
            assert forall|i: int, j: int|
                #![trigger df[defs1[i] as int][j]]
                0 <= i < k && i < defs1.len() && defs1[i] < df.len() && 0 <= j < df[defs1[i] as int].len()
                    && df[defs1[i] as int][j] implies j < done1.len() && done1[j] by {
                assert(defs1[i] == defs[i]);
                assert(df[defs[i] as int][j]);
            }
            assert(defs1[k] == defs[k]);
            assert(bs1.len() == bs.len());
            lemma_walk_marks_closed(bs1, v, defs1, k, b2 + 1, done1, df, preds);
            let dd = walk_marks(defs1, k, b2 + 1, done1, df).0;
            assert forall|i: int| #![trigger defs[i]] 0 <= i < defs.len() implies dd[i] == defs[i] by {
                assert(defs1[i] == defs[i]);
            }
        }
    }
}

/// The walk marks no block outside a set that holds the dominance frontier
/// of every writer, those listed and those in the set.
proof fn lemma_walk_marks_least(defs0: Seq<usize>, defs: Seq<usize>, k: int, b2: int, done: Seq<bool>, df: Rows, s: Set<int>)
    requires
        frontier_closed(defs0, s, df),
        done.len() <= usize::MAX,
        forall|i: int| #![trigger defs[i]] 0 <= i < defs.len() ==> writes_in(defs0, s, defs[i] as int),
        forall|i: int| #![trigger done[i]] 0 <= i < done.len() && done[i] ==> s.contains(i),
    ensures
        forall|i: int|
            #![trigger walk_marks(defs, k, b2, done, df).1[i]]
            0 <= i < walk_marks(defs, k, b2, done, df).1.len() && walk_marks(defs, k, b2, done, df).1[i] ==> s.contains(i),
    decreases false_count(done), defs.len() - k, walk_row(defs, k, df).len() - b2,
{
    let mm = walk_marks(defs, k, b2, done, df).1;
    if k < 0 || k >= defs.len() || defs[k] >= df.len() {
        assert(mm == done);
    } else {
        let row = df[defs[k] as int];
        if b2 < 0 || b2 >= row.len() {
            lemma_walk_marks_least(defs0, defs, k + 1, 0, done, df, s);
            assert(mm == walk_marks(defs, k + 1, 0, done, df).1);
        } else if !row[b2] || (b2 < done.len() && done[b2]) {
            lemma_walk_marks_least(defs0, defs, k, b2 + 1, done, df, s);
            assert(mm == walk_marks(defs, k, b2 + 1, done, df).1);
        } else if b2 >= done.len() {
            assert(mm == done);
        } else {
            lemma_false_count_mark(done, b2);
            let d = defs[k] as int;
            assert(writes_in(defs0, s, d));
            assert(df[d][b2]);
            assert(s.contains(b2));
            let defs1 = if defs.contains(b2 as usize) {
                defs
            } else {
                defs.push(b2 as usize)
            };
            let done1 = done.update(b2, true);
            assert forall|i: int| #![trigger defs1[i]] 0 <= i < defs1.len() implies writes_in(defs0, s, defs1[i] as int) by {
                if i < defs.len() {
                    assert(defs1[i] == defs[i]);
                } else {
                    assert(defs1[i] == b2 as usize);
                    assert(defs1[i] as int == b2);
                }
            }
            assert forall|i: int| #![trigger done1[i]] 0 <= i < done1.len() && done1[i] implies s.contains(i) by {
                if i != b2 {
                    assert(done[i]);
                }
            }
            lemma_walk_marks_least(defs0, defs1, k, b2 + 1, done1, df, s);
            assert(mm == walk_marks(defs1, k, b2 + 1, done1, df).1);
        }
    }
}

/// Where the phis for `v` go in, the blocks that gain one are exactly the
/// least set that holds the dominance frontier of every block that writes
/// `v` (a block that gains a phi now writes it); each gains one phi.
pub(crate) proof fn lemma_phis_var_frontier(bs: Seq<BlockM>, v: Seq<char>, defs: Seq<usize>, df: Rows, preds: Rows)
    requires
        phis_var(bs, v, defs, df, preds) is Some,
        bs.len() <= usize::MAX,
    ensures
        ({
            let after = phis_var(bs, v, defs, df, preds)->Some_0;
            let gained = Set::new(|b: int| 0 <= b < bs.len() && phi_count(after[b].instrs, v) > phi_count(bs[b].instrs, v));
            &&& after.len() == bs.len()
            &&& forall|b: int|
                #![trigger after[b]]
                0 <= b < bs.len() ==> phi_count(after[b].instrs, v) == phi_count(bs[b].instrs, v) + (if gained.contains(b) {
                    1nat
                } else {
                    0nat
                })
            &&& frontier_closed(defs, gained, df)
            &&& forall|s: Set<int>| #![trigger frontier_closed(defs, s, df)] frontier_closed(defs, s, df) ==> gained.subset_of(s)
        }),
{
    let done0 = Seq::new(bs.len(), |i: int| false);
    let after = phis_var(bs, v, defs, df, preds)->Some_0;
    let gained = Set::new(|b: int| 0 <= b < bs.len() && phi_count(after[b].instrs, v) > phi_count(bs[b].instrs, v));
    let (dd, mm) = walk_marks(defs, 0, 0, done0, df);
    lemma_phis_walk_shape(bs, v, defs, 0, 0, done0, df, preds);
    assert(after.len() == bs.len());
    assert forall|b: int| 0 <= b < bs.len() implies (gained.contains(b) <==> mm[b]) && phi_count(after[b].instrs, v)
        == phi_count(bs[b].instrs, v) + (if mm[b] {
        1nat
    } else {
        0nat
    }) by {
        lemma_walk_marks_count(bs, v, defs, 0, 0, done0, df, preds, b);
    }
    lemma_walk_marks_count(bs, v, defs, 0, 0, done0, df, preds, 0);
    assert(mm.len() == bs.len());
    assert forall|b: int| #![trigger after[b]] 0 <= b < bs.len() implies phi_count(after[b].instrs, v) == phi_count(bs[b].instrs, v)
        + (if gained.contains(b) {
        1nat
    } else {
        0nat
    }) by {
        lemma_walk_marks_count(bs, v, defs, 0, 0, done0, df, preds, b);
    }
    lemma_walk_marks_closed(bs, v, defs, 0, 0, done0, df, preds);
    assert forall|d: int, j: int|
        #![trigger writes_in(defs, gained, d), df[d][j]]
        0 <= d < df.len() && 0 <= j < df[d].len() && df[d][j] && writes_in(defs, gained, d) implies gained.contains(j) by {
        let dv = defs.map_values(|x: usize| x as int);
        let w: int = if dv.contains(d) {
            let w0 = choose|w: int| 0 <= w < dv.len() && dv[w] == d;
            assert(dd[w0] == defs[w0]);
            w0
        } else {
            assert(mm[d]);
            assert(dd.contains(d as usize));
            choose|w: int| 0 <= w < dd.len() && dd[w] == d as usize
        };
        assert(dd[w] as int == d);
        assert(df[dd[w] as int][j]);
        assert(mm[j]);
    }
    assert forall|s: Set<int>| #![trigger frontier_closed(defs, s, df)] frontier_closed(defs, s, df) implies gained.subset_of(s) by {
        assert forall|i: int| #![trigger defs[i]] 0 <= i < defs.len() implies writes_in(defs, s, defs[i] as int) by {
            let dv = defs.map_values(|x: usize| x as int);
            assert(dv[i] == defs[i] as int);
        }
        lemma_walk_marks_least(defs, defs, 0, 0, done0, df, s);
        assert forall|b: int| gained.contains(b) implies s.contains(b) by {
            assert(mm[b]);
        }
    }
}

proof fn lemma_phis_vars_count(
    bs: Seq<BlockM>,
    vars: Seq<Seq<char>>,
    defs: Map<Seq<char>, Seq<usize>>,
    k: int,
    df: Rows,
    preds: Rows,
    v: Seq<char>,
    b: int,
)
    requires
        phis_vars(bs, vars, defs, k, df, preds) is Some,
        0 <= b < bs.len(),
        0 <= k <= vars.len(),
        vars.no_duplicates(),
    ensures
        phis_vars(bs, vars, defs, k, df, preds)->Some_0.len() == bs.len(),
        phi_count(phis_vars(bs, vars, defs, k, df, preds)->Some_0[b].instrs, v) <= phi_count(bs[b].instrs, v) + (if vars.subrange(
            k,
            vars.len() as int,
        ).contains(v) {
            1nat
        } else {
            0nat
        }),
    decreases vars.len() - k,
{
    if k < vars.len() {
        lemma_phis_walk_count(bs, vars[k], defs[vars[k]], 0, 0, Seq::new(bs.len(), |i: int| false), df, preds, v, b);
        let bs1 = phis_var(bs, vars[k], defs[vars[k]], df, preds)->Some_0;
        lemma_phis_vars_count(bs1, vars, defs, k + 1, df, preds, v, b);
        let tail = vars.subrange(k, vars.len() as int);
        let tail1 = vars.subrange(k + 1, vars.len() as int);
        assert(tail =~= seq![vars[k]] + tail1);
        if vars[k] == v {
            assert(tail.contains(v)) by {
                assert(tail[0] == v);
            }
            assert(!tail1.contains(v)) by {
                if tail1.contains(v) {
                    let j = choose|j: int| 0 <= j < tail1.len() && tail1[j] == v;
                    assert(vars[k + 1 + j] == vars[k]);
                }
            }
        } else {
            if tail1.contains(v) {
                let j = choose|j: int| 0 <= j < tail1.len() && tail1[j] == v;
                assert(tail[j + 1] == v);
            }
            if tail.contains(v) {
                let j = choose|j: int| 0 <= j < tail.len() && tail[j] == v;
                assert(j != 0);
                assert(tail1[j - 1] == v);
            }
        }
    }
}

proof fn lemma_push_wf(info: VarInfo, v: Seq<char>, m: Map<Seq<char>, Seq<usize>>)
    requires
        info_wf(info),
        !info.1.contains_key(v),
        m.dom() == info.1.dom().insert(v),
    ensures
        info_wf((info.0.push(v), m)),
{
    assert(!info.0.contains(v));
    assert forall|k: Seq<char>| #[trigger] m.contains_key(k) <==> info.0.push(v).contains(k) by {
        lemma_push_contains(info.0, v, k);
        assert(info.1.contains_key(k) <==> info.0.contains(k));
    }
}

proof fn lemma_same_keys_wf(info: VarInfo, m: Map<Seq<char>, Seq<usize>>)
    requires
        info_wf(info),
        m.dom() == info.1.dom(),
    ensures
        info_wf((info.0, m)),
{
    assert forall|k: Seq<char>| #[trigger] m.contains_key(k) <==> info.0.contains(k) by {
        assert(info.1.contains_key(k) <==> info.0.contains(k));
    }
}

proof fn lemma_note_def_wf(info: VarInfo, v: Seq<char>, i: usize)
    requires
        info_wf(info),
    ensures
        info_wf(note_def(info, v, i)),
{
    if info.1.contains_key(v) {
        if !info.1[v].contains(i) {
            assert(info.1.insert(v, info.1[v].push(i)).dom() =~= info.1.dom());
            lemma_same_keys_wf(info, info.1.insert(v, info.1[v].push(i)));
        }
    } else {
        lemma_push_wf(info, v, info.1.insert(v, seq![i]));
    }
}

proof fn lemma_info_args_wf(args: Seq<Seq<char>>, k: int)
    ensures
        info_wf(info_args(args, k)),
    decreases k,
{
    if k > 0 {
        lemma_info_args_wf(args, k - 1);
        let info = info_args(args, k - 1);
        let v = args[k - 1];
        if info.1.contains_key(v) {
            assert(info.1.insert(v, seq![0usize]).dom() =~= info.1.dom());
            lemma_same_keys_wf(info, info.1.insert(v, seq![0usize]));
        } else {
            lemma_push_wf(info, v, info.1.insert(v, seq![0usize]));
        }
    } else {
        assert(info_args(args, k).0 =~= Seq::<Seq<char>>::empty());
    }
}

proof fn lemma_info_codes_wf(info: VarInfo, cs: Seq<CodeM>, k: int, i: usize)
    requires
        info_wf(info),
    ensures
        info_wf(info_codes(info, cs, k, i)),
    decreases k,
{
    if k > 0 {
        lemma_info_codes_wf(info, cs, k - 1, i);
        if let Some(d) = code_dest(cs[k - 1]) {
            lemma_note_def_wf(info_codes(info, cs, k - 1, i), d, i);
        }
    }
}

proof fn lemma_info_blocks_wf(info: VarInfo, bs: Seq<BlockM>, n: int)
    requires
        info_wf(info),
    ensures
        info_wf(info_blocks(info, bs, n)),
    decreases n,
{
    if n > 0 {
        lemma_info_blocks_wf(info, bs, n - 1);
        lemma_info_codes_wf(info_blocks(info, bs, n - 1), bs[n - 1].instrs, bs[n - 1].instrs.len() as int, (n - 1) as usize);
    }
}

/// The variables of a function are listed once each, and are those the
/// table of writing blocks knows.
pub proof fn lemma_var_info_wf(args: Seq<Seq<char>>, bs: Seq<BlockM>)
    ensures
        info_wf(var_info(args, bs)),
{
    lemma_info_args_wf(args, args.len() as int);
    lemma_info_blocks_wf(info_args(args, args.len() as int), bs, bs.len() as int);
}

/// The phis that go into a block: at most one for each variable.
pub(crate) proof fn lemma_with_phis_count(args: Seq<Seq<char>>, bs: Seq<BlockM>, df: Rows, preds: Rows, v: Seq<char>, b: int)
    requires
        with_phis(args, bs, df, preds) is Some,
        0 <= b < bs.len(),
    ensures
        phi_count(with_phis(args, bs, df, preds)->Some_0[b].instrs, v) <= phi_count(bs[b].instrs, v) + 1,
{
    let info = var_info(args, bs);
    lemma_var_info_wf(args, bs);
    lemma_phis_vars_count(bs, info.0, info.1, 0, df, preds, v, b);
}

} // verus!
