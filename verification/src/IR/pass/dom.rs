use vstd::prelude::*;

use crate::IR::abstract_present::{blocks_view, AbstractFunction, BlockM};

verus! {

/// Sets of block indices, one per block, as rows of flags.
pub type Rows = Seq<Seq<bool>>;

/// The dominance facts of a function: for each block, the blocks that
/// dominate it, its children in the dominator tree, its dominance
/// frontier, and its predecessors.
pub struct DOM {
    pub function: AbstractFunction,
    pub dom: Vec<Vec<bool>>,
    pub dom_tree: Vec<Vec<bool>>,
    pub dom_frontier: Vec<Vec<bool>>,
    pub preds: Vec<Vec<bool>>,
}

pub open spec fn rows_view(v: Seq<Vec<bool>>) -> Rows {
    v.map_values(|r: Vec<bool>| r@)
}

/// `n` rows of `n` flags each.
pub open spec fn square(r: Rows, n: int) -> bool {
    r.len() == n && forall|i: int| 0 <= i < n ==> (#[trigger] r[i]).len() == n
}

/// Block `p` passes control to block `i`.
pub open spec fn flows(bs: Seq<BlockM>, p: int, i: int) -> bool {
    bs[p].successors.contains(i as usize)
}

/// The predecessors of each block.
pub open spec fn preds_of(bs: Seq<BlockM>, r: Rows) -> bool {
    &&& square(r, bs.len() as int)
    &&& forall|i: int, p: int| 0 <= i < bs.len() && 0 <= p < bs.len() ==> (#[trigger] r[i][p]) == flows(bs, p, i)
}

/// `i` has some predecessor.
pub open spec fn has_pred(preds: Rows, i: int) -> bool {
    exists|p: int| 0 <= p < preds[i].len() && #[trigger] preds[i][p]
}

/// Whether `j` dominates `i` by one step of the equations from `d`: `j` is
/// `i`, or `i` has predecessors and `j` dominates each of them.
pub open spec fn dom_step(d: Rows, preds: Rows, i: int, j: int) -> bool {
    j == i || (has_pred(preds, i) && forall|p: int| 0 <= p < preds[i].len() && #[trigger] preds[i][p] ==> d[p][j])
}

/// `d` solves the dominance equations: the first block is dominated by
/// itself alone, each other block as `dom_step` says.
pub open spec fn dom_solution(d: Rows, preds: Rows, n: int) -> bool {
    &&& square(d, n)
    &&& n > 0 ==> forall|j: int| 0 <= j < n ==> (#[trigger] d[0][j]) == (j == 0)
    &&& forall|i: int, j: int| 1 <= i < n && 0 <= j < n ==> (#[trigger] d[i][j]) == dom_step(d, preds, i, j)
}

/// `d` is the largest solution: it holds every other.
pub open spec fn greatest_dom(d: Rows, preds: Rows, n: int) -> bool {
    &&& dom_solution(d, preds, n)
    &&& forall|e: Rows, i: int, j: int|
        dom_solution(e, preds, n) && 0 <= i < n && 0 <= j < n && #[trigger] e[i][j] ==> d[i][j]
}

/// `a` strictly dominates `b`.
pub open spec fn sdom(d: Rows, b: int, a: int) -> bool {
    d[b][a] && a != b
}

/// `b` is a child of `a` in the dominator tree: `a` strictly dominates
/// `b`, and no block that strictly dominates `b` is strictly dominated by
/// `a`.
pub open spec fn tree_child(d: Rows, n: int, a: int, b: int) -> bool {
    sdom(d, b, a) && forall|c: int| 0 <= c < n && #[trigger] sdom(d, b, c) ==> !sdom(d, c, a)
}

/// `s` is in the dominance frontier of `a`: `a` dominates some block that
/// passes control to `s`, and does not strictly dominate `s`.
pub open spec fn in_frontier(bs: Seq<BlockM>, d: Rows, a: int, s: int) -> bool {
    exists|b: int| 0 <= b < bs.len() && #[trigger] d[b][a] && flows(bs, b, s) && !sdom(d, s, a)
}

/// Every successor names a block.
pub open spec fn succs_in_range(bs: Seq<BlockM>) -> bool {
    forall|i: int, k: int|
        0 <= i < bs.len() && 0 <= k < bs[i].successors.len() ==> (#[trigger] bs[i].successors[k]) < bs.len()
}

/// The number of flags set in a row.
pub open spec fn count(r: Seq<bool>) -> nat
    decreases r.len(),
{
    if r.len() == 0 {
        0
    } else {
        count(r.drop_last()) + if r.last() {
            1nat
        } else {
            0nat
        }
    }
}

/// The number of flags set in all rows.
pub open spec fn total(d: Rows) -> nat
    decreases d.len(),
{
    if d.len() == 0 {
        0
    } else {
        total(d.drop_last()) + count(d.last())
    }
}

proof fn lemma_count_smaller(a: Seq<bool>, b: Seq<bool>)
    requires
        a.len() == b.len(),
        forall|j: int| 0 <= j < a.len() && #[trigger] a[j] ==> b[j],
        a != b,
    ensures
        count(a) < count(b),
    decreases a.len(),
{
    if a.len() == 0 {
        assert(a =~= b);
    } else if a.last() == b.last() {
        assert(a.drop_last() != b.drop_last()) by {
            if a.drop_last() == b.drop_last() {
                assert forall|i: int| 0 <= i < a.len() implies a[i] == b[i] by {
                    if i < a.len() - 1 {
                        assert(a[i] == a.drop_last()[i]);
                        assert(b[i] == b.drop_last()[i]);
                    }
                }
                assert(a =~= b);
            }
        }
        lemma_count_smaller(a.drop_last(), b.drop_last());
    } else {
        lemma_count_le(a.drop_last(), b.drop_last());
    }
}

/// Each row of a square of `n` rows has `n` flags.
proof fn lemma_square_rows(v: Seq<Vec<bool>>, n: int)
    requires
        square(rows_view(v), n),
    ensures
        v.len() == n,
        forall|k: int| 0 <= k < n ==> (#[trigger] v[k])@.len() == n,
{
    assert forall|k: int| 0 <= k < n implies (#[trigger] v[k])@.len() == n by {
        assert(rows_view(v)[k] == v[k]@);
    }
}

proof fn lemma_count_le(a: Seq<bool>, b: Seq<bool>)
    requires
        a.len() == b.len(),
        forall|j: int| 0 <= j < a.len() && #[trigger] a[j] ==> b[j],
    ensures
        count(a) <= count(b),
    decreases a.len(),
{
    if a.len() > 0 {
        lemma_count_le(a.drop_last(), b.drop_last());
    }
}

proof fn lemma_total_update(d: Rows, k: int, r: Seq<bool>)
    requires
        0 <= k < d.len(),
    ensures
        total(d.update(k, r)) + count(d[k]) == total(d) + count(r),
    decreases d.len(),
{
    if k < d.len() - 1 {
        lemma_total_update(d.drop_last(), k, r);
        assert(d.update(k, r).drop_last() =~= d.drop_last().update(k, r));
    } else {
        assert(d.update(k, r).drop_last() =~= d.drop_last());
    }
}

/// A row of `n` flags, all `v`.
fn filled(n: usize, v: bool) -> (r: Vec<bool>)
    ensures
        r@.len() == n,
        forall|j: int| 0 <= j < n ==> (#[trigger] r@[j]) == v,
{
    let mut r: Vec<bool> = Vec::new();
    for i in 0..n
        invariant
            r@.len() == i,
            forall|j: int| 0 <= j < i ==> (#[trigger] r@[j]) == v,
    {
        r.push(v);
    }
    r
}

impl DOM {
    /// The dominance facts of `function_`.
    pub fn new(function_: AbstractFunction) -> (r: DOM)
        requires
            succs_in_range(blocks_view(function_.blocks@)),
        ensures
            r.function == function_,
            preds_of(blocks_view(function_.blocks@), rows_view(r.preds@)),
            greatest_dom(rows_view(r.dom@), rows_view(r.preds@), function_.blocks@.len() as int),
            square(rows_view(r.dom_tree@), function_.blocks@.len() as int),
            forall|a: int, b: int|
                0 <= a < function_.blocks@.len() && 0 <= b < function_.blocks@.len() ==> (#[trigger] rows_view(
                    r.dom_tree@,
                )[a][b]) == tree_child(rows_view(r.dom@), function_.blocks@.len() as int, a, b),
            square(rows_view(r.dom_frontier@), function_.blocks@.len() as int),
            forall|a: int, s: int|
                0 <= a < function_.blocks@.len() && 0 <= s < function_.blocks@.len() ==> (#[trigger] rows_view(
                    r.dom_frontier@,
                )[a][s]) == in_frontier(blocks_view(function_.blocks@), rows_view(r.dom@), a, s),
    {
        let mut dom = DOM {
            function: function_,
            dom: Vec::new(),
            dom_tree: Vec::new(),
            dom_frontier: Vec::new(),
            preds: Vec::new(),
        };
        dom.get_pred();
        dom.get_dom();
        dom.get_dom_tree();
        dom.get_dom_frontier();
        dom
    }

    /// The predecessors of each block; see `preds_of`.
    pub fn get_pred(&mut self)
        ensures
            final(self).function == old(self).function,
            final(self).dom == old(self).dom,
            preds_of(blocks_view(final(self).function.blocks@), rows_view(final(self).preds@)),
    {
        let ghost bs = blocks_view(self.function.blocks@);
        let n = self.function.blocks.len();
        let mut preds: Vec<Vec<bool>> = Vec::new();
        for index in 0..n
            invariant
                n == bs.len(),
                bs == blocks_view(self.function.blocks@),
                preds@.len() == index,
                forall|i: int| 0 <= i < index ==> (#[trigger] preds@[i])@.len() == n,
                forall|i: int, p: int| 0 <= i < index && 0 <= p < n ==> (#[trigger] preds@[i]@[p]) == flows(bs, p, i),
        {
            let mut row: Vec<bool> = Vec::new();
            for i in 0..n
                invariant
                    n == bs.len(),
                    bs == blocks_view(self.function.blocks@),
                    row@.len() == i,
                    forall|p: int| 0 <= p < i ==> (#[trigger] row@[p]) == flows(bs, p, index as int),
            {
                let succ = &self.function.blocks[i].successors;
                assert(bs[i as int].successors == succ@);
                let mut found = false;
                for k in 0..succ.len()
                    invariant
                        found == exists|q: int| 0 <= q < k && succ@[q] == index,
                {
                    if succ[k] == index {
                        found = true;
                    }
                }
                proof {
                    if found {
                        let q = choose|q: int| 0 <= q < succ@.len() && succ@[q] == index;
                        assert(succ@[q] == index);
                    }
                }
                row.push(found);
            }
            preds.push(row);
        }
        self.preds = preds;
        assert(rows_view(self.preds@).len() == n);
    }

    /// The blocks that dominate each block: the largest solution of the
    /// dominance equations, found by iterating them from the full sets.
    pub fn get_dom(&mut self)
        requires
            preds_of(blocks_view(old(self).function.blocks@), rows_view(old(self).preds@)),
        ensures
            final(self).function == old(self).function,
            final(self).preds == old(self).preds,
            greatest_dom(rows_view(final(self).dom@), rows_view(final(self).preds@), old(self).function.blocks@.len() as int),
    {
        let n = self.function.blocks.len();
        let ghost pr = rows_view(self.preds@);
        let mut d: Vec<Vec<bool>> = Vec::new();
        for i in 0..n
            invariant
                d@.len() == i,
                forall|k: int| 0 <= k < i ==> (#[trigger] d@[k])@.len() == n,
                forall|k: int, j: int| 0 <= k < i && 0 <= j < n ==> (#[trigger] d@[k]@[j]) == if k == 0 {
                    j == 0
                } else {
                    true
                },
        {
            if i == 0 {
                let mut row = filled(n, false);
                row.set(0, true);
                d.push(row);
            } else {
                d.push(filled(n, true));
            }
        }
        proof {
            assert(rows_view(d@).len() == n);
            assert forall|k: int| 0 <= k < n implies (#[trigger] rows_view(d@)[k]).len() == n by {
                assert(rows_view(d@)[k] == d@[k]@);
            }
            assert(square(rows_view(d@), n as int));
            assert forall|e: Rows, i: int, j: int|
                dom_solution(e, pr, n as int) && 0 <= i < n && 0 <= j < n && #[trigger] e[i][j] implies rows_view(d@)[i][j] by {
                if i == 0 {
                    assert(e[0][j] == (j == 0));
                }
            }
        }
        if n == 0 {
            self.dom = d;
            return;
        }
        let mut changed = true;
        while changed
            invariant
                n == self.function.blocks@.len(),
                self.function == old(self).function,
                self.preds == old(self).preds,
                pr == rows_view(self.preds@),
                square(pr, n as int),
                square(rows_view(d@), n as int),
                n > 0 ==> forall|j: int| 0 <= j < n ==> (#[trigger] rows_view(d@)[0][j]) == (j == 0),
                forall|i: int, j: int|
                    1 <= i < n && 0 <= j < n && dom_step(rows_view(d@), pr, i, j) ==> #[trigger] rows_view(d@)[i][j],
                forall|e: Rows, i: int, j: int|
                    dom_solution(e, pr, n as int) && 0 <= i < n && 0 <= j < n && #[trigger] e[i][j] ==> rows_view(d@)[i][j],
                !changed ==> dom_solution(rows_view(d@), pr, n as int),
                n > 0,
            decreases total(rows_view(d@)) + if changed {
                1nat
            } else {
                0nat
            },
        {
            let ghost total0 = total(rows_view(d@));
            proof {
                lemma_square_rows(d@, n as int);
            }
            changed = false;
            for index in 1..n
                invariant
                    n == self.function.blocks@.len(),
                    self.preds == old(self).preds,
                    pr == rows_view(self.preds@),
                    square(pr, n as int),
                    square(rows_view(d@), n as int),
                    n > 0 ==> forall|j: int| 0 <= j < n ==> (#[trigger] rows_view(d@)[0][j]) == (j == 0),
                    forall|i: int, j: int|
                        1 <= i < n && 0 <= j < n && dom_step(rows_view(d@), pr, i, j) ==> #[trigger] rows_view(d@)[i][j],
                    forall|e: Rows, i: int, j: int|
                        dom_solution(e, pr, n as int) && 0 <= i < n && 0 <= j < n && #[trigger] e[i][j] ==> rows_view(d@)[i][j],
                    d@.len() == n,
                    forall|k: int| 0 <= k < n ==> (#[trigger] d@[k])@.len() == n,
                    !changed ==> total(rows_view(d@)) == total0,
                    changed ==> total(rows_view(d@)) < total0,
                    !changed ==> forall|i: int, j: int|
                        1 <= i < index && 0 <= j < n ==> (#[trigger] rows_view(d@)[i][j]) == dom_step(rows_view(d@), pr, i, j),
            {
                let ghost dv = rows_view(d@);
                proof {
                    lemma_square_rows(self.preds@, n as int);
                }
                let prow = &self.preds[index];
                assert(pr[index as int] == prow@);
                let mut any_pred = false;
                for p in 0..n
                    invariant
                        prow@.len() == n,
                        any_pred == exists|q: int| 0 <= q < p && #[trigger] prow@[q],
                {
                    if prow[p] {
                        any_pred = true;
                    }
                }
                let mut new_row: Vec<bool> = Vec::new();
                for j in 0..n
                    invariant
                        dv == rows_view(d@),
                        square(dv, n as int),
                        prow@ == pr[index as int],
                        prow@.len() == n,
                        any_pred == has_pred(pr, index as int),
                        new_row@.len() == j,
                        forall|q: int| 0 <= q < j ==> (#[trigger] new_row@[q]) == dom_step(dv, pr, index as int, q),
                        d@.len() == n,
                        forall|k: int| 0 <= k < n ==> (#[trigger] d@[k])@.len() == n,
                        1 <= index < n,
                {
                    let mut all = true;
                    for p in 0..n
                        invariant
                            dv == rows_view(d@),
                            square(dv, n as int),
                            prow@ == pr[index as int],
                            prow@.len() == n,
                            all == forall|q: int| 0 <= q < p && #[trigger] prow@[q] ==> dv[q][j as int],
                        d@.len() == n,
                        forall|k: int| 0 <= k < n ==> (#[trigger] d@[k])@.len() == n,
                        j < n,
                    {
                        if prow[p] {
                            assert(dv[p as int] == d@[p as int]@);
                            if !d[p][j] {
                                all = false;
                            }
                        }
                    }
                    new_row.push(j == index || (any_pred && all));
                }
                let mut same = true;
                for j in 0..n
                    invariant
                        dv == rows_view(d@),
                        square(dv, n as int),
                        new_row@.len() == n,
                        same == forall|q: int| 0 <= q < j ==> new_row@[q] == dv[index as int][q],
                        d@.len() == n,
                        forall|k: int| 0 <= k < n ==> (#[trigger] d@[k])@.len() == n,
                        1 <= index < n,
                {
                    assert(dv[index as int] == d@[index as int]@);
                    if new_row[j] != d[index][j] {
                        same = false;
                    }
                }
                if !same {
                    proof {
                        assert(new_row@ != dv[index as int]);
                        assert forall|q: int| 0 <= q < n && #[trigger] new_row@[q] implies dv[index as int][q] by {}
                        lemma_count_smaller(new_row@, dv[index as int]);
                        lemma_total_update(dv, index as int, new_row@);
                    }
                    let ghost d_old = d@;
                    d.set(index, new_row);
                    let ghost d2 = rows_view(d@);
                    proof {
                        assert(d2 =~= dv.update(index as int, new_row@));
                        assert forall|i: int, j: int|
                            1 <= i < n && 0 <= j < n && dom_step(d2, pr, i, j) implies #[trigger] d2[i][j] by {
                            assert(dom_step(dv, pr, i, j)) by {
                                if j != i {
                                    assert forall|p: int| 0 <= p < pr[i].len() && #[trigger] pr[i][p] implies dv[p][j] by {
                                        assert(d2[p][j]);
                                        if p == index {
                                            assert(dv[index as int][j]);
                                        }
                                    }
                                }
                            }
                        }
                        assert forall|e: Rows, i: int, j: int|
                            dom_solution(e, pr, n as int) && 0 <= i < n && 0 <= j < n && #[trigger] e[i][j] implies d2[i][j] by {
                            if i == index {
                                assert(dom_step(dv, pr, i, j)) by {
                                    if j != i {
                                        assert(dom_step(e, pr, i, j));
                                        assert forall|p: int| 0 <= p < pr[i].len() && #[trigger] pr[i][p] implies dv[p][j] by {
                                            assert(e[p][j]);
                                        }
                                    }
                                }
                            }
                        }
                    }
                    changed = true;
                } else {
                    proof {
                        assert(new_row@ =~= dv[index as int]);
                    }
                }
            }
        }
        self.dom = d;
    }

    /// The children of each block in the dominator tree; see `tree_child`.
    #[verifier::loop_isolation(false)]
    pub fn get_dom_tree(&mut self)
        requires
            square(rows_view(old(self).dom@), old(self).function.blocks@.len() as int),
        ensures
            final(self).function == old(self).function,
            final(self).dom == old(self).dom,
            final(self).preds == old(self).preds,
            square(rows_view(final(self).dom_tree@), old(self).function.blocks@.len() as int),
            forall|a: int, b: int|
                0 <= a < old(self).function.blocks@.len() && 0 <= b < old(self).function.blocks@.len()
                    ==> (#[trigger] rows_view(final(self).dom_tree@)[a][b]) == tree_child(
                    rows_view(old(self).dom@),
                    old(self).function.blocks@.len() as int,
                    a,
                    b,
                ),
    {
        let n = self.function.blocks.len();
        let ghost dv = rows_view(self.dom@);
        proof {
            lemma_square_rows(self.dom@, n as int);
        }
        let mut tree: Vec<Vec<bool>> = Vec::new();
        for a in 0..n
            invariant
                dv == rows_view(self.dom@),
                square(dv, n as int),
                tree@.len() == a,
                forall|k: int| 0 <= k < a ==> (#[trigger] tree@[k])@.len() == n,
                forall|k: int, b: int| 0 <= k < a && 0 <= b < n ==> (#[trigger] tree@[k]@[b]) == tree_child(dv, n as int, k, b),
        {
            let mut row: Vec<bool> = Vec::new();
            for b in 0..n
                invariant
                    dv == rows_view(self.dom@),
                    square(dv, n as int),
                    row@.len() == b,
                    forall|q: int| 0 <= q < b ==> (#[trigger] row@[q]) == tree_child(dv, n as int, a as int, q),
            {
                assert(dv[b as int] == self.dom@[b as int]@);
                let strict = self.dom[b][a] && a != b;
                let mut flag = true;
                for c in 0..n
                    invariant
                        dv == rows_view(self.dom@),
                        square(dv, n as int),
                        flag == forall|q: int| 0 <= q < c && #[trigger] sdom(dv, b as int, q) ==> !sdom(dv, q, a as int),
                {
                    assert(dv[c as int] == self.dom@[c as int]@);
                    assert(sdom(dv, b as int, c as int) == (self.dom@[b as int]@[c as int] && c != b));
                    assert(sdom(dv, c as int, a as int) == (self.dom@[c as int]@[a as int] && a != c));
                    if self.dom[b][c] && c != b && self.dom[c][a] && a != c {
                        flag = false;
                    }
                }
                row.push(strict && flag);
            }
            tree.push(row);
        }
        self.dom_tree = tree;
        assert(rows_view(self.dom_tree@).len() == n);
    }

    /// The dominance frontier of each block; see `in_frontier`.
    #[verifier::loop_isolation(false)]
    pub fn get_dom_frontier(&mut self)
        requires
            square(rows_view(old(self).dom@), old(self).function.blocks@.len() as int),
            succs_in_range(blocks_view(old(self).function.blocks@)),
        ensures
            final(self).function == old(self).function,
            final(self).dom == old(self).dom,
            final(self).preds == old(self).preds,
            final(self).dom_tree == old(self).dom_tree,
            square(rows_view(final(self).dom_frontier@), old(self).function.blocks@.len() as int),
            forall|a: int, s: int|
                0 <= a < old(self).function.blocks@.len() && 0 <= s < old(self).function.blocks@.len()
                    ==> (#[trigger] rows_view(final(self).dom_frontier@)[a][s]) == in_frontier(
                    blocks_view(old(self).function.blocks@),
                    rows_view(old(self).dom@),
                    a,
                    s,
                ),
    {
        let n = self.function.blocks.len();
        let ghost dv = rows_view(self.dom@);
        let ghost bs = blocks_view(self.function.blocks@);
        proof {
            lemma_square_rows(self.dom@, n as int);
        }
        let mut df: Vec<Vec<bool>> = Vec::new();
        for a in 0..n
            invariant
                dv == rows_view(self.dom@),
                bs == blocks_view(self.function.blocks@),
                n == bs.len(),
                square(dv, n as int),
                df@.len() == a,
                forall|k: int| 0 <= k < a ==> (#[trigger] df@[k])@.len() == n,
                forall|k: int, s: int| 0 <= k < a && 0 <= s < n ==> (#[trigger] df@[k]@[s]) == in_frontier(bs, dv, k, s),
        {
            let mut row: Vec<bool> = Vec::new();
            for s in 0..n
                invariant
                    dv == rows_view(self.dom@),
                    bs == blocks_view(self.function.blocks@),
                    n == bs.len(),
                    square(dv, n as int),
                    row@.len() == s,
                    forall|q: int| 0 <= q < s ==> (#[trigger] row@[q]) == in_frontier(bs, dv, a as int, q),
            {
                assert(dv[s as int] == self.dom@[s as int]@);
                let strict = self.dom[s][a] && a != s;
                let mut found = false;
                for b in 0..n
                    invariant
                        dv == rows_view(self.dom@),
                        bs == blocks_view(self.function.blocks@),
                        n == bs.len(),
                        square(dv, n as int),
                        found == exists|q: int| 0 <= q < b && #[trigger] dv[q][a as int] && flows(bs, q, s as int),
                {
                    assert(dv[b as int] == self.dom@[b as int]@);
                    if self.dom[b][a] {
                        let succ = &self.function.blocks[b].successors;
                        assert(bs[b as int].successors == succ@);
                        let mut k: usize = 0;
                        let mut hit = false;
                        while k < succ.len()
                            invariant
                                k <= succ@.len(),
                                hit == exists|q: int| 0 <= q < k && succ@[q] == s,
                            decreases succ@.len() - k,
                        {
                            if succ[k] == s {
                                hit = true;
                            }
                            k = k + 1;
                        }
                        proof {
                            if hit {
                                let q = choose|q: int| 0 <= q < succ@.len() && succ@[q] == s;
                                assert(succ@[q] == s);
                            }
                        }
                        if hit {
                            found = true;
                        }
                    }
                }
                row.push(found && !strict);
            }
            df.push(row);
        }
        self.dom_frontier = df;
        assert(rows_view(self.dom_frontier@).len() == n);
    }
}

} // verus!
