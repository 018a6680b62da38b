use vstd::prelude::*;

use super::abstract_present::{
    code_view, push_nat, strs_view, AbstractCode, AbstractInstruction, CodeM, InstrM, nat_text,
};
use crate::utils::table::{StrMap, TableValue};

verus! {

/// The stacks of names of each variable, as plain text.
pub type Stacks = Map<Seq<char>, Seq<Seq<char>>>;

/// The place an instruction writes, for those that write one.
pub open spec fn code_dest(c: CodeM) -> Option<Seq<char>> {
    match c {
        CodeM::Instruction(InstrM::Constant { dest, .. }) => Some(dest),
        CodeM::Instruction(InstrM::Compute { dest, .. }) => Some(dest),
        CodeM::Instruction(InstrM::Assign { dest, .. }) => Some(dest),
        CodeM::Instruction(InstrM::Phi { dest, .. }) => Some(dest),
        _ => None,
    }
}

/// The newest name of variable `v`.
pub open spec fn top(st: Stacks, v: Seq<char>) -> Seq<char> {
    st[v].last()
}

/// `v` has a name on its stack.
pub open spec fn named(st: Stacks, v: Seq<char>) -> bool {
    st.contains_key(v) && st[v].len() > 0
}

/// Every variable that the line reads has a name.
pub open spec fn src_renamable(c: CodeM, st: Stacks) -> bool {
    match c {
        CodeM::Instruction(InstrM::Compute { left, right, .. }) => named(st, left) && named(st, right),
        CodeM::Instruction(InstrM::Assign { src, .. }) => named(st, src),
        CodeM::Instruction(InstrM::Ret { src }) => named(st, src),
        CodeM::Instruction(InstrM::Br { arg, .. }) => named(st, arg),
        _ => true,
    }
}

/// The line with each variable it reads replaced by its newest name; an
/// arithmetic instruction takes the newest name of its right operand in
/// place of its left one, and keeps its right one.
pub open spec fn rename_src(c: CodeM, st: Stacks) -> CodeM {
    match c {
        CodeM::Instruction(InstrM::Compute { left, dest, right, op, type_ }) => CodeM::Instruction(
            InstrM::Compute { left: top(st, right), dest, right, op, type_ },
        ),
        CodeM::Instruction(InstrM::Assign { src, dest, type_ }) => CodeM::Instruction(
            InstrM::Assign { src: top(st, src), dest, type_ },
        ),
        CodeM::Instruction(InstrM::Ret { src }) => CodeM::Instruction(InstrM::Ret { src: top(st, src) }),
        CodeM::Instruction(InstrM::Br { arg, true_label, false_label }) => CodeM::Instruction(
            InstrM::Br { arg: top(st, arg), true_label, false_label },
        ),
        _ => c,
    }
}

/// The index of the first occurrence of `x` in `v` from `k` on.
pub open spec fn index_of(v: Seq<Seq<char>>, x: Seq<char>, k: int) -> Option<int>
    decreases v.len() - k,
{
    if k < 0 || k >= v.len() {
        None
    } else if v[k] == x {
        Some(k)
    } else {
        index_of(v, x, k + 1)
    }
}

/// A phi that comes from `label` can have its argument for that label
/// looked up.
pub open spec fn phi_renamable(c: CodeM, st: Stacks, label: Seq<char>) -> bool {
    match c {
        CodeM::Instruction(InstrM::Phi { labels, args, .. }) => match index_of(labels, label, 0) {
            Some(i) => i < args.len() && st.contains_key(args[i]),
            None => true,
        },
        _ => true,
    }
}

/// A phi with its argument for `label` replaced by that variable's newest
/// name, or by `__undefined` when the variable has no name but its own.
pub open spec fn rename_phi(c: CodeM, st: Stacks, label: Seq<char>) -> CodeM {
    match c {
        CodeM::Instruction(InstrM::Phi { dest, labels, args }) => match index_of(labels, label, 0) {
            Some(i) => CodeM::Instruction(
                InstrM::Phi {
                    dest,
                    labels,
                    args: args.update(i, if st[args[i]].len() > 1 {
                        st[args[i]].last()
                    } else {
                        "__undefined"@
                    }),
                },
            ),
            None => c,
        },
        _ => c,
    }
}

/// The place the line writes can take a new name.
pub open spec fn dest_renamable(c: CodeM, st: Stacks, push_num: Map<Seq<char>, usize>, var_env: Map<Seq<char>, usize>) -> bool {
    match code_dest(c) {
        Some(d) => st.contains_key(d) && push_num.contains_key(d) && var_env.contains_key(d) && var_env[d] < usize::MAX,
        None => true,
    }
}

/// The new name of `d`: its name, a dot and its counter.
pub open spec fn new_name(d: Seq<char>, n: usize) -> Seq<char> {
    d + "."@ + nat_text(n as nat)
}

/// The line with the place it writes given a new name, the stacks with
/// that name pushed, and the counters with the one of that place counted.
pub open spec fn rename_dest(c: CodeM, st: Stacks, var_env: Map<Seq<char>, usize>) -> (CodeM, Stacks, Map<Seq<char>, usize>) {
    match code_dest(c) {
        None => (c, st, var_env),
        Some(d) => {
            let nn = new_name(d, var_env[d]);
            let st2 = st.insert(d, st[d].push(nn));
            let ve2 = var_env.insert(d, (var_env[d] + 1) as usize);
            let c2 = match c {
                CodeM::Instruction(InstrM::Constant { dest, const_type, value }) => CodeM::Instruction(
                    InstrM::Constant { dest: nn, const_type, value },
                ),
                CodeM::Instruction(InstrM::Compute { left, dest, right, op, type_ }) => CodeM::Instruction(
                    InstrM::Compute { left, dest: nn, right, op, type_ },
                ),
                CodeM::Instruction(InstrM::Assign { src, dest, type_ }) => CodeM::Instruction(
                    InstrM::Assign { src, dest: nn, type_ },
                ),
                CodeM::Instruction(InstrM::Phi { dest, labels, args }) => CodeM::Instruction(
                    InstrM::Phi { dest: nn, labels, args },
                ),
                _ => c,
            };
            (c2, st2, ve2)
        },
    }
}

/// The newest name of `v`.
fn top_name(st: &StrMap<Vec<String>>, v: &String) -> (r: String)
    requires
        named(st.map(), v@),
    ensures
        r@ == top(st.map(), v@),
{
    let s = st.get(v).unwrap();
    assert(s.deep_view().len() == s@.len());
    let r = s[s.len() - 1].clone();
    assert(s.deep_view()[s@.len() - 1] == s@[s@.len() - 1]@);
    r
}

impl AbstractCode {
    /// The place the line writes, if it writes one; see `code_dest`.
    pub fn get_dest(&self) -> (r: Option<String>)
        ensures
            match r {
                Some(d) => code_dest(self@) == Some(d@),
                None => code_dest(self@) is None,
            },
    {
        match self {
            AbstractCode::Instruction(instr) => match instr {
                AbstractInstruction::Constant { dest, .. } => Some(dest.clone()),
                AbstractInstruction::Compute { dest, .. } => Some(dest.clone()),
                AbstractInstruction::Assign { dest, .. } => Some(dest.clone()),
                AbstractInstruction::Phi { dest, .. } => Some(dest.clone()),
                _ => None,
            },
            _ => None,
        }
    }

    /// The phi that the line is, if it is one.
    pub fn get_phi(&self) -> (r: Option<&AbstractInstruction>)
        ensures
            match r {
                Some(i) => *self == AbstractCode::Instruction(*i) && i is Phi,
                None => !(self matches AbstractCode::Instruction(AbstractInstruction::Phi { .. })),
            },
    {
        match self {
            AbstractCode::Instruction(instr) => match instr {
                AbstractInstruction::Phi { .. } => Some(instr),
                _ => None,
            },
            _ => None,
        }
    }

    /// Renames the argument of a phi that comes from `label_name`; see
    /// `rename_phi`.
    pub fn ssa_change_phi(&mut self, stack: &mut StrMap<Vec<String>>, label_name: &String)
        requires
            phi_renamable(old(self)@, old(stack).map(), label_name@),
        ensures
            final(self)@ == rename_phi(old(self)@, old(stack).map(), label_name@),
            final(stack).map() == old(stack).map(),
    {
        if let AbstractCode::Instruction(instr) = self {
            if let AbstractInstruction::Phi { dest, labels, args } = instr {
                let ghost lv = strs_view(labels@);
                let mut found: Option<usize> = None;
                let mut k: usize = 0;
                while k < labels.len()
                    invariant_except_break
                        found is None,
                    invariant
                        lv == strs_view(labels@),
                        k <= labels@.len(),
                        index_of(lv, label_name@, 0) == index_of(lv, label_name@, k as int),
                    ensures
                        match found {
                            Some(i) => i < labels@.len() && index_of(lv, label_name@, 0) == Some(i as int),
                            None => index_of(lv, label_name@, 0) is None,
                        },
                    decreases labels@.len() - k,
                {
                    assert(lv[k as int] == labels@[k as int]@);
                    if labels[k] == *label_name {
                        found = Some(k);
                        break;
                    }
                    k = k + 1;
                }
                if let Some(index) = found {
                    assert(strs_view(args@)[index as int] == args@[index as int]@);
                    let s = stack.get(&args[index]).unwrap();
                    assert(s.deep_view().len() == s@.len());
                    let new_arg = if s.len() > 1 {
                        assert(s.deep_view()[s@.len() - 1] == s@[s@.len() - 1]@);
                        s[s.len() - 1].clone()
                    } else {
                        String::from_str("__undefined")
                    };
                    let ghost old_args = args@;
                    args.set(index, new_arg);
                    assert(strs_view(args@) =~= strs_view(old_args).update(index as int, new_arg@));
                }
            }
        }
    }

    /// Renames each variable the line reads; see `rename_src`.
    pub fn ssa_change_src(&mut self, stack: &mut StrMap<Vec<String>>)
        requires
            src_renamable(old(self)@, old(stack).map()),
        ensures
            final(self)@ == rename_src(old(self)@, old(stack).map()),
            final(stack).map() == old(stack).map(),
    {
        if let AbstractCode::Instruction(instr) = self {
            match instr {
                AbstractInstruction::Compute { left, right, .. } => {
                    *left = top_name(stack, left);
                    *left = top_name(stack, right);
                },
                AbstractInstruction::Assign { src, .. } => {
                    *src = top_name(stack, src);
                },
                AbstractInstruction::Ret { src } => {
                    *src = top_name(stack, src);
                },
                AbstractInstruction::Br { arg, .. } => {
                    *arg = top_name(stack, arg);
                },
                _ => {},
            }
        }
    }

    /// Gives the place the line writes a new name; see `rename_dest`.
    pub fn ssa_change_dest(
        &mut self,
        stack: &mut StrMap<Vec<String>>,
        push_num: &mut StrMap<usize>,
        var_env: &mut StrMap<usize>,
    )
        requires
            dest_renamable(old(self)@, old(stack).map(), old(push_num).map(), old(var_env).map()),
        ensures
            (final(self)@, final(stack).map(), final(var_env).map()) == rename_dest(
                old(self)@,
                old(stack).map(),
                old(var_env).map(),
            ),
            final(push_num).map() == old(push_num).map(),
    {
        match self {
            AbstractCode::Instruction(instr) => match instr {
                AbstractInstruction::Constant { dest, .. } => Self::ssa_handle(dest, stack, push_num, var_env),
                AbstractInstruction::Compute { dest, .. } => Self::ssa_handle(dest, stack, push_num, var_env),
                AbstractInstruction::Assign { dest, .. } => Self::ssa_handle(dest, stack, push_num, var_env),
                AbstractInstruction::Phi { dest, .. } => Self::ssa_handle(dest, stack, push_num, var_env),
                _ => {},
            },
            _ => {},
        }
    }

    fn ssa_handle(
        dest: &mut String,
        stack: &mut StrMap<Vec<String>>,
        push_num: &mut StrMap<usize>,
        var_env: &mut StrMap<usize>,
    )
        requires
            old(stack).map().contains_key(old(dest)@),
            old(push_num).map().contains_key(old(dest)@),
            old(var_env).map().contains_key(old(dest)@),
            old(var_env).map()[old(dest)@] < usize::MAX,
        ensures
            final(dest)@ == new_name(old(dest)@, old(var_env).map()[old(dest)@]),
            final(stack).map() == old(stack).map().insert(
                old(dest)@,
                old(stack).map()[old(dest)@].push(final(dest)@),
            ),
            final(var_env).map() == old(var_env).map().insert(
                old(dest)@,
                (old(var_env).map()[old(dest)@] + 1) as usize,
            ),
            final(push_num).map() == old(push_num).map(),
    {
        let num = *var_env.get(dest).unwrap();
        let mut name = dest.clone();
        name.append(".");
        push_nat(&mut name, num as u64);
        let mut names = stack.get(dest).unwrap().duplicate();
        let ghost before = names.deep_view();
        names.push(name.clone());
        assert(names.deep_view() =~= before.push(name@));
        stack.insert(dest.clone(), names);
        var_env.insert(dest.clone(), num + 1);
        assert(push_num.map().contains_key(dest@));
        *dest = name;
    }
}

} // verus!
