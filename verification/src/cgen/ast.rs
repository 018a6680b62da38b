use vstd::prelude::*;

use crate::parser::ast::class::{var_decl_view, VarDecl, VarDeclM};
use crate::parser::ast::expr::{
    decls_view, dispatch_expr_view, expr_view, exprs_view, lemma_decls_view_index, lemma_decls_view_len, lemma_exprs_view_index,
    lemma_exprs_view_len, Expr, ExprM,
};
use crate::parser::ast::{Identifier, Type};
use crate::parser::ast::expr::{ComputeOp, CondOp, DispatchExprM, MathOp};
use crate::IR::abstract_present::{int_text, nat_text};
use crate::utils::table::{scopes_add, scopes_exit, scopes_find};
use super::cgen::{
    emit, emit_all, emit_tab, keeps, tab, text_int, text_loc, text_n, text_num, text_str, CodeGenerator, GenM, Location,
};
use crate::parser::ast::expr::DispatchExpr;
use crate::IR::abstract_present::{push_int, push_nat};

verus! {

/// The local variables that an expression declares, with their types:
/// those of a `let`, and those declared inside the branches of an `if`,
/// the body of a `while` and the start of a `for`.
pub open spec fn var_nums(e: ExprM) -> Seq<(Seq<char>, Seq<char>)>
    decreases e, 1int,
{
    match e {
        ExprM::Let(ds) => ds.map_values(|d: VarDeclM| (d.name, d.type_->Some_0)),
        ExprM::Cond { then_body, else_body, .. } => list_var_nums(then_body) + list_var_nums(else_body),
        ExprM::While { body, .. } => list_var_nums(body),
        ExprM::For { init, .. } => list_var_nums(init),
        _ => Seq::empty(),
    }
}

pub open spec fn list_var_nums(es: Seq<ExprM>) -> Seq<(Seq<char>, Seq<char>)>
    decreases es, 0int,
{
    if es.len() == 0 {
        Seq::empty()
    } else {
        list_var_nums(es.drop_last()) + var_nums(es.last())
    }
}

/// Every declaration that `var_nums` reads has a type.
pub open spec fn vars_typed(e: ExprM) -> bool
    decreases e, 1int,
{
    match e {
        ExprM::Let(ds) => forall|i: int| 0 <= i < ds.len() ==> (#[trigger] ds[i]).type_ is Some,
        ExprM::Cond { then_body, else_body, .. } => list_vars_typed(then_body) && list_vars_typed(else_body),
        ExprM::While { body, .. } => list_vars_typed(body),
        ExprM::For { init, .. } => list_vars_typed(init),
        _ => true,
    }
}

pub open spec fn list_vars_typed(es: Seq<ExprM>) -> bool
    decreases es, 0int,
{
    if es.len() == 0 {
        true
    } else {
        list_vars_typed(es.drop_last()) && vars_typed(es.last())
    }
}

proof fn lemma_list_prefix(es: Seq<ExprM>, k: int)
    requires
        0 <= k < es.len(),
    ensures
        es.take(k + 1).drop_last() == es.take(k),
        es.take(k + 1).last() == es[k],
{
    assert(es.take(k + 1).drop_last() =~= es.take(k));
}

/// Appends the variables declared by each expression of the list.
pub(crate) fn list_var_num(v: &Vec<Expr>, out: &mut Vec<(Identifier, Type)>)
    requires
        list_vars_typed(exprs_view(v@)),
    ensures
        pairs_view(final(out)@) == pairs_view(old(out)@) + list_var_nums(exprs_view(v@)),
    decreases v@, 2int,
{
    let ghost ev = exprs_view(v@);
    let ghost out0 = pairs_view(out@);
    proof {
        lemma_exprs_view_len(v@);
        assert(ev.take(0) =~= Seq::<ExprM>::empty());
        lemma_list_typed_prefix(ev, ev.len() as int);
    }
    for i in 0..v.len()
        invariant
            ev == exprs_view(v@),
            ev.len() == v@.len(),
            forall|k: int| 0 <= k <= ev.len() ==> list_vars_typed(#[trigger] ev.take(k)),
            pairs_view(out@) == out0 + list_var_nums(ev.take(i as int)),
    {
        proof {
            lemma_exprs_view_index(v@, i as int);
            lemma_list_prefix(ev, i as int);
            assert(list_vars_typed(ev.take(i + 1)));
        }
        assert(decreases_to!(v@ => v@[i as int]));
        let mut more = v[i].get_var_num();
        let ghost o1 = out@;
        let ghost m1 = more@;
        out.append(&mut more);
        proof {
            assert(out@ == o1 + m1);
            assert(pairs_view(o1 + m1) =~= pairs_view(o1) + pairs_view(m1));
            assert(list_var_nums(ev.take(i + 1)) == list_var_nums(ev.take(i as int)) + var_nums(ev[i as int]));
        }
    }
    assert(ev.take(ev.len() as int) =~= ev);
}

/// Each prefix of a list whose declarations are typed is typed too.
proof fn lemma_list_typed_prefix(es: Seq<ExprM>, n: int)
    requires
        0 <= n <= es.len(),
        list_vars_typed(es),
    ensures
        forall|k: int| 0 <= k <= n ==> list_vars_typed(#[trigger] es.take(k)),
    decreases es.len(),
{
    assert(es.take(es.len() as int) =~= es);
    if es.len() > 0 {
        lemma_list_typed_prefix(es.drop_last(), es.len() - 1);
        assert forall|k: int| 0 <= k <= n implies list_vars_typed(#[trigger] es.take(k)) by {
            if k < es.len() {
                assert(es.take(k) =~= es.drop_last().take(k));
            }
        }
    }
}

/// The pairs as plain text.
pub open spec fn pairs_view(v: Seq<(Identifier, Type)>) -> Seq<(Seq<char>, Seq<char>)> {
    v.map_values(|p: (Identifier, Type)| (p.0@, p.1@))
}

impl Expr {
    /// The local variables that the expression declares; see `var_nums`.
    pub fn get_var_num(&self) -> (r: Vec<(Identifier, Type)>)
        requires
            vars_typed(self@),
        ensures
            pairs_view(r@) == var_nums(self@),
        decreases *self, 1int,
    {
        let mut vec: Vec<(Identifier, Type)> = Vec::new();
        assert(pairs_view(vec@) =~= Seq::<(Seq<char>, Seq<char>)>::empty());
        match self {
            Expr::Let(e) => {
                let decls = &e.var_decls;
                proof {
                    lemma_decls_view_len(decls@);
                }
                for i in 0..decls.len()
                    invariant
                        decls_view(decls@).len() == decls@.len(),
                        forall|k: int| 0 <= k < decls@.len() ==> (#[trigger] decls_view(decls@)[k]).type_ is Some,
                        pairs_view(vec@) == decls_view(decls@).take(i as int).map_values(
                            |d: VarDeclM| (d.name, d.type_->Some_0),
                        ),
                {
                    proof {
                        lemma_decls_view_index(decls@, i as int);
                    }
                    let d = &decls[i];
                    let t = d.type_.as_ref().unwrap().clone();
                    let ghost before = vec@;
                    let n = d.name.clone();
                    vec.push((n, t));
                    proof {
                        let dv = decls_view(decls@);
                        let f = |d: VarDeclM| (d.name, d.type_->Some_0);
                        assert(dv[i as int] == var_decl_view(decls@[i as int]));
                        assert(f(dv[i as int]) == (n@, t@));
                        assert(pairs_view(vec@) =~= pairs_view(before).push((n@, t@)));
                        assert(dv.take(i + 1).map_values(f) =~= dv.take(i as int).map_values(f).push(f(dv[i as int])));
                    }
                }
                assert(decls_view(decls@).take(decls@.len() as int) =~= decls_view(decls@));
                vec
            },
            Expr::Cond(e) => {
                list_var_num(&e.then_body, &mut vec);
                list_var_num(&e.else_body, &mut vec);
                vec
            },
            Expr::While(e) => {
                list_var_num(&e.body, &mut vec);
                vec
            },
            Expr::For(e) => {
                list_var_num(&e.init, &mut vec);
                vec
            },
            _ => vec,
        }
    }
}

} // verus!

verus! {

/// Where `name` lives, as the scopes of the class at hand say.
pub open spec fn lookup_loc(g: GenM, name: Seq<char>) -> Option<(Seq<char>, i32)> {
    if g.env.contains_key(g.curr) {
        scopes_find(g.env[g.curr], name)
    } else {
        None
    }
}

/// A test that is not a comparison, `!` or `isnull` yields a `Bool` object,
/// whose value is loaded before the test.
pub open spec fn test_fix(g: GenM, test: ExprM) -> GenM {
    match test {
        ExprM::Math { .. } => g,
        ExprM::Not { .. } => g,
        ExprM::Isnull { .. } => g,
        _ => emit_tab(g, "movq 16(%rax), %rax"@),
    }
}

/// The class whose dispatch table a call on `target` goes through.
pub open spec fn target_class(target: ExprM, cur: Seq<char>) -> Seq<char> {
    match target {
        ExprM::Identifier { type_, .. } => type_,
        ExprM::Dispatch { type_, .. } => type_,
        ExprM::Str(_) => crate::STRING@,
        ExprM::Int(_) => crate::INT@,
        ExprM::Bool(_) => crate::BOOL@,
        ExprM::New { class_name, .. } => class_name,
        _ => cur,
    }
}

/// The lines that build a new object of class `c`.
pub open spec fn new_lines(c: Seq<char>) -> Seq<Seq<char>> {
    seq![
        tab("push $"@ + c + "_prototype"@),
        tab("call Object.malloc"@),
        tab("addq $8, %rsp"@),
        tab("call "@ + c + ".init"@),
    ]
}

/// The lines that abort on a missing or null receiver and load its dispatch
/// table.
pub open spec fn null_check_lines() -> Seq<Seq<char>> {
    seq![
        tab("cmpq $0, %rax"@),
        tab("je abort"@),
        tab("cmpq $0, 8(%rax)"@),
        tab("je abort"@),
        tab("movq 16(%rax), %rdi"@),
    ]
}

/// One `addq $8, %rsp` for each of `n` arguments.
pub open spec fn pop_lines(n: nat) -> Seq<Seq<char>> {
    Seq::new(n, |i: int| tab("addq $8, %rsp"@))
}

/// The lines that load both operands of arithmetic: right in `%r10`, left in
/// `%r11`.
pub open spec fn operand_lines() -> Seq<Seq<char>> {
    seq![
        tab("movq 16(%rax), %r10"@),
        tab("movq (%rsp), %r11"@),
        tab("movq 16(%r11), %r11"@),
        tab("addq $8, %rsp"@),
    ]
}

/// The lines of an operator.
pub open spec fn op_lines(op: MathOp) -> Seq<Seq<char>> {
    match op {
        MathOp::ComputeOp(c) => {
            let body = match c {
                ComputeOp::Add => seq![tab("addq %r10, %r11"@)],
                ComputeOp::Minus => seq![tab("subq %r10, %r11"@)],
                ComputeOp::Mul => seq![tab("movq %r11, %rax"@), tab("mulq %r10"@), tab("movq %rax, %r11"@)],
                ComputeOp::Divide => seq![tab("movq %r11, %rax"@), tab("divq %r10"@), tab("movq %rax, %r11"@)],
            };
            body + seq![
                tab("pushq %r11"@),
                tab("pushq $Int_prototype"@),
                tab("call Object.malloc"@),
                tab("addq $8, %rsp"@),
                tab("call Int.init"@),
                tab("movq (%rsp), %r11"@),
                tab("movq %r11, 16(%rax)"@),
                tab("addq $8, %rsp"@),
            ]
        },
        MathOp::CondOp(c) => seq![tab("movq $1, %rdi"@), tab("movq $0, %rax"@), tab("subq %r10, %r11"@)]
            + seq![tab(cmov_text(c))],
    }
}

pub open spec fn cmov_text(c: CondOp) -> Seq<char> {
    match c {
        CondOp::More => "cmova %rdi, %rax"@,
        CondOp::MoreE => "cmovae %rdi, %rax"@,
        CondOp::Less => "cmovb %rdi, %rax"@,
        CondOp::LessE => "cmovbe %rdi, %rax"@,
        CondOp::Equal => "cmove %rdi, %rax"@,
    }
}

/// The scopes of the class at hand with a new innermost scope; `None` where
/// that class has no scopes.
pub open spec fn enter_scopes(g: GenM) -> Option<GenM> {
    if g.env.contains_key(g.curr) {
        Some(GenM { env: g.env.insert(g.curr, g.env[g.curr].push(Map::empty())), ..g })
    } else {
        None
    }
}

/// The scopes of the class at hand without their innermost scope.
pub open spec fn exit_scopes(g: GenM) -> Option<GenM> {
    if g.env.contains_key(g.curr) {
        Some(GenM { env: g.env.insert(g.curr, scopes_exit(g.env[g.curr])), ..g })
    } else {
        None
    }
}

/// The scopes of the class at hand with `k` bound to `v` innermost.
pub open spec fn bind_scopes(g: GenM, k: Seq<char>, v: (Seq<char>, i32)) -> Option<GenM> {
    if g.env.contains_key(g.curr) {
        Some(GenM { env: g.env.insert(g.curr, scopes_add(g.env[g.curr], k, v)), ..g })
    } else {
        None
    }
}

pub open spec fn je_line(l: usize) -> Seq<char> {
    tab("je label_"@ + nat_text(l as nat))
}

pub open spec fn jmp_line(l: usize) -> Seq<char> {
    tab("jmp label_"@ + nat_text(l as nat))
}

pub open spec fn label_line(l: usize) -> Seq<char> {
    "label_"@ + nat_text(l as nat) + ":"@
}

/// What follows an element of a list: nothing (`mode` 0), a push of the
/// result (`mode` 1), or the load of a test's value (`mode` 2).
pub open spec fn after(g: GenM, e: ExprM, mode: u8) -> GenM {
    if mode == 1 {
        emit_tab(g, "push %rax"@)
    } else if mode == 2 {
        test_fix(g, e)
    } else {
        g
    }
}

/// The code of a list of expressions, in order; `None` where the generator
/// would stop.
pub open spec fn gen_seq(g: GenM, es: Seq<ExprM>, mode: u8) -> Option<GenM>
    decreases es, 0int,
{
    if es.len() == 0 {
        Some(g)
    } else {
        match gen_seq(g, es.drop_last(), mode) {
            Some(g1) => match gen_expr(g1, es.last()) {
                Some(g2) => Some(after(g2, es.last(), mode)),
                None => None,
            },
            None => None,
        }
    }
}

/// The code of the declarations of a `let`, in order.
pub open spec fn gen_decls(g: GenM, ds: Seq<VarDeclM>) -> Option<GenM>
    decreases ds, 0int,
{
    if ds.len() == 0 {
        Some(g)
    } else {
        match gen_decls(g, ds.drop_last()) {
            Some(g1) => gen_decl(g1, ds.last()),
            None => None,
        }
    }
}

/// The stack offset of local number `n`, where it fits.
pub open spec fn local_offset(n: i32) -> Option<i32> {
    if i32::MIN <= -8 * n <= i32::MAX {
        Some((-8 * n) as i32)
    } else {
        None
    }
}

/// One declaration: the name is bound to the next stack slot, then the slot
/// is filled with the initial value or, without one, the prototype of its
/// type.
pub open spec fn gen_decl(g: GenM, d: VarDeclM) -> Option<GenM>
    decreases d, 1int,
{
    match local_offset(g.var_offset) {
        None => None,
        Some(off) => match bind_scopes(g, d.name, ("%rbp"@, off)) {
            None => None,
            Some(g1) => {
                let filled = match d.init {
                    Some(x) => match gen_expr(g1, x) {
                        Some(g2) => match local_offset(g2.var_offset) {
                            Some(o2) => Some(emit_tab(g2, "movq %rax, "@ + int_text(o2 as int) + "(%rbp)"@)),
                            None => None,
                        },
                        None => None,
                    },
                    None => match d.type_ {
                        Some(t) => Some(emit_tab(g1, "movq $"@ + t + "_prototype, "@ + int_text(off as int) + "(%rbp)"@)),
                        None => None,
                    },
                };
                match filled {
                    Some(g3) => if g3.var_offset < i32::MAX {
                        Some(GenM { var_offset: (g3.var_offset + 1) as i32, ..g3 })
                    } else {
                        None
                    },
                    None => None,
                }
            },
        },
    }
}

/// The code of an expression, as the state after it; `None` where the
/// generator would stop: a constant missing from its table, a name bound
/// nowhere, a class without scopes or a method missing from a dispatch
/// table, a type missing from a declaration, or a counter that overflows.
pub open spec fn gen_expr(g: GenM, e: ExprM) -> Option<GenM>
    decreases e, 2int,
{
    match e {
        ExprM::Int(n) => if g.ints.contains_key(nat_text(n as nat)) {
            Some(emit_tab(g, "movq $int_const_"@ + nat_text(g.ints[nat_text(n as nat)] as nat) + ", %rax"@))
        } else {
            None
        },
        ExprM::Str(s) => if g.strs.contains_key(s) {
            Some(emit_tab(g, "movq $str_const_"@ + nat_text(g.strs[s] as nat) + ", %rax"@))
        } else {
            None
        },
        ExprM::Bool(b) => Some(emit_tab(g, "movq $bool_const_"@ + nat_text(if b { 1nat } else { 0nat }) + ", %rax"@)),
        ExprM::Identifier { name, .. } => match lookup_loc(g, name) {
            Some(l) => if l.1 == i32::MAX {
                Some(emit_tab(g, "movq %rbx, %rax"@))
            } else {
                Some(emit_tab(g, "movq "@ + int_text(l.1 as int) + "("@ + l.0 + "), %rax"@))
            },
            None => None,
        },
        ExprM::New { class_name, .. } => Some(emit_all(g, new_lines(class_name))),
        ExprM::Dispatch { target, expr, .. } => match expr {
            DispatchExprM::Field(_) => Some(g),
            DispatchExprM::Method { fun_name, actual } => match gen_seq(g, actual, 1) {
                None => None,
                Some(g1) => match gen_expr(g1, *target) {
                    None => None,
                    Some(g2) => {
                        let c = target_class(*target, g2.curr);
                        let g3 = emit_all(GenM { curr: c, ..g2 }, null_check_lines());
                        if g3.dispatch.contains_key(c) && g3.dispatch[c].contains_key(fun_name) {
                            let g4 = emit_tab(g3, "call *"@ + nat_text(g3.dispatch[c][fun_name] as nat) + "(%rdi)"@);
                            Some(GenM { curr: g.curr, ..emit_all(g4, pop_lines(actual.len())) })
                        } else {
                            None
                        }
                    },
                },
            },
        },
        ExprM::Return { val, .. } => match val {
            Some(v) => gen_expr(g, *v),
            None => Some(g),
        },
        ExprM::Let(ds) => gen_decls(g, ds),
        ExprM::Assignment { id, compute, .. } => match lookup_loc(g, id) {
            None => None,
            Some(l) => match gen_expr(g, *compute) {
                Some(g1) => Some(emit_tab(g1, "movq %rax, "@ + int_text(l.1 as int) + "("@ + l.0 + ")"@)),
                None => None,
            },
        },
        ExprM::Math { left, op, right, .. } => match gen_expr(g, *left) {
            None => None,
            Some(g1) => match gen_expr(emit_tab(g1, "pushq %rax"@), *right) {
                None => None,
                Some(g2) => Some(emit_all(g2, operand_lines() + op_lines(op))),
            },
        },
        ExprM::Cond { test, then_body, else_body, .. } => if g.label + 2 > usize::MAX {
            None
        } else {
            let lt = (g.label + 1) as usize;
            let ld = (g.label + 2) as usize;
            match gen_expr(GenM { label: ld, ..g }, *test) {
                None => None,
                Some(g1) => {
                    let g2 = emit_all(test_fix(g1, *test), seq![tab("cmpq $1, %rax"@), je_line(lt)]);
                    match gen_seq(g2, else_body, 0) {
                        None => None,
                        Some(g3) => {
                            let g4 = emit(emit(g3, jmp_line(ld)), label_line(lt));
                            match gen_seq(g4, then_body, 0) {
                                None => None,
                                Some(g5) => Some(emit(g5, label_line(ld))),
                            }
                        },
                    }
                },
            }
        },
        ExprM::While { test, body, .. } => if g.label + 2 > usize::MAX {
            None
        } else {
            let ll = (g.label + 1) as usize;
            let ld = (g.label + 2) as usize;
            let g1 = emit(emit(GenM { label: ld, ..g }, jmp_line(ld)), label_line(ll));
            match gen_seq(g1, body, 0) {
                None => None,
                Some(g2) => match gen_expr(emit(g2, label_line(ld)), *test) {
                    None => None,
                    Some(g3) => Some(emit_all(test_fix(g3, *test), seq![tab("cmpq $1, %rax"@), je_line(ll)])),
                },
            }
        },
        ExprM::Not { expr, .. } => match gen_expr(g, *expr) {
            Some(g1) => Some(emit_all(g1, seq![tab("movq 16(%rax), %rdi"@), tab("xor $1, %rdi"@), tab("movq %rdi, %rax"@)])),
            None => None,
        },
        ExprM::Isnull { expr } => match gen_expr(g, *expr) {
            Some(g1) => Some(emit_all(g1, seq![tab("movq 8(%rax), %rax"@), tab("xor $1, %rax"@)])),
            None => None,
        },
        ExprM::For { init, test, iter, body, .. } => match enter_scopes(g) {
            None => None,
            Some(g0) => if g0.label + 2 > usize::MAX {
                None
            } else {
                let ll = (g0.label + 1) as usize;
                let ld = (g0.label + 2) as usize;
                match gen_seq(GenM { label: ld, ..g0 }, init, 0) {
                    None => None,
                    Some(g1) => {
                        let g2 = emit(emit(g1, jmp_line(ld)), label_line(ll));
                        match gen_seq(g2, body, 0) {
                            None => None,
                            Some(g3) => match gen_seq(g3, iter, 0) {
                                None => None,
                                Some(g4) => match gen_seq(emit(g4, label_line(ld)), test, 2) {
                                    None => None,
                                    Some(g5) => exit_scopes(emit_all(g5, seq![tab("cmpq $1, %rax"@), je_line(ll)])),
                                },
                            },
                        }
                    },
                }
            },
        },
        _ => Some(g),
    }
}

} // verus!

verus! {

/// One more element of a prefix of a list.
proof fn lemma_take_step<T>(s: Seq<T>, k: int)
    requires
        0 <= k < s.len(),
    ensures
        s.take(k + 1).drop_last() == s.take(k),
        s.take(k + 1).last() == s[k],
{
    assert(s.take(k + 1).drop_last() =~= s.take(k));
}

/// Where a list yields code, each of its prefixes does.
proof fn lemma_seq_prefix(g: GenM, es: Seq<ExprM>, mode: u8, k: int)
    requires
        gen_seq(g, es, mode) is Some,
        0 <= k <= es.len(),
    ensures
        gen_seq(g, es.take(k), mode) is Some,
    decreases es.len(),
{
    if k == es.len() {
        assert(es.take(k) =~= es);
    } else {
        lemma_seq_prefix(g, es.drop_last(), mode, k);
        assert(es.drop_last().take(k) =~= es.take(k));
    }
}

proof fn lemma_decls_prefix(g: GenM, ds: Seq<VarDeclM>, k: int)
    requires
        gen_decls(g, ds) is Some,
        0 <= k <= ds.len(),
    ensures
        gen_decls(g, ds.take(k)) is Some,
    decreases ds.len(),
{
    if k == ds.len() {
        assert(ds.take(k) =~= ds);
    } else {
        lemma_decls_prefix(g, ds.drop_last(), k);
        assert(ds.drop_last().take(k) =~= ds.take(k));
    }
}

impl CodeGenerator {
    /// Loads the value of a test that yields a `Bool` object.
    pub fn code_test_fix(&mut self, test: &Expr)
        ensures
            final(self)@ == test_fix(old(self)@, test@),
            keeps(*old(self), *final(self)),
    {
        match test {
            Expr::Math(_) => {},
            Expr::Not(_) => {},
            Expr::Isnull(_) => {},
            _ => self.write_str("movq 16(%rax), %rax"),
        }
    }

    /// The code of a list of expressions, each followed as `mode` says (see
    /// `after`).
    pub fn code_seq(&mut self, v: &Vec<Expr>, mode: u8) -> (ok: bool)
        ensures
            ok == gen_seq(old(self)@, exprs_view(v@), mode) is Some,
            ok ==> Some(final(self)@) == gen_seq(old(self)@, exprs_view(v@), mode),
            keeps(*old(self), *final(self)),
        decreases v@, 2int,
    {
        let ghost g0 = self@;
        let ghost s0 = *self;
        let ghost ev = exprs_view(v@);
        proof {
            lemma_exprs_view_len(v@);
            assert(ev.take(0) =~= Seq::<ExprM>::empty());
        }
        for i in 0..v.len()
            invariant
                ev == exprs_view(v@),
                ev.len() == v@.len(),
                g0 == old(self)@,
                s0 == *old(self),
                Some(self@) == gen_seq(g0, ev.take(i as int), mode),
                keeps(s0, *self),
        {
            proof {
                lemma_exprs_view_index(v@, i as int);
                lemma_take_step(ev, i as int);
            }
            assert(decreases_to!(v@ => v@[i as int]));
            if !self.code_expr(&v[i]) {
                proof {
                    if gen_seq(g0, ev, mode) is Some {
                        lemma_seq_prefix(g0, ev, mode, i + 1);
                    }
                }
                return false;
            }
            if mode == 1 {
                self.write_str("push %rax");
            } else if mode == 2 {
                self.code_test_fix(&v[i]);
            }
        }
        assert(ev.take(ev.len() as int) =~= ev);
        true
    }

    /// The code of the declarations of a `let`.
    pub fn code_decls(&mut self, v: &Vec<VarDecl>) -> (ok: bool)
        ensures
            ok == gen_decls(old(self)@, decls_view(v@)) is Some,
            ok ==> Some(final(self)@) == gen_decls(old(self)@, decls_view(v@)),
            keeps(*old(self), *final(self)),
        decreases v@, 2int,
    {
        let ghost g0 = self@;
        let ghost s0 = *self;
        let ghost dv = decls_view(v@);
        proof {
            lemma_decls_view_len(v@);
            assert(dv.take(0) =~= Seq::<VarDeclM>::empty());
        }
        for i in 0..v.len()
            invariant
                dv == decls_view(v@),
                dv.len() == v@.len(),
                g0 == old(self)@,
                s0 == *old(self),
                Some(self@) == gen_decls(g0, dv.take(i as int)),
                keeps(s0, *self),
        {
            proof {
                lemma_decls_view_index(v@, i as int);
                lemma_take_step(dv, i as int);
            }
            assert(decreases_to!(v@ => v@[i as int]));
            if !self.code_decl(&v[i]) {
                proof {
                    if gen_decls(g0, dv) is Some {
                        lemma_decls_prefix(g0, dv, i + 1);
                    }
                }
                return false;
            }
        }
        assert(dv.take(dv.len() as int) =~= dv);
        true
    }

    /// One declaration of a `let`; see `gen_decl`.
    pub fn code_decl(&mut self, d: &VarDecl) -> (ok: bool)
        ensures
            ok == gen_decl(old(self)@, var_decl_view(*d)) is Some,
            ok ==> Some(final(self)@) == gen_decl(old(self)@, var_decl_view(*d)),
            keeps(*old(self), *final(self)),
        decreases *d, 1int,
    {
        let vo = self.environment.var_offset;
        if vo < -268435455 || vo > 268435456 {
            return false;
        }
        if !self.environment.env.contains_key(&self.environment.curr_class) {
            return false;
        }
        let off: i32 = -8 * vo;
        let loc = Location { reg: String::from_str("%rbp"), offset: off };
        self.scopes_bind(&d.name, &loc);
        match &*d.init {
            Some(x) => {
                if !self.code_expr(x) {
                    return false;
                }
                let vo2 = self.environment.var_offset;
                if vo2 < -268435455 || vo2 > 268435456 {
                    return false;
                }
                let o2: i32 = -8 * vo2;
                self.write(text_int("movq %rax, ", o2, "(%rbp)"), true);
            },
            None => {
                let t = match d.type_.as_ref() {
                    Some(t) => t,
                    None => {
                        return false;
                    },
                };
                let mut line = text_str("movq $", t.as_str(), "_prototype, ");
                push_int(&mut line, off as i64);
                line.append("(%rbp)");
                self.write(line, true);
            },
        }
        if self.environment.var_offset == i32::MAX {
            return false;
        }
        self.environment.var_offset = self.environment.var_offset + 1;
        true
    }
}


impl CodeGenerator {
    /// The code of an expression; see `gen_expr`.
    pub fn code_expr(&mut self, e: &Expr) -> (ok: bool)
        ensures
            ok == gen_expr(old(self)@, e@) is Some,
            ok ==> Some(final(self)@) == gen_expr(old(self)@, e@),
            keeps(*old(self), *final(self)),
        decreases *e, 2int,
    {
        let ghost g = self@;
        match e {
            Expr::Int(n) => {
                let mut key = String::new();
                push_nat(&mut key, *n);
                assert(key@ =~= nat_text(*n as nat));
                let index = match self.int_const_table.get(&key) {
                    Some(i) => *i,
                    None => {
                        return false;
                    },
                };
                self.write(text_num("movq $int_const_", index, ", %rax"), true);
                true
            },
            Expr::Str(c) => {
                let index = match self.str_const_table.get(c) {
                    Some(i) => *i,
                    None => {
                        return false;
                    },
                };
                self.write(text_num("movq $str_const_", index, ", %rax"), true);
                true
            },
            Expr::Bool(b) => {
                let index: usize = if *b {
                    1
                } else {
                    0
                };
                self.write(text_num("movq $bool_const_", index, ", %rax"), true);
                true
            },
            Expr::Identifier(x) => {
                let (offset, reg) = match self.environment.env.get(&self.environment.curr_class) {
                    None => {
                        return false;
                    },
                    Some(table) => match table.find(&x.name) {
                        None => {
                            return false;
                        },
                        Some(loc) => (loc.offset, loc.reg.clone()),
                    },
                };
                if offset == i32::MAX {
                    self.write_str("movq %rbx, %rax");
                } else {
                    self.write(text_loc("movq ", offset, reg.as_str(), "), %rax"), true);
                }
                true
            },
            Expr::New(c) => {
                self.write(text_str("push $", c.class_name.as_str(), "_prototype"), true);
                self.write_str("call Object.malloc");
                self.write_str("addq $8, %rsp");
                self.write(text_str("call ", c.class_name.as_str(), ".init"), true);
                assert(self@.lines =~= g.lines + new_lines(c.class_name@));
                true
            },
            Expr::Dispatch(_) => self.code_dispatch(e),
            Expr::Math(_) => self.code_math(e),
            Expr::Cond(_) => self.code_cond(e),
            Expr::While(_) => self.code_while(e),
            Expr::For(_) => self.code_for(e),
            Expr::Return(r) => match &r.val {
                Some(v) => self.code_expr(v),
                None => true,
            },
            Expr::Let(l) => self.code_decls(&l.var_decls),
            Expr::Assignment(a) => {
                let (offset, reg) = match self.environment.env.get(&self.environment.curr_class) {
                    None => {
                        return false;
                    },
                    Some(table) => match table.find(&a.id) {
                        None => {
                            return false;
                        },
                        Some(loc) => (loc.offset, loc.reg.clone()),
                    },
                };
                if !self.code_expr(&a.compute) {
                    return false;
                }
                self.write(text_loc("movq %rax, ", offset, reg.as_str(), ")"), true);
                true
            },
            Expr::Not(n) => {
                if !self.code_expr(&n.expr) {
                    return false;
                }
                let ghost g1 = self@;
                self.write_str("movq 16(%rax), %rdi");
                self.write_str("xor $1, %rdi");
                self.write_str("movq %rdi, %rax");
                assert(self@.lines =~= g1.lines + seq![tab("movq 16(%rax), %rdi"@), tab("xor $1, %rdi"@), tab("movq %rdi, %rax"@)]);
                true
            },
            Expr::Isnull(n) => {
                if !self.code_expr(&n.expr) {
                    return false;
                }
                let ghost g1 = self@;
                self.write_str("movq 8(%rax), %rax");
                self.write_str("xor $1, %rax");
                assert(self@.lines =~= g1.lines + seq![tab("movq 8(%rax), %rax"@), tab("xor $1, %rax"@)]);
                true
            },
            _ => true,
        }
    }

    /// A call through the dispatch table of the receiver's class.
    fn code_dispatch(&mut self, e: &Expr) -> (ok: bool)
        requires
            e is Dispatch,
        ensures
            ok == gen_expr(old(self)@, e@) is Some,
            ok ==> Some(final(self)@) == gen_expr(old(self)@, e@),
            keeps(*old(self), *final(self)),
        decreases *e, 1int,
    {
        let ghost g = self@;
        match e {
            Expr::Dispatch(d) => match &d.expr {
                DispatchExpr::Field(_) => true,
                DispatchExpr::Method(m) => {
                    assert(dispatch_expr_view(d.expr) == DispatchExprM::Method {
                        fun_name: m.fun_name@,
                        actual: exprs_view(m.actual@),
                    });
                    let temp = self.environment.curr_class.clone();
                    if !self.code_seq(&m.actual, 1) {
                        return false;
                    }
                    if !self.code_expr(&d.target) {
                        return false;
                    }
                    let c = match &*d.target {
                        Expr::Identifier(x) => x.type_.clone(),
                        Expr::Dispatch(y) => y.type_.clone(),
                        Expr::Str(_) => String::from_str(crate::STRING),
                        Expr::Int(_) => String::from_str(crate::INT),
                        Expr::Bool(_) => String::from_str(crate::BOOL),
                        Expr::New(y) => y.class_name.clone(),
                        _ => self.environment.curr_class.clone(),
                    };
                    let ghost g2 = self@;
                    self.environment.curr_class = c;
                    self.write_str("cmpq $0, %rax");
                    self.write_str("je abort");
                    self.write_str("cmpq $0, 8(%rax)");
                    self.write_str("je abort");
                    self.write_str("movq 16(%rax), %rdi");
                    let ghost g3 = self@;
                    assert(g3.lines =~= g2.lines + null_check_lines());
                    let offset = match self.dispatch_table.get(&self.environment.curr_class) {
                        None => {
                            return false;
                        },
                        Some(slots) => match slots.get(&m.fun_name) {
                            None => {
                                return false;
                            },
                            Some(o) => *o,
                        },
                    };
                    self.write(text_num("call *", offset, "(%rdi)"), true);
                    let ghost g4 = self@;
                    proof {
                        lemma_exprs_view_len(m.actual@);
                    }
                    for _i in 0..m.actual.len()
                        invariant
                            self@ == emit_all(g4, pop_lines(_i as nat)),
                            keeps(*old(self), *self),
                    {
                        self.write_str("addq $8, %rsp");
                        assert(pop_lines((_i + 1) as nat) =~= pop_lines(_i as nat).push(tab("addq $8, %rsp"@)));
                    }
                    self.environment.curr_class = temp;
                    true
                },
            },
            _ => true,
        }
    }

    /// Arithmetic or a comparison.
    fn code_math(&mut self, e: &Expr) -> (ok: bool)
        requires
            e is Math,
        ensures
            ok == gen_expr(old(self)@, e@) is Some,
            ok ==> Some(final(self)@) == gen_expr(old(self)@, e@),
            keeps(*old(self), *final(self)),
        decreases *e, 1int,
    {
        let ghost g = self@;
        match e {
            Expr::Math(m) => {
                if !self.code_expr(&m.left) {
                    return false;
                }
                self.write_str("pushq %rax");
                if !self.code_expr(&m.right) {
                    return false;
                }
                let ghost g2 = self@;
                self.write_str("movq 16(%rax), %r10");
                self.write_str("movq (%rsp), %r11");
                self.write_str("movq 16(%r11), %r11");
                self.write_str("addq $8, %rsp");
                match &*m.op {
                    MathOp::ComputeOp(op) => {
                        match op {
                            ComputeOp::Add => self.write_str("addq %r10, %r11"),
                            ComputeOp::Minus => self.write_str("subq %r10, %r11"),
                            ComputeOp::Mul => {
                                self.write_str("movq %r11, %rax");
                                self.write_str("mulq %r10");
                                self.write_str("movq %rax, %r11");
                            },
                            ComputeOp::Divide => {
                                self.write_str("movq %r11, %rax");
                                self.write_str("divq %r10");
                                self.write_str("movq %rax, %r11");
                            },
                        }
                        self.write_str("pushq %r11");
                        self.write_str("pushq $Int_prototype");
                        self.write_str("call Object.malloc");
                        self.write_str("addq $8, %rsp");
                        self.write_str("call Int.init");
                        self.write_str("movq (%rsp), %r11");
                        self.write_str("movq %r11, 16(%rax)");
                        self.write_str("addq $8, %rsp");
                    },
                    MathOp::CondOp(op) => {
                        self.write_str("movq $1, %rdi");
                        self.write_str("movq $0, %rax");
                        self.write_str("subq %r10, %r11");
                        match op {
                            CondOp::More => self.write_str("cmova %rdi, %rax"),
                            CondOp::MoreE => self.write_str("cmovae %rdi, %rax"),
                            CondOp::Less => self.write_str("cmovb %rdi, %rax"),
                            CondOp::LessE => self.write_str("cmovbe %rdi, %rax"),
                            CondOp::Equal => self.write_str("cmove %rdi, %rax"),
                        }
                    },
                }
                assert(self@.lines =~= g2.lines + (operand_lines() + op_lines(*m.op)));
                true
            },
            _ => true,
        }
    }

    /// An `if`.
    fn code_cond(&mut self, e: &Expr) -> (ok: bool)
        requires
            e is Cond,
        ensures
            ok == gen_expr(old(self)@, e@) is Some,
            ok ==> Some(final(self)@) == gen_expr(old(self)@, e@),
            keeps(*old(self), *final(self)),
        decreases *e, 1int,
    {
        let ghost g = self@;
        match e {
            Expr::Cond(c) => {
                if self.environment.label > usize::MAX - 2 {
                    return false;
                }
                let lt = self.environment.label + 1;
                let ld = self.environment.label + 2;
                self.environment.label = ld;
                if !self.code_expr(&c.test) {
                    return false;
                }
                self.code_test_fix(&c.test);
                let ghost g1 = self@;
                self.write_str("cmpq $1, %rax");
                self.write(text_n("je label_", lt), true);
                assert(self@.lines =~= g1.lines + seq![tab("cmpq $1, %rax"@), je_line(lt)]);
                if !self.code_seq(&c.else_body, 0) {
                    return false;
                }
                self.write(text_n("jmp label_", ld), true);
                self.write(text_num("label_", lt, ":"), false);
                if !self.code_seq(&c.then_body, 0) {
                    return false;
                }
                self.write(text_num("label_", ld, ":"), false);
                true
            },
            _ => true,
        }
    }

    /// A `while` loop.
    fn code_while(&mut self, e: &Expr) -> (ok: bool)
        requires
            e is While,
        ensures
            ok == gen_expr(old(self)@, e@) is Some,
            ok ==> Some(final(self)@) == gen_expr(old(self)@, e@),
            keeps(*old(self), *final(self)),
        decreases *e, 1int,
    {
        let ghost g = self@;
        match e {
            Expr::While(w) => {
                if self.environment.label > usize::MAX - 2 {
                    return false;
                }
                let ll = self.environment.label + 1;
                let ld = self.environment.label + 2;
                self.environment.label = ld;
                self.write(text_n("jmp label_", ld), true);
                self.write(text_num("label_", ll, ":"), false);
                if !self.code_seq(&w.body, 0) {
                    return false;
                }
                self.write(text_num("label_", ld, ":"), false);
                if !self.code_expr(&w.test) {
                    return false;
                }
                self.code_test_fix(&w.test);
                let ghost g3 = self@;
                self.write_str("cmpq $1, %rax");
                self.write(text_n("je label_", ll), true);
                assert(self@.lines =~= g3.lines + seq![tab("cmpq $1, %rax"@), je_line(ll)]);
                true
            },
            _ => true,
        }
    }

    /// A `for` loop, in a scope of its own.
    fn code_for(&mut self, e: &Expr) -> (ok: bool)
        requires
            e is For,
        ensures
            ok == gen_expr(old(self)@, e@) is Some,
            ok ==> Some(final(self)@) == gen_expr(old(self)@, e@),
            keeps(*old(self), *final(self)),
        decreases *e, 1int,
    {
        let ghost g = self@;
        match e {
            Expr::For(f) => {
                if !self.environment.env.contains_key(&self.environment.curr_class) {
                    return false;
                }
                self.scopes_enter();
                if self.environment.label > usize::MAX - 2 {
                    return false;
                }
                let ll = self.environment.label + 1;
                let ld = self.environment.label + 2;
                self.environment.label = ld;
                if !self.code_seq(&f.init, 0) {
                    return false;
                }
                self.write(text_n("jmp label_", ld), true);
                self.write(text_num("label_", ll, ":"), false);
                if !self.code_seq(&f.body, 0) {
                    return false;
                }
                if !self.code_seq(&f.iter, 0) {
                    return false;
                }
                self.write(text_num("label_", ld, ":"), false);
                if !self.code_seq(&f.test, 2) {
                    return false;
                }
                let ghost g5 = self@;
                self.write_str("cmpq $1, %rax");
                self.write(text_n("je label_", ll), true);
                assert(self@.lines =~= g5.lines + seq![tab("cmpq $1, %rax"@), je_line(ll)]);
                if !self.environment.env.contains_key(&self.environment.curr_class) {
                    return false;
                }
                self.scopes_exit();
                true
            },
            _ => true,
        }
    }
}


/// The frame and the class at hand are as they were.
pub open spec fn same_frame(a: GenM, b: GenM) -> bool {
    a.align == b.align && a.curr == b.curr
}

/// The code of an expression leaves the frame and the class at hand as they
/// were.
pub proof fn lemma_expr_frame(g: GenM, e: ExprM)
    ensures
        gen_expr(g, e) is Some ==> same_frame(g, gen_expr(g, e)->Some_0),
    decreases e, 2int,
{
    match e {
        ExprM::Dispatch { target, expr, .. } => match expr {
            DispatchExprM::Method { actual, .. } => {
                lemma_seq_frame(g, actual, 1);
                if let Some(g1) = gen_seq(g, actual, 1) {
                    lemma_expr_frame(g1, *target);
                }
            },
            _ => {},
        },
        ExprM::Return { val, .. } => if let Some(v) = val {
            lemma_expr_frame(g, *v);
        },
        ExprM::Let(ds) => lemma_decls_frame(g, ds),
        ExprM::Assignment { compute, .. } => lemma_expr_frame(g, *compute),
        ExprM::Math { left, right, .. } => {
            lemma_expr_frame(g, *left);
            if let Some(g1) = gen_expr(g, *left) {
                lemma_expr_frame(emit_tab(g1, "pushq %rax"@), *right);
            }
        },
        ExprM::Cond { test, then_body, else_body, .. } => if g.label + 2 <= usize::MAX {
            let lt = (g.label + 1) as usize;
            let ld = (g.label + 2) as usize;
            let g0 = GenM { label: ld, ..g };
            lemma_expr_frame(g0, *test);
            if let Some(g1) = gen_expr(g0, *test) {
                let g2 = emit_all(test_fix(g1, *test), seq![tab("cmpq $1, %rax"@), je_line(lt)]);
                lemma_seq_frame(g2, else_body, 0);
                if let Some(g3) = gen_seq(g2, else_body, 0) {
                    lemma_seq_frame(emit(emit(g3, jmp_line(ld)), label_line(lt)), then_body, 0);
                }
            }
        },
        ExprM::While { test, body, .. } => if g.label + 2 <= usize::MAX {
            let ll = (g.label + 1) as usize;
            let ld = (g.label + 2) as usize;
            let g1 = emit(emit(GenM { label: ld, ..g }, jmp_line(ld)), label_line(ll));
            lemma_seq_frame(g1, body, 0);
            if let Some(g2) = gen_seq(g1, body, 0) {
                lemma_expr_frame(emit(g2, label_line(ld)), *test);
            }
        },
        ExprM::Not { expr, .. } => lemma_expr_frame(g, *expr),
        ExprM::Isnull { expr } => lemma_expr_frame(g, *expr),
        ExprM::For { init, test, iter, body, .. } => if let Some(g0) = enter_scopes(g) {
            if g0.label + 2 <= usize::MAX {
                let ll = (g0.label + 1) as usize;
                let ld = (g0.label + 2) as usize;
                lemma_seq_frame(GenM { label: ld, ..g0 }, init, 0);
                if let Some(g1) = gen_seq(GenM { label: ld, ..g0 }, init, 0) {
                    let g2 = emit(emit(g1, jmp_line(ld)), label_line(ll));
                    lemma_seq_frame(g2, body, 0);
                    if let Some(g3) = gen_seq(g2, body, 0) {
                        lemma_seq_frame(g3, iter, 0);
                        if let Some(g4) = gen_seq(g3, iter, 0) {
                            lemma_seq_frame(emit(g4, label_line(ld)), test, 2);
                        }
                    }
                }
            }
        },
        _ => {},
    }
}

pub proof fn lemma_seq_frame(g: GenM, es: Seq<ExprM>, mode: u8)
    ensures
        gen_seq(g, es, mode) is Some ==> same_frame(g, gen_seq(g, es, mode)->Some_0),
    decreases es, 0int,
{
    if es.len() > 0 {
        lemma_seq_frame(g, es.drop_last(), mode);
        if let Some(g1) = gen_seq(g, es.drop_last(), mode) {
            lemma_expr_frame(g1, es.last());
        }
    }
}

pub proof fn lemma_decls_frame(g: GenM, ds: Seq<VarDeclM>)
    ensures
        gen_decls(g, ds) is Some ==> same_frame(g, gen_decls(g, ds)->Some_0),
    decreases ds, 0int,
{
    if ds.len() > 0 {
        lemma_decls_frame(g, ds.drop_last());
        if let Some(g1) = gen_decls(g, ds.drop_last()) {
            lemma_decl_frame(g1, ds.last());
        }
    }
}

pub proof fn lemma_decl_frame(g: GenM, d: VarDeclM)
    ensures
        gen_decl(g, d) is Some ==> same_frame(g, gen_decl(g, d)->Some_0),
    decreases d, 1int,
{
    if let Some(off) = local_offset(g.var_offset) {
        if let Some(g1) = bind_scopes(g, d.name, ("%rbp"@, off)) {
            if let Some(x) = d.init {
                lemma_expr_frame(g1, x);
            }
        }
    }
}


/// Whether every declaration that `get_var_num` reads has a type; see
/// `vars_typed`.
pub fn expr_vars_typed(e: &Expr) -> (r: bool)
    ensures
        r == vars_typed(e@),
    decreases *e, 1int,
{
    match e {
        Expr::Let(l) => {
            let ds = &l.var_decls;
            proof {
                lemma_decls_view_len(ds@);
            }
            assert(e@ == ExprM::Let(decls_view(ds@)));
            for i in 0..ds.len()
                invariant
                    e@ == ExprM::Let(decls_view(ds@)),
                    decls_view(ds@).len() == ds@.len(),
                    forall|k: int| 0 <= k < i ==> (#[trigger] decls_view(ds@)[k]).type_ is Some,
            {
                proof {
                    lemma_decls_view_index(ds@, i as int);
                }
                if ds[i].type_.is_none() {
                    let ghost dv = decls_view(ds@);
                    assert(e@ == ExprM::Let(dv));
                    assert(dv[i as int].type_ is None);
                    assert(!(forall|k: int| 0 <= k < dv.len() ==> (#[trigger] dv[k]).type_ is Some));
                    return false;
                }
            }
            true
        },
        Expr::Cond(c) => list_vars_typed_exec(&c.then_body) && list_vars_typed_exec(&c.else_body),
        Expr::While(w) => list_vars_typed_exec(&w.body),
        Expr::For(f) => list_vars_typed_exec(&f.init),
        _ => true,
    }
}

/// Whether every declaration of the list that `get_var_num` reads has a
/// type; see `list_vars_typed`.
pub fn list_vars_typed_exec(v: &Vec<Expr>) -> (r: bool)
    ensures
        r == list_vars_typed(exprs_view(v@)),
    decreases v@, 2int,
{
    let ghost ev = exprs_view(v@);
    proof {
        lemma_exprs_view_len(v@);
        assert(ev.take(0) =~= Seq::<ExprM>::empty());
    }
    for i in 0..v.len()
        invariant
            ev == exprs_view(v@),
            ev.len() == v@.len(),
            list_vars_typed(ev.take(i as int)),
    {
        proof {
            lemma_exprs_view_index(v@, i as int);
            lemma_list_prefix(ev, i as int);
        }
        assert(decreases_to!(v@ => v@[i as int]));
        if !expr_vars_typed(&v[i]) {
            proof {
                if list_vars_typed(ev) {
                    lemma_list_typed_prefix(ev, ev.len() as int);
                    assert(list_vars_typed(ev.take(i + 1)));
                }
            }
            return false;
        }
    }
    assert(ev.take(ev.len() as int) =~= ev);
    true
}

} // verus!
