use vstd::prelude::*;

use super::abstract_present::{
    block_view, blocks_view, code_view, codes_view, int_text, push_int, AbstractBasicBlock, AbstractCode,
    AbstractInstruction, AbstractType, BlockM, CodeM, InstrM, Literal, TypeM,
};
use crate::parser::ast::class::{var_decl_view, VarDecl, VarDeclM};
use crate::parser::ast::expr::{
    decls_view, expr_view, exprs_view, lemma_decls_view_index, lemma_decls_view_len, lemma_exprs_view_index,
    lemma_exprs_view_len, Assignment, Cond, Expr, ExprM, IdentifierSrtuct, Let, Math, Return, While,
};
use crate::parser::ast::opt_string_view;
use crate::INT;

verus! {

/// The name of the place that an instruction writes.
pub type Dest = String;

/// What lowering needs to remember: the last temporary it named, the next
/// branch number, and the block it is writing to.
#[derive(Debug)]
pub struct Ast2IREnv {
    pub naming_num: i32,
    pub branch_num: i32,
    pub curr_block: usize,
}

/// The lowering state as integers.
pub ghost struct EnvM {
    pub naming: int,
    pub branch: int,
    pub curr: int,
}

impl View for Ast2IREnv {
    type V = EnvM;

    open spec fn view(&self) -> EnvM {
        EnvM { naming: self.naming_num as int, branch: self.branch_num as int, curr: self.curr_block as int }
    }
}

/// The name of temporary number `n`.
pub open spec fn var_name(n: int) -> Seq<char> {
    "t"@ + int_text(n)
}

/// The label of branch number `n`.
pub open spec fn br_name(n: int) -> Seq<char> {
    ".branch"@ + int_text(n)
}

/// A fresh temporary, and the state after naming it; `None` when the
/// counter would leave `i32`.
pub open spec fn fresh(env: EnvM) -> Option<(Seq<char>, EnvM)> {
    if env.naming + 1 > i32::MAX {
        None
    } else {
        Some((var_name(env.naming + 1), EnvM { naming: env.naming + 1, ..env }))
    }
}

/// The blocks with `c` added at the end of the current block; `None` when
/// there is no current block.
pub open spec fn emit(bs: Seq<BlockM>, env: EnvM, c: CodeM) -> Option<Seq<BlockM>> {
    if 0 <= env.curr < bs.len() {
        Some(bs.update(env.curr, BlockM { instrs: bs[env.curr].instrs.push(c), ..bs[env.curr] }))
    } else {
        None
    }
}

/// The blocks with an empty block called `name` added, which becomes the
/// current one.
pub open spec fn new_block(bs: Seq<BlockM>, env: EnvM, name: Seq<char>) -> Option<(Seq<BlockM>, EnvM)> {
    if env.curr + 1 > usize::MAX {
        None
    } else {
        Some((
            bs.push(BlockM { instrs: Seq::empty(), name, successors: Seq::empty() }),
            EnvM { curr: env.curr + 1, ..env },
        ))
    }
}

/// The result of lowering: the place that holds the value, if any, the
/// blocks and the state after it; `None` where lowering cannot go on.
pub type Lowered = Option<(Option<Seq<char>>, Seq<BlockM>, EnvM)>;

/// Lowers an expression into the current block: constants, identifiers
/// and arithmetic give a fresh temporary; assignments, `let`, `return`,
/// `if` and `while` give none; `if` branches inside the block, `while`
/// opens blocks for its condition, body and end.  A construction cannot be
/// lowered, nor can a value be taken of what gives none.
pub open spec fn lower(e: ExprM, bs: Seq<BlockM>, env: EnvM) -> Lowered
    decreases e, 1int,
{
    match e {
        ExprM::Int(i) => match fresh(env) {
            None => None,
            Some((d, env1)) => match emit(
                bs,
                env1,
                CodeM::Instruction(InstrM::Constant { dest: d, const_type: TypeM::Type(INT@), value: i as nat }),
            ) {
                None => None,
                Some(bs1) => Some((Some(d), bs1, env1)),
            },
        },
        ExprM::Assignment { id, compute, .. } => match lower(*compute, bs, env) {
            Some((Some(src), bs1, env1)) => match emit(
                bs1,
                env1,
                CodeM::Instruction(InstrM::Assign { src, dest: id, type_: None }),
            ) {
                None => None,
                Some(bs2) => Some((None, bs2, env1)),
            },
            _ => None,
        },
        ExprM::New { .. } => None,
        ExprM::Math { left, op, right, type_ } => match lower(*left, bs, env) {
            Some((Some(l), bs1, env1)) => match lower(*right, bs1, env1) {
                Some((Some(r), bs2, env2)) => match fresh(env2) {
                    None => None,
                    Some((d, env3)) => match emit(
                        bs2,
                        env3,
                        CodeM::Instruction(InstrM::Compute { left: l, dest: d, right: r, op, type_ }),
                    ) {
                        None => None,
                        Some(bs3) => Some((Some(d), bs3, env3)),
                    },
                },
                _ => None,
            },
            _ => None,
        },
        ExprM::Let(ds) => lower_decls(ds, bs, env),
        ExprM::Identifier { name, .. } => match fresh(env) {
            None => None,
            Some((d, env1)) => match emit(bs, env1, CodeM::Instruction(InstrM::Assign { src: name, dest: d, type_: None })) {
                None => None,
                Some(bs1) => Some((Some(d), bs1, env1)),
            },
        },
        ExprM::Return { val, .. } => match val {
            None => Some((None, bs, env)),
            Some(v) => match lower(*v, bs, env) {
                Some((Some(d), bs1, env1)) => match emit(bs1, env1, CodeM::Instruction(InstrM::Ret { src: d })) {
                    None => None,
                    Some(bs2) => Some((None, bs2, env1)),
                },
                _ => None,
            },
        },
        ExprM::Cond { test, then_body, else_body, .. } => match lower(*test, bs, env) {
            Some((Some(c), bs1, env1)) => if env1.branch + 3 > i32::MAX {
                None
            } else {
                let l = br_name(env1.branch);
                let r = br_name(env1.branch + 1);
                let end = br_name(env1.branch + 2);
                let env2 = EnvM { branch: env1.branch + 3, ..env1 };
                match emit(bs1, env2, CodeM::Instruction(InstrM::Br { arg: c, true_label: l, false_label: r })) {
                    None => None,
                    Some(bs2) => match emit(bs2, env2, CodeM::Label(l)) {
                        None => None,
                        Some(bs3) => match lower_list(then_body, bs3, env2) {
                            None => None,
                            Some((_, bs4, env3)) => match emit(bs4, env3, CodeM::Instruction(InstrM::Jmp { label: end })) {
                                None => None,
                                Some(bs5) => match emit(bs5, env3, CodeM::Label(r)) {
                                    None => None,
                                    Some(bs6) => match lower_list(else_body, bs6, env3) {
                                        None => None,
                                        Some((_, bs7, env4)) => match emit(
                                            bs7,
                                            env4,
                                            CodeM::Instruction(InstrM::Jmp { label: end }),
                                        ) {
                                            None => None,
                                            Some(bs8) => match emit(bs8, env4, CodeM::Label(end)) {
                                                None => None,
                                                Some(bs9) => Some((None, bs9, env4)),
                                            },
                                        },
                                    },
                                },
                            },
                        },
                    },
                }
            },
            _ => None,
        },
        ExprM::While { test, body, .. } => if env.branch + 3 > i32::MAX {
            None
        } else {
            let cb = br_name(env.branch);
            let bb = br_name(env.branch + 1);
            let eb = br_name(env.branch + 2);
            let env1 = EnvM { branch: env.branch + 3, ..env };
            let first = if env1.curr == 0 {
                emit(bs, env1, CodeM::Instruction(InstrM::Jmp { label: cb }))
            } else {
                Some(bs)
            };
            match first {
                None => None,
                Some(bs1) => match new_block(bs1, env1, cb) {
                    None => None,
                    Some((bs2, env2)) => match emit(bs2, env2, CodeM::Label(cb)) {
                        None => None,
                        Some(bs3) => match lower(*test, bs3, env2) {
                            Some((Some(c), bs4, env3)) => match emit(
                                bs4,
                                env3,
                                CodeM::Instruction(InstrM::Br { arg: c, true_label: bb, false_label: eb }),
                            ) {
                                None => None,
                                Some(bs5) => match new_block(bs5, env3, bb) {
                                    None => None,
                                    Some((bs6, env4)) => match emit(bs6, env4, CodeM::Label(bb)) {
                                        None => None,
                                        Some(bs7) => match lower_list(body, bs7, env4) {
                                            None => None,
                                            Some((_, bs8, env5)) => match emit(
                                                bs8,
                                                env5,
                                                CodeM::Instruction(InstrM::Jmp { label: cb }),
                                            ) {
                                                None => None,
                                                Some(bs9) => match new_block(bs9, env5, eb) {
                                                    None => None,
                                                    Some((bs10, env6)) => match emit(bs10, env6, CodeM::Label(eb)) {
                                                        None => None,
                                                        Some(bs11) => Some((None, bs11, env6)),
                                                    },
                                                },
                                            },
                                        },
                                    },
                                },
                            },
                            _ => None,
                        },
                    },
                },
            }
        },
        _ => Some((None, bs, env)),
    }
}

/// Lowers the expressions one after the other; what they give is dropped.
pub open spec fn lower_list(es: Seq<ExprM>, bs: Seq<BlockM>, env: EnvM) -> Lowered
    decreases es, 0int,
{
    if es.len() == 0 {
        Some((None, bs, env))
    } else {
        match lower(es[0], bs, env) {
            None => None,
            Some((_, bs1, env1)) => lower_list(es.drop_first(), bs1, env1),
        }
    }
}

/// Lowers the declarations of a `let`: each one with an initial value
/// assigns that value to its name.
pub open spec fn lower_decls(ds: Seq<VarDeclM>, bs: Seq<BlockM>, env: EnvM) -> Lowered
    decreases ds, 0int,
{
    if ds.len() == 0 {
        Some((None, bs, env))
    } else {
        match ds[0].init {
            None => lower_decls(ds.drop_first(), bs, env),
            Some(init) => match lower(init, bs, env) {
                Some((Some(src), bs1, env1)) => match emit(
                    bs1,
                    env1,
                    CodeM::Instruction(InstrM::Assign { src, dest: ds[0].name, type_: None }),
                ) {
                    None => None,
                    Some(bs2) => lower_decls(ds.drop_first(), bs2, env1),
                },
                _ => None,
            },
        }
    }
}

impl Ast2IREnv {
    /// Counts one more temporary.
    pub fn update_var_env(&mut self)
        requires
            old(self).naming_num < i32::MAX,
        ensures
            final(self).naming_num == old(self).naming_num + 1,
            final(self).branch_num == old(self).branch_num,
            final(self).curr_block == old(self).curr_block,
    {
        self.naming_num += 1;
    }

    /// Counts `num` more branches.
    pub fn update_branch_env(&mut self, num: i32)
        requires
            i32::MIN <= old(self).branch_num + num <= i32::MAX,
        ensures
            final(self).branch_num == old(self).branch_num + num,
            final(self).naming_num == old(self).naming_num,
            final(self).curr_block == old(self).curr_block,
    {
        self.branch_num += num;
    }

    pub fn get_branch_num(&self) -> (r: i32)
        ensures
            r == self.branch_num,
    {
        self.branch_num
    }

    /// A fresh temporary: `t` and the next number.
    pub fn get_env_var_name(&mut self) -> (r: Dest)
        requires
            old(self).naming_num < i32::MAX,
        ensures
            fresh(old(self)@) == Some((r@, final(self)@)),
    {
        self.update_var_env();
        let mut s = String::from_str("t");
        push_int(&mut s, self.naming_num as i64);
        s
    }

    /// The label of branch number `num`.
    pub fn get_env_br_name(&mut self, num: i32) -> (r: String)
        ensures
            r@ == br_name(num as int),
            *final(self) == *old(self),
    {
        let mut s = String::from_str(".branch");
        push_int(&mut s, num as i64);
        s
    }

    /// The block that lowering writes to.
    pub fn get_curr_block<'a>(&'a self, blocks: &'a mut Vec<AbstractBasicBlock>) -> (r: &'a mut AbstractBasicBlock)
        requires
            self.curr_block < old(blocks)@.len(),
        ensures
            *r == old(blocks)@[self.curr_block as int],
            final(blocks)@ == old(blocks)@.update(self.curr_block as int, *final(r)),
    {
        &mut blocks[self.curr_block]
    }

    /// Adds `block` after the others; it becomes the current one.
    pub fn update_block(&mut self, block: AbstractBasicBlock, blocks: &mut Vec<AbstractBasicBlock>)
        requires
            old(self).curr_block < usize::MAX,
        ensures
            final(self).curr_block == old(self).curr_block + 1,
            final(self).naming_num == old(self).naming_num,
            final(self).branch_num == old(self).branch_num,
            final(blocks)@ == old(blocks)@.push(block),
    {
        self.curr_block += 1;
        blocks.push(block);
    }
}

/// Adds `c` at the end of the current block.
fn emit_code(env: &Ast2IREnv, blocks: &mut Vec<AbstractBasicBlock>, c: AbstractCode)
    requires
        emit(blocks_view(old(blocks)@), env@, code_view(c)) is Some,
    ensures
        emit(blocks_view(old(blocks)@), env@, code_view(c)) == Some(blocks_view(final(blocks)@)),
{
    let ghost bs0 = old(blocks)@;
    let b = env.get_curr_block(blocks);
    let ghost b0 = *b;
    b.instrs.push(c);
    proof {
        assert(codes_view(b0.instrs@.push(c)) =~= codes_view(b0.instrs@).push(code_view(c)));
    }
    assert(blocks_view(blocks@) =~= blocks_view(bs0).update(
        env.curr_block as int,
        BlockM { instrs: codes_view(b0.instrs@).push(code_view(c)), ..block_view(b0) },
    ));
}


/// Lowers the expressions of a list, one after the other; see `lower_list`.
fn lower_list_exec(v: &Vec<Expr>, blocks: &mut Vec<AbstractBasicBlock>, env: &mut Ast2IREnv)
    requires
        lower_list(exprs_view(v@), blocks_view(old(blocks)@), old(env)@) is Some,
    ensures
        lower_list(exprs_view(v@), blocks_view(old(blocks)@), old(env)@) == Some((
            None::<Seq<char>>,
            blocks_view(final(blocks)@),
            final(env)@,
        )),
    decreases v@, 2int,
{
    let ghost ev = exprs_view(v@);
    let ghost target = lower_list(ev, blocks_view(blocks@), env@);
    proof {
        lemma_exprs_view_len(v@);
        assert(ev.skip(0) =~= ev);
    }
    for k in 0..v.len()
        invariant
            ev == exprs_view(v@),
            ev.len() == v@.len(),
            target is Some,
            target == lower_list(ev.skip(k as int), blocks_view(blocks@), env@),
    {
        proof {
            lemma_exprs_view_index(v@, k as int);
            assert(ev.skip(k as int)[0] == ev[k as int]);
            assert(ev.skip(k as int).drop_first() =~= ev.skip(k + 1));
        }
        assert(decreases_to!(v@ => v@[k as int]));
        lower_expr(&v[k], blocks, env);
    }
    assert(ev.skip(v@.len() as int) =~= Seq::<ExprM>::empty());
}

/// Lowers the declarations of a `let`; see `lower_decls`.
fn lower_decls_exec(v: &Vec<VarDecl>, blocks: &mut Vec<AbstractBasicBlock>, env: &mut Ast2IREnv)
    requires
        lower_decls(decls_view(v@), blocks_view(old(blocks)@), old(env)@) is Some,
    ensures
        lower_decls(decls_view(v@), blocks_view(old(blocks)@), old(env)@) == Some((
            None::<Seq<char>>,
            blocks_view(final(blocks)@),
            final(env)@,
        )),
    decreases v@, 2int,
{
    let ghost dv = decls_view(v@);
    let ghost target = lower_decls(dv, blocks_view(blocks@), env@);
    proof {
        lemma_decls_view_len(v@);
        assert(dv.skip(0) =~= dv);
    }
    for k in 0..v.len()
        invariant
            dv == decls_view(v@),
            dv.len() == v@.len(),
            target is Some,
            target == lower_decls(dv.skip(k as int), blocks_view(blocks@), env@),
    {
        proof {
            lemma_decls_view_index(v@, k as int);
            assert(dv.skip(k as int)[0] == dv[k as int]);
            assert(dv.skip(k as int).drop_first() =~= dv.skip(k + 1));
        }
        let d = &v[k];
        assert(decreases_to!(v@ => v@[k as int]));
        if let Some(init) = &*d.init {
            assert(decreases_to!(v@[k as int] => init));
            let src = lower_expr(init, blocks, env);
            let src = src.unwrap();
            emit_code(
                env,
                blocks,
                AbstractCode::Instruction(AbstractInstruction::Assign { src, dest: d.name.clone(), type_: None }),
            );
        }
    }
    assert(dv.skip(v@.len() as int) =~= Seq::<VarDeclM>::empty());
}

fn lower_assign(a: &Assignment, blocks: &mut Vec<AbstractBasicBlock>, env: &mut Ast2IREnv) -> (r: Option<Dest>)
    requires
        lower(expr_view(Expr::Assignment(*a)), blocks_view(old(blocks)@), old(env)@) is Some,
    ensures
        lower(expr_view(Expr::Assignment(*a)), blocks_view(old(blocks)@), old(env)@) == Some((
            opt_string_view(r),
            blocks_view(final(blocks)@),
            final(env)@,
        )),
    decreases a, 1int,
{
    let src = lower_expr(&a.compute, blocks, env).unwrap();
    emit_code(env, blocks, AbstractCode::Instruction(AbstractInstruction::Assign { src, dest: a.id.clone(), type_: None }));
    None
}

fn lower_math(m: &Math, blocks: &mut Vec<AbstractBasicBlock>, env: &mut Ast2IREnv) -> (r: Option<Dest>)
    requires
        lower(expr_view(Expr::Math(*m)), blocks_view(old(blocks)@), old(env)@) is Some,
    ensures
        lower(expr_view(Expr::Math(*m)), blocks_view(old(blocks)@), old(env)@) == Some((
            opt_string_view(r),
            blocks_view(final(blocks)@),
            final(env)@,
        )),
    decreases m, 1int,
{
    let dest_left = lower_expr(&m.left, blocks, env).unwrap();
    let dest_right = lower_expr(&m.right, blocks, env).unwrap();
    let dest = env.get_env_var_name();
    emit_code(
        env,
        blocks,
        AbstractCode::Instruction(
            AbstractInstruction::Compute {
                left: dest_left,
                dest: dest.clone(),
                right: dest_right,
                op: *m.op,
                type_: m.type_.clone(),
            },
        ),
    );
    Some(dest)
}

fn lower_ident(x: &IdentifierSrtuct, blocks: &mut Vec<AbstractBasicBlock>, env: &mut Ast2IREnv) -> (r: Option<Dest>)
    requires
        lower(expr_view(Expr::Identifier(*x)), blocks_view(old(blocks)@), old(env)@) is Some,
    ensures
        lower(expr_view(Expr::Identifier(*x)), blocks_view(old(blocks)@), old(env)@) == Some((
            opt_string_view(r),
            blocks_view(final(blocks)@),
            final(env)@,
        )),
{
    let dest = env.get_env_var_name();
    emit_code(
        env,
        blocks,
        AbstractCode::Instruction(AbstractInstruction::Assign { src: x.name.clone(), dest: dest.clone(), type_: None }),
    );
    Some(dest)
}

fn lower_return(x: &Return, blocks: &mut Vec<AbstractBasicBlock>, env: &mut Ast2IREnv) -> (r: Option<Dest>)
    requires
        lower(expr_view(Expr::Return(*x)), blocks_view(old(blocks)@), old(env)@) is Some,
    ensures
        lower(expr_view(Expr::Return(*x)), blocks_view(old(blocks)@), old(env)@) == Some((
            opt_string_view(r),
            blocks_view(final(blocks)@),
            final(env)@,
        )),
    decreases x, 1int,
{
    if let Some(e) = &x.val {
        let dest = lower_expr(e, blocks, env).unwrap();
        emit_code(env, blocks, AbstractCode::Instruction(AbstractInstruction::Ret { src: dest }));
    }
    None
}

fn lower_cond(x: &Cond, blocks: &mut Vec<AbstractBasicBlock>, env: &mut Ast2IREnv) -> (r: Option<Dest>)
    requires
        lower(expr_view(Expr::Cond(*x)), blocks_view(old(blocks)@), old(env)@) is Some,
    ensures
        lower(expr_view(Expr::Cond(*x)), blocks_view(old(blocks)@), old(env)@) == Some((
            opt_string_view(r),
            blocks_view(final(blocks)@),
            final(env)@,
        )),
    decreases x, 1int,
{
    let condition = lower_expr(&x.test, blocks, env).unwrap();
    let b = env.get_branch_num();
    let left = env.get_env_br_name(b);
    let right = env.get_env_br_name(b + 1);
    let end = env.get_env_br_name(b + 2);
    env.update_branch_env(3);
    emit_code(
        env,
        blocks,
        AbstractCode::Instruction(
            AbstractInstruction::Br { arg: condition, true_label: left.clone(), false_label: right.clone() },
        ),
    );
    emit_code(env, blocks, AbstractCode::Label { label: left });
    lower_list_exec(&x.then_body, blocks, env);
    emit_code(env, blocks, AbstractCode::Instruction(AbstractInstruction::Jmp { label: end.clone() }));
    emit_code(env, blocks, AbstractCode::Label { label: right });
    lower_list_exec(&x.else_body, blocks, env);
    emit_code(env, blocks, AbstractCode::Instruction(AbstractInstruction::Jmp { label: end.clone() }));
    emit_code(env, blocks, AbstractCode::Label { label: end });
    None
}

fn lower_while(x: &While, blocks: &mut Vec<AbstractBasicBlock>, env: &mut Ast2IREnv) -> (r: Option<Dest>)
    requires
        lower(expr_view(Expr::While(*x)), blocks_view(old(blocks)@), old(env)@) is Some,
    ensures
        lower(expr_view(Expr::While(*x)), blocks_view(old(blocks)@), old(env)@) == Some((
            opt_string_view(r),
            blocks_view(final(blocks)@),
            final(env)@,
        )),
    decreases x, 1int,
{
    let b = env.get_branch_num();
    let condition_br = env.get_env_br_name(b);
    let body_br = env.get_env_br_name(b + 1);
    let end_br = env.get_env_br_name(b + 2);
    env.update_branch_env(3);
    if env.curr_block == 0 {
        emit_code(env, blocks, AbstractCode::Instruction(AbstractInstruction::Jmp { label: condition_br.clone() }));
    }
    let ghost bs1 = blocks@;
    let nb = AbstractBasicBlock { instrs: Vec::new(), name: condition_br.clone(), successors: Vec::new() };
    assert(codes_view(nb.instrs@) =~= Seq::<CodeM>::empty());
    assert(nb.successors@ =~= Seq::<usize>::empty());
    env.update_block(nb, blocks);
    assert(blocks_view(blocks@) =~= blocks_view(bs1).push(
        BlockM { instrs: Seq::empty(), name: condition_br@, successors: Seq::empty() },
    ));
    emit_code(env, blocks, AbstractCode::Label { label: condition_br.clone() });
    let condition = lower_expr(&x.test, blocks, env).unwrap();
    emit_code(
        env,
        blocks,
        AbstractCode::Instruction(
            AbstractInstruction::Br { arg: condition, true_label: body_br.clone(), false_label: end_br.clone() },
        ),
    );
    let ghost bs5 = blocks@;
    let nb = AbstractBasicBlock { instrs: Vec::new(), name: body_br.clone(), successors: Vec::new() };
    assert(codes_view(nb.instrs@) =~= Seq::<CodeM>::empty());
    assert(nb.successors@ =~= Seq::<usize>::empty());
    env.update_block(nb, blocks);
    assert(blocks_view(blocks@) =~= blocks_view(bs5).push(
        BlockM { instrs: Seq::empty(), name: body_br@, successors: Seq::empty() },
    ));
    emit_code(env, blocks, AbstractCode::Label { label: body_br });
    lower_list_exec(&x.body, blocks, env);
    emit_code(env, blocks, AbstractCode::Instruction(AbstractInstruction::Jmp { label: condition_br }));
    let ghost bs9 = blocks@;
    let nb = AbstractBasicBlock { instrs: Vec::new(), name: end_br.clone(), successors: Vec::new() };
    assert(codes_view(nb.instrs@) =~= Seq::<CodeM>::empty());
    assert(nb.successors@ =~= Seq::<usize>::empty());
    env.update_block(nb, blocks);
    assert(blocks_view(blocks@) =~= blocks_view(bs9).push(
        BlockM { instrs: Seq::empty(), name: end_br@, successors: Seq::empty() },
    ));
    emit_code(env, blocks, AbstractCode::Label { label: end_br });
    None
}

/// Lowers an expression; see `lower`.
fn lower_expr(e: &Expr, blocks: &mut Vec<AbstractBasicBlock>, env: &mut Ast2IREnv) -> (r: Option<Dest>)
    requires
        lower(expr_view(*e), blocks_view(old(blocks)@), old(env)@) is Some,
    ensures
        lower(expr_view(*e), blocks_view(old(blocks)@), old(env)@) == Some((
            opt_string_view(r),
            blocks_view(final(blocks)@),
            final(env)@,
        )),
    decreases e, 1int,
{
    match e {
        Expr::Int(i) => {
            let dest = env.get_env_var_name();
            emit_code(
                env,
                blocks,
                AbstractCode::Instruction(
                    AbstractInstruction::Constant {
                        dest: dest.clone(),
                        const_type: AbstractType::Type(String::from_str(INT)),
                        value: Literal::Int(*i),
                    },
                ),
            );
            Some(dest)
        },
        Expr::Assignment(x) => lower_assign(x, blocks, env),
        Expr::New(_) => {
            vstd::pervasive::unreached()
        },
        Expr::Math(x) => lower_math(x, blocks, env),
        Expr::Let(x) => {
            lower_decls_exec(&x.var_decls, blocks, env);
            None
        },
        Expr::Identifier(x) => lower_ident(x, blocks, env),
        Expr::Return(x) => lower_return(x, blocks, env),
        Expr::Cond(x) => lower_cond(x, blocks, env),
        Expr::While(x) => lower_while(x, blocks, env),
        _ => None,
    }
}

/// A node of the program that can be lowered into blocks; see `lower`.
pub trait Ast2IR: Sized {
    /// The node as an expression.
    spec fn ir_view(&self) -> ExprM;

    fn ast2ir(&mut self, blocks: &mut Vec<AbstractBasicBlock>, env: &mut Ast2IREnv) -> (r: Option<Dest>)
        requires
            lower(old(self).ir_view(), blocks_view(old(blocks)@), old(env)@) is Some,
        ensures
            lower(old(self).ir_view(), blocks_view(old(blocks)@), old(env)@) == Some((
                opt_string_view(r),
                blocks_view(final(blocks)@),
                final(env)@,
            )),
            *final(self) == *old(self),
    ;
}

impl Ast2IR for Expr {
    open spec fn ir_view(&self) -> ExprM {
        expr_view(*self)
    }

    fn ast2ir(&mut self, blocks: &mut Vec<AbstractBasicBlock>, env: &mut Ast2IREnv) -> (r: Option<Dest>) {
        lower_expr(self, blocks, env)
    }
}

impl Ast2IR for Let {
    open spec fn ir_view(&self) -> ExprM {
        expr_view(Expr::Let(*self))
    }

    fn ast2ir(&mut self, blocks: &mut Vec<AbstractBasicBlock>, env: &mut Ast2IREnv) -> (r: Option<Dest>) {
        lower_decls_exec(&self.var_decls, blocks, env);
        None
    }
}

impl Ast2IR for Assignment {
    open spec fn ir_view(&self) -> ExprM {
        expr_view(Expr::Assignment(*self))
    }

    fn ast2ir(&mut self, blocks: &mut Vec<AbstractBasicBlock>, env: &mut Ast2IREnv) -> (r: Option<Dest>) {
        lower_assign(self, blocks, env)
    }
}

impl Ast2IR for Math {
    open spec fn ir_view(&self) -> ExprM {
        expr_view(Expr::Math(*self))
    }

    fn ast2ir(&mut self, blocks: &mut Vec<AbstractBasicBlock>, env: &mut Ast2IREnv) -> (r: Option<Dest>) {
        lower_math(self, blocks, env)
    }
}

impl Ast2IR for IdentifierSrtuct {
    open spec fn ir_view(&self) -> ExprM {
        expr_view(Expr::Identifier(*self))
    }

    fn ast2ir(&mut self, blocks: &mut Vec<AbstractBasicBlock>, env: &mut Ast2IREnv) -> (r: Option<Dest>) {
        lower_ident(self, blocks, env)
    }
}

impl Ast2IR for Return {
    open spec fn ir_view(&self) -> ExprM {
        expr_view(Expr::Return(*self))
    }

    fn ast2ir(&mut self, blocks: &mut Vec<AbstractBasicBlock>, env: &mut Ast2IREnv) -> (r: Option<Dest>) {
        lower_return(self, blocks, env)
    }
}

impl Ast2IR for Cond {
    open spec fn ir_view(&self) -> ExprM {
        expr_view(Expr::Cond(*self))
    }

    fn ast2ir(&mut self, blocks: &mut Vec<AbstractBasicBlock>, env: &mut Ast2IREnv) -> (r: Option<Dest>) {
        lower_cond(self, blocks, env)
    }
}

impl Ast2IR for While {
    open spec fn ir_view(&self) -> ExprM {
        expr_view(Expr::While(*self))
    }

    fn ast2ir(&mut self, blocks: &mut Vec<AbstractBasicBlock>, env: &mut Ast2IREnv) -> (r: Option<Dest>) {
        lower_while(self, blocks, env)
    }
}
/// `b` keeps what `a` holds: its blocks, in order, each with its name and
/// successors and with its lines kept at the front; `b` may hold more
/// blocks after them.
pub open spec fn grows(a: Seq<BlockM>, b: Seq<BlockM>) -> bool {
    &&& b.len() >= a.len()
    &&& forall|p: int|
        0 <= p < a.len() ==> (#[trigger] b[p]).name == a[p].name && b[p].successors == a[p].successors
            && b[p].instrs.len() >= a[p].instrs.len() && b[p].instrs.take(a[p].instrs.len() as int) == a[p].instrs
}

proof fn lemma_grows_refl(a: Seq<BlockM>)
    ensures
        grows(a, a),
{
    assert forall|p: int| 0 <= p < a.len() implies (#[trigger] a[p]).instrs.take(a[p].instrs.len() as int) == a[p].instrs by {
        assert(a[p].instrs.take(a[p].instrs.len() as int) =~= a[p].instrs);
    }
}

proof fn lemma_grows_trans(a: Seq<BlockM>, b: Seq<BlockM>, c: Seq<BlockM>)
    requires
        grows(a, b),
        grows(b, c),
    ensures
        grows(a, c),
{
    assert forall|p: int| 0 <= p < a.len() implies (#[trigger] c[p]).name == a[p].name && c[p].successors == a[p].successors
        && c[p].instrs.len() >= a[p].instrs.len() && c[p].instrs.take(a[p].instrs.len() as int) == a[p].instrs by {
        assert(b[p].name == a[p].name);
        assert(c[p].instrs.take(a[p].instrs.len() as int) =~= c[p].instrs.take(b[p].instrs.len() as int).take(
            a[p].instrs.len() as int,
        ));
    }
}

proof fn lemma_emit_grows(bs: Seq<BlockM>, env: EnvM, c: CodeM)
    requires
        emit(bs, env, c) is Some,
    ensures
        grows(bs, emit(bs, env, c)->Some_0),
{
    let b2 = emit(bs, env, c)->Some_0;
    lemma_grows_refl(bs);
    assert forall|p: int| 0 <= p < bs.len() implies (#[trigger] b2[p]).name == bs[p].name && b2[p].successors == bs[p].successors
        && b2[p].instrs.len() >= bs[p].instrs.len() && b2[p].instrs.take(bs[p].instrs.len() as int) == bs[p].instrs by {
        if p == env.curr {
            assert(b2[p].instrs.take(bs[p].instrs.len() as int) =~= bs[p].instrs);
        }
    }
}

proof fn lemma_new_block_grows(bs: Seq<BlockM>, env: EnvM, name: Seq<char>)
    requires
        new_block(bs, env, name) is Some,
    ensures
        grows(bs, new_block(bs, env, name)->Some_0.0),
{
    let b2 = new_block(bs, env, name)->Some_0.0;
    lemma_grows_refl(bs);
    assert forall|p: int| 0 <= p < bs.len() implies (#[trigger] b2[p]) == bs[p] by {}
}

/// Lowering only adds: the blocks already there keep their names, their
/// successors and their lines, and new lines and blocks come after them.
pub(crate) proof fn lemma_lower_grows(e: ExprM, bs: Seq<BlockM>, env: EnvM)
    requires
        lower(e, bs, env) is Some,
    ensures
        grows(bs, lower(e, bs, env)->Some_0.1),
    decreases e, 1int,
{
    let r = lower(e, bs, env)->Some_0.1;
    match e {
        ExprM::Int(i) => {
            let (d, env1) = fresh(env)->Some_0;
            lemma_emit_grows(bs, env1, CodeM::Instruction(InstrM::Constant { dest: d, const_type: TypeM::Type(INT@), value: i as nat }));
        },
        ExprM::Assignment { id, compute, .. } => {
            lemma_lower_grows(*compute, bs, env);
            let (src, bs1, env1) = lower(*compute, bs, env)->Some_0;
            lemma_emit_grows(bs1, env1, CodeM::Instruction(InstrM::Assign { src: src->Some_0, dest: id, type_: None }));
            lemma_grows_trans(bs, bs1, r);
        },
        ExprM::Math { left, op, right, type_ } => {
            lemma_lower_grows(*left, bs, env);
            let (l, bs1, env1) = lower(*left, bs, env)->Some_0;
            lemma_lower_grows(*right, bs1, env1);
            let (rr, bs2, env2) = lower(*right, bs1, env1)->Some_0;
            let (d, env3) = fresh(env2)->Some_0;
            lemma_emit_grows(
                bs2,
                env3,
                CodeM::Instruction(InstrM::Compute { left: l->Some_0, dest: d, right: rr->Some_0, op, type_ }),
            );
            lemma_grows_trans(bs, bs1, bs2);
            lemma_grows_trans(bs, bs2, r);
        },
        ExprM::Let(ds) => {
            lemma_lower_decls_grows(ds, bs, env);
        },
        ExprM::Identifier { name, .. } => {
            let (d, env1) = fresh(env)->Some_0;
            lemma_emit_grows(bs, env1, CodeM::Instruction(InstrM::Assign { src: name, dest: d, type_: None }));
        },
        ExprM::Return { val, .. } => {
            match val {
                None => {
                    lemma_grows_refl(bs);
                },
                Some(v) => {
                    lemma_lower_grows(*v, bs, env);
                    let (d, bs1, env1) = lower(*v, bs, env)->Some_0;
                    lemma_emit_grows(bs1, env1, CodeM::Instruction(InstrM::Ret { src: d->Some_0 }));
                    lemma_grows_trans(bs, bs1, r);
                },
            }
        },
        ExprM::Cond { test, then_body, else_body, .. } => {
            lemma_lower_grows(*test, bs, env);
            let (c, bs1, env1) = lower(*test, bs, env)->Some_0;
            let l = br_name(env1.branch);
            let rn = br_name(env1.branch + 1);
            let end = br_name(env1.branch + 2);
            let env2 = EnvM { branch: env1.branch + 3, ..env1 };
            let c1 = CodeM::Instruction(InstrM::Br { arg: c->Some_0, true_label: l, false_label: rn });
            lemma_emit_grows(bs1, env2, c1);
            let bs2 = emit(bs1, env2, c1)->Some_0;
            lemma_emit_grows(bs2, env2, CodeM::Label(l));
            let bs3 = emit(bs2, env2, CodeM::Label(l))->Some_0;
            lemma_lower_list_grows(then_body, bs3, env2);
            let (_, bs4, env3) = lower_list(then_body, bs3, env2)->Some_0;
            lemma_emit_grows(bs4, env3, CodeM::Instruction(InstrM::Jmp { label: end }));
            let bs5 = emit(bs4, env3, CodeM::Instruction(InstrM::Jmp { label: end }))->Some_0;
            lemma_emit_grows(bs5, env3, CodeM::Label(rn));
            let bs6 = emit(bs5, env3, CodeM::Label(rn))->Some_0;
            lemma_lower_list_grows(else_body, bs6, env3);
            let (_, bs7, env4) = lower_list(else_body, bs6, env3)->Some_0;
            lemma_emit_grows(bs7, env4, CodeM::Instruction(InstrM::Jmp { label: end }));
            let bs8 = emit(bs7, env4, CodeM::Instruction(InstrM::Jmp { label: end }))->Some_0;
            lemma_emit_grows(bs8, env4, CodeM::Label(end));
            lemma_grows_trans(bs, bs1, bs2);
            lemma_grows_trans(bs, bs2, bs3);
            lemma_grows_trans(bs, bs3, bs4);
            lemma_grows_trans(bs, bs4, bs5);
            lemma_grows_trans(bs, bs5, bs6);
            lemma_grows_trans(bs, bs6, bs7);
            lemma_grows_trans(bs, bs7, bs8);
            lemma_grows_trans(bs, bs8, r);
        },
        ExprM::While { test, body, .. } => {
            let cb = br_name(env.branch);
            let bb = br_name(env.branch + 1);
            let eb = br_name(env.branch + 2);
            let env1 = EnvM { branch: env.branch + 3, ..env };
            let bs1 = if env1.curr == 0 {
                lemma_emit_grows(bs, env1, CodeM::Instruction(InstrM::Jmp { label: cb }));
                emit(bs, env1, CodeM::Instruction(InstrM::Jmp { label: cb }))->Some_0
            } else {
                lemma_grows_refl(bs);
                bs
            };
            lemma_new_block_grows(bs1, env1, cb);
            let (bs2, env2) = new_block(bs1, env1, cb)->Some_0;
            lemma_emit_grows(bs2, env2, CodeM::Label(cb));
            let bs3 = emit(bs2, env2, CodeM::Label(cb))->Some_0;
            lemma_lower_grows(*test, bs3, env2);
            let (c, bs4, env3) = lower(*test, bs3, env2)->Some_0;
            let c5 = CodeM::Instruction(InstrM::Br { arg: c->Some_0, true_label: bb, false_label: eb });
            lemma_emit_grows(bs4, env3, c5);
            let bs5 = emit(bs4, env3, c5)->Some_0;
            lemma_new_block_grows(bs5, env3, bb);
            let (bs6, env4) = new_block(bs5, env3, bb)->Some_0;
            lemma_emit_grows(bs6, env4, CodeM::Label(bb));
            let bs7 = emit(bs6, env4, CodeM::Label(bb))->Some_0;
            lemma_lower_list_grows(body, bs7, env4);
            let (_, bs8, env5) = lower_list(body, bs7, env4)->Some_0;
            lemma_emit_grows(bs8, env5, CodeM::Instruction(InstrM::Jmp { label: cb }));
            let bs9 = emit(bs8, env5, CodeM::Instruction(InstrM::Jmp { label: cb }))->Some_0;
            lemma_new_block_grows(bs9, env5, eb);
            let (bs10, env6) = new_block(bs9, env5, eb)->Some_0;
            lemma_emit_grows(bs10, env6, CodeM::Label(eb));
            lemma_grows_trans(bs, bs1, bs2);
            lemma_grows_trans(bs, bs2, bs3);
            lemma_grows_trans(bs, bs3, bs4);
            lemma_grows_trans(bs, bs4, bs5);
            lemma_grows_trans(bs, bs5, bs6);
            lemma_grows_trans(bs, bs6, bs7);
            lemma_grows_trans(bs, bs7, bs8);
            lemma_grows_trans(bs, bs8, bs9);
            lemma_grows_trans(bs, bs9, bs10);
            lemma_grows_trans(bs, bs10, r);
        },
        _ => {
            lemma_grows_refl(bs);
        },
    }
}

proof fn lemma_lower_list_grows(es: Seq<ExprM>, bs: Seq<BlockM>, env: EnvM)
    requires
        lower_list(es, bs, env) is Some,
    ensures
        grows(bs, lower_list(es, bs, env)->Some_0.1),
    decreases es, 0int,
{
    if es.len() == 0 {
        lemma_grows_refl(bs);
    } else {
        lemma_lower_grows(es[0], bs, env);
        let (_, bs1, env1) = lower(es[0], bs, env)->Some_0;
        lemma_lower_list_grows(es.drop_first(), bs1, env1);
        lemma_grows_trans(bs, bs1, lower_list(es.drop_first(), bs1, env1)->Some_0.1);
    }
}

proof fn lemma_lower_decls_grows(ds: Seq<VarDeclM>, bs: Seq<BlockM>, env: EnvM)
    requires
        lower_decls(ds, bs, env) is Some,
    ensures
        grows(bs, lower_decls(ds, bs, env)->Some_0.1),
    decreases ds, 0int,
{
    if ds.len() == 0 {
        lemma_grows_refl(bs);
    } else {
        match ds[0].init {
            None => {
                lemma_lower_decls_grows(ds.drop_first(), bs, env);
            },
            Some(init) => {
                lemma_lower_grows(init, bs, env);
                let (src, bs1, env1) = lower(init, bs, env)->Some_0;
                let c = CodeM::Instruction(InstrM::Assign { src: src->Some_0, dest: ds[0].name, type_: None });
                lemma_emit_grows(bs1, env1, c);
                let bs2 = emit(bs1, env1, c)->Some_0;
                lemma_lower_decls_grows(ds.drop_first(), bs2, env1);
                lemma_grows_trans(bs, bs1, bs2);
                lemma_grows_trans(bs, bs2, lower_decls(ds.drop_first(), bs2, env1)->Some_0.1);
            },
        }
    }
}

} // verus!
