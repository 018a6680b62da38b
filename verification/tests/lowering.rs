use strawberry::lexer::Position;
use strawberry::parser::ast::expr::{
    ComputeOp, Cond, Expr, IdentifierSrtuct, Math, MathOp, Return, While,
};
use strawberry::IR::abstract_present::{
    AbstractArgument, AbstractBasicBlock, AbstractCode, AbstractFunction, AbstractInstruction, AbstractProgram,
    AbstractType, Literal,
};
use strawberry::IR::ast2ir::{Ast2IR, Ast2IREnv};
use strawberry::IR::pass::cfg::CFG;
use strawberry::IR::pass::dom::DOM;

fn s(x: &str) -> String {
    x.to_string()
}

fn block(name: &str) -> AbstractBasicBlock {
    AbstractBasicBlock { instrs: vec![], name: s(name), successors: vec![] }
}

fn env() -> Ast2IREnv {
    Ast2IREnv { naming_num: 0, branch_num: 0, curr_block: 0 }
}

fn lines(b: &AbstractBasicBlock) -> Vec<String> {
    b.instrs.iter().map(|c| c.to_string()).collect()
}

#[test]
fn instructions_print_as_text() {
    let c = AbstractInstruction::Constant { dest: s("t1"), const_type: AbstractType::Type(s("int")), value: Literal::Int(42) };
    assert_eq!(c.to_string(), s("t1: int = const 42;"));
    let m = AbstractInstruction::Compute {
        left: s("a"),
        dest: s("t2"),
        right: s("b"),
        op: MathOp::ComputeOp(ComputeOp::Add),
        type_: s("int"),
    };
    assert_eq!(m.to_string(), s("t2: int = add a b;"));
    let a = AbstractInstruction::Assign { src: s("t1"), dest: s("x"), type_: None };
    assert_eq!(a.to_string(), s("x = t1;"));
    let r = AbstractInstruction::Ret { src: s("x") };
    assert_eq!(r.to_string(), s("ret x"));
    let e = AbstractInstruction::Effect { args: vec![s("x")], funcs: vec![s("print")], labels: vec![], op: s("call") };
    assert_eq!(e.to_string(), s("call @print x;"));
    let v = AbstractInstruction::Value {
        args: vec![s("a"), s("b")],
        dest: s("r"),
        funcs: vec![s("f")],
        labels: vec![],
        src: s("call"),
        type_: Some(AbstractType::Type(s("int"))),
    };
    assert_eq!(v.to_string(), s("r: int = call @f a b;"));
    assert_eq!(AbstractCode::Label { label: s("L") }.to_string(), s(".L:"));
    assert_eq!(AbstractCode::Instruction(r).to_string(), s("  ret x"));
    assert_eq!(Literal::Int(1234567).to_string(), s("1234567"));
}

#[test]
fn functions_print_their_blocks() {
    let f = AbstractFunction {
        args: vec![
            AbstractArgument { name: s("a"), arg_type: AbstractType::Type(s("int")) },
            AbstractArgument { name: s("b"), arg_type: AbstractType::Type(s("int")) },
        ],
        blocks: vec![AbstractBasicBlock {
            instrs: vec![AbstractCode::Instruction(AbstractInstruction::Ret { src: s("a") })],
            name: s("entry"),
            successors: vec![],
        }],
        name: s("main"),
        return_type: AbstractType::Type(s("int")),
    };
    assert_eq!(f.to_string(), s("@main(a: int, b: int): int {\n  ret a\n\n}"));
    let p = AbstractProgram { functions: vec![f] };
    assert_eq!(p.to_string(), s("@main(a: int, b: int): int {\n  ret a\n\n}\n"));
}

#[test]
fn arithmetic_lowers_to_fresh_temporaries() {
    let mut e = Expr::Math(Math {
        left: Box::new(Expr::Int(1)),
        op: Box::new(MathOp::ComputeOp(ComputeOp::Mul)),
        right: Box::new(Expr::Identifier(IdentifierSrtuct { name: s("x"), pos: Position::new(1, 1), type_: s("int") })),
        type_: s("int"),
    });
    let mut blocks = vec![block("entry")];
    let mut en = env();
    let d = e.ast2ir(&mut blocks, &mut en);
    assert_eq!(d, Some(s("t3")));
    assert_eq!(en.naming_num, 3);
    assert_eq!(lines(&blocks[0]), vec![s("  t1: int = const 1;"), s("  t2 = x;"), s("  t3: int = mul t1 t2;")]);
}

#[test]
fn return_lowers_its_value() {
    let mut e = Expr::Return(Return { val: Some(Box::new(Expr::Int(7))), position: Position::new(1, 1) });
    let mut blocks = vec![block("entry")];
    let mut en = env();
    assert_eq!(e.ast2ir(&mut blocks, &mut en), None);
    assert_eq!(lines(&blocks[0]), vec![s("  t1: int = const 7;"), s("  ret t1")]);
}

#[test]
fn if_branches_inside_the_block() {
    let mut e = Expr::Cond(Cond {
        test: Box::new(Expr::Int(1)),
        then_body: Box::new(vec![Expr::Int(2)]),
        else_body: Box::new(vec![]),
        position: Position::new(1, 1),
    });
    let mut blocks = vec![block("entry")];
    let mut en = env();
    e.ast2ir(&mut blocks, &mut en);
    assert_eq!(en.branch_num, 3);
    assert_eq!(
        lines(&blocks[0]),
        vec![
            s("  t1: int = const 1;"),
            s("  br t1 ..branch0 ..branch1;"),
            s("..branch0:"),
            s("  t2: int = const 2;"),
            s("  jmp ..branch2;"),
            s("..branch1:"),
            s("  jmp ..branch2;"),
            s("..branch2:"),
        ]
    );
}

#[test]
fn while_opens_three_blocks() {
    let mut e = Expr::While(While { test: Box::new(Expr::Int(1)), body: Box::new(vec![]), position: Position::new(1, 1) });
    let mut blocks = vec![block("entry")];
    let mut en = env();
    e.ast2ir(&mut blocks, &mut en);
    assert_eq!(blocks.len(), 4);
    assert_eq!(en.curr_block, 3);
    assert_eq!(lines(&blocks[0]), vec![s("  jmp ..branch0;")]);
    assert_eq!(blocks[1].name, s(".branch0"));
    assert_eq!(lines(&blocks[1]), vec![s("..branch0:"), s("  t1: int = const 1;"), s("  br t1 ..branch1 ..branch2;")]);
    assert_eq!(lines(&blocks[2]), vec![s("..branch1:"), s("  jmp ..branch0;")]);
    assert_eq!(lines(&blocks[3]), vec![s("..branch2:")]);
}

fn while_function() -> AbstractFunction {
    let mut e = Expr::While(While { test: Box::new(Expr::Int(1)), body: Box::new(vec![]), position: Position::new(1, 1) });
    let mut blocks = vec![block("entry")];
    let mut en = env();
    e.ast2ir(&mut blocks, &mut en);
    AbstractFunction { args: vec![], blocks, name: s("f"), return_type: AbstractType::Type(s("int")) }
}

#[test]
fn the_cfg_follows_branches_and_jumps() {
    let mut cfg = CFG { function: while_function() };
    cfg.create_cfg();
    let succ: Vec<Vec<usize>> = cfg.function.blocks.iter().map(|b| b.successors.clone()).collect();
    assert_eq!(succ, vec![vec![1], vec![2, 3], vec![1], vec![]]);
}

#[test]
fn dominance_of_a_loop() {
    let mut cfg = CFG { function: while_function() };
    cfg.create_cfg();
    let d = DOM::new(cfg.function);
    let set = |row: &Vec<bool>| -> Vec<usize> { (0..row.len()).filter(|i| row[*i]).collect() };
    assert_eq!(set(&d.preds[1]), vec![0, 2]);
    assert_eq!(set(&d.dom[0]), vec![0]);
    assert_eq!(set(&d.dom[1]), vec![0, 1]);
    assert_eq!(set(&d.dom[2]), vec![0, 1, 2]);
    assert_eq!(set(&d.dom[3]), vec![0, 1, 3]);
    assert_eq!(set(&d.dom_tree[0]), vec![1]);
    assert_eq!(set(&d.dom_tree[1]), vec![2, 3]);
    assert_eq!(set(&d.dom_frontier[2]), vec![1]);
    assert_eq!(set(&d.dom_frontier[1]), vec![1]);
}

#[test]
fn lowering_keeps_what_was_there() {
    let mut blocks = vec![AbstractBasicBlock {
        instrs: vec![AbstractCode::Label { label: s("entry") }],
        name: s("entry"),
        successors: vec![],
    }];
    let mut e = Expr::While(While { test: Box::new(Expr::Int(1)), body: Box::new(vec![]), position: Position::new(1, 1) });
    let mut en = env();
    e.ast2ir(&mut blocks, &mut en);
    assert_eq!(blocks.len(), 4);
    assert_eq!(blocks[0].name, s("entry"));
    assert_eq!(lines(&blocks[0]), vec![s(".entry:"), s("  jmp ..branch0;")]);
}
