use strawberry::IR::abstract_present::{
    AbstractArgument,
    AbstractBasicBlock, AbstractCode, AbstractFunction, AbstractInstruction, AbstractType, Literal,
};
use strawberry::IR::pass::dom::DOM;
use strawberry::IR::pass::ssa::SSAPass;

fn s(x: &str) -> String {
    x.to_string()
}

fn label(name: &str) -> AbstractCode {
    AbstractCode::Label { label: s(name) }
}

fn instr(i: AbstractInstruction) -> AbstractCode {
    AbstractCode::Instruction(i)
}

fn jmp(to: &str) -> AbstractCode {
    instr(AbstractInstruction::Jmp { label: s(to) })
}

fn lines(b: &AbstractBasicBlock) -> Vec<String> {
    b.instrs.iter().map(|c| c.to_string()).collect()
}

/// x = 0; while x { x = x }; return x
fn loop_function() -> AbstractFunction {
    let blocks = vec![
        AbstractBasicBlock {
            instrs: vec![
                label("entry"),
                instr(AbstractInstruction::Constant {
                    dest: s("x"),
                    const_type: AbstractType::Type(s("int")),
                    value: Literal::Int(0),
                }),
                jmp("cond"),
            ],
            name: s("entry"),
            successors: vec![1],
        },
        AbstractBasicBlock {
            instrs: vec![
                label("cond"),
                instr(AbstractInstruction::Br { arg: s("x"), true_label: s("body"), false_label: s("end") }),
            ],
            name: s("cond"),
            successors: vec![2, 3],
        },
        AbstractBasicBlock {
            instrs: vec![label("body"), instr(AbstractInstruction::Assign { src: s("x"), dest: s("x"), type_: None }), jmp("cond")],
            name: s("body"),
            successors: vec![1],
        },
        AbstractBasicBlock {
            instrs: vec![label("end"), instr(AbstractInstruction::Ret { src: s("x") })],
            name: s("end"),
            successors: vec![],
        },
    ];
    AbstractFunction { args: vec![], blocks, name: s("f"), return_type: AbstractType::Type(s("int")) }
}

fn pass_for(f: AbstractFunction) -> SSAPass {
    let d = DOM::new(f);
    SSAPass { function: d.function, dom_frontier: d.dom_frontier, dom_tree: d.dom_tree, pred: d.preds }
}

#[test]
fn to_ssa_puts_a_phi_at_the_loop_head_and_renames() {
    let mut p = pass_for(loop_function());
    p.to_ssa();
    let b = &p.function.blocks;
    assert_eq!(lines(&b[0]), vec![s(".entry:"), s("  x.0: int = const 0;"), s("  jmp .cond;")]);
    assert_eq!(
        lines(&b[1]),
        vec![s(".cond:"), s("  x.1 = phi x.0 x.2 .entry .body;"), s("  br x.1 .body .end;")]
    );
    assert_eq!(lines(&b[2]), vec![s(".body:"), s("  x.2 = x.1;"), s("  jmp .cond;")]);
    assert_eq!(lines(&b[3]), vec![s(".end:"), s("  ret x.2")]);
    let names: Vec<String> = b.iter().map(|x| x.name.clone()).collect();
    assert_eq!(names, vec![s("entry"), s("cond"), s("body"), s("end")]);
    let succ: Vec<Vec<usize>> = b.iter().map(|x| x.successors.clone()).collect();
    assert_eq!(succ, vec![vec![1], vec![2, 3], vec![1], vec![]]);
}

#[test]
fn from_ssa_turns_phis_into_assignments() {
    let mut p = pass_for(loop_function());
    p.to_ssa();
    p.from_ssa();
    let b = &p.function.blocks;
    assert_eq!(
        lines(&b[0]),
        vec![s(".entry:"), s("  x.0: int = const 0;"), s("  x.1 = x.0;"), s("  jmp .cond;")]
    );
    assert_eq!(lines(&b[1]), vec![s(".cond:"), s("  br x.1 .body .end;")]);
    assert_eq!(lines(&b[2]), vec![s(".body:"), s("  x.2 = x.1;"), s("  x.1 = x.2;"), s("  jmp .cond;")]);
    assert_eq!(lines(&b[3]), vec![s(".end:"), s("  ret x.2")]);
    assert_eq!(b.len(), 4);
    assert_eq!(b[2].name, s("body"));
    assert_eq!(b[2].successors, vec![1]);
}

#[test]
fn a_function_without_joins_gets_no_phi() {
    let f = AbstractFunction {
        args: vec![],
        blocks: vec![AbstractBasicBlock {
            instrs: vec![
                label("entry"),
                instr(AbstractInstruction::Constant {
                    dest: s("y"),
                    const_type: AbstractType::Type(s("int")),
                    value: Literal::Int(5),
                }),
                instr(AbstractInstruction::Assign { src: s("y"), dest: s("y"), type_: None }),
                instr(AbstractInstruction::Ret { src: s("y") }),
            ],
            name: s("entry"),
            successors: vec![],
        }],
        name: s("g"),
        return_type: AbstractType::Type(s("int")),
    };
    let mut p = pass_for(f);
    p.to_ssa();
    assert_eq!(
        lines(&p.function.blocks[0]),
        vec![s(".entry:"), s("  y.0: int = const 5;"), s("  y.1 = y.0;"), s("  ret y.1")]
    );
    p.from_ssa();
    assert_eq!(p.function.blocks[0].instrs.len(), 4);
}

#[test]
fn two_writers_with_one_frontier_give_one_phi() {

    let konst = |n: u64| {
        instr(AbstractInstruction::Constant { dest: s("x"), const_type: AbstractType::Type(s("int")), value: Literal::Int(n) })
    };
    let blocks = vec![
        AbstractBasicBlock {
            instrs: vec![
                label("entry"),
                instr(AbstractInstruction::Br { arg: s("c"), true_label: s("left"), false_label: s("right") }),
            ],
            name: s("entry"),
            successors: vec![1, 2],
        },
        AbstractBasicBlock { instrs: vec![label("left"), konst(1), jmp("join")], name: s("left"), successors: vec![3] },
        AbstractBasicBlock { instrs: vec![label("right"), konst(2), jmp("join")], name: s("right"), successors: vec![3] },
        AbstractBasicBlock {
            instrs: vec![label("join"), instr(AbstractInstruction::Ret { src: s("x") })],
            name: s("join"),
            successors: vec![],
        },
    ];
    let f = AbstractFunction {
        args: vec![AbstractArgument { name: s("c"), arg_type: AbstractType::Type(s("bool")) }],
        blocks,
        name: s("h"),
        return_type: AbstractType::Type(s("int")),
    };
    let mut p = pass_for(f);
    p.to_ssa();
    let b = &p.function.blocks;
    assert_eq!(lines(&b[0]), vec![s(".entry:"), s("  br c .left .right;")]);
    assert_eq!(lines(&b[1]), vec![s(".left:"), s("  x.0: int = const 1;"), s("  jmp .join;")]);
    assert_eq!(lines(&b[2]), vec![s(".right:"), s("  x.1: int = const 2;"), s("  jmp .join;")]);
    assert_eq!(
        lines(&b[3]),
        vec![
            s(".join:"),
            s("  x.2 = phi x.0 x.1 .left .right;"),
            s("  ret x.2"),
        ]
    );
}

fn phis_in(b: &AbstractBasicBlock) -> usize {
    b.instrs
        .iter()
        .filter(|c| matches!(c, AbstractCode::Instruction(AbstractInstruction::Phi { .. })))
        .count()
}

/// entry -> head; head -> a | b | exit; a writes x; a, b -> join; join -> head.
#[test]
fn a_phi_block_counts_as_a_writer_of_its_variable() {
    let konst = instr(AbstractInstruction::Constant { dest: s("x"), const_type: AbstractType::Type(s("int")), value: Literal::Int(1) });
    let blocks = vec![
        AbstractBasicBlock { instrs: vec![label("entry"), jmp("head")], name: s("entry"), successors: vec![1] },
        AbstractBasicBlock {
            instrs: vec![label("head"), instr(AbstractInstruction::Br { arg: s("c"), true_label: s("a"), false_label: s("b") })],
            name: s("head"),
            successors: vec![2, 3, 5],
        },
        AbstractBasicBlock { instrs: vec![label("a"), konst, jmp("join")], name: s("a"), successors: vec![4] },
        AbstractBasicBlock { instrs: vec![label("b"), jmp("join")], name: s("b"), successors: vec![4] },
        AbstractBasicBlock { instrs: vec![label("join"), jmp("head")], name: s("join"), successors: vec![1] },
        AbstractBasicBlock {
            instrs: vec![label("exit"), instr(AbstractInstruction::Ret { src: s("x") })],
            name: s("exit"),
            successors: vec![],
        },
    ];
    let f = AbstractFunction {
        args: vec![AbstractArgument { name: s("c"), arg_type: AbstractType::Type(s("bool")) }],
        blocks,
        name: s("k"),
        return_type: AbstractType::Type(s("int")),
    };
    let mut p = pass_for(f);
    p.to_ssa();
    let b = &p.function.blocks;
    assert_eq!(phis_in(&b[4]), 1);
    assert_eq!(phis_in(&b[1]), 1);
    assert_eq!(phis_in(&b[0]), 0);
    assert_eq!(phis_in(&b[2]), 0);
    assert_eq!(phis_in(&b[5]), 0);
}

/// Block `a` jumps to `b`, whose phi reads `y` from `a`.
#[test]
fn leaving_ssa_puts_each_copy_before_the_jump() {
    let blocks = vec![
        AbstractBasicBlock { instrs: vec![label("a"), jmp("b")], name: s("a"), successors: vec![1] },
        AbstractBasicBlock {
            instrs: vec![
                label("b"),
                instr(AbstractInstruction::Phi { dest: s("x"), labels: vec![s("a")], args: vec![s("y")] }),
                instr(AbstractInstruction::Ret { src: s("x") }),
            ],
            name: s("b"),
            successors: vec![],
        },
    ];
    let f = AbstractFunction { args: vec![], blocks, name: s("m"), return_type: AbstractType::Type(s("int")) };
    let mut p = SSAPass { function: f, dom_frontier: vec![vec![], vec![]], dom_tree: vec![vec![], vec![]], pred: vec![vec![], vec![]] };
    p.from_ssa();
    assert_eq!(lines(&p.function.blocks[0]), vec![s(".a:"), s("  x = y;"), s("  jmp .b;")]);
    assert_eq!(lines(&p.function.blocks[1]), vec![s(".b:"), s("  ret x")]);
}
