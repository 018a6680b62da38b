use strawberry::cgen::cgen::{code_generate, CodeGenerator, MAIN_CODE};
use strawberry::lexer::Position;
use strawberry::parser::ast::class::{Class, ConstructorDecl, Feature, MethodCall, MethodDecl, Ownership, VarDecl};
use strawberry::parser::ast::expr::{ComputeOp, CondOp, Dispatch, DispatchExpr, Expr, Let, Math, MathOp, While};
use strawberry::utils::table::StrMap;
use strawberry::utils::table::{ClassTable, SymbolTable, Tables};
use strawberry::RUNTIME_ERR;

fn s(x: &str) -> String {
    x.to_string()
}

fn pos() -> Position {
    Position::new(1, 1)
}

fn generator() -> CodeGenerator {
    CodeGenerator::new(vec![], ClassTable::new(), Tables::new())
}

/// A generator whose class at hand is `Main`, with no scope open yet.
fn generator_in_main() -> CodeGenerator {
    let mut g = generator();
    g.environment.curr_class = s("Main");
    g.environment.env.insert(s("Main"), SymbolTable::new());
    g
}

fn local(name: &str, type_: &str) -> Expr {
    Expr::Let(Let {
        var_decls: Box::new(vec![VarDecl {
            name: s(name),
            type_: Some(s(type_)),
            init: Box::new(None),
            position: pos(),
            ownership: Ownership::Default,
        }]),
    })
}

fn method(name: &str, params: Vec<(String, String)>, body: Option<Vec<Expr>>) -> Feature {
    Feature::Method(MethodDecl {
        name: s(name),
        param: Box::new(params),
        return_type: s("Int"),
        body: Box::new(body),
        position: pos(),
        ownership: Ownership::Public,
    })
}

#[test]
fn an_int_constant_loads_its_numbered_object() {
    let mut g = generator();
    g.int_const_table.insert(s("5"), 2);
    assert!(g.code_expr(&Expr::Int(5)));
    assert_eq!(g.lines, vec![s("\tmovq $int_const_2, %rax")]);
}

#[test]
fn a_boolean_loads_one_of_the_two_boolean_objects() {
    let mut g = generator();
    assert!(g.code_expr(&Expr::Bool(true)));
    assert!(g.code_expr(&Expr::Bool(false)));
    assert_eq!(g.lines, vec![s("\tmovq $bool_const_1, %rax"), s("\tmovq $bool_const_0, %rax")]);
}

#[test]
fn a_comparison_sets_rax_by_a_conditional_move() {
    let mut g = generator();
    g.int_const_table.insert(s("1"), 0);
    g.int_const_table.insert(s("2"), 1);
    assert!(g.code_expr(&Expr::Math(Math {
        left: Box::new(Expr::Int(1)),
        op: Box::new(MathOp::CondOp(CondOp::Less)),
        right: Box::new(Expr::Int(2)),
        type_: s("Bool"),
    })));
    assert_eq!(g.lines.len(), 11);
    assert_eq!(g.lines[1], s("\tpushq %rax"));
    assert_eq!(g.lines[10], s("\tcmovb %rdi, %rax"));
}

#[test]
fn a_sum_builds_a_new_int_object() {
    let mut g = generator();
    g.int_const_table.insert(s("3"), 0);
    assert!(g.code_expr(&Expr::Math(Math {
        left: Box::new(Expr::Int(3)),
        op: Box::new(MathOp::ComputeOp(ComputeOp::Add)),
        right: Box::new(Expr::Int(3)),
        type_: s("Int"),
    })));
    assert_eq!(g.lines[7], s("\taddq %r10, %r11"));
    assert_eq!(g.lines[9], s("\tpushq $Int_prototype"));
    assert_eq!(g.lines.len(), 16);
}

#[test]
fn a_while_loop_jumps_to_its_test_first() {
    let mut g = generator();
    g.environment.label = 4;
    assert!(g.code_expr(&Expr::While(While { test: Box::new(Expr::Bool(true)), body: Box::new(vec![]), position: pos() })));
    assert_eq!(
        g.lines,
        vec![
            s("\tjmp label_6"),
            s("label_5:"),
            s("label_6:"),
            s("\tmovq $bool_const_1, %rax"),
            s("\tmovq 16(%rax), %rax"),
            s("\tcmpq $1, %rax"),
            s("\tje label_5"),
        ]
    );
    assert_eq!(g.environment.label, 6);
}

#[test]
fn a_local_takes_the_next_stack_slot() {
    let mut g = generator_in_main();
    g.environment.env.entries[0].1.enter_scope();
    assert!(g.code_expr(&local("x", "Int")));
    assert!(g.code_expr(&local("y", "Bool")));
    assert_eq!(g.lines, vec![s("\tmovq $Int_prototype, -8(%rbp)"), s("\tmovq $Bool_prototype, -16(%rbp)")]);
    assert_eq!(g.environment.var_offset, 3);
}

#[test]
fn a_method_with_one_parameter_keeps_its_frame_aligned() {
    let mut g = generator_in_main();
    let m = method("m", vec![(s("a"), s("Int"))], Some(vec![local("x", "Int")]));
    assert!(g.code_method_constructor(&m));
    assert_eq!(
        g.lines,
        vec![
            s("Main.m:"),
            s("\tpushq %rbp"),
            s("\tpushq %rbx"),
            s("\tmovq %rsp, %rbp"),
            s("\tmovq %rax, %rbx"),
            s("\tsubq $16, %rsp"),
            s("\tmovq $Int_prototype, -8(%rbp)"),
        ]
    );
    assert_eq!(g.environment.align_stack, 16);
}

#[test]
fn a_method_with_two_parameters_moves_the_stack_eight_more() {
    let mut g = generator_in_main();
    let m = method("m", vec![(s("a"), s("Int")), (s("b"), s("Int"))], Some(vec![local("x", "Int")]));
    assert!(g.code_method_constructor(&m));
    assert_eq!(g.lines[5], s("\tsubq $24, %rsp"));
    assert_eq!(g.environment.align_stack, 24);
}

#[test]
fn a_constructor_returns_self_and_restores_the_stack() {
    let mut g = generator_in_main();
    let c = Feature::Constructor(ConstructorDecl { param: Box::new(vec![]), body: Box::new(Some(vec![])), position: pos() });
    assert!(g.code_method_constructor(&c));
    assert_eq!(g.lines[0], s("Main.Constructor:"));
    assert_eq!(g.lines[5], s("\tsubq $8, %rsp"));
    assert_eq!(&g.lines[6..], &[s("\tmovq %rbx, %rax"), s("\taddq $8, %rsp"), s("\tpopq %rbx"), s("\tpopq %rbp"), s("\tret")]);
}

#[test]
fn a_method_without_a_body_returns_a_new_object() {
    let mut g = generator_in_main();
    assert!(g.code_method_constructor(&method("f", vec![], None)));
    assert_eq!(g.lines[0], s("Main.f:"));
    assert_eq!(g.lines[5], s("\tmovq $Object_prototype, %rax"));
    assert_eq!(g.lines.len(), 9);
}

#[test]
fn an_empty_program_has_its_constants_abort_and_main() {
    let mut tables = Tables::new();
    tables.string_table.push(s(RUNTIME_ERR));
    let lines = code_generate(vec![], ClassTable::new(), tables).unwrap();
    assert_eq!(lines[0], s("\t.text"));
    assert_eq!(lines[4], s("str_const_ascii_0:"));
    assert_eq!(lines[13], s("\t.quad 60"));
    assert!(lines.contains(&s("\t#   class prototype")));
    assert!(lines.contains(&s("\t#   dispatch tables")));
    assert!(lines.contains(&s("\tmovq $str_const_ascii_0, %rsi")));
    assert_eq!(lines[lines.len() - 1], format!("\t{}", MAIN_CODE));
}

#[test]
fn a_program_without_the_runtime_error_string_gives_no_assembly() {
    assert!(code_generate(vec![], ClassTable::new(), Tables::new()).is_none());
}

#[test]
fn a_class_without_an_inheritance_chain_gives_no_assembly() {
    let mut class_table = ClassTable::new();
    class_table.classes.insert(s("Main"), class("Main", vec![]));
    let mut tables = Tables::new();
    tables.string_table.push(s(RUNTIME_ERR));
    assert!(code_generate(vec![], class_table, tables).is_none());
}

fn class(name: &str, features: Vec<Feature>) -> Class {
    Class { name: s(name), parent: None, features, position: pos(), file_name: s("main.st") }
}

#[test]
fn a_class_gets_a_prototype_a_dispatch_table_and_an_init() {
    let mut class_table = ClassTable::new();
    class_table.classes.insert(s("Object"), class("Object", vec![]));
    class_table.classes.insert(s("Main"), class("Main", vec![method("main", vec![], None)]));
    class_table.inheritance.insert(s("Object"), vec![class("Object", vec![])]);
    class_table
        .inheritance
        .insert(s("Main"), vec![class("Object", vec![]), class("Main", vec![method("main", vec![], None)])]);
    let mut tables = Tables::new();
    tables.string_table.push(s(RUNTIME_ERR));
    let lines = code_generate(vec![class("Main", vec![method("main", vec![], None)])], class_table, tables).unwrap();
    assert!(lines.contains(&s("Object_prototype:")));
    assert!(lines.contains(&s("Main_prototype:")));
    assert!(lines.contains(&s("\t.quad 24")));
    assert!(lines.contains(&s("Main_dispatch_table:")));
    assert!(lines.contains(&s("\t.quad Main.main")));
    assert!(lines.contains(&s("\t.quad Main.init")));
    assert!(lines.contains(&s("Main.init:")));
    assert!(lines.contains(&s("\tcall Object.init")));
    assert!(lines.contains(&s("\tmovq $Main_dispatch_table,16(%rbx)")));
    assert!(lines.contains(&s("Main.main:")));
}

#[test]
fn a_call_goes_through_the_dispatch_table_of_the_receiver() {
    let mut g = generator();
    g.str_const_table.insert(s("hi"), 0);
    let mut slots: StrMap<usize> = StrMap::new();
    slots.insert(s("len"), 8);
    g.dispatch_table.insert(s("String"), slots);
    g.int_const_table.insert(s("7"), 1);
    assert!(g.code_expr(&Expr::Dispatch(Dispatch {
        target: Box::new(Expr::Str(s("hi"))),
        expr: DispatchExpr::Method(MethodCall { fun_name: s("len"), actual: Box::new(vec![Expr::Int(7)]) }),
        position: pos(),
        type_: s("int"),
    })));
    assert_eq!(
        g.lines,
        vec![
            s("\tmovq $int_const_1, %rax"),
            s("\tpush %rax"),
            s("\tmovq $str_const_0, %rax"),
            s("\tcmpq $0, %rax"),
            s("\tje abort"),
            s("\tcmpq $0, 8(%rax)"),
            s("\tje abort"),
            s("\tmovq 16(%rax), %rdi"),
            s("\tcall *8(%rdi)"),
            s("\taddq $8, %rsp"),
        ]
    );
    assert_eq!(g.environment.curr_class, s("none"));
}
