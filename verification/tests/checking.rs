use strawberry::ctx::CompileContext;
use strawberry::lexer::Position;
use strawberry::parser::ast::class::{Class, ConstructorDecl, Feature, MethodDecl, Ownership, VarDecl};
use strawberry::parser::ast::expr::{
    ComputeOp, CondOp, ConstructorCall, Dispatch, DispatchExpr, Expr, IdentifierSrtuct, Let, Math, MathOp, Not,
    Return, Self_, While,
};
use strawberry::semantic::semantic::{check_ready_exec, SemanticChecker};
use strawberry::semantic::type_checker::{TypeChecker, TypeGet};
use strawberry::utils::table::{ClassTable, SymbolTable};

fn s(x: &str) -> String {
    x.to_string()
}

fn pos(r: usize, c: usize) -> Position {
    Position::new(r, c)
}

fn ret(e: Expr, p: Position) -> Expr {
    Expr::Return(Return { val: Some(Box::new(e)), position: p })
}

fn method(name: &str, params: Vec<(String, String)>, rt: &str, body: Option<Vec<Expr>>, own: Ownership, p: Position) -> Feature {
    Feature::Method(MethodDecl {
        name: s(name),
        param: Box::new(params),
        return_type: s(rt),
        body: Box::new(body),
        position: p,
        ownership: own,
    })
}

fn class(name: &str, parent: Option<&str>, features: Vec<Feature>) -> Class {
    Class { name: s(name), parent: parent.map(|p| s(p)), features, position: pos(1, 1), file_name: s("main.st") }
}

fn main_class() -> Class {
    class("Main", None, vec![method("main", vec![], "int", Some(vec![ret(Expr::Int(0), pos(2, 5))]), Ownership::Public, pos(2, 1))])
}

fn check(classes: Vec<Class>) -> (Result<Vec<Class>, String>, SemanticChecker) {
    let mut ctx = CompileContext::new();
    ctx.classes = classes;
    let mut checker = SemanticChecker::new(ctx);
    let r = checker.check().map_err(|e| e.err_msg);
    (r, checker)
}

#[test]
fn a_minimal_program_is_accepted() {
    let (r, checker) = check(vec![main_class()]);
    let classes = r.unwrap();
    assert_eq!(classes.len(), 1);
    assert!(checker.ctx.class_table.classes.contains_key(&s("Main")));
    assert!(checker.ctx.class_table.class_constructors.contains_key(&s("Main")));
    let chain = checker.ctx.class_table.inheritance.get(&s("Main")).unwrap();
    assert_eq!(chain.len(), 1);
}

#[test]
fn a_class_defined_twice_is_refused() {
    let (r, _) = check(vec![main_class(), class("A", None, vec![]), class("A", None, vec![])]);
    assert_eq!(r.unwrap_err(), s("Class A has been redefined!"));
}

#[test]
fn a_program_needs_main() {
    let (r, _) = check(vec![class("A", None, vec![])]);
    assert_eq!(r.unwrap_err(), s("Your program is missing the Main class"));
    let (r, _) = check(vec![class("Main", None, vec![])]);
    assert_eq!(r.unwrap_err(), s("Your program is missing the Main function"));
}

#[test]
fn an_undefined_parent_is_refused() {
    let (r, _) = check(vec![main_class(), class("A", Some("B"), vec![])]);
    assert_eq!(r.unwrap_err(), s("Your Class A inherits an undefined Class B !"));
}

#[test]
fn an_inheritance_cycle_is_refused() {
    let (r, _) = check(vec![main_class(), class("A", Some("B"), vec![]), class("B", Some("A"), vec![])]);
    assert_eq!(r.unwrap_err(), s("There is an inheritance cycle about Class A!"));
}

#[test]
fn chains_start_at_object() {
    let object = class("Object", Some("None"), vec![]);
    let (r, checker) = check(vec![object, main_class(), class("A", Some("Object"), vec![])]);
    assert!(r.is_ok());
    let chain = checker.ctx.class_table.inheritance.get(&s("A")).unwrap();
    let names: Vec<String> = chain.iter().map(|c| c.name.clone()).collect();
    assert_eq!(names, vec![s("Object"), s("Object"), s("A")]);
    assert!(checker.ctx.class_table.is_less_or_equal(&s("A"), &s("Object")));
    assert!(!checker.ctx.class_table.is_less_or_equal(&s("Object"), &s("A")));
}

#[test]
fn duplicate_constructors_are_refused() {
    let ctor = |p: Position| {
        Feature::Constructor(ConstructorDecl { param: Box::new(vec![(s("x"), s("int"))]), body: Box::new(None), position: p })
    };
    let (r, _) = check(vec![main_class(), class("A", None, vec![ctor(pos(3, 1)), ctor(pos(4, 1))])]);
    assert_eq!(r.unwrap_err(), s("The parameter declaration for this constructor method duplicates"));
}

#[test]
fn an_override_must_keep_its_return_type() {
    let parent = class("P", None, vec![method("f", vec![], "int", None, Ownership::Public, pos(1, 1))]);
    let child = class("C", Some("P"), vec![method("f", vec![], "String", None, Ownership::Public, pos(5, 2))]);
    let (r, _) = check(vec![main_class(), parent, child]);
    assert_eq!(r.unwrap_err(), s("An error occurred in the return type of the method <f> overridden by Class C!"));
}

#[test]
fn a_field_may_not_be_redefined() {
    let field = || {
        Feature::Attribute(VarDecl {
            name: s("v"),
            type_: Some(s("int")),
            init: Box::new(None),
            position: pos(1, 1),
            ownership: Ownership::Public,
        })
    };
    let (r, _) = check(vec![main_class(), class("P", None, vec![field()]), class("C", Some("P"), vec![field()])]);
    assert_eq!(r.unwrap_err(), s("You cannot define the same field <v> in the subclass C as the superclass P"));
}

#[test]
fn a_method_needs_a_return() {
    let m = class("Main", None, vec![method("main", vec![], "int", Some(vec![Expr::Int(1)]), Ownership::Public, pos(7, 3))]);
    let (r, _) = check(vec![m]);
    assert_eq!(r.unwrap_err(), s("Your method needs a return expression, even though you may return in an if or while."));
}

#[test]
fn a_return_must_fit_the_declared_type() {
    let m = class("Main", None, vec![method("main", vec![], "int", Some(vec![ret(Expr::Bool(true), pos(2, 9))]), Ownership::Public, pos(2, 1))]);
    let (r, _) = check(vec![m]);
    assert_eq!(r.unwrap_err(), s("The return type of your main method is different from the declared type!"));
}

#[test]
fn a_constructor_may_not_return() {
    let ctor = Feature::Constructor(ConstructorDecl {
        param: Box::new(vec![]),
        body: Box::new(Some(vec![ret(Expr::Int(1), pos(4, 4))])),
        position: pos(4, 1),
    });
    let (r, _) = check(vec![main_class(), class("A", None, vec![ctor])]);
    assert_eq!(r.unwrap_err(), s("You cannot add a Return expression in constructor."));
}

#[test]
fn parameters_are_in_scope_and_get_typed() {
    let body = vec![ret(
        Expr::Identifier(IdentifierSrtuct { name: s("n"), pos: pos(3, 3), type_: s("") }),
        pos(3, 1),
    )];
    let m = class("Main", None, vec![method("main", vec![(s("n"), s("int"))], "int", Some(body), Ownership::Public, pos(2, 1))]);
    let (r, _) = check(vec![m]);
    let classes = r.unwrap();
    match &classes[0].features[0] {
        Feature::Method(m) => match &(*m.body).as_ref().unwrap()[0] {
            Expr::Return(r) => assert_eq!(r.val.as_ref().unwrap().get_type(), s("int")),
            _ => panic!("not a return"),
        },
        _ => panic!("not a method"),
    }
}

fn table_and_scope() -> (SymbolTable<String>, ClassTable) {
    let mut st = SymbolTable::new();
    st.enter_scope();
    (st, ClassTable::new())
}

fn math(l: Expr, op: MathOp, r: Expr) -> Expr {
    Expr::Math(Math { left: Box::new(l), op: Box::new(op), right: Box::new(r), type_: s("") })
}

#[test]
fn literals_have_their_types() {
    let (mut st, mut ct) = table_and_scope();
    assert_eq!(Expr::Int(3).check_type(&mut st, &mut ct).unwrap(), s("int"));
    assert_eq!(Expr::Bool(true).check_type(&mut st, &mut ct).unwrap(), s("Bool"));
    assert_eq!(Expr::Str(s("x")).check_type(&mut st, &mut ct).unwrap(), s("String"));
}

#[test]
fn arithmetic_and_comparison_types() {
    let (mut st, mut ct) = table_and_scope();
    let mut add = math(Expr::Int(1), MathOp::ComputeOp(ComputeOp::Add), Expr::Int(2));
    assert_eq!(add.check_type(&mut st, &mut ct).unwrap(), s("int"));
    assert_eq!(add.get_type(), s("int"));
    let mut less = math(Expr::Int(1), MathOp::CondOp(CondOp::Less), Expr::Int(2));
    assert_eq!(less.check_type(&mut st, &mut ct).unwrap(), s("Bool"));
    let mut cat = math(Expr::Str(s("a")), MathOp::ComputeOp(ComputeOp::Add), Expr::Str(s("b")));
    assert_eq!(cat.check_type(&mut st, &mut ct).unwrap(), s("String"));
    let mut bad = math(Expr::Str(s("a")), MathOp::ComputeOp(ComputeOp::Mul), Expr::Str(s("b")));
    assert_eq!(
        bad.check_type(&mut st, &mut ct).unwrap_err().err_msg,
        s("String cannot be used for mathematical operations other than addition")
    );
    let mut mixed = math(Expr::Str(s("a")), MathOp::ComputeOp(ComputeOp::Add), Expr::Int(1));
    assert_eq!(
        mixed.check_type(&mut st, &mut ct).unwrap_err().err_msg,
        s("The left and right sides of your mathematical operation are not all INT types!")
    );
}

#[test]
fn let_infers_the_type_of_its_value() {
    let (mut st, mut ct) = table_and_scope();
    let decl = VarDecl {
        name: s("x"),
        type_: None,
        init: Box::new(Some(Expr::Int(5))),
        position: pos(1, 1),
        ownership: Ownership::Default,
    };
    let mut e = Expr::Let(Let { var_decls: Box::new(vec![decl]) });
    assert_eq!(e.check_type(&mut st, &mut ct).unwrap(), s("Object"));
    assert_eq!(st.find(&s("x")), Some(&s("int")));
    match &e {
        Expr::Let(l) => assert_eq!(l.var_decls[0].type_, Some(s("int"))),
        _ => panic!("not a let"),
    }
}

#[test]
fn unknown_names_are_errors() {
    let (mut st, mut ct) = table_and_scope();
    let mut e = Expr::Identifier(IdentifierSrtuct { name: s("y"), pos: pos(4, 2), type_: s("") });
    let err = e.check_type(&mut st, &mut ct).unwrap_err();
    assert_eq!(err.err_msg, s("The identifier y does not exist or it has gone out of scope!"));
    assert_eq!(err.position, Some(pos(4, 2)));
}

#[test]
fn conditions_must_be_bool() {
    let (mut st, mut ct) = table_and_scope();
    let mut w = Expr::While(While { test: Box::new(Expr::Int(1)), body: Box::new(vec![]), position: pos(9, 9) });
    assert_eq!(w.check_type(&mut st, &mut ct).unwrap_err().err_msg, s("The type in your Loop condition is not BOOL"));
    let mut n = Expr::Not(Not { expr: Box::new(Expr::Int(1)), position: pos(1, 1) });
    assert_eq!(n.check_type(&mut st, &mut ct).unwrap_err().err_msg, s("The type in your Not expression is not BOOL"));
}

#[test]
fn new_of_an_unknown_class_is_an_error() {
    let (mut st, mut ct) = table_and_scope();
    let mut e = Expr::New(ConstructorCall { class_name: s("Nope"), param: None, position: pos(1, 1) });
    assert_eq!(e.check_type(&mut st, &mut ct).unwrap_err().err_msg, s("There is no class called Nope!"));
}

#[test]
fn self_without_binding_is_an_object() {
    let (mut st, mut ct) = table_and_scope();
    let mut e = Expr::Self_(Self_ { type_: s("") });
    assert_eq!(e.check_type(&mut st, &mut ct).unwrap(), s("Object"));
    st.add(&s("self"), &s("Main"));
    assert_eq!(e.check_type(&mut st, &mut ct).unwrap(), s("Main"));
}

#[test]
fn dispatch_on_a_class_outside_the_table_is_an_object() {
    let (mut st, mut ct) = table_and_scope();
    let mut e = Expr::Dispatch(Dispatch {
        target: Box::new(Expr::Int(1)),
        expr: DispatchExpr::Field(s("f")),
        position: pos(1, 1),
        type_: s(""),
    });
    assert_eq!(e.check_type(&mut st, &mut ct).unwrap(), s("Object"));
}

#[test]
fn a_checked_loop_closes_its_scope() {
    let (mut st, mut ct) = table_and_scope();
    let decl = VarDecl {
        name: s("inner"),
        type_: None,
        init: Box::new(Some(Expr::Int(1))),
        position: pos(2, 3),
        ownership: Ownership::Default,
    };
    let mut w = Expr::While(While {
        test: Box::new(Expr::Bool(true)),
        body: Box::new(vec![Expr::Let(Let { var_decls: Box::new(vec![decl]) })]),
        position: pos(2, 1),
    });
    assert_eq!(w.check_type(&mut st, &mut ct).unwrap(), s("Object"));
    assert_eq!(st.scopes.len(), 1);
    assert_eq!(st.find(&s("inner")), None);
}

#[test]
fn readiness_refuses_only_a_walk_that_never_ends() {
    let mut ctx = CompileContext::new();
    ctx.classes = vec![main_class(), class("C", Some("A"), vec![]), class("A", Some("B"), vec![]), class("B", Some("A"), vec![])];
    assert!(!check_ready_exec(&ctx));
    let mut ctx2 = CompileContext::new();
    ctx2.classes = vec![main_class(), class("A", Some("B"), vec![]), class("B", Some("A"), vec![]), class("C", Some("A"), vec![])];
    assert!(check_ready_exec(&ctx2));
    let (r, _) = check(ctx2.classes);
    assert_eq!(r.unwrap_err(), s("There is an inheritance cycle about Class A!"));
}

#[test]
fn readiness_needs_typed_attributes() {
    let attr = Feature::Attribute(VarDecl {
        name: s("f"),
        type_: None,
        init: Box::new(None),
        position: pos(3, 1),
        ownership: Ownership::Public,
    });
    let mut ctx = CompileContext::new();
    ctx.classes = vec![main_class(), class("A", None, vec![attr])];
    assert!(!check_ready_exec(&ctx));
}

#[test]
fn a_redefinition_is_reported_before_attribute_types_matter() {
    let attr = Feature::Attribute(VarDecl {
        name: s("f"),
        type_: None,
        init: Box::new(None),
        position: pos(3, 1),
        ownership: Ownership::Public,
    });
    let mut ctx = CompileContext::new();
    ctx.classes = vec![class("A", None, vec![attr]), class("A", None, vec![]), main_class()];
    assert!(check_ready_exec(&ctx));
    let (r, _) = check(ctx.classes);
    assert_eq!(r.unwrap_err(), s("Class A has been redefined!"));
}

#[test]
fn a_type_error_is_reported_before_an_untyped_attribute_is_reached() {
    let attr = Feature::Attribute(VarDecl {
        name: s("f"),
        type_: None,
        init: Box::new(None),
        position: pos(3, 1),
        ownership: Ownership::Public,
    });
    let bad = Expr::Not(Not { expr: Box::new(Expr::Int(1)), position: pos(2, 3) });
    let main = class(
        "Main",
        None,
        vec![method("main", vec![], "int", Some(vec![bad, ret(Expr::Int(0), pos(2, 5))]), Ownership::Public, pos(2, 1))],
    );
    let (r, _) = check(vec![main, class("B", None, vec![attr])]);
    assert_eq!(r.unwrap_err(), s("The type in your Not expression is not BOOL"));
}

#[test]
fn an_int_is_typed_under_any_class_table() {
    let attr = Feature::Attribute(VarDecl {
        name: s("f"),
        type_: None,
        init: Box::new(None),
        position: pos(3, 1),
        ownership: Ownership::Public,
    });
    let mut table = ClassTable::new();
    table.classes.insert(s("B"), class("B", None, vec![]));
    table.inheritance.insert(s("B"), vec![class("B", None, vec![attr])]);
    let mut st: SymbolTable<String> = SymbolTable::new();
    let mut e = Expr::Int(7);
    assert_eq!(e.check_type(&mut st, &mut table).map_err(|e| e.err_msg), Ok(s("int")));
}
