use strawberry::cgen::cgen::Location;
use strawberry::lexer::Position;
use strawberry::llvm::types::LLVMType;
use strawberry::mini::ast::{Class, Expr};
use strawberry::mini::semantic::SemanticChecker;
use strawberry::mini::strawberry::{ParseError, ProgramParser};
use strawberry::mini::table::ClassTable;
use strawberry::mini::token::Token;
use strawberry::parser::ast::class::{Ownership, VarDecl};
use strawberry::parser::ast::expr::{Cond, Expr as FullExpr, Let, While};
use strawberry::ty::class_type::ClassType;
use strawberry::ty::primitive::PrimitiveType;
use strawberry::ty::types::Type;

fn s(x: &str) -> String {
    x.to_string()
}

#[test]
fn a_program_of_booleans_parses() {
    let p = ProgramParser::new();
    let r = p.parse(vec![Token::BoolConst(true), Token::BoolConst(false)]).unwrap();
    assert_eq!(r.len(), 2);
    assert!(matches!(r[0], Expr::Bool(true)));
    assert!(matches!(r[1], Expr::Bool(false)));
    assert_eq!(p.parse(vec![]).unwrap().len(), 0);
}

#[test]
fn another_token_is_refused_with_what_was_expected() {
    let p = ProgramParser::new();
    match p.parse(vec![Token::BoolConst(true), Token::Lparen, Token::BoolConst(false)]) {
        Err(ParseError::UnrecognizedToken { token, expected }) => {
            assert!(matches!(token.1, Token::Lparen));
            assert_eq!(expected, vec![s("\"Bool\"")]);
        },
        Ok(_) => panic!("accepted"),
    }
}

#[test]
fn basic_classes_are_installed() {
    let mut t = ClassTable::new();
    assert!(t.install_basic_class());
    for n in ["Object", "String", "Int", "Bool"] {
        assert!(t.classes.contains_key(&s(n)));
    }
    let chain = t.inheritance.get(&s("Int")).unwrap();
    assert_eq!(chain.len(), 1);
    assert_eq!(chain[0].name, s("Object"));
    assert!(!t.inheritance.contains_key(&s("Object")));
}

fn mini_class(name: &str, parent: Option<&str>) -> Class {
    Class { name: s(name), parent: parent.map(|p| s(p)), features: vec![] }
}

#[test]
fn the_small_checker_wants_main_once() {
    let mut t = ClassTable::new();
    t.install_basic_class();
    let c = SemanticChecker::new(vec![mini_class("Main", Some("Object"))]);
    assert_eq!(c.check(&mut t).unwrap(), true);
    let c = SemanticChecker::new(vec![mini_class("Main", Some("Object"))]);
    assert_eq!(c.check(&mut t).unwrap_err().err_msg, s("Class Main has been redefined!"));
    let mut t2 = ClassTable::new();
    let c = SemanticChecker::new(vec![mini_class("A", Some("None"))]);
    assert_eq!(c.check(&mut t2).unwrap_err().err_msg, s("Your program is missing the Main class"));
}

#[test]
fn llvm_types_of_names() {
    assert!(matches!(LLVMType::from_string_to_llvm_type(&s("int")), LLVMType::I32));
    assert!(matches!(LLVMType::from_string_to_llvm_type(&s("str")), LLVMType::Str));
    assert!(matches!(LLVMType::from_string_to_llvm_type(&s("Main")), LLVMType::StructType { type_ } if type_ == "Main"));
    assert!(LLVMType::is_void_type(&s("Void")));
    assert!(!LLVMType::is_void_type(&s("void")));
}

#[test]
fn types_give_their_parts() {
    let t = Type::Primitive(PrimitiveType::Int);
    assert_eq!(t.as_primitive_type(), PrimitiveType::Int);
    let c = Type::ClassType(ClassType { name: s("A"), fields: vec![Type::Slot], methods: vec![] });
    let ct = c.as_class_type();
    assert_eq!(ct.name, s("A"));
    assert_eq!(ct.fields.len(), 1);
}

#[test]
fn locations_compare_by_register_and_offset() {
    let a = Location { reg: s("%rbp"), offset: 16 };
    let b = Location { reg: s("%rbp"), offset: 16 };
    let c = Location { reg: s("%rbx"), offset: 16 };
    assert!(a == b);
    assert!(a != c);
    assert!(a.clone() == a);
}

fn decl(name: &str, ty: &str) -> VarDecl {
    VarDecl { name: s(name), type_: Some(s(ty)), init: Box::new(None), position: Position::new(1, 1), ownership: Ownership::Default }
}

#[test]
fn locals_are_collected_from_nested_blocks() {
    let inner = FullExpr::Let(Let { var_decls: Box::new(vec![decl("b", "int")]) });
    let e = FullExpr::Cond(Cond {
        test: Box::new(FullExpr::Bool(true)),
        then_body: Box::new(vec![FullExpr::Let(Let { var_decls: Box::new(vec![decl("a", "String")]) })]),
        else_body: Box::new(vec![FullExpr::While(While {
            test: Box::new(FullExpr::Bool(true)),
            body: Box::new(vec![inner]),
            position: Position::new(1, 1),
        })]),
        position: Position::new(1, 1),
    });
    assert_eq!(e.get_var_num(), vec![(s("a"), s("String")), (s("b"), s("int"))]);
    assert!(FullExpr::Int(1).get_var_num().is_empty());
}

#[test]
fn the_small_checker_is_ready_only_when_every_walk_ends() {
    let mut t = ClassTable::new();
    t.install_basic_class();
    let ok = SemanticChecker::new(vec![mini_class("Main", Some("Object")), mini_class("A", Some("Main"))]);
    assert!(ok.check_ready(&t));
    let cycle = SemanticChecker::new(vec![mini_class("Main", Some("B")), mini_class("B", Some("Main"))]);
    assert!(!cycle.check_ready(&t));
    let empty = ClassTable::new();
    let no_object = SemanticChecker::new(vec![mini_class("Main", Some("Object"))]);
    assert!(!no_object.check_ready(&empty));
    let no_main = SemanticChecker::new(vec![mini_class("B", Some("C")), mini_class("C", Some("B"))]);
    assert!(no_main.check_ready(&empty));
}
