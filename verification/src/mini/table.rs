use vstd::prelude::*;

use super::ast::{mini_class_view, Class, Feature, MethodDecl, MiniClassM, MiniFeatureM, VarDecl};
use crate::parser::ast::params_view;
use crate::utils::table::StrMap;

verus! {

/// The constants of a program of the small language, each entered once.
#[derive(Debug)]
pub struct Tables {
    pub string_table: Vec<String>,
    pub int_table: Vec<String>,
    pub id_table: Vec<String>,
}

impl Tables {
    pub fn new() -> (t: Tables)
        ensures
            t.string_table@.len() == 0,
            t.int_table@.len() == 0,
            t.id_table@.len() == 0,
    {
        Tables { string_table: Vec::new(), int_table: Vec::new(), id_table: Vec::new() }
    }
}

/// The classes of the small language by name, and the chain of classes
/// that each inherits from.
pub struct ClassTable {
    pub classes: StrMap<Class>,
    pub inheritance: StrMap<Vec<Class>>,
}

/// `Object`: it has no parent class (`None`) and a method `print` that
/// takes a `String` and gives an `Object`, with no body.
pub open spec fn object_class_m() -> MiniClassM {
    MiniClassM {
        name: "Object"@,
        parent: Some("None"@),
        features: seq![
            MiniFeatureM::Method {
                name: "print"@,
                param: seq![("s"@, "String"@)],
                return_type: "Object"@,
                has_body: false,
            },
        ],
    }
}

/// A class of values: it inherits from `Object` and holds one raw slot
/// called `val`.
pub open spec fn value_class_m(name: Seq<char>) -> MiniClassM {
    MiniClassM {
        name,
        parent: Some("Object"@),
        features: seq![MiniFeatureM::Attribute { name: "val"@, type_: "prim_slot"@, has_init: false }],
    }
}

fn object_class() -> (c: Class)
    ensures
        mini_class_view(c) == object_class_m(),
{
    let ps = vec![(String::from_str("s"), String::from_str("String"))];
    assert(params_view(ps@) =~= seq![("s"@, "String"@)]);
    let c = Class {
        name: String::from_str("Object"),
        parent: Some(String::from_str("None")),
        features: vec![
            Feature::Method(
                MethodDecl {
                    name: String::from_str("print"),
                    param: Box::new(ps),
                    return_type: String::from_str("Object"),
                    body: Box::new(None),
                },
            ),
        ],
    };
    assert(mini_class_view(c).features =~= object_class_m().features);
    c
}

fn value_class(name: &str) -> (c: Class)
    ensures
        mini_class_view(c) == value_class_m(name@),
{
    let c = Class {
        name: String::from_str(name),
        parent: Some(String::from_str("Object")),
        features: vec![
            Feature::Attribute(
                VarDecl { name: String::from_str("val"), type_: String::from_str("prim_slot"), init: Box::new(None) },
            ),
        ],
    };
    assert(mini_class_view(c).features =~= value_class_m(name@).features);
    c
}

impl ClassTable {
    pub fn new() -> (t: ClassTable)
        ensures
            t.classes.map() == Map::<Seq<char>, MiniClassM>::empty(),
            t.inheritance.map() == Map::<Seq<char>, Seq<MiniClassM>>::empty(),
    {
        ClassTable { classes: StrMap::new(), inheritance: StrMap::new() }
    }

    /// Enters the basic classes, `Object`, `String`, `Int` and `Bool`, and
    /// records that each of the last three inherits from `Object` alone.
    pub fn install_basic_class(&mut self) -> (r: bool)
        ensures
            r,
            final(self).classes.map() == old(self).classes.map().insert("Object"@, object_class_m()).insert(
                "String"@,
                value_class_m("String"@),
            ).insert("Int"@, value_class_m("Int"@)).insert("Bool"@, value_class_m("Bool"@)),
            final(self).inheritance.map() == old(self).inheritance.map().insert(
                "String"@,
                seq![object_class_m()],
            ).insert("Int"@, seq![object_class_m()]).insert("Bool"@, seq![object_class_m()]),
    {
        let object = String::from_str("Object");
        self.classes.insert(object.clone(), object_class());
        self.classes.insert(String::from_str("String"), value_class("String"));
        self.classes.insert(String::from_str("Int"), value_class("Int"));
        self.classes.insert(String::from_str("Bool"), value_class("Bool"));
        match self.classes.get(&object) {
            Some(_) => {
                let v1 = vec![object_class()];
                let v2 = vec![object_class()];
                let v3 = vec![object_class()];
                assert(v1.deep_view() =~= seq![object_class_m()]);
                assert(v2.deep_view() =~= seq![object_class_m()]);
                assert(v3.deep_view() =~= seq![object_class_m()]);
                self.inheritance.insert(String::from_str("String"), v1);
                self.inheritance.insert(String::from_str("Int"), v2);
                self.inheritance.insert(String::from_str("Bool"), v3);
            },
            None => {},
        }
        true
    }
}

} // verus!
