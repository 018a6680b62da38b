use vstd::prelude::*;

use super::class_type::ClassType;
use super::primitive::PrimitiveType;

verus! {

/// A type: a built-in one, a class type, or a slot of raw storage.
#[derive(Debug)]
pub enum Type {
    Primitive(PrimitiveType),
    ClassType(ClassType),
    Slot,
}

/// A type as plain values.
pub ghost enum TypeM {
    Primitive(PrimitiveType),
    ClassType { name: Seq<char>, fields: Seq<TypeM>, methods: Seq<TypeM> },
    Slot,
}

pub open spec fn ty_view(t: Type) -> TypeM
    decreases t, 1int,
{
    match t {
        Type::Primitive(p) => TypeM::Primitive(p),
        Type::ClassType(c) => class_type_view(c),
        Type::Slot => TypeM::Slot,
    }
}

pub open spec fn class_type_view(c: ClassType) -> TypeM
    decreases c, 0int,
{
    TypeM::ClassType { name: c.name@, fields: tys_view(c.fields@), methods: tys_view(c.methods@) }
}

pub open spec fn tys_view(v: Seq<Type>) -> Seq<TypeM>
    decreases v,
{
    if v.len() == 0 {
        Seq::empty()
    } else {
        tys_view(v.drop_last()).push(ty_view(v.last()))
    }
}

proof fn lemma_tys_view_push(v: Seq<Type>, t: Type)
    ensures
        tys_view(v.push(t)) == tys_view(v).push(ty_view(t)),
{
    assert(v.push(t).drop_last() =~= v);
}

/// A copy of a list of types.
fn clone_types(v: &Vec<Type>) -> (r: Vec<Type>)
    ensures
        tys_view(r@) == tys_view(v@),
    decreases v@, 2int,
{
    let mut r: Vec<Type> = Vec::new();
    for i in 0..v.len()
        invariant
            tys_view(r@) == tys_view(v@.take(i as int)),
    {
        assert(decreases_to!(v@ => v@[i as int]));
        let t = clone_type(&v[i]);
        proof {
            lemma_tys_view_push(r@, t);
            lemma_tys_view_push(v@.take(i as int), v@[i as int]);
            assert(v@.take(i + 1) =~= v@.take(i as int).push(v@[i as int]));
        }
        r.push(t);
    }
    assert(v@.take(v@.len() as int) =~= v@);
    r
}

/// A copy of a class type.
pub fn clone_class_type(c: &ClassType) -> (r: ClassType)
    ensures
        class_type_view(r) == class_type_view(*c),
    decreases c, 1int,
{
    ClassType { name: c.name.clone(), fields: clone_types(&c.fields), methods: clone_types(&c.methods) }
}

/// A copy of a type.
pub fn clone_type(t: &Type) -> (r: Type)
    ensures
        ty_view(r) == ty_view(*t),
    decreases t, 1int,
{
    match t {
        Type::Primitive(p) => Type::Primitive(*p),
        Type::ClassType(c) => Type::ClassType(clone_class_type(c)),
        Type::Slot => Type::Slot,
    }
}

impl Type {
    /// The built-in type this is.
    pub fn as_primitive_type(&self) -> (r: PrimitiveType)
        requires
            self is Primitive,
        ensures
            r == self->Primitive_0,
    {
        match self {
            Type::Primitive(t) => *t,
            _ => vstd::pervasive::unreached(),
        }
    }

    /// A copy of the class type this is.
    pub fn as_class_type(&self) -> (r: ClassType)
        requires
            self is ClassType,
        ensures
            class_type_view(r) == class_type_view(self->ClassType_0),
    {
        match self {
            Type::ClassType(t) => clone_class_type(t),
            _ => vstd::pervasive::unreached(),
        }
    }
}

} // verus!
