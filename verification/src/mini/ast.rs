use vstd::prelude::*;

use crate::parser::ast::{params_view, ParamDecl, ParamM};

verus! {

pub type Identifier = String;

pub type Type = String;

pub type Boolean = bool;

pub type Int = u32;

pub type Str = String;

/// A program of the small language: its classes.
#[derive(Debug)]
pub struct Program {
    pub classes: Vec<Class>,
}

#[derive(Debug)]
pub struct Class {
    pub name: Type,
    pub parent: Option<Type>,
    pub features: Vec<Feature>,
}

#[derive(Debug)]
pub enum Feature {
    Attribute(VarDecl),
    Method(MethodDecl),
}

#[derive(Debug)]
pub struct VarDecl {
    pub name: Identifier,
    pub type_: Type,
    pub init: Box<Option<Expr>>,
}

#[derive(Debug)]
pub struct MethodDecl {
    pub name: Identifier,
    pub param: Box<Vec<ParamDecl>>,
    pub return_type: Type,
    pub body: Box<Option<Vec<Expr>>>,
}

#[derive(Debug, Clone, Copy, PartialEq, Eq, Structural)]
pub enum MathOp {
    Add,
    Minus,
    Mul,
    Divide,
    Equal,
    More,
    MoreE,
    Less,
    LessE,
}

#[derive(Debug)]
pub enum Expr {
    Identifier(Identifier),
    Bool(Boolean),
    Int(Int),
    Str(Str),
    Assignment(Identifier, Box<Expr>),
    Dispatch { target: Box<Option<Expr>>, fun_name: Identifier, actual: Box<Vec<Expr>> },
    Cond { test: Box<Expr>, then_body: Box<Expr>, else_body: Box<Expr> },
    While { test: Box<Expr>, body: Box<Expr> },
    Block(Box<Vec<Expr>>),
    Let(Box<Vec<VarDecl>>),
    New(Type),
    Isvoid(Box<Expr>),
    Math { left: Box<Expr>, op: Box<MathOp>, right: Box<Expr> },
    Return { val: Box<Expr> },
}

/// A feature as plain text, without the expressions it holds: whether an
/// attribute has an initial value, or a method a body.
pub ghost enum MiniFeatureM {
    Attribute { name: Seq<char>, type_: Seq<char>, has_init: bool },
    Method { name: Seq<char>, param: Seq<ParamM>, return_type: Seq<char>, has_body: bool },
}

/// A class as plain text, its features without their expressions.
pub ghost struct MiniClassM {
    pub name: Seq<char>,
    pub parent: Option<Seq<char>>,
    pub features: Seq<MiniFeatureM>,
}

pub open spec fn mini_feature_view(f: Feature) -> MiniFeatureM {
    match f {
        Feature::Attribute(a) => MiniFeatureM::Attribute { name: a.name@, type_: a.type_@, has_init: *a.init is Some },
        Feature::Method(m) => MiniFeatureM::Method {
            name: m.name@,
            param: params_view(m.param@),
            return_type: m.return_type@,
            has_body: *m.body is Some,
        },
    }
}

pub open spec fn mini_class_view(c: Class) -> MiniClassM {
    MiniClassM {
        name: c.name@,
        parent: match c.parent {
            Some(p) => Some(p@),
            None => None,
        },
        features: c.features@.map_values(|f: Feature| mini_feature_view(f)),
    }
}

impl DeepView for Class {
    type V = MiniClassM;

    open spec fn deep_view(&self) -> MiniClassM {
        mini_class_view(*self)
    }
}


/// A declaration of the small language as plain text.
pub ghost struct MiniDeclM {
    pub name: Seq<char>,
    pub type_: Seq<char>,
    pub init: Option<MiniExprM>,
}

/// An expression of the small language with its names as plain text.
pub ghost enum MiniExprM {
    Identifier(Seq<char>),
    Bool(bool),
    Int(u32),
    Str(Seq<char>),
    Assignment(Seq<char>, Box<MiniExprM>),
    Dispatch { target: Option<Box<MiniExprM>>, fun_name: Seq<char>, actual: Seq<MiniExprM> },
    Cond { test: Box<MiniExprM>, then_body: Box<MiniExprM>, else_body: Box<MiniExprM> },
    While { test: Box<MiniExprM>, body: Box<MiniExprM> },
    Block(Seq<MiniExprM>),
    Let(Seq<MiniDeclM>),
    New(Seq<char>),
    Isvoid(Box<MiniExprM>),
    Math { left: Box<MiniExprM>, op: MathOp, right: Box<MiniExprM> },
    Return { val: Box<MiniExprM> },
}

pub open spec fn mini_expr_view(e: Expr) -> MiniExprM
    decreases e,
{
    match e {
        Expr::Identifier(x) => MiniExprM::Identifier(x@),
        Expr::Bool(b) => MiniExprM::Bool(b),
        Expr::Int(i) => MiniExprM::Int(i),
        Expr::Str(x) => MiniExprM::Str(x@),
        Expr::Assignment(x, v) => MiniExprM::Assignment(x@, Box::new(mini_expr_view(*v))),
        Expr::Dispatch { target, fun_name, actual } => MiniExprM::Dispatch {
            target: match *target {
                Some(t) => Some(Box::new(mini_expr_view(t))),
                None => None,
            },
            fun_name: fun_name@,
            actual: mini_exprs_view(actual@),
        },
        Expr::Cond { test, then_body, else_body } => MiniExprM::Cond {
            test: Box::new(mini_expr_view(*test)),
            then_body: Box::new(mini_expr_view(*then_body)),
            else_body: Box::new(mini_expr_view(*else_body)),
        },
        Expr::While { test, body } => MiniExprM::While {
            test: Box::new(mini_expr_view(*test)),
            body: Box::new(mini_expr_view(*body)),
        },
        Expr::Block(v) => MiniExprM::Block(mini_exprs_view(v@)),
        Expr::Let(v) => MiniExprM::Let(mini_decls_view(v@)),
        Expr::New(t) => MiniExprM::New(t@),
        Expr::Isvoid(x) => MiniExprM::Isvoid(Box::new(mini_expr_view(*x))),
        Expr::Math { left, op, right } => MiniExprM::Math {
            left: Box::new(mini_expr_view(*left)),
            op: *op,
            right: Box::new(mini_expr_view(*right)),
        },
        Expr::Return { val } => MiniExprM::Return { val: Box::new(mini_expr_view(*val)) },
    }
}

pub open spec fn mini_exprs_view(s: Seq<Expr>) -> Seq<MiniExprM>
    decreases s,
{
    if s.len() == 0 {
        Seq::empty()
    } else {
        mini_exprs_view(s.drop_last()).push(mini_expr_view(s.last()))
    }
}

pub open spec fn mini_decl_view(d: VarDecl) -> MiniDeclM
    decreases d,
{
    MiniDeclM {
        name: d.name@,
        type_: d.type_@,
        init: match *d.init {
            Some(e) => Some(mini_expr_view(e)),
            None => None,
        },
    }
}

pub open spec fn mini_decls_view(s: Seq<VarDecl>) -> Seq<MiniDeclM>
    decreases s,
{
    if s.len() == 0 {
        Seq::empty()
    } else {
        mini_decls_view(s.drop_last()).push(mini_decl_view(s.last()))
    }
}

/// A copy of an expression.
pub(crate) fn clone_mini_expr(e: &Expr) -> (r: Expr)
    ensures
        mini_expr_view(r) == mini_expr_view(*e),
    decreases e,
{
    match e {
        Expr::Identifier(x) => Expr::Identifier(x.clone()),
        Expr::Bool(b) => Expr::Bool(*b),
        Expr::Int(i) => Expr::Int(*i),
        Expr::Str(x) => Expr::Str(x.clone()),
        Expr::Assignment(x, v) => Expr::Assignment(x.clone(), Box::new(clone_mini_expr(v))),
        Expr::Dispatch { target, fun_name, actual } => Expr::Dispatch {
            target: Box::new(
                match &**target {
                    Some(t) => Some(clone_mini_expr(t)),
                    None => None,
                },
            ),
            fun_name: fun_name.clone(),
            actual: Box::new(clone_mini_exprs(actual)),
        },
        Expr::Cond { test, then_body, else_body } => Expr::Cond {
            test: Box::new(clone_mini_expr(test)),
            then_body: Box::new(clone_mini_expr(then_body)),
            else_body: Box::new(clone_mini_expr(else_body)),
        },
        Expr::While { test, body } => Expr::While {
            test: Box::new(clone_mini_expr(test)),
            body: Box::new(clone_mini_expr(body)),
        },
        Expr::Block(v) => Expr::Block(Box::new(clone_mini_exprs(v))),
        Expr::Let(v) => Expr::Let(Box::new(clone_mini_decls(v))),
        Expr::New(t) => Expr::New(t.clone()),
        Expr::Isvoid(x) => Expr::Isvoid(Box::new(clone_mini_expr(x))),
        Expr::Math { left, op, right } => Expr::Math {
            left: Box::new(clone_mini_expr(left)),
            op: Box::new(**op),
            right: Box::new(clone_mini_expr(right)),
        },
        Expr::Return { val } => Expr::Return { val: Box::new(clone_mini_expr(val)) },
    }
}

/// A copy of a list of expressions.
pub(crate) fn clone_mini_exprs(v: &Vec<Expr>) -> (r: Vec<Expr>)
    ensures
        r@.len() == v@.len(),
        mini_exprs_view(r@) == mini_exprs_view(v@),
    decreases v,
{
    let mut r: Vec<Expr> = Vec::new();
    for i in 0..v.len()
        invariant
            r@.len() == i,
            i <= v@.len(),
            mini_exprs_view(r@) == mini_exprs_view(v@.take(i as int)),
    {
        assert(decreases_to!(v => v@[i as int]));
        let ghost r0 = r@;
        r.push(clone_mini_expr(&v[i]));
        assert(r@.drop_last() =~= r0);
        assert(v@.take(i + 1).drop_last() =~= v@.take(i as int));
    }
    assert(v@.take(v@.len() as int) =~= v@);
    r
}

/// A copy of a list of declarations.
pub(crate) fn clone_mini_decls(v: &Vec<VarDecl>) -> (r: Vec<VarDecl>)
    ensures
        r@.len() == v@.len(),
        mini_decls_view(r@) == mini_decls_view(v@),
        forall|i: int| 0 <= i < v@.len() ==> (#[trigger] r@[i]).name@ == v@[i].name@ && r@[i].type_@ == v@[i].type_@
            && (*r@[i].init is Some) == (*v@[i].init is Some),
    decreases v,
{
    let mut r: Vec<VarDecl> = Vec::new();
    for i in 0..v.len()
        invariant
            r@.len() == i,
            i <= v@.len(),
            mini_decls_view(r@) == mini_decls_view(v@.take(i as int)),
            forall|j: int| 0 <= j < i ==> (#[trigger] r@[j]).name@ == v@[j].name@ && r@[j].type_@ == v@[j].type_@
                && (*r@[j].init is Some) == (*v@[j].init is Some),
    {
        assert(decreases_to!(v => v@[i as int]));
        let d = &v[i];
        let init = match &*d.init {
            Some(e) => {
                assert(decreases_to!(v@[i as int] => e));
                Some(clone_mini_expr(e))
            },
            None => None,
        };
        let ghost r0 = r@;
        let nd = VarDecl { name: d.name.clone(), type_: d.type_.clone(), init: Box::new(init) };
        assert(mini_decl_view(nd) == mini_decl_view(*d));
        r.push(nd);
        assert(r@.drop_last() =~= r0);
        assert(v@.take(i + 1).drop_last() =~= v@.take(i as int));
    }
    assert(v@.take(v@.len() as int) =~= v@);
    r
}

impl Class {
    /// A copy of the class.
    pub fn clone_mini(&self) -> (r: Class)
        ensures
            mini_class_view(r) == mini_class_view(*self),
    {
        let mut fs: Vec<Feature> = Vec::new();
        for i in 0..self.features.len()
            invariant
                fs@.len() == i,
                forall|j: int| 0 <= j < i ==> mini_feature_view(#[trigger] fs@[j]) == mini_feature_view(self.features@[j]),
        {
            let f = match &self.features[i] {
                Feature::Attribute(a) => Feature::Attribute(
                    VarDecl {
                        name: a.name.clone(),
                        type_: a.type_.clone(),
                        init: Box::new(
                            match &*a.init {
                                Some(e) => Some(clone_mini_expr(e)),
                                None => None,
                            },
                        ),
                    },
                ),
                Feature::Method(m) => {
                    let ps = crate::parser::ast::class::clone_params(&m.param);
                    Feature::Method(
                        MethodDecl {
                            name: m.name.clone(),
                            param: Box::new(ps),
                            return_type: m.return_type.clone(),
                            body: Box::new(
                                match &*m.body {
                                    Some(b) => Some(clone_mini_exprs(b)),
                                    None => None,
                                },
                            ),
                        },
                    )
                },
            };
            fs.push(f);
        }
        let r = Class {
            name: self.name.clone(),
            parent: match &self.parent {
                Some(p) => Some(p.clone()),
                None => None,
            },
            features: fs,
        };
        assert(mini_class_view(r).features =~= mini_class_view(*self).features);
        r
    }
}
} // verus!
