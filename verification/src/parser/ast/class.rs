use vstd::prelude::*;

use crate::lexer::Position;

use super::expr::{clone_exprs, exprs_view, expr_view, Expr, ExprM};
use super::{params_view, param_view, Identifier, ParamDecl, ParamM, Type};
use crate::lexer::empty_position;
use crate::utils::util::{do_vecs_match, seqs_match, MatchItem};
use vstd::std_specs::cmp::PartialEqSpecImpl;

verus! {

#[derive(Debug, Clone, Copy, PartialEq, Eq, Structural)]
pub enum Ownership {
    Private,
    Public,
    Default,
}

#[derive(Debug)]
pub struct VarDecl {
    pub name: Identifier,
    pub type_: Option<Type>,
    pub init: Box<Option<Expr>>,
    pub position: Position,
    pub ownership: Ownership,
}

#[derive(Debug)]
pub struct MethodDecl {
    pub name: Identifier,
    pub param: Box<Vec<ParamDecl>>,
    pub return_type: Type,
    pub body: Box<Option<Vec<Expr>>>,
    pub position: Position,
    pub ownership: Ownership,
}

#[derive(Debug)]
pub struct MethodCall {
    pub fun_name: Identifier,
    pub actual: Box<Vec<Expr>>,
}

#[derive(Debug)]
pub struct ConstructorDecl {
    pub param: Box<Vec<ParamDecl>>,
    pub body: Box<Option<Vec<Expr>>>,
    pub position: Position,
}

#[derive(Debug)]
pub enum Feature {
    Attribute(VarDecl),
    Method(MethodDecl),
    Constructor(ConstructorDecl),
}

#[derive(Debug)]
pub struct Class {
    pub name: Type,
    pub parent: Option<Type>,
    pub features: Vec<Feature>,
    pub position: Position,
    pub file_name: String,
}

/// A variable declaration with its names as plain text.
pub ghost struct VarDeclM {
    pub name: Seq<char>,
    pub type_: Option<Seq<char>>,
    pub init: Option<ExprM>,
    pub position: Position,
    pub ownership: Ownership,
}

pub ghost struct MethodDeclM {
    pub name: Seq<char>,
    pub param: Seq<ParamM>,
    pub return_type: Seq<char>,
    pub body: Option<Seq<ExprM>>,
    pub position: Position,
    pub ownership: Ownership,
}

pub ghost struct ConstructorDeclM {
    pub param: Seq<ParamM>,
    pub body: Option<Seq<ExprM>>,
    pub position: Position,
}

pub ghost enum FeatureM {
    Attribute(VarDeclM),
    Method(MethodDeclM),
    Constructor(ConstructorDeclM),
}

pub ghost struct ClassM {
    pub name: Seq<char>,
    pub parent: Option<Seq<char>>,
    pub features: Seq<FeatureM>,
    pub position: Position,
    pub file_name: Seq<char>,
}

pub open spec fn var_decl_view(d: VarDecl) -> VarDeclM
    decreases d,
{
    VarDeclM {
        name: d.name@,
        type_: match d.type_ {
            Some(t) => Some(t@),
            None => None,
        },
        init: match *d.init {
            Some(e) => Some(expr_view(e)),
            None => None,
        },
        position: d.position,
        ownership: d.ownership,
    }
}

pub open spec fn opt_body_view(b: Option<Vec<Expr>>) -> Option<Seq<ExprM>> {
    match b {
        Some(v) => Some(exprs_view(v@)),
        None => None,
    }
}

pub open spec fn feature_view(f: Feature) -> FeatureM {
    match f {
        Feature::Attribute(a) => FeatureM::Attribute(var_decl_view(a)),
        Feature::Method(m) => FeatureM::Method(
            MethodDeclM {
                name: m.name@,
                param: params_view(m.param@),
                return_type: m.return_type@,
                body: opt_body_view(*m.body),
                position: m.position,
                ownership: m.ownership,
            },
        ),
        Feature::Constructor(c) => FeatureM::Constructor(
            ConstructorDeclM {
                param: params_view(c.param@),
                body: opt_body_view(*c.body),
                position: c.position,
            },
        ),
    }
}

pub open spec fn features_view(fs: Seq<Feature>) -> Seq<FeatureM> {
    fs.map_values(|f: Feature| feature_view(f))
}

pub open spec fn class_view(c: Class) -> ClassM {
    ClassM {
        name: c.name@,
        parent: match c.parent {
            Some(p) => Some(p@),
            None => None,
        },
        features: features_view(c.features@),
        position: c.position,
        file_name: c.file_name@,
    }
}

impl VarDecl {
    /// A deep copy of the declaration.
    pub fn clone_decl(&self) -> (r: VarDecl)
        ensures
            var_decl_view(r) == var_decl_view(*self),
        decreases *self,
    {
        let init = match &*self.init {
            Some(e) => Some(e.clone_expr()),
            None => None,
        };
        VarDecl {
            name: self.name.clone(),
            type_: match &self.type_ {
                Some(t) => Some(t.clone()),
                None => None,
            },
            init: Box::new(init),
            position: self.position,
            ownership: self.ownership,
        }
    }
}

impl Clone for VarDecl {
    fn clone(&self) -> (r: Self)
        ensures
            r@ == self@,
    {
        self.clone_decl()
    }
}

/// A copy of a parameter list.
pub fn clone_params(v: &Vec<ParamDecl>) -> (r: Vec<ParamDecl>)
    ensures
        params_view(r@) == params_view(v@),
        r@.len() == v@.len(),
        forall|i: int| 0 <= i < v@.len() ==> r@[i].0@ == v@[i].0@ && r@[i].1@ == v@[i].1@,
{
    let mut r: Vec<ParamDecl> = Vec::new();
    for i in 0..v.len()
        invariant
            r@.len() == i,
            i <= v@.len(),
            forall|j: int| 0 <= j < i ==> r@[j].0@ == v@[j].0@ && r@[j].1@ == v@[j].1@,
    {
        r.push((v[i].0.clone(), v[i].1.clone()));
    }
    assert(params_view(r@) =~= params_view(v@));
    r
}

pub fn clone_body(b: &Option<Vec<Expr>>) -> (r: Option<Vec<Expr>>)
    ensures
        opt_body_view(r) == opt_body_view(*b),
{
    match b {
        Some(v) => Some(clone_exprs(v)),
        None => None,
    }
}

impl MethodDecl {
    pub fn clone_method(&self) -> (r: MethodDecl)
        ensures
            feature_view(Feature::Method(r)) == feature_view(Feature::Method(*self)),
    {
        MethodDecl {
            name: self.name.clone(),
            param: Box::new(clone_params(&self.param)),
            return_type: self.return_type.clone(),
            body: Box::new(clone_body(&self.body)),
            position: self.position,
            ownership: self.ownership,
        }
    }

    /// Whether `other` is a method with the same parameter list, name by
    /// name and type by type.
    pub fn check_param(&self, other: &Feature) -> (r: bool)
        ensures
            r == (other is Method && seqs_match(self.param@, other->Method_0.param@)),
    {
        if let Feature::Method(m) = other {
            return do_vecs_match(&*self.param, &*m.param);
        } else {
            return false;
        }
    }

    /// Whether `other` is a method with the same return type.
    pub fn check_return_type(&self, other: &Feature) -> (r: bool)
        ensures
            r == (other is Method && self.return_type@ == other->Method_0.return_type@),
    {
        if let Feature::Method(m) = other {
            return self.return_type == m.return_type;
        } else {
            return false;
        }
    }
}

impl ConstructorDecl {
    pub fn clone_constructor(&self) -> (r: ConstructorDecl)
        ensures
            r.deep_view() == self.deep_view(),
            seqs_match(r.param@, self.param@),
    {
        ConstructorDecl {
            param: Box::new(clone_params(&self.param)),
            body: Box::new(clone_body(&self.body)),
            position: self.position,
        }
    }
}

impl DeepView for ConstructorDecl {
    type V = ConstructorDeclM;

    open spec fn deep_view(&self) -> ConstructorDeclM {
        ConstructorDeclM {
            param: params_view(self.param@),
            body: opt_body_view(*self.body),
            position: self.position,
        }
    }
}

impl Feature {
    pub fn clone_feature(&self) -> (r: Feature)
        ensures
            r@ == self@,
    {
        match self {
            Feature::Attribute(a) => Feature::Attribute(a.clone_decl()),
            Feature::Method(m) => Feature::Method(m.clone_method()),
            Feature::Constructor(c) => Feature::Constructor(c.clone_constructor()),
        }
    }

    /// For a method: whether `other` is a method with the same parameters.
    /// Anything else answers `false`.
    pub fn check_param(&self, other: &Self) -> (r: bool)
        ensures
            r == (self is Method && other is Method && seqs_match(
                self->Method_0.param@,
                other->Method_0.param@,
            )),
    {
        match self {
            Self::Method(m) => {
                return m.check_param(other);
            },
            _ => {},
        }
        return false;
    }

    /// For a method: whether `other` is a method with the same return type.
    pub fn check_return_type(&self, other: &Self) -> (r: bool)
        ensures
            r == (self is Method && other is Method && self->Method_0.return_type@
                == other->Method_0.return_type@),
    {
        match self {
            Self::Method(m) => {
                return m.check_return_type(other);
            },
            _ => {},
        }
        return false;
    }

    /// The visibility of the feature; constructors are public.
    pub fn get_ownership(&self) -> (r: Ownership)
        ensures
            r == feature_ownership(self@),
    {
        match self {
            Self::Method(m) => return m.ownership,
            Self::Attribute(a) => return a.ownership,
            Self::Constructor(_) => return Ownership::Public,
        }
    }

    /// Where a method was declared; other features have no position.
    pub fn get_position(&self) -> (r: Position)
        ensures
            r == feature_position(self@),
    {
        if let Self::Method(m) = self {
            return m.position;
        } else {
            return empty_position();
        }
    }

    /// The parameters of a method or constructor.
    pub fn get_param(&self) -> (r: &Vec<ParamDecl>)
        requires
            !(self is Attribute),
        ensures
            self is Method ==> r@ == self->Method_0.param@,
            self is Constructor ==> r@ == self->Constructor_0.param@,
    {
        match self {
            Feature::Method(method) => return &method.param,
            Feature::Constructor(constructor) => return &constructor.param,
            Feature::Attribute(_) => vstd::pervasive::unreached(),
        }
    }

    /// The body of a method or constructor.
    pub fn get_body(&self) -> (r: &Option<Vec<Expr>>)
        requires
            !(self is Attribute),
        ensures
            self is Method ==> *r == *self->Method_0.body,
            self is Constructor ==> *r == *self->Constructor_0.body,
    {
        match self {
            Feature::Method(method) => return &method.body,
            Feature::Constructor(constructor) => return &constructor.body,
            Feature::Attribute(_) => vstd::pervasive::unreached(),
        }
    }

    /// The number of parameters of a method or constructor, as an `i32`;
    /// an attribute has none.
    pub fn get_param_len(&self) -> (r: i32)
        ensures
            self is Method ==> r == self->Method_0.param@.len() as i32,
            self is Constructor ==> r == self->Constructor_0.param@.len() as i32,
            self is Attribute ==> r == 0,
    {
        match self {
            Feature::Method(method) => return method.param.len() as i32,
            Feature::Constructor(constructor) => return constructor.param.len() as i32,
            _ => return 0,
        }
    }
}

/// Two parameter lists match exactly when they read the same.
pub proof fn lemma_params_match_view(a: Seq<ParamDecl>, b: Seq<ParamDecl>)
    ensures
        seqs_match(a, b) == (params_view(a) == params_view(b)),
{
    if seqs_match(a, b) {
        assert forall|i: int| 0 <= i < a.len() implies params_view(a)[i] == params_view(b)[i] by {
            assert(a[i].same(&b[i]));
        }
        assert(params_view(a) =~= params_view(b));
    }
    if params_view(a) == params_view(b) {
        assert(a.len() == params_view(a).len());
        assert(b.len() == params_view(b).len());
        assert forall|i: int| 0 <= i < a.len() implies #[trigger] a[i].same(&b[i]) by {
            assert(params_view(a)[i] == params_view(b)[i]);
            assert(params_view(a)[i] == param_view(a[i]));
            assert(params_view(b)[i] == param_view(b[i]));
        }
    }
}

pub open spec fn feature_ownership(f: FeatureM) -> Ownership {
    match f {
        FeatureM::Method(m) => m.ownership,
        FeatureM::Attribute(a) => a.ownership,
        FeatureM::Constructor(_) => Ownership::Public,
    }
}

pub open spec fn feature_position(f: FeatureM) -> Position {
    match f {
        FeatureM::Method(m) => m.position,
        _ => Position { row: 0, column: 0 },
    }
}

/// Two features are the same feature when they are attributes or methods of
/// the same name, or constructors with the same parameter list.
pub open spec fn same_feature(a: FeatureM, b: FeatureM) -> bool {
    match (a, b) {
        (FeatureM::Attribute(x), FeatureM::Attribute(y)) => x.name == y.name,
        (FeatureM::Method(x), FeatureM::Method(y)) => x.name == y.name,
        (FeatureM::Constructor(x), FeatureM::Constructor(y)) => x.param == y.param,
        _ => false,
    }
}

impl PartialEq for Feature {
    fn eq(&self, other: &Self) -> (r: bool) {
        match (self, other) {
            (Feature::Attribute(x), Feature::Attribute(y)) => x.name == y.name,
            (Feature::Method(x), Feature::Method(y)) => x.name == y.name,
            (Feature::Constructor(x), Feature::Constructor(y)) => {
                let r = do_vecs_match(&*x.param, &*y.param);
                proof {
                    lemma_params_match_view(x.param@, y.param@);
                }
                r
            },
            _ => false,
        }
    }
}

impl PartialEqSpecImpl for Feature {
    open spec fn obeys_eq_spec() -> bool {
        true
    }

    open spec fn eq_spec(&self, other: &Feature) -> bool {
        same_feature(self@, other@)
    }
}

impl PartialEq for Class {
    fn eq(&self, other: &Self) -> (r: bool) {
        self.name == other.name
    }
}

impl PartialEqSpecImpl for Class {
    open spec fn obeys_eq_spec() -> bool {
        true
    }

    open spec fn eq_spec(&self, other: &Class) -> bool {
        self.name@ == other.name@
    }
}

impl PartialEq for VarDecl {
    fn eq(&self, other: &Self) -> (r: bool) {
        self.name == other.name
    }
}

impl PartialEqSpecImpl for VarDecl {
    open spec fn obeys_eq_spec() -> bool {
        true
    }

    open spec fn eq_spec(&self, other: &VarDecl) -> bool {
        self.name@ == other.name@
    }
}

impl PartialEq for MethodDecl {
    fn eq(&self, other: &Self) -> (r: bool) {
        self.name == other.name
    }
}

impl PartialEqSpecImpl for MethodDecl {
    open spec fn obeys_eq_spec() -> bool {
        true
    }

    open spec fn eq_spec(&self, other: &MethodDecl) -> bool {
        self.name@ == other.name@
    }
}

impl PartialEq for ConstructorDecl {
    fn eq(&self, other: &Self) -> (r: bool) {
        do_vecs_match(&*other.param, &*self.param)
    }
}

impl PartialEqSpecImpl for ConstructorDecl {
    open spec fn obeys_eq_spec() -> bool {
        true
    }

    open spec fn eq_spec(&self, other: &ConstructorDecl) -> bool {
        seqs_match(other.param@, self.param@)
    }
}

impl Class {
    pub fn clone_class(&self) -> (r: Class)
        ensures
            r@ == self@,
    {
        let mut fs: Vec<Feature> = Vec::new();
        for i in 0..self.features.len()
            invariant
                fs@.len() == i,
                i <= self.features@.len(),
                forall|j: int| 0 <= j < i ==> fs@[j]@ == self.features@[j]@,
        {
            fs.push(self.features[i].clone_feature());
        }
        let r = Class {
            name: self.name.clone(),
            parent: match &self.parent {
                Some(p) => Some(p.clone()),
                None => None,
            },
            features: fs,
            position: self.position,
            file_name: self.file_name.clone(),
        };
        assert(features_view(r.features@) =~= features_view(self.features@));
        r
    }
}

impl DeepView for Class {
    type V = ClassM;

    open spec fn deep_view(&self) -> ClassM {
        class_view(*self)
    }
}

impl View for VarDecl {
    type V = VarDeclM;

    open spec fn view(&self) -> VarDeclM {
        var_decl_view(*self)
    }
}

impl View for Feature {
    type V = FeatureM;

    open spec fn view(&self) -> FeatureM {
        feature_view(*self)
    }
}

impl View for Class {
    type V = ClassM;

    open spec fn view(&self) -> ClassM {
        class_view(*self)
    }
}

} // verus!
