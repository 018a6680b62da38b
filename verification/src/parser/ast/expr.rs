use vstd::prelude::*;

use crate::lexer::Position;

use super::class::{MethodCall, VarDecl, VarDeclM};
use super::{Boolean, Identifier, Int, Str, Type};

verus! {

#[derive(Debug, Clone, Copy, PartialEq, Eq, Structural)]
pub enum ComputeOp {
    Add,
    Minus,
    Mul,
    Divide,
}

#[derive(Debug, Clone, Copy, PartialEq, Eq, Structural)]
pub enum CondOp {
    Equal,
    More,
    MoreE,
    Less,
    LessE,
}

#[derive(Debug, Clone, Copy, PartialEq, Eq, Structural)]
pub enum MathOp {
    ComputeOp(ComputeOp),
    CondOp(CondOp),
}

#[derive(Debug)]
pub enum DispatchExpr {
    Field(Identifier),
    Method(MethodCall),
}

#[derive(Debug)]
pub struct Dispatch {
    pub target: Box<Expr>,
    pub expr: DispatchExpr,
    pub position: Position,
    pub type_: Type,
}

#[derive(Debug)]
pub struct Cond {
    pub test: Box<Expr>,
    pub then_body: Box<Vec<Expr>>,
    pub else_body: Box<Vec<Expr>>,
    pub position: Position,
}

#[derive(Debug)]
pub struct While {
    pub test: Box<Expr>,
    pub body: Box<Vec<Expr>>,
    pub position: Position,
}

#[derive(Debug)]
pub struct Math {
    pub left: Box<Expr>,
    pub op: Box<MathOp>,
    pub right: Box<Expr>,
    pub type_: Type,
}

#[derive(Debug)]
pub struct Return {
    pub val: Option<Box<Expr>>,
    pub position: Position,
}

#[derive(Debug)]
pub struct Let {
    pub var_decls: Box<Vec<VarDecl>>,
}

#[derive(Debug)]
pub struct Assignment {
    pub id: Identifier,
    pub compute: Box<Expr>,
    pub position: Position,
}

#[derive(Debug)]
pub struct IdentifierSrtuct {
    pub name: Identifier,
    pub pos: Position,
    pub type_: Type,
}

#[derive(Debug)]
pub struct Not {
    pub expr: Box<Expr>,
    pub position: Position,
}

#[derive(Debug)]
pub struct Isnull {
    pub expr: Box<Expr>,
}

#[derive(Debug)]
pub struct Self_ {
    pub type_: Type,
}

#[derive(Debug)]
pub struct For {
    pub init: Box<Vec<Expr>>,
    pub test: Box<Vec<Expr>>,
    pub iter: Box<Vec<Expr>>,
    pub body: Box<Vec<Expr>>,
    pub position: Position,
}

#[derive(Debug)]
pub struct Import {
    pub file_name: String,
    pub class_name: Type,
}

#[derive(Debug)]
pub struct ConstructorCall {
    pub class_name: String,
    pub param: Option<Box<Vec<Expr>>>,
    pub position: Position,
}

#[derive(Debug)]
pub enum Expr {
    Identifier(IdentifierSrtuct),
    Bool(Boolean),
    Int(Int),
    Str(Str),
    Assignment(Assignment),
    ASM(String),
    Dispatch(Dispatch),
    Cond(Cond),
    While(While),
    For(For),
    Block(Box<Vec<Expr>>),
    Let(Let),
    New(ConstructorCall),
    Self_(Self_),
    Isvoid(Box<Expr>),
    Math(Math),
    Not(Not),
    Isnull(Isnull),
    Return(Return),
    Import(Import),
}

/// What a dispatch reaches into, with its names as plain text.
pub ghost enum DispatchExprM {
    Field(Seq<char>),
    Method { fun_name: Seq<char>, actual: Seq<ExprM> },
}

/// An expression with every name and type as plain text.
pub ghost enum ExprM {
    Identifier { name: Seq<char>, pos: Position, type_: Seq<char> },
    Bool(bool),
    Int(u64),
    Str(Seq<char>),
    Assignment { id: Seq<char>, compute: Box<ExprM>, position: Position },
    ASM(Seq<char>),
    Dispatch { target: Box<ExprM>, expr: DispatchExprM, position: Position, type_: Seq<char> },
    Cond { test: Box<ExprM>, then_body: Seq<ExprM>, else_body: Seq<ExprM>, position: Position },
    While { test: Box<ExprM>, body: Seq<ExprM>, position: Position },
    For {
        init: Seq<ExprM>,
        test: Seq<ExprM>,
        iter: Seq<ExprM>,
        body: Seq<ExprM>,
        position: Position,
    },
    Block(Seq<ExprM>),
    Let(Seq<VarDeclM>),
    New { class_name: Seq<char>, param: Option<Seq<ExprM>>, position: Position },
    Self_ { type_: Seq<char> },
    Isvoid(Box<ExprM>),
    Math { left: Box<ExprM>, op: MathOp, right: Box<ExprM>, type_: Seq<char> },
    Not { expr: Box<ExprM>, position: Position },
    Isnull { expr: Box<ExprM> },
    Return { val: Option<Box<ExprM>>, position: Position },
    Import { file_name: Seq<char>, class_name: Seq<char> },
}

pub open spec fn exprs_view(s: Seq<Expr>) -> Seq<ExprM>
    decreases s,
{
    if s.len() == 0 {
        Seq::empty()
    } else {
        exprs_view(s.drop_last()).push(expr_view(s.last()))
    }
}

pub open spec fn decls_view(s: Seq<VarDecl>) -> Seq<VarDeclM>
    decreases s,
{
    if s.len() == 0 {
        Seq::empty()
    } else {
        decls_view(s.drop_last()).push(crate::parser::ast::class::var_decl_view(s.last()))
    }
}

pub open spec fn dispatch_expr_view(d: DispatchExpr) -> DispatchExprM
    decreases d,
{
    match d {
        DispatchExpr::Field(f) => DispatchExprM::Field(f@),
        DispatchExpr::Method(m) => DispatchExprM::Method {
            fun_name: m.fun_name@,
            actual: exprs_view(m.actual@),
        },
    }
}

pub open spec fn expr_view(e: Expr) -> ExprM
    decreases e,
{
    match e {
        Expr::Identifier(x) => ExprM::Identifier { name: x.name@, pos: x.pos, type_: x.type_@ },
        Expr::Bool(b) => ExprM::Bool(b),
        Expr::Int(i) => ExprM::Int(i),
        Expr::Str(s) => ExprM::Str(s@),
        Expr::Assignment(a) => ExprM::Assignment {
            id: a.id@,
            compute: Box::new(expr_view(*a.compute)),
            position: a.position,
        },
        Expr::ASM(s) => ExprM::ASM(s@),
        Expr::Dispatch(d) => ExprM::Dispatch {
            target: Box::new(expr_view(*d.target)),
            expr: dispatch_expr_view(d.expr),
            position: d.position,
            type_: d.type_@,
        },
        Expr::Cond(c) => ExprM::Cond {
            test: Box::new(expr_view(*c.test)),
            then_body: exprs_view(c.then_body@),
            else_body: exprs_view(c.else_body@),
            position: c.position,
        },
        Expr::While(w) => ExprM::While {
            test: Box::new(expr_view(*w.test)),
            body: exprs_view(w.body@),
            position: w.position,
        },
        Expr::For(f) => ExprM::For {
            init: exprs_view(f.init@),
            test: exprs_view(f.test@),
            iter: exprs_view(f.iter@),
            body: exprs_view(f.body@),
            position: f.position,
        },
        Expr::Block(b) => ExprM::Block(exprs_view(b@)),
        Expr::Let(l) => ExprM::Let(decls_view(l.var_decls@)),
        Expr::New(c) => ExprM::New {
            class_name: c.class_name@,
            param: match c.param {
                Some(p) => Some(exprs_view(p@)),
                None => None,
            },
            position: c.position,
        },
        Expr::Self_(s) => ExprM::Self_ { type_: s.type_@ },
        Expr::Isvoid(x) => ExprM::Isvoid(Box::new(expr_view(*x))),
        Expr::Math(m) => ExprM::Math {
            left: Box::new(expr_view(*m.left)),
            op: *m.op,
            right: Box::new(expr_view(*m.right)),
            type_: m.type_@,
        },
        Expr::Not(n) => ExprM::Not { expr: Box::new(expr_view(*n.expr)), position: n.position },
        Expr::Isnull(n) => ExprM::Isnull { expr: Box::new(expr_view(*n.expr)) },
        Expr::Return(r) => ExprM::Return {
            val: match r.val {
                Some(v) => Some(Box::new(expr_view(*v))),
                None => None,
            },
            position: r.position,
        },
        Expr::Import(i) => ExprM::Import { file_name: i.file_name@, class_name: i.class_name@ },
    }
}

pub proof fn lemma_exprs_view_push(s: Seq<Expr>, e: Expr)
    ensures
        exprs_view(s.push(e)) == exprs_view(s).push(expr_view(e)),
{
    assert(s.push(e).drop_last() =~= s);
}

pub proof fn lemma_exprs_view_len(s: Seq<Expr>)
    ensures
        exprs_view(s).len() == s.len(),
    decreases s.len(),
{
    if s.len() > 0 {
        lemma_exprs_view_len(s.drop_last());
    }
}

pub proof fn lemma_exprs_view_index(s: Seq<Expr>, i: int)
    requires
        0 <= i < s.len(),
    ensures
        exprs_view(s).len() == s.len(),
        exprs_view(s)[i] == expr_view(s[i]),
    decreases s.len(),
{
    lemma_exprs_view_len(s);
    if i < s.len() - 1 {
        lemma_exprs_view_index(s.drop_last(), i);
    }
}

pub proof fn lemma_decls_view_push(s: Seq<VarDecl>, d: VarDecl)
    ensures
        decls_view(s.push(d)) == decls_view(s).push(crate::parser::ast::class::var_decl_view(d)),
{
    assert(s.push(d).drop_last() =~= s);
}

pub proof fn lemma_exprs_view_cons(e: Expr, s: Seq<Expr>)
    ensures
        exprs_view(seq![e] + s) == seq![expr_view(e)] + exprs_view(s),
        exprs_view(s.insert(0, e)) == seq![expr_view(e)] + exprs_view(s),
{
    let a = seq![e] + s;
    lemma_exprs_view_len(a);
    lemma_exprs_view_len(s);
    assert forall|i: int| 0 <= i < a.len() implies exprs_view(a)[i] == (seq![expr_view(e)] + exprs_view(s))[i] by {
        lemma_exprs_view_index(a, i);
        if i > 0 {
            lemma_exprs_view_index(s, i - 1);
        }
    }
    assert(exprs_view(a) =~= seq![expr_view(e)] + exprs_view(s));
    assert(s.insert(0, e) =~= a);
}

/// The view of a sequence of expressions is the view of its first one
/// before the view of the others.
pub proof fn lemma_exprs_view_first(s: Seq<Expr>)
    requires
        s.len() > 0,
    ensures
        exprs_view(s) == seq![expr_view(s[0])] + exprs_view(s.drop_first()),
        exprs_view(s).len() == s.len(),
        exprs_view(s)[0] == expr_view(s[0]),
        exprs_view(s).drop_first() == exprs_view(s.drop_first()),
{
    lemma_exprs_view_cons(s[0], s.drop_first());
    assert(seq![s[0]] + s.drop_first() =~= s);
    lemma_exprs_view_len(s);
    assert((seq![expr_view(s[0])] + exprs_view(s.drop_first())).drop_first() =~= exprs_view(s.drop_first()));
}

/// Replacing one expression replaces its view and nothing else.
pub proof fn lemma_exprs_view_update(s: Seq<Expr>, k: int, e: Expr)
    requires
        0 <= k < s.len(),
    ensures
        exprs_view(s.update(k, e)) == exprs_view(s).update(k, expr_view(e)),
{
    let s2 = s.update(k, e);
    lemma_exprs_view_len(s);
    lemma_exprs_view_len(s2);
    assert forall|i: int| 0 <= i < s.len() implies exprs_view(s2)[i] == exprs_view(s).update(k, expr_view(e))[i] by {
        lemma_exprs_view_index(s2, i);
        lemma_exprs_view_index(s, i);
    }
    assert(exprs_view(s2) =~= exprs_view(s).update(k, expr_view(e)));
}

pub proof fn lemma_decls_view_len(s: Seq<VarDecl>)
    ensures
        decls_view(s).len() == s.len(),
    decreases s.len(),
{
    if s.len() > 0 {
        lemma_decls_view_len(s.drop_last());
    }
}

pub proof fn lemma_decls_view_index(s: Seq<VarDecl>, i: int)
    requires
        0 <= i < s.len(),
    ensures
        decls_view(s)[i] == crate::parser::ast::class::var_decl_view(s[i]),
    decreases s.len(),
{
    lemma_decls_view_len(s);
    if i < s.len() - 1 {
        lemma_decls_view_index(s.drop_last(), i);
    }
}

pub proof fn lemma_decls_view_first(s: Seq<VarDecl>)
    requires
        s.len() > 0,
    ensures
        decls_view(s) == seq![crate::parser::ast::class::var_decl_view(s[0])] + decls_view(s.drop_first()),
        decls_view(s).len() == s.len(),
{
    let t = s.drop_first();
    lemma_decls_view_len(s);
    lemma_decls_view_len(t);
    assert forall|i: int| 0 <= i < s.len() implies decls_view(s)[i] == (seq![crate::parser::ast::class::var_decl_view(s[0])] + decls_view(t))[i] by {
        lemma_decls_view_index(s, i);
        if i > 0 {
            lemma_decls_view_index(t, i - 1);
        }
    }
    assert(decls_view(s) =~= seq![crate::parser::ast::class::var_decl_view(s[0])] + decls_view(t));
}

/// Copies a sequence of expressions, keeping every name and type.
pub fn clone_exprs(v: &Vec<Expr>) -> (r: Vec<Expr>)
    ensures
        exprs_view(r@) == exprs_view(v@),
    decreases v@,
{
    let mut r: Vec<Expr> = Vec::new();
    let n = v.len();
    for i in 0..n
        invariant
            n == v.len(),
            exprs_view(r@) == exprs_view(v@.take(i as int)),
    {
        assert(decreases_to!(v@ => v@[i as int]));
        let e = v[i].clone_expr();
        proof {
            lemma_exprs_view_push(r@, e);
            assert(v@.take(i + 1) =~= v@.take(i as int).push(v@[i as int]));
            lemma_exprs_view_push(v@.take(i as int), v@[i as int]);
        }
        r.push(e);
    }
    assert(v@.take(n as int) =~= v@);
    r
}

/// Copies a sequence of variable declarations.
pub fn clone_decls(v: &Vec<VarDecl>) -> (r: Vec<VarDecl>)
    ensures
        decls_view(r@) == decls_view(v@),
    decreases v@,
{
    let mut r: Vec<VarDecl> = Vec::new();
    let n = v.len();
    for i in 0..n
        invariant
            n == v.len(),
            decls_view(r@) == decls_view(v@.take(i as int)),
    {
        assert(decreases_to!(v@ => v@[i as int]));
        let e = v[i].clone_decl();
        proof {
            lemma_decls_view_push(r@, e);
            assert(v@.take(i + 1) =~= v@.take(i as int).push(v@[i as int]));
            lemma_decls_view_push(v@.take(i as int), v@[i as int]);
        }
        r.push(e);
    }
    assert(v@.take(n as int) =~= v@);
    r
}

impl Expr {
    /// A deep copy of the expression.
    pub fn clone_expr(&self) -> (r: Expr)
        ensures
            r@ == self@,
        decreases *self,
    {
        match self {
            Expr::Identifier(x) => Expr::Identifier(
                IdentifierSrtuct { name: x.name.clone(), pos: x.pos, type_: x.type_.clone() },
            ),
            Expr::Bool(b) => Expr::Bool(*b),
            Expr::Int(i) => Expr::Int(*i),
            Expr::Str(s) => Expr::Str(s.clone()),
            Expr::Assignment(a) => Expr::Assignment(
                Assignment {
                    id: a.id.clone(),
                    compute: Box::new(a.compute.clone_expr()),
                    position: a.position,
                },
            ),
            Expr::ASM(s) => Expr::ASM(s.clone()),
            Expr::Dispatch(d) => {
                let target = Box::new(d.target.clone_expr());
                let de = match &d.expr {
                    DispatchExpr::Field(f) => DispatchExpr::Field(f.clone()),
                    DispatchExpr::Method(m) => DispatchExpr::Method(
                        MethodCall {
                            fun_name: m.fun_name.clone(),
                            actual: Box::new(clone_exprs(&m.actual)),
                        },
                    ),
                };
                assert(dispatch_expr_view(de) == dispatch_expr_view(d.expr));
                Expr::Dispatch(
                    Dispatch { target, expr: de, position: d.position, type_: d.type_.clone() },
                )
            },
            Expr::Cond(c) => Expr::Cond(
                Cond {
                    test: Box::new(c.test.clone_expr()),
                    then_body: Box::new(clone_exprs(&c.then_body)),
                    else_body: Box::new(clone_exprs(&c.else_body)),
                    position: c.position,
                },
            ),
            Expr::While(w) => Expr::While(
                While {
                    test: Box::new(w.test.clone_expr()),
                    body: Box::new(clone_exprs(&w.body)),
                    position: w.position,
                },
            ),
            Expr::For(f) => Expr::For(
                For {
                    init: Box::new(clone_exprs(&f.init)),
                    test: Box::new(clone_exprs(&f.test)),
                    iter: Box::new(clone_exprs(&f.iter)),
                    body: Box::new(clone_exprs(&f.body)),
                    position: f.position,
                },
            ),
            Expr::Block(b) => Expr::Block(Box::new(clone_exprs(b))),
            Expr::Let(l) => Expr::Let(Let { var_decls: Box::new(clone_decls(&l.var_decls)) }),
            Expr::New(c) => {
                let param = match &c.param {
                    Some(p) => Some(Box::new(clone_exprs(p))),
                    None => None,
                };
                Expr::New(
                    ConstructorCall { class_name: c.class_name.clone(), param, position: c.position },
                )
            },
            Expr::Self_(s) => Expr::Self_(Self_ { type_: s.type_.clone() }),
            Expr::Isvoid(x) => Expr::Isvoid(Box::new(x.clone_expr())),
            Expr::Math(m) => Expr::Math(
                Math {
                    left: Box::new(m.left.clone_expr()),
                    op: Box::new(*m.op),
                    right: Box::new(m.right.clone_expr()),
                    type_: m.type_.clone(),
                },
            ),
            Expr::Not(n) => Expr::Not(
                Not { expr: Box::new(n.expr.clone_expr()), position: n.position },
            ),
            Expr::Isnull(n) => Expr::Isnull(Isnull { expr: Box::new(n.expr.clone_expr()) }),
            Expr::Return(r) => {
                let val = match &r.val {
                    Some(v) => Some(Box::new(v.clone_expr())),
                    None => None,
                };
                Expr::Return(Return { val, position: r.position })
            },
            Expr::Import(i) => Expr::Import(
                Import { file_name: i.file_name.clone(), class_name: i.class_name.clone() },
            ),
        }
    }
}

impl Expr {
    /// Whether the expression is `self`.
    pub fn is_self_expr(&self) -> (r: bool)
        ensures
            r == (*self is Self_),
            r == (self@ is Self_),
    {
        if let Expr::Self_(_) = self {
            return true;
        } else {
            return false;
        }
    }
}

impl Clone for Expr {
    fn clone(&self) -> (r: Self)
        ensures
            r@ == self@,
    {
        self.clone_expr()
    }
}

impl View for Expr {
    type V = ExprM;

    open spec fn view(&self) -> ExprM {
        expr_view(*self)
    }
}

} // verus!
