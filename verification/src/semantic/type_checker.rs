use vstd::prelude::*;

use super::semantic::{err_view, expr_err, ErrM, SemanticError};
use crate::lexer::{empty_position, Position};
use crate::parser::ast::class::{
    class_view, feature_view, features_view, var_decl_view, Class, ClassM, ConstructorDecl, ConstructorDeclM, Feature,
    FeatureM, MethodCall, MethodDeclM, Ownership, VarDecl, VarDeclM,
};
use crate::parser::ast::expr::{dispatch_expr_view, lemma_exprs_view_cons, lemma_exprs_view_first, lemma_decls_view_first, Self_, IdentifierSrtuct, lemma_exprs_view_len};
use crate::parser::ast::{params_view, ParamDecl};
use crate::utils::util::{do_vecs_match, seqs_match, MatchItem};
use crate::utils::table::lemma_entries_map_last;
use crate::parser::ast::expr::{
    Assignment, ComputeOp, Cond, ConstructorCall, Dispatch, DispatchExpr, DispatchExprM, Expr, ExprM,
    For, Isnull, Let, Math, MathOp, Not, Return, While, expr_view, exprs_view, decls_view,
};
use crate::parser::ast::{ParamM, Type};
use crate::utils::table::{scopes_add, scopes_exit, scopes_find, spec_less_or_equal, ClassTable, ClassTableM, SymbolTable};
use crate::{BOOL, INT, OBJECT, SELF, STRING, VOID};

verus! {

/// The scopes of a symbol table, from outermost to innermost.
pub type Scopes = Seq<Map<Seq<char>, Seq<char>>>;

/// What checking an expression gives: its type or the first error, the
/// expression with the types it was found to have written into it, and the
/// symbol table after it.
pub type Checked = (Result<Seq<char>, ErrM>, ExprM, Scopes);

/// Type checking needs every class that can be named to have its
/// constructors recorded, and every attribute of an inheritance chain to
/// have a declared type.
pub open spec fn tc_ready(ct: ClassTableM) -> bool {
    &&& forall|k: Seq<char>| #[trigger] ct.classes.contains_key(k) ==> ct.class_constructors.contains_key(k)
    &&& forall|k: Seq<char>, i: int, j: int|
        #![trigger ct.inheritance[k][i].features[j]]
        ct.inheritance.contains_key(k) && 0 <= i < ct.inheritance[k].len() && 0 <= j
            < ct.inheritance[k][i].features.len() && ct.inheritance[k][i].features[j] is Attribute
            ==> ct.inheritance[k][i].features[j]->Attribute_0.type_ is Some
}

/// The debug rendering of a list of strings, as `format!("{:?}", ..)` writes it.
pub uninterp spec fn debug_list(v: Seq<Seq<char>>) -> Seq<char>;

/// Writes a list of strings as `format!("{:?}", ..)` does: the result is
/// taken to be `debug_list` of the strings, which this crate leaves
/// undefined.
#[verifier::external_body]
pub(crate) fn debug_format(v: &Vec<String>) -> (r: String)
    ensures
        r@ == debug_list(v@.map_values(|s: String| s@)),
{
    format!("{:?}", v)
}

pub open spec fn msg_no_class(name: Seq<char>) -> Seq<char> {
    "There is no class called "@ + name + "!"@
}

pub open spec fn msg_no_ctor(name: Seq<char>, tys: Seq<Seq<char>>) -> Seq<char> {
    "class "@ + name + " has no constructor that takes ("@ + debug_list(tys) + ") as parameters!"@
}

pub open spec fn msg_no_ident(name: Seq<char>) -> Seq<char> {
    "The identifier "@ + name + " does not exist or it has gone out of scope!"@
}

pub open spec fn msg_private_method(m: Seq<char>, c: Seq<char>) -> Seq<char> {
    "The method "@ + m + " in class "@ + c + " is private!"@
}

pub open spec fn msg_private_field(f: Seq<char>, c: Seq<char>) -> Seq<char> {
    "The field "@ + f + " in class "@ + c + " is private!"@
}

pub open spec fn msg_no_member(c: Seq<char>) -> Seq<char> {
    "Class "@ + c + " may not have the method or field you want!"@
}

pub open spec fn msg_arg_count() -> Seq<char> {
    "The actual number of parameters of your method call is not equal to the number of declared formal parameters!"@
}

pub open spec fn msg_arg_type() -> Seq<char> {
    "The actual parameter type of your method call is not the same as the declared formal parameter type!"@
}

pub open spec fn msg_let() -> Seq<char> {
    "The type of your let expression init is inconsistent with the declared type!"@
}

pub open spec fn msg_assign() -> Seq<char> {
    "Some semantic errors occurred in your Assignment!"@
}

pub open spec fn msg_str_math() -> Seq<char> {
    "String cannot be used for mathematical operations other than addition"@
}

pub open spec fn msg_str_cond() -> Seq<char> {
    "String cannot be used in conditional operations"@
}

pub open spec fn msg_math() -> Seq<char> {
    "The left and right sides of your mathematical operation are not all INT types!"@
}

pub open spec fn msg_if() -> Seq<char> {
    "The type in your If condition is not BOOL"@
}

pub open spec fn msg_loop() -> Seq<char> {
    "The type in your Loop condition is not BOOL"@
}

pub open spec fn msg_not() -> Seq<char> {
    "The type in your Not expression is not BOOL"@
}

pub open spec fn msg_for_count() -> Seq<char> {
    " There can only be one initial expression and one judgment expression in the for loop!"@
}

pub open spec fn msg_for_test() -> Seq<char> {
    "The type of the conditional expression in the for loop is not BOOL!"@
}

/// The parameter types of a declaration.
pub open spec fn param_types(ps: Seq<ParamM>) -> Seq<Seq<char>> {
    ps.map_values(|p: ParamM| p.1)
}

/// Whether some constructor takes exactly these parameter types.
pub open spec fn ctor_accepts(ds: Seq<ConstructorDeclM>, tys: Seq<Seq<char>>) -> bool {
    exists|i: int| 0 <= i < ds.len() && param_types(#[trigger] ds[i].param) == tys
}

/// The first method named `name` among the features from index `j` on.
pub open spec fn method_in(fs: Seq<FeatureM>, j: int, name: Seq<char>) -> Option<MethodDeclM>
    decreases fs.len() - j,
{
    if j < 0 || j >= fs.len() {
        None
    } else if fs[j] is Method && fs[j]->Method_0.name == name {
        Some(fs[j]->Method_0)
    } else {
        method_in(fs, j + 1, name)
    }
}

/// The first attribute named `name` among the features from index `j` on.
pub open spec fn attr_in(fs: Seq<FeatureM>, j: int, name: Seq<char>) -> Option<VarDeclM>
    decreases fs.len() - j,
{
    if j < 0 || j >= fs.len() {
        None
    } else if fs[j] is Attribute && fs[j]->Attribute_0.name == name {
        Some(fs[j]->Attribute_0)
    } else {
        attr_in(fs, j + 1, name)
    }
}

/// The first method named `name` in the chain from class `i` on, with the
/// name of the class that declares it.
pub open spec fn method_in_chain(chain: Seq<ClassM>, i: int, name: Seq<char>) -> Option<
    (Seq<char>, MethodDeclM),
>
    decreases chain.len() - i,
{
    if i < 0 || i >= chain.len() {
        None
    } else {
        match method_in(chain[i].features, 0, name) {
            Some(m) => Some((chain[i].name, m)),
            None => method_in_chain(chain, i + 1, name),
        }
    }
}

/// The first attribute named `name` in the chain from class `i` on, with
/// the name of the class that declares it.
pub open spec fn attr_in_chain(chain: Seq<ClassM>, i: int, name: Seq<char>) -> Option<
    (Seq<char>, VarDeclM),
>
    decreases chain.len() - i,
{
    if i < 0 || i >= chain.len() {
        None
    } else {
        match attr_in(chain[i].features, 0, name) {
            Some(a) => Some((chain[i].name, a)),
            None => attr_in_chain(chain, i + 1, name),
        }
    }
}

pub open spec fn opt_err_result(r: Option<ErrM>, ok: Seq<char>) -> Result<Seq<char>, ErrM> {
    match r {
        Some(e) => Err(e),
        None => Ok(ok),
    }
}

/// Checks the expressions one after the other; the first error stops the
/// checking, the expressions after it stay as they were.
pub open spec fn tc_list(es: Seq<ExprM>, st: Scopes, ct: ClassTableM) -> (
    Option<ErrM>,
    Seq<ExprM>,
    Scopes,
)
    decreases es, 0int,
{
    if es.len() == 0 {
        (None, es, st)
    } else {
        let (r, e2, st2) = tc_expr(es[0], st, ct);
        match r {
            Err(x) => (Some(x), seq![e2] + es.drop_first(), st2),
            Ok(_) => {
                let (r3, rest, st3) = tc_list(es.drop_first(), st2, ct);
                (r3, seq![e2] + rest, st3)
            },
        }
    }
}

/// Checks the arguments of a constructor call in order and collects their
/// types.
pub open spec fn tc_types(es: Seq<ExprM>, st: Scopes, ct: ClassTableM) -> (
    Result<Seq<Seq<char>>, ErrM>,
    Seq<ExprM>,
    Scopes,
)
    decreases es, 0int,
{
    if es.len() == 0 {
        (Ok(Seq::empty()), es, st)
    } else {
        let (r, e2, st2) = tc_expr(es[0], st, ct);
        match r {
            Err(x) => (Err(x), seq![e2] + es.drop_first(), st2),
            Ok(t) => {
                let (r3, rest, st3) = tc_types(es.drop_first(), st2, ct);
                (
                    match r3 {
                        Ok(ts) => Ok(seq![t] + ts),
                        Err(x) => Err(x),
                    },
                    seq![e2] + rest,
                    st3,
                )
            },
        }
    }
}

/// Checks the arguments of a method call in order, each against the type
/// of its parameter.
pub open spec fn tc_args(
    es: Seq<ExprM>,
    ps: Seq<ParamM>,
    st: Scopes,
    ct: ClassTableM,
    pos: Position,
) -> (Option<ErrM>, Seq<ExprM>, Scopes)
    decreases es, 0int,
{
    if es.len() == 0 || ps.len() == 0 {
        (None, es, st)
    } else {
        let (r, e2, st2) = tc_expr(es[0], st, ct);
        match r {
            Err(x) => (Some(x), seq![e2] + es.drop_first(), st2),
            Ok(t) => if !spec_less_or_equal(ct, t, ps[0].1) {
                (Some(expr_err(msg_arg_type(), Some(pos))), seq![e2] + es.drop_first(), st2)
            } else {
                let (r3, rest, st3) = tc_args(es.drop_first(), ps.drop_first(), st2, ct, pos);
                (r3, seq![e2] + rest, st3)
            },
        }
    }
}

/// Checks the declarations of a `let` in order: each initial value must fit
/// the declared type, and a declaration without a type takes the type of
/// its initial value; each declared name enters the innermost scope.
pub open spec fn tc_decls(ds: Seq<VarDeclM>, st: Scopes, ct: ClassTableM) -> (
    Option<ErrM>,
    Seq<VarDeclM>,
    Scopes,
)
    decreases ds, 0int,
{
    if ds.len() == 0 {
        (None, ds, st)
    } else {
        let d = ds[0];
        match d.init {
            Some(init) => {
                let (r, i2, st2) = tc_expr(init, st, ct);
                let d2 = VarDeclM { init: Some(i2), ..d };
                match r {
                    Err(x) => (Some(x), seq![d2] + ds.drop_first(), st2),
                    Ok(t) => match d.type_ {
                        Some(dt) => if spec_less_or_equal(ct, t, dt) {
                            let (r3, rest, st3) = tc_decls(ds.drop_first(), scopes_add(st2, d.name, dt), ct);
                            (r3, seq![d2] + rest, st3)
                        } else {
                            (Some(expr_err(msg_let(), Some(d.position))), seq![d2] + ds.drop_first(), st2)
                        },
                        None => {
                            let d3 = VarDeclM { type_: Some(t), ..d2 };
                            let (r3, rest, st3) = tc_decls(ds.drop_first(), scopes_add(st2, d.name, t), ct);
                            (r3, seq![d3] + rest, st3)
                        },
                    },
                }
            },
            None => {
                let st2 = match d.type_ {
                    Some(dt) => scopes_add(st, d.name, dt),
                    None => st,
                };
                let (r3, rest, st3) = tc_decls(ds.drop_first(), st2, ct);
                (r3, seq![d] + rest, st3)
            },
        }
    }
}

/// Checks the condition of a `for`, which has at most one expression: it
/// must be a `Bool`.
pub open spec fn tc_for_test(test: Seq<ExprM>, st: Scopes, ct: ClassTableM, pos: Position) -> (
    Option<ErrM>,
    Seq<ExprM>,
    Scopes,
)
    decreases test, 0int,
{
    if test.len() == 0 {
        (None, test, st)
    } else {
        let (r, t2, st2) = tc_expr(test[0], st, ct);
        (
            match r {
                Err(x) => Some(x),
                Ok(t) => if t != BOOL@ {
                    Some(expr_err(msg_for_test(), Some(pos)))
                } else {
                    None
                },
            },
            seq![t2],
            st2,
        )
    }
}

/// Checks a dispatch `target.member`, once the target is checked.
pub open spec fn tc_member(
    target: ExprM,
    expr: DispatchExprM,
    position: Position,
    type_: Seq<char>,
    target_type: Seq<char>,
    st: Scopes,
    ct: ClassTableM,
) -> Checked
    decreases expr, 0int,
{
    let unchanged = ExprM::Dispatch { target: Box::new(target), expr, position, type_ };
    if !ct.classes.contains_key(target_type) {
        (Ok(OBJECT@), unchanged, st)
    } else {
        let cname = ct.classes[target_type].name;
        if !ct.inheritance.contains_key(cname) {
            (Ok(OBJECT@), unchanged, st)
        } else {
            let chain = ct.inheritance[cname];
            match expr {
                DispatchExprM::Method { fun_name, actual } => match method_in_chain(chain, 0, fun_name) {
                    None => (Err(expr_err(msg_no_member(cname), Some(position))), unchanged, st),
                    Some((owner, m)) => if m.ownership == Ownership::Private && !(target is Self_) {
                        (Err(expr_err(msg_private_method(m.name, owner), Some(position))), unchanged, st)
                    } else if actual.len() != m.param.len() {
                        (Err(expr_err(msg_arg_count(), Some(position))), unchanged, st)
                    } else {
                        let (r, acts, st2) = tc_args(actual, m.param, st, ct, position);
                        match r {
                            Some(x) => (
                                Err(x),
                                ExprM::Dispatch {
                                    target: Box::new(target),
                                    expr: DispatchExprM::Method { fun_name, actual: acts },
                                    position,
                                    type_,
                                },
                                st2,
                            ),
                            None => (
                                Ok(m.return_type),
                                ExprM::Dispatch {
                                    target: Box::new(target),
                                    expr: DispatchExprM::Method { fun_name, actual: acts },
                                    position,
                                    type_: m.return_type,
                                },
                                st2,
                            ),
                        }
                    },
                },
                DispatchExprM::Field(f) => match attr_in_chain(chain, 0, f) {
                    None => (Err(expr_err(msg_no_member(cname), Some(position))), unchanged, st),
                    Some((owner, a)) => if a.ownership == Ownership::Public || target is Self_ {
                        let t = a.type_->Some_0;
                        (
                            Ok(t),
                            ExprM::Dispatch { target: Box::new(target), expr, position, type_: t },
                            st,
                        )
                    } else {
                        (Err(expr_err(msg_private_field(f, owner), Some(position))), unchanged, st)
                    },
                },
            }
        }
    }
}

/// The type of an expression in the scopes `st`, under the class table
/// `ct`; see each case.
pub open spec fn tc_expr(e: ExprM, st: Scopes, ct: ClassTableM) -> Checked
    decreases e, 1int,
{
    match e {
        ExprM::Bool(_) => (Ok(BOOL@), e, st),
        ExprM::Str(_) => (Ok(STRING@), e, st),
        ExprM::Int(_) => (Ok(INT@), e, st),
        ExprM::ASM(_) => (Ok(OBJECT@), e, st),
        ExprM::New { class_name, param, position } => if !ct.classes.contains_key(class_name) {
            (Err(expr_err(msg_no_class(class_name), None)), e, st)
        } else {
            match param {
                None => (Ok(class_name), e, st),
                Some(ps) => {
                    let (r, ps2, st2) = tc_types(ps, st, ct);
                    let e2 = ExprM::New { class_name, param: Some(ps2), position };
                    match r {
                        Err(x) => (Err(x), e2, st2),
                        Ok(tys) => if ctor_accepts(ct.class_constructors[class_name], tys) {
                            (Ok(class_name), e2, st2)
                        } else {
                            (Err(expr_err(msg_no_ctor(class_name, tys), Some(position))), e2, st2)
                        },
                    }
                },
            }
        },
        ExprM::Identifier { name, pos, type_ } => match scopes_find(st, name) {
            Some(s) => (Ok(s), ExprM::Identifier { name, pos, type_: s }, st),
            None => (Err(expr_err(msg_no_ident(name), Some(pos))), e, st),
        },
        ExprM::Self_ { type_ } => match scopes_find(st, SELF@) {
            Some(s) => (Ok(s), ExprM::Self_ { type_: s }, st),
            None => (Ok(OBJECT@), e, st),
        },
        ExprM::Let(ds) => {
            let (r, ds2, st2) = tc_decls(ds, st, ct);
            (opt_err_result(r, OBJECT@), ExprM::Let(ds2), st2)
        },
        ExprM::Assignment { id, compute, position } => {
            let (r, c2, st2) = tc_expr(*compute, st, ct);
            let e2 = ExprM::Assignment { id, compute: Box::new(c2), position };
            match scopes_find(st2, id) {
                Some(idt) => if r is Ok && spec_less_or_equal(ct, idt, r->Ok_0) {
                    (Ok(idt), e2, st2)
                } else {
                    (Err(expr_err(msg_assign(), Some(position))), e2, st2)
                },
                None => (Err(expr_err(msg_assign(), Some(position))), e2, st2),
            }
        },
        ExprM::Dispatch { target, expr, position, type_ } => {
            let (rt, t2, st1) = tc_expr(*target, st, ct);
            match rt {
                Err(x) => (Err(x), ExprM::Dispatch { target: Box::new(t2), expr, position, type_ }, st1),
                Ok(tt) => tc_member(t2, expr, position, type_, tt, st1, ct),
            }
        },
        ExprM::Math { left, op, right, type_ } => {
            let (rl, l2, st1) = tc_expr(*left, st, ct);
            let (rr, r2, st2) = tc_expr(*right, st1, ct);
            let mk = |t: Seq<char>| ExprM::Math { left: Box::new(l2), op, right: Box::new(r2), type_: t };
            match (rl, rr) {
                (Err(x), _) => (Err(x), mk(type_), st2),
                (Ok(_), Err(x)) => (Err(x), mk(type_), st2),
                (Ok(lt), Ok(rt)) => if lt == INT@ && rt == INT@ {
                    match op {
                        MathOp::ComputeOp(_) => (Ok(INT@), mk(INT@), st2),
                        MathOp::CondOp(_) => (Ok(BOOL@), mk(BOOL@), st2),
                    }
                } else if lt == STRING@ && rt == STRING@ {
                    match op {
                        MathOp::ComputeOp(ComputeOp::Add) => (Ok(STRING@), mk(STRING@), st2),
                        MathOp::ComputeOp(_) => (Err(expr_err(msg_str_math(), None)), mk(type_), st2),
                        MathOp::CondOp(_) => (Err(expr_err(msg_str_cond(), None)), mk(type_), st2),
                    }
                } else {
                    (Err(expr_err(msg_math(), None)), mk(type_), st2)
                },
            }
        },
        ExprM::Cond { test, then_body, else_body, position } => {
            let st0 = st.push(Map::empty());
            let (rt, t2, st1) = tc_expr(*test, st0, ct);
            let mk = |tb: Seq<ExprM>, eb: Seq<ExprM>| ExprM::Cond {
                test: Box::new(t2),
                then_body: tb,
                else_body: eb,
                position,
            };
            match rt {
                Err(x) => (Err(x), mk(then_body, else_body), st1),
                Ok(t) => if t != BOOL@ {
                    (Err(expr_err(msg_if(), Some(position))), mk(then_body, else_body), st1)
                } else {
                    let (r1, tb2, st2) = tc_list(then_body, st1, ct);
                    match r1 {
                        Some(x) => (Err(x), mk(tb2, else_body), st2),
                        None => {
                            let (r2, eb2, st3) = tc_list(else_body, st2, ct);
                            match r2 {
                                Some(x) => (Err(x), mk(tb2, eb2), st3),
                                None => (Ok(OBJECT@), mk(tb2, eb2), scopes_exit(st3)),
                            }
                        },
                    }
                },
            }
        },
        ExprM::While { test, body, position } => {
            let st0 = st.push(Map::empty());
            let (rt, t2, st1) = tc_expr(*test, st0, ct);
            let mk = |b: Seq<ExprM>| ExprM::While { test: Box::new(t2), body: b, position };
            match rt {
                Err(x) => (Err(x), mk(body), st1),
                Ok(t) => if t != BOOL@ {
                    (Err(expr_err(msg_loop(), Some(position))), mk(body), st1)
                } else {
                    let (r1, b2, st2) = tc_list(body, st1, ct);
                    match r1 {
                        Some(x) => (Err(x), mk(b2), st2),
                        None => (Ok(OBJECT@), mk(b2), scopes_exit(st2)),
                    }
                },
            }
        },
        ExprM::Return { val, position } => match val {
            None => (Ok(VOID@), e, st),
            Some(v) => {
                let (r, v2, st2) = tc_expr(*v, st, ct);
                (r, ExprM::Return { val: Some(Box::new(v2)), position }, st2)
            },
        },
        ExprM::Not { expr, position } => {
            let (r, x2, st2) = tc_expr(*expr, st, ct);
            let e2 = ExprM::Not { expr: Box::new(x2), position };
            match r {
                Err(x) => (Err(x), e2, st2),
                Ok(t) => if t != BOOL@ {
                    (Err(expr_err(msg_not(), Some(position))), e2, st2)
                } else {
                    (Ok(t), e2, st2)
                },
            }
        },
        ExprM::Isnull { expr } => {
            let (r, x2, st2) = tc_expr(*expr, st, ct);
            let e2 = ExprM::Isnull { expr: Box::new(x2) };
            match r {
                Err(x) => (Err(x), e2, st2),
                Ok(_) => (Ok(BOOL@), e2, st2),
            }
        },
        ExprM::For { init, test, iter, body, position } => {
            let st0 = st.push(Map::empty());
            let mk = |i: Seq<ExprM>, t: Seq<ExprM>, it: Seq<ExprM>, b: Seq<ExprM>| ExprM::For {
                init: i,
                test: t,
                iter: it,
                body: b,
                position,
            };
            if init.len() > 1 || test.len() > 1 {
                (Err(expr_err(msg_for_count(), Some(position))), mk(init, test, iter, body), st0)
            } else {
                let (r1, init2, st1) = tc_list(init, st0, ct);
                if r1 is Some {
                    (Err(r1->Some_0), mk(init2, test, iter, body), st1)
                } else {
                    let (r2, test2, st2) = tc_for_test(test, st1, ct, position);
                    if r2 is Some {
                        (Err(r2->Some_0), mk(init2, test2, iter, body), st2)
                    } else {
                        let (r3, iter2, st3) = tc_list(iter, st2, ct);
                        if r3 is Some {
                            (Err(r3->Some_0), mk(init2, test2, iter2, body), st3)
                        } else {
                            let (r4, body2, st4) = tc_list(body, st3, ct);
                            if r4 is Some {
                                (Err(r4->Some_0), mk(init2, test2, iter2, body2), st4)
                            } else {
                                (Ok(OBJECT@), mk(init2, test2, iter2, body2), scopes_exit(st4))
                            }
                        }
                    }
                }
            }
        },
        _ => (Ok(OBJECT@), e, st),
    }
}


/// Whether checking the expressions in turn, as `tc_list` does, reaches a
/// step the checker cannot take (see `tc_stuck`).
pub open spec fn list_stuck(es: Seq<ExprM>, st: Scopes, ct: ClassTableM) -> bool
    decreases es, 0int,
{
    if es.len() == 0 {
        false
    } else {
        let (r, _e2, st2) = tc_expr(es[0], st, ct);
        tc_stuck(es[0], st, ct) || (r is Ok && list_stuck(es.drop_first(), st2, ct))
    }
}

/// Whether checking the arguments of a call, as `tc_args` does, gets stuck.
pub open spec fn args_stuck(es: Seq<ExprM>, ps: Seq<ParamM>, st: Scopes, ct: ClassTableM) -> bool
    decreases es, 0int,
{
    if es.len() == 0 || ps.len() == 0 {
        false
    } else {
        let (r, _e2, st2) = tc_expr(es[0], st, ct);
        tc_stuck(es[0], st, ct) || (r is Ok && spec_less_or_equal(ct, r->Ok_0, ps[0].1) && args_stuck(
            es.drop_first(),
            ps.drop_first(),
            st2,
            ct,
        ))
    }
}

/// Whether checking the declarations of a `let`, as `tc_decls` does, gets
/// stuck.
pub open spec fn decls_stuck(ds: Seq<VarDeclM>, st: Scopes, ct: ClassTableM) -> bool
    decreases ds, 0int,
{
    if ds.len() == 0 {
        false
    } else {
        let d = ds[0];
        match d.init {
            Some(init) => {
                let (r, _i2, st2) = tc_expr(init, st, ct);
                tc_stuck(init, st, ct) || match r {
                    Err(_) => false,
                    Ok(t) => match d.type_ {
                        Some(dt) => spec_less_or_equal(ct, t, dt) && decls_stuck(ds.drop_first(), scopes_add(st2, d.name, dt), ct),
                        None => decls_stuck(ds.drop_first(), scopes_add(st2, d.name, t), ct),
                    },
                }
            },
            None => decls_stuck(
                ds.drop_first(),
                match d.type_ {
                    Some(dt) => scopes_add(st, d.name, dt),
                    None => st,
                },
                ct,
            ),
        }
    }
}

/// Whether checking `target.member`, as `tc_member` does, gets stuck: on a
/// field with no declared type, or inside an argument.
pub open spec fn member_stuck(
    target: ExprM,
    expr: DispatchExprM,
    target_type: Seq<char>,
    st: Scopes,
    ct: ClassTableM,
) -> bool
    decreases expr, 0int,
{
    if !ct.classes.contains_key(target_type) {
        false
    } else {
        let cname = ct.classes[target_type].name;
        if !ct.inheritance.contains_key(cname) {
            false
        } else {
            let chain = ct.inheritance[cname];
            match expr {
                DispatchExprM::Method { fun_name, actual } => match method_in_chain(chain, 0, fun_name) {
                    None => false,
                    Some((_owner, m)) => if m.ownership == Ownership::Private && !(target is Self_) {
                        false
                    } else if actual.len() != m.param.len() {
                        false
                    } else {
                        args_stuck(actual, m.param, st, ct)
                    },
                },
                DispatchExprM::Field(f) => match attr_in_chain(chain, 0, f) {
                    None => false,
                    Some((_owner, a)) => (a.ownership == Ownership::Public || target is Self_) && a.type_ is None,
                },
            }
        }
    }
}

/// Whether checking `e` reaches a step the checker cannot take: reading the
/// type of a field declared without one, or looking up the constructors of
/// a class that has none recorded. `tc_expr` says what the checker gives
/// where it does not get stuck.
pub open spec fn tc_stuck(e: ExprM, st: Scopes, ct: ClassTableM) -> bool
    decreases e, 1int,
{
    match e {
        ExprM::New { class_name, param, .. } => ct.classes.contains_key(class_name) && match param {
            None => false,
            Some(ps) => list_stuck(ps, st, ct) || (tc_types(ps, st, ct).0 is Ok && !ct.class_constructors.contains_key(
                class_name,
            )),
        },
        ExprM::Let(ds) => decls_stuck(ds, st, ct),
        ExprM::Assignment { compute, .. } => tc_stuck(*compute, st, ct),
        ExprM::Dispatch { target, expr, .. } => {
            let (rt, t2, st1) = tc_expr(*target, st, ct);
            tc_stuck(*target, st, ct) || match rt {
                Err(_) => false,
                Ok(tt) => member_stuck(t2, expr, tt, st1, ct),
            }
        },
        ExprM::Math { left, right, .. } => {
            let (_rl, _l2, st1) = tc_expr(*left, st, ct);
            tc_stuck(*left, st, ct) || tc_stuck(*right, st1, ct)
        },
        ExprM::Cond { test, then_body, else_body, .. } => {
            let st0 = st.push(Map::empty());
            let (rt, _t2, st1) = tc_expr(*test, st0, ct);
            tc_stuck(*test, st0, ct) || (rt is Ok && rt->Ok_0 == BOOL@ && (list_stuck(then_body, st1, ct) || (tc_list(
                then_body,
                st1,
                ct,
            ).0 is None && list_stuck(else_body, tc_list(then_body, st1, ct).2, ct))))
        },
        ExprM::While { test, body, .. } => {
            let st0 = st.push(Map::empty());
            let (rt, _t2, st1) = tc_expr(*test, st0, ct);
            tc_stuck(*test, st0, ct) || (rt is Ok && rt->Ok_0 == BOOL@ && list_stuck(body, st1, ct))
        },
        ExprM::Return { val, .. } => match val {
            None => false,
            Some(v) => tc_stuck(*v, st, ct),
        },
        ExprM::Not { expr, .. } => tc_stuck(*expr, st, ct),
        ExprM::Isnull { expr } => tc_stuck(*expr, st, ct),
        ExprM::For { init, test, iter, body, position } => {
            let st0 = st.push(Map::empty());
            if init.len() > 1 || test.len() > 1 {
                false
            } else {
                let (r1, _i2, st1) = tc_list(init, st0, ct);
                let (r2, _t2, st2) = tc_for_test(test, st1, ct, position);
                let (r3, _it2, st3) = tc_list(iter, st2, ct);
                list_stuck(init, st0, ct) || (r1 is None && ((test.len() == 1 && tc_stuck(test[0], st1, ct)) || (r2 is None
                    && (list_stuck(iter, st2, ct) || (r3 is None && list_stuck(body, st3, ct))))))
            }
        },
        _ => false,
    }
}


proof fn lemma_attr_in_typed(fs: Seq<FeatureM>, j: int, name: Seq<char>)
    requires
        forall|q: int| 0 <= q < fs.len() && #[trigger] fs[q] is Attribute ==> fs[q]->Attribute_0.type_ is Some,
    ensures
        attr_in(fs, j, name) matches Some(a) ==> a.type_ is Some,
    decreases fs.len() - j,
{
    if 0 <= j < fs.len() && !(fs[j] is Attribute && fs[j]->Attribute_0.name == name) {
        lemma_attr_in_typed(fs, j + 1, name);
    }
}

proof fn lemma_attr_in_chain_typed(chain: Seq<ClassM>, i: int, name: Seq<char>)
    requires
        forall|p: int, q: int|
            #![trigger chain[p].features[q]]
            0 <= p < chain.len() && 0 <= q < chain[p].features.len() && chain[p].features[q] is Attribute
                ==> chain[p].features[q]->Attribute_0.type_ is Some,
    ensures
        attr_in_chain(chain, i, name) matches Some((_o, a)) ==> a.type_ is Some,
    decreases chain.len() - i,
{
    if 0 <= i < chain.len() {
        let fs = chain[i].features;
        assert forall|q: int| 0 <= q < fs.len() && #[trigger] fs[q] is Attribute implies fs[q]->Attribute_0.type_ is Some by {
            assert(chain[i].features[q] is Attribute);
        }
        lemma_attr_in_typed(fs, 0, name);
        lemma_attr_in_chain_typed(chain, i + 1, name);
    }
}

/// Under a class table where every class has its constructors recorded and
/// every attribute of a chain its type, checking never gets stuck.
pub proof fn lemma_ready_expr(e: ExprM, st: Scopes, ct: ClassTableM)
    requires
        tc_ready(ct),
    ensures
        !tc_stuck(e, st, ct),
    decreases e, 1int,
{
    match e {
        ExprM::New { class_name, param, .. } => if let Some(ps) = param {
            lemma_ready_list(ps, st, ct);
        },
        ExprM::Let(ds) => lemma_ready_decls(ds, st, ct),
        ExprM::Assignment { compute, .. } => lemma_ready_expr(*compute, st, ct),
        ExprM::Dispatch { target, expr, .. } => {
            lemma_ready_expr(*target, st, ct);
            let (rt, t2, st1) = tc_expr(*target, st, ct);
            if let Ok(tt) = rt {
                lemma_ready_member(t2, expr, tt, st1, ct);
            }
        },
        ExprM::Math { left, right, .. } => {
            lemma_ready_expr(*left, st, ct);
            lemma_ready_expr(*right, tc_expr(*left, st, ct).2, ct);
        },
        ExprM::Cond { test, then_body, else_body, .. } => {
            let st0 = st.push(Map::empty());
            lemma_ready_expr(*test, st0, ct);
            let st1 = tc_expr(*test, st0, ct).2;
            lemma_ready_list(then_body, st1, ct);
            lemma_ready_list(else_body, tc_list(then_body, st1, ct).2, ct);
        },
        ExprM::While { test, body, .. } => {
            let st0 = st.push(Map::empty());
            lemma_ready_expr(*test, st0, ct);
            lemma_ready_list(body, tc_expr(*test, st0, ct).2, ct);
        },
        ExprM::Return { val, .. } => if let Some(v) = val {
            lemma_ready_expr(*v, st, ct);
        },
        ExprM::Not { expr, .. } => lemma_ready_expr(*expr, st, ct),
        ExprM::Isnull { expr } => lemma_ready_expr(*expr, st, ct),
        ExprM::For { init, test, iter, body, position } => {
            let st0 = st.push(Map::empty());
            let (r1, _i2, st1) = tc_list(init, st0, ct);
            let (r2, _t2, st2) = tc_for_test(test, st1, ct, position);
            let (r3, _it2, st3) = tc_list(iter, st2, ct);
            lemma_ready_list(init, st0, ct);
            if test.len() == 1 {
                lemma_ready_expr(test[0], st1, ct);
            }
            lemma_ready_list(iter, st2, ct);
            lemma_ready_list(body, st3, ct);
        },
        _ => {},
    }
}

pub proof fn lemma_ready_list(es: Seq<ExprM>, st: Scopes, ct: ClassTableM)
    requires
        tc_ready(ct),
    ensures
        !list_stuck(es, st, ct),
    decreases es, 0int,
{
    if es.len() > 0 {
        lemma_ready_expr(es[0], st, ct);
        lemma_ready_list(es.drop_first(), tc_expr(es[0], st, ct).2, ct);
    }
}

pub proof fn lemma_ready_args(es: Seq<ExprM>, ps: Seq<ParamM>, st: Scopes, ct: ClassTableM)
    requires
        tc_ready(ct),
    ensures
        !args_stuck(es, ps, st, ct),
    decreases es, 0int,
{
    if es.len() > 0 && ps.len() > 0 {
        lemma_ready_expr(es[0], st, ct);
        lemma_ready_args(es.drop_first(), ps.drop_first(), tc_expr(es[0], st, ct).2, ct);
    }
}

pub proof fn lemma_ready_decls(ds: Seq<VarDeclM>, st: Scopes, ct: ClassTableM)
    requires
        tc_ready(ct),
    ensures
        !decls_stuck(ds, st, ct),
    decreases ds, 0int,
{
    if ds.len() > 0 {
        let d = ds[0];
        match d.init {
            Some(init) => {
                lemma_ready_expr(init, st, ct);
                let (r, _i2, st2) = tc_expr(init, st, ct);
                if let Ok(t) = r {
                    match d.type_ {
                        Some(dt) => lemma_ready_decls(ds.drop_first(), scopes_add(st2, d.name, dt), ct),
                        None => lemma_ready_decls(ds.drop_first(), scopes_add(st2, d.name, t), ct),
                    }
                }
            },
            None => lemma_ready_decls(
                ds.drop_first(),
                match d.type_ {
                    Some(dt) => scopes_add(st, d.name, dt),
                    None => st,
                },
                ct,
            ),
        }
    }
}

pub proof fn lemma_ready_member(target: ExprM, expr: DispatchExprM, tt: Seq<char>, st: Scopes, ct: ClassTableM)
    requires
        tc_ready(ct),
    ensures
        !member_stuck(target, expr, tt, st, ct),
    decreases expr, 0int,
{
    if ct.classes.contains_key(tt) {
        let cname = ct.classes[tt].name;
        if ct.inheritance.contains_key(cname) {
            let chain = ct.inheritance[cname];
            match expr {
                DispatchExprM::Method { fun_name, actual } => if let Some((_o, m)) = method_in_chain(chain, 0, fun_name) {
                    lemma_ready_args(actual, m.param, st, ct);
                },
                DispatchExprM::Field(f) => {
                    assert forall|p: int, q: int|
                        #![trigger chain[p].features[q]]
                        0 <= p < chain.len() && 0 <= q < chain[p].features.len() && chain[p].features[q] is Attribute
                        implies chain[p].features[q]->Attribute_0.type_ is Some by {
                        assert(ct.inheritance[cname][p].features[q] is Attribute);
                    }
                    lemma_attr_in_chain_typed(chain, 0, f);
                },
            }
        }
    }
}


pub open spec fn result_view(r: Result<String, SemanticError>) -> Result<Seq<char>, ErrM> {
    match r {
        Ok(t) => Ok(t@),
        Err(e) => Err(err_view(e)),
    }
}

pub open spec fn opt_err_view(r: Option<SemanticError>) -> Option<ErrM> {
    match r {
        Some(e) => Some(err_view(e)),
        None => None,
    }
}

/// `a`, then `b`, then `c`, as one string.
pub(crate) fn cat3(a: &str, b: &String, c: &str) -> (r: String)
    ensures
        r@ == a@ + b@ + c@,
{
    let mut r = String::from_str(a);
    r.append(b.as_str());
    r.append(c);
    r
}

/// `a`, `b`, `c`, `d` and `e`, as one string.
pub(crate) fn cat5(a: &str, b: &String, c: &str, d: &String, e: &str) -> (r: String)
    ensures
        r@ == a@ + b@ + c@ + d@ + e@,
{
    let mut r = String::from_str(a);
    r.append(b.as_str());
    r.append(c);
    r.append(d.as_str());
    r.append(e);
    r
}

fn err_at(msg: String, position: Position) -> (e: SemanticError)
    ensures
        err_view(e) == expr_err(msg@, Some(position)),
{
    SemanticError::new(msg, Some(position))
}

/// Checks a list of expressions in order; see `tc_list`.
fn tc_vec(v: Vec<Expr>, st: &mut SymbolTable<Type>, ct: &ClassTable) -> (res: (Option<SemanticError>, Vec<Expr>))
    requires
        !list_stuck(exprs_view(v@), old(st).model(), ct.model()),
    ensures
        tc_list(exprs_view(v@), old(st).model(), ct.model()) == (opt_err_view(res.0), exprs_view(res.1@), final(st).model()),
    decreases v@, 2int,
{
    let mut v = v;
    if v.len() == 0 {
        return (None, v);
    }
    proof {
        lemma_exprs_view_first(v@);
    }
    let ghost v0 = v@;
    let e = v.remove(0);
    assert(v@ == v0.drop_first());
    assert(decreases_to!(v0 => e));
    let (r, e2) = tc_owned(e, st, ct);
    match r {
        Err(x) => {
            proof {
                lemma_exprs_view_cons(e2, v@);
            }
            v.insert(0, e2);
            (Some(x), v)
        },
        Ok(_) => {
            let (r3, mut rest) = tc_vec(v, st, ct);
            proof {
                lemma_exprs_view_cons(e2, rest@);
            }
            rest.insert(0, e2);
            (r3, rest)
        },
    }
}

/// Checks the arguments of a constructor call and collects their types;
/// see `tc_types`.
fn tc_types_vec(v: Vec<Expr>, st: &mut SymbolTable<Type>, ct: &ClassTable) -> (res: (Result<Vec<String>, SemanticError>, Vec<Expr>))
    requires
        !list_stuck(exprs_view(v@), old(st).model(), ct.model()),
    ensures
        tc_types(exprs_view(v@), old(st).model(), ct.model()) == (
            match res.0 {
                Ok(ts) => Ok(ts@.map_values(|t: String| t@)),
                Err(e) => Err(err_view(e)),
            },
            exprs_view(res.1@),
            final(st).model(),
        ),
    decreases v@, 2int,
{
    let mut v = v;
    if v.len() == 0 {
        let ts: Vec<String> = Vec::new();
        assert(ts@.map_values(|t: String| t@) =~= Seq::<Seq<char>>::empty());
        return (Ok(ts), v);
    }
    proof {
        lemma_exprs_view_first(v@);
    }
    let ghost v0 = v@;
    let e = v.remove(0);
    assert(v@ == v0.drop_first());
    assert(decreases_to!(v0 => e));
    let (r, e2) = tc_owned(e, st, ct);
    match r {
        Err(x) => {
            proof {
                lemma_exprs_view_cons(e2, v@);
            }
            v.insert(0, e2);
            (Err(x), v)
        },
        Ok(t) => {
            let (r3, mut rest) = tc_types_vec(v, st, ct);
            proof {
                lemma_exprs_view_cons(e2, rest@);
            }
            rest.insert(0, e2);
            match r3 {
                Ok(mut ts) => {
                    let ghost old_ts = ts@;
                    ts.insert(0, t);
                    assert(ts@.map_values(|t: String| t@) =~= seq![ts@[0]@] + old_ts.map_values(|t: String| t@));
                    (Ok(ts), rest)
                },
                Err(x) => (Err(x), rest),
            }
        },
    }
}

/// Checks the arguments of a method call, each against the type of its
/// parameter, starting at parameter `k`; see `tc_args`.
fn tc_args_vec(
    v: Vec<Expr>,
    ps: &Vec<ParamDecl>,
    k: usize,
    st: &mut SymbolTable<Type>,
    ct: &ClassTable,
    pos: Position,
) -> (res: (Option<SemanticError>, Vec<Expr>))
    requires
        !args_stuck(exprs_view(v@), params_view(ps@).skip(k as int), old(st).model(), ct.model()),
        k <= ps@.len(),
    ensures
        tc_args(exprs_view(v@), params_view(ps@).skip(k as int), old(st).model(), ct.model(), pos) == (
            opt_err_view(res.0),
            exprs_view(res.1@),
            final(st).model(),
        ),
    decreases v@, 2int,
{
    let mut v = v;
    if v.len() == 0 || k == ps.len() {
        proof {
            lemma_exprs_view_len(v@);
        }
        return (None, v);
    }
    proof {
        lemma_exprs_view_first(v@);
        assert(params_view(ps@).skip(k as int)[0] == (ps@[k as int].0@, ps@[k as int].1@));
        assert(params_view(ps@).skip(k as int).drop_first() =~= params_view(ps@).skip(k + 1));
    }
    let ghost v0 = v@;
    let e = v.remove(0);
    assert(v@ == v0.drop_first());
    assert(decreases_to!(v0 => e));
    let (r, e2) = tc_owned(e, st, ct);
    match r {
        Err(x) => {
            proof {
                lemma_exprs_view_cons(e2, v@);
            }
            v.insert(0, e2);
            (Some(x), v)
        },
        Ok(t) => {
            if !ct.is_less_or_equal(&t, &ps[k].1) {
                proof {
                    lemma_exprs_view_cons(e2, v@);
                }
                v.insert(0, e2);
                let msg = String::from_str(
                    "The actual parameter type of your method call is not the same as the declared formal parameter type!",
                );
                return (Some(err_at(msg, pos)), v);
            }
            let (r3, mut rest) = tc_args_vec(v, ps, k + 1, st, ct, pos);
            proof {
                lemma_exprs_view_cons(e2, rest@);
            }
            rest.insert(0, e2);
            (r3, rest)
        },
    }
}


pub(crate) fn type_string(t: &str) -> (r: String)
    ensures
        r@ == t@,
{
    String::from_str(t)
}

/// Checks `new C(..)`.
#[verifier::loop_isolation(false)]
fn tc_new(c: ConstructorCall, st: &mut SymbolTable<Type>, ct: &ClassTable) -> (res: (Result<String, SemanticError>, ConstructorCall))
    requires
        !tc_stuck(expr_view(Expr::New(c)), old(st).model(), ct.model()),
    ensures
        tc_expr(expr_view(Expr::New(c)), old(st).model(), ct.model()) == (
            result_view(res.0),
            expr_view(Expr::New(res.1)),
            final(st).model(),
        ),
    decreases c, 1int,
{
    let ConstructorCall { class_name, param, position } = c;
    if !ct.classes.contains_key(&class_name) {
        let msg = cat3("There is no class called ", &class_name, "!");
        return (Err(SemanticError::new(msg, None)), ConstructorCall { class_name, param, position });
    }
    match param {
        None => (Ok(class_name.clone()), ConstructorCall { class_name, param: None, position }),
        Some(ps) => {
            let (r, ps2) = tc_types_vec(*ps, st, ct);
            let cn = class_name.clone();
            let c2 = ConstructorCall { class_name, param: Some(Box::new(ps2)), position };
            match r {
                Err(x) => (Err(x), c2),
                Ok(tys) => {
                    assert(ct.model().classes.contains_key(class_name@));
                    assert(ct.model().class_constructors.contains_key(cn@));
                    let decls = ct.class_constructors.get(&cn).unwrap();
                    let ghost ds = decls.deep_view();
                    let ghost tysv = tys@.map_values(|t: String| t@);
                    assert(ds.len() == decls@.len());
                    for i in 0..decls.len()
                        invariant
                            ds == decls.deep_view(),
                            ds.len() == decls@.len(),
                            tysv == tys@.map_values(|t: String| t@),
                            forall|j: int| 0 <= j < i ==> param_types(#[trigger] ds[j].param) != tysv,
                    {
                        let d = &decls[i];
                        let mut types: Vec<String> = Vec::new();
                        for j in 0..d.param.len()
                            invariant
                                types@.len() == j,
                                j <= d.param@.len(),
                                forall|q: int| 0 <= q < j ==> (#[trigger] types@[q])@ == d.param@[q].1@,
                        {
                            types.push(d.param[j].1.clone());
                        }
                        assert(ds[i as int] == decls@[i as int].deep_view());
                        let ghost pt = param_types(ds[i as int].param);
                        assert(pt.len() == types@.len());
                        assert(forall|q: int| 0 <= q < pt.len() ==> #[trigger] pt[q] == types@[q]@);
                        assert(tysv.len() == tys@.len());
                        if do_vecs_match(&tys, &types) {
                            assert forall|q: int| 0 <= q < pt.len() implies pt[q] == tysv[q] by {
                                assert(tys@[q].same(&types@[q]));
                            }
                            assert(pt =~= tysv);
                            assert(ds == ct.model().class_constructors[class_name@]);
                            assert(ctor_accepts(ds, tysv));
                            return (Ok(cn), c2);
                        }
                        assert(pt != tysv) by {
                            if pt == tysv {
                                assert forall|q: int| 0 <= q < tys@.len() implies #[trigger] tys@[q].same(&types@[q]) by {
                                    assert(pt[q] == tysv[q]);
                                }
                            }
                        }
                    }
                    let shown = debug_format(&tys);
                    let mut msg = cat5("class ", &cn, " has no constructor that takes (", &shown, ") as parameters!");
                    (Err(err_at(msg, position)), c2)
                },
            }
        },
    }
}

/// Checks a use of a name: it takes the type bound to it.
fn tc_ident(x: IdentifierSrtuct, st: &mut SymbolTable<Type>, ct: &ClassTable) -> (res: (Result<String, SemanticError>, IdentifierSrtuct))
    requires
        !tc_stuck(expr_view(Expr::Identifier(x)), old(st).model(), ct.model()),
    ensures
        tc_expr(expr_view(Expr::Identifier(x)), old(st).model(), ct.model()) == (
            result_view(res.0),
            expr_view(Expr::Identifier(res.1)),
            final(st).model(),
        ),
{
    match st.find(&x.name) {
        Some(t) => {
            let t1 = t.clone();
            let t2 = t.clone();
            (Ok(t1), IdentifierSrtuct { name: x.name, pos: x.pos, type_: t2 })
        },
        None => {
            let msg = cat3("The identifier ", &x.name, " does not exist or it has gone out of scope!");
            (Err(err_at(msg, x.pos)), x)
        },
    }
}

/// Checks `self`: it has the type bound to `self`, or `Object`.
fn tc_self(x: Self_, st: &mut SymbolTable<Type>, ct: &ClassTable) -> (res: (Result<String, SemanticError>, Self_))
    requires
        !tc_stuck(expr_view(Expr::Self_(x)), old(st).model(), ct.model()),
    ensures
        tc_expr(expr_view(Expr::Self_(x)), old(st).model(), ct.model()) == (
            result_view(res.0),
            expr_view(Expr::Self_(res.1)),
            final(st).model(),
        ),
{
    let key = type_string(SELF);
    match st.find(&key) {
        Some(t) => {
            let t1 = t.clone();
            let t2 = t.clone();
            (Ok(t1), Self_ { type_: t2 })
        },
        None => (Ok(type_string(OBJECT)), x),
    }
}


/// Checks the declarations of a `let`; see `tc_decls`.
fn tc_decls_vec(v: Vec<VarDecl>, st: &mut SymbolTable<Type>, ct: &ClassTable) -> (res: (Option<SemanticError>, Vec<VarDecl>))
    requires
        !decls_stuck(decls_view(v@), old(st).model(), ct.model()),
    ensures
        tc_decls(decls_view(v@), old(st).model(), ct.model()) == (opt_err_view(res.0), decls_view(res.1@), final(st).model()),
    decreases v@, 2int,
{
    let mut v = v;
    if v.len() == 0 {
        return (None, v);
    }
    proof {
        lemma_decls_view_first(v@);
    }
    let ghost v0 = v@;
    let d = v.remove(0);
    assert(v@ == v0.drop_first());
    assert(decreases_to!(v0 => d));
    let ghost dv = var_decl_view(d);
    proof {
        assert(decls_view(v0)[0] == dv);
        assert(decls_view(v0).drop_first() =~= decls_view(v@));
    }
    let VarDecl { name, type_, init, position, ownership } = d;
    match *init {
        Some(ie) => {
            assert(decreases_to!(d => ie));
            let (r, i2) = tc_owned(ie, st, ct);
            match r {
                Err(x) => {
                    let d2 = VarDecl { name, type_, init: Box::new(Some(i2)), position, ownership };
                    proof {
                        lemma_decls_cons(d2, v@);
                    }
                    v.insert(0, d2);
                    (Some(x), v)
                },
                Ok(t) => match type_ {
                    Some(dt) => {
                        if ct.is_less_or_equal(&t, &dt) {
                            st.add(&name, &dt);
                            let d2 = VarDecl { name, type_: Some(dt), init: Box::new(Some(i2)), position, ownership };
                            let (r3, mut rest) = tc_decls_vec(v, st, ct);
                            proof {
                                lemma_decls_cons(d2, rest@);
                            }
                            rest.insert(0, d2);
                            (r3, rest)
                        } else {
                            let d2 = VarDecl { name, type_: Some(dt), init: Box::new(Some(i2)), position, ownership };
                            proof {
                                lemma_decls_cons(d2, v@);
                            }
                            v.insert(0, d2);
                            let msg = String::from_str("The type of your let expression init is inconsistent with the declared type!");
                            (Some(err_at(msg, position)), v)
                        }
                    },
                    None => {
                        st.add(&name, &t);
                        let d3 = VarDecl { name, type_: Some(t), init: Box::new(Some(i2)), position, ownership };
                        let (r3, mut rest) = tc_decls_vec(v, st, ct);
                        proof {
                            lemma_decls_cons(d3, rest@);
                        }
                        rest.insert(0, d3);
                        (r3, rest)
                    },
                },
            }
        },
        None => {
            match &type_ {
                Some(dt) => {
                    st.add(&name, dt);
                },
                None => {},
            }
            let d2 = VarDecl { name, type_, init: Box::new(None), position, ownership };
            let (r3, mut rest) = tc_decls_vec(v, st, ct);
            proof {
                lemma_decls_cons(d2, rest@);
            }
            rest.insert(0, d2);
            (r3, rest)
        },
    }
}

pub proof fn lemma_decls_cons(d: VarDecl, s: Seq<VarDecl>)
    ensures
        decls_view(s.insert(0, d)) == seq![var_decl_view(d)] + decls_view(s),
{
    lemma_decls_view_first(s.insert(0, d));
    assert(s.insert(0, d).drop_first() =~= s);
}

/// Checks a `let`.
fn tc_let(l: Let, st: &mut SymbolTable<Type>, ct: &ClassTable) -> (res: (Result<String, SemanticError>, Let))
    requires
        !tc_stuck(expr_view(Expr::Let(l)), old(st).model(), ct.model()),
    ensures
        tc_expr(expr_view(Expr::Let(l)), old(st).model(), ct.model()) == (
            result_view(res.0),
            expr_view(Expr::Let(res.1)),
            final(st).model(),
        ),
    decreases l, 1int,
{
    let (r, ds) = tc_decls_vec(*l.var_decls, st, ct);
    let l2 = Let { var_decls: Box::new(ds) };
    match r {
        Some(x) => (Err(x), l2),
        None => (Ok(type_string(OBJECT)), l2),
    }
}

/// Checks an assignment.
fn tc_assign(a: Assignment, st: &mut SymbolTable<Type>, ct: &ClassTable) -> (res: (Result<String, SemanticError>, Assignment))
    requires
        !tc_stuck(expr_view(Expr::Assignment(a)), old(st).model(), ct.model()),
    ensures
        tc_expr(expr_view(Expr::Assignment(a)), old(st).model(), ct.model()) == (
            result_view(res.0),
            expr_view(Expr::Assignment(res.1)),
            final(st).model(),
        ),
    decreases a, 1int,
{
    let Assignment { id, compute, position } = a;
    let (r, c2) = tc_owned(*compute, st, ct);
    let res = match st.find(&id) {
        Some(idt) => {
            match &r {
                Ok(t) => {
                    if ct.is_less_or_equal(idt, t) {
                        Ok(idt.clone())
                    } else {
                        Err(err_at(String::from_str("Some semantic errors occurred in your Assignment!"), position))
                    }
                },
                Err(_) => Err(err_at(String::from_str("Some semantic errors occurred in your Assignment!"), position)),
            }
        },
        None => Err(err_at(String::from_str("Some semantic errors occurred in your Assignment!"), position)),
    };
    (res, Assignment { id, compute: Box::new(c2), position })
}

/// The first method named `name` in the chain; see `method_in_chain`.
#[verifier::loop_isolation(false)]
fn find_method(chain: &Vec<Class>, name: &String) -> (r: Option<(usize, usize)>)
    ensures
        match r {
            None => method_in_chain(chain.deep_view(), 0, name@) is None,
            Some((ci, fi)) => {
                &&& ci < chain@.len()
                &&& fi < chain@[ci as int].features@.len()
                &&& chain@[ci as int].features@[fi as int] is Method
                &&& method_in_chain(chain.deep_view(), 0, name@) == Some(
                    (
                        chain@[ci as int].name@,
                        feature_view(chain@[ci as int].features@[fi as int])->Method_0,
                    ),
                )
            },
        },
{
    let ghost cv = chain.deep_view();
    assert(cv.len() == chain@.len());
    for ci in 0..chain.len()
        invariant
            cv == chain.deep_view(),
            cv.len() == chain@.len(),
            method_in_chain(cv, 0, name@) == method_in_chain(cv, ci as int, name@),
    {
        let fs = &chain[ci].features;
        let ghost fv = cv[ci as int].features;
        assert(cv[ci as int] == class_view(chain@[ci as int]));
        assert(fv == features_view(fs@));
        for fi in 0..fs.len()
            invariant
                ci < chain@.len(),
                cv.len() == chain@.len(),
                fs@ == chain@[ci as int].features@,
                cv[ci as int] == class_view(chain@[ci as int]),
                fv == features_view(fs@),
                fv == cv[ci as int].features,
                method_in_chain(cv, 0, name@) == method_in_chain(cv, ci as int, name@),
                method_in(fv, 0, name@) == method_in(fv, fi as int, name@),
        {
            assert(fv[fi as int] == feature_view(fs@[fi as int]));
            if let Feature::Method(m) = &fs[fi] {
                if m.name == *name {
                    assert(fs@[fi as int] == Feature::Method(*m));
                    assert(method_in(fv, fi as int, name@) == Some(fv[fi as int]->Method_0));
                    assert(method_in_chain(cv, ci as int, name@) == Some((cv[ci as int].name, fv[fi as int]->Method_0)));
                    assert(cv[ci as int].name == chain@[ci as int].name@);
                    return Some((ci, fi));
                }
            }
        }
        assert(method_in(fv, fs@.len() as int, name@) is None);
    }
    None
}

/// The first attribute named `name` in the chain; see `attr_in_chain`.
#[verifier::loop_isolation(false)]
fn find_attr(chain: &Vec<Class>, name: &String) -> (r: Option<(usize, usize)>)
    ensures
        match r {
            None => attr_in_chain(chain.deep_view(), 0, name@) is None,
            Some((ci, fi)) => {
                &&& ci < chain@.len()
                &&& fi < chain@[ci as int].features@.len()
                &&& chain@[ci as int].features@[fi as int] is Attribute
                &&& attr_in_chain(chain.deep_view(), 0, name@) == Some(
                    (
                        chain@[ci as int].name@,
                        feature_view(chain@[ci as int].features@[fi as int])->Attribute_0,
                    ),
                )
            },
        },
{
    let ghost cv = chain.deep_view();
    assert(cv.len() == chain@.len());
    for ci in 0..chain.len()
        invariant
            cv == chain.deep_view(),
            cv.len() == chain@.len(),
            attr_in_chain(cv, 0, name@) == attr_in_chain(cv, ci as int, name@),
    {
        let fs = &chain[ci].features;
        let ghost fv = cv[ci as int].features;
        assert(cv[ci as int] == class_view(chain@[ci as int]));
        assert(fv == features_view(fs@));
        for fi in 0..fs.len()
            invariant
                ci < chain@.len(),
                cv.len() == chain@.len(),
                fs@ == chain@[ci as int].features@,
                cv[ci as int] == class_view(chain@[ci as int]),
                fv == features_view(fs@),
                fv == cv[ci as int].features,
                attr_in_chain(cv, 0, name@) == attr_in_chain(cv, ci as int, name@),
                attr_in(fv, 0, name@) == attr_in(fv, fi as int, name@),
        {
            assert(fv[fi as int] == feature_view(fs@[fi as int]));
            if let Feature::Attribute(a) = &fs[fi] {
                if a.name == *name {
                    assert(fs@[fi as int] == Feature::Attribute(*a));
                    assert(attr_in(fv, fi as int, name@) == Some(fv[fi as int]->Attribute_0));
                    assert(attr_in_chain(cv, ci as int, name@) == Some((cv[ci as int].name, fv[fi as int]->Attribute_0)));
                    assert(cv[ci as int].name == chain@[ci as int].name@);
                    return Some((ci, fi));
                }
            }
        }
        assert(attr_in(fv, fs@.len() as int, name@) is None);
    }
    None
}


/// Checks the member of a dispatch once its target is checked; see
/// `tc_member`.
fn tc_member_exec(
    target: Expr,
    expr: DispatchExpr,
    position: Position,
    type_: String,
    tt: String,
    st: &mut SymbolTable<Type>,
    ct: &ClassTable,
) -> (res: (Result<String, SemanticError>, Dispatch))
    requires
        !member_stuck(expr_view(target), dispatch_expr_view(expr), tt@, old(st).model(), ct.model()),
    ensures
        tc_member(expr_view(target), dispatch_expr_view(expr), position, type_@, tt@, old(st).model(), ct.model()) == (
            result_view(res.0),
            expr_view(Expr::Dispatch(res.1)),
            final(st).model(),
        ),
    decreases expr, 1int,
{
    let class_ = match ct.classes.get(&tt) {
        None => {
            return (Ok(type_string(OBJECT)), Dispatch { target: Box::new(target), expr, position, type_ });
        },
        Some(c) => c,
    };
    let cname = &class_.name;
    let chain = match ct.inheritance.get(cname) {
        None => {
            return (Ok(type_string(OBJECT)), Dispatch { target: Box::new(target), expr, position, type_ });
        },
        Some(v) => v,
    };
    let is_self = target.is_self_expr();
    let ghost spec_r = tc_member(expr_view(target), dispatch_expr_view(expr), position, type_@, tt@, st.model(), ct.model());
    proof {
        assert(cname@ == ct.model().classes[tt@].name);
        assert(chain.deep_view() == ct.model().inheritance[cname@]);
    }
    match expr {
        DispatchExpr::Method(mc) => {
            match find_method(chain, &mc.fun_name) {
                None => {
                    let msg = cat3("Class ", cname, " may not have the method or field you want!");
                    let out = (Err(err_at(msg, position)), Dispatch { target: Box::new(target), expr: DispatchExpr::Method(mc), position, type_ });
                    assert(spec_r == (result_view(out.0), expr_view(Expr::Dispatch(out.1)), st.model()));
                    out
                },
                Some((ci, fi)) => {
                    let owner = &chain[ci];
                    let m = match &owner.features[fi] {
                        Feature::Method(m) => m,
                        _ => vstd::pervasive::unreached(),
                    };
                    let ghost mv = feature_view(Feature::Method(*m))->Method_0;
                    proof {
                        assert(chain@[ci as int].features@[fi as int] == Feature::Method(*m));
                        lemma_exprs_view_len(mc.actual@);
                        assert(method_in_chain(ct.model().inheritance[cname@], 0, mc.fun_name@) == Some((owner.name@, mv)));
                        assert(mv.ownership == m.ownership);
                        assert(mv.param == params_view(m.param@));
                        assert(mv.param.len() == m.param@.len());
                        assert(mv.return_type == m.return_type@);
                        assert(mv.name == m.name@);
                    }
                    let private = match m.ownership {
                        Ownership::Private => true,
                        _ => false,
                    };
                    if private && !is_self {
                        let msg = cat5("The method ", &m.name, " in class ", &owner.name, " is private!");
                        return (Err(err_at(msg, position)), Dispatch { target: Box::new(target), expr: DispatchExpr::Method(mc), position, type_ });
                    }
                    if mc.actual.len() != m.param.len() {
                        let msg = String::from_str(
                            "The actual number of parameters of your method call is not equal to the number of declared formal parameters!",
                        );
                        return (Err(err_at(msg, position)), Dispatch { target: Box::new(target), expr: DispatchExpr::Method(mc), position, type_ });
                    }
                    let MethodCall { fun_name, actual } = mc;
                    assert(params_view(m.param@).skip(0) =~= params_view(m.param@));
                    let ghost st0 = st.model();
                    let ghost av = exprs_view(actual@);
                    assert(!(mv.ownership == Ownership::Private && !(expr_view(target) is Self_)));
                    assert(av.len() == mv.param.len());
                    assert(spec_r == {
                        let (r, acts, st2) = tc_args(av, mv.param, st0, ct.model(), position);
                        match r {
                            Some(x) => (
                                Err(x),
                                ExprM::Dispatch {
                                    target: Box::new(expr_view(target)),
                                    expr: DispatchExprM::Method { fun_name: fun_name@, actual: acts },
                                    position,
                                    type_: type_@,
                                },
                                st2,
                            ),
                            None => (
                                Ok(mv.return_type),
                                ExprM::Dispatch {
                                    target: Box::new(expr_view(target)),
                                    expr: DispatchExprM::Method { fun_name: fun_name@, actual: acts },
                                    position,
                                    type_: mv.return_type,
                                },
                                st2,
                            ),
                        }
                    });
                    let (r, acts) = tc_args_vec(*actual, &m.param, 0, st, ct, position);
                    assert(tc_args(av, mv.param, st0, ct.model(), position) == (opt_err_view(r), exprs_view(acts@), st.model()));
                    match r {
                        Some(x) => {
                            let out = (
                                Err(x),
                                Dispatch {
                                    target: Box::new(target),
                                    expr: DispatchExpr::Method(MethodCall { fun_name, actual: Box::new(acts) }),
                                    position,
                                    type_,
                                },
                            );
                            assert(result_view(out.0) == Err::<Seq<char>, ErrM>(err_view(x)));
                            assert(dispatch_expr_view(out.1.expr) == DispatchExprM::Method { fun_name: fun_name@, actual: exprs_view(acts@) });
                            assert(expr_view(*out.1.target) == expr_view(target));
                            assert(out.1.type_@ == type_@);
                            assert(out.1.position == position);
                            assert(spec_r == (result_view(out.0), expr_view(Expr::Dispatch(out.1)), st.model()));
                            out
                        },
                        None => {
                            let out = (
                                Ok(m.return_type.clone()),
                                Dispatch {
                                    target: Box::new(target),
                                    expr: DispatchExpr::Method(MethodCall { fun_name, actual: Box::new(acts) }),
                                    position,
                                    type_: m.return_type.clone(),
                                },
                            );
                            assert(result_view(out.0) == Ok::<Seq<char>, ErrM>(mv.return_type));
                            assert(dispatch_expr_view(out.1.expr) == DispatchExprM::Method { fun_name: fun_name@, actual: exprs_view(acts@) });
                            assert(expr_view(*out.1.target) == expr_view(target));
                            assert(out.1.type_@ == mv.return_type);
                            assert(spec_r == (result_view(out.0), expr_view(Expr::Dispatch(out.1)), st.model()));
                            out
                        },
                    }
                },
            }
        },
        DispatchExpr::Field(f) => {
            match find_attr(chain, &f) {
                None => {
                    let msg = cat3("Class ", cname, " may not have the method or field you want!");
                    let out = (Err(err_at(msg, position)), Dispatch { target: Box::new(target), expr: DispatchExpr::Field(f), position, type_ });
                    assert(spec_r == (result_view(out.0), expr_view(Expr::Dispatch(out.1)), st.model()));
                    out
                },
                Some((ci, fi)) => {
                    let owner = &chain[ci];
                    let a = match &owner.features[fi] {
                        Feature::Attribute(a) => a,
                        _ => vstd::pervasive::unreached(),
                    };
                    let ghost av = var_decl_view(*a);
                    proof {
                        let cv = ct.model().inheritance[cname@];
                        assert(chain@[ci as int].features@[fi as int] == Feature::Attribute(*a));
                        assert(cv[ci as int].features[fi as int] == feature_view(chain@[ci as int].features@[fi as int]));
                        assert(attr_in_chain(cv, 0, f@) == Some((owner.name@, av)));
                        assert(av.ownership == a.ownership);
                    }
                    let public = match a.ownership {
                        Ownership::Public => true,
                        _ => false,
                    };
                    if public || is_self {
                        proof {
                            assert(av.type_ is Some);
                            assert(a.type_ is Some);
                            assert(av.type_->Some_0 == a.type_->Some_0@);
                        }
                        let t = a.type_.as_ref().unwrap().clone();
                        let t2 = a.type_.as_ref().unwrap().clone();
                        let out = (Ok(t), Dispatch { target: Box::new(target), expr: DispatchExpr::Field(f), position, type_: t2 });
                        assert(spec_r == (result_view(out.0), expr_view(Expr::Dispatch(out.1)), st.model()));
                        out
                    } else {
                        let msg = cat5("The field ", &f, " in class ", &owner.name, " is private!");
                        let out = (Err(err_at(msg, position)), Dispatch { target: Box::new(target), expr: DispatchExpr::Field(f), position, type_ });
                        assert(spec_r == (result_view(out.0), expr_view(Expr::Dispatch(out.1)), st.model()));
                        out
                    }
                },
            }
        },
    }
}

/// Checks a dispatch `target.member`.
fn tc_dispatch(d: Dispatch, st: &mut SymbolTable<Type>, ct: &ClassTable) -> (res: (Result<String, SemanticError>, Dispatch))
    requires
        !tc_stuck(expr_view(Expr::Dispatch(d)), old(st).model(), ct.model()),
    ensures
        tc_expr(expr_view(Expr::Dispatch(d)), old(st).model(), ct.model()) == (
            result_view(res.0),
            expr_view(Expr::Dispatch(res.1)),
            final(st).model(),
        ),
    decreases d, 1int,
{
    let Dispatch { target, expr, position, type_ } = d;
    let (rt, t2) = tc_owned(*target, st, ct);
    match rt {
        Err(x) => (Err(x), Dispatch { target: Box::new(t2), expr, position, type_ }),
        Ok(tt) => tc_member_exec(t2, expr, position, type_, tt, st, ct),
    }
}

/// Checks an arithmetic or comparison expression.
fn tc_math(m: Math, st: &mut SymbolTable<Type>, ct: &ClassTable) -> (res: (Result<String, SemanticError>, Math))
    requires
        !tc_stuck(expr_view(Expr::Math(m)), old(st).model(), ct.model()),
    ensures
        tc_expr(expr_view(Expr::Math(m)), old(st).model(), ct.model()) == (
            result_view(res.0),
            expr_view(Expr::Math(res.1)),
            final(st).model(),
        ),
    decreases m, 1int,
{
    let Math { left, op, right, type_ } = m;
    let (rl, l2) = tc_owned(*left, st, ct);
    let (rr, r2) = tc_owned(*right, st, ct);
    match (rl, rr) {
        (Err(x), _) => (Err(x), Math { left: Box::new(l2), op, right: Box::new(r2), type_ }),
        (Ok(_), Err(x)) => (Err(x), Math { left: Box::new(l2), op, right: Box::new(r2), type_ }),
        (Ok(lt), Ok(rt)) => {
            let int_s = type_string(INT);
            let str_s = type_string(STRING);
            if lt == int_s && rt == int_s {
                match *op {
                    MathOp::ComputeOp(_) => (Ok(type_string(INT)), Math { left: Box::new(l2), op, right: Box::new(r2), type_: type_string(INT) }),
                    MathOp::CondOp(_) => (Ok(type_string(BOOL)), Math { left: Box::new(l2), op, right: Box::new(r2), type_: type_string(BOOL) }),
                }
            } else if lt == str_s && rt == str_s {
                match *op {
                    MathOp::ComputeOp(ComputeOp::Add) => (Ok(type_string(STRING)), Math { left: Box::new(l2), op, right: Box::new(r2), type_: type_string(STRING) }),
                    MathOp::ComputeOp(_) => (
                        Err(SemanticError::new(String::from_str("String cannot be used for mathematical operations other than addition"), None)),
                        Math { left: Box::new(l2), op, right: Box::new(r2), type_ },
                    ),
                    MathOp::CondOp(_) => (
                        Err(SemanticError::new(String::from_str("String cannot be used in conditional operations"), None)),
                        Math { left: Box::new(l2), op, right: Box::new(r2), type_ },
                    ),
                }
            } else {
                (
                    Err(SemanticError::new(String::from_str("The left and right sides of your mathematical operation are not all INT types!"), None)),
                    Math { left: Box::new(l2), op, right: Box::new(r2), type_ },
                )
            }
        },
    }
}

/// Checks an `if`.
fn tc_cond(c: Cond, st: &mut SymbolTable<Type>, ct: &ClassTable) -> (res: (Result<String, SemanticError>, Cond))
    requires
        !tc_stuck(expr_view(Expr::Cond(c)), old(st).model(), ct.model()),
    ensures
        tc_expr(expr_view(Expr::Cond(c)), old(st).model(), ct.model()) == (
            result_view(res.0),
            expr_view(Expr::Cond(res.1)),
            final(st).model(),
        ),
    decreases c, 1int,
{
    let Cond { test, then_body, else_body, position } = c;
    st.enter_scope();
    let (rt, t2) = tc_owned(*test, st, ct);
    match rt {
        Err(x) => (Err(x), Cond { test: Box::new(t2), then_body, else_body, position }),
        Ok(t) => {
            if !(t == type_string(BOOL)) {
                return (Err(err_at(String::from_str("The type in your If condition is not BOOL"), position)), Cond { test: Box::new(t2), then_body, else_body, position });
            }
            let (r1, tb2) = tc_vec(*then_body, st, ct);
            match r1 {
                Some(x) => (Err(x), Cond { test: Box::new(t2), then_body: Box::new(tb2), else_body, position }),
                None => {
                    let (r2, eb2) = tc_vec(*else_body, st, ct);
                    match r2 {
                        Some(x) => (Err(x), Cond { test: Box::new(t2), then_body: Box::new(tb2), else_body: Box::new(eb2), position }),
                        None => {
                            st.exit_scope();
                            (Ok(type_string(OBJECT)), Cond { test: Box::new(t2), then_body: Box::new(tb2), else_body: Box::new(eb2), position })
                        },
                    }
                },
            }
        },
    }
}

/// Checks a `while`.
fn tc_while(w: While, st: &mut SymbolTable<Type>, ct: &ClassTable) -> (res: (Result<String, SemanticError>, While))
    requires
        !tc_stuck(expr_view(Expr::While(w)), old(st).model(), ct.model()),
    ensures
        tc_expr(expr_view(Expr::While(w)), old(st).model(), ct.model()) == (
            result_view(res.0),
            expr_view(Expr::While(res.1)),
            final(st).model(),
        ),
    decreases w, 1int,
{
    let While { test, body, position } = w;
    st.enter_scope();
    let (rt, t2) = tc_owned(*test, st, ct);
    match rt {
        Err(x) => (Err(x), While { test: Box::new(t2), body, position }),
        Ok(t) => {
            if !(t == type_string(BOOL)) {
                return (Err(err_at(String::from_str("The type in your Loop condition is not BOOL"), position)), While { test: Box::new(t2), body, position });
            }
            let (r1, b2) = tc_vec(*body, st, ct);
            match r1 {
                Some(x) => (Err(x), While { test: Box::new(t2), body: Box::new(b2), position }),
                None => {
                    st.exit_scope();
                    (Ok(type_string(OBJECT)), While { test: Box::new(t2), body: Box::new(b2), position })
                },
            }
        },
    }
}

/// Checks a `return`: it has the type of its value, or `Void`.
fn tc_return(r: Return, st: &mut SymbolTable<Type>, ct: &ClassTable) -> (res: (Result<String, SemanticError>, Return))
    requires
        !tc_stuck(expr_view(Expr::Return(r)), old(st).model(), ct.model()),
    ensures
        tc_expr(expr_view(Expr::Return(r)), old(st).model(), ct.model()) == (
            result_view(res.0),
            expr_view(Expr::Return(res.1)),
            final(st).model(),
        ),
    decreases r, 1int,
{
    let Return { val, position } = r;
    match val {
        None => (Ok(type_string(VOID)), Return { val: None, position }),
        Some(v) => {
            let (x, v2) = tc_owned(*v, st, ct);
            (x, Return { val: Some(Box::new(v2)), position })
        },
    }
}

/// Checks a negation: its operand must be a `Bool`.
fn tc_not(n: Not, st: &mut SymbolTable<Type>, ct: &ClassTable) -> (res: (Result<String, SemanticError>, Not))
    requires
        !tc_stuck(expr_view(Expr::Not(n)), old(st).model(), ct.model()),
    ensures
        tc_expr(expr_view(Expr::Not(n)), old(st).model(), ct.model()) == (
            result_view(res.0),
            expr_view(Expr::Not(res.1)),
            final(st).model(),
        ),
    decreases n, 1int,
{
    let Not { expr, position } = n;
    let (r, x2) = tc_owned(*expr, st, ct);
    let n2 = Not { expr: Box::new(x2), position };
    match r {
        Err(x) => (Err(x), n2),
        Ok(t) => {
            if !(t == type_string(BOOL)) {
                (Err(err_at(String::from_str("The type in your Not expression is not BOOL"), position)), n2)
            } else {
                (Ok(t), n2)
            }
        },
    }
}

/// Checks a null test: it is a `Bool`.
fn tc_isnull(n: Isnull, st: &mut SymbolTable<Type>, ct: &ClassTable) -> (res: (Result<String, SemanticError>, Isnull))
    requires
        !tc_stuck(expr_view(Expr::Isnull(n)), old(st).model(), ct.model()),
    ensures
        tc_expr(expr_view(Expr::Isnull(n)), old(st).model(), ct.model()) == (
            result_view(res.0),
            expr_view(Expr::Isnull(res.1)),
            final(st).model(),
        ),
    decreases n, 1int,
{
    let Isnull { expr } = n;
    let (r, x2) = tc_owned(*expr, st, ct);
    let n2 = Isnull { expr: Box::new(x2) };
    match r {
        Err(x) => (Err(x), n2),
        Ok(_) => (Ok(type_string(BOOL)), n2),
    }
}


/// Checks a `for`.
fn tc_for(f: For, st: &mut SymbolTable<Type>, ct: &ClassTable) -> (res: (Result<String, SemanticError>, For))
    requires
        !tc_stuck(expr_view(Expr::For(f)), old(st).model(), ct.model()),
    ensures
        tc_expr(expr_view(Expr::For(f)), old(st).model(), ct.model()) == (
            result_view(res.0),
            expr_view(Expr::For(res.1)),
            final(st).model(),
        ),
    decreases f, 1int,
{
    let For { init, test, iter, body, position } = f;
    st.enter_scope();
    if init.len() > 1 || test.len() > 1 {
        proof {
            lemma_exprs_view_len(init@);
            lemma_exprs_view_len(test@);
        }
        let msg = String::from_str(" There can only be one initial expression and one judgment expression in the for loop!");
        return (Err(err_at(msg, position)), For { init, test, iter, body, position });
    }
    proof {
        lemma_exprs_view_len(init@);
        lemma_exprs_view_len(test@);
    }
    let (r1, init2) = tc_vec(*init, st, ct);
    if let Some(x) = r1 {
        return (Err(x), For { init: Box::new(init2), test, iter, body, position });
    }
    let mut test_v = *test;
    let mut test2: Vec<Expr> = Vec::new();
    let ghost st_t = st.model();
    let ghost tv_all = test_v@;
    if test_v.len() == 1 {
        proof {
            lemma_exprs_view_first(test_v@);
        }
        let ghost tv0 = test_v@;
        let e = test_v.remove(0);
        assert(decreases_to!(tv0 => e));
        proof {
            lemma_exprs_view_len(tv0);
            assert(exprs_view(tv0)[0] == expr_view(e));
        }
        let (r, e2) = tc_owned(e, st, ct);
        test2.push(e2);
        proof {
            lemma_exprs_view_first(test2@);
            assert(test2@.drop_first() =~= Seq::<Expr>::empty());
            assert(exprs_view(test2@) =~= seq![expr_view(e2)]);
        }
        assert(tc_for_test(exprs_view(tv0), st_t, ct.model(), position).1 == exprs_view(test2@));
        assert(tc_for_test(exprs_view(tv0), st_t, ct.model(), position).2 == st.model());
        match r {
            Err(x) => {
                assert(tc_for_test(exprs_view(tv0), st_t, ct.model(), position).0 == Some(err_view(x)));
                return (Err(x), For { init: Box::new(init2), test: Box::new(test2), iter, body, position });
            },
            Ok(t) => {
                if !(t == type_string(BOOL)) {
                    let msg = String::from_str("The type of the conditional expression in the for loop is not BOOL!");
                    return (Err(err_at(msg, position)), For { init: Box::new(init2), test: Box::new(test2), iter, body, position });
                }
            },
        }
    } else {
        test2 = test_v;
    }
    assert(tc_for_test(exprs_view(tv_all), st_t, ct.model(), position) == (
        None::<ErrM>,
        exprs_view(test2@),
        st.model(),
    ));
    let (r3, iter2) = tc_vec(*iter, st, ct);
    if let Some(x) = r3 {
        return (Err(x), For { init: Box::new(init2), test: Box::new(test2), iter: Box::new(iter2), body, position });
    }
    let (r4, body2) = tc_vec(*body, st, ct);
    if let Some(x) = r4 {
        return (Err(x), For { init: Box::new(init2), test: Box::new(test2), iter: Box::new(iter2), body: Box::new(body2), position });
    }
    st.exit_scope();
    (Ok(type_string(OBJECT)), For { init: Box::new(init2), test: Box::new(test2), iter: Box::new(iter2), body: Box::new(body2), position })
}

/// Checks an expression that the checker owns, and hands it back with the
/// types it found written into it; see `tc_expr`.
pub(crate) fn tc_owned(e: Expr, st: &mut SymbolTable<Type>, ct: &ClassTable) -> (res: (Result<String, SemanticError>, Expr))
    requires
        !tc_stuck(expr_view(e), old(st).model(), ct.model()),
    ensures
        tc_expr(expr_view(e), old(st).model(), ct.model()) == (
            result_view(res.0),
            expr_view(res.1),
            final(st).model(),
        ),
    decreases e, 1int,
{
    match e {
        Expr::Bool(b) => (Ok(type_string(BOOL)), Expr::Bool(b)),
        Expr::Str(x) => (Ok(type_string(STRING)), Expr::Str(x)),
        Expr::Int(i) => (Ok(type_string(INT)), Expr::Int(i)),
        Expr::ASM(x) => (Ok(type_string(OBJECT)), Expr::ASM(x)),
        Expr::New(c) => {
            let (r, c2) = tc_new(c, st, ct);
            (r, Expr::New(c2))
        },
        Expr::Identifier(x) => {
            let (r, x2) = tc_ident(x, st, ct);
            (r, Expr::Identifier(x2))
        },
        Expr::Self_(x) => {
            let (r, x2) = tc_self(x, st, ct);
            (r, Expr::Self_(x2))
        },
        Expr::Let(x) => {
            let (r, x2) = tc_let(x, st, ct);
            (r, Expr::Let(x2))
        },
        Expr::Assignment(x) => {
            let (r, x2) = tc_assign(x, st, ct);
            (r, Expr::Assignment(x2))
        },
        Expr::Dispatch(x) => {
            let (r, x2) = tc_dispatch(x, st, ct);
            (r, Expr::Dispatch(x2))
        },
        Expr::Math(x) => {
            let (r, x2) = tc_math(x, st, ct);
            (r, Expr::Math(x2))
        },
        Expr::Cond(x) => {
            let (r, x2) = tc_cond(x, st, ct);
            (r, Expr::Cond(x2))
        },
        Expr::While(x) => {
            let (r, x2) = tc_while(x, st, ct);
            (r, Expr::While(x2))
        },
        Expr::Return(x) => {
            let (r, x2) = tc_return(x, st, ct);
            (r, Expr::Return(x2))
        },
        Expr::Not(x) => {
            let (r, x2) = tc_not(x, st, ct);
            (r, Expr::Not(x2))
        },
        Expr::Isnull(x) => {
            let (r, x2) = tc_isnull(x, st, ct);
            (r, Expr::Isnull(x2))
        },
        Expr::For(x) => {
            let (r, x2) = tc_for(x, st, ct);
            (r, Expr::For(x2))
        },
        other => (Ok(type_string(OBJECT)), other),
    }
}


/// A node of the program whose type can be checked: checking gives its
/// type or the first error, writes the types it finds into the node, and
/// leaves the symbol table as the checking left it; see `tc_expr`.
pub trait TypeChecker: Sized {
    /// The node as an expression.
    spec fn node_view(&self) -> ExprM;

    fn check_type(&mut self, symbol_table: &mut SymbolTable<Type>, class_table: &mut ClassTable) -> (r: Result<Type, SemanticError>)
        requires
            !tc_stuck(old(self).node_view(), old(symbol_table).model(), old(class_table).model()),
        ensures
            tc_expr(old(self).node_view(), old(symbol_table).model(), old(class_table).model()) == (
                result_view(r),
                final(self).node_view(),
                final(symbol_table).model(),
            ),
            *final(class_table) == *old(class_table),
    ;
}

impl TypeChecker for Expr {
    open spec fn node_view(&self) -> ExprM {
        expr_view(*self)
    }

    fn check_type(&mut self, symbol_table: &mut SymbolTable<Type>, class_table: &mut ClassTable) -> (r: Result<Type, SemanticError>) {
        let mut node = Expr::Bool(false);
        std::mem::swap(&mut node, self);
        let (r, node2) = tc_owned(node, symbol_table, class_table);
        *self = node2;
        r
    }
}

impl TypeChecker for Dispatch {
    open spec fn node_view(&self) -> ExprM {
        expr_view(Expr::Dispatch(*self))
    }

    fn check_type(&mut self, symbol_table: &mut SymbolTable<Type>, class_table: &mut ClassTable) -> (r: Result<Type, SemanticError>) {
        let mut node = Dispatch { target: Box::new(Expr::Bool(false)), expr: DispatchExpr::Field(String::new()), position: empty_position(), type_: String::new() };
        std::mem::swap(&mut node, self);
        let (r, node2) = tc_dispatch(node, symbol_table, class_table);
        *self = node2;
        r
    }
}

impl TypeChecker for Let {
    open spec fn node_view(&self) -> ExprM {
        expr_view(Expr::Let(*self))
    }

    fn check_type(&mut self, symbol_table: &mut SymbolTable<Type>, class_table: &mut ClassTable) -> (r: Result<Type, SemanticError>) {
        let mut node = Let { var_decls: Box::new(Vec::new()) };
        std::mem::swap(&mut node, self);
        let (r, node2) = tc_let(node, symbol_table, class_table);
        *self = node2;
        r
    }
}

impl TypeChecker for Assignment {
    open spec fn node_view(&self) -> ExprM {
        expr_view(Expr::Assignment(*self))
    }

    fn check_type(&mut self, symbol_table: &mut SymbolTable<Type>, class_table: &mut ClassTable) -> (r: Result<Type, SemanticError>) {
        let mut node = Assignment { id: String::new(), compute: Box::new(Expr::Bool(false)), position: empty_position() };
        std::mem::swap(&mut node, self);
        let (r, node2) = tc_assign(node, symbol_table, class_table);
        *self = node2;
        r
    }
}

impl TypeChecker for Math {
    open spec fn node_view(&self) -> ExprM {
        expr_view(Expr::Math(*self))
    }

    fn check_type(&mut self, symbol_table: &mut SymbolTable<Type>, class_table: &mut ClassTable) -> (r: Result<Type, SemanticError>) {
        let mut node = Math { left: Box::new(Expr::Bool(false)), op: Box::new(MathOp::ComputeOp(ComputeOp::Add)), right: Box::new(Expr::Bool(false)), type_: String::new() };
        std::mem::swap(&mut node, self);
        let (r, node2) = tc_math(node, symbol_table, class_table);
        *self = node2;
        r
    }
}

impl TypeChecker for Cond {
    open spec fn node_view(&self) -> ExprM {
        expr_view(Expr::Cond(*self))
    }

    fn check_type(&mut self, symbol_table: &mut SymbolTable<Type>, class_table: &mut ClassTable) -> (r: Result<Type, SemanticError>) {
        let mut node = Cond { test: Box::new(Expr::Bool(false)), then_body: Box::new(Vec::new()), else_body: Box::new(Vec::new()), position: empty_position() };
        std::mem::swap(&mut node, self);
        let (r, node2) = tc_cond(node, symbol_table, class_table);
        *self = node2;
        r
    }
}

impl TypeChecker for While {
    open spec fn node_view(&self) -> ExprM {
        expr_view(Expr::While(*self))
    }

    fn check_type(&mut self, symbol_table: &mut SymbolTable<Type>, class_table: &mut ClassTable) -> (r: Result<Type, SemanticError>) {
        let mut node = While { test: Box::new(Expr::Bool(false)), body: Box::new(Vec::new()), position: empty_position() };
        std::mem::swap(&mut node, self);
        let (r, node2) = tc_while(node, symbol_table, class_table);
        *self = node2;
        r
    }
}

impl TypeChecker for Return {
    open spec fn node_view(&self) -> ExprM {
        expr_view(Expr::Return(*self))
    }

    fn check_type(&mut self, symbol_table: &mut SymbolTable<Type>, class_table: &mut ClassTable) -> (r: Result<Type, SemanticError>) {
        let mut node = Return { val: None, position: empty_position() };
        std::mem::swap(&mut node, self);
        let (r, node2) = tc_return(node, symbol_table, class_table);
        *self = node2;
        r
    }
}

impl TypeChecker for Not {
    open spec fn node_view(&self) -> ExprM {
        expr_view(Expr::Not(*self))
    }

    fn check_type(&mut self, symbol_table: &mut SymbolTable<Type>, class_table: &mut ClassTable) -> (r: Result<Type, SemanticError>) {
        let mut node = Not { expr: Box::new(Expr::Bool(false)), position: empty_position() };
        std::mem::swap(&mut node, self);
        let (r, node2) = tc_not(node, symbol_table, class_table);
        *self = node2;
        r
    }
}

impl TypeChecker for Isnull {
    open spec fn node_view(&self) -> ExprM {
        expr_view(Expr::Isnull(*self))
    }

    fn check_type(&mut self, symbol_table: &mut SymbolTable<Type>, class_table: &mut ClassTable) -> (r: Result<Type, SemanticError>) {
        let mut node = Isnull { expr: Box::new(Expr::Bool(false)) };
        std::mem::swap(&mut node, self);
        let (r, node2) = tc_isnull(node, symbol_table, class_table);
        *self = node2;
        r
    }
}

impl TypeChecker for For {
    open spec fn node_view(&self) -> ExprM {
        expr_view(Expr::For(*self))
    }

    fn check_type(&mut self, symbol_table: &mut SymbolTable<Type>, class_table: &mut ClassTable) -> (r: Result<Type, SemanticError>) {
        let mut node = For { init: Box::new(Vec::new()), test: Box::new(Vec::new()), iter: Box::new(Vec::new()), body: Box::new(Vec::new()), position: empty_position() };
        std::mem::swap(&mut node, self);
        let (r, node2) = tc_for(node, symbol_table, class_table);
        *self = node2;
        r
    }
}

/// The type recorded in an expression once it has been checked.
pub open spec fn recorded_type(e: ExprM) -> Seq<char> {
    match e {
        ExprM::Bool(_) => BOOL@,
        ExprM::Str(_) => STRING@,
        ExprM::Int(_) => INT@,
        ExprM::New { class_name, .. } => class_name,
        ExprM::Identifier { type_, .. } => type_,
        ExprM::Dispatch { type_, .. } => type_,
        ExprM::Self_ { type_ } => type_,
        ExprM::Math { type_, .. } => type_,
        _ => OBJECT@,
    }
}

/// A node that knows the type recorded in it.
pub trait TypeGet {
    spec fn recorded(&self) -> Seq<char>;

    fn get_type(&self) -> (r: Type)
        ensures
            r@ == self.recorded(),
    ;
}

impl TypeGet for Expr {
    open spec fn recorded(&self) -> Seq<char> {
        recorded_type(self@)
    }

    fn get_type(&self) -> (r: Type) {
        match self {
            Expr::Bool(_) => type_string(BOOL),
            Expr::Str(_) => type_string(STRING),
            Expr::Int(_) => type_string(INT),
            Expr::New(c) => c.class_name.clone(),
            Expr::Identifier(e) => e.type_.clone(),
            Expr::Dispatch(e) => e.type_.clone(),
            Expr::Self_(e) => e.type_.clone(),
            Expr::Math(e) => e.type_.clone(),
            _ => type_string(OBJECT),
        }
    }
}

} // verus!
