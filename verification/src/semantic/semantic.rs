use vstd::prelude::*;

use super::rules::{
    check_ready, checked_table, class_stuck, classes_stuck, ctor_body_stuck, feature_stuck, features_stuck,
    method_body_stuck, lemma_base_not_stuck, collect_ctors, ctor_list, enter_classes, first_same, has_main_class, has_main_method, inherit_classes,
    override_chain, override_classes, override_feature, override_features, walk, walk_ends, walk_ok, walk_result,
    with_object, walks_end, lemma_enter_classes, lemma_collect_ctors, lemma_inherit_typed, check_classes, check_class,
    check_features, check_feature, check_method_body, check_ctor_body, bind_params, bind_attrs, bind_chain, semantic_check,
    attrs_typed, in_file, walks_within, lemma_walks_within, check_ready_base, later_phases_pass,
};
use super::type_checker::{cat3, cat5, opt_err_view, tc_owned, tc_ready, type_string, Scopes};
use crate::lexer::Position;
use crate::parser::ast::class::{
    class_view, feature_view, features_view, lemma_params_match_view, ClassM, Class, ConstructorDecl,
    ConstructorDeclM, Feature, FeatureM,
};
use crate::parser::ast::{opt_string_view, params_view, ParamDecl, Type};
use crate::parser::ast::class::{MethodDecl, MethodDeclM, VarDecl};
use crate::parser::ast::expr::{expr_view, exprs_view, lemma_exprs_view_index, lemma_exprs_view_len, lemma_exprs_view_update, Expr};
use crate::utils::table::{lemma_entries_map_from, ClassTable, ClassTableM, StrMap, SymbolTable};
use crate::ctx::CompileContext;
use crate::SELF;
use crate::utils::util::do_vecs_match;
use crate::OBJECT;

verus! {

/// A semantic error: what is wrong, where, and in which file.
#[derive(Debug)]
pub struct SemanticError {
    pub err_msg: String,
    pub position: Option<Position>,
    pub file_name: String,
}

/// A semantic error as plain text.
pub ghost struct ErrM {
    pub msg: Seq<char>,
    pub position: Option<Position>,
    pub file: Seq<char>,
}

pub open spec fn err_view(e: SemanticError) -> ErrM {
    ErrM { msg: e.err_msg@, position: e.position, file: e.file_name@ }
}

/// An error found inside an expression: it does not know its file yet.
pub open spec fn expr_err(msg: Seq<char>, position: Option<Position>) -> ErrM {
    ErrM { msg, position, file: Seq::empty() }
}

impl SemanticError {
    pub fn new(err_msg_: String, position_: Option<Position>) -> (e: SemanticError)
        ensures
            err_view(e) == expr_err(err_msg_@, position_),
    {
        SemanticError { err_msg: err_msg_, position: position_, file_name: String::new() }
    }
}


/// Enters the classes into the table; see `enter_classes`.  It also tells
/// whether some class is `Main`, and whether one such has a method `main`.
#[verifier::loop_isolation(false)]
fn enter_phase(cs: &Vec<Class>, table: &mut StrMap<Class>) -> (r: (Option<SemanticError>, bool, bool))
    ensures
        enter_classes(cs.deep_view(), 0, old(table).map()) == (opt_err_view(r.0), final(table).map()),
        r.0 is None ==> r.1 == has_main_class(cs.deep_view()) && r.2 == has_main_method(cs.deep_view()),
{
    let ghost csv = cs.deep_view();
    let ghost t0 = table.map();
    let main_name = type_string("Main");
    let main_method = type_string("main");
    let mut main_flag = false;
    let mut main_method_flag = false;
    assert(csv.len() == cs@.len());
    for i in 0..cs.len()
        invariant
            enter_classes(csv, 0, t0) == enter_classes(csv, i as int, table.map()),
            main_flag == exists|k: int| 0 <= k < i && (#[trigger] csv[k]).name == "Main"@,
            main_method_flag == exists|k: int, j: int|
                0 <= k < i && (#[trigger] csv[k]).name == "Main"@ && 0 <= j < csv[k].features.len()
                    && #[trigger] csv[k].features[j] is Method && csv[k].features[j]->Method_0.name == "main"@,
    {
        let c = &cs[i];
        assert(csv[i as int] == class_view(*c));
        let ghost cv = csv[i as int];
        if c.name == main_name {
            main_flag = true;
            for j in 0..c.features.len()
                invariant
                    main_method_flag == exists|k: int, jj: int|
                        0 <= k < i + 1 && (#[trigger] csv[k]).name == "Main"@ && 0 <= jj < csv[k].features.len()
                            && #[trigger] csv[k].features[jj] is Method && csv[k].features[jj]->Method_0.name
                            == "main"@ && (k < i || jj < j),
            {
                assert(cv.features[j as int] == feature_view(c.features@[j as int]));
                if let Feature::Method(m) = &c.features[j] {
                    if m.name == main_method {
                        main_method_flag = true;
                    }
                }
            }
        } else {
            assert forall|k: int, jj: int|
                0 <= k < i + 1 && (#[trigger] csv[k]).name == "Main"@ && 0 <= jj < csv[k].features.len()
                    && #[trigger] csv[k].features[jj] is Method && csv[k].features[jj]->Method_0.name == "main"@
                implies k < i by {}
        }
        if table.contains_key(&c.name) {
            let e = SemanticError {
                err_msg: cat3("Class ", &c.name, " has been redefined!"),
                position: Some(c.position),
                file_name: c.file_name.clone(),
            };
            return (Some(e), main_flag, main_method_flag);
        }
        table.insert(c.name.clone(), c.clone_class());
    }
    (None, main_flag, main_method_flag)
}

/// The chain of classes that `c` inherits from, ending with `c`; see
/// `walk_result`.
#[verifier::loop_isolation(false)]
fn walk_chain(c: &Class, classes: &StrMap<Class>) -> (r: Result<Vec<Class>, SemanticError>)
    requires
        walk_ends(classes.map(), class_view(*c)),
    ensures
        walk_result(classes.map(), class_view(*c)) == Some(
            match r {
                Ok(v) => Ok(v.deep_view()),
                Err(e) => Err(err_view(e)),
            },
        ),
{
    let ghost t = classes.map();
    let ghost cv = class_view(*c);
    let ghost n: nat = choose|n: nat| (#[trigger] walk(t, cv, cv.parent, seq![cv], n)) is Some;
    let mut inherit_vec: Vec<Class> = Vec::new();
    inherit_vec.insert(0, c.clone_class());
    assert(inherit_vec.deep_view() =~= seq![cv]);
    let mut curr_parent: Option<String> = match &c.parent {
        Some(p) => Some(p.clone()),
        None => None,
    };
    let none_name = type_string("None");
    let ghost mut fuel: nat = n;
    loop
        invariant
            walk(t, cv, opt_string_view(curr_parent), inherit_vec.deep_view(), fuel) == walk_result(t, cv),
            walk_result(t, cv) is Some,
        decreases fuel,
    {
        let next = match &curr_parent {
            None => {
                return Ok(inherit_vec);
            },
            Some(parent_name) => {
                if *parent_name == none_name {
                    return Ok(inherit_vec);
                } else if *parent_name == c.name {
                    let e = SemanticError {
                        err_msg: cat3("There is an inheritance cycle about Class ", parent_name, "!"),
                        position: Some(c.position),
                        file_name: c.file_name.clone(),
                    };
                    return Err(e);
                } else {
                    match classes.get(parent_name) {
                        Some(pc) => {
                            let ghost old_v = inherit_vec.deep_view();
                            inherit_vec.insert(0, pc.clone_class());
                            assert(inherit_vec.deep_view() =~= seq![t[parent_name@]] + old_v);
                            match &pc.parent {
                                Some(p) => Some(p.clone()),
                                None => None,
                            }
                        },
                        None => {
                            let e = SemanticError {
                                err_msg: cat5("Your Class ", &c.name, " inherits an undefined Class ", parent_name, " !"),
                                position: Some(c.position),
                                file_name: c.file_name.clone(),
                            };
                            return Err(e);
                        },
                    }
                }
            },
        };
        curr_parent = next;
        proof {
            fuel = (fuel - 1) as nat;
        }
    }
}

/// Records the inheritance chain of each class; see `inherit_classes`.
#[verifier::loop_isolation(false)]
fn inherit_phase(cs: &Vec<Class>, ct: &mut ClassTable) -> (r: Option<SemanticError>)
    requires
        walks_end(cs.deep_view(), old(ct).classes.map()),
    ensures
        inherit_classes(cs.deep_view(), 0, old(ct).classes.map(), old(ct).inheritance.map()) == (
            opt_err_view(r),
            final(ct).inheritance.map(),
        ),
        final(ct).classes == old(ct).classes,
        final(ct).class_constructors == old(ct).class_constructors,
{
    let ghost csv = cs.deep_view();
    let ghost t = ct.classes.map();
    let ghost inh0 = ct.inheritance.map();
    let object_name = type_string(OBJECT);
    assert(csv.len() == cs@.len());
    for i in 0..cs.len()
        invariant
            t == ct.classes.map(),
            ct.classes == old(ct).classes,
            ct.class_constructors == old(ct).class_constructors,
            inherit_classes(csv, 0, t, inh0) == inherit_classes(csv, i as int, t, ct.inheritance.map()),
            forall|j: int| 0 <= j < i ==> walk_ok(t, #[trigger] csv[j]),
    {
        let c = &cs[i];
        assert(csv[i as int] == class_view(*c));
        assert(walk_ends(t, csv[i as int]));
        match walk_chain(c, &ct.classes) {
            Err(e) => {
                return Some(e);
            },
            Ok(mut chain) => {
                let ghost ch = chain.deep_view();
                if let Some(o) = ct.classes.get(&object_name) {
                    chain.insert(0, o.clone_class());
                    assert(chain.deep_view() =~= seq![t[OBJECT@]] + ch);
                }
                assert(chain.deep_view() == with_object(t, ch));
                ct.inheritance.insert(c.name.clone(), chain);
            },
        }
    }
    None
}

/// The constructors of a class, in order; see `ctor_list`.
#[verifier::loop_isolation(false)]
fn class_ctors(c: &Class) -> (r: Result<Vec<ConstructorDecl>, SemanticError>)
    ensures
        ctor_list(class_view(*c), 0, Seq::empty()) == match r {
            Ok(v) => Ok(v.deep_view()),
            Err(e) => Err(err_view(e)),
        },
{
    let ghost cv = class_view(*c);
    let mut ctors: Vec<ConstructorDecl> = Vec::new();
    assert(ctors.deep_view() =~= Seq::<ConstructorDeclM>::empty());
    for j in 0..c.features.len()
        invariant
            ctor_list(cv, 0, Seq::empty()) == ctor_list(cv, j as int, ctors.deep_view()),
    {
        assert(cv.features[j as int] == feature_view(c.features@[j as int]));
        if let Feature::Constructor(d) = &c.features[j] {
            let ghost dv = d.deep_view();
            let ghost accv = ctors.deep_view();
            let mut found = false;
            for k in 0..ctors.len()
                invariant
                    accv == ctors.deep_view(),
                    found == exists|q: int| 0 <= q < k && (#[trigger] accv[q]).param == dv.param,
            {
                let same = do_vecs_match(&*ctors[k].param, &*d.param);
                proof {
                    lemma_params_match_view(ctors@[k as int].param@, d.param@);
                    assert(accv[k as int] == ctors@[k as int].deep_view());
                }
                if same {
                    found = true;
                }
            }
            if found {
                let e = SemanticError {
                    err_msg: type_string("The parameter declaration for this constructor method duplicates"),
                    position: Some(d.position),
                    file_name: c.file_name.clone(),
                };
                return Err(e);
            }
            ctors.push(d.clone_constructor());
            assert(ctors.deep_view() =~= accv.push(dv));
        }
    }
    Ok(ctors)
}

/// Records the constructors of each class; see `collect_ctors`.
#[verifier::loop_isolation(false)]
fn ctor_phase(cs: &Vec<Class>, ct: &mut ClassTable) -> (r: Option<SemanticError>)
    ensures
        collect_ctors(cs.deep_view(), 0, old(ct).class_constructors.map()) == (
            opt_err_view(r),
            final(ct).class_constructors.map(),
        ),
        final(ct).classes == old(ct).classes,
        final(ct).inheritance == old(ct).inheritance,
{
    let ghost csv = cs.deep_view();
    let ghost m0 = ct.class_constructors.map();
    assert(csv.len() == cs@.len());
    for i in 0..cs.len()
        invariant
            ct.classes == old(ct).classes,
            ct.inheritance == old(ct).inheritance,
            collect_ctors(csv, 0, m0) == collect_ctors(csv, i as int, ct.class_constructors.map()),
    {
        let c = &cs[i];
        assert(csv[i as int] == class_view(*c));
        match class_ctors(c) {
            Err(e) => {
                return Some(e);
            },
            Ok(v) => {
                ct.class_constructors.insert(c.name.clone(), v);
            },
        }
    }
    None
}

/// The index of the first feature that is the same feature as `f`; see
/// `first_same`.
#[verifier::loop_isolation(false)]
fn find_same(fs: &Vec<Feature>, f: &Feature) -> (r: Option<usize>)
    ensures
        match r {
            Some(i) => i < fs@.len() && first_same(features_view(fs@), f@, 0) == Some(i as int),
            None => first_same(features_view(fs@), f@, 0) is None,
        },
{
    let ghost fv = features_view(fs@);
    for k in 0..fs.len()
        invariant
            first_same(fv, f@, 0) == first_same(fv, f@, k as int),
    {
        assert(fv[k as int] == fs@[k as int]@);
        if fs[k] == *f {
            return Some(k);
        }
    }
    None
}

/// One feature `f` of class `p`, held against class `c`; see
/// `override_feature`.
fn override_one(c: &Class, p: &Class, f: &Feature) -> (r: Option<SemanticError>)
    ensures
        opt_err_view(r) == override_feature(class_view(*c), class_view(*p), f@),
{
    let ghost cv = class_view(*c);
    match f {
        Feature::Method(m) => {
            match find_same(&c.features, f) {
                None => None,
                Some(index) => {
                    let g = &c.features[index];
                    assert(cv.features[index as int] == g@);
                    proof {
                        if g is Method {
                            lemma_params_match_view(g->Method_0.param@, m.param@);
                        }
                    }
                    if !g.check_param(f) {
                        let e = SemanticError {
                            err_msg: cat5(
                                "An error occurred in the parameter type of the method <",
                                &m.name,
                                "> overridden by Class ",
                                &c.name,
                                "!",
                            ),
                            position: Some(g.get_position()),
                            file_name: c.file_name.clone(),
                        };
                        return Some(e);
                    }
                    if !g.check_return_type(f) {
                        let e = SemanticError {
                            err_msg: cat5(
                                "An error occurred in the return type of the method <",
                                &m.name,
                                "> overridden by Class ",
                                &c.name,
                                "!",
                            ),
                            position: Some(g.get_position()),
                            file_name: c.file_name.clone(),
                        };
                        return Some(e);
                    }
                    if f.get_ownership() != g.get_ownership() {
                        let e = SemanticError {
                            err_msg: cat5(
                                "An error occurred in the ownership of the method <",
                                &m.name,
                                "> overridden by Class ",
                                &c.name,
                                "!",
                            ),
                            position: Some(g.get_position()),
                            file_name: c.file_name.clone(),
                        };
                        return Some(e);
                    }
                    None
                },
            }
        },
        Feature::Attribute(a) => {
            if p.name != c.name {
                if let Some(_) = find_same(&c.features, f) {
                    let mut msg = cat5("You cannot define the same field <", &a.name, "> in the subclass ", &c.name, " as the superclass ");
                    let ghost m0 = msg@;
                    msg.append(p.name.as_str());
                    let e = SemanticError { err_msg: msg, position: Some(c.position), file_name: c.file_name.clone() };
                    return Some(e);
                }
            }
            None
        },
        Feature::Constructor(_) => None,
    }
}

/// The features of class `p`, held against class `c`; see
/// `override_features`.
#[verifier::loop_isolation(false)]
fn override_parent(c: &Class, p: &Class) -> (r: Option<SemanticError>)
    ensures
        opt_err_view(r) == override_features(class_view(*c), class_view(*p), 0),
{
    let ghost cv = class_view(*c);
    let ghost pv = class_view(*p);
    for j in 0..p.features.len()
        invariant
            override_features(cv, pv, 0) == override_features(cv, pv, j as int),
    {
        assert(pv.features[j as int] == p.features@[j as int]@);
        if let Some(e) = override_one(c, p, &p.features[j]) {
            return Some(e);
        }
    }
    None
}

/// Class `c` held against its chain, from the class itself up; see
/// `override_chain`.
#[verifier::loop_isolation(false)]
fn override_class(c: &Class, v: &Vec<Class>) -> (r: Option<SemanticError>)
    ensures
        opt_err_view(r) == override_chain(class_view(*c), v.deep_view(), v@.len() as int),
{
    let ghost cv = class_view(*c);
    let ghost vv = v.deep_view();
    assert(vv.len() == v@.len());
    let mut k = v.len();
    while k > 0
        invariant
            k <= v@.len(),
            override_chain(cv, vv, v@.len() as int) == override_chain(cv, vv, k as int),
        decreases k,
    {
        assert(vv[k - 1] == class_view(v@[k - 1]));
        if let Some(e) = override_parent(c, &v[k - 1]) {
            return Some(e);
        }
        k = k - 1;
    }
    None
}

/// Each class held against its chain; see `override_classes`.
#[verifier::loop_isolation(false)]
fn override_phase(cs: &Vec<Class>, inh: &StrMap<Vec<Class>>) -> (r: Option<SemanticError>)
    ensures
        opt_err_view(r) == override_classes(cs.deep_view(), 0, inh.map()),
{
    let ghost csv = cs.deep_view();
    assert(csv.len() == cs@.len());
    for i in 0..cs.len()
        invariant
            override_classes(csv, 0, inh.map()) == override_classes(csv, i as int, inh.map()),
    {
        let c = &cs[i];
        assert(csv[i as int] == class_view(*c));
        if let Some(v) = inh.get(&c.name) {
            assert(v.deep_view().len() == v@.len());
            if let Some(e) = override_class(c, v) {
                return Some(e);
            }
        }
    }
    None
}

/// Binds each parameter to its type; see `bind_params`.
fn bind_params_exec(st: &mut SymbolTable<Type>, ps: &Vec<ParamDecl>)
    ensures
        final(st).model() == bind_params(old(st).model(), params_view(ps@), 0),
{
    let ghost pv = params_view(ps@);
    let ghost st0 = st.model();
    for k in 0..ps.len()
        invariant
            pv == params_view(ps@),
            bind_params(st0, pv, 0) == bind_params(st.model(), pv, k as int),
    {
        assert(pv[k as int] == (ps@[k as int].0@, ps@[k as int].1@));
        st.add(&ps[k].0, &ps[k].1);
    }
}

/// Binds each attribute to its declared type; see `bind_attrs`.
fn bind_attrs_exec(st: &mut SymbolTable<Type>, fs: &Vec<Feature>)
    requires
        forall|j: int|
            0 <= j < fs@.len() && #[trigger] features_view(fs@)[j] is Attribute
                ==> features_view(fs@)[j]->Attribute_0.type_ is Some,
    ensures
        final(st).model() == bind_attrs(old(st).model(), features_view(fs@), 0),
{
    let ghost fv = features_view(fs@);
    let ghost st0 = st.model();
    for j in 0..fs.len()
        invariant
            fv == features_view(fs@),
            forall|q: int| 0 <= q < fs@.len() && #[trigger] fv[q] is Attribute ==> fv[q]->Attribute_0.type_ is Some,
            bind_attrs(st0, fv, 0) == bind_attrs(st.model(), fv, j as int),
    {
        assert(fv[j as int] == fs@[j as int]@);
        if let Feature::Attribute(a) = &fs[j] {
            assert(fv[j as int] is Attribute);
            let t = a.type_.as_ref().unwrap();
            st.add(&a.name, t);
        }
    }
}

/// Binds the attributes of each class of a chain; see `bind_chain`.
fn bind_chain_exec(st: &mut SymbolTable<Type>, v: &Vec<Class>)
    requires
        forall|i: int, j: int|
            #![trigger v.deep_view()[i].features[j]]
            0 <= i < v@.len() && 0 <= j < v.deep_view()[i].features.len() && v.deep_view()[i].features[j] is Attribute
                ==> v.deep_view()[i].features[j]->Attribute_0.type_ is Some,
    ensures
        final(st).model() == bind_chain(old(st).model(), v.deep_view(), 0),
{
    let ghost vv = v.deep_view();
    let ghost st0 = st.model();
    assert(vv.len() == v@.len());
    for k in 0..v.len()
        invariant
            vv == v.deep_view(),
            vv.len() == v@.len(),
            forall|i: int, j: int|
                #![trigger vv[i].features[j]]
                0 <= i < v@.len() && 0 <= j < vv[i].features.len() && vv[i].features[j] is Attribute
                    ==> vv[i].features[j]->Attribute_0.type_ is Some,
            bind_chain(st0, vv, 0) == bind_chain(st.model(), vv, k as int),
    {
        assert(vv[k as int] == class_view(v@[k as int]));
        assert forall|j: int|
            0 <= j < v@[k as int].features@.len() && #[trigger] features_view(v@[k as int].features@)[j] is Attribute
            implies features_view(v@[k as int].features@)[j]->Attribute_0.type_ is Some by {
            assert(vv[k as int].features[j] == features_view(v@[k as int].features@)[j]);
        }
        bind_attrs_exec(st, &v[k].features);
    }
}

/// Checks the body of a method; see `check_method_body`.
#[verifier::loop_isolation(false)]
fn method_body_exec(
    file: &String,
    Ghost(m): Ghost<MethodDeclM>,
    name: &String,
    return_type: &String,
    mpos: Position,
    b: Vec<Expr>,
    st: &mut SymbolTable<Type>,
    ct: &ClassTable,
) -> (r: (Option<SemanticError>, Vec<Expr>))
    requires
        !method_body_stuck(file@, m, exprs_view(b@), 0, false, old(st).model(), ct.model()),
        m.name == name@,
        m.return_type == return_type@,
        m.position == mpos,
    ensures
        check_method_body(file@, m, exprs_view(b@), 0, false, old(st).model(), ct.model()) == (
            opt_err_view(r.0),
            exprs_view(r.1@),
            final(st).model(),
        ),
{
    let mut b = b;
    let mut returned = false;
    let ghost spec0 = check_method_body(file@, m, exprs_view(b@), 0, false, st.model(), ct.model());
    let n = b.len();
    proof {
        lemma_exprs_view_len(b@);
    }
    for k in 0..n
        invariant
            b@.len() == n,
            exprs_view(b@).len() == n,
            spec0 == check_method_body(file@, m, exprs_view(b@), k as int, returned, st.model(), ct.model()),
            !method_body_stuck(file@, m, exprs_view(b@), k as int, returned, st.model(), ct.model()),
    {
        proof {
            lemma_exprs_view_index(b@, k as int);
        }
        let ghost b0 = b@;
        let e = b.remove(k);
        let is_ret = match &e {
            Expr::Return(_) => true,
            _ => false,
        };
        let ret_pos = match &e {
            Expr::Return(re) => re.position,
            _ => mpos,
        };
        let (r, e2) = tc_owned(e, st, ct);
        b.insert(k, e2);
        proof {
            assert(b@ =~= b0.update(k as int, e2));
            lemma_exprs_view_update(b0, k as int, e2);
            lemma_exprs_view_len(b@);
        }
        match r {
            Err(err) => {
                let e = SemanticError { err_msg: err.err_msg, position: err.position, file_name: file.clone() };
                return (Some(e), b);
            },
            Ok(t) => {
                if is_ret && !ct.is_less_or_equal(&t, return_type) {
                    let e = SemanticError {
                        err_msg: cat3("The return type of your ", name, " method is different from the declared type!"),
                        position: Some(ret_pos),
                        file_name: file.clone(),
                    };
                    return (Some(e), b);
                }
                returned = returned || is_ret;
            },
        }
    }
    if !returned {
        let e = SemanticError {
            err_msg: type_string("Your method needs a return expression, even though you may return in an if or while."),
            position: Some(mpos),
            file_name: file.clone(),
        };
        return (Some(e), b);
    }
    (None, b)
}

/// Checks the body of a constructor; see `check_ctor_body`.
#[verifier::loop_isolation(false)]
fn ctor_body_exec(file: &String, b: Vec<Expr>, st: &mut SymbolTable<Type>, ct: &ClassTable) -> (r: (
    Option<SemanticError>,
    Vec<Expr>,
))
    requires
        !ctor_body_stuck(file@, exprs_view(b@), 0, old(st).model(), ct.model()),
    ensures
        check_ctor_body(file@, exprs_view(b@), 0, old(st).model(), ct.model()) == (
            opt_err_view(r.0),
            exprs_view(r.1@),
            final(st).model(),
        ),
{
    let mut b = b;
    let ghost spec0 = check_ctor_body(file@, exprs_view(b@), 0, st.model(), ct.model());
    let n = b.len();
    proof {
        lemma_exprs_view_len(b@);
    }
    for k in 0..n
        invariant
            b@.len() == n,
            exprs_view(b@).len() == n,
            spec0 == check_ctor_body(file@, exprs_view(b@), k as int, st.model(), ct.model()),
            !ctor_body_stuck(file@, exprs_view(b@), k as int, st.model(), ct.model()),
    {
        proof {
            lemma_exprs_view_index(b@, k as int);
        }
        if let Expr::Return(re) = &b[k] {
            let e = SemanticError {
                err_msg: type_string("You cannot add a Return expression in constructor."),
                position: Some(re.position),
                file_name: file.clone(),
            };
            return (Some(e), b);
        }
        let ghost b0 = b@;
        let e = b.remove(k);
        let (r, e2) = tc_owned(e, st, ct);
        b.insert(k, e2);
        proof {
            assert(b@ =~= b0.update(k as int, e2));
            lemma_exprs_view_update(b0, k as int, e2);
            lemma_exprs_view_len(b@);
        }
        if let Err(err) = r {
            let e = SemanticError { err_msg: err.err_msg, position: err.position, file_name: file.clone() };
            return (Some(e), b);
        }
    }
    (None, b)
}

/// Checks one feature of a class; see `check_feature`.
fn check_feature_exec(file: &String, f: Feature, st: &mut SymbolTable<Type>, ct: &ClassTable) -> (r: (
    Option<SemanticError>,
    Feature,
))
    requires
        !feature_stuck(file@, f@, old(st).model(), ct.model()),
    ensures
        check_feature(file@, f@, old(st).model(), ct.model()) == (opt_err_view(r.0), r.1@, final(st).model()),
{
    let ghost fv = f@;
    match f {
        Feature::Method(m) => {
            let ghost mv = fv->Method_0;
            let MethodDecl { name, param, return_type, body, position, ownership } = m;
            st.enter_scope();
            bind_params_exec(st, &param);
            match *body {
                None => {
                    st.exit_scope();
                    (None, Feature::Method(MethodDecl { name, param, return_type, body: Box::new(None), position, ownership }))
                },
                Some(b) => {
                    let (r, b2) = method_body_exec(file, Ghost(mv), &name, &return_type, position, b, st, ct);
                    let f2 = Feature::Method(MethodDecl { name, param, return_type, body: Box::new(Some(b2)), position, ownership });
                    match r {
                        Some(e) => (Some(e), f2),
                        None => {
                            st.exit_scope();
                            (None, f2)
                        },
                    }
                },
            }
        },
        Feature::Constructor(d) => {
            let ConstructorDecl { param, body, position } = d;
            st.enter_scope();
            bind_params_exec(st, &param);
            match *body {
                None => {
                    st.exit_scope();
                    (None, Feature::Constructor(ConstructorDecl { param, body: Box::new(None), position }))
                },
                Some(b) => {
                    let (r, b2) = ctor_body_exec(file, b, st, ct);
                    let f2 = Feature::Constructor(ConstructorDecl { param, body: Box::new(Some(b2)), position });
                    match r {
                        Some(e) => (Some(e), f2),
                        None => {
                            st.exit_scope();
                            (None, f2)
                        },
                    }
                },
            }
        },
        Feature::Attribute(a) => {
            let VarDecl { name, type_, init, position, ownership } = a;
            st.enter_scope();
            match *init {
                None => {
                    st.exit_scope();
                    (None, Feature::Attribute(VarDecl { name, type_, init: Box::new(None), position, ownership }))
                },
                Some(ie) => {
                    let (r, i2) = tc_owned(ie, st, ct);
                    match r {
                        Err(err) => {
                            let e = SemanticError { err_msg: err.err_msg, position: err.position, file_name: file.clone() };
                            (Some(e), Feature::Attribute(VarDecl { name, type_, init: Box::new(Some(i2)), position, ownership }))
                        },
                        Ok(t) => {
                            let bad = match &type_ {
                                Some(at) => !ct.is_less_or_equal(at, &t),
                                None => false,
                            };
                            let f2 = Feature::Attribute(VarDecl { name, type_, init: Box::new(Some(i2)), position, ownership });
                            if bad {
                                let e = SemanticError {
                                    err_msg: type_string("Some semantic errors occurred in your Assignment!"),
                                    position: Some(position),
                                    file_name: file.clone(),
                                };
                                (Some(e), f2)
                            } else {
                                st.exit_scope();
                                (None, f2)
                            }
                        },
                    }
                },
            }
        },
    }
}

/// Checks the features of a class in order; see `check_features`.
#[verifier::loop_isolation(false)]
fn check_features_exec(file: &String, fs: Vec<Feature>, st: &mut SymbolTable<Type>, ct: &ClassTable) -> (r: (
    Option<SemanticError>,
    Vec<Feature>,
))
    requires
        !features_stuck(file@, features_view(fs@), 0, old(st).model(), ct.model()),
    ensures
        check_features(file@, features_view(fs@), 0, old(st).model(), ct.model()) == (
            opt_err_view(r.0),
            features_view(r.1@),
            final(st).model(),
        ),
{
    let mut fs = fs;
    let ghost spec0 = check_features(file@, features_view(fs@), 0, st.model(), ct.model());
    let n = fs.len();
    for j in 0..n
        invariant
            fs@.len() == n,
            spec0 == check_features(file@, features_view(fs@), j as int, st.model(), ct.model()),
            !features_stuck(file@, features_view(fs@), j as int, st.model(), ct.model()),
    {
        let ghost fs0 = fs@;
        let f = fs.remove(j);
        assert(features_view(fs0)[j as int] == f@);
        let (r, f2) = check_feature_exec(file, f, st, ct);
        fs.insert(j, f2);
        assert(fs@ =~= fs0.update(j as int, f2));
        assert(features_view(fs@) =~= features_view(fs0).update(j as int, f2@));
        if let Some(e) = r {
            return (Some(e), fs);
        }
    }
    (None, fs)
}

/// Checks a class; see `check_class`.
fn check_class_exec(c: Class, st: &mut SymbolTable<Type>, ct: &ClassTable) -> (r: (Option<SemanticError>, Class))
    requires
        !class_stuck(c@, old(st).model(), ct.model()),
    ensures
        check_class(c@, old(st).model(), ct.model()) == (opt_err_view(r.0), r.1@, final(st).model()),
{
    let Class { name, parent, features, position, file_name } = c;
    st.enter_scope();
    let self_key = type_string(SELF);
    st.add(&self_key, &name);
    if let Some(v) = ct.inheritance.get(&name) {
        proof {
            let k = name@;
            assert(v.deep_view() == ct.model().inheritance[k]);
            assert(v.deep_view().len() == v@.len());
        }
        bind_chain_exec(st, v);
    }
    let (r, fs2) = check_features_exec(&file_name, features, st, ct);
    let c2 = Class { name, parent, features: fs2, position, file_name };
    match r {
        Some(e) => (Some(e), c2),
        None => {
            st.exit_scope();
            (None, c2)
        },
    }
}

/// A copy of each class.
fn clone_classes(v: &Vec<Class>) -> (r: Vec<Class>)
    ensures
        r.deep_view() == v.deep_view(),
{
    let mut r: Vec<Class> = Vec::new();
    for i in 0..v.len()
        invariant
            r@.len() == i,
            forall|j: int| 0 <= j < i ==> (#[trigger] r@[j])@ == v@[j]@,
    {
        r.push(v[i].clone_class());
    }
    assert(r.deep_view() =~= v.deep_view());
    r
}

/// What a run of the checker gives, as plain values.
pub open spec fn checked_view(r: Result<Vec<Class>, SemanticError>) -> Result<Seq<ClassM>, ErrM> {
    match r {
        Ok(v) => Ok(v.deep_view()),
        Err(e) => Err(err_view(e)),
    }
}

/// Checks the classes of a program: no class is defined twice, there is a
/// `Main` class with a `main` method, each inheritance chain is sound, no
/// class has two constructors with the same parameters, overridden methods
/// keep their signatures, attributes are not redefined, and every
/// expression is well typed.
pub struct SemanticChecker {
    symbol_table: SymbolTable<Type>,
    pub ctx: CompileContext,
}

impl SemanticChecker {
    /// The scopes of the checker's symbol table.
    pub closed spec fn scopes(&self) -> Scopes {
        self.symbol_table.model()
    }

    /// The context that the checker works on.
    pub closed spec fn context(&self) -> CompileContext {
        self.ctx
    }

    pub fn new(ctx: CompileContext) -> (r: Self)
        ensures
            r.context() == ctx,
            r.scopes() == Seq::<Map<Seq<char>, Seq<char>>>::empty(),
    {
        SemanticChecker { symbol_table: SymbolTable::new(), ctx }
    }

    /// Runs the semantic check on the classes of the context; see
    /// `semantic_check`.  On success it gives the classes with the types
    /// it found written into their expressions.
    pub fn check(&mut self) -> (r: Result<Vec<Class>, SemanticError>)
        requires
            check_ready(old(self).context().classes.deep_view(), old(self).context().class_table.model(), old(self).scopes()),
        ensures
            checked_view(r) == semantic_check(
                old(self).context().classes.deep_view(),
                old(self).context().class_table.model(),
                old(self).scopes(),
            ).0,
            final(self).context().classes.deep_view() == semantic_check(
                old(self).context().classes.deep_view(),
                old(self).context().class_table.model(),
                old(self).scopes(),
            ).1,
            final(self).context().class_table.model() == semantic_check(
                old(self).context().classes.deep_view(),
                old(self).context().class_table.model(),
                old(self).scopes(),
            ).2,
            final(self).scopes() == semantic_check(
                old(self).context().classes.deep_view(),
                old(self).context().class_table.model(),
                old(self).scopes(),
            ).3,
            final(self).context().content == old(self).context().content,
            final(self).context().file_name == old(self).context().file_name,
            final(self).context().tables == old(self).context().tables,
    {
        let ghost csv = self.ctx.classes.deep_view();
        let ghost ct0 = self.ctx.class_table.model();
        let ghost st0 = self.symbol_table.model();
        let (e1, main_flag, main_method_flag) = enter_phase(&self.ctx.classes, &mut self.ctx.class_table.classes);
        if let Some(e) = e1 {
            return Err(e);
        }
        if !main_flag {
            return Err(SemanticError {
                err_msg: type_string("Your program is missing the Main class"),
                position: None,
                file_name: String::new(),
            });
        }
        if !main_method_flag {
            return Err(SemanticError {
                err_msg: type_string("Your program is missing the Main function"),
                position: None,
                file_name: String::new(),
            });
        }
        let ghost t1 = self.ctx.class_table.classes.map();
        proof {
            lemma_enter_classes(csv, 0, ct0.classes);
        }
        if let Some(e) = inherit_phase(&self.ctx.classes, &mut self.ctx.class_table) {
            return Err(e);
        }
        if let Some(e) = ctor_phase(&self.ctx.classes, &mut self.ctx.class_table) {
            return Err(e);
        }
        if let Some(e) = override_phase(&self.ctx.classes, &self.ctx.class_table.inheritance) {
            return Err(e);
        }
        let ghost ct3 = self.ctx.class_table.model();
        assert(ct3 == checked_table(csv, ct0));
        assert(later_phases_pass(csv, ct0));
        let ghost cc = check_classes(csv, 0, st0, ct3);
        assert(semantic_check(csv, ct0, st0) == (
            match cc.0 {
                Some(e) => Err(e),
                None => Ok(cc.1),
            },
            cc.1,
            ct3,
            cc.2,
        ));
        let mut classes: Vec<Class> = Vec::new();
        std::mem::swap(&mut classes, &mut self.ctx.classes);
        let n = classes.len();
        assert(classes.deep_view().len() == n);
        for i in 0..n
            invariant
                classes@.len() == n,
                classes.deep_view().len() == n,
                self.ctx.class_table.model() == ct3,
                !classes_stuck(classes.deep_view(), i as int, self.symbol_table.model(), ct3),
                cc == check_classes(classes.deep_view(), i as int, self.symbol_table.model(), ct3),
                semantic_check(csv, ct0, st0) == (
                    match cc.0 {
                        Some(e) => Err(e),
                        None => Ok(cc.1),
                    },
                    cc.1,
                    ct3,
                    cc.2,
                ),
                csv == old(self).context().classes.deep_view(),
                ct0 == old(self).context().class_table.model(),
                st0 == old(self).scopes(),
                self.ctx.content == old(self).ctx.content,
                self.ctx.file_name == old(self).ctx.file_name,
                self.ctx.tables == old(self).ctx.tables,
        {
            let ghost cs0 = classes@;
            let ghost dv0 = classes.deep_view();
            let ghost stb = self.symbol_table.model();
            let c = classes.remove(i);
            assert(dv0[i as int] == c@);
            let (r, c2) = check_class_exec(c, &mut self.symbol_table, &self.ctx.class_table);
            classes.insert(i, c2);
            assert(classes@ =~= cs0.update(i as int, c2));
            assert(classes.deep_view() =~= dv0.update(i as int, c2@));
            assert(check_class(dv0[i as int], stb, ct3) == (opt_err_view(r), c2@, self.symbol_table.model()));
            assert(check_classes(dv0, i as int, stb, ct3) == match r {
                Some(e) => (Some(err_view(e)), dv0.update(i as int, c2@), self.symbol_table.model()),
                None => check_classes(dv0.update(i as int, c2@), i + 1, self.symbol_table.model(), ct3),
            });
            if let Some(e) = r {
                self.ctx.classes = classes;
                return Err(e);
            }
        }
        let out = clone_classes(&classes);
        self.ctx.classes = classes;
        Ok(out)
    }
}

/// Whether every attribute of the class has a declared type.
fn class_typed(c: &Class) -> (r: bool)
    ensures
        r == attrs_typed(c@),
{
    let ghost cv = c@;
    for j in 0..c.features.len()
        invariant
            cv == c@,
            forall|q: int| 0 <= q < j && #[trigger] cv.features[q] is Attribute ==> cv.features[q]->Attribute_0.type_ is Some,
    {
        assert(cv.features[j as int] == c.features@[j as int]@);
        if let Feature::Attribute(a) = &c.features[j] {
            if a.type_.is_none() {
                return false;
            }
        }
    }
    true
}

/// How the walk up from `c` ends within `bound` steps: `None` when it has
/// not ended, `Some(true)` when it ends without an error and `Some(false)`
/// when it ends with one.
fn walk_bounded(c: &Class, t: &StrMap<Class>, bound: usize) -> (r: Option<bool>)
    ensures
        r == match walk(t.map(), c@, c@.parent, seq![c@], bound as nat) {
            None => None,
            Some(Ok(_)) => Some(true),
            Some(Err(_)) => Some(false),
        },
{
    let ghost cv = c@;
    let ghost tm = t.map();
    let ghost target = walk(tm, cv, cv.parent, seq![cv], bound as nat);
    let mut cur: Option<String> = match &c.parent {
        Some(p) => Some(p.clone()),
        None => None,
    };
    let ghost mut chain: Seq<ClassM> = seq![cv];
    let mut fuel = bound;
    let none_name = type_string("None");
    loop
        invariant
            tm == t.map(),
            cv == c@,
            none_name@ == "None"@,
            target == walk(tm, cv, cv.parent, seq![cv], bound as nat),
            target == walk(tm, cv, opt_string_view(cur), chain, fuel as nat),
        decreases fuel,
    {
        let next = match &cur {
            None => {
                return Some(true);
            },
            Some(p) => {
                if *p == none_name {
                    return Some(true);
                }
                if *p == c.name {
                    return Some(false);
                }
                match t.get(p) {
                    None => {
                        return Some(false);
                    },
                    Some(pc) => {
                        if fuel == 0 {
                            return None;
                        }
                        proof {
                            chain = seq![tm[p@]] + chain;
                        }
                        match &pc.parent {
                            Some(q) => Some(q.clone()),
                            None => None,
                        }
                    },
                }
            },
        };
        cur = next;
        fuel = fuel - 1;
    }
}

/// The number of steps that `check_ready_exec` lets each walk take: one
/// more than the classes of the table and of the program together.
pub open spec fn ready_bound(ctx: CompileContext) -> nat {
    let n = ctx.class_table.classes.entries@.len() + ctx.classes@.len() + 1;
    if n <= usize::MAX {
        n as nat
    } else {
        usize::MAX as nat
    }
}

/// The checks of `check_ready_exec` that do not walk: each class of the
/// table has its constructors recorded, and every attribute of the classes
/// of the table, of the recorded chains and of the program has a type.
pub open spec fn ready_parts(ctx: CompileContext) -> bool {
    let cs = ctx.classes.deep_view();
    let ce = ctx.class_table.classes.entries@;
    let ie = ctx.class_table.inheritance.entries@;
    &&& forall|i: int|
        0 <= i < ce.len() ==> ctx.class_table.class_constructors.map().contains_key((#[trigger] ce[i]).0@)
    &&& forall|i: int| 0 <= i < ce.len() ==> attrs_typed((#[trigger] ce[i]).1.deep_view())
    &&& forall|i: int, q: int|
        #![trigger ie[i].1.deep_view()[q]]
        0 <= i < ie.len() && 0 <= q < ie[i].1.deep_view().len() ==> attrs_typed(ie[i].1.deep_view()[q])
    &&& forall|i: int| 0 <= i < cs.len() ==> attrs_typed(#[trigger] cs[i])
}

/// What `check_ready_exec` finds: when the classes enter the table and
/// the program has its `Main` class and `main` method, each walk up an
/// inheritance chain ends within `ready_bound` steps, until one ends with
/// an error; and, when the phases after the walks pass as well,
/// `ready_parts` holds.
pub open spec fn ready_within(ctx: CompileContext) -> bool {
    let cs = ctx.classes.deep_view();
    let entered = enter_classes(cs, 0, ctx.class_table.model().classes);
    (entered.0 is None && has_main_class(cs) && has_main_method(cs)) ==> {
        &&& walks_within(cs, entered.1, ready_bound(ctx))
        &&& later_phases_pass(cs, ctx.class_table.model()) ==> ready_parts(ctx)
    }
}

/// Everything that `ready_within` asks before `ready_parts` holds.
pub open spec fn ready_gate(ctx: CompileContext) -> bool {
    let cs = ctx.classes.deep_view();
    let entered = enter_classes(cs, 0, ctx.class_table.model().classes);
    &&& entered.0 is None && has_main_class(cs) && has_main_method(cs)
    &&& walks_within(cs, entered.1, ready_bound(ctx))
    &&& later_phases_pass(cs, ctx.class_table.model())
}

/// Whether each walk up from the classes, in order, ends within `bound`
/// steps, until one ends with an error; see `walks_within`.
fn walks_bounded(cs: &Vec<Class>, t: &StrMap<Class>, bound: usize) -> (r: bool)
    ensures
        r == walks_within(cs.deep_view(), t.map(), bound as nat),
{
    let ghost csv = cs.deep_view();
    let ghost tm = t.map();
    assert(csv.len() == cs@.len());
    for i in 0..cs.len()
        invariant
            csv == cs.deep_view(),
            csv.len() == cs@.len(),
            tm == t.map(),
            forall|j: int|
                0 <= j < i ==> (#[trigger] walk(tm, csv[j], csv[j].parent, seq![csv[j]], bound as nat)) matches Some(Ok(_)),
    {
        assert(csv[i as int] == cs@[i as int]@);
        match walk_bounded(&cs[i], t, bound) {
            None => {
                assert(walk(tm, csv[i as int], csv[i as int].parent, seq![csv[i as int]], bound as nat) is None);
                assert(!walks_within(csv, tm, bound as nat));
                return false;
            },
            Some(false) => {
                assert forall|k: int|
                    0 <= k < csv.len() && (forall|j: int|
                        0 <= j < k ==> (#[trigger] walk(tm, csv[j], csv[j].parent, seq![csv[j]], bound as nat)) matches Some(
                            Ok(_),
                        )) implies (#[trigger] walk(tm, csv[k], csv[k].parent, seq![csv[k]], bound as nat)) is Some by {
                    if k > i {
                        assert(walk(tm, csv[i as int], csv[i as int].parent, seq![csv[i as int]], bound as nat) is Some);
                    }
                }
                return true;
            },
            Some(true) => {},
        }
    }
    true
}

/// Whether the semantic check can be run on the context; see
/// `ready_within`.  When it answers `true`, `check_ready` holds.
#[verifier::rlimit(60)]
pub fn check_ready_exec(ctx: &CompileContext) -> (r: bool)
    ensures
        r == ready_within(*ctx),
        r ==> check_ready(ctx.classes.deep_view(), ctx.class_table.model(), Seq::empty()),
{
    let ct = &ctx.class_table;
    let ghost csv = ctx.classes.deep_view();
    let ghost ctm = ct.model();
    let ghost ce = ct.classes.entries@;
    let ghost ie = ct.inheritance.entries@;
    let mut t1 = ct.classes.duplicate_map();
    let (e1, m1, m2) = enter_phase(&ctx.classes, &mut t1);
    let ghost entered = enter_classes(csv, 0, ctm.classes);
    assert(entered.1 == t1.map());
    assert(entered.0 == opt_err_view(e1));
    if !(e1.is_none() && m1 && m2) {
        return true;
    }
    let a = ct.classes.entries.len();
    let b = ctx.classes.len();
    let bound: usize = if a < usize::MAX - b {
        a + b + 1
    } else {
        usize::MAX
    };
    assert(bound == ready_bound(*ctx));
    if !walks_bounded(&ctx.classes, &t1, bound) {
        return false;
    }
    proof {
        lemma_walks_within(csv, t1.map(), bound as nat);
    }
    let mut ct2 = ClassTable {
        classes: t1,
        inheritance: ct.inheritance.duplicate_map(),
        class_constructors: ct.class_constructors.duplicate_map(),
    };
    if inherit_phase(&ctx.classes, &mut ct2).is_some() {
        return true;
    }
    if ctor_phase(&ctx.classes, &mut ct2).is_some() {
        return true;
    }
    if override_phase(&ctx.classes, &ct2.inheritance).is_some() {
        return true;
    }
    assert(later_phases_pass(csv, ctm));
    assert(ready_gate(*ctx));
    for i in 0..ct.classes.entries.len()
        invariant
            ce == ct.classes.entries@,
            *ct == ctx.class_table,
            ready_gate(*ctx),
            forall|j: int| 0 <= j < i ==> ct.class_constructors.map().contains_key((#[trigger] ce[j]).0@),
            forall|j: int| 0 <= j < i ==> attrs_typed((#[trigger] ce[j]).1.deep_view()),
    {
        if !ct.class_constructors.contains_key(&ct.classes.entries[i].0) {
            assert(!ct.class_constructors.map().contains_key(ce[i as int].0@));
            assert(!ready_parts(*ctx));
            return false;
        }
        if !class_typed(&ct.classes.entries[i].1) {
            assert(!attrs_typed(ce[i as int].1.deep_view()));
            assert(!ready_parts(*ctx));
            return false;
        }
    }
    for i in 0..ct.inheritance.entries.len()
        invariant
            ie == ct.inheritance.entries@,
            *ct == ctx.class_table,
            ready_gate(*ctx),
            forall|j: int, q: int|
                #![trigger ie[j].1.deep_view()[q]]
                0 <= j < i && 0 <= q < ie[j].1.deep_view().len() ==> attrs_typed(ie[j].1.deep_view()[q]),
    {
        let v = &ct.inheritance.entries[i].1;
        assert(v.deep_view().len() == v@.len());
        for q in 0..v.len()
            invariant
                ie == ct.inheritance.entries@,
                *ct == ctx.class_table,
                ready_gate(*ctx),
                0 <= i < ie.len(),
                v.deep_view() == ie[i as int].1.deep_view(),
                v.deep_view().len() == v@.len(),
                forall|j: int, q: int|
                    #![trigger ie[j].1.deep_view()[q]]
                    0 <= j < i && 0 <= q < ie[j].1.deep_view().len() ==> attrs_typed(ie[j].1.deep_view()[q]),
                forall|w: int| 0 <= w < q ==> attrs_typed(#[trigger] v.deep_view()[w]),
        {
            assert(v.deep_view()[q as int] == v@[q as int]@);
            if !class_typed(&v[q]) {
                assert(!attrs_typed(ie[i as int].1.deep_view()[q as int]));
                assert(!ready_parts(*ctx));
                return false;
            }
        }
    }
    assert(csv.len() == ctx.classes@.len());
    for i in 0..ctx.classes.len()
        invariant
            csv == ctx.classes.deep_view(),
            csv.len() == ctx.classes@.len(),
            ready_gate(*ctx),
            forall|j: int| 0 <= j < i ==> attrs_typed(#[trigger] csv[j]),
    {
        assert(csv[i as int] == ctx.classes@[i as int]@);
        if !class_typed(&ctx.classes[i]) {
            assert(!attrs_typed(csv[i as int]));
            assert(!ready_parts(*ctx));
            return false;
        }
    }
    assert(ready_parts(*ctx));
    proof {
        lemma_ready_parts(*ctx);
        lemma_base_not_stuck(csv, ctm, Seq::empty());
    }
    true
}

/// The parts of `ready_within` that do not walk give those of `check_ready`.
proof fn lemma_ready_parts(ctx: CompileContext)
    requires
        ready_parts(ctx),
    ensures
        check_ready_base(ctx.classes.deep_view(), ctx.class_table.model()),
{
    let ce = ctx.class_table.classes.entries@;
    let ie = ctx.class_table.inheritance.entries@;
    lemma_entries_map_from(ce, |c: ClassM| attrs_typed(c));
    assert forall|k: Seq<char>| #[trigger] ctx.class_table.model().classes.contains_key(k) implies ctx.class_table.model().class_constructors.contains_key(k) by {
        let i = choose|i: int| 0 <= i < ce.len() && (#[trigger] ce[i]).0@ == k;
    }
    assert forall|i: int| 0 <= i < ie.len() implies (|v: Seq<ClassM>| forall|q: int| 0 <= q < v.len() ==> attrs_typed(#[trigger] v[q]))(
        (#[trigger] ie[i]).1.deep_view(),
    ) by {
        assert forall|q: int| 0 <= q < ie[i].1.deep_view().len() implies attrs_typed(#[trigger] ie[i].1.deep_view()[q]) by {
            assert(attrs_typed(ie[i].1.deep_view()[q]));
        }
    }
    lemma_entries_map_from(ie, |v: Seq<ClassM>| forall|q: int| 0 <= q < v.len() ==> attrs_typed(#[trigger] v[q]));
}
} // verus!
