use vstd::prelude::*;

use super::semantic::{ErrM};
use super::type_checker::{lemma_ready_expr, tc_expr, tc_ready, tc_stuck, Scopes};
use crate::lexer::Position;
use crate::parser::ast::class::{
    feature_ownership, feature_position, same_feature, ClassM, ConstructorDeclM, FeatureM, MethodDeclM,
    VarDeclM,
};
use crate::parser::ast::expr::ExprM;
use crate::parser::ast::ParamM;
use crate::utils::table::{scopes_add, scopes_exit, spec_less_or_equal, ClassTableM};
use crate::{OBJECT, SELF};

verus! {

/// Classes by name.
pub type ClassMap = Map<Seq<char>, ClassM>;

/// An error of the semantic check, with the file it was found in.
pub open spec fn err_in(msg: Seq<char>, position: Option<Position>, file: Seq<char>) -> ErrM {
    ErrM { msg, position, file }
}

/// An error found in an expression, placed in the file of its class.
pub open spec fn in_file(e: ErrM, file: Seq<char>) -> ErrM {
    ErrM { msg: e.msg, position: e.position, file }
}

/// Every attribute of the class has a declared type.
pub open spec fn attrs_typed(c: ClassM) -> bool {
    forall|j: int|
        0 <= j < c.features.len() && #[trigger] c.features[j] is Attribute
            ==> c.features[j]->Attribute_0.type_ is Some
}

/// Enters the classes from index `i` on into the table, one by one; a name
/// that is there already stops it with an error.
pub open spec fn enter_classes(cs: Seq<ClassM>, i: int, t: ClassMap) -> (Option<ErrM>, ClassMap)
    decreases cs.len() - i,
{
    if i < 0 || i >= cs.len() {
        (None, t)
    } else if t.contains_key(cs[i].name) {
        (
            Some(err_in("Class "@ + cs[i].name + " has been redefined!"@, Some(cs[i].position), cs[i].file_name)),
            t,
        )
    } else {
        enter_classes(cs, i + 1, t.insert(cs[i].name, cs[i]))
    }
}

/// Some class is called `Main`.
pub open spec fn has_main_class(cs: Seq<ClassM>) -> bool {
    exists|i: int| 0 <= i < cs.len() && (#[trigger] cs[i]).name == "Main"@
}

/// Some class called `Main` has a method called `main`.
pub open spec fn has_main_method(cs: Seq<ClassM>) -> bool {
    exists|i: int, j: int|
        0 <= i < cs.len() && (#[trigger] cs[i]).name == "Main"@ && 0 <= j < cs[i].features.len()
            && #[trigger] cs[i].features[j] is Method && cs[i].features[j]->Method_0.name == "main"@
}

/// Walks up from class `c` through the parents named in the table,
/// collecting each ancestor in front of `chain`; `None` when `fuel` runs
/// out first.  A parent named `None` ends the walk; the class itself as a
/// parent, or a parent that is not in the table, is an error.
pub open spec fn walk(t: ClassMap, c: ClassM, cur: Option<Seq<char>>, chain: Seq<ClassM>, fuel: nat) -> Option<
    Result<Seq<ClassM>, ErrM>,
>
    decreases fuel,
{
    match cur {
        None => Some(Ok(chain)),
        Some(p) => if p == "None"@ {
            Some(Ok(chain))
        } else if p == c.name {
            Some(Err(err_in("There is an inheritance cycle about Class "@ + p + "!"@, Some(c.position), c.file_name)))
        } else if !t.contains_key(p) {
            Some(
                Err(
                    err_in(
                        "Your Class "@ + c.name + " inherits an undefined Class "@ + p + " !"@,
                        Some(c.position),
                        c.file_name,
                    ),
                ),
            )
        } else if fuel == 0 {
            None
        } else {
            walk(t, c, t[p].parent, seq![t[p]] + chain, (fuel - 1) as nat)
        },
    }
}

/// The walk up from `c` comes to an end.
pub open spec fn walk_ends(t: ClassMap, c: ClassM) -> bool {
    exists|n: nat| (#[trigger] walk(t, c, c.parent, seq![c], n)) is Some
}

/// Where the walk up from `c` ends.
pub open spec fn walk_result(t: ClassMap, c: ClassM) -> Option<Result<Seq<ClassM>, ErrM>> {
    walk(t, c, c.parent, seq![c], choose|n: nat| (#[trigger] walk(t, c, c.parent, seq![c], n)) is Some)
}

/// The walk up from `c` ends, and without an error.
pub open spec fn walk_ok(t: ClassMap, c: ClassM) -> bool {
    walk_ends(t, c) && walk_result(t, c) matches Some(Ok(_))
}

/// A chain with `Object` put first, when the table knows `Object`.
pub open spec fn with_object(t: ClassMap, chain: Seq<ClassM>) -> Seq<ClassM> {
    if t.contains_key(OBJECT@) {
        seq![t[OBJECT@]] + chain
    } else {
        chain
    }
}

/// The checks of the inheritance stop: each walk that is started ends.
pub open spec fn walks_end(cs: Seq<ClassM>, t: ClassMap) -> bool {
    forall|i: int|
        0 <= i < cs.len() && (forall|j: int| 0 <= j < i ==> walk_ok(t, #[trigger] cs[j])) ==> walk_ends(
            t,
            #[trigger] cs[i],
        )
}

/// Records the inheritance chain of each class from index `i` on; the first
/// walk that fails stops it.
pub open spec fn inherit_classes(
    cs: Seq<ClassM>,
    i: int,
    t: ClassMap,
    inh: Map<Seq<char>, Seq<ClassM>>,
) -> (Option<ErrM>, Map<Seq<char>, Seq<ClassM>>)
    decreases cs.len() - i,
{
    if i < 0 || i >= cs.len() {
        (None, inh)
    } else {
        match walk_result(t, cs[i]) {
            Some(Err(e)) => (Some(e), inh),
            Some(Ok(chain)) => inherit_classes(cs, i + 1, t, inh.insert(cs[i].name, with_object(t, chain))),
            None => inherit_classes(cs, i + 1, t, inh),
        }
    }
}

/// The constructors of class `c` from feature `j` on, added to `acc`; two
/// with the same parameter list are an error.
pub open spec fn ctor_list(c: ClassM, j: int, acc: Seq<ConstructorDeclM>) -> Result<Seq<ConstructorDeclM>, ErrM>
    decreases c.features.len() - j,
{
    if j < 0 || j >= c.features.len() {
        Ok(acc)
    } else {
        match c.features[j] {
            FeatureM::Constructor(d) => if exists|k: int| 0 <= k < acc.len() && (#[trigger] acc[k]).param == d.param {
                Err(err_in("The parameter declaration for this constructor method duplicates"@, Some(d.position), c.file_name))
            } else {
                ctor_list(c, j + 1, acc.push(d))
            },
            _ => ctor_list(c, j + 1, acc),
        }
    }
}

/// Records the constructors of each class from index `i` on.
pub open spec fn collect_ctors(
    cs: Seq<ClassM>,
    i: int,
    ctors: Map<Seq<char>, Seq<ConstructorDeclM>>,
) -> (Option<ErrM>, Map<Seq<char>, Seq<ConstructorDeclM>>)
    decreases cs.len() - i,
{
    if i < 0 || i >= cs.len() {
        (None, ctors)
    } else {
        match ctor_list(cs[i], 0, Seq::empty()) {
            Err(e) => (Some(e), ctors),
            Ok(v) => collect_ctors(cs, i + 1, ctors.insert(cs[i].name, v)),
        }
    }
}

/// The index of the first feature from `k` on that is the same feature as `f`.
pub open spec fn first_same(fs: Seq<FeatureM>, f: FeatureM, k: int) -> Option<int>
    decreases fs.len() - k,
{
    if k < 0 || k >= fs.len() {
        None
    } else if same_feature(fs[k], f) {
        Some(k)
    } else {
        first_same(fs, f, k + 1)
    }
}

/// A feature `f` of the class `p` in the chain of `c`, held against `c`: a
/// method that `c` redefines must keep its parameters, its return type and
/// its visibility; an attribute of another class may not be redefined.
pub open spec fn override_feature(c: ClassM, p: ClassM, f: FeatureM) -> Option<ErrM> {
    match f {
        FeatureM::Method(m) => match first_same(c.features, f, 0) {
            None => None,
            Some(idx) => {
                let g = c.features[idx];
                let pos = Some(feature_position(g));
                if !(g is Method && g->Method_0.param == m.param) {
                    Some(
                        err_in(
                            "An error occurred in the parameter type of the method <"@ + m.name
                                + "> overridden by Class "@ + c.name + "!"@,
                            pos,
                            c.file_name,
                        ),
                    )
                } else if g->Method_0.return_type != m.return_type {
                    Some(
                        err_in(
                            "An error occurred in the return type of the method <"@ + m.name
                                + "> overridden by Class "@ + c.name + "!"@,
                            pos,
                            c.file_name,
                        ),
                    )
                } else if feature_ownership(f) != feature_ownership(g) {
                    Some(
                        err_in(
                            "An error occurred in the ownership of the method <"@ + m.name
                                + "> overridden by Class "@ + c.name + "!"@,
                            pos,
                            c.file_name,
                        ),
                    )
                } else {
                    None
                }
            },
        },
        FeatureM::Attribute(a) => if p.name != c.name && first_same(c.features, f, 0) is Some {
            Some(
                err_in(
                    "You cannot define the same field <"@ + a.name + "> in the subclass "@ + c.name
                        + " as the superclass "@ + p.name,
                    Some(c.position),
                    c.file_name,
                ),
            )
        } else {
            None
        },
        FeatureM::Constructor(_) => None,
    }
}

/// The features of `p` from index `j` on, held against `c`.
pub open spec fn override_features(c: ClassM, p: ClassM, j: int) -> Option<ErrM>
    decreases p.features.len() - j,
{
    if j < 0 || j >= p.features.len() {
        None
    } else {
        match override_feature(c, p, p.features[j]) {
            Some(e) => Some(e),
            None => override_features(c, p, j + 1),
        }
    }
}

/// The classes of the chain `v` below index `k`, from the last down to the
/// first, held against `c`.
pub open spec fn override_chain(c: ClassM, v: Seq<ClassM>, k: int) -> Option<ErrM>
    decreases k,
{
    if k <= 0 || k > v.len() {
        None
    } else {
        match override_features(c, v[k - 1], 0) {
            Some(e) => Some(e),
            None => override_chain(c, v, k - 1),
        }
    }
}

/// Each class from index `i` on, held against its chain.
pub open spec fn override_classes(cs: Seq<ClassM>, i: int, inh: Map<Seq<char>, Seq<ClassM>>) -> Option<ErrM>
    decreases cs.len() - i,
{
    if i < 0 || i >= cs.len() {
        None
    } else {
        let r = if inh.contains_key(cs[i].name) {
            override_chain(cs[i], inh[cs[i].name], inh[cs[i].name].len() as int)
        } else {
            None
        };
        match r {
            Some(e) => Some(e),
            None => override_classes(cs, i + 1, inh),
        }
    }
}

/// Binds each attribute from feature `j` on to its declared type.
pub open spec fn bind_attrs(st: Scopes, fs: Seq<FeatureM>, j: int) -> Scopes
    decreases fs.len() - j,
{
    if j < 0 || j >= fs.len() {
        st
    } else {
        match fs[j] {
            FeatureM::Attribute(a) => bind_attrs(scopes_add(st, a.name, a.type_->Some_0), fs, j + 1),
            _ => bind_attrs(st, fs, j + 1),
        }
    }
}

/// Binds the attributes of each class of the chain from index `k` on.
pub open spec fn bind_chain(st: Scopes, v: Seq<ClassM>, k: int) -> Scopes
    decreases v.len() - k,
{
    if k < 0 || k >= v.len() {
        st
    } else {
        bind_chain(bind_attrs(st, v[k].features, 0), v, k + 1)
    }
}

/// Binds each parameter from index `k` on to its type.
pub open spec fn bind_params(st: Scopes, ps: Seq<ParamM>, k: int) -> Scopes
    decreases ps.len() - k,
{
    if k < 0 || k >= ps.len() {
        st
    } else {
        bind_params(scopes_add(st, ps[k].0, ps[k].1), ps, k + 1)
    }
}

/// Checks the body of method `m`, found in `file`, from expression `k` on; the
/// value of each `return` must fit the declared return type, and some
/// `return` must be met.
pub open spec fn check_method_body(
    file: Seq<char>,
    m: MethodDeclM,
    b: Seq<ExprM>,
    k: int,
    returned: bool,
    st: Scopes,
    ct: ClassTableM,
) -> (Option<ErrM>, Seq<ExprM>, Scopes)
    decreases b.len() - k,
{
    if k < 0 || k >= b.len() {
        if returned {
            (None, b, st)
        } else {
            (
                Some(
                    err_in(
                        "Your method needs a return expression, even though you may return in an if or while."@,
                        Some(m.position),
                        file,
                    ),
                ),
                b,
                st,
            )
        }
    } else {
        let (r, e2, st2) = tc_expr(b[k], st, ct);
        let b2 = b.update(k, e2);
        match r {
            Err(e) => (Some(in_file(e, file)), b2, st2),
            Ok(t) => if b[k] is Return && !spec_less_or_equal(ct, t, m.return_type) {
                (
                    Some(
                        err_in(
                            "The return type of your "@ + m.name + " method is different from the declared type!"@,
                            Some(b[k]->Return_position),
                            file,
                        ),
                    ),
                    b2,
                    st2,
                )
            } else {
                check_method_body(file, m, b2, k + 1, returned || b[k] is Return, st2, ct)
            },
        }
    }
}

/// Checks the body of a constructor, found in `file`, from expression `k`
/// on; a constructor may not `return`.
pub open spec fn check_ctor_body(file: Seq<char>, b: Seq<ExprM>, k: int, st: Scopes, ct: ClassTableM) -> (
    Option<ErrM>,
    Seq<ExprM>,
    Scopes,
)
    decreases b.len() - k,
{
    if k < 0 || k >= b.len() {
        (None, b, st)
    } else if b[k] is Return {
        (
            Some(err_in("You cannot add a Return expression in constructor."@, Some(b[k]->Return_position), file)),
            b,
            st,
        )
    } else {
        let (r, e2, st2) = tc_expr(b[k], st, ct);
        let b2 = b.update(k, e2);
        match r {
            Err(e) => (Some(in_file(e, file)), b2, st2),
            Ok(_) => check_ctor_body(file, b2, k + 1, st2, ct),
        }
    }
}

/// Checks one feature of a class of `file`, in a scope of its own.
pub open spec fn check_feature(file: Seq<char>, f: FeatureM, st: Scopes, ct: ClassTableM) -> (Option<ErrM>, FeatureM, Scopes) {
    match f {
        FeatureM::Method(m) => {
            let st1 = bind_params(st.push(Map::empty()), m.param, 0);
            match m.body {
                None => (None, f, scopes_exit(st1)),
                Some(b) => {
                    let (r, b2, st2) = check_method_body(file, m, b, 0, false, st1, ct);
                    let f2 = FeatureM::Method(MethodDeclM { body: Some(b2), ..m });
                    match r {
                        Some(e) => (Some(e), f2, st2),
                        None => (None, f2, scopes_exit(st2)),
                    }
                },
            }
        },
        FeatureM::Constructor(d) => {
            let st1 = bind_params(st.push(Map::empty()), d.param, 0);
            match d.body {
                None => (None, f, scopes_exit(st1)),
                Some(b) => {
                    let (r, b2, st2) = check_ctor_body(file, b, 0, st1, ct);
                    let f2 = FeatureM::Constructor(ConstructorDeclM { body: Some(b2), ..d });
                    match r {
                        Some(e) => (Some(e), f2, st2),
                        None => (None, f2, scopes_exit(st2)),
                    }
                },
            }
        },
        FeatureM::Attribute(a) => {
            let st1 = st.push(Map::empty());
            match a.init {
                None => (None, f, scopes_exit(st1)),
                Some(init) => {
                    let (r, i2, st2) = tc_expr(init, st1, ct);
                    let f2 = FeatureM::Attribute(VarDeclM { init: Some(i2), ..a });
                    match r {
                        Err(e) => (Some(in_file(e, file)), f2, st2),
                        Ok(t) => if a.type_ is Some && !spec_less_or_equal(ct, a.type_->Some_0, t) {
                            (
                                Some(err_in("Some semantic errors occurred in your Assignment!"@, Some(a.position), file)),
                                f2,
                                st2,
                            )
                        } else {
                            (None, f2, scopes_exit(st2))
                        },
                    }
                },
            }
        },
    }
}

/// Checks the features of a class of `file` from index `j` on.
pub open spec fn check_features(file: Seq<char>, fs: Seq<FeatureM>, j: int, st: Scopes, ct: ClassTableM) -> (
    Option<ErrM>,
    Seq<FeatureM>,
    Scopes,
)
    decreases fs.len() - j,
{
    if j < 0 || j >= fs.len() {
        (None, fs, st)
    } else {
        let (r, f2, st2) = check_feature(file, fs[j], st, ct);
        let fs2 = fs.update(j, f2);
        match r {
            Some(e) => (Some(e), fs2, st2),
            None => check_features(file, fs2, j + 1, st2, ct),
        }
    }
}

/// Checks a class: `self` names it, and the attributes of its chain are in
/// scope.
pub open spec fn check_class(c: ClassM, st: Scopes, ct: ClassTableM) -> (Option<ErrM>, ClassM, Scopes) {
    let st1 = scopes_add(st.push(Map::empty()), SELF@, c.name);
    let st2 = if ct.inheritance.contains_key(c.name) {
        bind_chain(st1, ct.inheritance[c.name], 0)
    } else {
        st1
    };
    let (r, fs2, st3) = check_features(c.file_name, c.features, 0, st2, ct);
    let c2 = ClassM { features: fs2, ..c };
    match r {
        Some(e) => (Some(e), c2, st3),
        None => (None, c2, scopes_exit(st3)),
    }
}

/// Checks the classes from index `i` on.
pub open spec fn check_classes(cs: Seq<ClassM>, i: int, st: Scopes, ct: ClassTableM) -> (
    Option<ErrM>,
    Seq<ClassM>,
    Scopes,
)
    decreases cs.len() - i,
{
    if i < 0 || i >= cs.len() {
        (None, cs, st)
    } else {
        let (r, c2, st2) = check_class(cs[i], st, ct);
        let cs2 = cs.update(i, c2);
        match r {
            Some(e) => (Some(e), cs2, st2),
            None => check_classes(cs2, i + 1, st2, ct),
        }
    }
}

/// The phases after the walks pass: the chains are recorded, the
/// constructors collected and the overrides checked, each without an
/// error.
pub open spec fn later_phases_pass(cs: Seq<ClassM>, ct: ClassTableM) -> bool {
    let classes = enter_classes(cs, 0, ct.classes).1;
    let (e2, inh) = inherit_classes(cs, 0, classes, ct.inheritance);
    &&& e2 is None
    &&& collect_ctors(cs, 0, ct.class_constructors).0 is None
    &&& override_classes(cs, 0, inh) is None
}

/// The class table that the typing pass works with: the classes entered,
/// the chains recorded and the constructors collected.
pub open spec fn checked_table(cs: Seq<ClassM>, ct: ClassTableM) -> ClassTableM {
    ClassTableM {
        classes: enter_classes(cs, 0, ct.classes).1,
        inheritance: inherit_classes(cs, 0, enter_classes(cs, 0, ct.classes).1, ct.inheritance).1,
        class_constructors: collect_ctors(cs, 0, ct.class_constructors).1,
    }
}

/// Every class of the chain has a type on each attribute.
pub open spec fn chain_typed(v: Seq<ClassM>) -> bool {
    forall|i: int| 0 <= i < v.len() ==> attrs_typed(#[trigger] v[i])
}

/// Whether checking a method body, as `check_method_body` does, reaches a
/// step the checker cannot take (see `tc_stuck`).
pub open spec fn method_body_stuck(
    file: Seq<char>,
    m: MethodDeclM,
    b: Seq<ExprM>,
    k: int,
    returned: bool,
    st: Scopes,
    ct: ClassTableM,
) -> bool
    decreases b.len() - k,
{
    if k < 0 || k >= b.len() {
        false
    } else {
        let (r, e2, st2) = tc_expr(b[k], st, ct);
        tc_stuck(b[k], st, ct) || match r {
            Err(_) => false,
            Ok(t) => if b[k] is Return && !spec_less_or_equal(ct, t, m.return_type) {
                false
            } else {
                method_body_stuck(file, m, b.update(k, e2), k + 1, returned || b[k] is Return, st2, ct)
            },
        }
    }
}

/// Whether checking a constructor body, as `check_ctor_body` does, gets
/// stuck.
pub open spec fn ctor_body_stuck(file: Seq<char>, b: Seq<ExprM>, k: int, st: Scopes, ct: ClassTableM) -> bool
    decreases b.len() - k,
{
    if k < 0 || k >= b.len() || b[k] is Return {
        false
    } else {
        let (r, e2, st2) = tc_expr(b[k], st, ct);
        tc_stuck(b[k], st, ct) || (r is Ok && ctor_body_stuck(file, b.update(k, e2), k + 1, st2, ct))
    }
}

/// Whether checking a feature, as `check_feature` does, gets stuck.
pub open spec fn feature_stuck(file: Seq<char>, f: FeatureM, st: Scopes, ct: ClassTableM) -> bool {
    match f {
        FeatureM::Method(m) => match m.body {
            None => false,
            Some(b) => method_body_stuck(file, m, b, 0, false, bind_params(st.push(Map::empty()), m.param, 0), ct),
        },
        FeatureM::Constructor(d) => match d.body {
            None => false,
            Some(b) => ctor_body_stuck(file, b, 0, bind_params(st.push(Map::empty()), d.param, 0), ct),
        },
        FeatureM::Attribute(a) => match a.init {
            None => false,
            Some(init) => tc_stuck(init, st.push(Map::empty()), ct),
        },
    }
}

/// Whether checking the features from index `j` on, as `check_features`
/// does, gets stuck.
pub open spec fn features_stuck(file: Seq<char>, fs: Seq<FeatureM>, j: int, st: Scopes, ct: ClassTableM) -> bool
    decreases fs.len() - j,
{
    if j < 0 || j >= fs.len() {
        false
    } else {
        let (r, f2, st2) = check_feature(file, fs[j], st, ct);
        feature_stuck(file, fs[j], st, ct) || (r is None && features_stuck(file, fs.update(j, f2), j + 1, st2, ct))
    }
}

/// Whether checking a class, as `check_class` does, gets stuck: on binding
/// an attribute of its chain that has no type, or inside a feature.
pub open spec fn class_stuck(c: ClassM, st: Scopes, ct: ClassTableM) -> bool {
    let st1 = scopes_add(st.push(Map::empty()), SELF@, c.name);
    if ct.inheritance.contains_key(c.name) {
        !chain_typed(ct.inheritance[c.name]) || features_stuck(c.file_name, c.features, 0, bind_chain(st1, ct.inheritance[c.name], 0), ct)
    } else {
        features_stuck(c.file_name, c.features, 0, st1, ct)
    }
}

/// Whether checking the classes from index `i` on, as `check_classes`
/// does, gets stuck.
pub open spec fn classes_stuck(cs: Seq<ClassM>, i: int, st: Scopes, ct: ClassTableM) -> bool
    decreases cs.len() - i,
{
    if i < 0 || i >= cs.len() {
        false
    } else {
        let (r, c2, st2) = check_class(cs[i], st, ct);
        class_stuck(cs[i], st, ct) || (r is None && classes_stuck(cs.update(i, c2), i + 1, st2, ct))
    }
}

/// What the semantic check needs of its input, once the classes enter the
/// table and the program has its `Main` class and `main` method: the walks
/// up the inheritance chains end; and, when the phases before the typing
/// pass, the typing pass, started in the scopes `st`, never binds an
/// attribute without a type, reads the type of a field without one, or
/// looks up the constructors of a class that has none recorded.
pub open spec fn check_ready(cs: Seq<ClassM>, ct: ClassTableM, st: Scopes) -> bool {
    (enter_classes(cs, 0, ct.classes).0 is None && has_main_class(cs) && has_main_method(cs)) ==> {
        &&& walks_end(cs, enter_classes(cs, 0, ct.classes).1)
        &&& later_phases_pass(cs, ct) ==> !classes_stuck(cs, 0, st, checked_table(cs, ct))
    }
}

/// A condition that gives `check_ready`'s last part: each class of the
/// table has its constructors recorded, and every attribute of the classes
/// of the table, of the recorded chains and of `cs` has a type.
pub open spec fn check_ready_base(cs: Seq<ClassM>, ct: ClassTableM) -> bool {
    &&& forall|k: Seq<char>| #[trigger] ct.classes.contains_key(k) ==> ct.class_constructors.contains_key(k)
    &&& forall|k: Seq<char>| #[trigger] ct.classes.contains_key(k) ==> attrs_typed(ct.classes[k])
    &&& forall|k: Seq<char>, i: int|
        ct.inheritance.contains_key(k) && 0 <= i < ct.inheritance[k].len() ==> attrs_typed(
            #[trigger] ct.inheritance[k][i],
        )
    &&& forall|i: int| 0 <= i < cs.len() ==> attrs_typed(#[trigger] cs[i])
}

/// The semantic check of the classes `cs` against the class table `ct` and
/// the scopes `st`: its result, the classes with the types found written
/// into them, the class table it leaves and the scopes it leaves.
pub open spec fn semantic_check(cs: Seq<ClassM>, ct: ClassTableM, st: Scopes) -> (
    Result<Seq<ClassM>, ErrM>,
    Seq<ClassM>,
    ClassTableM,
    Scopes,
) {
    let (e1, classes) = enter_classes(cs, 0, ct.classes);
    let ct1 = ClassTableM { classes, ..ct };
    if e1 is Some {
        (Err(e1->Some_0), cs, ct1, st)
    } else if !has_main_class(cs) {
        (Err(err_in("Your program is missing the Main class"@, None, Seq::empty())), cs, ct1, st)
    } else if !has_main_method(cs) {
        (Err(err_in("Your program is missing the Main function"@, None, Seq::empty())), cs, ct1, st)
    } else {
        let (e2, inh) = inherit_classes(cs, 0, classes, ct.inheritance);
        let ct2 = ClassTableM { inheritance: inh, ..ct1 };
        if e2 is Some {
            (Err(e2->Some_0), cs, ct2, st)
        } else {
            let (e3, ctors) = collect_ctors(cs, 0, ct.class_constructors);
            let ct3 = ClassTableM { class_constructors: ctors, ..ct2 };
            if e3 is Some {
                (Err(e3->Some_0), cs, ct3, st)
            } else {
                let e4 = override_classes(cs, 0, inh);
                if e4 is Some {
                    (Err(e4->Some_0), cs, ct3, st)
                } else {
                    let (e5, cs5, st5) = check_classes(cs, 0, st, ct3);
                    match e5 {
                        Some(e) => (Err(e), cs5, ct3, st5),
                        None => (Ok(cs5), cs5, ct3, st5),
                    }
                }
            }
        }
    }
}


/// Entering classes without an error keeps the names already in the table,
/// adds the names of the classes entered and no others, and keeps every
/// attribute typed when all of them were.
pub proof fn lemma_enter_classes(cs: Seq<ClassM>, i: int, t: ClassMap)
    requires
        0 <= i <= cs.len(),
        enter_classes(cs, i, t).0 is None,
    ensures
        forall|k: Seq<char>| t.contains_key(k) ==> #[trigger] enter_classes(cs, i, t).1.contains_key(k),
        forall|j: int| i <= j < cs.len() ==> enter_classes(cs, i, t).1.contains_key(#[trigger] cs[j].name),
        forall|k: Seq<char>|
            #[trigger] enter_classes(cs, i, t).1.contains_key(k) ==> t.contains_key(k) || exists|j: int|
                i <= j < cs.len() && (#[trigger] cs[j]).name == k,
        (forall|k: Seq<char>| #[trigger] t.contains_key(k) ==> attrs_typed(t[k])) && (forall|j: int|
            i <= j < cs.len() ==> attrs_typed(#[trigger] cs[j])) ==> forall|k: Seq<char>|
            #[trigger] enter_classes(cs, i, t).1.contains_key(k) ==> attrs_typed(enter_classes(cs, i, t).1[k]),
    decreases cs.len() - i,
{
    if i < cs.len() {
        let t2 = t.insert(cs[i].name, cs[i]);
        lemma_enter_classes(cs, i + 1, t2);
        let r = enter_classes(cs, i, t).1;
        assert forall|k: Seq<char>| #[trigger] r.contains_key(k) implies t.contains_key(k) || exists|j: int|
            i <= j < cs.len() && (#[trigger] cs[j]).name == k by {
            if !t2.contains_key(k) {
                let j = choose|j: int| i + 1 <= j < cs.len() && (#[trigger] cs[j]).name == k;
                assert(i <= j < cs.len() && cs[j].name == k);
            } else if k == cs[i].name {
                assert(i <= i < cs.len() && cs[i].name == k);
            }
        }
        if (forall|k: Seq<char>| #[trigger] t.contains_key(k) ==> attrs_typed(t[k])) && (forall|j: int|
            i <= j < cs.len() ==> attrs_typed(#[trigger] cs[j])) {
            assert(attrs_typed(cs[i]));
            assert forall|k: Seq<char>| #[trigger] t2.contains_key(k) implies attrs_typed(t2[k]) by {
                if k != cs[i].name {
                    assert(t.contains_key(k));
                }
            }
            assert forall|j: int| i + 1 <= j < cs.len() implies attrs_typed(#[trigger] cs[j]) by {
                assert(attrs_typed(cs[j]));
            }
        }
    }
}

/// Collecting constructors without an error keeps the names already there
/// and adds the name of each class it goes through.
pub proof fn lemma_collect_ctors(cs: Seq<ClassM>, i: int, m: Map<Seq<char>, Seq<ConstructorDeclM>>)
    requires
        0 <= i <= cs.len(),
        collect_ctors(cs, i, m).0 is None,
    ensures
        forall|k: Seq<char>| m.contains_key(k) ==> #[trigger] collect_ctors(cs, i, m).1.contains_key(k),
        forall|j: int| i <= j < cs.len() ==> collect_ctors(cs, i, m).1.contains_key(#[trigger] cs[j].name),
    decreases cs.len() - i,
{
    if i < cs.len() {
        let v = ctor_list(cs[i], 0, Seq::empty())->Ok_0;
        lemma_collect_ctors(cs, i + 1, m.insert(cs[i].name, v));
    }
}

/// Every class on a chain that the walk gives is typed, when every class
/// of the table and of the chain it starts from is.
pub proof fn lemma_walk_typed(t: ClassMap, c: ClassM, cur: Option<Seq<char>>, chain: Seq<ClassM>, fuel: nat)
    requires
        forall|k: Seq<char>| #[trigger] t.contains_key(k) ==> attrs_typed(t[k]),
        forall|j: int| 0 <= j < chain.len() ==> attrs_typed(#[trigger] chain[j]),
        walk(t, c, cur, chain, fuel) matches Some(Ok(_)),
    ensures
        forall|j: int|
            0 <= j < walk(t, c, cur, chain, fuel)->Some_0->Ok_0.len() ==> attrs_typed(
                #[trigger] walk(t, c, cur, chain, fuel)->Some_0->Ok_0[j],
            ),
    decreases fuel,
{
    match cur {
        None => {},
        Some(p) => {
            if p != "None"@ && p != c.name && t.contains_key(p) && fuel > 0 {
                let chain2 = seq![t[p]] + chain;
                assert forall|j: int| 0 <= j < chain2.len() implies attrs_typed(#[trigger] chain2[j]) by {
                    if j > 0 {
                        assert(chain2[j] == chain[j - 1]);
                    }
                }
                lemma_walk_typed(t, c, t[p].parent, chain2, (fuel - 1) as nat);
            }
        },
    }
}

/// The chains that are recorded are typed, when the table, the chains
/// already recorded and the classes walked from are.
pub proof fn lemma_inherit_typed(cs: Seq<ClassM>, i: int, t: ClassMap, inh: Map<Seq<char>, Seq<ClassM>>)
    requires
        0 <= i <= cs.len(),
        forall|k: Seq<char>| #[trigger] t.contains_key(k) ==> attrs_typed(t[k]),
        forall|k: Seq<char>, j: int|
            inh.contains_key(k) && 0 <= j < inh[k].len() ==> attrs_typed(#[trigger] inh[k][j]),
        forall|j: int| 0 <= j < cs.len() ==> attrs_typed(#[trigger] cs[j]),
    ensures
        forall|k: Seq<char>, j: int|
            inherit_classes(cs, i, t, inh).1.contains_key(k) && 0 <= j < inherit_classes(cs, i, t, inh).1[k].len()
                ==> attrs_typed(#[trigger] inherit_classes(cs, i, t, inh).1[k][j]),
    decreases cs.len() - i,
{
    if i < cs.len() {
        match walk_result(t, cs[i]) {
            Some(Ok(chain)) => {
                let c = cs[i];
                let n = choose|n: nat| (#[trigger] walk(t, c, c.parent, seq![c], n)) is Some;
                assert(attrs_typed(c));
                assert forall|j: int| 0 <= j < seq![c].len() implies attrs_typed(#[trigger] seq![c][j]) by {
                    assert(seq![c][j] == c);
                }
                lemma_walk_typed(t, c, c.parent, seq![c], n);
                assert(chain == walk(t, c, c.parent, seq![c], n)->Some_0->Ok_0);
                assert forall|j: int| 0 <= j < chain.len() implies attrs_typed(#[trigger] chain[j]) by {
                    assert(chain[j] == walk(t, c, c.parent, seq![c], n)->Some_0->Ok_0[j]);
                }
                let w = with_object(t, chain);
                assert forall|j: int| 0 <= j < w.len() implies attrs_typed(#[trigger] w[j]) by {
                    if t.contains_key(OBJECT@) {
                        if j == 0 {
                            assert(w[j] == t[OBJECT@]);
                        } else {
                            assert(w[j] == chain[j - 1]);
                        }
                    } else {
                        assert(w[j] == chain[j]);
                    }
                }
                let inh2 = inh.insert(cs[i].name, w);
                assert forall|k: Seq<char>, j: int| inh2.contains_key(k) && 0 <= j < inh2[k].len() implies attrs_typed(
                    #[trigger] inh2[k][j],
                ) by {
                    if k != cs[i].name {
                        assert(inh2[k] == inh[k]);
                    }
                }
                lemma_inherit_typed(cs, i + 1, t, inh2);
                assert(inherit_classes(cs, i, t, inh) == inherit_classes(cs, i + 1, t, inh2));
            },
            Some(Err(_)) => {},
            None => {
                lemma_inherit_typed(cs, i + 1, t, inh);
                assert(inherit_classes(cs, i, t, inh) == inherit_classes(cs, i + 1, t, inh));
            },
        }
    }
}
/// More fuel does not change a walk that ends.
pub proof fn lemma_walk_fuel(t: ClassMap, c: ClassM, cur: Option<Seq<char>>, chain: Seq<ClassM>, n: nat, m: nat)
    requires
        walk(t, c, cur, chain, n) is Some,
        n <= m,
    ensures
        walk(t, c, cur, chain, m) == walk(t, c, cur, chain, n),
    decreases n,
{
    if let Some(p) = cur {
        if p != "None"@ && p != c.name && t.contains_key(p) && n > 0 {
            lemma_walk_fuel(t, c, t[p].parent, seq![t[p]] + chain, (n - 1) as nat, (m - 1) as nat);
        }
    }
}

/// The walks up from the classes, taken in order, each end within `fuel`
/// steps, until one of them ends with an error.
pub open spec fn walks_within(cs: Seq<ClassM>, t: ClassMap, fuel: nat) -> bool {
    forall|i: int|
        0 <= i < cs.len() && (forall|j: int|
            0 <= j < i ==> (#[trigger] walk(t, cs[j], cs[j].parent, seq![cs[j]], fuel)) matches Some(Ok(_))) ==> (
        #[trigger] walk(t, cs[i], cs[i].parent, seq![cs[i]], fuel)) is Some
}

proof fn lemma_prefix_ok(cs: Seq<ClassM>, t: ClassMap, fuel: nat, k: int)
    requires
        walks_within(cs, t, fuel),
        0 <= k <= cs.len(),
        forall|j: int| 0 <= j < k ==> walk_ok(t, #[trigger] cs[j]),
    ensures
        forall|j: int| 0 <= j < k ==> (#[trigger] walk(t, cs[j], cs[j].parent, seq![cs[j]], fuel)) matches Some(Ok(_)),
    decreases k,
{
    if k > 0 {
        lemma_prefix_ok(cs, t, fuel, k - 1);
        let c = cs[k - 1];
        assert(walk(t, c, c.parent, seq![c], fuel) is Some);
        assert(walk_ok(t, c));
        let n0 = choose|n: nat| (#[trigger] walk(t, c, c.parent, seq![c], n)) is Some;
        if n0 <= fuel {
            lemma_walk_fuel(t, c, c.parent, seq![c], n0, fuel);
        } else {
            lemma_walk_fuel(t, c, c.parent, seq![c], fuel, n0);
        }
    }
}

/// When the walks end within some number of steps, they end.
pub proof fn lemma_walks_within(cs: Seq<ClassM>, t: ClassMap, fuel: nat)
    requires
        walks_within(cs, t, fuel),
    ensures
        walks_end(cs, t),
{
    assert forall|i: int| 0 <= i < cs.len() && (forall|j: int| 0 <= j < i ==> walk_ok(t, #[trigger] cs[j])) implies walk_ends(
        t,
        #[trigger] cs[i],
    ) by {
        lemma_prefix_ok(cs, t, fuel, i);
        assert(walk(t, cs[i], cs[i].parent, seq![cs[i]], fuel) is Some);
    }
}


proof fn lemma_ready_method_body(
    file: Seq<char>,
    m: MethodDeclM,
    b: Seq<ExprM>,
    k: int,
    returned: bool,
    st: Scopes,
    ct: ClassTableM,
)
    requires
        tc_ready(ct),
    ensures
        !method_body_stuck(file, m, b, k, returned, st, ct),
    decreases b.len() - k,
{
    if 0 <= k < b.len() {
        lemma_ready_expr(b[k], st, ct);
        let (r, e2, st2) = tc_expr(b[k], st, ct);
        lemma_ready_method_body(file, m, b.update(k, e2), k + 1, returned || b[k] is Return, st2, ct);
    }
}

proof fn lemma_ready_ctor_body(file: Seq<char>, b: Seq<ExprM>, k: int, st: Scopes, ct: ClassTableM)
    requires
        tc_ready(ct),
    ensures
        !ctor_body_stuck(file, b, k, st, ct),
    decreases b.len() - k,
{
    if 0 <= k < b.len() && !(b[k] is Return) {
        lemma_ready_expr(b[k], st, ct);
        let (r, e2, st2) = tc_expr(b[k], st, ct);
        lemma_ready_ctor_body(file, b.update(k, e2), k + 1, st2, ct);
    }
}

proof fn lemma_ready_features(file: Seq<char>, fs: Seq<FeatureM>, j: int, st: Scopes, ct: ClassTableM)
    requires
        tc_ready(ct),
    ensures
        !features_stuck(file, fs, j, st, ct),
    decreases fs.len() - j,
{
    if 0 <= j < fs.len() {
        match fs[j] {
            FeatureM::Method(m) => if let Some(b) = m.body {
                lemma_ready_method_body(file, m, b, 0, false, bind_params(st.push(Map::empty()), m.param, 0), ct);
            },
            FeatureM::Constructor(d) => if let Some(b) = d.body {
                lemma_ready_ctor_body(file, b, 0, bind_params(st.push(Map::empty()), d.param, 0), ct);
            },
            FeatureM::Attribute(a) => if let Some(init) = a.init {
                lemma_ready_expr(init, st.push(Map::empty()), ct);
            },
        }
        let (r, f2, st2) = check_feature(file, fs[j], st, ct);
        lemma_ready_features(file, fs.update(j, f2), j + 1, st2, ct);
    }
}

/// Under a class table where every class has its constructors recorded and
/// every attribute of a chain its type, the typing pass never gets stuck.
pub proof fn lemma_ready_classes(cs: Seq<ClassM>, i: int, st: Scopes, ct: ClassTableM)
    requires
        tc_ready(ct),
    ensures
        !classes_stuck(cs, i, st, ct),
    decreases cs.len() - i,
{
    if 0 <= i < cs.len() {
        let c = cs[i];
        let st1 = scopes_add(st.push(Map::empty()), SELF@, c.name);
        if ct.inheritance.contains_key(c.name) {
            let chain = ct.inheritance[c.name];
            assert forall|p: int| 0 <= p < chain.len() implies attrs_typed(#[trigger] chain[p]) by {
                assert forall|q: int| 0 <= q < chain[p].features.len() && #[trigger] chain[p].features[q] is Attribute implies chain[p].features[q]->Attribute_0.type_ is Some by {
                    assert(ct.inheritance[c.name][p].features[q] is Attribute);
                }
            }
            lemma_ready_features(c.file_name, c.features, 0, bind_chain(st1, chain, 0), ct);
        } else {
            lemma_ready_features(c.file_name, c.features, 0, st1, ct);
        }
        let (r, c2, st2) = check_class(cs[i], st, ct);
        lemma_ready_classes(cs.update(i, c2), i + 1, st2, ct);
    }
}

/// `check_ready_base` gives the last part of `check_ready`: once the phases
/// before the typing pass succeed, the class table they leave has every
/// class's constructors and every chain typed, so the typing pass never
/// gets stuck.
pub proof fn lemma_base_not_stuck(cs: Seq<ClassM>, ct: ClassTableM, st: Scopes)
    requires
        check_ready_base(cs, ct),
        enter_classes(cs, 0, ct.classes).0 is None,
    ensures
        later_phases_pass(cs, ct) ==> !classes_stuck(cs, 0, st, checked_table(cs, ct)),
{
    if later_phases_pass(cs, ct) {
        let t1 = enter_classes(cs, 0, ct.classes).1;
        let ct3 = checked_table(cs, ct);
        lemma_enter_classes(cs, 0, ct.classes);
        lemma_collect_ctors(cs, 0, ct.class_constructors);
        lemma_inherit_typed(cs, 0, t1, ct.inheritance);
        assert forall|k: Seq<char>| #[trigger] ct3.classes.contains_key(k) implies ct3.class_constructors.contains_key(k) by {
            if !ct.classes.contains_key(k) {
                let j = choose|j: int| 0 <= j < cs.len() && (#[trigger] cs[j]).name == k;
                assert(ct3.class_constructors.contains_key(cs[j].name));
            }
        }
        assert forall|k: Seq<char>, i: int, j: int|
            #![trigger ct3.inheritance[k][i].features[j]]
            ct3.inheritance.contains_key(k) && 0 <= i < ct3.inheritance[k].len() && 0 <= j
                < ct3.inheritance[k][i].features.len() && ct3.inheritance[k][i].features[j] is Attribute
            implies ct3.inheritance[k][i].features[j]->Attribute_0.type_ is Some by {
            assert(attrs_typed(ct3.inheritance[k][i]));
        }
        assert(tc_ready(ct3));
        lemma_ready_classes(cs, 0, st, ct3);
    }
}

} // verus!
