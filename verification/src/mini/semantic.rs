use vstd::prelude::*;

use super::ast::{mini_class_view, Class, MiniClassM};
use super::table::ClassTable;
use crate::parser::ast::opt_string_view;
use crate::semantic::type_checker::cat3;
use crate::utils::table::TableValue;

verus! {

/// The checker of the small language: it enters the classes into a class
/// table, asks for a `Main` class, and walks each inheritance chain.
pub struct SemanticChecker {
    classes: Vec<Class>,
}

/// Why a program of the small language was refused.
#[derive(Debug)]
pub struct SemanticError {
    pub err_msg: String,
}

/// Enters the classes from index `i` on into the table; a name that is
/// there already stops it, with the message for it.
pub open spec fn enter_mini(cs: Seq<MiniClassM>, i: int, t: Map<Seq<char>, MiniClassM>) -> (
    Option<Seq<char>>,
    Map<Seq<char>, MiniClassM>,
)
    decreases cs.len() - i,
{
    if i < 0 || i >= cs.len() {
        (None, t)
    } else if t.contains_key(cs[i].name) {
        (Some("Class "@ + cs[i].name + " has been redefined!"@), t)
    } else {
        enter_mini(cs, i + 1, t.insert(cs[i].name, cs[i]))
    }
}

/// The walk up from a parent comes to an end within `fuel` steps: at a
/// parent called `None`, or at no parent while the table knows `Object`.
pub open spec fn mini_walk_ends(t: Map<Seq<char>, MiniClassM>, p: Option<Seq<char>>, fuel: nat) -> bool
    decreases fuel,
{
    match p {
        Some(s) => s == "None"@ || (t.contains_key(s) && fuel > 0 && mini_walk_ends(t, t[s].parent, (fuel - 1) as nat)),
        None => t.contains_key("Object"@),
    }
}

impl TableValue for Class {
    fn duplicate(&self) -> (r: Self) {
        self.clone_mini()
    }
}

/// The program has a class called `Main`.
pub open spec fn has_mini_main(cs: Seq<MiniClassM>) -> bool {
    exists|i: int| 0 <= i < cs.len() && (#[trigger] cs[i]).name == "Main"@
}

/// More fuel does not stop a walk that ends.
proof fn lemma_mini_walk_fuel(t: Map<Seq<char>, MiniClassM>, p: Option<Seq<char>>, n: nat, m: nat)
    requires
        mini_walk_ends(t, p, n),
        n <= m,
    ensures
        mini_walk_ends(t, p, m),
    decreases n,
{
    if let Some(s) = p {
        if s != "None"@ {
            lemma_mini_walk_fuel(t, t[s].parent, (n - 1) as nat, (m - 1) as nat);
        }
    }
}

/// Each walk up from a class ends within `fuel` steps.
pub open spec fn mini_walks_within(cs: Seq<MiniClassM>, t: Map<Seq<char>, MiniClassM>, fuel: nat) -> bool {
    forall|i: int| 0 <= i < cs.len() ==> mini_walk_ends(t, (#[trigger] cs[i]).parent, fuel)
}

/// What the check needs to stop: each walk up from a class ends.
pub open spec fn mini_walks_end(cs: Seq<MiniClassM>, t: Map<Seq<char>, MiniClassM>) -> bool {
    forall|i: int| 0 <= i < cs.len() ==> exists|n: nat| #[trigger] mini_walk_ends(t, (#[trigger] cs[i]).parent, n)
}

pub open spec fn mini_classes_view(v: Seq<Class>) -> Seq<MiniClassM> {
    v.map_values(|c: Class| mini_class_view(c))
}

impl SemanticChecker {
    /// The classes the checker holds.
    pub closed spec fn classes_view(&self) -> Seq<MiniClassM> {
        mini_classes_view(self.classes@)
    }

    pub fn new(classes_: Vec<Class>) -> (r: SemanticChecker)
        ensures
            r.classes_view() == mini_classes_view(classes_@),
    {
        SemanticChecker { classes: classes_ }
    }

    /// Enters the classes into the table: a class defined twice is an
    /// error, and so is a program without `Main`; then the chain of each
    /// class is walked up to its end.
    #[verifier::loop_isolation(false)]
    pub fn check(&self, class_table: &mut ClassTable) -> (r: Result<bool, SemanticError>)
        requires
            (enter_mini(self.classes_view(), 0, old(class_table).classes.map()).0 is None && has_mini_main(
                self.classes_view(),
            )) ==> mini_walks_end(self.classes_view(), enter_mini(self.classes_view(), 0, old(class_table).classes.map()).1),
        ensures
            final(class_table).classes.map() == enter_mini(self.classes_view(), 0, old(class_table).classes.map()).1,
            final(class_table).inheritance == old(class_table).inheritance,
            match enter_mini(self.classes_view(), 0, old(class_table).classes.map()).0 {
                Some(m) => r matches Err(e) && e.err_msg@ == m,
                None => if exists|i: int|
                    0 <= i < self.classes_view().len() && (#[trigger] self.classes_view()[i]).name == "Main"@ {
                    r matches Ok(b) && b
                } else {
                    r matches Err(e) && e.err_msg@ == "Your program is missing the Main class"@
                },
            },
    {
        let ghost cv = self.classes_view();
        let ghost t0 = class_table.classes.map();
        let main_name = String::from_str("Main");
        let mut main_flag = false;
        assert(cv.len() == self.classes@.len());
        for i in 0..self.classes.len()
            invariant
                cv == mini_classes_view(self.classes@),
                cv.len() == self.classes@.len(),
                class_table.inheritance == old(class_table).inheritance,
                enter_mini(cv, 0, t0) == enter_mini(cv, i as int, class_table.classes.map()),
                main_flag == exists|k: int| 0 <= k < i && (#[trigger] cv[k]).name == "Main"@,
        {
            let c = &self.classes[i];
            assert(cv[i as int] == mini_class_view(*c));
            if c.name == main_name {
                main_flag = true;
            }
            if class_table.classes.contains_key(&c.name) {
                return Err(SemanticError { err_msg: cat3("Class ", &c.name, " has been redefined!") });
            }
            class_table.classes.insert(c.name.clone(), c.clone_mini());
        }
        if !main_flag {
            return Err(SemanticError { err_msg: String::from_str("Your program is missing the Main class") });
        }
        let ghost t1 = class_table.classes.map();
        let object_name = String::from_str("Object");
        let none_name = String::from_str("None");
        for i in 0..self.classes.len()
            invariant
                cv == mini_classes_view(self.classes@),
                cv.len() == self.classes@.len(),
                t1 == class_table.classes.map(),
                mini_walks_end(cv, t1),
        {
            let c = &self.classes[i];
            assert(cv[i as int] == mini_class_view(*c));
            let ghost mut fuel: nat = choose|n: nat| #[trigger] mini_walk_ends(t1, cv[i as int].parent, n);
            let mut curr_parent: Option<String> = match &c.parent {
                Some(p) => Some(p.clone()),
                None => None,
            };
            loop
                invariant
                    t1 == class_table.classes.map(),
                    mini_walk_ends(t1, opt_string_view(curr_parent), fuel),
                decreases fuel,
            {
                match &curr_parent {
                    Some(s) => {
                        if *s == none_name {
                            break;
                        }
                        let next = match class_table.classes.get(s) {
                            Some(pc) => match &pc.parent {
                                Some(p) => Some(p.clone()),
                                None => None,
                            },
                            None => vstd::pervasive::unreached(),
                        };
                        curr_parent = next;
                        proof {
                            fuel = (fuel - 1) as nat;
                        }
                    },
                    None => {
                        if class_table.classes.contains_key(&object_name) {
                            break;
                        }
                        vstd::pervasive::unreached::<()>();
                    },
                }
            }
        }
        Ok(true)
    }
}

/// The number of steps that `check_ready` lets each walk take: one more
/// than the classes of the table and of the program together.
pub open spec fn mini_bound(n_table: int, n_classes: int) -> nat {
    if n_table + n_classes + 1 <= usize::MAX {
        (n_table + n_classes + 1) as nat
    } else {
        usize::MAX as nat
    }
}

impl SemanticChecker {
    /// Whether `check` can be run on `class_table`: when the classes enter
    /// the table and one of them is `Main`, each walk up an inheritance
    /// chain must end within `mini_bound` steps.
    #[verifier::loop_isolation(false)]
    pub fn check_ready(&self, class_table: &ClassTable) -> (r: bool)
        ensures
            r == ((enter_mini(self.classes_view(), 0, class_table.classes.map()).0 is None && has_mini_main(
                self.classes_view(),
            )) ==> mini_walks_within(
                self.classes_view(),
                enter_mini(self.classes_view(), 0, class_table.classes.map()).1,
                mini_bound(class_table.classes.entries@.len() as int, self.classes_view().len() as int),
            )),
            r ==> ((enter_mini(self.classes_view(), 0, class_table.classes.map()).0 is None && has_mini_main(
                self.classes_view(),
            )) ==> mini_walks_end(self.classes_view(), enter_mini(self.classes_view(), 0, class_table.classes.map()).1)),
    {
        let ghost cv = self.classes_view();
        let ghost entered = enter_mini(cv, 0, class_table.classes.map());
        let mut t = class_table.classes.duplicate_map();
        let main_name = String::from_str("Main");
        let mut main_flag = false;
        assert(cv.len() == self.classes@.len());
        for i in 0..self.classes.len()
            invariant
                cv == mini_classes_view(self.classes@),
                cv.len() == self.classes@.len(),
                entered == enter_mini(cv, 0, class_table.classes.map()),
                entered == enter_mini(cv, i as int, t.map()),
                main_flag == exists|k: int| 0 <= k < i && (#[trigger] cv[k]).name == "Main"@,
        {
            let c = &self.classes[i];
            assert(cv[i as int] == mini_class_view(*c));
            if c.name == main_name {
                main_flag = true;
            }
            if t.contains_key(&c.name) {
                return true;
            }
            t.insert(c.name.clone(), c.clone_mini());
        }
        if !main_flag {
            return true;
        }
        let a = class_table.classes.entries.len();
        let b = self.classes.len();
        let bound: usize = if a < usize::MAX - b {
            a + b + 1
        } else {
            usize::MAX
        };
        let ghost tm = t.map();
        assert(entered.1 == tm);
        let object_name = String::from_str("Object");
        let none_name = String::from_str("None");
        for i in 0..self.classes.len()
            invariant
                cv == mini_classes_view(self.classes@),
                cv.len() == self.classes@.len(),
                tm == t.map(),
                entered.1 == tm,
                entered == enter_mini(cv, 0, class_table.classes.map()),
                bound == mini_bound(class_table.classes.entries@.len() as int, cv.len() as int),
                forall|j: int| 0 <= j < i ==> mini_walk_ends(tm, (#[trigger] cv[j]).parent, bound as nat),
        {
            let c = &self.classes[i];
            assert(cv[i as int] == mini_class_view(*c));
            let ghost start = cv[i as int].parent;
            assert(start == opt_string_view(c.parent));
            let mut cur: Option<String> = match &c.parent {
                Some(p) => Some(p.clone()),
                None => None,
            };
            let mut fuel: usize = bound;
            loop
                invariant
                    tm == t.map(),
                    mini_walk_ends(tm, start, bound as nat) == mini_walk_ends(tm, opt_string_view(cur), fuel as nat),
                decreases fuel,
            {
                match &cur {
                    Some(s) => {
                        if *s == none_name {
                            break;
                        }
                        match t.get(s) {
                            None => {
                                assert(!mini_walks_within(cv, tm, bound as nat)) by {
                                    assert(!mini_walk_ends(tm, cv[i as int].parent, bound as nat));
                                }
                                return false;
                            },
                            Some(pc) => {
                                if fuel == 0 {
                                    assert(!mini_walks_within(cv, tm, bound as nat)) by {
                                        assert(!mini_walk_ends(tm, cv[i as int].parent, bound as nat));
                                    }
                                    return false;
                                }
                                let next = match &pc.parent {
                                    Some(p) => Some(p.clone()),
                                    None => None,
                                };
                                cur = next;
                                fuel = fuel - 1;
                            },
                        }
                    },
                    None => {
                        if t.contains_key(&object_name) {
                            break;
                        }
                        assert(!mini_walks_within(cv, tm, bound as nat)) by {
                            assert(!mini_walk_ends(tm, cv[i as int].parent, bound as nat));
                        }
                        return false;
                    },
                }
            }
        }
        proof {
            assert forall|i: int| 0 <= i < cv.len() implies exists|n: nat| #[trigger] mini_walk_ends(tm, (#[trigger] cv[i]).parent, n) by {
                assert(mini_walk_ends(tm, cv[i].parent, bound as nat));
            }
        }
        true
    }
}

} // verus!
