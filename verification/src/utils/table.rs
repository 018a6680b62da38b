use vstd::prelude::*;

use crate::parser::ast::class::{Class, ClassM, ConstructorDecl, ConstructorDeclM, Feature, FeatureM};
use crate::parser::ast::Type;

verus! {

/// Values that a table can hand out a copy of, the copy being equal to the
/// original in every field.
pub trait TableValue: Sized + DeepView {
    fn duplicate(&self) -> (r: Self)
        ensures
            r.deep_view() == self.deep_view(),
    ;
}

impl TableValue for String {
    fn duplicate(&self) -> (r: Self) {
        self.clone()
    }
}

/// The map that a list of entries stands for: a later entry for a key hides
/// an earlier one.
pub open spec fn entries_map<V: DeepView>(s: Seq<(String, V)>) -> Map<Seq<char>, V::V>
    decreases s.len(),
{
    if s.len() == 0 {
        Map::empty()
    } else {
        entries_map(s.drop_last()).insert(s.last().0@, s.last().1.deep_view())
    }
}

pub open spec fn entries_keys<V>(s: Seq<(String, V)>) -> Seq<Seq<char>> {
    s.map_values(|e: (String, V)| e.0@)
}

pub proof fn lemma_entries_map_last<V: DeepView>(s: Seq<(String, V)>, k: Seq<char>, i: int)
    requires
        0 <= i < s.len(),
        s[i].0@ == k,
        forall|j: int| i < j < s.len() ==> (#[trigger] s[j]).0@ != k,
    ensures
        entries_map(s).contains_key(k),
        entries_map(s)[k] == s[i].1.deep_view(),
    decreases s.len(),
{
    if i < s.len() - 1 {
        lemma_entries_map_last(s.drop_last(), k, i);
    }
}

pub proof fn lemma_entries_map_absent<V: DeepView>(s: Seq<(String, V)>, k: Seq<char>)
    requires
        forall|j: int| 0 <= j < s.len() ==> (#[trigger] s[j]).0@ != k,
    ensures
        !entries_map(s).contains_key(k),
    decreases s.len(),
{
    if s.len() > 0 {
        lemma_entries_map_absent(s.drop_last(), k);
    }
}

/// Every key of the map is the key of some entry, and when every entry's
/// value has a property, every value of the map has it.
pub proof fn lemma_entries_map_from<V: DeepView>(s: Seq<(String, V)>, p: spec_fn(V::V) -> bool)
    ensures
        forall|k: Seq<char>| #[trigger] entries_map(s).contains_key(k) ==> exists|i: int| 0 <= i < s.len() && (#[trigger] s[i]).0@ == k,
        (forall|i: int| 0 <= i < s.len() ==> p((#[trigger] s[i]).1.deep_view())) ==> forall|k: Seq<char>|
            #[trigger] entries_map(s).contains_key(k) ==> p(entries_map(s)[k]),
    decreases s.len(),
{
    if s.len() > 0 {
        let t = s.drop_last();
        lemma_entries_map_from(t, p);
        assert forall|k: Seq<char>| #[trigger] entries_map(s).contains_key(k) implies exists|i: int|
            0 <= i < s.len() && (#[trigger] s[i]).0@ == k by {
            if k != s.last().0@ {
                assert(entries_map(t).contains_key(k));
                let i = choose|i: int| 0 <= i < t.len() && (#[trigger] t[i]).0@ == k;
                assert(s[i] == t[i]);
            } else {
                assert(s[s.len() - 1].0@ == k);
            }
        }
        if forall|i: int| 0 <= i < s.len() ==> p((#[trigger] s[i]).1.deep_view()) {
            assert forall|i: int| 0 <= i < t.len() implies p((#[trigger] t[i]).1.deep_view()) by {
                assert(t[i] == s[i]);
            }
            assert(p(s[s.len() - 1].1.deep_view()));
            assert forall|k: Seq<char>| #[trigger] entries_map(s).contains_key(k) implies p(entries_map(s)[k]) by {
                if k != s.last().0@ {
                    assert(entries_map(t).contains_key(k));
                }
            }
        }
    }
}

pub proof fn lemma_entries_map_update<V: DeepView>(s: Seq<(String, V)>, i: int, e: (String, V))
    requires
        0 <= i < s.len(),
        s[i].0@ == e.0@,
        forall|j: int| i < j < s.len() ==> (#[trigger] s[j]).0@ != e.0@,
    ensures
        entries_map(s.update(i, e)) == entries_map(s).insert(e.0@, e.1.deep_view()),
    decreases s.len(),
{
    if i < s.len() - 1 {
        lemma_entries_map_update(s.drop_last(), i, e);
        assert(s.update(i, e).drop_last() =~= s.drop_last().update(i, e));
        assert(entries_map(s.update(i, e)) =~= entries_map(s).insert(e.0@, e.1.deep_view()));
    } else {
        assert(s.update(i, e).drop_last() =~= s.drop_last());
        assert(entries_map(s.update(i, e)) =~= entries_map(s).insert(e.0@, e.1.deep_view()));
    }
}

/// A map from names to values that keeps the order in which names were
/// first entered.
#[derive(Debug)]
pub struct StrMap<V> {
    pub entries: Vec<(String, V)>,
}

impl<V: DeepView> StrMap<V> {
    pub open spec fn map(&self) -> Map<Seq<char>, V::V> {
        entries_map(self.entries@)
    }

    pub open spec fn keys(&self) -> Seq<Seq<char>> {
        entries_keys(self.entries@)
    }

    pub fn new() -> (m: Self)
        ensures
            m.entries@.len() == 0,
            m.map() == Map::<Seq<char>, V::V>::empty(),
    {
        StrMap { entries: Vec::new() }
    }

    /// The index of the last entry for `k`, if there is one.
    pub fn find_index(&self, k: &String) -> (r: Option<usize>)
        ensures
            match r {
                Some(i) => {
                    &&& i < self.entries@.len()
                    &&& self.entries@[i as int].0@ == k@
                    &&& forall|j: int|
                        i < j < self.entries@.len() ==> (#[trigger] self.entries@[j]).0@ != k@
                },
                None => forall|j: int|
                    0 <= j < self.entries@.len() ==> (#[trigger] self.entries@[j]).0@ != k@,
            },
    {
        let mut i = self.entries.len();
        while i > 0
            invariant
                i <= self.entries@.len(),
                forall|j: int| i <= j < self.entries@.len() ==> (#[trigger] self.entries@[j]).0@ != k@,
            decreases i,
        {
            if self.entries[i - 1].0 == *k {
                return Some(i - 1);
            }
            i = i - 1;
        }
        None
    }

    pub fn contains_key(&self, k: &String) -> (r: bool)
        ensures
            r == self.map().contains_key(k@),
    {
        match self.find_index(k) {
            Some(i) => {
                proof {
                    lemma_entries_map_last(self.entries@, k@, i as int);
                }
                true
            },
            None => {
                proof {
                    lemma_entries_map_absent(self.entries@, k@);
                }
                false
            },
        }
    }

    pub fn get(&self, k: &String) -> (r: Option<&V>)
        ensures
            match r {
                Some(v) => self.map().contains_key(k@) && v.deep_view() == self.map()[k@],
                None => !self.map().contains_key(k@),
            },
    {
        match self.find_index(k) {
            Some(i) => {
                proof {
                    lemma_entries_map_last(self.entries@, k@, i as int);
                }
                Some(&self.entries[i].1)
            },
            None => {
                proof {
                    lemma_entries_map_absent(self.entries@, k@);
                }
                None
            },
        }
    }

    pub fn insert(&mut self, k: String, v: V)
        ensures
            final(self).map() == old(self).map().insert(k@, v.deep_view()),
            old(self).map().contains_key(k@) ==> final(self).keys() == old(self).keys(),
            !old(self).map().contains_key(k@) ==> final(self).keys() == old(self).keys().push(k@),
    {
        match self.find_index(&k) {
            Some(i) => {
                proof {
                    lemma_entries_map_last(self.entries@, k@, i as int);
                    lemma_entries_map_update(self.entries@, i as int, (k, v));
                }
                let ghost old_entries = self.entries@;
                self.entries.set(i, (k, v));
                assert(self.keys() =~= entries_keys(old_entries));
            },
            None => {
                proof {
                    lemma_entries_map_absent(self.entries@, k@);
                }
                let ghost old_entries = self.entries@;
                self.entries.push((k, v));
                assert(self.entries@.drop_last() =~= old_entries);
                assert(self.keys() =~= entries_keys(old_entries).push(k@));
            },
        }
    }
}


impl TableValue for usize {
    fn duplicate(&self) -> (r: Self) {
        *self
    }
}

impl TableValue for Class {
    fn duplicate(&self) -> (r: Self) {
        self.clone_class()
    }
}

impl TableValue for ConstructorDecl {
    fn duplicate(&self) -> (r: Self) {
        self.clone_constructor()
    }
}

impl<T: TableValue> TableValue for Vec<T> {
    fn duplicate(&self) -> (r: Self) {
        let mut r: Vec<T> = Vec::new();
        for i in 0..self.len()
            invariant
                r@.len() == i,
                i <= self@.len(),
                forall|j: int| 0 <= j < i ==> r@[j].deep_view() == self@[j].deep_view(),
        {
            r.push(self[i].duplicate());
        }
        assert(r.deep_view() =~= self.deep_view());
        r
    }
}

impl<V: TableValue> StrMap<V> {
    /// A copy of the whole map, entry by entry.
    pub fn duplicate_map(&self) -> (r: StrMap<V>)
        ensures
            r.map() == self.map(),
            r.keys() == self.keys(),
    {
        let mut entries: Vec<(String, V)> = Vec::new();
        for i in 0..self.entries.len()
            invariant
                entries@.len() == i,
                i <= self.entries@.len(),
                forall|j: int|
                    0 <= j < i ==> (#[trigger] entries@[j]).0@ == self.entries@[j].0@
                        && entries@[j].1.deep_view() == self.entries@[j].1.deep_view(),
        {
            entries.push((self.entries[i].0.clone(), self.entries[i].1.duplicate()));
        }
        proof {
            lemma_entries_map_same(entries@, self.entries@);
        }
        let r = StrMap { entries };
        assert(r.keys() =~= self.keys());
        r
    }
}

pub proof fn lemma_entries_map_same<V: DeepView>(a: Seq<(String, V)>, b: Seq<(String, V)>)
    requires
        a.len() == b.len(),
        forall|j: int|
            0 <= j < a.len() ==> (#[trigger] a[j]).0@ == b[j].0@ && a[j].1.deep_view()
                == b[j].1.deep_view(),
    ensures
        entries_map(a) == entries_map(b),
    decreases a.len(),
{
    if a.len() > 0 {
        lemma_entries_map_same(a.drop_last(), b.drop_last());
    }
}

/// The constants of a program: string literals and class names, integer
/// literals and identifiers, each entered once, in the order first seen.
#[derive(Debug)]
pub struct Tables {
    pub string_table: Vec<String>,
    pub int_table: Vec<String>,
    pub id_table: Vec<String>,
}

/// The table with `s` entered, unless it is there already.
pub open spec fn table_insert(t: Seq<Seq<char>>, s: Seq<char>) -> Seq<Seq<char>> {
    if t.contains(s) {
        t
    } else {
        t.push(s)
    }
}

pub open spec fn table_view(t: Seq<String>) -> Seq<Seq<char>> {
    t.map_values(|s: String| s@)
}

/// Enters `s` at the end of `t` unless an equal string is in it already.
pub fn table_add(t: &mut Vec<String>, s: String)
    ensures
        table_view(final(t)@) == table_insert(table_view(old(t)@), s@),
{
    let mut found = false;
    for i in 0..t.len()
        invariant
            found == (exists|j: int| 0 <= j < i && (#[trigger] t@[j])@ == s@),
    {
        if t[i] == s {
            found = true;
        }
    }
    proof {
        if found {
            let j = choose|j: int| 0 <= j < t@.len() && (#[trigger] t@[j])@ == s@;
            assert(table_view(t@)[j] == s@);
        } else {
            assert forall|j: int| 0 <= j < table_view(t@).len() implies table_view(t@)[j] != s@ by {
                assert(t@[j]@ != s@);
            }
        }
    }
    if !found {
        let ghost old_t = t@;
        t.push(s);
        assert(table_view(t@) =~= table_view(old_t).push(s@));
    }
}

impl Tables {
    pub fn new() -> (t: Tables)
        ensures
            t.string_table@.len() == 0,
            t.int_table@.len() == 0,
            t.id_table@.len() == 0,
    {
        Tables { string_table: Vec::new(), int_table: Vec::new(), id_table: Vec::new() }
    }
}

/// What is known of the classes of a program: each class by name, the chain
/// of classes each inherits from (ending with itself), and its constructors.
#[derive(Debug)]
pub struct ClassTable {
    pub classes: StrMap<Class>,
    pub inheritance: StrMap<Vec<Class>>,
    pub class_constructors: StrMap<Vec<ConstructorDecl>>,
}

/// The plain-text content of a class table.
pub ghost struct ClassTableM {
    pub classes: Map<Seq<char>, ClassM>,
    pub inheritance: Map<Seq<char>, Seq<ClassM>>,
    pub class_constructors: Map<Seq<char>, Seq<ConstructorDeclM>>,
}

impl ClassTable {
    pub open spec fn model(&self) -> ClassTableM {
        ClassTableM {
            classes: self.classes.map(),
            inheritance: self.inheritance.map(),
            class_constructors: self.class_constructors.map(),
        }
    }

    pub open spec fn new_model() -> ClassTableM {
        ClassTableM {
            classes: Map::empty(),
            inheritance: Map::empty(),
            class_constructors: Map::empty(),
        }
    }

    pub fn new() -> (t: ClassTable)
        ensures
            t.model() == ClassTable::new_model(),
            t.model().classes == Map::<Seq<char>, ClassM>::empty(),
            t.model().inheritance == Map::<Seq<char>, Seq<ClassM>>::empty(),
            t.model().class_constructors == Map::<Seq<char>, Seq<ConstructorDeclM>>::empty(),
            t.classes.entries@.len() == 0,
    {
        ClassTable {
            classes: StrMap::new(),
            inheritance: StrMap::new(),
            class_constructors: StrMap::new(),
        }
    }

    /// A copy of the classes by name.
    pub fn get_classes(&mut self) -> (r: StrMap<Class>)
        ensures
            r.map() == old(self).model().classes,
            r.keys() == old(self).classes.keys(),
            final(self).model() == old(self).model(),
            final(self).classes.keys() == old(self).classes.keys(),
    {
        self.classes.duplicate_map()
    }

    /// A copy of the inheritance chains by class name.
    pub fn get_inheritance(&self) -> (r: StrMap<Vec<Class>>)
        ensures
            r.map() == self.model().inheritance,
            r.keys() == self.inheritance.keys(),
    {
        self.inheritance.duplicate_map()
    }

    /// Whether `child` is `parent` or inherits from it.
    pub fn is_less_or_equal(&self, child: &Type, parent: &Type) -> (r: bool)
        ensures
            r == spec_less_or_equal(self.model(), child@, parent@),
    {
        if *child == *parent {
            return true;
        }
        if let Some(v) = self.inheritance.get(child) {
            for i in 0..v.len()
                invariant
                    self.model().inheritance.contains_key(child@),
                    v.deep_view() == self.model().inheritance[child@],
                    forall|j: int| 0 <= j < i ==> (#[trigger] v@[j]).name@ != parent@,
            {
                if v[i].name == *parent {
                    assert(v.deep_view()[i as int].name == parent@);
                    assert(self.model().inheritance[child@][i as int].name == parent@);
                    return true;
                }
            }
            assert forall|j: int| 0 <= j < v.deep_view().len() implies (#[trigger] v.deep_view()[j]).name
                != parent@ by {
                assert(v@[j].name@ != parent@);
            }
        }
        return false;
    }

    /// The class that `child` directly inherits from: the one before it in
    /// its chain.
    pub fn get_parent(&self, child: &Type) -> (r: String)
        requires
            self.model().inheritance.contains_key(child@),
            self.model().inheritance[child@].len() >= 2,
        ensures
            r@ == self.model().inheritance[child@][self.model().inheritance[child@].len() - 2].name,
    {
        let v = self.inheritance.get(child).unwrap();
        assert(v.deep_view().len() == v@.len());
        v[v.len() - 2].name.clone()
    }

    /// The number of attributes that a `child` object holds, its own and
    /// those it inherits.
    pub fn get_attr_num_recursive(&mut self, child: &Type) -> (r: usize)
        requires
            old(self).model().inheritance.contains_key(child@),
            chain_attr_count(old(self).model().inheritance[child@]) <= usize::MAX,
        ensures
            r == chain_attr_count(old(self).model().inheritance[child@]),
            final(self).model() == old(self).model(),
            *final(self) == *old(self),
    {
        let v = self.inheritance.get(child).unwrap();
        let ghost chain = v.deep_view();
        let mut attr_num: usize = 0;
        for i in 0..v.len()
            invariant
                chain == v.deep_view(),
                chain == self.model().inheritance[child@],
                chain_attr_count(chain) <= usize::MAX,
                attr_num == chain_attr_count(chain.take(i as int)),
        {
            proof {
                lemma_chain_attr_count_prefix(chain, i as int);
                assert(chain.take(i + 1).drop_last() =~= chain.take(i as int));
            }
            let fs = &v[i].features;
            let ghost fsv = chain[i as int].features;
            assert(fsv == features_view_of(fs@));
            for j in 0..fs.len()
                invariant
                    fsv == features_view_of(fs@),
                    attr_num == chain_attr_count(chain.take(i as int)) + attr_count(fsv.take(j as int)),
                    chain_attr_count(chain.take(i as int)) + attr_count(fsv) <= usize::MAX,
            {
                proof {
                    assert(fsv.take(j + 1).drop_last() =~= fsv.take(j as int));
                    lemma_attr_count_prefix(fsv, j + 1);
                }
                if let Feature::Attribute(_) = &fs[j] {
                    attr_num = attr_num + 1;
                }
            }
            assert(fsv.take(fs@.len() as int) =~= fsv);
        }
        assert(chain.take(v@.len() as int) =~= chain);
        attr_num
    }
}

pub open spec fn features_view_of(fs: Seq<Feature>) -> Seq<FeatureM> {
    crate::parser::ast::class::features_view(fs)
}

/// The number of attributes among the features.
pub open spec fn attr_count(fs: Seq<FeatureM>) -> int
    decreases fs.len(),
{
    if fs.len() == 0 {
        0
    } else {
        attr_count(fs.drop_last()) + if fs.last() is Attribute {
            1int
        } else {
            0int
        }
    }
}

/// The number of attributes of all the classes of a chain.
pub open spec fn chain_attr_count(cs: Seq<ClassM>) -> int
    decreases cs.len(),
{
    if cs.len() == 0 {
        0
    } else {
        chain_attr_count(cs.drop_last()) + attr_count(cs.last().features)
    }
}

pub proof fn lemma_attr_count_prefix(fs: Seq<FeatureM>, j: int)
    requires
        0 <= j <= fs.len(),
    ensures
        attr_count(fs.take(j)) <= attr_count(fs),
        0 <= attr_count(fs.take(j)),
    decreases fs.len() - j,
{
    lemma_attr_count_nonneg(fs.take(j));
    if j < fs.len() {
        lemma_attr_count_prefix(fs, j + 1);
        assert(fs.take(j + 1).drop_last() =~= fs.take(j));
    } else {
        assert(fs.take(j) =~= fs);
        lemma_attr_count_nonneg(fs);
    }
}

pub proof fn lemma_attr_count_nonneg(fs: Seq<FeatureM>)
    ensures
        0 <= attr_count(fs),
    decreases fs.len(),
{
    if fs.len() > 0 {
        lemma_attr_count_nonneg(fs.drop_last());
    }
}

pub proof fn lemma_chain_attr_count_prefix(cs: Seq<ClassM>, j: int)
    requires
        0 <= j < cs.len(),
    ensures
        chain_attr_count(cs.take(j)) + attr_count(cs[j].features) <= chain_attr_count(cs),
        0 <= chain_attr_count(cs.take(j)),
    decreases cs.len() - j,
{
    assert(cs.take(j + 1).drop_last() =~= cs.take(j));
    lemma_chain_attr_count_nonneg(cs.take(j));
    if j + 1 < cs.len() {
        lemma_chain_attr_count_prefix(cs, j + 1);
        lemma_attr_count_nonneg(cs[j + 1].features);
    } else {
        assert(cs.take(j + 1) =~= cs);
    }
}

pub proof fn lemma_chain_attr_count_nonneg(cs: Seq<ClassM>)
    ensures
        0 <= chain_attr_count(cs),
    decreases cs.len(),
{
    if cs.len() > 0 {
        lemma_chain_attr_count_nonneg(cs.drop_last());
        lemma_attr_count_nonneg(cs.last().features);
    }
}

/// `child` is `parent`, or `parent` names a class in the chain of `child`.
pub open spec fn spec_less_or_equal(t: ClassTableM, child: Seq<char>, parent: Seq<char>) -> bool {
    child == parent || (t.inheritance.contains_key(child) && exists|j: int|
        0 <= j < t.inheritance[child].len() && (#[trigger] t.inheritance[child][j]).name == parent)
}

/// The names in force in one block of the program.
#[derive(Debug)]
pub struct Scope<V> {
    pub type_map: StrMap<V>,
}

impl<V: TableValue> Scope<V> {
    pub fn add(&mut self, k: &String, v: &V)
        ensures
            final(self).type_map.map() == old(self).type_map.map().insert(k@, v.deep_view()),
    {
        self.type_map.insert(k.clone(), v.duplicate());
    }
}

/// A stack of scopes; a name is looked up from the innermost scope out.
pub struct SymbolTable<V> {
    pub scopes: Vec<Scope<V>>,
}

/// The innermost binding of `k` in the scopes, if any.
pub open spec fn scopes_find<V>(sc: Seq<Map<Seq<char>, V>>, k: Seq<char>) -> Option<V>
    decreases sc.len(),
{
    if sc.len() == 0 {
        None
    } else if sc.last().contains_key(k) {
        Some(sc.last()[k])
    } else {
        scopes_find(sc.drop_last(), k)
    }
}

/// The scopes after `k` is bound to `v` in the innermost one; with no scope
/// open, nothing changes.
pub open spec fn scopes_add<V>(sc: Seq<Map<Seq<char>, V>>, k: Seq<char>, v: V) -> Seq<
    Map<Seq<char>, V>,
> {
    if sc.len() == 0 {
        sc
    } else {
        sc.drop_last().push(sc.last().insert(k, v))
    }
}

pub open spec fn scopes_exit<V>(sc: Seq<Map<Seq<char>, V>>) -> Seq<Map<Seq<char>, V>> {
    if sc.len() == 0 {
        sc
    } else {
        sc.drop_last()
    }
}

impl<V: TableValue> SymbolTable<V> {
    pub open spec fn model(&self) -> Seq<Map<Seq<char>, V::V>> {
        self.scopes@.map_values(|s: Scope<V>| s.type_map.map())
    }

    pub fn new() -> (t: SymbolTable<V>)
        ensures
            t.model() == Seq::<Map<Seq<char>, V::V>>::empty(),
    {
        let t = SymbolTable { scopes: Vec::new() };
        assert(t.model() =~= Seq::<Map<Seq<char>, V::V>>::empty());
        t
    }

    /// Opens a new, empty, innermost scope.
    pub fn enter_scope(&mut self)
        ensures
            final(self).model() == old(self).model().push(Map::<Seq<char>, V::V>::empty()),
    {
        let ghost m = self.model();
        self.scopes.push(Scope { type_map: StrMap::new() });
        assert(self.model() =~= m.push(Map::<Seq<char>, V::V>::empty()));
    }

    /// Closes the innermost scope, if one is open.
    pub fn exit_scope(&mut self)
        ensures
            final(self).model() == scopes_exit(old(self).model()),
    {
        let ghost m = self.model();
        self.scopes.pop();
        assert(self.model() =~= scopes_exit(m));
    }

    /// The innermost binding of `key`.
    pub fn find(&self, key: &String) -> (r: Option<&V>)
        ensures
            match r {
                Some(v) => scopes_find(self.model(), key@) == Some(v.deep_view()),
                None => scopes_find(self.model(), key@) is None,
            },
    {
        let mut i = self.scopes.len();
        assert(self.model().take(i as int) =~= self.model());
        while i > 0
            invariant
                i <= self.scopes@.len(),
                scopes_find(self.model(), key@) == scopes_find(self.model().take(i as int), key@),
            decreases i,
        {
            let ghost m = self.model().take(i as int);
            assert(m.drop_last() =~= self.model().take(i - 1));
            if let Some(v) = self.scopes[i - 1].type_map.get(key) {
                return Some(v);
            }
            i = i - 1;
        }
        assert(self.model().take(0) =~= Seq::<Map<Seq<char>, V::V>>::empty());
        return None;
    }

    /// Binds `k` to a copy of `v` in the innermost scope; with no scope open
    /// the binding is dropped.
    pub fn add(&mut self, k: &String, v: &V)
        ensures
            final(self).model() == scopes_add(old(self).model(), k@, v.deep_view()),
    {
        let ghost m = self.model();
        if let Some(s) = self.scopes.pop() {
            let mut s = s;
            s.add(k, v);
            self.scopes.push(s);
            assert(self.model() =~= scopes_add(m, k@, v.deep_view()));
        }
    }
}

} // verus!
