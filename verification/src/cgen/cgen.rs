use vstd::prelude::*;

use crate::parser::ast::class::{Class, ClassM, Feature, FeatureM};
use crate::parser::ast::Type;
use crate::utils::table::{ClassTable, ClassTableM, StrMap, SymbolTable, TableValue, Tables, table_view};
use crate::utils::util::push_char;
use vstd::std_specs::cmp::PartialEqSpecImpl;

verus! {

/// The entry point: it builds a `Main` object, runs its `init` and its
/// `main`, and returns the value that `main` returned.
pub const MAIN_CODE: &'static str = ".globl main
main:
    pushq $Main_prototype
    call Object.malloc
    addq $8, %rsp
    movq %rax, %rbx
    call Main.init
    # 0x....d9b8
    movq %rbx, %rax
    subq $8, %rsp
    # 0x....d9b0
    call Main.main
    movq 24(%rax), %rax
    addq $8, %rsp
    ret ";

/// Where a value lives: a register and an offset from it.
#[derive(Debug)]
pub struct Location {
    pub reg: String,
    pub offset: i32,
}

impl PartialEq for Location {
    fn eq(&self, other: &Self) -> (r: bool) {
        self.reg == other.reg && self.offset == other.offset
    }
}

impl PartialEqSpecImpl for Location {
    open spec fn obeys_eq_spec() -> bool {
        true
    }

    open spec fn eq_spec(&self, other: &Location) -> bool {
        self.reg@ == other.reg@ && self.offset == other.offset
    }
}

impl Clone for Location {
    fn clone(&self) -> (r: Self)
        ensures
            r.deep_view() == self.deep_view(),
    {
        Location { reg: self.reg.clone(), offset: self.offset }
    }
}

impl DeepView for Location {
    type V = (Seq<char>, i32);

    open spec fn deep_view(&self) -> (Seq<char>, i32) {
        (self.reg@, self.offset)
    }
}

impl TableValue for Location {
    fn duplicate(&self) -> (r: Self) {
        Location { reg: self.reg.clone(), offset: self.offset }
    }
}

impl<V: TableValue> DeepView for SymbolTable<V> {
    type V = Seq<Map<Seq<char>, <V as DeepView>::V>>;

    open spec fn deep_view(&self) -> Seq<Map<Seq<char>, <V as DeepView>::V>> {
        self.model()
    }
}

impl<V: DeepView> DeepView for StrMap<V> {
    type V = Map<Seq<char>, <V as DeepView>::V>;

    open spec fn deep_view(&self) -> Map<Seq<char>, <V as DeepView>::V> {
        self.map()
    }
}

/// The scopes of one class: for each name, its register and offset.
pub type ScopesM = Seq<Map<Seq<char>, (Seq<char>, i32)>>;

/// What the code generator knows while it works: where each variable of
/// each class lives, the offset of each field of each class, the class at
/// hand, the next slot for a local, the next label, and how far the stack
/// was moved to keep it aligned.
pub struct Environment {
    pub env: StrMap<SymbolTable<Location>>,
    pub field_map: StrMap<StrMap<usize>>,
    pub curr_class: String,
    pub var_offset: i32,
    pub label: usize,
    pub align_stack: usize,
}

/// The state of code generation as plain values: the lines written so far,
/// the environment, and the tables of constants and of dispatch offsets.
pub ghost struct GenM {
    pub lines: Seq<Seq<char>>,
    pub env: Map<Seq<char>, ScopesM>,
    pub fields: Map<Seq<char>, Map<Seq<char>, usize>>,
    pub curr: Seq<char>,
    pub var_offset: i32,
    pub label: usize,
    pub align: usize,
    pub strs: Map<Seq<char>, usize>,
    pub ints: Map<Seq<char>, usize>,
    pub dispatch: Map<Seq<char>, Map<Seq<char>, usize>>,
}

/// Writes x86 assembly for a program: its constants, the prototype and the
/// dispatch table of each class, the code of each method, and `main`. The
/// text is kept as a list of lines.
pub struct CodeGenerator {
    pub classes: Vec<Class>,
    pub class_table: ClassTable,
    pub tables: Tables,
    pub lines: Vec<String>,
    pub str_const_table: StrMap<usize>,
    pub int_const_table: StrMap<usize>,
    pub dispatch_table: StrMap<StrMap<usize>>,
    pub environment: Environment,
}

pub open spec fn strs_view(v: Seq<String>) -> Seq<Seq<char>> {
    v.map_values(|s: String| s@)
}

impl View for CodeGenerator {
    type V = GenM;

    open spec fn view(&self) -> GenM {
        GenM {
            lines: strs_view(self.lines@),
            env: self.environment.env.map(),
            fields: self.environment.field_map.map(),
            curr: self.environment.curr_class@,
            var_offset: self.environment.var_offset,
            label: self.environment.label,
            align: self.environment.align_stack,
            strs: self.str_const_table.map(),
            ints: self.int_const_table.map(),
            dispatch: self.dispatch_table.map(),
        }
    }
}

/// A line indented by one tab.
pub open spec fn tab(s: Seq<char>) -> Seq<char> {
    seq!['\t'] + s
}

/// The state with one more line written.
pub open spec fn emit(g: GenM, line: Seq<char>) -> GenM {
    GenM { lines: g.lines.push(line), ..g }
}

/// The state with one more line written, indented.
pub open spec fn emit_tab(g: GenM, s: Seq<char>) -> GenM {
    emit(g, tab(s))
}

/// The lines that open a method: save the frame and `self`.
pub open spec fn start_lines() -> Seq<Seq<char>> {
    seq![
        tab("pushq %rbp"@),
        tab("pushq %rbx"@),
        tab("movq %rsp, %rbp"@),
        tab("movq %rax, %rbx"@),
    ]
}

/// The lines that close a method.
pub open spec fn end_lines() -> Seq<Seq<char>> {
    seq![tab("popq %rbx"@), tab("popq %rbp"@), tab("ret"@)]
}

pub open spec fn emit_all(g: GenM, ls: Seq<Seq<char>>) -> GenM {
    GenM { lines: g.lines + ls, ..g }
}

impl CodeGenerator {
    /// A generator with no line written, no constant numbered and no class
    /// entered; the class at hand is `none` and locals start at slot 1.
    pub fn new(classes: Vec<Class>, class_table: ClassTable, tables: Tables) -> (r: CodeGenerator)
        ensures
            r.classes@ == classes@,
            r.class_table == class_table,
            r.tables == tables,
            r@ == (GenM {
                lines: Seq::empty(),
                env: Map::empty(),
                fields: Map::empty(),
                curr: "none"@,
                var_offset: 1,
                label: 0,
                align: 0,
                strs: Map::empty(),
                ints: Map::empty(),
                dispatch: Map::empty(),
            }),
    {
        let r = CodeGenerator {
            classes,
            class_table,
            tables,
            lines: Vec::new(),
            str_const_table: StrMap::new(),
            int_const_table: StrMap::new(),
            dispatch_table: StrMap::new(),
            environment: Environment {
                env: StrMap::new(),
                field_map: StrMap::new(),
                curr_class: String::from_str("none"),
                var_offset: 1,
                label: 0,
                align_stack: 0,
            },
        };
        assert(strs_view(r.lines@) =~= Seq::<Seq<char>>::empty());
        r
    }

    /// Writes one line, after a tab when `tab` is set.
    pub fn write(&mut self, s: String, tab: bool)
        ensures
            final(self)@ == emit(old(self)@, if tab { self::tab(s@) } else { s@ }),
            final(self).classes == old(self).classes,
            final(self).class_table == old(self).class_table,
            final(self).tables == old(self).tables,
    {
        let line = if tab {
            let mut l = String::new();
            push_char(&mut l, '\t');
            l.append(s.as_str());
            assert(l@ =~= self::tab(s@));
            l
        } else {
            s
        };
        let ghost before = self.lines@;
        self.lines.push(line);
        assert(strs_view(self.lines@) =~= strs_view(before).push(line@));
    }

    /// Writes a literal line, after a tab.
    pub fn write_str(&mut self, s: &str)
        ensures
            final(self)@ == emit_tab(old(self)@, s@),
            final(self).classes == old(self).classes,
            final(self).class_table == old(self).class_table,
            final(self).tables == old(self).tables,
    {
        self.write(String::from_str(s), true);
    }

    pub fn method_start(&mut self)
        ensures
            final(self)@ == emit_all(old(self)@, start_lines()),
            final(self).classes == old(self).classes,
            final(self).class_table == old(self).class_table,
            final(self).tables == old(self).tables,
    {
        self.write_str("pushq %rbp");
        self.write_str("pushq %rbx");
        self.write_str("movq %rsp, %rbp");
        self.write_str("movq %rax, %rbx");
        assert(self@.lines =~= old(self)@.lines + start_lines());
    }

    pub fn method_end(&mut self)
        ensures
            final(self)@ == emit_all(old(self)@, end_lines()),
            final(self).classes == old(self).classes,
            final(self).class_table == old(self).class_table,
            final(self).tables == old(self).tables,
    {
        self.write_str("popq %rbx");
        self.write_str("popq %rbp");
        self.write_str("ret");
        assert(self@.lines =~= old(self)@.lines + end_lines());
    }
}

} // verus!

verus! {

/// `a`, the decimal text of `n`, then `b`.
pub fn text_num(a: &str, n: usize, b: &str) -> (r: String)
    ensures
        r@ == a@ + crate::IR::abstract_present::nat_text(n as nat) + b@,
{
    let mut s = String::from_str(a);
    crate::IR::abstract_present::push_nat(&mut s, n as u64);
    s.append(b);
    s
}

/// `a`, the decimal text of `i`, then `b`.
pub fn text_int(a: &str, i: i32, b: &str) -> (r: String)
    ensures
        r@ == a@ + crate::IR::abstract_present::int_text(i as int) + b@,
{
    let mut s = String::from_str(a);
    crate::IR::abstract_present::push_int(&mut s, i as i64);
    s.append(b);
    s
}

/// `a`, then `m`, then `b`.
pub fn text_str(a: &str, m: &str, b: &str) -> (r: String)
    ensures
        r@ == a@ + m@ + b@,
{
    let mut s = String::from_str(a);
    s.append(m);
    s.append(b);
    s
}

/// `a`, the text of the offset, `(`, the register, then `b`: an operand in
/// memory.
pub fn text_loc(a: &str, off: i32, reg: &str, b: &str) -> (r: String)
    ensures
        r@ == a@ + crate::IR::abstract_present::int_text(off as int) + "("@ + reg@ + b@,
{
    let mut s = text_int(a, off, "(");
    s.append(reg);
    s.append(b);
    s
}

} // verus!

verus! {

/// `a`, then the decimal text of `n`.
pub fn text_n(a: &str, n: usize) -> (r: String)
    ensures
        r@ == a@ + crate::IR::abstract_present::nat_text(n as nat),
{
    let mut s = String::from_str(a);
    crate::IR::abstract_present::push_nat(&mut s, n as u64);
    s
}

/// The program that a generator works on is left as it was.
pub open spec fn keeps(a: CodeGenerator, b: CodeGenerator) -> bool {
    &&& a.classes == b.classes
    &&& a.class_table == b.class_table
    &&& a.tables == b.tables
}

/// The last entry of `m` for the class at hand.
fn class_entry(m: &StrMap<SymbolTable<Location>>, c: &String) -> (i: usize)
    requires
        m.map().contains_key(c@),
    ensures
        i < m.entries@.len(),
        m.entries@[i as int].0@ == c@,
        forall|j: int| i < j < m.entries@.len() ==> (#[trigger] m.entries@[j]).0@ != c@,
{
    match m.find_index(c) {
        Some(i) => i,
        None => {
            proof {
                crate::utils::table::lemma_entries_map_absent(m.entries@, c@);
            }
            0
        },
    }
}

impl CodeGenerator {
    /// Opens a scope in the scopes of the class at hand.
    pub fn scopes_enter(&mut self)
        requires
            old(self)@.env.contains_key(old(self)@.curr),
        ensures
            Some(final(self)@) == crate::cgen::ast::enter_scopes(old(self)@),
            keeps(*old(self), *final(self)),
    {
        let i = class_entry(&self.environment.env, &self.environment.curr_class);
        let ghost old_entries = self.environment.env.entries@;
        proof {
            crate::utils::table::lemma_entries_map_last(old_entries, self.environment.curr_class@, i as int);
        }
        let (k, mut t) = self.environment.env.entries.remove(i);
        t.enter_scope();
        self.environment.env.entries.insert(i, (k, t));
        proof {
            assert(self.environment.env.entries@ =~= old_entries.update(i as int, (k, t)));
            crate::utils::table::lemma_entries_map_update(old_entries, i as int, (k, t));
        }
    }

    /// Closes the innermost scope of the class at hand.
    pub fn scopes_exit(&mut self)
        requires
            old(self)@.env.contains_key(old(self)@.curr),
        ensures
            Some(final(self)@) == crate::cgen::ast::exit_scopes(old(self)@),
            keeps(*old(self), *final(self)),
    {
        let i = class_entry(&self.environment.env, &self.environment.curr_class);
        let ghost old_entries = self.environment.env.entries@;
        proof {
            crate::utils::table::lemma_entries_map_last(old_entries, self.environment.curr_class@, i as int);
        }
        let (k, mut t) = self.environment.env.entries.remove(i);
        t.exit_scope();
        self.environment.env.entries.insert(i, (k, t));
        proof {
            assert(self.environment.env.entries@ =~= old_entries.update(i as int, (k, t)));
            crate::utils::table::lemma_entries_map_update(old_entries, i as int, (k, t));
        }
    }

    /// Binds `k` to `v` in the innermost scope of the class at hand.
    pub fn scopes_bind(&mut self, k: &String, v: &Location)
        requires
            old(self)@.env.contains_key(old(self)@.curr),
        ensures
            Some(final(self)@) == crate::cgen::ast::bind_scopes(old(self)@, k@, v.deep_view()),
            keeps(*old(self), *final(self)),
    {
        let i = class_entry(&self.environment.env, &self.environment.curr_class);
        let ghost old_entries = self.environment.env.entries@;
        proof {
            crate::utils::table::lemma_entries_map_last(old_entries, self.environment.curr_class@, i as int);
        }
        let (c, mut t) = self.environment.env.entries.remove(i);
        t.add(k, v);
        self.environment.env.entries.insert(i, (c, t));
        proof {
            assert(self.environment.env.entries@ =~= old_entries.update(i as int, (c, t)));
            crate::utils::table::lemma_entries_map_update(old_entries, i as int, (c, t));
        }
    }
}

} // verus!

verus! {

/// The bytes that a method moves the stack by: room for its `n` locals,
/// rounded up to 16, and 8 more when it has an even number of parameters,
/// so that the stack stays aligned at each call.
pub open spec fn frame_size(n: nat, len: int) -> int {
    crate::utils::util::spec_align_to_16((8 * n) as int) + if len % 2 == 0 {
        8int
    } else {
        0int
    }
}

/// The scopes with the parameters bound, the first at `8 * (len + 2)` above
/// the frame and each next one 8 bytes lower.
pub open spec fn bind_params(sc: ScopesM, ps: Seq<crate::parser::ast::ParamM>, len: int) -> ScopesM
    decreases ps.len(),
{
    if ps.len() == 0 {
        sc
    } else {
        crate::utils::table::scopes_add(
            bind_params(sc, ps.drop_last(), len),
            ps.last().0,
            ("%rbp"@, (8 * (len + 2 - (ps.len() - 1))) as i32),
        )
    }
}

pub open spec fn feature_params(f: FeatureM) -> Seq<crate::parser::ast::ParamM> {
    match f {
        FeatureM::Method(m) => m.param,
        FeatureM::Constructor(c) => c.param,
        FeatureM::Attribute(_) => Seq::empty(),
    }
}

pub open spec fn feature_body(f: FeatureM) -> Option<Seq<crate::parser::ast::expr::ExprM>> {
    match f {
        FeatureM::Method(m) => m.body,
        FeatureM::Constructor(c) => c.body,
        FeatureM::Attribute(_) => None,
    }
}

/// The label of a method of class `c`.
pub open spec fn method_label(c: Seq<char>, f: FeatureM) -> Seq<char> {
    match f {
        FeatureM::Method(m) => c + "."@ + m.name + ":"@,
        _ => c + ".Constructor:"@,
    }
}

/// The code of a method or constructor of the class at hand, as the state
/// after it; `None` where the generator would stop (see `gen_expr`), where a
/// local declared in the body has no type, or where the frame does not fit.
pub open spec fn gen_method(g: GenM, f: FeatureM) -> Option<GenM> {
    let ps = feature_params(f);
    let len = ps.len() as int;
    if 8 * (len + 2) > i32::MAX {
        None
    } else {
        match crate::cgen::ast::enter_scopes(g) {
            None => None,
            Some(g0) => {
                let g1 = GenM { env: g0.env.insert(g0.curr, bind_params(g0.env[g0.curr], ps, len)), ..g0 };
                let label = method_label(g1.curr, f);
                match feature_body(f) {
                    Some(b) => {
                        let n = crate::cgen::ast::list_var_nums(b).len();
                        if !crate::cgen::ast::list_vars_typed(b) || 8 * n + 15 + 8 > usize::MAX {
                            None
                        } else {
                            let k = frame_size(n, len) as usize;
                            let g2 = GenM { var_offset: 1, ..g1 };
                            let g3 = GenM { env: g2.env.insert(g2.curr, g2.env[g2.curr].push(Map::empty())), ..g2 };
                            let g4 = emit_tab(
                                GenM { align: k, ..emit_all(emit(g3, label), start_lines()) },
                                "subq $"@ + crate::IR::abstract_present::nat_text(k as nat) + ", %rsp"@,
                            );
                            match crate::cgen::ast::gen_seq(g4, b, 0) {
                                None => None,
                                Some(g5) => match crate::cgen::ast::exit_scopes(g5) {
                                    None => None,
                                    Some(g6) => {
                                        let g7 = if f is Constructor {
                                            emit_all(
                                                g6,
                                                seq![
                                                    tab("movq %rbx, %rax"@),
                                                    tab("addq $"@ + crate::IR::abstract_present::nat_text(k as nat) + ", %rsp"@),
                                                ] + end_lines(),
                                            )
                                        } else {
                                            g6
                                        };
                                        crate::cgen::ast::exit_scopes(g7)
                                    },
                                },
                            }
                        }
                    },
                    None => crate::cgen::ast::exit_scopes(
                        emit_all(
                            emit(g1, label),
                            start_lines() + seq![tab("movq $Object_prototype, %rax"@)] + end_lines(),
                        ),
                    ),
                }
            },
        }
    }
}

} // verus!

verus! {

impl CodeGenerator {
    /// The code of a method or constructor of the class at hand: its label,
    /// its frame (see `frame_size`), its body, and, for a constructor, the
    /// return of `self`; a method without a body returns a new `Object`.
    pub fn code_method_constructor(&mut self, feature: &Feature) -> (ok: bool)
        requires
            !(feature is Attribute),
        ensures
            ok == gen_method(old(self)@, feature@) is Some,
            ok ==> Some(final(self)@) == gen_method(old(self)@, feature@),
            ok && feature_body(feature@) is Some ==> final(self)@.align == frame_size(
                crate::cgen::ast::list_var_nums(feature_body(feature@)->Some_0).len(),
                feature_params(feature@).len() as int,
            ),
            keeps(*old(self), *final(self)),
    {
        let ghost g = self@;
        let ghost f = feature@;
        let ghost ps = feature_params(f);
        if feature.get_param().len() > 268435453 {
            return false;
        }
        if !self.environment.env.contains_key(&self.environment.curr_class) {
            return false;
        }
        self.scopes_enter();
        let ghost g0 = self@;
        let len = feature.get_param_len();
        let params = feature.get_param();
        proof {
            assert(params@.len() == ps.len());
            assert(crate::parser::ast::params_view(params@) == ps);
        }
        let mut offset: i32 = 0;
        assert(ps.take(0) =~= Seq::<crate::parser::ast::ParamM>::empty());
        assert(g0.env.insert(g0.curr, g0.env[g0.curr]) =~= g0.env);
        assert(self@ == (GenM { env: g0.env.insert(g0.curr, bind_params(g0.env[g0.curr], ps.take(0), len as int)), ..g0 }));
        for i in 0..params.len()
            invariant
                offset == i,
                len == ps.len(),
                8 * (len + 2) <= i32::MAX,
                params@.len() == ps.len(),
                crate::parser::ast::params_view(params@) == ps,
                g0.env.contains_key(g0.curr),
                self@ == (GenM { env: g0.env.insert(g0.curr, bind_params(g0.env[g0.curr], ps.take(i as int), len as int)), ..g0 }),
                keeps(*old(self), *self),
        {
            let loc = Location { reg: String::from_str("%rbp"), offset: 8 * (3 + len - 1 - offset) };
            let ghost before = self@;
            self.scopes_bind(&params[i].0, &loc);
            proof {
                assert(ps.take(i + 1).drop_last() =~= ps.take(i as int));
                assert(ps[i as int] == crate::parser::ast::param_view(params@[i as int]));
                assert(ps.take(i + 1).last() == ps[i as int]);
                assert(self@.env =~= g0.env.insert(g0.curr, bind_params(g0.env[g0.curr], ps.take(i + 1), len as int)));
            }
            offset = offset + 1;
        }
        assert(ps.take(ps.len() as int) =~= ps);
        let ghost g1 = self@;
        let mut label = self.environment.curr_class.clone();
        match feature {
            Feature::Method(m) => {
                label.append(".");
                label.append(m.name.as_str());
                label.append(":");
            },
            _ => label.append(".Constructor:"),
        }
        match feature.get_body() {
            Some(body) => {
                if !crate::cgen::ast::list_vars_typed_exec(body) {
                    return false;
                }
                self.environment.var_offset = 1;
                self.scopes_enter();
                self.write(label, false);
                self.method_start();
                let mut var_vec: Vec<(crate::parser::ast::Identifier, crate::parser::ast::Type)> = Vec::new();
                crate::cgen::ast::list_var_num(body, &mut var_vec);
                assert(crate::cgen::ast::pairs_view(var_vec@).len() == var_vec@.len());
                if var_vec.len() > (usize::MAX - 23) / 8 {
                    return false;
                }
                let raw = var_vec.len() * 8;
                let k = if len % 2 == 0 {
                    crate::utils::util::align_to_16_bit(raw) + 8
                } else {
                    crate::utils::util::align_to_16_bit(raw)
                };
                self.environment.align_stack = k;
                self.write(text_num("subq $", k, ", %rsp"), true);
                proof {
                    crate::cgen::ast::lemma_seq_frame(self@, crate::parser::ast::expr::exprs_view(body@), 0);
                }
                if !self.code_seq(body, 0) {
                    return false;
                }
                if !self.environment.env.contains_key(&self.environment.curr_class) {
                    return false;
                }
                self.scopes_exit();
                match feature {
                    Feature::Constructor(_) => {
                        let ghost g6 = self@;
                        self.write_str("movq %rbx, %rax");
                        self.write(text_num("addq $", k, ", %rsp"), true);
                        self.method_end();
                        assert(self@.lines =~= g6.lines + (seq![
                            tab("movq %rbx, %rax"@),
                            tab("addq $"@ + crate::IR::abstract_present::nat_text(k as nat) + ", %rsp"@),
                        ] + end_lines()));
                    },
                    _ => {},
                }
            },
            None => {
                self.write(label, false);
                self.method_start();
                self.write_str("movq $Object_prototype, %rax");
                self.method_end();
                assert(self@.lines =~= g1.lines.push(method_label(g1.curr, f)) + (start_lines() + seq![tab("movq $Object_prototype, %rax"@)] + end_lines()));
            },
        }
        if !self.environment.env.contains_key(&self.environment.curr_class) {
            return false;
        }
        self.scopes_exit();
        true
    }
}

} // verus!

verus! {

proof fn lemma_utf8_prefix(s: Seq<char>, k: int)
    requires
        0 <= k <= s.len(),
    ensures
        crate::cgen::program::utf8_len(s.take(k)) <= crate::cgen::program::utf8_len(s),
    decreases s.len(),
{
    if k < s.len() {
        lemma_utf8_prefix(s.drop_last(), k);
        assert(s.drop_last().take(k) =~= s.take(k));
    } else {
        assert(s.take(k) =~= s);
    }
}

/// The number of bytes of the UTF-8 encoding of `s`.
pub fn utf8_byte_len(s: &String) -> (r: Option<usize>)
    ensures
        match r {
            Some(n) => n == crate::cgen::program::utf8_len(s@),
            None => crate::cgen::program::utf8_len(s@) > usize::MAX,
        },
{
    let cs = crate::utils::util::chars_of(s.as_str());
    let mut n: usize = 0;
    assert(cs@.take(0) =~= Seq::<char>::empty());
    for i in 0..cs.len()
        invariant
            cs@ == s@,
            n == crate::cgen::program::utf8_len(cs@.take(i as int)),
    {
        proof {
            assert(cs@.take(i + 1).drop_last() =~= cs@.take(i as int));
            lemma_utf8_prefix(cs@, i + 1);
        }
        let c = cs[i];
        let w: usize = if (c as u32) < 0x80 {
            1
        } else if (c as u32) < 0x800 {
            2
        } else if (c as u32) < 0x10000 {
            3
        } else {
            4
        };
        if n > usize::MAX - w {
            return None;
        }
        n = n + w;
    }
    assert(cs@.take(cs@.len() as int) =~= cs@);
    Some(n)
}

impl CodeGenerator {
    /// The data section: each string, integer and boolean constant, numbered
    /// in table order; see `gen_constants`.
    #[verifier::rlimit(50)]
    pub fn code_constants(&mut self) -> (ok: bool)
        ensures
            ok == crate::cgen::program::consts_fit(table_view(old(self).tables.string_table@)),
            ok ==> Some(final(self)@) == crate::cgen::program::gen_constants(
                old(self)@,
                table_view(old(self).tables.string_table@),
                table_view(old(self).tables.int_table@),
            ),
            keeps(*old(self), *final(self)),
    {
        let ghost g = self@;
        let ghost sv = table_view(self.tables.string_table@);
        let ghost iv = table_view(self.tables.int_table@);
        self.write_str(".text");
        self.write_str("#   emit contants");
        self.write_str(".section    .data");
        let ghost hdr = seq![tab(".text"@), tab("#   emit contants"@), tab(".section    .data"@)];
        assert(self@.lines =~= g.lines + hdr);
        assert(sv.take(0) =~= Seq::<Seq<char>>::empty());
        let n = self.tables.string_table.len();
        for index in 0..n
            invariant
                n == self.tables.string_table@.len(),
                sv == table_view(self.tables.string_table@),
                forall|j: int| 0 <= j < index ==> crate::cgen::program::utf8_len(#[trigger] sv[j]) <= usize::MAX,
                self@ == (GenM {
                    lines: g.lines + hdr + crate::cgen::program::str_consts(sv.take(index as int)),
                    strs: crate::cgen::program::const_numbers(g.strs, sv.take(index as int)),
                    ..g
                }),
                keeps(*old(self), *self),
        {
            let ghost before = self@;
            let s = self.tables.string_table[index].clone();
            assert(s@ == sv[index as int]);
            self.write_str(".align 8");
            self.write(text_num("str_const_ascii_", index, ":"), false);
            self.write(text_str(".ascii \"", s.as_str(), "\""), true);
            self.write(String::new(), false);
            self.write_str(".align 8");
            self.write(text_num("str_const_", index, ":"), false);
            self.write_str(".quad 40");
            self.write_str(".quad 1");
            self.write_str(".quad String_dispatch_table");
            self.write(text_n(".quad str_const_ascii_", index), true);
            let bl = match utf8_byte_len(&s) {
                Some(b) => b,
                None => {
                    assert(!crate::cgen::program::consts_fit(sv));
                    return false;
                },
            };
            self.write(text_n(".quad ", bl), true);
            self.write(String::new(), false);
            proof {
                assert(sv.take(index + 1).drop_last() =~= sv.take(index as int));
                assert(self@.lines =~= before.lines + crate::cgen::program::str_const_lines(index as nat, s@));
                assert(sv.take(index + 1).last() == sv[index as int]);
                assert(crate::cgen::program::str_consts(sv.take(index + 1)) == crate::cgen::program::str_consts(sv.take(index as int))
                    + crate::cgen::program::str_const_lines(index as nat, sv[index as int]));
                assert(self@.lines =~= g.lines + hdr + crate::cgen::program::str_consts(sv.take(index + 1)));
            }
            self.str_const_table.insert(s, index);
            assert(self@.strs == crate::cgen::program::const_numbers(g.strs, sv.take(index + 1)));
        }
        assert(sv.take(n as int) =~= sv);
        assert(crate::cgen::program::consts_fit(sv));
        let ghost mid = self@;
        assert(iv.take(0) =~= Seq::<Seq<char>>::empty());
        let m = self.tables.int_table.len();
        for index in 0..m
            invariant
                m == self.tables.int_table@.len(),
                iv == table_view(self.tables.int_table@),
                self@ == (GenM {
                    lines: mid.lines + crate::cgen::program::int_consts(iv.take(index as int)),
                    ints: crate::cgen::program::const_numbers(mid.ints, iv.take(index as int)),
                    ..mid
                }),
                keeps(*old(self), *self),
        {
            let ghost before = self@;
            let s = self.tables.int_table[index].clone();
            assert(s@ == iv[index as int]);
            self.write_str(".align 8");
            self.write(text_num("int_const_", index, ":"), false);
            self.write_str(".quad 32");
            self.write_str(".quad 1");
            self.write_str(".quad Int_dispatch_table");
            let mut q = String::from_str(".quad ");
            q.append(s.as_str());
            self.write(q, true);
            self.write(String::new(), false);
            proof {
                assert(iv.take(index + 1).drop_last() =~= iv.take(index as int));
                assert(self@.lines =~= before.lines + crate::cgen::program::int_const_lines(index as nat, s@));
                assert(iv.take(index + 1).last() == iv[index as int]);
                assert(crate::cgen::program::int_consts(iv.take(index + 1)) == crate::cgen::program::int_consts(iv.take(index as int))
                    + crate::cgen::program::int_const_lines(index as nat, iv[index as int]));
                assert(self@.lines =~= mid.lines + crate::cgen::program::int_consts(iv.take(index + 1)));
            }
            self.int_const_table.insert(s, index);
            assert(self@.ints == crate::cgen::program::const_numbers(mid.ints, iv.take(index + 1)));
        }
        assert(iv.take(m as int) =~= iv);
        let ghost mid2 = self@;
        for index in 0..2usize
            invariant
                self@ == (GenM {
                    lines: mid2.lines + (if index == 0 {
                        Seq::empty()
                    } else if index == 1 {
                        crate::cgen::program::bool_const_lines(0)
                    } else {
                        crate::cgen::program::bool_const_lines(0) + crate::cgen::program::bool_const_lines(1)
                    }),
                    ..mid2
                }),
                keeps(*old(self), *self),
        {
            let ghost before = self@;
            self.write_str(".align 8");
            self.write(text_num("bool_const_", index, ":"), false);
            self.write_str(".quad 32");
            self.write_str(".quad 1");
            self.write_str(".quad Bool_dispatch_table");
            self.write(text_n(".quad ", index), true);
            self.write(String::new(), false);
            assert(self@.lines =~= before.lines + crate::cgen::program::bool_const_lines(index as nat));
            assert(self@.lines =~= mid2.lines + (if index + 1 == 1 {
                crate::cgen::program::bool_const_lines(0)
            } else {
                crate::cgen::program::bool_const_lines(0) + crate::cgen::program::bool_const_lines(1)
            }));
        }
        assert(self@.lines =~= g.lines + hdr + crate::cgen::program::str_consts(sv) + crate::cgen::program::int_consts(iv)
            + crate::cgen::program::bool_const_lines(0) + crate::cgen::program::bool_const_lines(1));
        assert(crate::cgen::program::consts_fit(sv));
        true
    }
}

} // verus!

verus! {

impl CodeGenerator {
    /// The routine that reports a runtime error and exits; see `gen_abort`.
    pub fn code_abort(&mut self) -> (ok: bool)
        ensures
            ok == crate::cgen::program::gen_abort(old(self)@) is Some,
            ok ==> Some(final(self)@) == crate::cgen::program::gen_abort(old(self)@),
            keeps(*old(self), *final(self)),
    {
        let ghost g = self@;
        self.write(String::from_str("abort:"), false);
        self.write_str("movq $1, %rax");
        self.write_str("movq $2, %rdi");
        let key = String::from_str(crate::RUNTIME_ERR);
        let index = match self.str_const_table.get(&key) {
            Some(i) => *i,
            None => {
                return false;
            },
        };
        self.write(text_num("movq $str_const_ascii_", index, ", %rsi"), true);
        self.write_str("movq $60, %rdx");
        self.write_str("syscall");
        self.write_str("call exit");
        assert(self@.lines =~= crate::cgen::program::gen_abort(g)->Some_0.lines);
        true
    }

    /// The entry point of the program.
    pub fn code_main(&mut self)
        ensures
            final(self)@ == emit_tab(old(self)@, MAIN_CODE@),
            keeps(*old(self), *final(self)),
    {
        self.write_str(MAIN_CODE);
    }
}

} // verus!

verus! {

/// The number of attributes of a chain, where it fits in a `usize`.
fn chain_attrs_checked(v: &Vec<Class>) -> (r: Option<usize>)
    ensures
        match r {
            Some(n) => n == crate::utils::table::chain_attr_count(v.deep_view()),
            None => crate::utils::table::chain_attr_count(v.deep_view()) > usize::MAX,
        },
{
    let ghost cv = v.deep_view();
    let mut total: usize = 0;
    assert(cv.take(0) =~= Seq::<ClassM>::empty());
    for i in 0..v.len()
        invariant
            cv == v.deep_view(),
            cv.len() == v@.len(),
            total == crate::utils::table::chain_attr_count(cv.take(i as int)),
    {
        let ghost fv = cv[i as int].features;
        proof {
            assert(fv == crate::utils::table::features_view_of(v@[i as int].features@));
            assert(cv.take(i + 1).drop_last() =~= cv.take(i as int));
            crate::utils::table::lemma_chain_attr_count_prefix(cv, i as int);
            assert(fv.take(0) =~= Seq::<FeatureM>::empty());
        }
        let ghost base = total;
        let fs = &v[i].features;
        for j in 0..fs.len()
            invariant
                fv == crate::utils::table::features_view_of(fs@),
                fv.len() == fs@.len(),
                total == base + crate::utils::table::attr_count(fv.take(j as int)),
                base + crate::utils::table::attr_count(fv) <= crate::utils::table::chain_attr_count(cv),
                cv == v.deep_view(),
        {
            proof {
                assert(fv.take(j + 1).drop_last() =~= fv.take(j as int));
                crate::utils::table::lemma_attr_count_prefix(fv, j + 1);
            }
            if let Feature::Attribute(_) = &fs[j] {
                if total == usize::MAX {
                    proof {
                        assert(fv.take(j + 1).last() == fv[j as int]);
                        assert(fv[j as int] is Attribute);
                    }
                    return None;
                }
                total = total + 1;
            }
        }
        assert(fv.take(fs@.len() as int) =~= fv);
    }
    assert(cv.take(v@.len() as int) =~= cv);
    Some(total)
}

impl CodeGenerator {
    /// Numbers attribute `attr` of class `owner` at byte `off` of an object.
    fn set_field(&mut self, owner: &String, attr: &String, off: usize)
        ensures
            final(self)@ == (GenM {
                fields: crate::cgen::program::insert_field(old(self)@.fields, owner@, attr@, off),
                ..old(self)@
            }),
            keeps(*old(self), *final(self)),
    {
        let mut inner = match self.environment.field_map.get(owner) {
            Some(m) => m.duplicate_map(),
            None => StrMap::new(),
        };
        inner.insert(attr.clone(), off);
        self.environment.field_map.insert(owner.clone(), inner);
        assert(self@.fields =~= crate::cgen::program::insert_field(old(self)@.fields, owner@, attr@, off));
    }

    /// The prototype slots of the attributes among the first `n` features,
    /// numbered from `start`; the number of those attributes.
    fn code_proto_features(&mut self, owner: &String, fs: &Vec<Feature>, n: usize, start: usize) -> (r: (bool, usize))
        requires
            n <= fs@.len(),
            start + crate::utils::table::attr_count(crate::utils::table::features_view_of(fs@).take(n as int)) <= usize::MAX,
        ensures
            r.0 == crate::cgen::program::proto_features(
                old(self)@,
                owner@,
                crate::utils::table::features_view_of(fs@).take(n as int),
                start as nat,
            ) is Some,
            r.0 ==> Some(final(self)@) == crate::cgen::program::proto_features(
                old(self)@,
                owner@,
                crate::utils::table::features_view_of(fs@).take(n as int),
                start as nat,
            ),
            r.0 ==> r.1 == crate::utils::table::attr_count(crate::utils::table::features_view_of(fs@).take(n as int)),
            keeps(*old(self), *final(self)),
        decreases n,
    {
        let ghost fv = crate::utils::table::features_view_of(fs@);
        if n == 0 {
            assert(fv.take(0) =~= Seq::<FeatureM>::empty());
            return (true, 0);
        }
        proof {
            assert(fv.take(n as int).drop_last() =~= fv.take(n - 1));
            assert(fv.take(n as int).last() == fv[n - 1]);
            crate::utils::table::lemma_attr_count_nonneg(fv.take(n - 1));
        }
        let (ok, cnt) = self.code_proto_features(owner, fs, n - 1, start);
        if !ok {
            return (false, 0);
        }
        match &fs[n - 1] {
            Feature::Attribute(a) => {
                let index = start + cnt;
                if index > (usize::MAX - 24) / 8 {
                    return (false, 0);
                }
                let off = 24 + index * 8;
                self.set_field(owner, &a.name, off);
                let t = match a.type_.as_ref() {
                    Some(t) => t,
                    None => {
                        return (false, 0);
                    },
                };
                if *t == String::from_str(crate::STRING) {
                    let i = match self.str_const_table.get(&String::new()) {
                        Some(i) => *i,
                        None => {
                            return (false, 0);
                        },
                    };
                    self.write(text_n(".quad str_const_", i), true);
                } else if *t == String::from_str(crate::BOOL) {
                    self.write_str(".quad bool_const_0");
                } else if *t == String::from_str(crate::INT) {
                    let i = match self.int_const_table.get(&String::from_str("0")) {
                        Some(i) => *i,
                        None => {
                            return (false, 0);
                        },
                    };
                    self.write(text_n(".quad int_const_", i), true);
                } else if *t == String::from_str(crate::PRIMSLOT) {
                    self.write_str(".quad 0");
                }
                (true, cnt + 1)
            },
            _ => (true, cnt),
        }
    }

    /// The prototype slots of the attributes of the first `n` classes of a
    /// chain; the number of those attributes.
    fn code_proto_chain(&mut self, chain: &Vec<Class>, n: usize) -> (r: (bool, usize))
        requires
            n <= chain@.len(),
            crate::utils::table::chain_attr_count(chain.deep_view().take(n as int)) <= usize::MAX,
        ensures
            r.0 == crate::cgen::program::proto_chain(old(self)@, chain.deep_view().take(n as int)) is Some,
            r.0 ==> Some(final(self)@) == crate::cgen::program::proto_chain(old(self)@, chain.deep_view().take(n as int)),
            r.0 ==> r.1 == crate::utils::table::chain_attr_count(chain.deep_view().take(n as int)),
            keeps(*old(self), *final(self)),
        decreases n,
    {
        let ghost cv = chain.deep_view();
        if n == 0 {
            assert(cv.take(0) =~= Seq::<ClassM>::empty());
            return (true, 0);
        }
        proof {
            assert(cv.take(n as int).drop_last() =~= cv.take(n - 1));
            assert(cv.take(n as int).last() == cv[n - 1]);
            crate::utils::table::lemma_attr_count_nonneg(cv[n - 1].features);
            crate::utils::table::lemma_chain_attr_count_nonneg(cv.take(n - 1));
            assert(cv[n - 1].features == crate::utils::table::features_view_of(chain@[n - 1].features@));
            assert(crate::utils::table::features_view_of(chain@[n - 1].features@).take(chain@[n - 1].features@.len() as int)
                =~= crate::utils::table::features_view_of(chain@[n - 1].features@));
        }
        let (ok, cnt) = self.code_proto_chain(chain, n - 1);
        if !ok {
            return (false, 0);
        }
        let c = &chain[n - 1];
        let (ok2, more) = self.code_proto_features(&c.name, &c.features, c.features.len(), cnt);
        if !ok2 {
            return (false, 0);
        }
        (true, cnt + more)
    }

    /// The prototype of class `c`; see `proto_class`.
    fn code_proto_class(&mut self, c: &String) -> (ok: bool)
        ensures
            ok == crate::cgen::program::proto_class(old(self)@, old(self).class_table.model(), c@) is Some,
            ok ==> Some(final(self)@) == crate::cgen::program::proto_class(old(self)@, old(self).class_table.model(), c@),
            keeps(*old(self), *final(self)),
    {
        if *c == String::from_str(crate::PRIMSLOT) {
            return true;
        }
        let ghost g = self@;
        let chain = match self.class_table.inheritance.get(c) {
            Some(v) => v.duplicate(),
            None => {
                return false;
            },
        };
        assert(chain.deep_view() == old(self).class_table.model().inheritance[c@]);
        match chain_attrs_checked(&chain) {
            Some(count) => {
                if count > usize::MAX / 8 - 3 {
                    return false;
                }
            },
            None => {
                return false;
            },
        }
        let attr_len = self.class_table.get_attr_num_recursive(c);
        self.write_str(".align 8");
        let mut label = c.clone();
        label.append("_prototype:");
        self.write(label, false);
        self.write(text_n(".quad ", (attr_len + 3) * 8), true);
        self.write_str(".quad 0");
        self.write(text_str(".quad ", c.as_str(), "_dispatch_table"), true);
        let ghost g1 = self@;
        let ghost n = crate::utils::table::chain_attr_count(old(self).class_table.model().inheritance[c@]);
        assert(g1.lines =~= g.lines + seq![
            tab(".align 8"@),
            c@ + "_prototype:"@,
            tab(".quad "@ + crate::IR::abstract_present::nat_text(((n + 3) * 8) as nat)),
            tab(".quad 0"@),
            tab(".quad "@ + c@ + "_dispatch_table"@),
        ]);
        proof {
            assert(chain.deep_view().take(chain@.len() as int) =~= chain.deep_view());
        }
        let (ok, _count) = self.code_proto_chain(&chain, chain.len());
        if !ok {
            return false;
        }
        let empty = String::new();
        assert(empty@ =~= Seq::<char>::empty());
        self.write(empty, true);
        true
    }

    /// The prototypes of the first `n` classes of the class table, after a
    /// header.
    fn code_prototypes(&mut self, n: usize) -> (ok: bool)
        requires
            n <= old(self).class_table.classes.entries@.len(),
        ensures
            ok == crate::cgen::program::gen_prototypes(
                old(self)@,
                old(self).class_table.model(),
                old(self).class_table.classes.keys().take(n as int),
            ) is Some,
            ok ==> Some(final(self)@) == crate::cgen::program::gen_prototypes(
                old(self)@,
                old(self).class_table.model(),
                old(self).class_table.classes.keys().take(n as int),
            ),
            keeps(*old(self), *final(self)),
        decreases n,
    {
        let ghost names = self.class_table.classes.keys();
        if n == 0 {
            assert(names.take(0) =~= Seq::<Seq<char>>::empty());
            self.write_str("#   class prototype");
            return true;
        }
        proof {
            assert(names.take(n as int).drop_last() =~= names.take(n - 1));
            assert(names.take(n as int).last() == names[n - 1]);
        }
        if !self.code_prototypes(n - 1) {
            return false;
        }
        let c = self.class_table.classes.entries[n - 1].0.clone();
        assert(c@ == names[n - 1]);
        self.code_proto_class(&c)
    }
}

} // verus!

verus! {

proof fn lemma_method_count_prefix(fs: Seq<FeatureM>, j: int)
    requires
        0 <= j <= fs.len(),
    ensures
        crate::cgen::program::method_count(fs.take(j)) <= crate::cgen::program::method_count(fs),
    decreases fs.len() - j,
{
    if j < fs.len() {
        lemma_method_count_prefix(fs, j + 1);
        assert(fs.take(j + 1).drop_last() =~= fs.take(j));
    } else {
        assert(fs.take(j) =~= fs);
    }
}

proof fn lemma_chain_method_prefix(cs: Seq<ClassM>, j: int)
    requires
        0 <= j < cs.len(),
    ensures
        crate::cgen::program::chain_method_count(cs.take(j)) + crate::cgen::program::method_count(cs[j].features)
            <= crate::cgen::program::chain_method_count(cs),
    decreases cs.len() - j,
{
    assert(cs.take(j + 1).drop_last() =~= cs.take(j));
    if j + 1 < cs.len() {
        lemma_chain_method_prefix(cs, j + 1);
    } else {
        assert(cs.take(j + 1) =~= cs);
    }
}

/// The number of methods of a chain, where it fits in a `usize`.
fn chain_methods_checked(v: &Vec<Class>) -> (r: Option<usize>)
    ensures
        match r {
            Some(n) => n == crate::cgen::program::chain_method_count(v.deep_view()),
            None => crate::cgen::program::chain_method_count(v.deep_view()) > usize::MAX,
        },
{
    let ghost cv = v.deep_view();
    let mut total: usize = 0;
    assert(cv.take(0) =~= Seq::<ClassM>::empty());
    for i in 0..v.len()
        invariant
            cv == v.deep_view(),
            cv.len() == v@.len(),
            total == crate::cgen::program::chain_method_count(cv.take(i as int)),
    {
        let ghost fv = cv[i as int].features;
        proof {
            assert(fv == crate::utils::table::features_view_of(v@[i as int].features@));
            assert(cv.take(i + 1).drop_last() =~= cv.take(i as int));
            lemma_chain_method_prefix(cv, i as int);
            assert(fv.take(0) =~= Seq::<FeatureM>::empty());
        }
        let ghost base = total;
        let fs = &v[i].features;
        for j in 0..fs.len()
            invariant
                fv == crate::utils::table::features_view_of(fs@),
                fv.len() == fs@.len(),
                total == base + crate::cgen::program::method_count(fv.take(j as int)),
                base + crate::cgen::program::method_count(fv) <= crate::cgen::program::chain_method_count(cv),
                cv == v.deep_view(),
        {
            proof {
                assert(fv.take(j + 1).drop_last() =~= fv.take(j as int));
                lemma_method_count_prefix(fv, j + 1);
            }
            if let Feature::Method(_) = &fs[j] {
                if total == usize::MAX {
                    proof {
                        assert(fv.take(j + 1).last() == fv[j as int]);
                        assert(fv[j as int] is Method);
                    }
                    return None;
                }
                total = total + 1;
            }
        }
        assert(fv.take(fs@.len() as int) =~= fv);
    }
    assert(cv.take(v@.len() as int) =~= cv);
    Some(total)
}

/// Whether some feature among `fs` is a method named `m`.
fn names_contain(fs: &Vec<Feature>, m: &String) -> (r: bool)
    ensures
        r == crate::cgen::program::method_names(crate::utils::table::features_view_of(fs@)).contains(m@),
{
    let ghost fv = crate::utils::table::features_view_of(fs@);
    let mut found = false;
    assert(fv.take(0) =~= Seq::<FeatureM>::empty());
    for i in 0..fs.len()
        invariant
            fv == crate::utils::table::features_view_of(fs@),
            fv.len() == fs@.len(),
            found == crate::cgen::program::method_names(fv.take(i as int)).contains(m@),
    {
        proof {
            assert(fv.take(i + 1).drop_last() =~= fv.take(i as int));
            assert(fv.take(i + 1).last() == fv[i as int]);
        }
        match &fs[i] {
            Feature::Method(md) => {
                let ghost before = crate::cgen::program::method_names(fv.take(i as int));
                assert(before.push(md.name@).contains(m@) == (before.contains(m@) || md.name@ == m@)) by {
                    if md.name@ == m@ {
                        assert(before.push(md.name@)[before.len() as int] == m@);
                    }
                    if before.contains(m@) {
                        let j = choose|j: int| 0 <= j < before.len() && before[j] == m@;
                        assert(before.push(md.name@)[j] == m@);
                    }
                }
                if md.name == *m {
                    found = true;
                }
            },
            _ => {},
        }
    }
    assert(fv.take(fs@.len() as int) =~= fv);
    found
}

/// Whether the last class of the chain named `c` declares a method `m`.
fn declares_exec(chain: &Vec<Class>, c: &String, m: &String) -> (r: bool)
    ensures
        r == crate::cgen::program::declares(chain.deep_view(), c@, m@),
{
    let ghost cv = chain.deep_view();
    let mut j = chain.len();
    assert(cv.take(j as int) =~= cv);
    while j > 0
        invariant
            j <= chain@.len(),
            cv == chain.deep_view(),
            cv.len() == chain@.len(),
            crate::cgen::program::declares(cv, c@, m@) == crate::cgen::program::declares(cv.take(j as int), c@, m@),
        decreases j,
    {
        assert(cv.take(j as int).drop_last() =~= cv.take(j - 1));
        assert(cv.take(j as int).last() == cv[j - 1]);
        if chain[j - 1].name == *c {
            return names_contain(&chain[j - 1].features, m);
        }
        j = j - 1;
    }
    false
}

/// The index of the class whose method `m` a call reaches, searched from the
/// end of the chain.
fn find_provider(chain: &Vec<Class>, m: &String) -> (r: Option<usize>)
    ensures
        match r {
            Some(i) => i < chain@.len() && crate::cgen::program::provider(chain.deep_view(), chain.deep_view(), m@) == Some(chain.deep_view()[i as int].name),
            None => crate::cgen::program::provider(chain.deep_view(), chain.deep_view(), m@) is None,
        },
{
    let ghost cv = chain.deep_view();
    let mut j = chain.len();
    assert(cv.take(j as int) =~= cv);
    while j > 0
        invariant
            j <= chain@.len(),
            cv == chain.deep_view(),
            cv.len() == chain@.len(),
            crate::cgen::program::provider(cv, cv, m@) == crate::cgen::program::provider(cv, cv.take(j as int), m@),
        decreases j,
    {
        assert(cv.take(j as int).drop_last() =~= cv.take(j - 1));
        assert(cv.take(j as int).last() == cv[j - 1]);
        if declares_exec(chain, &chain[j - 1].name, m) {
            return Some(j - 1);
        }
        j = j - 1;
    }
    None
}

impl CodeGenerator {
    /// Numbers method `m` of class `c` at byte `off` of its dispatch table.
    fn set_slot(&mut self, c: &String, m: &String, off: usize)
        ensures
            final(self)@ == (GenM {
                dispatch: crate::cgen::program::insert_slot(old(self)@.dispatch, c@, m@, off),
                ..old(self)@
            }),
            keeps(*old(self), *final(self)),
    {
        let mut inner = match self.dispatch_table.get(c) {
            Some(x) => x.duplicate_map(),
            None => StrMap::new(),
        };
        inner.insert(m.clone(), off);
        self.dispatch_table.insert(c.clone(), inner);
        assert(self@.dispatch =~= crate::cgen::program::insert_slot(old(self)@.dispatch, c@, m@, off));
    }

    /// The dispatch slots of the methods among the first `n` features,
    /// numbered from `start`; the number of those methods.
    fn code_disp_features(&mut self, c: &String, chain: &Vec<Class>, fs: &Vec<Feature>, n: usize, start: usize) -> (cnt: usize)
        requires
            n <= fs@.len(),
            8 * (start + crate::cgen::program::method_count(crate::utils::table::features_view_of(fs@).take(n as int))) <= usize::MAX,
        ensures
            final(self)@ == crate::cgen::program::disp_features(
                old(self)@,
                c@,
                chain.deep_view(),
                crate::utils::table::features_view_of(fs@).take(n as int),
                start as nat,
            ),
            cnt == crate::cgen::program::method_count(crate::utils::table::features_view_of(fs@).take(n as int)),
            keeps(*old(self), *final(self)),
        decreases n,
    {
        let ghost fv = crate::utils::table::features_view_of(fs@);
        if n == 0 {
            assert(fv.take(0) =~= Seq::<FeatureM>::empty());
            return 0;
        }
        proof {
            assert(fv.take(n as int).drop_last() =~= fv.take(n - 1));
            assert(fv.take(n as int).last() == fv[n - 1]);
        }
        let cnt = self.code_disp_features(c, chain, fs, n - 1, start);
        match &fs[n - 1] {
            Feature::Method(md) => {
                let k = start + cnt;
                match find_provider(chain, &md.name) {
                    Some(i) => {
                        let mut line = text_str(".quad ", chain[i].name.as_str(), ".");
                        line.append(md.name.as_str());
                        self.write(line, true);
                        self.set_slot(c, &md.name, k * 8);
                    },
                    None => {},
                }
                cnt + 1
            },
            _ => cnt,
        }
    }

    /// The dispatch slots of the methods of the first `n` classes of the
    /// chain; the number of those methods.
    fn code_disp_chain(&mut self, c: &String, chain: &Vec<Class>, n: usize) -> (cnt: usize)
        requires
            n <= chain@.len(),
            8 * crate::cgen::program::chain_method_count(chain.deep_view().take(n as int)) <= usize::MAX,
        ensures
            final(self)@ == crate::cgen::program::disp_chain(old(self)@, c@, chain.deep_view(), chain.deep_view().take(n as int)),
            cnt == crate::cgen::program::chain_method_count(chain.deep_view().take(n as int)),
            keeps(*old(self), *final(self)),
        decreases n,
    {
        let ghost cv = chain.deep_view();
        if n == 0 {
            assert(cv.take(0) =~= Seq::<ClassM>::empty());
            return 0;
        }
        proof {
            assert(cv.take(n as int).drop_last() =~= cv.take(n - 1));
            assert(cv.take(n as int).last() == cv[n - 1]);
            assert(cv[n - 1].features == crate::utils::table::features_view_of(chain@[n - 1].features@));
            assert(crate::utils::table::features_view_of(chain@[n - 1].features@).take(chain@[n - 1].features@.len() as int)
                =~= crate::utils::table::features_view_of(chain@[n - 1].features@));
        }
        let cnt = self.code_disp_chain(c, chain, n - 1);
        let more = self.code_disp_features(c, chain, &chain[n - 1].features, chain[n - 1].features.len(), cnt);
        cnt + more
    }

    /// The dispatch table of class `c`; see `disp_class`.
    fn code_disp_class(&mut self, c: &String) -> (ok: bool)
        ensures
            ok == crate::cgen::program::disp_class(old(self)@, old(self).class_table.model(), c@) is Some,
            ok ==> Some(final(self)@) == crate::cgen::program::disp_class(old(self)@, old(self).class_table.model(), c@),
            keeps(*old(self), *final(self)),
    {
        let ghost g = self@;
        let chain = match self.class_table.inheritance.get(c) {
            Some(v) => v.duplicate(),
            None => {
                return false;
            },
        };
        assert(chain.deep_view() == old(self).class_table.model().inheritance[c@]);
        match chain_methods_checked(&chain) {
            Some(count) => {
                if count > usize::MAX / 8 {
                    return false;
                }
            },
            None => {
                return false;
            },
        }
        self.write_str(".align 8");
        let mut label = c.clone();
        label.append("_dispatch_table:");
        self.write(label, false);
        assert(self@.lines =~= g.lines + seq![tab(".align 8"@), c@ + "_dispatch_table:"@]);
        assert(chain.deep_view().take(chain@.len() as int) =~= chain.deep_view());
        self.code_disp_chain(c, &chain, chain.len());
        let ghost g2 = self@;
        self.write(text_str(".quad ", c.as_str(), ".init"), true);
        let empty = String::new();
        assert(empty@ =~= Seq::<char>::empty());
        self.write(empty, true);
        assert(self@.lines =~= g2.lines + seq![tab(".quad "@ + c@ + ".init"@), tab(Seq::empty())]);
        true
    }

    /// The dispatch tables of the first `n` classes of the class table, after
    /// a header.
    fn code_dispatch_tables(&mut self, n: usize) -> (ok: bool)
        requires
            n <= old(self).class_table.classes.entries@.len(),
        ensures
            ok == crate::cgen::program::gen_dispatch_tables(
                old(self)@,
                old(self).class_table.model(),
                old(self).class_table.classes.keys().take(n as int),
            ) is Some,
            ok ==> Some(final(self)@) == crate::cgen::program::gen_dispatch_tables(
                old(self)@,
                old(self).class_table.model(),
                old(self).class_table.classes.keys().take(n as int),
            ),
            keeps(*old(self), *final(self)),
        decreases n,
    {
        let ghost names = self.class_table.classes.keys();
        if n == 0 {
            assert(names.take(0) =~= Seq::<Seq<char>>::empty());
            self.write_str("#   dispatch tables");
            return true;
        }
        proof {
            assert(names.take(n as int).drop_last() =~= names.take(n - 1));
            assert(names.take(n as int).last() == names[n - 1]);
        }
        if !self.code_dispatch_tables(n - 1) {
            return false;
        }
        let c = self.class_table.classes.entries[n - 1].0.clone();
        assert(c@ == names[n - 1]);
        self.code_disp_class(&c)
    }
}

} // verus!

verus! {

impl CodeGenerator {
    /// Binds `k` to `v` in the innermost scope of class `c`.
    fn scopes_bind_in(&mut self, c: &String, k: &String, v: &Location)
        requires
            old(self)@.env.contains_key(c@),
        ensures
            final(self)@ == (GenM {
                env: old(self)@.env.insert(c@, crate::utils::table::scopes_add(old(self)@.env[c@], k@, v.deep_view())),
                ..old(self)@
            }),
            keeps(*old(self), *final(self)),
    {
        let i = class_entry(&self.environment.env, c);
        let ghost old_entries = self.environment.env.entries@;
        proof {
            crate::utils::table::lemma_entries_map_last(old_entries, c@, i as int);
        }
        let (key, mut t) = self.environment.env.entries.remove(i);
        t.add(k, v);
        self.environment.env.entries.insert(i, (key, t));
        proof {
            assert(self.environment.env.entries@ =~= old_entries.update(i as int, (key, t)));
            crate::utils::table::lemma_entries_map_update(old_entries, i as int, (key, t));
        }
    }

    /// The attributes among the first `n` features in the `init` of class
    /// `c`, numbered from `start`; the number of those attributes.
    fn code_init_features(&mut self, c: &String, fs: &Vec<Feature>, n: usize, start: usize) -> (r: (bool, usize))
        requires
            n <= fs@.len(),
            8 * (start + crate::utils::table::attr_count(crate::utils::table::features_view_of(fs@).take(n as int))) <= usize::MAX,
        ensures
            r.0 == crate::cgen::program::init_features(
                old(self)@,
                c@,
                crate::utils::table::features_view_of(fs@).take(n as int),
                start as nat,
            ) is Some,
            r.0 ==> Some(final(self)@) == crate::cgen::program::init_features(
                old(self)@,
                c@,
                crate::utils::table::features_view_of(fs@).take(n as int),
                start as nat,
            ),
            r.0 ==> r.1 == crate::utils::table::attr_count(crate::utils::table::features_view_of(fs@).take(n as int)),
            keeps(*old(self), *final(self)),
        decreases n,
    {
        let ghost fv = crate::utils::table::features_view_of(fs@);
        if n == 0 {
            assert(fv.take(0) =~= Seq::<FeatureM>::empty());
            return (true, 0);
        }
        proof {
            assert(fv.take(n as int).drop_last() =~= fv.take(n - 1));
            assert(fv.take(n as int).last() == fv[n - 1]);
            crate::utils::table::lemma_attr_count_nonneg(fv.take(n - 1));
        }
        let (ok, cnt) = self.code_init_features(c, fs, n - 1, start);
        if !ok {
            return (false, 0);
        }
        match &fs[n - 1] {
            Feature::Attribute(a) => {
                let index = start + cnt;
                if index > usize::MAX / 8 - 3 {
                    return (false, 0);
                }
                let off = (index + 3) * 8;
                if !self.environment.env.contains_key(c) {
                    return (false, 0);
                }
                let loc = Location { reg: String::from_str("%rbx"), offset: off as i32 };
                self.scopes_bind_in(c, &a.name, &loc);
                match &*a.init {
                    Some(x) => {
                        if !self.code_expr(x) {
                            return (false, 0);
                        }
                        self.write(text_num("movq %rax, ", off, "(%rbx)"), true);
                    },
                    None => {
                        let t = match a.type_.as_ref() {
                            Some(t) => t,
                            None => {
                                return (false, 0);
                            },
                        };
                        if *t != String::from_str(crate::PRIMSLOT) {
                            let mut line = text_str("movq $", t.as_str(), "_prototype, ");
                            crate::IR::abstract_present::push_nat(&mut line, off as u64);
                            line.append("(%rbx)");
                            self.write(line, true);
                        }
                    },
                }
                (true, cnt + 1)
            },
            _ => (true, cnt),
        }
    }

    /// The attributes of the first `n` classes of a chain in the `init` of
    /// class `c`; the number of those attributes.
    fn code_init_chain(&mut self, c: &String, chain: &Vec<Class>, n: usize) -> (r: (bool, usize))
        requires
            n <= chain@.len(),
            8 * crate::utils::table::chain_attr_count(chain.deep_view().take(n as int)) <= usize::MAX,
        ensures
            r.0 == crate::cgen::program::init_chain(old(self)@, c@, chain.deep_view().take(n as int)) is Some,
            r.0 ==> Some(final(self)@) == crate::cgen::program::init_chain(old(self)@, c@, chain.deep_view().take(n as int)),
            r.0 ==> r.1 == crate::utils::table::chain_attr_count(chain.deep_view().take(n as int)),
            keeps(*old(self), *final(self)),
        decreases n,
    {
        let ghost cv = chain.deep_view();
        if n == 0 {
            assert(cv.take(0) =~= Seq::<ClassM>::empty());
            return (true, 0);
        }
        proof {
            assert(cv.take(n as int).drop_last() =~= cv.take(n - 1));
            assert(cv.take(n as int).last() == cv[n - 1]);
            crate::utils::table::lemma_attr_count_nonneg(cv[n - 1].features);
            crate::utils::table::lemma_chain_attr_count_nonneg(cv.take(n - 1));
            assert(cv[n - 1].features == crate::utils::table::features_view_of(chain@[n - 1].features@));
            assert(crate::utils::table::features_view_of(chain@[n - 1].features@).take(chain@[n - 1].features@.len() as int)
                =~= crate::utils::table::features_view_of(chain@[n - 1].features@));
        }
        let (ok, cnt) = self.code_init_chain(c, chain, n - 1);
        if !ok {
            return (false, 0);
        }
        let (ok2, more) = self.code_init_features(c, &chain[n - 1].features, chain[n - 1].features.len(), cnt);
        if !ok2 {
            return (false, 0);
        }
        (true, cnt + more)
    }

    /// The `init` of class `c`; see `init_class`.
    fn code_init_class(&mut self, c: &String) -> (ok: bool)
        ensures
            ok == crate::cgen::program::init_class(old(self)@, old(self).class_table.model(), c@) is Some,
            ok ==> Some(final(self)@) == crate::cgen::program::init_class(old(self)@, old(self).class_table.model(), c@),
            keeps(*old(self), *final(self)),
    {
        let ghost g = self@;
        let chain = match self.class_table.inheritance.get(c) {
            Some(v) => v.duplicate(),
            None => {
                return false;
            },
        };
        assert(chain.deep_view() == old(self).class_table.model().inheritance[c@]);
        match chain_attrs_checked(&chain) {
            Some(count) => {
                if count > usize::MAX / 8 {
                    return false;
                }
            },
            None => {
                return false;
            },
        }
        let mut label = c.clone();
        label.append(".init:");
        self.write(label, false);
        self.method_start();
        if *c != String::from_str(crate::OBJECT) {
            if chain.len() < 2 {
                return false;
            }
            let parent = self.class_table.get_parent(c);
            self.write(text_str("call ", parent.as_str(), ".init"), true);
        }
        let mut table: SymbolTable<Location> = SymbolTable::new();
        table.enter_scope();
        assert(table.model() =~= seq![Map::<Seq<char>, (Seq<char>, i32)>::empty()]);
        self.environment.env.insert(c.clone(), table);
        assert(chain.deep_view().take(chain@.len() as int) =~= chain.deep_view());
        let (ok, _count) = self.code_init_chain(c, &chain, chain.len());
        if !ok {
            return false;
        }
        let ghost g4 = self@;
        self.write(text_str("movq $", c.as_str(), "_dispatch_table,16(%rbx)"), true);
        self.write_str("movq $1, 8(%rbx)");
        self.write_str("movq %rbx, %rax");
        self.method_end();
        assert(self@.lines =~= g4.lines + (seq![
            tab("movq $"@ + c@ + "_dispatch_table,16(%rbx)"@),
            tab("movq $1, 8(%rbx)"@),
            tab("movq %rbx, %rax"@),
        ] + end_lines()));
        true
    }

    /// The `init` of each of the first `n` classes of the class table, after
    /// a header.
    fn code_inits(&mut self, n: usize) -> (ok: bool)
        requires
            n <= old(self).class_table.classes.entries@.len(),
        ensures
            ok == crate::cgen::program::gen_inits(
                old(self)@,
                old(self).class_table.model(),
                old(self).class_table.classes.keys().take(n as int),
            ) is Some,
            ok ==> Some(final(self)@) == crate::cgen::program::gen_inits(
                old(self)@,
                old(self).class_table.model(),
                old(self).class_table.classes.keys().take(n as int),
            ),
            keeps(*old(self), *final(self)),
        decreases n,
    {
        let ghost names = self.class_table.classes.keys();
        if n == 0 {
            let ghost g = self@;
            assert(names.take(0) =~= Seq::<Seq<char>>::empty());
            self.write_str("#   init method");
            self.write_str(".text");
            assert(self@.lines =~= g.lines + seq![tab("#   init method"@), tab(".text"@)]);
            return true;
        }
        proof {
            assert(names.take(n as int).drop_last() =~= names.take(n - 1));
            assert(names.take(n as int).last() == names[n - 1]);
        }
        if !self.code_inits(n - 1) {
            return false;
        }
        let c = self.class_table.classes.entries[n - 1].0.clone();
        assert(c@ == names[n - 1]);
        self.code_init_class(&c)
    }

    /// The methods and constructors among the first `n` features, in order.
    fn code_features(&mut self, fs: &Vec<Feature>, n: usize) -> (ok: bool)
        requires
            n <= fs@.len(),
        ensures
            ok == crate::cgen::program::gen_features(old(self)@, crate::utils::table::features_view_of(fs@).take(n as int)) is Some,
            ok ==> Some(final(self)@) == crate::cgen::program::gen_features(
                old(self)@,
                crate::utils::table::features_view_of(fs@).take(n as int),
            ),
            keeps(*old(self), *final(self)),
        decreases n,
    {
        let ghost fv = crate::utils::table::features_view_of(fs@);
        if n == 0 {
            assert(fv.take(0) =~= Seq::<FeatureM>::empty());
            return true;
        }
        proof {
            assert(fv.take(n as int).drop_last() =~= fv.take(n - 1));
            assert(fv.take(n as int).last() == fv[n - 1]);
        }
        if !self.code_features(fs, n - 1) {
            return false;
        }
        match &fs[n - 1] {
            Feature::Attribute(_) => true,
            _ => self.code_method_constructor(&fs[n - 1]),
        }
    }

    /// The methods of the first `n` classes, each class being the class at
    /// hand for its own.
    fn code_class_methods(&mut self, cs: &Vec<Class>, n: usize) -> (ok: bool)
        requires
            n <= cs@.len(),
        ensures
            ok == crate::cgen::program::gen_class_methods(old(self)@, cs.deep_view().take(n as int)) is Some,
            ok ==> Some(final(self)@) == crate::cgen::program::gen_class_methods(old(self)@, cs.deep_view().take(n as int)),
            keeps(*old(self), *final(self)),
        decreases n,
    {
        let ghost cv = cs.deep_view();
        if n == 0 {
            assert(cv.take(0) =~= Seq::<ClassM>::empty());
            return true;
        }
        proof {
            assert(cv.take(n as int).drop_last() =~= cv.take(n - 1));
            assert(cv.take(n as int).last() == cv[n - 1]);
            assert(cv[n - 1].features == crate::utils::table::features_view_of(cs@[n - 1].features@));
            assert(crate::utils::table::features_view_of(cs@[n - 1].features@).take(cs@[n - 1].features@.len() as int)
                =~= crate::utils::table::features_view_of(cs@[n - 1].features@));
        }
        if !self.code_class_methods(cs, n - 1) {
            return false;
        }
        self.environment.curr_class = cs[n - 1].name.clone();
        self.code_features(&cs[n - 1].features, cs[n - 1].features.len())
    }

    /// The prototype of each class of the class table; see `gen_prototypes`.
    /// `false` where that is `None`.
    pub fn code_prototype(&mut self) -> (ok: bool)
        ensures
            ok == crate::cgen::program::gen_prototypes(
                old(self)@,
                old(self).class_table.model(),
                old(self).class_table.classes.keys(),
            ) is Some,
            ok ==> Some(final(self)@) == crate::cgen::program::gen_prototypes(
                old(self)@,
                old(self).class_table.model(),
                old(self).class_table.classes.keys(),
            ),
            keeps(*old(self), *final(self)),
    {
        assert(self.class_table.classes.keys().take(self.class_table.classes.entries@.len() as int)
            =~= self.class_table.classes.keys());
        self.code_prototypes(self.class_table.classes.entries.len())
    }

    /// The dispatch table of each class of the class table; see
    /// `gen_dispatch_tables`. `false` where that is `None`.
    pub fn code_dispatch_table(&mut self) -> (ok: bool)
        ensures
            ok == crate::cgen::program::gen_dispatch_tables(
                old(self)@,
                old(self).class_table.model(),
                old(self).class_table.classes.keys(),
            ) is Some,
            ok ==> Some(final(self)@) == crate::cgen::program::gen_dispatch_tables(
                old(self)@,
                old(self).class_table.model(),
                old(self).class_table.classes.keys(),
            ),
            keeps(*old(self), *final(self)),
    {
        assert(self.class_table.classes.keys().take(self.class_table.classes.entries@.len() as int)
            =~= self.class_table.classes.keys());
        self.code_dispatch_tables(self.class_table.classes.entries.len())
    }

    /// Every `init`, then every method of every class; see `gen_methods`.
    /// `false` where that is `None`.
    pub fn code_method(&mut self) -> (ok: bool)
        ensures
            ok == crate::cgen::program::gen_methods(
                old(self)@,
                old(self).class_table.model(),
                old(self).class_table.classes.keys(),
                old(self).classes.deep_view(),
            ) is Some,
            ok ==> Some(final(self)@) == crate::cgen::program::gen_methods(
                old(self)@,
                old(self).class_table.model(),
                old(self).class_table.classes.keys(),
                old(self).classes.deep_view(),
            ),
            keeps(*old(self), *final(self)),
    {
        let ghost names = self.class_table.classes.keys();
        assert(names.take(self.class_table.classes.entries@.len() as int) =~= names);
        if !self.code_inits(self.class_table.classes.entries.len()) {
            return false;
        }
        let classes = self.classes.duplicate();
        assert(classes.deep_view().take(classes@.len() as int) =~= classes.deep_view());
        self.code_class_methods(&classes, classes.len())
    }

    /// The whole program; see `gen_program`. `false` where that is `None`.
    pub fn code_generate(&mut self) -> (ok: bool)
        ensures
            ok == crate::cgen::program::gen_program(
                old(self)@,
                old(self).classes.deep_view(),
                old(self).class_table.model(),
                old(self).class_table.classes.keys(),
                table_view(old(self).tables.string_table@),
                table_view(old(self).tables.int_table@),
            ) is Some,
            ok ==> Some(final(self)@) == crate::cgen::program::gen_program(
                old(self)@,
                old(self).classes.deep_view(),
                old(self).class_table.model(),
                old(self).class_table.classes.keys(),
                table_view(old(self).tables.string_table@),
                table_view(old(self).tables.int_table@),
            ),
            keeps(*old(self), *final(self)),
    {
        let ghost names = self.class_table.classes.keys();
        if !self.code_constants() {
            return false;
        }
        assert(names.take(self.class_table.classes.entries@.len() as int) =~= names);
        if !self.code_prototype() {
            return false;
        }
        if !self.code_dispatch_table() {
            return false;
        }
        if !self.code_method() {
            return false;
        }
        if !self.code_abort() {
            return false;
        }
        self.code_main();
        true
    }
}

/// The assembly of a program, line by line: its constants, the prototype and
/// dispatch table of each class, every `init` and method, `abort` and `main`.
/// `None` where the generator stops (see `asm_program`).
pub fn code_generate(classes: Vec<Class>, class_table: ClassTable, tables: Tables) -> (r: Option<Vec<String>>)
    ensures
        r is Some == crate::cgen::program::asm_program(
            classes.deep_view(),
            class_table.model(),
            class_table.classes.keys(),
            table_view(tables.string_table@),
            table_view(tables.int_table@),
        ) is Some,
        r matches Some(lines) ==> Some(strs_view(lines@)) == crate::cgen::program::asm_program(
            classes.deep_view(),
            class_table.model(),
            class_table.classes.keys(),
            table_view(tables.string_table@),
            table_view(tables.int_table@),
        ),
{
    let mut g = CodeGenerator::new(classes, class_table, tables);
    assert(g@ == crate::cgen::program::initial_gen());
    if g.code_generate() {
        Some(g.lines)
    } else {
        None
    }
}

} // verus!
