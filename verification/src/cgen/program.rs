use vstd::prelude::*;

use super::ast::{gen_expr, lookup_loc};
use super::cgen::{emit, emit_all, emit_tab, end_lines, gen_method, start_lines, tab, GenM, ScopesM};
use crate::parser::ast::class::{ClassM, FeatureM, VarDeclM};
use crate::utils::table::{attr_count, chain_attr_count, scopes_add, ClassTableM};
use crate::IR::abstract_present::nat_text;

verus! {

/// The number of bytes of the UTF-8 encoding of a character.
pub open spec fn char_width(c: char) -> nat {
    if (c as u32) < 0x80 {
        1
    } else if (c as u32) < 0x800 {
        2
    } else if (c as u32) < 0x10000 {
        3
    } else {
        4
    }
}

/// The number of bytes of the UTF-8 encoding of a text.
pub open spec fn utf8_len(s: Seq<char>) -> nat
    decreases s.len(),
{
    if s.len() == 0 {
        0
    } else {
        utf8_len(s.drop_last()) + char_width(s.last())
    }
}

/// The lines of string constant number `i`: its bytes, then an object that
/// points at them.
pub open spec fn str_const_lines(i: nat, s: Seq<char>) -> Seq<Seq<char>> {
    seq![
        tab(".align 8"@),
        "str_const_ascii_"@ + nat_text(i) + ":"@,
        tab(".ascii \""@ + s + "\""@),
        Seq::empty(),
        tab(".align 8"@),
        "str_const_"@ + nat_text(i) + ":"@,
        tab(".quad 40"@),
        tab(".quad 1"@),
        tab(".quad String_dispatch_table"@),
        tab(".quad str_const_ascii_"@ + nat_text(i)),
        tab(".quad "@ + nat_text(utf8_len(s))),
        Seq::empty(),
    ]
}

pub open spec fn int_const_lines(i: nat, s: Seq<char>) -> Seq<Seq<char>> {
    seq![
        tab(".align 8"@),
        "int_const_"@ + nat_text(i) + ":"@,
        tab(".quad 32"@),
        tab(".quad 1"@),
        tab(".quad Int_dispatch_table"@),
        tab(".quad "@ + s),
        Seq::empty(),
    ]
}

pub open spec fn bool_const_lines(i: nat) -> Seq<Seq<char>> {
    seq![
        tab(".align 8"@),
        "bool_const_"@ + nat_text(i) + ":"@,
        tab(".quad 32"@),
        tab(".quad 1"@),
        tab(".quad Bool_dispatch_table"@),
        tab(".quad "@ + nat_text(i)),
        Seq::empty(),
    ]
}

/// The lines of all string constants, numbered in table order.
pub open spec fn str_consts(t: Seq<Seq<char>>) -> Seq<Seq<char>>
    decreases t.len(),
{
    if t.len() == 0 {
        Seq::empty()
    } else {
        str_consts(t.drop_last()) + str_const_lines((t.len() - 1) as nat, t.last())
    }
}

pub open spec fn int_consts(t: Seq<Seq<char>>) -> Seq<Seq<char>>
    decreases t.len(),
{
    if t.len() == 0 {
        Seq::empty()
    } else {
        int_consts(t.drop_last()) + int_const_lines((t.len() - 1) as nat, t.last())
    }
}

/// Each constant of the table mapped to its number; a constant that occurs
/// twice keeps the later number.
pub open spec fn const_numbers(m: Map<Seq<char>, usize>, t: Seq<Seq<char>>) -> Map<Seq<char>, usize>
    decreases t.len(),
{
    if t.len() == 0 {
        m
    } else {
        const_numbers(m, t.drop_last()).insert(t.last(), (t.len() - 1) as usize)
    }
}

pub open spec fn consts_fit(strs: Seq<Seq<char>>) -> bool {
    forall|i: int| 0 <= i < strs.len() ==> utf8_len(#[trigger] strs[i]) <= usize::MAX
}

/// The data section: every string, integer and boolean constant.
pub open spec fn gen_constants(g: GenM, strs: Seq<Seq<char>>, ints: Seq<Seq<char>>) -> Option<GenM> {
    if !consts_fit(strs) {
        None
    } else {
        Some(
            GenM {
                lines: g.lines + seq![tab(".text"@), tab("#   emit contants"@), tab(".section    .data"@)]
                    + str_consts(strs) + int_consts(ints) + bool_const_lines(0) + bool_const_lines(1),
                strs: const_numbers(g.strs, strs),
                ints: const_numbers(g.ints, ints),
                ..g
            },
        )
    }
}

/// The field map with `attr` of `owner` at `off`.
pub open spec fn insert_field(
    m: Map<Seq<char>, Map<Seq<char>, usize>>,
    owner: Seq<char>,
    attr: Seq<char>,
    off: usize,
) -> Map<Seq<char>, Map<Seq<char>, usize>> {
    m.insert(owner, (if m.contains_key(owner) { m[owner] } else { Map::empty() }).insert(attr, off))
}

/// One slot of a prototype: the field is numbered, and the slot holds the
/// empty string, `false`, zero or nothing, as its type says.
pub open spec fn proto_attr(g: GenM, owner: Seq<char>, a: VarDeclM, index: nat) -> Option<GenM> {
    if 24 + index * 8 > usize::MAX {
        None
    } else {
        let g1 = GenM { fields: insert_field(g.fields, owner, a.name, (24 + index * 8) as usize), ..g };
        match a.type_ {
            None => None,
            Some(t) => if t == crate::STRING@ {
                if g1.strs.contains_key(Seq::empty()) {
                    Some(emit_tab(g1, ".quad str_const_"@ + nat_text(g1.strs[Seq::empty()] as nat)))
                } else {
                    None
                }
            } else if t == crate::BOOL@ {
                Some(emit_tab(g1, ".quad bool_const_0"@))
            } else if t == crate::INT@ {
                if g1.ints.contains_key("0"@) {
                    Some(emit_tab(g1, ".quad int_const_"@ + nat_text(g1.ints["0"@] as nat)))
                } else {
                    None
                }
            } else if t == crate::PRIMSLOT@ {
                Some(emit_tab(g1, ".quad 0"@))
            } else {
                Some(g1)
            },
        }
    }
}

/// The slots of the attributes among `fs`, numbered from `start`.
pub open spec fn proto_features(g: GenM, owner: Seq<char>, fs: Seq<FeatureM>, start: nat) -> Option<GenM>
    decreases fs.len(),
{
    if fs.len() == 0 {
        Some(g)
    } else {
        match proto_features(g, owner, fs.drop_last(), start) {
            None => None,
            Some(g1) => match fs.last() {
                FeatureM::Attribute(a) => proto_attr(g1, owner, a, start + attr_count(fs.drop_last()) as nat),
                _ => Some(g1),
            },
        }
    }
}

/// The slots of the attributes of a chain of classes, the first class's
/// first.
pub open spec fn proto_chain(g: GenM, chain: Seq<ClassM>) -> Option<GenM>
    decreases chain.len(),
{
    if chain.len() == 0 {
        Some(g)
    } else {
        match proto_chain(g, chain.drop_last()) {
            None => None,
            Some(g1) => proto_features(g1, chain.last().name, chain.last().features, chain_attr_count(chain.drop_last()) as nat),
        }
    }
}

/// The prototype object of class `c`: its size, a null tag, its dispatch
/// table, and a slot for each attribute it holds.
pub open spec fn proto_class(g: GenM, t: ClassTableM, c: Seq<char>) -> Option<GenM> {
    if c == crate::PRIMSLOT@ {
        Some(g)
    } else if !t.inheritance.contains_key(c) || (chain_attr_count(t.inheritance[c]) + 3) * 8 > usize::MAX {
        None
    } else {
        let n = chain_attr_count(t.inheritance[c]);
        let g1 = emit_all(
            g,
            seq![
                tab(".align 8"@),
                c + "_prototype:"@,
                tab(".quad "@ + nat_text(((n + 3) * 8) as nat)),
                tab(".quad 0"@),
                tab(".quad "@ + c + "_dispatch_table"@),
            ],
        );
        match proto_chain(g1, t.inheritance[c]) {
            None => None,
            Some(g2) => Some(emit_tab(g2, Seq::empty())),
        }
    }
}

pub open spec fn gen_prototypes(g: GenM, t: ClassTableM, names: Seq<Seq<char>>) -> Option<GenM>
    decreases names.len(),
{
    if names.len() == 0 {
        Some(emit_tab(g, "#   class prototype"@))
    } else {
        match gen_prototypes(g, t, names.drop_last()) {
            None => None,
            Some(g1) => proto_class(g1, t, names.last()),
        }
    }
}


/// The names of the methods among `fs`, in order.
pub open spec fn method_names(fs: Seq<FeatureM>) -> Seq<Seq<char>>
    decreases fs.len(),
{
    if fs.len() == 0 {
        Seq::empty()
    } else {
        match fs.last() {
            FeatureM::Method(m) => method_names(fs.drop_last()).push(m.name),
            _ => method_names(fs.drop_last()),
        }
    }
}

/// Whether the last class of the chain named `c` declares a method `m`.
pub open spec fn declares(chain: Seq<ClassM>, c: Seq<char>, m: Seq<char>) -> bool
    decreases chain.len(),
{
    if chain.len() == 0 {
        false
    } else if chain.last().name == c {
        method_names(chain.last().features).contains(m)
    } else {
        declares(chain.drop_last(), c, m)
    }
}

/// The class, searched from the end of `part`, whose method `m` a call
/// reaches: the most derived class of the chain that declares it.
pub open spec fn provider(chain: Seq<ClassM>, part: Seq<ClassM>, m: Seq<char>) -> Option<Seq<char>>
    decreases part.len(),
{
    if part.len() == 0 {
        None
    } else if declares(chain, part.last().name, m) {
        Some(part.last().name)
    } else {
        provider(chain, part.drop_last(), m)
    }
}

/// The number of methods among `fs`.
pub open spec fn method_count(fs: Seq<FeatureM>) -> nat {
    method_names(fs).len()
}

pub open spec fn chain_method_count(chain: Seq<ClassM>) -> nat
    decreases chain.len(),
{
    if chain.len() == 0 {
        0
    } else {
        chain_method_count(chain.drop_last()) + method_count(chain.last().features)
    }
}

/// The dispatch map with method `m` of class `c` at `off`.
pub open spec fn insert_slot(
    d: Map<Seq<char>, Map<Seq<char>, usize>>,
    c: Seq<char>,
    m: Seq<char>,
    off: usize,
) -> Map<Seq<char>, Map<Seq<char>, usize>> {
    insert_field(d, c, m, off)
}

/// One slot of the dispatch table of `c`: the method that a call of `m`
/// reaches, numbered `k`.
pub open spec fn disp_method(g: GenM, c: Seq<char>, chain: Seq<ClassM>, m: Seq<char>, k: nat) -> GenM {
    match provider(chain, chain, m) {
        Some(p) => GenM {
            dispatch: insert_slot(g.dispatch, c, m, (k * 8) as usize),
            ..emit_tab(g, ".quad "@ + p + "."@ + m)
        },
        None => g,
    }
}

pub open spec fn disp_features(g: GenM, c: Seq<char>, chain: Seq<ClassM>, fs: Seq<FeatureM>, start: nat) -> GenM
    decreases fs.len(),
{
    if fs.len() == 0 {
        g
    } else {
        let g1 = disp_features(g, c, chain, fs.drop_last(), start);
        match fs.last() {
            FeatureM::Method(md) => disp_method(g1, c, chain, md.name, start + method_count(fs.drop_last())),
            _ => g1,
        }
    }
}

pub open spec fn disp_chain(g: GenM, c: Seq<char>, chain: Seq<ClassM>, part: Seq<ClassM>) -> GenM
    decreases part.len(),
{
    if part.len() == 0 {
        g
    } else {
        let g1 = disp_chain(g, c, chain, part.drop_last());
        disp_features(g1, c, chain, part.last().features, chain_method_count(part.drop_last()))
    }
}

/// The dispatch table of class `c`: for each method of its chain, in order,
/// the most derived definition, then its `init`.
pub open spec fn disp_class(g: GenM, t: ClassTableM, c: Seq<char>) -> Option<GenM> {
    if !t.inheritance.contains_key(c) || chain_method_count(t.inheritance[c]) * 8 > usize::MAX {
        None
    } else {
        let chain = t.inheritance[c];
        let g1 = emit_all(g, seq![tab(".align 8"@), c + "_dispatch_table:"@]);
        let g2 = disp_chain(g1, c, chain, chain);
        Some(emit_all(g2, seq![tab(".quad "@ + c + ".init"@), tab(Seq::empty())]))
    }
}

pub open spec fn gen_dispatch_tables(g: GenM, t: ClassTableM, names: Seq<Seq<char>>) -> Option<GenM>
    decreases names.len(),
{
    if names.len() == 0 {
        Some(emit_tab(g, "#   dispatch tables"@))
    } else {
        match gen_dispatch_tables(g, t, names.drop_last()) {
            None => None,
            Some(g1) => disp_class(g1, t, names.last()),
        }
    }
}


/// One attribute in the `init` of class `c`: its slot is bound, then filled
/// with its initial value or, without one, the prototype of its type.
pub open spec fn init_attr(g: GenM, c: Seq<char>, a: VarDeclM, index: nat) -> Option<GenM> {
    if (index + 3) * 8 > usize::MAX || !g.env.contains_key(c) {
        None
    } else {
        let off = ((index + 3) * 8) as usize;
        let g1 = GenM { env: g.env.insert(c, scopes_add(g.env[c], a.name, ("%rbx"@, off as i32))), ..g };
        match a.init {
            Some(x) => match gen_expr(g1, x) {
                Some(g2) => Some(emit_tab(g2, "movq %rax, "@ + nat_text(off as nat) + "(%rbx)"@)),
                None => None,
            },
            None => match a.type_ {
                None => None,
                Some(t) => if t != crate::PRIMSLOT@ {
                    Some(emit_tab(g1, "movq $"@ + t + "_prototype, "@ + nat_text(off as nat) + "(%rbx)"@))
                } else {
                    Some(g1)
                },
            },
        }
    }
}

pub open spec fn init_features(g: GenM, c: Seq<char>, fs: Seq<FeatureM>, start: nat) -> Option<GenM>
    decreases fs.len(),
{
    if fs.len() == 0 {
        Some(g)
    } else {
        match init_features(g, c, fs.drop_last(), start) {
            None => None,
            Some(g1) => match fs.last() {
                FeatureM::Attribute(a) => init_attr(g1, c, a, start + attr_count(fs.drop_last()) as nat),
                _ => Some(g1),
            },
        }
    }
}

pub open spec fn init_chain(g: GenM, c: Seq<char>, chain: Seq<ClassM>) -> Option<GenM>
    decreases chain.len(),
{
    if chain.len() == 0 {
        Some(g)
    } else {
        match init_chain(g, c, chain.drop_last()) {
            None => None,
            Some(g1) => init_features(g1, c, chain.last().features, chain_attr_count(chain.drop_last()) as nat),
        }
    }
}

/// The `init` of class `c`: it calls its parent's, fills each slot of the
/// object, sets the dispatch table and the null tag, and returns the object.
pub open spec fn init_class(g: GenM, t: ClassTableM, c: Seq<char>) -> Option<GenM> {
    if !t.inheritance.contains_key(c) || 8 * chain_attr_count(t.inheritance[c]) > usize::MAX {
        None
    } else {
        let chain = t.inheritance[c];
        let g1 = emit_all(emit(g, c + ".init:"@), start_lines());
        let g2 = if c != crate::OBJECT@ {
            if chain.len() >= 2 {
                Some(emit_tab(g1, "call "@ + chain[chain.len() - 2].name + ".init"@))
            } else {
                None
            }
        } else {
            Some(g1)
        };
        match g2 {
            None => None,
            Some(g2) => {
                let g3 = GenM { env: g2.env.insert(c, seq![Map::empty()]), ..g2 };
                match init_chain(g3, c, chain) {
                    None => None,
                    Some(g4) => Some(
                        emit_all(
                            g4,
                            seq![
                                tab("movq $"@ + c + "_dispatch_table,16(%rbx)"@),
                                tab("movq $1, 8(%rbx)"@),
                                tab("movq %rbx, %rax"@),
                            ] + end_lines(),
                        ),
                    ),
                }
            },
        }
    }
}

pub open spec fn gen_inits(g: GenM, t: ClassTableM, names: Seq<Seq<char>>) -> Option<GenM>
    decreases names.len(),
{
    if names.len() == 0 {
        Some(emit_all(g, seq![tab("#   init method"@), tab(".text"@)]))
    } else {
        match gen_inits(g, t, names.drop_last()) {
            None => None,
            Some(g1) => init_class(g1, t, names.last()),
        }
    }
}

/// The methods and constructors among `fs`, in order.
pub open spec fn gen_features(g: GenM, fs: Seq<FeatureM>) -> Option<GenM>
    decreases fs.len(),
{
    if fs.len() == 0 {
        Some(g)
    } else {
        match gen_features(g, fs.drop_last()) {
            None => None,
            Some(g1) => match fs.last() {
                FeatureM::Attribute(_) => Some(g1),
                _ => gen_method(g1, fs.last()),
            },
        }
    }
}

/// The methods of each class of the program, each class in turn being the
/// class at hand.
pub open spec fn gen_class_methods(g: GenM, cs: Seq<ClassM>) -> Option<GenM>
    decreases cs.len(),
{
    if cs.len() == 0 {
        Some(g)
    } else {
        match gen_class_methods(g, cs.drop_last()) {
            None => None,
            Some(g1) => gen_features(GenM { curr: cs.last().name, ..g1 }, cs.last().features),
        }
    }
}

/// Every `init`, then every method.
pub open spec fn gen_methods(g: GenM, t: ClassTableM, names: Seq<Seq<char>>, cs: Seq<ClassM>) -> Option<GenM> {
    match gen_inits(g, t, names) {
        None => None,
        Some(g1) => gen_class_methods(g1, cs),
    }
}

/// The routine that reports a runtime error and exits.
pub open spec fn gen_abort(g: GenM) -> Option<GenM> {
    if g.strs.contains_key(crate::RUNTIME_ERR@) {
        Some(
            emit_all(
                g,
                seq![
                    "abort:"@,
                    tab("movq $1, %rax"@),
                    tab("movq $2, %rdi"@),
                    tab("movq $str_const_ascii_"@ + nat_text(g.strs[crate::RUNTIME_ERR@] as nat) + ", %rsi"@),
                    tab("movq $60, %rdx"@),
                    tab("syscall"@),
                    tab("call exit"@),
                ],
            ),
        )
    } else {
        None
    }
}

/// A generator that has written nothing yet.
pub open spec fn initial_gen() -> GenM {
    GenM {
        lines: Seq::empty(),
        env: Map::empty(),
        fields: Map::empty(),
        curr: "none"@,
        var_offset: 1,
        label: 0,
        align: 0,
        strs: Map::empty(),
        ints: Map::empty(),
        dispatch: Map::empty(),
    }
}

/// The state after the whole program: constants, prototypes, dispatch
/// tables, `init`s and methods, `abort` and `main`.
pub open spec fn gen_program(
    g: GenM,
    cs: Seq<ClassM>,
    t: ClassTableM,
    names: Seq<Seq<char>>,
    strs: Seq<Seq<char>>,
    ints: Seq<Seq<char>>,
) -> Option<GenM> {
    match gen_constants(g, strs, ints) {
        None => None,
        Some(g1) => match gen_prototypes(g1, t, names) {
            None => None,
            Some(g2) => match gen_dispatch_tables(g2, t, names) {
                None => None,
                Some(g3) => match gen_methods(g3, t, names, cs) {
                    None => None,
                    Some(g4) => match gen_abort(g4) {
                        None => None,
                        Some(g5) => Some(emit_tab(g5, crate::cgen::cgen::MAIN_CODE@)),
                    },
                },
            },
        },
    }
}

/// The assembly of a program, line by line; `None` where the generator would
/// stop.
pub open spec fn asm_program(
    cs: Seq<ClassM>,
    t: ClassTableM,
    names: Seq<Seq<char>>,
    strs: Seq<Seq<char>>,
    ints: Seq<Seq<char>>,
) -> Option<Seq<Seq<char>>> {
    match gen_program(initial_gen(), cs, t, names, strs, ints) {
        Some(g) => Some(g.lines),
        None => None,
    }
}

} // verus!
