use vstd::prelude::*;

use crate::IR::abstract_present::{BlockM, CodeM, InstrM};
use crate::IR::ast2ir::{grows, lemma_lower_grows, lower, EnvM};
use crate::IR::pass::ssa::{
    frontier_closed, lemma_out_of_ssa_shape, lemma_phis_var_frontier, lemma_ssa_shape, lemma_with_phis_count, out_of_ssa,
    phi_count, phis_var, same_shape, ssa_blocks, var_info, with_phis,
};
use crate::IR::pass::dom::{dom_solution, dom_step, greatest_dom, has_pred, square, Rows};
use crate::lexer::lexer::{spec_next_token, token_of,
    best_rule, count_newlines, dashes_then_digits, fixed_text, is_best, is_digit, is_fixed, lex_next, rule_matches, LexState};
use crate::parser::ast::class::{same_feature, ClassM, FeatureM};
use crate::semantic::rules::{
    collect_ctors, enter_classes, first_same, override_chain, override_classes, override_feature, override_features, has_main_class, has_main_method, inherit_classes, lemma_collect_ctors,
    lemma_enter_classes, semantic_check, walk, walk_result,
};
use crate::parser::ast::class::VarDeclM;
use crate::parser::ast::expr::{DispatchExprM, ExprM};
use crate::parser::ast::ParamM;
use crate::lexer::Position;
use crate::lexer::token::token_spells;
use crate::semantic::type_checker::{
    tc_args, tc_decls, tc_expr, tc_for_test, tc_list, tc_member, tc_types, Scopes,
};
use crate::utils::table::{scopes_add, scopes_exit, scopes_find, spec_less_or_equal, table_insert, table_view, ClassTableM};
use crate::cgen::ast::{gen_expr, op_lines, operand_lines};
use crate::cgen::cgen::{emit_tab, GenM};
use crate::cgen::cgen::tab;
use crate::cgen::machine::{arith, run, word, Regs};
use crate::parser::ast::expr::{ComputeOp, MathOp};
use crate::utils::util::{expand_tabs, seqs_match, spec_align_to_16, MatchItem};

verus! {

/// A name bound in the innermost scope is found with the value it was
/// bound to.
pub proof fn law_find_after_add<V>(st: Seq<Map<Seq<char>, V>>, k: Seq<char>, v: V)
    requires
        st.len() > 0,
    ensures
        scopes_find(scopes_add(st, k, v), k) == Some(v),
{
}

/// Binding one name leaves what every other name is found to be.
pub proof fn law_add_keeps_others<V>(st: Seq<Map<Seq<char>, V>>, k: Seq<char>, k2: Seq<char>, v: V)
    requires
        k != k2,
    ensures
        scopes_find(scopes_add(st, k, v), k2) == scopes_find(st, k2),
{
    if st.len() > 0 {
        let st2 = scopes_add(st, k, v);
        assert(st2.drop_last() =~= st.drop_last());
    }
}

/// Leaving a scope just entered gives back the scopes as they were.
pub proof fn law_enter_exit<V>(st: Seq<Map<Seq<char>, V>>)
    ensures
        scopes_exit(st.push(Map::empty())) == st,
{
    assert(st.push(Map::<Seq<char>, V>::empty()).drop_last() =~= st);
}

/// A name bound in a scope is no longer found once that scope is left:
/// the binding it had outside comes back.
pub proof fn law_scope_binding_ends<V>(st: Seq<Map<Seq<char>, V>>, k: Seq<char>, v: V)
    ensures
        scopes_find(scopes_exit(scopes_add(st.push(Map::empty()), k, v)), k) == scopes_find(st, k),
{
    let s1 = st.push(Map::<Seq<char>, V>::empty());
    assert(s1.drop_last() =~= st);
    assert(scopes_add(s1, k, v).drop_last() =~= st);
}

/// The scopes after binding each pair of `bs` in order.
pub open spec fn scopes_add_all<V>(st: Seq<Map<Seq<char>, V>>, bs: Seq<(Seq<char>, V)>) -> Seq<Map<Seq<char>, V>>
    decreases bs.len(),
{
    if bs.len() == 0 {
        st
    } else {
        scopes_add_all(scopes_add(st, bs[0].0, bs[0].1), bs.drop_first())
    }
}

proof fn lemma_add_all_top<V>(st: Seq<Map<Seq<char>, V>>, m: Map<Seq<char>, V>, bs: Seq<(Seq<char>, V)>)
    ensures
        scopes_add_all(st.push(m), bs).len() == st.len() + 1,
        scopes_add_all(st.push(m), bs).drop_last() == st,
    decreases bs.len(),
{
    if bs.len() == 0 {
        assert(st.push(m).drop_last() =~= st);
    } else {
        let st2 = scopes_add(st.push(m), bs[0].0, bs[0].1);
        assert(st.push(m).drop_last() =~= st);
        let m2 = m.insert(bs[0].0, bs[0].1);
        assert(st2 =~= st.push(m2));
        lemma_add_all_top(st, m2, bs.drop_first());
    }
}

/// Entering a scope, binding any number of names in it, then leaving it
/// gives back the scopes as they were, so every name is found as before.
pub proof fn law_scope_round_trip<V>(st: Seq<Map<Seq<char>, V>>, bs: Seq<(Seq<char>, V)>, k: Seq<char>)
    ensures
        scopes_exit(scopes_add_all(st.push(Map::empty()), bs)) == st,
        scopes_find(scopes_exit(scopes_add_all(st.push(Map::empty()), bs)), k) == scopes_find(st, k),
{
    lemma_add_all_top(st, Map::empty(), bs);
}

/// Every type is a subtype of itself.
pub proof fn law_subtype_reflexive(ct: ClassTableM, t: Seq<char>)
    ensures
        spec_less_or_equal(ct, t, t),
{
}

/// A class is a subtype of every class on its inheritance chain.
pub proof fn law_subtype_of_chain(ct: ClassTableM, c: Seq<char>, j: int)
    requires
        ct.inheritance.contains_key(c),
        0 <= j < ct.inheritance[c].len(),
    ensures
        spec_less_or_equal(ct, c, ct.inheritance[c][j].name),
{
    assert(ct.inheritance[c][j].name == ct.inheritance[c][j].name);
}

/// Two lists of strings match exactly when they are equal, so matching is
/// symmetric.
pub proof fn law_match_is_equality(a: Seq<String>, b: Seq<String>)
    ensures
        seqs_match(a, b) == (table_view(a) == table_view(b)),
        seqs_match(a, b) == seqs_match(b, a),
{
    let va = table_view(a);
    let vb = table_view(b);
    if seqs_match(a, b) {
        assert forall|i: int| 0 <= i < a.len() implies va[i] == vb[i] by {
            assert(a[i].same(&b[i]));
        }
        assert(va =~= vb);
    }
    if va == vb {
        assert(a.len() == va.len() && b.len() == vb.len());
        assert forall|i: int| 0 <= i < a.len() implies #[trigger] a[i].same(&b[i]) by {
            assert(va[i] == vb[i]);
            assert(va[i] == a[i]@ && vb[i] == b[i]@);
        }
        assert forall|i: int| 0 <= i < b.len() implies #[trigger] b[i].same(&a[i]) by {
            assert(va[i] == vb[i]);
            assert(va[i] == a[i]@ && vb[i] == b[i]@);
        }
    }
    if seqs_match(b, a) {
        assert forall|i: int| 0 <= i < a.len() implies #[trigger] a[i].same(&b[i]) by {
            assert(b[i].same(&a[i]));
        }
    }
}

/// Rounding up to a multiple of 16 gives a multiple of 16, no less than
/// the size and less than 16 above it, and rounding it again changes
/// nothing.
pub proof fn law_align_idempotent(x: int)
    requires
        x >= 0,
    ensures
        spec_align_to_16(x) % 16 == 0,
        x <= spec_align_to_16(x) < x + 16,
        spec_align_to_16(spec_align_to_16(x)) == spec_align_to_16(x),
{
    let a = spec_align_to_16(x);
    assert(a == ((x + 15) / 16) * 16);
    assert(a % 16 == 0) by (nonlinear_arith)
        requires
            a == ((x + 15) / 16) * 16,
    ;
    assert(x <= a < x + 16) by (nonlinear_arith)
        requires
            a == ((x + 15) / 16) * 16,
            x >= 0,
    ;
    assert(spec_align_to_16(a) == a) by (nonlinear_arith)
        requires
            a % 16 == 0,
            a >= 0,
            spec_align_to_16(a) == ((a + 15) / 16) * 16,
    ;
}

/// A method's frame keeps the stack aligned to 16 bytes: its `len`
/// arguments, the return address, the two saved registers and the frame
/// for its `n` locals add up to a multiple of 16.
pub proof fn law_frame_keeps_stack_aligned(n: nat, len: nat)
    ensures
        (8 * len + 24 + crate::cgen::cgen::frame_size(n, len as int)) % 16 == 0,
{
    law_align_idempotent((8 * n) as int);
    let a = spec_align_to_16((8 * n) as int);
    let l = len as int;
    assert((8 * l + 24 + a + if l % 2 == 0 { 8int } else { 0int }) % 16 == 0) by (nonlinear_arith)
        requires
            a % 16 == 0,
            l >= 0,
    ;
}

/// The text with its tabs expanded holds no tab.
pub proof fn law_expand_tabs_no_tab(s: Seq<char>)
    ensures
        !expand_tabs(s).contains('\t'),
    decreases s.len(),
{
    if s.len() > 0 {
        law_expand_tabs_no_tab(s.drop_last());
        let e = expand_tabs(s.drop_last());
        if s.last() == '\t' {
            let r = e + seq![' ', ' ', ' ', ' '];
            assert forall|i: int| 0 <= i < r.len() implies r[i] != '\t' by {
                if i < e.len() {
                    assert(r[i] == e[i]);
                }
            }
        } else {
            let r = e.push(s.last());
            assert forall|i: int| 0 <= i < r.len() implies r[i] != '\t' by {
                if i < e.len() {
                    assert(r[i] == e[i]);
                }
            }
        }
    }
}

/// Expanding the tabs of a text a second time changes nothing.
pub proof fn law_expand_tabs_idempotent(s: Seq<char>)
    ensures
        expand_tabs(expand_tabs(s)) == expand_tabs(s),
{
    law_expand_tabs_no_tab(s);
    lemma_expand_without_tabs(expand_tabs(s));
}

proof fn lemma_expand_without_tabs(s: Seq<char>)
    requires
        !s.contains('\t'),
    ensures
        expand_tabs(s) == s,
    decreases s.len(),
{
    if s.len() > 0 {
        assert(!s.drop_last().contains('\t')) by {
            if s.drop_last().contains('\t') {
                let i = choose|i: int| 0 <= i < s.drop_last().len() && s.drop_last()[i] == '\t';
                assert(s[i] == '\t');
            }
        }
        lemma_expand_without_tabs(s.drop_last());
        assert(s.last() != '\t') by {
            assert(s[s.len() - 1] == s.last());
        }
        assert(s.drop_last().push(s.last()) =~= s);
    }
}

/// A constant table never holds the same string twice, and holds each
/// string once it is entered.
pub proof fn law_table_insert(t: Seq<Seq<char>>, s: Seq<char>)
    requires
        forall|i: int, j: int| 0 <= i < j < t.len() ==> t[i] != t[j],
    ensures
        forall|i: int, j: int|
            0 <= i < j < table_insert(t, s).len() ==> table_insert(t, s)[i] != table_insert(t, s)[j],
        table_insert(t, s).contains(s),
        forall|x: Seq<char>| t.contains(x) ==> table_insert(t, s).contains(x),
{
    if !t.contains(s) {
        let r = t.push(s);
        assert(r[t.len() as int] == s);
        assert forall|x: Seq<char>| t.contains(x) implies r.contains(x) by {
            let i = choose|i: int| 0 <= i < t.len() && t[i] == x;
            assert(r[i] == x);
        }
    }
}

/// The lexer only moves forward: what is left after a step is a suffix of
/// what was there, and shorter when a token came out.
pub proof fn law_lexer_moves_forward(st: LexState)
    ensures
        lex_next(st).0.rest.len() <= st.rest.len(),
        lex_next(st).0.rest == st.rest.skip(st.rest.len() - lex_next(st).0.rest.len()),
        lex_next(st).1 is Some ==> lex_next(st).0.rest.len() < st.rest.len(),
    decreases st.rest.len(),
{
    assert(st.rest.skip(0) =~= st.rest);
    reveal_with_fuel(lex_next, 2);
    if st.rest.len() > 0 {
        let (r, n) = crate::lexer::lexer::best_rule(st.rest);
        if 1 <= n <= st.rest.len() {
            let rest1 = st.rest.skip(n);
            let st1 = LexState { offset: st.offset + n, rest: rest1, ..st };
            law_lexer_moves_forward(st1);
            law_lexer_moves_forward(LexState { line: st1.line + 1, offset: 0, ..st1 });
            law_lexer_moves_forward(
                LexState { line: st1.line + crate::lexer::lexer::count_newlines(crate::lexer::lexer::token_of(r, st.rest.take(n))->BlockComment_0), ..st1 },
            );
            let k = lex_next(st).0.rest.len();
            assert(rest1.skip(rest1.len() - k) =~= st.rest.skip(st.rest.len() - k));
        }
    }
}

/// Newlines add up over a concatenation.
proof fn lemma_count_newlines_concat(a: Seq<char>, b: Seq<char>)
    ensures
        count_newlines(a + b) == count_newlines(a) + count_newlines(b),
    decreases b.len(),
{
    if b.len() > 0 {
        lemma_count_newlines_concat(a, b.drop_last());
        assert((a + b).drop_last() =~= a + b.drop_last());
    } else {
        assert(a + b =~= a);
    }
}

/// A text without a newline counts none.
proof fn lemma_no_newline(s: Seq<char>)
    requires
        forall|i: int| 0 <= i < s.len() ==> s[i] != '\n',
    ensures
        count_newlines(s) == 0,
    decreases s.len(),
{
    if s.len() > 0 {
        lemma_no_newline(s.drop_last());
    }
}

/// Of the fixed texts, only that of the newline rule holds a newline.
proof fn lemma_fixed_no_newline(r: int)
    requires
        is_fixed(r),
        r != 42,
    ensures
        count_newlines(fixed_text(r)) == 0,
{
    let t = fixed_text(r);
    assert forall|i: int| 0 <= i < t.len() implies t[i] != '\n' by {
        if r == 0 {} else if r == 1 {} else if r == 2 {} else if r == 3 {} else if r == 4 {} else if r == 5 {} else if r == 6 {} else if r == 7 {} else if r == 8 {} else if r == 9 {} else if r == 10 {} else if r == 11 {} else if r == 12 {} else if r == 13 {} else if r == 14 {} else if r == 15 {} else if r == 16 {} else if r == 17 {} else if r == 18 {} else if r == 19 {} else if r == 20 {} else if r == 21 {} else if r == 22 {} else if r == 23 {} else if r == 24 {} else if r == 25 {} else if r == 26 {} else if r == 31 {} else if r == 32 {} else if r == 33 {} else if r == 34 {} else if r == 35 {} else if r == 36 {} else if r == 37 {} else if r == 38 {} else if r == 39 {} else if r == 40 {} else if r == 41 {} else if r == 46 {} else if r == 47 {} else if r == 48 {} else if r == 49 {} else if r == 50 {} else if r == 51 {} else if r == 52 {} else if r == 53 {}
    }
    lemma_no_newline(t);
}

/// The lexeme of a token other than a string literal, a newline or a block
/// comment holds no newline.
proof fn lemma_lexeme_no_newline(s: Seq<char>, r: int, n: int)
    requires
        is_best(s, r, n),
        r != 30,
        r != 42,
        r != 44,
    ensures
        count_newlines(s.take(n)) == 0,
{
    if is_fixed(r) {
        lemma_fixed_no_newline(r);
        assert(s.take(n) == fixed_text(r));
    } else {
        if r == 54 && s[0] == '\n' {
            assert(s.take(1) =~= fixed_text(42));
            assert(rule_matches(42, s, 1));
        }
        if r == 29 {
            let k = choose|k: int| dashes_then_digits(s, k, n);
            assert(forall|i: int| 0 <= i < n ==> s[i] == '-' || is_digit(s[i]));
        }
        assert forall|i: int| 0 <= i < s.take(n).len() implies s.take(n)[i] != '\n' by {
            assert(s.take(n)[i] == s[i]);
        }
        lemma_no_newline(s.take(n));
    }
}

/// With no rule matching beyond `m` characters, the first rule from `r0` on
/// that matches `m` characters is the best one, if there is one from `r0`.
proof fn lemma_best_at(s: Seq<char>, m: int, r0: int)
    requires
        1 <= m <= s.len(),
        0 <= r0,
        forall|r2: int, n2: int| m < n2 && #[trigger] rule_matches(r2, s, n2) ==> false,
        forall|r2: int| 0 <= r2 < r0 ==> !#[trigger] rule_matches(r2, s, m),
        exists|r2: int| r0 <= r2 < crate::lexer::lexer::NUM_RULES && #[trigger] rule_matches(r2, s, m),
    ensures
        exists|r: int, n: int| is_best(s, r, n),
    decreases crate::lexer::lexer::NUM_RULES - r0,
{
    if rule_matches(r0, s, m) {
        assert forall|r2: int, n2: int|
            0 <= r2 < crate::lexer::lexer::NUM_RULES && #[trigger] rule_matches(r2, s, n2) implies n2 <= m && (n2 == m ==> r0 <= r2) by {
            if n2 > m {
                assert(rule_matches(r2, s, n2));
            }
            if n2 == m && r2 < r0 {
                assert(!rule_matches(r2, s, m));
            }
        }
        assert(is_best(s, r0, m));
    } else {
        lemma_best_at(s, m, r0 + 1);
    }
}

/// A text that is not empty has a best rule: any one character matches the
/// last rule, and the lengths and rules are bounded.
proof fn lemma_best_exists(s: Seq<char>, m: int)
    requires
        1 <= m <= s.len(),
        forall|r2: int, n2: int| m < n2 && #[trigger] rule_matches(r2, s, n2) ==> false,
    ensures
        exists|r: int, n: int| is_best(s, r, n),
    decreases m,
{
    if exists|r2: int| 0 <= r2 < crate::lexer::lexer::NUM_RULES && #[trigger] rule_matches(r2, s, m) {
        lemma_best_at(s, m, 0);
    } else {
        if m == 1 {
            assert(rule_matches(54, s, 1));
        } else {
            assert forall|r2: int, n2: int| m - 1 < n2 && #[trigger] rule_matches(r2, s, n2) implies false by {
                if n2 == m && 0 <= r2 < crate::lexer::lexer::NUM_RULES {
                    assert(rule_matches(r2, s, m));
                }
            }
            lemma_best_exists(s, m - 1);
        }
    }
}

/// The lexer counts lines as it reads: a step that hands out anything but a
/// string literal moves the line on by exactly the newlines it read.
pub proof fn law_lexer_counts_lines(st: LexState)
    ensures
        (lex_next(st).1 matches Some((_, t, _)) && t is StringConst) || lex_next(st).0.line == st.line
            + count_newlines(st.rest.take(st.rest.len() - lex_next(st).0.rest.len())),
    decreases st.rest.len(),
{
    reveal_with_fuel(lex_next, 2);
    law_lexer_moves_forward(st);
    if st.rest.len() == 0 {
        assert(st.rest.take(0) =~= Seq::<char>::empty());
    } else {
        let (r, n) = best_rule(st.rest);
        if n < 1 || n > st.rest.len() {
            assert(st.rest.take(0) =~= Seq::<char>::empty());
        } else {
            lemma_best_exists(st.rest, st.rest.len() as int);
            let (rb, nb) = choose|rb: int, nb: int| is_best(st.rest, rb, nb);
            crate::lexer::lexer::lemma_best_rule(st.rest, rb, nb);
            let text = st.rest.take(n);
            let rest1 = st.rest.skip(n);
            let st1 = LexState { offset: st.offset + n, rest: rest1, ..st };
            let next = if r == 44 {
                LexState { line: st1.line + count_newlines(text), ..st1 }
            } else if r == 42 {
                LexState { line: st1.line + 1, offset: 0, ..st1 }
            } else {
                st1
            };
            if r == 42 || r == 43 || r == 44 || r == 45 {
                law_lexer_counts_lines(next);
                law_lexer_moves_forward(next);
                let c = rest1.len() - lex_next(next).0.rest.len();
                assert(st.rest.take(n + c) =~= text + rest1.take(c));
                lemma_count_newlines_concat(text, rest1.take(c));
                if r == 42 {
                    assert(text =~= seq!['\n']);
                    assert(text.drop_last() =~= Seq::<char>::empty());
                    assert(count_newlines(Seq::<char>::empty()) == 0);
                    assert(count_newlines(text) == count_newlines(text.drop_last()) + 1);
                } else if r != 44 {
                    lemma_lexeme_no_newline(st.rest, r, n);
                }
            } else if r != 30 {
                lemma_lexeme_no_newline(st.rest, r, n);
            }
        }
    }
}

/// Every block dominates itself, and the first block is dominated by
/// itself alone.
pub proof fn law_dominance_reflexive(d: Rows, preds: Rows, n: int)
    requires
        dom_solution(d, preds, n),
    ensures
        forall|i: int| 0 <= i < n ==> #[trigger] d[i][i],
        n > 0 ==> forall|j: int| 0 <= j < n ==> (#[trigger] d[0][j]) == (j == 0),
{
    assert forall|i: int| 0 <= i < n implies #[trigger] d[i][i] by {
        if i > 0 {
            assert(dom_step(d, preds, i, i));
        } else {
            assert(d[0][0] == (0 == 0int));
        }
    }
}

/// When the semantic check succeeds, the program has a `Main` class with
/// a `main` method, no two of its classes share a name, and the class
/// table it leaves knows each class, its chain and its constructors.
pub proof fn law_check_success(cs: Seq<ClassM>, ct: ClassTableM, st: Scopes)
    requires
        semantic_check(cs, ct, st).0 is Ok,
    ensures
        has_main_class(cs),
        has_main_method(cs),
        forall|i: int, j: int| 0 <= i < j < cs.len() ==> cs[i].name != cs[j].name,
        forall|i: int|
            0 <= i < cs.len() ==> semantic_check(cs, ct, st).2.classes.contains_key(#[trigger] cs[i].name)
                && semantic_check(cs, ct, st).2.class_constructors.contains_key(cs[i].name),
{
    lemma_enter_classes(cs, 0, ct.classes);
    lemma_enter_distinct(cs, 0, ct.classes);
    lemma_collect_ctors(cs, 0, ct.class_constructors);
}

/// Entering classes without an error means their names differ from each
/// other and from those already in the table.
proof fn lemma_enter_distinct(cs: Seq<ClassM>, i: int, t: Map<Seq<char>, ClassM>)
    requires
        0 <= i <= cs.len(),
        enter_classes(cs, i, t).0 is None,
    ensures
        forall|a: int, b: int| i <= a < b < cs.len() ==> cs[a].name != cs[b].name,
        forall|a: int| i <= a < cs.len() ==> !t.contains_key(#[trigger] cs[a].name),
    decreases cs.len() - i,
{
    if i < cs.len() {
        let t2 = t.insert(cs[i].name, cs[i]);
        lemma_enter_distinct(cs, i + 1, t2);
        assert forall|b: int| i < b < cs.len() implies cs[i].name != cs[b].name by {
            assert(!t2.contains_key(cs[b].name));
        }
        assert forall|a: int| i <= a < cs.len() implies !t.contains_key(#[trigger] cs[a].name) by {
            if a > i {
                assert(!t2.contains_key(cs[a].name));
            }
        }
    }
}

/// Going into SSA form changes lines only: the function keeps as many
/// blocks, each with its name and its successors.
pub proof fn law_ssa_keeps_blocks(args: Seq<Seq<char>>, bs: Seq<BlockM>, df: Rows, tree: Rows, preds: Rows)
    requires
        ssa_blocks(args, bs, df, tree, preds) is Some,
    ensures
        same_shape(bs, ssa_blocks(args, bs, df, tree, preds)->Some_0),
{
    lemma_ssa_shape(args, bs, df, tree, preds);
}

/// Leaving SSA form changes lines only: the function keeps as many blocks,
/// each with its name and its successors.
pub proof fn law_out_of_ssa_keeps_blocks(bs: Seq<BlockM>)
    requires
        out_of_ssa(bs) is Some,
    ensures
        same_shape(bs, out_of_ssa(bs)->Some_0),
{
    lemma_out_of_ssa_shape(bs);
}

proof fn lemma_tc_depth(e: ExprM, st: Scopes, ct: ClassTableM)
    ensures
        tc_expr(e, st, ct).0 is Ok ==> tc_expr(e, st, ct).2.len() == st.len(),
    decreases e, 1int,
{
    match e {
        ExprM::New { class_name, param, position } => {
            if let Some(ps) = param {
                lemma_types_depth(ps, st, ct);
            }
        },
        ExprM::Let(ds) => {
            lemma_decls_depth(ds, st, ct);
        },
        ExprM::Assignment { id, compute, position } => {
            lemma_tc_depth(*compute, st, ct);
        },
        ExprM::Dispatch { target, expr, position, type_ } => {
            lemma_tc_depth(*target, st, ct);
            let (rt, t2, st1) = tc_expr(*target, st, ct);
            if let Ok(tt) = rt {
                lemma_member_depth(t2, expr, position, type_, tt, st1, ct);
            }
        },
        ExprM::Math { left, op, right, type_ } => {
            lemma_tc_depth(*left, st, ct);
            let st1 = tc_expr(*left, st, ct).2;
            lemma_tc_depth(*right, st1, ct);
        },
        ExprM::Cond { test, then_body, else_body, position } => {
            let st0 = st.push(Map::empty());
            lemma_tc_depth(*test, st0, ct);
            let st1 = tc_expr(*test, st0, ct).2;
            lemma_list_depth(then_body, st1, ct);
            let st2 = tc_list(then_body, st1, ct).2;
            lemma_list_depth(else_body, st2, ct);
        },
        ExprM::While { test, body, position } => {
            let st0 = st.push(Map::empty());
            lemma_tc_depth(*test, st0, ct);
            let st1 = tc_expr(*test, st0, ct).2;
            lemma_list_depth(body, st1, ct);
        },
        ExprM::Return { val, position } => {
            if let Some(v) = val {
                lemma_tc_depth(*v, st, ct);
            }
        },
        ExprM::Not { expr, position } => {
            lemma_tc_depth(*expr, st, ct);
        },
        ExprM::Isnull { expr } => {
            lemma_tc_depth(*expr, st, ct);
        },
        ExprM::For { init, test, iter, body, position } => {
            let st0 = st.push(Map::empty());
            lemma_list_depth(init, st0, ct);
            let st1 = tc_list(init, st0, ct).2;
            lemma_for_test_depth(test, st1, ct, position);
            let st2 = tc_for_test(test, st1, ct, position).2;
            lemma_list_depth(iter, st2, ct);
            let st3 = tc_list(iter, st2, ct).2;
            lemma_list_depth(body, st3, ct);
        },
        _ => {},
    }
}

proof fn lemma_list_depth(es: Seq<ExprM>, st: Scopes, ct: ClassTableM)
    ensures
        tc_list(es, st, ct).0 is None ==> tc_list(es, st, ct).2.len() == st.len(),
    decreases es, 0int,
{
    if es.len() > 0 {
        lemma_tc_depth(es[0], st, ct);
        let st2 = tc_expr(es[0], st, ct).2;
        lemma_list_depth(es.drop_first(), st2, ct);
    }
}

proof fn lemma_types_depth(es: Seq<ExprM>, st: Scopes, ct: ClassTableM)
    ensures
        tc_types(es, st, ct).0 is Ok ==> tc_types(es, st, ct).2.len() == st.len(),
    decreases es, 0int,
{
    if es.len() > 0 {
        lemma_tc_depth(es[0], st, ct);
        let st2 = tc_expr(es[0], st, ct).2;
        lemma_types_depth(es.drop_first(), st2, ct);
    }
}

proof fn lemma_args_depth(es: Seq<ExprM>, ps: Seq<ParamM>, st: Scopes, ct: ClassTableM, pos: Position)
    ensures
        tc_args(es, ps, st, ct, pos).0 is None ==> tc_args(es, ps, st, ct, pos).2.len() == st.len(),
    decreases es, 0int,
{
    if es.len() > 0 && ps.len() > 0 {
        lemma_tc_depth(es[0], st, ct);
        let st2 = tc_expr(es[0], st, ct).2;
        lemma_args_depth(es.drop_first(), ps.drop_first(), st2, ct, pos);
    }
}

proof fn lemma_decls_depth(ds: Seq<VarDeclM>, st: Scopes, ct: ClassTableM)
    ensures
        tc_decls(ds, st, ct).0 is None ==> tc_decls(ds, st, ct).2.len() == st.len(),
    decreases ds, 0int,
{
    if ds.len() > 0 {
        let d = ds[0];
        match d.init {
            Some(init) => {
                lemma_tc_depth(init, st, ct);
                let (r, i2, st2) = tc_expr(init, st, ct);
                if let Ok(t) = r {
                    match d.type_ {
                        Some(dt) => {
                            lemma_decls_depth(ds.drop_first(), scopes_add(st2, d.name, dt), ct);
                        },
                        None => {
                            lemma_decls_depth(ds.drop_first(), scopes_add(st2, d.name, t), ct);
                        },
                    }
                }
            },
            None => {
                let st2 = match d.type_ {
                    Some(dt) => scopes_add(st, d.name, dt),
                    None => st,
                };
                lemma_decls_depth(ds.drop_first(), st2, ct);
            },
        }
    }
}

proof fn lemma_for_test_depth(test: Seq<ExprM>, st: Scopes, ct: ClassTableM, pos: Position)
    ensures
        tc_for_test(test, st, ct, pos).0 is None ==> tc_for_test(test, st, ct, pos).2.len() == st.len(),
    decreases test, 0int,
{
    if test.len() > 0 {
        lemma_tc_depth(test[0], st, ct);
    }
}

proof fn lemma_member_depth(
    target: ExprM,
    expr: DispatchExprM,
    position: Position,
    type_: Seq<char>,
    tt: Seq<char>,
    st: Scopes,
    ct: ClassTableM,
)
    ensures
        tc_member(target, expr, position, type_, tt, st, ct).0 is Ok ==> tc_member(
            target,
            expr,
            position,
            type_,
            tt,
            st,
            ct,
        ).2.len() == st.len(),
    decreases expr, 0int,
{
    if ct.classes.contains_key(tt) && ct.inheritance.contains_key(ct.classes[tt].name) {
        if let DispatchExprM::Method { fun_name, actual } = expr {
            let chain = ct.inheritance[ct.classes[tt].name];
            if let Some((owner, m)) = crate::semantic::type_checker::method_in_chain(chain, 0, fun_name) {
                lemma_args_depth(actual, m.param, st, ct, position);
            }
        }
    }
}

/// Checking an expression that type-checks leaves as many scopes as it
/// found: every scope that an `if`, a `while` or a `for` opens is closed.
pub proof fn law_check_keeps_scope_depth(e: ExprM, st: Scopes, ct: ClassTableM)
    requires
        tc_expr(e, st, ct).0 is Ok,
    ensures
        tc_expr(e, st, ct).2.len() == st.len(),
{
    lemma_tc_depth(e, st, ct);
}

/// A variable defined without a type takes the type of its initial value:
/// the declaration is given that type, and the name is then found with it.
pub proof fn law_let_infers_type(d: VarDeclM, st: Scopes, ct: ClassTableM)
    requires
        st.len() > 0,
        d.type_ is None,
        d.init is Some,
        tc_expr(d.init->Some_0, st, ct).0 is Ok,
    ensures
        ({
            let (r, i2, st1) = tc_expr(d.init->Some_0, st, ct);
            let t = r->Ok_0;
            tc_expr(ExprM::Let(seq![d]), st, ct) == (
                Ok::<Seq<char>, crate::semantic::semantic::ErrM>(crate::OBJECT@),
                ExprM::Let(seq![VarDeclM { type_: Some(t), init: Some(i2), ..d }]),
                scopes_add(st1, d.name, t),
            ) && scopes_find(tc_expr(ExprM::Let(seq![d]), st, ct).2, d.name) == Some(t)
        }),
{
    let (r, i2, st1) = tc_expr(d.init->Some_0, st, ct);
    lemma_tc_depth(d.init->Some_0, st, ct);
    let ds = seq![d];
    assert(ds[0] == d);
    assert(ds.drop_first() =~= Seq::<VarDeclM>::empty());
    let t = r->Ok_0;
    assert(tc_decls(ds.drop_first(), scopes_add(st1, d.name, t), ct) == (
        None::<crate::semantic::semantic::ErrM>,
        Seq::<VarDeclM>::empty(),
        scopes_add(st1, d.name, t),
    ));
    let d3 = VarDeclM { type_: Some(t), init: Some(i2), ..d };
    assert(seq![d3] + Seq::<VarDeclM>::empty() =~= seq![d3]);
    assert(tc_decls(ds, st, ct) == (None::<crate::semantic::semantic::ErrM>, seq![d3], scopes_add(st1, d.name, t)));
    assert(st1.len() > 0);
    law_find_after_add(st1, d.name, t);
}

/// Putting in phis gives a block at most one new phi for each variable: a
/// block already given one is not given another.
pub proof fn law_one_phi_per_variable(args: Seq<Seq<char>>, bs: Seq<BlockM>, df: Rows, preds: Rows, v: Seq<char>, b: int)
    requires
        with_phis(args, bs, df, preds) is Some,
        0 <= b < bs.len(),
    ensures
        phi_count(with_phis(args, bs, df, preds)->Some_0[b].instrs, v) <= phi_count(bs[b].instrs, v) + 1,
{
    lemma_with_phis_count(args, bs, df, preds, v, b);
}

/// The phis for a variable `v` go into the iterated dominance frontier of
/// the blocks that write it: the blocks that gain a phi for `v` are exactly
/// the least set holding the dominance frontier of every writer, where a
/// block that gains a phi counts as a writer; each such block gains one.
pub proof fn law_phis_fill_iterated_frontier(bs: Seq<BlockM>, v: Seq<char>, defs: Seq<usize>, df: Rows, preds: Rows)
    requires
        phis_var(bs, v, defs, df, preds) is Some,
        bs.len() <= usize::MAX,
    ensures
        ({
            let after = phis_var(bs, v, defs, df, preds)->Some_0;
            let gained = Set::new(|b: int| 0 <= b < bs.len() && phi_count(after[b].instrs, v) > phi_count(bs[b].instrs, v));
            &&& after.len() == bs.len()
            &&& forall|b: int|
                #![trigger after[b]]
                0 <= b < bs.len() ==> phi_count(after[b].instrs, v) == phi_count(bs[b].instrs, v) + (if gained.contains(b) {
                    1nat
                } else {
                    0nat
                })
            &&& frontier_closed(defs, gained, df)
            &&& forall|s: Set<int>| #![trigger frontier_closed(defs, s, df)] frontier_closed(defs, s, df) ==> gained.subset_of(s)
        }),
{
    lemma_phis_var_frontier(bs, v, defs, df, preds);
}

/// Lowering an expression only adds: the blocks already there keep their
/// names, their successors and their lines, and what is new comes after.
pub proof fn law_lowering_only_adds(e: ExprM, bs: Seq<BlockM>, env: EnvM)
    requires
        lower(e, bs, env) is Some,
    ensures
        grows(bs, lower(e, bs, env)->Some_0.1),
{
    lemma_lower_grows(e, bs, env);
}

/// The code of an arithmetic expression computes its operator: after the
/// lines that load the right operand's value into `%r10` and the left one's
/// into `%r11`, the lines up to the push of `%r11` (the value given to the
/// new `Int`, eight lines before the end) leave there the operator applied
/// to left and right, wrapped to 64 bits, for any 64-bit operands. Division,
/// as `divq` does, takes `%rdx` as the high word of the dividend: it
/// computes the quotient where `%rdx` is clear and the divisor is not zero.
pub proof fn law_arith_code_computes(g: GenM, e: ExprM, c: ComputeOp, m: Regs)
    requires
        e matches ExprM::Math { op, .. } && op == MathOp::ComputeOp(c),
        gen_expr(g, e) is Some,
        0 <= m.rax < word(),
        0 <= m.rdx < word(),
        0 <= m.r10 < word(),
        0 <= m.r11 < word(),
        c is Divide ==> m.rdx == 0 && m.r10 != 0,
    ensures
        ({
            let ls = gen_expr(g, e)->Some_0.lines;
            &&& ls.len() >= 8
            &&& ls[ls.len() - 8] == tab("pushq %r11"@)
            &&& exists|k: int| #[trigger] computes_between(ls, k, ls.len() - 8, c, m)
        }),
{
    let n = crate::cgen::machine::lemma_op_lines_compute(c, m);
    if let ExprM::Math { left, op, right, .. } = e {
        let g1 = gen_expr(g, *left)->Some_0;
        let g2 = gen_expr(emit_tab(g1, "pushq %rax"@), *right)->Some_0;
        let ol = op_lines(op);
        let ls = gen_expr(g, e)->Some_0.lines;
        assert(ls == g2.lines + (operand_lines() + ol));
        assert(ol.len() == n + 8);
        let k: int = g2.lines.len() as int + 4;
        let t: int = ls.len() - 8;
        assert(ls.subrange(k - 4, k) =~= operand_lines());
        assert(ls.subrange(k, t) =~= ol.take(n));
        assert(ls[t] == ol[n]);
        assert(computes_between(ls, k, t, c, m));
    }
}

/// Lines `k` to `n` of `ls`, run on `m`, leave in `%r11` the operator `c`
/// applied to `%r11` and `%r10`, wrapped to 64 bits; the four lines before
/// `k` load the right operand's value into `%r10` and the left one's into
/// `%r11`.
pub open spec fn computes_between(ls: Seq<Seq<char>>, k: int, n: int, c: ComputeOp, m: Regs) -> bool {
    &&& 4 <= k <= n <= ls.len()
    &&& ls.subrange(k - 4, k) == seq![
        tab("movq 16(%rax), %r10"@),
        tab("movq (%rsp), %r11"@),
        tab("movq 16(%r11), %r11"@),
        tab("addq $8, %rsp"@),
    ]
    &&& run(m, ls.subrange(k, n)) is Some
    &&& run(m, ls.subrange(k, n))->Some_0.r11 == arith(c, m.r11, m.r10) % word()
}


/// Checking `new C` or `new C(args)` gives, whenever it succeeds, the
/// class `C` itself: the object built has the class it names.
pub proof fn law_new_has_its_class(e: ExprM, st: Scopes, ct: ClassTableM)
    ensures
        e matches ExprM::New { class_name, .. } ==> (tc_expr(e, st, ct).0 matches Ok(t) ==> t == class_name),
{
}

/// A keyword, operator or punctuation lexeme gives the token written as its
/// text: where the longest match at the front of `s` is a fixed rule, the
/// first token of `s` spells the lexeme it is made of (`>` gives `More`,
/// `<` gives `Less`, and so on).
pub proof fn law_fixed_lexeme_token(s: Seq<char>, r: int, n: int)
    requires
        is_best(s, r, n),
        is_fixed(r),
    ensures
        spec_next_token(s) matches Some((t, m)) && m == n && token_spells(t, s.take(n)),
{
    crate::lexer::lexer::lemma_best_rule(s, r, n);
    lemma_fixed_token_spells(r);
}

/// The token of each fixed rule is written as the rule's text.
proof fn lemma_fixed_token_spells(r: int)
    requires
        is_fixed(r),
    ensures
        token_spells(token_of(r, fixed_text(r)), fixed_text(r)),
{
}

/// Where the semantic check succeeds, a method that a class redefines from
/// a class of its inheritance chain (the class's first method of that
/// name) keeps that method's parameters, names and types alike, its return
/// type and its visibility.
pub proof fn law_override_keeps_signature(
    cs: Seq<ClassM>,
    ct: ClassTableM,
    st: Scopes,
    i: int,
    p: ClassM,
    j: int,
    a: int,
)
    requires
        semantic_check(cs, ct, st).0 is Ok,
        0 <= i < cs.len(),
        semantic_check(cs, ct, st).2.inheritance.contains_key(cs[i].name),
        semantic_check(cs, ct, st).2.inheritance[cs[i].name].contains(p),
        0 <= j < p.features.len(),
        p.features[j] is Method,
        0 <= a < cs[i].features.len(),
        cs[i].features[a] is Method,
        cs[i].features[a]->Method_0.name == p.features[j]->Method_0.name,
        forall|b: int|
            0 <= b < a ==> !(#[trigger] cs[i].features[b] is Method && cs[i].features[b]->Method_0.name
                == p.features[j]->Method_0.name),
    ensures
        cs[i].features[a]->Method_0.param == p.features[j]->Method_0.param,
        cs[i].features[a]->Method_0.return_type == p.features[j]->Method_0.return_type,
        cs[i].features[a]->Method_0.ownership == p.features[j]->Method_0.ownership,
{
    let (e1, classes) = enter_classes(cs, 0, ct.classes);
    let (e2, inh) = inherit_classes(cs, 0, classes, ct.inheritance);
    assert(semantic_check(cs, ct, st).2.inheritance == inh);
    assert(override_classes(cs, 0, inh) is None);
    let c = cs[i];
    let v = inh[c.name];
    let k = choose|k: int| 0 <= k < v.len() && v[k] == p;
    lemma_override_classes_none(cs, 0, inh, i);
    lemma_override_chain_none(c, v, v.len() as int, k);
    lemma_override_features_none(c, p, 0, j);
    lemma_first_same(c.features, p.features[j], 0, a);
}

proof fn lemma_override_classes_none(cs: Seq<ClassM>, i0: int, inh: Map<Seq<char>, Seq<ClassM>>, i: int)
    requires
        override_classes(cs, i0, inh) is None,
        0 <= i0 <= i < cs.len(),
        inh.contains_key(cs[i].name),
    ensures
        override_chain(cs[i], inh[cs[i].name], inh[cs[i].name].len() as int) is None,
    decreases i - i0,
{
    if i0 < i {
        lemma_override_classes_none(cs, i0 + 1, inh, i);
    }
}

proof fn lemma_override_chain_none(c: ClassM, v: Seq<ClassM>, k: int, k2: int)
    requires
        override_chain(c, v, k) is None,
        0 <= k2 < k <= v.len(),
    ensures
        override_features(c, v[k2], 0) is None,
    decreases k,
{
    if k2 < k - 1 {
        lemma_override_chain_none(c, v, k - 1, k2);
    }
}

proof fn lemma_override_features_none(c: ClassM, p: ClassM, j: int, j2: int)
    requires
        override_features(c, p, j) is None,
        0 <= j <= j2 < p.features.len(),
    ensures
        override_feature(c, p, p.features[j2]) is None,
    decreases j2 - j,
{
    if j < j2 {
        lemma_override_features_none(c, p, j + 1, j2);
    }
}

proof fn lemma_first_same(fs: Seq<FeatureM>, f: FeatureM, k: int, a: int)
    requires
        0 <= k <= a < fs.len(),
        same_feature(fs[a], f),
        forall|b: int| k <= b < a ==> !same_feature(#[trigger] fs[b], f),
    ensures
        first_same(fs, f, k) == Some(a),
    decreases a - k,
{
    if k < a {
        lemma_first_same(fs, f, k + 1, a);
    }
}

/// Lowering an assignment `id = compute` lowers `compute` and then writes,
/// as the last line of the block at hand, an assignment to `id` from the
/// temporary that holds the computed value; no other block changes, and the
/// assignment itself gives no value.
pub proof fn law_assignment_writes_its_name(e: ExprM, bs: Seq<BlockM>, env: EnvM)
    requires
        lower(e, bs, env) is Some,
    ensures
        e matches ExprM::Assignment { id, compute, .. } ==> ({
            let (src, bs1, env1) = lower(*compute, bs, env)->Some_0;
            let (v, bs2, env2) = lower(e, bs, env)->Some_0;
            &&& src is Some
            &&& v is None
            &&& env2 == env1
            &&& 0 <= env1.curr < bs2.len()
            &&& bs2.len() == bs1.len()
            &&& bs2[env1.curr as int].instrs.len() > 0
            &&& bs2[env1.curr as int].instrs.last() == CodeM::Instruction(
                InstrM::Assign { src: src->Some_0, dest: id, type_: None },
            )
            &&& bs2[env1.curr as int].instrs.drop_last() == bs1[env1.curr as int].instrs
            &&& forall|p: int| 0 <= p < bs1.len() && p != env1.curr ==> #[trigger] bs2[p] == bs1[p]
        }),
{
    if let ExprM::Assignment { id, compute, .. } = e {
        let (src, bs1, env1) = lower(*compute, bs, env)->Some_0;
        let bs2 = lower(e, bs, env)->Some_0.1;
        assert(bs2[env1.curr as int].instrs.drop_last() =~= bs1[env1.curr as int].instrs);
    }
}

} // verus!
