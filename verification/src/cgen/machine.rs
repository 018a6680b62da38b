use vstd::prelude::*;

use crate::cgen::cgen::tab;
use crate::cgen::ast::op_lines;
use crate::parser::ast::expr::{ComputeOp, MathOp};

verus! {

/// The registers that integer arithmetic in the generated code goes
/// through, each holding a 64-bit word.
pub ghost struct Regs {
    pub rax: int,
    pub rdx: int,
    pub r10: int,
    pub r11: int,
}

/// The number of values a 64-bit word can hold.
pub open spec fn word() -> int {
    0x1_0000_0000_0000_0000
}

/// What one line of assembly does to the registers, for the instructions
/// that arithmetic uses; `None` for any other line, and where `divq` would
/// fault (a zero divisor, or a quotient that does not fit in a word).
pub open spec fn step(m: Regs, line: Seq<char>) -> Option<Regs> {
    if line == tab("addq %r10, %r11"@) {
        Some(Regs { r11: (m.r11 + m.r10) % word(), ..m })
    } else if line == tab("subq %r10, %r11"@) {
        Some(Regs { r11: (m.r11 - m.r10) % word(), ..m })
    } else if line == tab("movq %r11, %rax"@) {
        Some(Regs { rax: m.r11, ..m })
    } else if line == tab("movq %rax, %r11"@) {
        Some(Regs { r11: m.rax, ..m })
    } else if line == tab("mulq %r10"@) {
        Some(Regs { rax: (m.rax * m.r10) % word(), rdx: (m.rax * m.r10) / word(), ..m })
    } else if line == tab("divq %r10"@) {
        let n = m.rdx * word() + m.rax;
        if m.r10 == 0 || n / m.r10 >= word() {
            None
        } else {
            Some(Regs { rax: n / m.r10, rdx: n % m.r10, ..m })
        }
    } else {
        None
    }
}

/// The registers after running `lines` in order.
pub open spec fn run(m: Regs, lines: Seq<Seq<char>>) -> Option<Regs>
    decreases lines.len(),
{
    if lines.len() == 0 {
        Some(m)
    } else {
        match step(m, lines[0]) {
            None => None,
            Some(m1) => run(m1, lines.drop_first()),
        }
    }
}

/// The value of an arithmetic operator on integers.
pub open spec fn arith(c: ComputeOp, a: int, b: int) -> int {
    match c {
        ComputeOp::Add => a + b,
        ComputeOp::Minus => a - b,
        ComputeOp::Mul => a * b,
        ComputeOp::Divide => a / b,
    }
}

/// Lines that differ stay different behind a tab.
proof fn lemma_tab_ne(a: Seq<char>, b: Seq<char>)
    requires
        a != b,
    ensures
        tab(a) != tab(b),
{
    if tab(a) == tab(b) {
        assert(tab(a).drop_first() =~= a);
        assert(tab(b).drop_first() =~= b);
    }
}

/// What each arithmetic instruction does.
pub proof fn lemma_steps(m: Regs)
    ensures
        step(m, tab("addq %r10, %r11"@)) == Some(Regs { r11: (m.r11 + m.r10) % word(), ..m }),
        step(m, tab("subq %r10, %r11"@)) == Some(Regs { r11: (m.r11 - m.r10) % word(), ..m }),
        step(m, tab("movq %r11, %rax"@)) == Some(Regs { rax: m.r11, ..m }),
        step(m, tab("movq %rax, %r11"@)) == Some(Regs { r11: m.rax, ..m }),
        step(m, tab("mulq %r10"@)) == Some(Regs { rax: (m.rax * m.r10) % word(), rdx: (m.rax * m.r10) / word(), ..m }),
        step(m, tab("divq %r10"@)) == (if m.r10 == 0 || (m.rdx * word() + m.rax) / m.r10 >= word() {
            None
        } else {
            Some(Regs { rax: (m.rdx * word() + m.rax) / m.r10, rdx: (m.rdx * word() + m.rax) % m.r10, ..m })
        }),
{
    let add = "addq %r10, %r11"@;
    let sub = "subq %r10, %r11"@;
    let mra = "movq %r11, %rax"@;
    let mar = "movq %rax, %r11"@;
    let mul = "mulq %r10"@;
    let div = "divq %r10"@;
    reveal_strlit("addq %r10, %r11");
    reveal_strlit("subq %r10, %r11");
    reveal_strlit("movq %r11, %rax");
    reveal_strlit("movq %rax, %r11");
    reveal_strlit("mulq %r10");
    reveal_strlit("divq %r10");
    assert(add[0] != sub[0]);
    lemma_tab_ne(sub, add);
    assert(mra[0] != add[0] && mra[0] != sub[0]);
    lemma_tab_ne(mra, add);
    lemma_tab_ne(mra, sub);
    assert(mar[0] != add[0] && mar[0] != sub[0] && mar[7] != mra[7]);
    lemma_tab_ne(mar, add);
    lemma_tab_ne(mar, sub);
    lemma_tab_ne(mar, mra);
    assert(mul.len() != add.len() && mul.len() != sub.len() && mul.len() != mra.len() && mul.len() != mar.len());
    lemma_tab_ne(mul, add);
    lemma_tab_ne(mul, sub);
    lemma_tab_ne(mul, mra);
    lemma_tab_ne(mul, mar);
    assert(div.len() != add.len() && div.len() != sub.len() && div.len() != mra.len() && div.len() != mar.len()
        && div[0] != mul[0]);
    lemma_tab_ne(div, add);
    lemma_tab_ne(div, sub);
    lemma_tab_ne(div, mra);
    lemma_tab_ne(div, mar);
    lemma_tab_ne(div, mul);
}

/// The lines of an arithmetic operator up to the push of `%r11`, run on
/// 64-bit operands (the left in `%r11`, the right in `%r10`), leave the
/// operator's value, wrapped to 64 bits, in `%r11`; division where `%rdx`
/// is clear and the divisor is not zero.
pub proof fn lemma_op_lines_compute(c: ComputeOp, m: Regs) -> (n: int)
    requires
        0 <= m.rax < word(),
        0 <= m.rdx < word(),
        0 <= m.r10 < word(),
        0 <= m.r11 < word(),
        c is Divide ==> m.rdx == 0 && m.r10 != 0,
    ensures
        0 <= n < op_lines(MathOp::ComputeOp(c)).len(),
        n + 8 == op_lines(MathOp::ComputeOp(c)).len(),
        op_lines(MathOp::ComputeOp(c))[n] == tab("pushq %r11"@),
        run(m, op_lines(MathOp::ComputeOp(c)).take(n)) is Some,
        run(m, op_lines(MathOp::ComputeOp(c)).take(n))->Some_0.r11 == arith(c, m.r11, m.r10) % word(),
{
    let ls = op_lines(MathOp::ComputeOp(c));
    lemma_steps(m);
    match c {
        ComputeOp::Add => {
            let body = ls.take(1);
            assert(body =~= seq![tab("addq %r10, %r11"@)]);
            assert(body.drop_first() =~= Seq::<Seq<char>>::empty());
            let m1 = Regs { r11: (m.r11 + m.r10) % word(), ..m };
            assert(run(m1, body.drop_first()) == Some(m1));
            assert(run(m, body) == run(m1, body.drop_first()));
            assert(ls[1] == tab("pushq %r11"@));
            1
        },
        ComputeOp::Minus => {
            let body = ls.take(1);
            assert(body =~= seq![tab("subq %r10, %r11"@)]);
            assert(body.drop_first() =~= Seq::<Seq<char>>::empty());
            let m1 = Regs { r11: (m.r11 - m.r10) % word(), ..m };
            assert(run(m1, body.drop_first()) == Some(m1));
            assert(run(m, body) == run(m1, body.drop_first()));
            assert(ls[1] == tab("pushq %r11"@));
            1
        },
        ComputeOp::Mul => {
            let body = ls.take(3);
            let m1 = Regs { rax: m.r11, ..m };
            lemma_steps(m1);
            let m2 = Regs { rax: (m1.rax * m1.r10) % word(), rdx: (m1.rax * m1.r10) / word(), ..m1 };
            lemma_steps(m2);
            assert(body.drop_first().drop_first().drop_first() =~= Seq::<Seq<char>>::empty());
            assert(body.drop_first().drop_first() =~= seq![tab("movq %rax, %r11"@)]);
            assert(body.drop_first() =~= seq![tab("mulq %r10"@), tab("movq %rax, %r11"@)]);
            assert(body[0] == tab("movq %r11, %rax"@));
            let m3 = Regs { r11: m2.rax, ..m2 };
            assert(run(m3, body.drop_first().drop_first().drop_first()) == Some(m3));
            assert(body.drop_first().drop_first()[0] == tab("movq %rax, %r11"@));
            assert(run(m2, body.drop_first().drop_first()) == Some(m3));
            assert(run(m1, body.drop_first()) == run(m2, body.drop_first().drop_first()));
            assert(run(m, body) == run(m1, body.drop_first()));
            assert(ls[3] == tab("pushq %r11"@));
            3
        },
        ComputeOp::Divide => {
            let body = ls.take(3);
            let a = m.r11;
            let b = m.r10;
            assert(0 <= a / b <= a) by (nonlinear_arith)
                requires
                    0 <= a,
                    1 <= b,
            ;
            let m1 = Regs { rax: m.r11, ..m };
            lemma_steps(m1);
            assert(m1.rdx * word() + m1.rax == a);
            let m2 = Regs { rax: a / b, rdx: a % b, ..m1 };
            lemma_steps(m2);
            vstd::arithmetic::div_mod::lemma_small_mod((a / b) as nat, word() as nat);
            assert(body.drop_first().drop_first().drop_first() =~= Seq::<Seq<char>>::empty());
            assert(body.drop_first().drop_first() =~= seq![tab("movq %rax, %r11"@)]);
            assert(body.drop_first() =~= seq![tab("divq %r10"@), tab("movq %rax, %r11"@)]);
            assert(body[0] == tab("movq %r11, %rax"@));
            let m3 = Regs { r11: m2.rax, ..m2 };
            assert(run(m3, body.drop_first().drop_first().drop_first()) == Some(m3));
            assert(body.drop_first().drop_first()[0] == tab("movq %rax, %r11"@));
            assert(run(m2, body.drop_first().drop_first()) == Some(m3));
            assert(run(m1, body.drop_first()) == run(m2, body.drop_first().drop_first()));
            assert(run(m, body) == run(m1, body.drop_first()));
            assert(ls[3] == tab("pushq %r11"@));
            3
        },
    }
}

} // verus!
