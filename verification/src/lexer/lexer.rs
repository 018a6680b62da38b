use vstd::prelude::*;

use super::token::{Token, TokenM};
use super::{empty_position, LineNum, Off, Position};
use crate::ctx::CompileContext;
use crate::utils::table::{table_add, table_insert, table_view};
use crate::utils::util::{chars_of, push_char, string_of_chars};

verus! {

/// The number of lexical rules; rule `r` is tried before rule `r + 1`.
pub const NUM_RULES: usize = 55;

/// The rules whose text is fixed: keywords, operators and punctuation.
pub open spec fn is_fixed(r: int) -> bool {
    (0 <= r <= 26) || (31 <= r <= 42) || (46 <= r <= 53)
}

/// The text of a fixed rule.
pub open spec fn fixed_text(r: int) -> Seq<char> {
    if r == 0 {
        seq!['i', 'n', 't']
    } else if r == 1 {
        seq!['v', 'o', 'i', 'd']
    } else if r == 2 {
        seq!['s', 't', 'r']
    } else if r == 3 {
        seq!['c', 'l', 'a', 's', 's']
    } else if r == 4 {
        seq!['p', 'u', 'b', 'l', 'i', 'c']
    } else if r == 5 {
        seq!['p', 'r', 'i', 'v', 'a', 't', 'e']
    } else if r == 6 {
        seq!['s', 'e', 'l', 'f']
    } else if r == 7 {
        seq!['f', 'u', 'n', 'c', 't', 'i', 'o', 'n']
    } else if r == 8 {
        seq!['f', 'u', 'n']
    } else if r == 9 {
        seq!['f', 'n']
    } else if r == 10 {
        seq!['r', 'e', 't', 'u', 'r', 'n']
    } else if r == 11 {
        seq!['i', 'm', 'p', 'o', 'r', 't']
    } else if r == 12 {
        seq!['f', 'r', 'o', 'm']
    } else if r == 13 {
        seq!['i', 'f']
    } else if r == 14 {
        seq!['t', 'h', 'e', 'n']
    } else if r == 15 {
        seq!['e', 'l', 's', 'e']
    } else if r == 16 {
        seq!['i', 'n', 'h', 'e', 'r', 'i', 't', 's']
    } else if r == 17 {
        seq!['l', 'e', 't']
    } else if r == 18 {
        seq!['w', 'h', 'i', 'l', 'e']
    } else if r == 19 {
        seq!['f', 'o', 'r']
    } else if r == 20 {
        seq!['n', 'e', 'w']
    } else if r == 21 {
        seq!['n', 'u', 'l', 'l']
    } else if r == 22 {
        seq!['!']
    } else if r == 23 {
        seq!['t', 'r', 'u', 'e']
    } else if r == 24 {
        seq!['f', 'a', 'l', 's', 'e']
    } else if r == 25 {
        seq!['_', '_', 'a', 's', 'm', '_', '_']
    } else if r == 26 {
        seq!['c', 'o', 'n', 's', 't', 'r', 'u', 'c', 't', 'o', 'r']
    } else if r == 31 {
        seq!['=']
    } else if r == 32 {
        seq!['-', '>']
    } else if r == 33 {
        seq!['+']
    } else if r == 34 {
        seq!['-']
    } else if r == 35 {
        seq!['*']
    } else if r == 36 {
        seq!['/']
    } else if r == 37 {
        seq!['=', '=']
    } else if r == 38 {
        seq!['>']
    } else if r == 39 {
        seq!['=', '>']
    } else if r == 40 {
        seq!['<']
    } else if r == 41 {
        seq!['<', '=']
    } else if r == 42 {
        seq!['\n']
    } else if r == 46 {
        seq!['{']
    } else if r == 47 {
        seq!['}']
    } else if r == 48 {
        seq!['(']
    } else if r == 49 {
        seq![')']
    } else if r == 50 {
        seq![';']
    } else if r == 51 {
        seq!['.']
    } else if r == 52 {
        seq![',']
    } else if r == 53 {
        seq![':']
    } else {
        Seq::empty()
    }
}

pub open spec fn is_upper(c: char) -> bool {
    'A' <= c && c <= 'Z'
}

pub open spec fn is_lower(c: char) -> bool {
    'a' <= c && c <= 'z'
}

pub open spec fn is_digit(c: char) -> bool {
    '0' <= c && c <= '9'
}

pub open spec fn is_word(c: char) -> bool {
    is_upper(c) || is_lower(c) || is_digit(c) || c == '_'
}

/// `s[k..n]` is made of digits, after `k` dashes.
pub open spec fn dashes_then_digits(s: Seq<char>, k: int, n: int) -> bool {
    &&& 0 <= k < n
    &&& forall|i: int| 0 <= i < k ==> s[i] == '-'
    &&& forall|i: int| k <= i < n ==> is_digit(s[i])
}

/// Whether the first `n` characters of `s` form a lexeme of rule `r`:
/// keywords and symbols are their text; a type name is a capital letter
/// and then letters, digits and underscores; an identifier is the same
/// after a small letter; an integer is dashes then digits; a string is
/// quoted, with no quote inside; white space is spaces; a block comment is
/// `/*`, text without `*/`, then `*/`; a line comment is `//` and what
/// follows on the line; the last rule takes any one character.
pub open spec fn rule_matches(r: int, s: Seq<char>, n: int) -> bool {
    &&& 1 <= n <= s.len()
    &&& if is_fixed(r) {
        s.take(n) == fixed_text(r)
    } else if r == 27 {
        is_upper(s[0]) && forall|i: int| 1 <= i < n ==> is_word(s[i])
    } else if r == 28 {
        is_lower(s[0]) && forall|i: int| 1 <= i < n ==> is_word(s[i])
    } else if r == 29 {
        exists|k: int| dashes_then_digits(s, k, n)
    } else if r == 30 {
        n >= 2 && s[0] == '"' && s[n - 1] == '"' && forall|i: int| 1 <= i < n - 1 ==> s[i] != '"'
    } else if r == 43 {
        forall|i: int| 0 <= i < n ==> s[i] == ' '
    } else if r == 44 {
        &&& n >= 4
        &&& s[0] == '/'
        &&& s[1] == '*'
        &&& s[n - 2] == '*'
        &&& s[n - 1] == '/'
        &&& forall|i: int| 2 <= i && i + 1 < n - 2 ==> !(s[i] == '*' && #[trigger] s[i + 1] == '/')
    } else if r == 45 {
        n >= 2 && s[0] == '/' && s[1] == '/' && forall|i: int| 2 <= i < n ==> s[i] != '\n'
    } else if r == 54 {
        n == 1
    } else {
        false
    }
}

/// The lexeme that the lexer takes: the longest one of any rule, and of
/// the rules that reach that length, the first.
pub open spec fn is_best(s: Seq<char>, r: int, n: int) -> bool {
    &&& 0 <= r < NUM_RULES
    &&& rule_matches(r, s, n)
    &&& forall|r2: int, n2: int|
        0 <= r2 < NUM_RULES && #[trigger] rule_matches(r2, s, n2) ==> n2 <= n && (n2 == n ==> r
            <= r2)
}

pub open spec fn best_rule(s: Seq<char>) -> (int, int) {
    choose|r: int, n: int| is_best(s, r, n)
}

/// What a string literal stands for: its text with `\n` and `\t` read as
/// newline and tab and any other character after a backslash taken as
/// itself.  `escaped` tells whether a backslash came just before.
pub open spec fn unescape(s: Seq<char>, escaped: bool) -> Seq<char>
    decreases s.len(),
{
    if s.len() == 0 {
        Seq::empty()
    } else if s[0] == '\\' && !escaped {
        unescape(s.drop_first(), true)
    } else if escaped {
        seq![
            if s[0] == 'n' {
                '\n'
            } else if s[0] == 't' {
                '\t'
            } else {
                s[0]
            },
        ] + unescape(s.drop_first(), false)
    } else {
        seq![s[0]] + unescape(s.drop_first(), false)
    }
}

pub open spec fn no_pos() -> Position {
    Position { row: 0, column: 0 }
}

/// The token that rule `r` makes of its lexeme `text`.
pub open spec fn token_of(r: int, text: Seq<char>) -> TokenM {
    if r == 0 {
        TokenM::IntRawType(text)
    } else if r == 1 {
        TokenM::VoidRawType(text)
    } else if r == 2 {
        TokenM::StrRawType(text)
    } else if r == 3 {
        TokenM::Class_(no_pos(), Seq::empty())
    } else if r == 4 {
        TokenM::Public
    } else if r == 5 {
        TokenM::Private
    } else if r == 6 {
        TokenM::Self_(text)
    } else if 7 <= r <= 9 {
        TokenM::Function(no_pos())
    } else if r == 10 {
        TokenM::Return(no_pos())
    } else if r == 11 {
        TokenM::Import
    } else if r == 12 {
        TokenM::From
    } else if r == 13 {
        TokenM::If(no_pos())
    } else if r == 14 {
        TokenM::Then
    } else if r == 15 {
        TokenM::Else(no_pos())
    } else if r == 16 {
        TokenM::Inherits
    } else if r == 17 {
        TokenM::Let(no_pos())
    } else if r == 18 {
        TokenM::While(no_pos())
    } else if r == 19 {
        TokenM::For(no_pos())
    } else if r == 20 {
        TokenM::New(no_pos())
    } else if r == 21 {
        TokenM::Isnull
    } else if r == 22 {
        TokenM::Not(no_pos())
    } else if r == 23 {
        TokenM::BoolConst(true)
    } else if r == 24 {
        TokenM::BoolConst(false)
    } else if r == 25 {
        TokenM::ASM
    } else if r == 26 {
        TokenM::Constructor(no_pos())
    } else if r == 27 {
        TokenM::TypeId(text)
    } else if r == 28 {
        TokenM::Identifier(text, no_pos())
    } else if r == 29 {
        TokenM::IntConst(text)
    } else if r == 30 {
        TokenM::StringConst(unescape(text.subrange(1, text.len() - 1), false))
    } else if r == 31 {
        TokenM::Assign(no_pos())
    } else if r == 32 {
        TokenM::Arrow
    } else if r == 33 {
        TokenM::Plus
    } else if r == 34 {
        TokenM::Minus
    } else if r == 35 {
        TokenM::Mul
    } else if r == 36 {
        TokenM::Divide
    } else if r == 37 {
        TokenM::Equal
    } else if r == 38 {
        TokenM::More
    } else if r == 39 {
        TokenM::MoreE
    } else if r == 40 {
        TokenM::Less
    } else if r == 41 {
        TokenM::LessE
    } else if r == 42 {
        TokenM::Newline
    } else if r == 43 {
        TokenM::Whitespace(text)
    } else if r == 44 {
        TokenM::BlockComment(text)
    } else if r == 45 {
        TokenM::Comment
    } else if r == 46 {
        TokenM::Lbrace
    } else if r == 47 {
        TokenM::Rbrace
    } else if r == 48 {
        TokenM::Lparen
    } else if r == 49 {
        TokenM::Rparen
    } else if r == 50 {
        TokenM::Semicolon
    } else if r == 51 {
        TokenM::Period
    } else if r == 52 {
        TokenM::Comma
    } else if r == 53 {
        TokenM::Colon
    } else {
        TokenM::Error("Unexpected character: "@ + text)
    }
}

/// The first token of `s` and the length of its lexeme; nothing when `s`
/// is empty.
pub open spec fn spec_next_token(s: Seq<char>) -> Option<(TokenM, int)> {
    if s.len() == 0 {
        None
    } else {
        let (r, n) = best_rule(s);
        Some((token_of(r, s.take(n)), n))
    }
}

/// At most one rule and length is best for a text.
pub proof fn lemma_best_unique(s: Seq<char>, r1: int, n1: int, r2: int, n2: int)
    requires
        is_best(s, r1, n1),
        is_best(s, r2, n2),
    ensures
        r1 == r2,
        n1 == n2,
{
    assert(rule_matches(r2, s, n2));
    assert(rule_matches(r1, s, n1));
}

/// Every non-empty text has a best rule, and `best_rule` names it.
pub proof fn lemma_best_rule(s: Seq<char>, r: int, n: int)
    requires
        is_best(s, r, n),
    ensures
        best_rule(s) == (r, n),
{
    let (r2, n2) = best_rule(s);
    lemma_best_unique(s, r, n, r2, n2);
}

fn fixed_chars(r: usize) -> (v: Vec<char>)
    requires
        is_fixed(r as int),
    ensures
        v@ == fixed_text(r as int),
{
    match r {
        0 => vec!['i', 'n', 't'],
        1 => vec!['v', 'o', 'i', 'd'],
        2 => vec!['s', 't', 'r'],
        3 => vec!['c', 'l', 'a', 's', 's'],
        4 => vec!['p', 'u', 'b', 'l', 'i', 'c'],
        5 => vec!['p', 'r', 'i', 'v', 'a', 't', 'e'],
        6 => vec!['s', 'e', 'l', 'f'],
        7 => vec!['f', 'u', 'n', 'c', 't', 'i', 'o', 'n'],
        8 => vec!['f', 'u', 'n'],
        9 => vec!['f', 'n'],
        10 => vec!['r', 'e', 't', 'u', 'r', 'n'],
        11 => vec!['i', 'm', 'p', 'o', 'r', 't'],
        12 => vec!['f', 'r', 'o', 'm'],
        13 => vec!['i', 'f'],
        14 => vec!['t', 'h', 'e', 'n'],
        15 => vec!['e', 'l', 's', 'e'],
        16 => vec!['i', 'n', 'h', 'e', 'r', 'i', 't', 's'],
        17 => vec!['l', 'e', 't'],
        18 => vec!['w', 'h', 'i', 'l', 'e'],
        19 => vec!['f', 'o', 'r'],
        20 => vec!['n', 'e', 'w'],
        21 => vec!['n', 'u', 'l', 'l'],
        22 => vec!['!'],
        23 => vec!['t', 'r', 'u', 'e'],
        24 => vec!['f', 'a', 'l', 's', 'e'],
        25 => vec!['_', '_', 'a', 's', 'm', '_', '_'],
        26 => vec!['c', 'o', 'n', 's', 't', 'r', 'u', 'c', 't', 'o', 'r'],
        31 => vec!['='],
        32 => vec!['-', '>'],
        33 => vec!['+'],
        34 => vec!['-'],
        35 => vec!['*'],
        36 => vec!['/'],
        37 => vec!['=', '='],
        38 => vec!['>'],
        39 => vec!['=', '>'],
        40 => vec!['<'],
        41 => vec!['<', '='],
        42 => vec!['\n'],
        46 => vec!['{'],
        47 => vec!['}'],
        48 => vec!['('],
        49 => vec![')'],
        50 => vec![';'],
        51 => vec!['.'],
        52 => vec![','],
        53 => vec![':'],
        _ => vstd::pervasive::unreached(),
    }
}

/// Character classes that a lexeme runs through.
pub open spec fn in_class(cls: u8, c: char) -> bool {
    if cls == 0 {
        is_word(c)
    } else if cls == 1 {
        c == '-'
    } else if cls == 2 {
        is_digit(c)
    } else if cls == 3 {
        c == ' '
    } else if cls == 4 {
        c != '\n'
    } else if cls == 5 {
        c != '"'
    } else {
        c == ' ' || c == '\t' || c == '\r'
    }
}

fn char_in_class(cls: u8, c: char) -> (b: bool)
    ensures
        b == in_class(cls, c),
{
    if cls == 0 {
        ('A' <= c && c <= 'Z') || ('a' <= c && c <= 'z') || ('0' <= c && c <= '9') || c == '_'
    } else if cls == 1 {
        c == '-'
    } else if cls == 2 {
        '0' <= c && c <= '9'
    } else if cls == 3 {
        c == ' '
    } else if cls == 4 {
        c != '\n'
    } else if cls == 5 {
        c != '"'
    } else {
        c == ' ' || c == '\t' || c == '\r'
    }
}

/// The end of the run of characters of class `cls` that starts at `i`.
pub(crate) fn run_end(v: &Vec<char>, i: usize, cls: u8) -> (j: usize)
    requires
        i <= v.len(),
    ensures
        i <= j <= v.len(),
        forall|k: int| i <= k < j ==> in_class(cls, #[trigger] v@[k]),
        j < v.len() ==> !in_class(cls, v@[j as int]),
{
    let mut j = i;
    while j < v.len() && char_in_class(cls, v[j])
        invariant
            i <= j <= v.len(),
            forall|k: int| i <= k < j ==> in_class(cls, #[trigger] v@[k]),
        decreases v.len() - j,
    {
        j = j + 1;
    }
    j
}

/// The length of the longest lexeme of rule `r` at `p`, or 0 when the rule
/// matches nothing there.
fn rule_longest(r: usize, v: &Vec<char>, p: usize) -> (m: usize)
    requires
        r < NUM_RULES,
        p <= v.len(),
    ensures
        m <= v.len() - p,
        m > 0 ==> rule_matches(r as int, v@.skip(p as int), m as int),
        forall|n: int| n > m ==> !#[trigger] rule_matches(r as int, v@.skip(p as int), n),
{
    let ghost s = v@.skip(p as int);
    let len = v.len();
    if (r <= 26) || (31 <= r && r <= 42) || (46 <= r && r <= 53) {
        let w = fixed_chars(r);
        if w.len() <= len - p {
            let mut k: usize = 0;
            while k < w.len()
                invariant
                    w@ == fixed_text(r as int),
                    w.len() <= len - p,
                    len == v.len(),
                    s == v@.skip(p as int),
                    k <= w.len(),
                    forall|i: int| 0 <= i < k ==> s[i] == w@[i],
                decreases w.len() - k,
            {
                if v[p + k] != w[k] {
                    assert(s.take(w.len() as int)[k as int] != fixed_text(r as int)[k as int]);
                    return 0;
                }
                k = k + 1;
            }
            assert(s.take(w.len() as int) =~= fixed_text(r as int));
            return w.len();
        } else {
            return 0;
        }
    } else if r == 27 || r == 28 {
        if p < len && ((r == 27 && 'A' <= v[p] && v[p] <= 'Z') || (r == 28 && 'a' <= v[p] && v[p] <= 'z')) {
            let j = run_end(v, p + 1, 0);
            assert forall|n: int| n > j - p implies !#[trigger] rule_matches(r as int, s, n) by {
                if rule_matches(r as int, s, n) {
                    assert(is_word(s[j - p]));
                }
            }
            return j - p;
        } else {
            return 0;
        }
    } else if r == 29 {
        let k = run_end(v, p, 1);
        let d = run_end(v, k, 2);
        assert forall|n: int| n > d - p implies !#[trigger] rule_matches(r as int, s, n) by {
            if rule_matches(r as int, s, n) {
                let k2 = choose|k2: int| dashes_then_digits(s, k2, n);
                if k2 < k - p {
                    assert(s[k2] == '-');
                    assert(is_digit(s[k2]));
                } else if k2 > k - p {
                    assert(s[k - p] == '-');
                    assert(v@[k as int] == '-');
                } else {
                    assert(is_digit(s[d - p]));
                }
            }
        }
        if d > k {
            assert(dashes_then_digits(s, k - p, d - p));
            return d - p;
        } else {
            assert forall|n: int| n >= 1 implies !#[trigger] rule_matches(r as int, s, n) by {
                if rule_matches(r as int, s, n) {
                    let k2 = choose|k2: int| dashes_then_digits(s, k2, n);
                    if k2 < k - p {
                        assert(s[k2] == '-');
                        assert(is_digit(s[k2]));
                    } else if k2 > k - p {
                        assert(s[k - p] == '-');
                        assert(v@[k as int] == '-');
                    } else {
                        assert(is_digit(s[k2]));
                    }
                }
            }
            return 0;
        }
    } else if r == 30 {
        if p < len && v[p] == '"' {
            let j = run_end(v, p + 1, 5);
            if j < len {
                assert forall|n: int| n > j + 1 - p implies !#[trigger] rule_matches(r as int, s, n) by {
                    if rule_matches(r as int, s, n) {
                        assert(s[j - p] != '"');
                    }
                }
                return j + 1 - p;
            } else {
                assert forall|n: int| n >= 1 implies !#[trigger] rule_matches(r as int, s, n) by {
                    if rule_matches(r as int, s, n) {
                        assert(s[n - 1] == '"');
                        assert(in_class(5, v@[p + n - 1]));
                    }
                }
                return 0;
            }
        } else {
            return 0;
        }
    } else if r == 43 {
        let j = run_end(v, p, 3);
        assert forall|n: int| n > j - p implies !#[trigger] rule_matches(r as int, s, n) by {
            if rule_matches(r as int, s, n) {
                assert(s[j - p] == ' ');
            }
        }
        return j - p;
    } else if r == 44 {
        if len > 1 && p < len - 1 && v[p] == '/' && v[p + 1] == '*' {
            let mut j = p + 2;
            while j < len - 1 && !(v[j] == '*' && v[j + 1] == '/')
                invariant
                    p + 2 <= j <= len,
                    len == v.len(),
                    s == v@.skip(p as int),
                    forall|i: int| p + 2 <= i < j && i + 1 < len ==> !(v@[i] == '*' && #[trigger] v@[i + 1] == '/'),
                decreases len - j,
            {
                j = j + 1;
            }
            if j < len - 1 {
                assert forall|i: int| 2 <= i && i + 1 < (j + 2 - p) - 2 implies !(s[i] == '*' && #[trigger] s[i + 1] == '/') by {
                    assert(v@[p + i] == s[i]);
                    assert(v@[p + i + 1] == s[i + 1]);
                }
                assert forall|n: int| n > j + 2 - p implies !#[trigger] rule_matches(r as int, s, n) by {
                    if rule_matches(r as int, s, n) {
                        if n == j + 3 - p {
                            assert(s[n - 2] == v@[j + 1]);
                        } else {
                            assert(s[(j - p) + 1] == '/');
                        }
                    }
                }
                return j + 2 - p;
            } else {
                assert forall|n: int| n >= 1 implies !#[trigger] rule_matches(r as int, s, n) by {
                    if rule_matches(r as int, s, n) {
                        let i0 = p + n - 2;
                        assert(v@[i0] == '*');
                        assert(v@[i0 + 1] == '/');
                        assert(i0 >= p + 2);
                        assert(i0 < j);
                    }
                }
                return 0;
            }
        } else {
            return 0;
        }
    } else if r == 45 {
        if len > 1 && p < len - 1 && v[p] == '/' && v[p + 1] == '/' {
            let j = run_end(v, p + 2, 4);
            assert forall|n: int| n > j - p implies !#[trigger] rule_matches(r as int, s, n) by {
                if rule_matches(r as int, s, n) {
                    assert(s[j - p] != '\n');
                }
            }
            return j - p;
        } else {
            return 0;
        }
    } else {
        if p < len {
            return 1;
        } else {
            return 0;
        }
    }
}

/// The best rule at `p` and the length of its lexeme.
fn best_match(v: &Vec<char>, p: usize) -> (res: (usize, usize))
    requires
        p < v.len(),
    ensures
        is_best(v@.skip(p as int), res.0 as int, res.1 as int),
{
    let ghost s = v@.skip(p as int);
    let mut best_r: usize = 0;
    let mut best_n: usize = 0;
    for r in 0..NUM_RULES
        invariant
            p < v.len(),
            s == v@.skip(p as int),
            best_n <= v.len() - p,
            best_n > 0 ==> best_r < r && rule_matches(best_r as int, s, best_n as int),
            forall|r2: int, n2: int|
                0 <= r2 < r && #[trigger] rule_matches(r2, s, n2) ==> n2 <= best_n && (n2
                    == best_n ==> best_r <= r2),
    {
        let m = rule_longest(r, v, p);
        if m > best_n {
            best_n = m;
            best_r = r;
        }
    }
    assert(rule_matches(54, s, 1));
    (best_r, best_n)
}

/// Reads a string literal: drops its quotes and reads its escapes.
pub fn parse_string(v: &Vec<char>, from: usize, to: usize) -> (t: Token)
    requires
        from + 2 <= to <= v.len(),
    ensures
        t@ == TokenM::StringConst(unescape(v@.subrange(from + 1, to - 1), false)),
{
    let ghost inner = v@.subrange(from + 1, to - 1);
    let mut s = String::new();
    let mut flag = false;
    let mut i = from + 1;
    while i < to - 1
        invariant
            from + 1 <= i <= to - 1,
            to <= v.len(),
            inner == v@.subrange(from + 1, to - 1),
            unescape(inner, false) == s@ + unescape(v@.subrange(i as int, to - 1), flag),
        decreases to - 1 - i,
    {
        let c = v[i];
        let ghost rest = v@.subrange(i as int, to - 1);
        let ghost old_s = s@;
        let ghost old_flag = flag;
        assert(rest[0] == c);
        assert(rest.drop_first() =~= v@.subrange(i + 1, to - 1));
        if c == '\\' && !flag {
            flag = true;
            i = i + 1;
            continue;
        }
        if flag {
            if c == 'n' {
                push_char(&mut s, '\n');
            } else if c == 't' {
                push_char(&mut s, '\t');
            } else {
                push_char(&mut s, c);
            }
            flag = false;
        } else {
            push_char(&mut s, c);
        }
        assert(unescape(rest, old_flag) == seq![s@.last()] + unescape(rest.drop_first(), false));
        assert(old_s + (seq![s@.last()] + unescape(rest.drop_first(), false)) =~= s@ + unescape(
            rest.drop_first(),
            false,
        ));
        i = i + 1;
    }
    assert(v@.subrange(i as int, to - 1) =~= Seq::<char>::empty());
    assert(s@ + Seq::<char>::empty() =~= s@);
    Token::StringConst(s)
}

/// Makes the token of rule `r` from the lexeme `v[from..to]`.
fn make_token(r: usize, v: &Vec<char>, from: usize, to: usize) -> (t: Token)
    requires
        r < NUM_RULES,
        from < to <= v.len(),
        r == 30 ==> to - from >= 2,
    ensures
        t@ == token_of(r as int, v@.subrange(from as int, to as int)),
{
    let ghost text = v@.subrange(from as int, to as int);
    if r == 0 {
        Token::IntRawType(string_of_chars(v, from, to))
    } else if r == 1 {
        Token::VoidRawType(string_of_chars(v, from, to))
    } else if r == 2 {
        Token::StrRawType(string_of_chars(v, from, to))
    } else if r == 3 {
        Token::Class_(empty_position(), String::new())
    } else if r == 4 {
        Token::Public
    } else if r == 5 {
        Token::Private
    } else if r == 6 {
        Token::Self_(string_of_chars(v, from, to))
    } else if 7 <= r && r <= 9 {
        Token::Function(empty_position())
    } else if r == 10 {
        Token::Return(empty_position())
    } else if r == 11 {
        Token::Import
    } else if r == 12 {
        Token::From
    } else if r == 13 {
        Token::If(empty_position())
    } else if r == 14 {
        Token::Then
    } else if r == 15 {
        Token::Else(empty_position())
    } else if r == 16 {
        Token::Inherits
    } else if r == 17 {
        Token::Let(empty_position())
    } else if r == 18 {
        Token::While(empty_position())
    } else if r == 19 {
        Token::For(empty_position())
    } else if r == 20 {
        Token::New(empty_position())
    } else if r == 21 {
        Token::Isnull
    } else if r == 22 {
        Token::Not(empty_position())
    } else if r == 23 {
        Token::BoolConst(true)
    } else if r == 24 {
        Token::BoolConst(false)
    } else if r == 25 {
        Token::ASM
    } else if r == 26 {
        Token::Constructor(empty_position())
    } else if r == 27 {
        Token::TypeId(string_of_chars(v, from, to))
    } else if r == 28 {
        Token::Identifier(string_of_chars(v, from, to), empty_position())
    } else if r == 29 {
        Token::IntConst(string_of_chars(v, from, to))
    } else if r == 30 {
        let t = parse_string(v, from, to);
        assert(text.subrange(1, text.len() - 1) =~= v@.subrange(from + 1, to - 1));
        t
    } else if r == 31 {
        Token::Assign(empty_position())
    } else if r == 32 {
        Token::Arrow
    } else if r == 33 {
        Token::Plus
    } else if r == 34 {
        Token::Minus
    } else if r == 35 {
        Token::Mul
    } else if r == 36 {
        Token::Divide
    } else if r == 37 {
        Token::Equal
    } else if r == 38 {
        Token::More
    } else if r == 39 {
        Token::MoreE
    } else if r == 40 {
        Token::Less
    } else if r == 41 {
        Token::LessE
    } else if r == 42 {
        Token::Newline
    } else if r == 43 {
        Token::Whitespace(string_of_chars(v, from, to))
    } else if r == 44 {
        Token::BlockComment(string_of_chars(v, from, to))
    } else if r == 45 {
        Token::Comment
    } else if r == 46 {
        Token::Lbrace
    } else if r == 47 {
        Token::Rbrace
    } else if r == 48 {
        Token::Lparen
    } else if r == 49 {
        Token::Rparen
    } else if r == 50 {
        Token::Semicolon
    } else if r == 51 {
        Token::Period
    } else if r == 52 {
        Token::Comma
    } else if r == 53 {
        Token::Colon
    } else {
        let mut s = String::from_str("Unexpected character: ");
        let t = string_of_chars(v, from, to);
        s.append(t.as_str());
        Token::Error(s)
    }
}

/// The first token at `p` and where the text after it starts; nothing at
/// the end of the text.
pub fn next_token(v: &Vec<char>, p: usize) -> (res: Option<(Token, usize)>)
    requires
        p <= v.len(),
    ensures
        match res {
            None => spec_next_token(v@.skip(p as int)) is None,
            Some((t, q)) => p < q <= v.len() && spec_next_token(v@.skip(p as int)) == Some(
                (t@, q - p),
            ),
        },
{
    if p == v.len() {
        return None;
    }
    let (r, n) = best_match(v, p);
    let ghost s = v@.skip(p as int);
    proof {
        lemma_best_rule(s, r as int, n as int);
        assert(s.take(n as int) =~= v@.subrange(p as int, p + n));
    }
    let t = make_token(r, v, p, p + n);
    Some((t, p + n))
}


/// The number of newlines in a text.
pub open spec fn count_newlines(s: Seq<char>) -> int
    decreases s.len(),
{
    if s.len() == 0 {
        0
    } else {
        count_newlines(s.drop_last()) + if s.last() == '\n' {
            1int
        } else {
            0int
        }
    }
}

pub proof fn lemma_count_newlines_bound(s: Seq<char>)
    ensures
        0 <= count_newlines(s) <= s.len(),
    decreases s.len(),
{
    if s.len() > 0 {
        lemma_count_newlines_bound(s.drop_last());
    }
}

/// Where the lexer stands: the line it is on and the column reached, the
/// text still to read, whether the last token was `__asm__`, the constant
/// tables and the name of the file.
pub ghost struct LexState {
    pub line: int,
    pub offset: int,
    pub rest: Seq<char>,
    pub after_asm: bool,
    pub strings: Seq<Seq<char>>,
    pub ints: Seq<Seq<char>>,
    pub ids: Seq<Seq<char>>,
    pub file: Seq<char>,
}

pub open spec fn at(line: int, offset: int) -> Position {
    Position { row: line as usize, column: offset as usize }
}

/// What the lexer hands out for the token `t` read while on `line` and
/// having reached column `off`: names, keywords of control and the
/// assignment sign carry their position, a class keyword also the file.
pub open spec fn placed(t: TokenM, line: int, off: int, file: Seq<char>) -> TokenM {
    match t {
        TokenM::Class_(_, _) => TokenM::Class_(at(line, off), file),
        TokenM::Identifier(text, _) => TokenM::Identifier(text, at(line, off)),
        TokenM::Function(_) => TokenM::Function(at(line, off)),
        TokenM::Return(_) => TokenM::Return(at(line, off)),
        TokenM::If(_) => TokenM::If(at(line, off)),
        TokenM::Else(_) => TokenM::Else(at(line, off)),
        TokenM::Let(_) => TokenM::Let(at(line, off)),
        TokenM::While(_) => TokenM::While(at(line, off)),
        TokenM::New(_) => TokenM::New(at(line, off)),
        TokenM::Assign(_) => TokenM::Assign(at(line, off)),
        TokenM::Not(_) => TokenM::Not(at(line, off)),
        TokenM::For(_) => TokenM::For(at(line, off)),
        TokenM::Constructor(_) => TokenM::Constructor(at(line, off)),
        _ => t,
    }
}

/// One step of the lexer: it skips white space and comments, counting the
/// lines they span, and hands out the next token with the line it is on
/// and the column after it.  String literals (but the one right after
/// `__asm__`) and class names enter the string table, integer literals the
/// integer table and identifiers the identifier table.
pub open spec fn lex_next(st: LexState) -> (LexState, Option<(int, TokenM, int)>)
    decreases st.rest.len(),
{
    if st.rest.len() == 0 {
        (st, None)
    } else {
        let (r, n) = best_rule(st.rest);
        if n < 1 || n > st.rest.len() {
            (st, None)
        } else {
            let text = st.rest.take(n);
            let tok = token_of(r, text);
            let st1 = LexState { offset: st.offset + n, rest: st.rest.skip(n), ..st };
            match tok {
                TokenM::Comment => lex_next(st1),
                TokenM::Whitespace(_) => lex_next(st1),
                TokenM::BlockComment(b) => lex_next(
                    LexState { line: st1.line + count_newlines(b), ..st1 },
                ),
                TokenM::Newline => lex_next(LexState { line: st1.line + 1, offset: 0, ..st1 }),
                _ => {
                    let st2 = match tok {
                        TokenM::ASM => LexState { after_asm: true, ..st1 },
                        TokenM::StringConst(v) => if !st1.after_asm {
                            LexState { strings: table_insert(st1.strings, v), ..st1 }
                        } else {
                            LexState { after_asm: false, ..st1 }
                        },
                        TokenM::IntConst(v) => LexState { ints: table_insert(st1.ints, v), ..st1 },
                        TokenM::Identifier(v, _) => LexState { ids: table_insert(st1.ids, v), ..st1 },
                        TokenM::TypeId(v) => LexState { strings: table_insert(st1.strings, v), ..st1 },
                        _ => st1,
                    };
                    (st2, Some((st1.line, placed(tok, st1.line, st1.offset, st1.file), st1.offset)))
                },
            }
        }
    }
}

/// The lexer of one file; it reads the text held by its context.
#[derive(Debug)]
pub struct Lexer {
    current_line: usize,
    offset: usize,
    chars: Vec<char>,
    pos: usize,
    pub ctx: CompileContext,
    asm_flag: bool,
}

/// Raised by no input: every character makes some token.
#[derive(Debug)]
pub struct LexicalError {}

pub open spec fn lexed_view(r: Option<Result<(LineNum, Token, Off), LexicalError>>) -> Option<(int, TokenM, int)> {
    match r {
        Some(Ok((l, t, o))) => Some((l as int, t@, o as int)),
        _ => None,
    }
}

impl Lexer {
    pub closed spec fn state(&self) -> LexState {
        LexState {
            line: self.current_line as int,
            offset: self.offset as int,
            rest: self.chars@.skip(self.pos as int),
            after_asm: self.asm_flag,
            strings: table_view(self.ctx.tables.string_table@),
            ints: table_view(self.ctx.tables.int_table@),
            ids: table_view(self.ctx.tables.id_table@),
            file: self.ctx.file_name@,
        }
    }

    /// The context the lexer holds.
    pub closed spec fn context(&self) -> CompileContext {
        self.ctx
    }

    pub closed spec fn wf(&self) -> bool {
        &&& self.pos <= self.chars@.len() < usize::MAX
        &&& self.offset <= self.pos
        &&& 1 <= self.current_line <= 1 + self.pos
    }

    /// A lexer at the start of the text of `ctx`, on line 1.
    pub fn new(ctx: CompileContext) -> (l: Lexer)
        requires
            ctx.content@.len() < usize::MAX,
        ensures
            l.wf(),
            l.state() == (LexState {
                line: 1,
                offset: 0,
                rest: ctx.content@,
                after_asm: false,
                strings: table_view(ctx.tables.string_table@),
                ints: table_view(ctx.tables.int_table@),
                ids: table_view(ctx.tables.id_table@),
                file: ctx.file_name@,
            }),
            l.context() == ctx,
    {
        let chars = chars_of(ctx.content.as_str());
        let l = Lexer { current_line: 1, offset: 0, chars, pos: 0, ctx, asm_flag: false };
        assert(l.chars@.skip(0) =~= l.chars@);
        l
    }

    /// The next token, with the line it is on and the column after it.
    pub fn next(&mut self) -> (r: Option<Result<(LineNum, Token, Off), LexicalError>>)
        requires
            old(self).wf(),
        ensures
            final(self).wf(),
            lex_next(old(self).state()) == (final(self).state(), lexed_view(r)),
            !(r matches Some(Err(_))),
            final(self).context().classes == old(self).context().classes,
            final(self).context().content == old(self).context().content,
            final(self).context().file_name == old(self).context().file_name,
            final(self).context().class_table == old(self).context().class_table,
    {
        let ghost goal = lex_next(self.state());
        loop
            invariant
                self.wf(),
                goal == lex_next(old(self).state()),
                lex_next(self.state()) == goal,
                self.ctx.classes == old(self).ctx.classes,
                self.ctx.content == old(self).ctx.content,
                self.ctx.file_name == old(self).ctx.file_name,
                self.ctx.class_table == old(self).ctx.class_table,
            decreases self.chars@.len() - self.pos,
        {
            let ghost st = self.state();
            let file_name = self.ctx.file_name.clone();
            let (tok, q) = match next_token(&self.chars, self.pos) {
                None => {
                    assert(st.rest.len() == 0);
                    assert(lex_next(st) == (st, None::<(int, TokenM, int)>));
                    return None;
                },
                Some(x) => x,
            };
            let ghost n = q - self.pos;
            proof {
                let (r, n2) = best_rule(st.rest);
                assert(n2 == n);
                assert(st.rest.skip(n) =~= self.chars@.skip(q as int));
                lemma_count_newlines_bound(st.rest.take(n));
            }
            self.offset = self.offset + (q - self.pos);
            self.pos = q;
            match tok {
                Token::Comment => {},
                Token::Whitespace(_) => {},
                Token::BlockComment(s) => {
                    let k = count_newlines_of(&s);
                    self.current_line = self.current_line + k;
                },
                Token::Newline => {
                    self.current_line = self.current_line + 1;
                    self.offset = 0;
                },
                Token::ASM => {
                    self.asm_flag = true;
                    return Some(Ok((self.current_line, Token::ASM, self.offset)));
                },
                Token::StringConst(text) => {
                    if self.asm_flag == false {
                        table_add(&mut self.ctx.tables.string_table, text.clone());
                    } else {
                        self.asm_flag = false;
                    }
                    return Some(Ok((self.current_line, Token::StringConst(text), self.offset)));
                },
                Token::IntConst(text) => {
                    table_add(&mut self.ctx.tables.int_table, text.clone());
                    return Some(Ok((self.current_line, Token::IntConst(text), self.offset)));
                },
                Token::Identifier(text, _) => {
                    table_add(&mut self.ctx.tables.id_table, text.clone());
                    return Some(
                        Ok(
                            (
                                self.current_line,
                                Token::Identifier(text, Position::new(self.current_line, self.offset)),
                                self.offset,
                            ),
                        ),
                    );
                },
                Token::TypeId(text) => {
                    table_add(&mut self.ctx.tables.string_table, text.clone());
                    return Some(Ok((self.current_line, Token::TypeId(text), self.offset)));
                },
                Token::Class_(_, _) => {
                    return Some(
                        Ok(
                            (
                                self.current_line,
                                Token::Class_(Position::new(self.current_line, self.offset), file_name),
                                self.offset,
                            ),
                        ),
                    );
                },
                Token::Function(_) => {
                    return Some(Ok((self.current_line, Token::Function(Position::new(self.current_line, self.offset)), self.offset)));
                },
                Token::Return(_) => {
                    return Some(Ok((self.current_line, Token::Return(Position::new(self.current_line, self.offset)), self.offset)));
                },
                Token::If(_) => {
                    return Some(Ok((self.current_line, Token::If(Position::new(self.current_line, self.offset)), self.offset)));
                },
                Token::Else(_) => {
                    return Some(Ok((self.current_line, Token::Else(Position::new(self.current_line, self.offset)), self.offset)));
                },
                Token::Let(_) => {
                    return Some(Ok((self.current_line, Token::Let(Position::new(self.current_line, self.offset)), self.offset)));
                },
                Token::While(_) => {
                    return Some(Ok((self.current_line, Token::While(Position::new(self.current_line, self.offset)), self.offset)));
                },
                Token::New(_) => {
                    return Some(Ok((self.current_line, Token::New(Position::new(self.current_line, self.offset)), self.offset)));
                },
                Token::Assign(_) => {
                    return Some(Ok((self.current_line, Token::Assign(Position::new(self.current_line, self.offset)), self.offset)));
                },
                Token::Not(_) => {
                    return Some(Ok((self.current_line, Token::Not(Position::new(self.current_line, self.offset)), self.offset)));
                },
                Token::For(_) => {
                    return Some(Ok((self.current_line, Token::For(Position::new(self.current_line, self.offset)), self.offset)));
                },
                Token::Constructor(_) => {
                    return Some(Ok((self.current_line, Token::Constructor(Position::new(self.current_line, self.offset)), self.offset)));
                },
                token => {
                    proof {
                        let tm = token@;
                        assert(placed(tm, self.current_line as int, self.offset as int, st.file) == tm);
                    }
                    return Some(Ok((self.current_line, token, self.offset)));
                },
            }
        }
    }
}

/// The number of newlines in a string.
fn count_newlines_of(s: &String) -> (k: usize)
    ensures
        k == count_newlines(s@),
{
    let v = chars_of(s.as_str());
    let mut k: usize = 0;
    for i in 0..v.len()
        invariant
            v@ == s@,
            k == count_newlines(v@.take(i as int)),
            k <= i,
    {
        assert(v@.take(i + 1).drop_last() =~= v@.take(i as int));
        if v[i] == '\n' {
            k = k + 1;
        }
    }
    assert(v@.take(v@.len() as int) =~= v@);
    k
}

} // verus!
