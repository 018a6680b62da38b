use vstd::prelude::*;

use super::table::Tables;
use super::token::Token;
use crate::lexer::lexer::{in_class, is_digit, is_lower, is_upper, is_word, run_end, unescape};
use crate::utils::table::{table_add, table_insert, table_view};
use crate::utils::util::{chars_of, string_of_chars};

verus! {

/// The number of rules of the small language's lexer; rule `r` is tried
/// before rule `r + 1`.
pub const MINI_RULES: usize = 44;

/// A token of the small language with its texts as plain text.
pub ghost enum MiniTokenM {
    Class_,
    Function,
    If,
    Then,
    Else,
    Inherits,
    Let,
    While,
    New,
    Isvoid,
    Not,
    StringConst(Seq<char>),
    IntConst(Seq<char>),
    BoolConst(bool),
    TypeId(Seq<char>),
    Identifier(Seq<char>),
    Assign,
    Arrow,
    Plus,
    Minus,
    Divide,
    Mul,
    Equal,
    More,
    MoreE,
    Less,
    LessE,
    Lbrace,
    Rbrace,
    Lparen,
    Rparen,
    Semicolon,
    Period,
    Comma,
    Colon,
    Newline,
    Whitespace,
    Comment,
    Error(Seq<char>),
}

impl View for Token {
    type V = MiniTokenM;

    open spec fn view(&self) -> MiniTokenM {
        match self {
            Token::Class_ => MiniTokenM::Class_,
            Token::Function => MiniTokenM::Function,
            Token::If => MiniTokenM::If,
            Token::Then => MiniTokenM::Then,
            Token::Else => MiniTokenM::Else,
            Token::Inherits => MiniTokenM::Inherits,
            Token::Let => MiniTokenM::Let,
            Token::While => MiniTokenM::While,
            Token::New => MiniTokenM::New,
            Token::Isvoid => MiniTokenM::Isvoid,
            Token::Not => MiniTokenM::Not,
            Token::StringConst(s) => MiniTokenM::StringConst(s@),
            Token::IntConst(s) => MiniTokenM::IntConst(s@),
            Token::BoolConst(b) => MiniTokenM::BoolConst(*b),
            Token::TypeId(s) => MiniTokenM::TypeId(s@),
            Token::Identifier(s) => MiniTokenM::Identifier(s@),
            Token::Assign => MiniTokenM::Assign,
            Token::Arrow => MiniTokenM::Arrow,
            Token::Plus => MiniTokenM::Plus,
            Token::Minus => MiniTokenM::Minus,
            Token::Divide => MiniTokenM::Divide,
            Token::Mul => MiniTokenM::Mul,
            Token::Equal => MiniTokenM::Equal,
            Token::More => MiniTokenM::More,
            Token::MoreE => MiniTokenM::MoreE,
            Token::Less => MiniTokenM::Less,
            Token::LessE => MiniTokenM::LessE,
            Token::Lbrace => MiniTokenM::Lbrace,
            Token::Rbrace => MiniTokenM::Rbrace,
            Token::Lparen => MiniTokenM::Lparen,
            Token::Rparen => MiniTokenM::Rparen,
            Token::Semicolon => MiniTokenM::Semicolon,
            Token::Period => MiniTokenM::Period,
            Token::Comma => MiniTokenM::Comma,
            Token::Colon => MiniTokenM::Colon,
            Token::Newline => MiniTokenM::Newline,
            Token::Whitespace => MiniTokenM::Whitespace,
            Token::Comment => MiniTokenM::Comment,
            Token::Error(s) => MiniTokenM::Error(s@),
        }
    }
}

/// The rules whose text is fixed: keywords, operators and punctuation.
pub open spec fn mini_fixed(r: int) -> bool {
    (0 <= r <= 14) || (19 <= r <= 30) || (34 <= r <= 42)
}

/// The text of a fixed rule.
pub open spec fn mini_fixed_text(r: int) -> Seq<char> {
    if r == 0 {
        seq!['c', 'l', 'a', 's', 's']
    } else if r == 1 {
        seq!['f', 'u', 'n', 'c', 't', 'i', 'o', 'n']
    } else if r == 2 {
        seq!['f', 'u', 'n']
    } else if r == 3 {
        seq!['f', 'n']
    } else if r == 4 {
        seq!['i', 'f']
    } else if r == 5 {
        seq!['t', 'h', 'e', 'n']
    } else if r == 6 {
        seq!['e', 'l', 's', 'e']
    } else if r == 7 {
        seq!['i', 'n', 'h', 'e', 'r', 'i', 't', 's']
    } else if r == 8 {
        seq!['l', 'e', 't']
    } else if r == 9 {
        seq!['w', 'h', 'i', 'l', 'e']
    } else if r == 10 {
        seq!['n', 'e', 'w']
    } else if r == 11 {
        seq!['i', 's', 'v', 'o', 'i', 'd']
    } else if r == 12 {
        seq!['!']
    } else if r == 13 {
        seq!['t', 'r', 'u', 'e']
    } else if r == 14 {
        seq!['f', 'a', 'l', 's', 'e']
    } else if r == 19 {
        seq!['=']
    } else if r == 20 {
        seq!['-', '>']
    } else if r == 21 {
        seq!['+']
    } else if r == 22 {
        seq!['-']
    } else if r == 23 {
        seq!['*']
    } else if r == 24 {
        seq!['/']
    } else if r == 25 {
        seq!['=', '=']
    } else if r == 26 {
        seq!['>']
    } else if r == 27 {
        seq!['=', '>']
    } else if r == 28 {
        seq!['<']
    } else if r == 29 {
        seq!['<', '=']
    } else if r == 30 {
        seq!['\n']
    } else if r == 34 {
        seq!['{']
    } else if r == 35 {
        seq!['}']
    } else if r == 36 {
        seq!['(']
    } else if r == 37 {
        seq![')']
    } else if r == 38 {
        seq![';']
    } else if r == 39 {
        seq!['=']
    } else if r == 40 {
        seq!['.']
    } else if r == 41 {
        seq![',']
    } else if r == 42 {
        seq![':']
    } else {
        Seq::empty()
    }
}

/// Whether the first `n` characters of `s` form a lexeme of rule `r`:
/// keywords and symbols are their text; a type name is a capital letter
/// and then letters, digits and underscores; an identifier is the same
/// after a small letter; an integer is digits; a string is quoted, with no
/// quote inside; white space is spaces, tabs and carriage returns; a
/// block comment is `/*`, text without `*/`, then `*/`; a line comment is
/// `//` and what follows on the line; the last rule takes any one
/// character.
pub open spec fn mini_rule_matches(r: int, s: Seq<char>, n: int) -> bool {
    &&& 1 <= n <= s.len()
    &&& if mini_fixed(r) {
        s.take(n) == mini_fixed_text(r)
    } else if r == 15 {
        is_upper(s[0]) && forall|i: int| 1 <= i < n ==> is_word(s[i])
    } else if r == 16 {
        is_lower(s[0]) && forall|i: int| 1 <= i < n ==> is_word(s[i])
    } else if r == 17 {
        forall|i: int| 0 <= i < n ==> is_digit(s[i])
    } else if r == 18 {
        n >= 2 && s[0] == '"' && s[n - 1] == '"' && forall|i: int| 1 <= i < n - 1 ==> s[i] != '"'
    } else if r == 31 {
        forall|i: int| 0 <= i < n ==> in_class(6, s[i])
    } else if r == 32 {
        &&& n >= 4
        &&& s[0] == '/'
        &&& s[1] == '*'
        &&& s[n - 2] == '*'
        &&& s[n - 1] == '/'
        &&& forall|i: int| 2 <= i && i + 1 < n - 2 ==> !(s[i] == '*' && #[trigger] s[i + 1] == '/')
    } else if r == 33 {
        n >= 2 && s[0] == '/' && s[1] == '/' && forall|i: int| 2 <= i < n ==> s[i] != '\n'
    } else if r == 43 {
        n == 1
    } else {
        false
    }
}

/// The lexeme that the lexer takes: the longest one of any rule, and of
/// the rules that reach that length, the first.
pub open spec fn mini_is_best(s: Seq<char>, r: int, n: int) -> bool {
    &&& 0 <= r < MINI_RULES
    &&& mini_rule_matches(r, s, n)
    &&& forall|r2: int, n2: int|
        0 <= r2 < MINI_RULES && #[trigger] mini_rule_matches(r2, s, n2) ==> n2 <= n && (n2 == n ==> r <= r2)
}

pub open spec fn mini_best_rule(s: Seq<char>) -> (int, int) {
    choose|r: int, n: int| mini_is_best(s, r, n)
}

/// The token that rule `r` makes of its lexeme `text`.
pub open spec fn mini_token_of(r: int, text: Seq<char>) -> MiniTokenM {
    if r == 0 {
        MiniTokenM::Class_
    } else if 1 <= r <= 3 {
        MiniTokenM::Function
    } else if r == 4 {
        MiniTokenM::If
    } else if r == 5 {
        MiniTokenM::Then
    } else if r == 6 {
        MiniTokenM::Else
    } else if r == 7 {
        MiniTokenM::Inherits
    } else if r == 8 {
        MiniTokenM::Let
    } else if r == 9 {
        MiniTokenM::While
    } else if r == 10 {
        MiniTokenM::New
    } else if r == 11 {
        MiniTokenM::Isvoid
    } else if r == 12 {
        MiniTokenM::Not
    } else if r == 13 {
        MiniTokenM::BoolConst(true)
    } else if r == 14 {
        MiniTokenM::BoolConst(false)
    } else if r == 15 {
        MiniTokenM::TypeId(text)
    } else if r == 16 {
        MiniTokenM::Identifier(text)
    } else if r == 17 {
        MiniTokenM::IntConst(text)
    } else if r == 18 {
        MiniTokenM::StringConst(unescape(text.subrange(1, text.len() - 1), false))
    } else if r == 19 {
        MiniTokenM::Assign
    } else if r == 20 {
        MiniTokenM::Arrow
    } else if r == 21 {
        MiniTokenM::Plus
    } else if r == 22 {
        MiniTokenM::Minus
    } else if r == 23 {
        MiniTokenM::Mul
    } else if r == 24 {
        MiniTokenM::Divide
    } else if r == 25 {
        MiniTokenM::Equal
    } else if r == 26 {
        MiniTokenM::More
    } else if r == 27 {
        MiniTokenM::MoreE
    } else if r == 28 {
        MiniTokenM::Less
    } else if r == 29 {
        MiniTokenM::LessE
    } else if r == 30 {
        MiniTokenM::Newline
    } else if r == 31 {
        MiniTokenM::Whitespace
    } else if r == 32 || r == 33 {
        MiniTokenM::Comment
    } else if r == 34 {
        MiniTokenM::Lbrace
    } else if r == 35 {
        MiniTokenM::Rbrace
    } else if r == 36 {
        MiniTokenM::Lparen
    } else if r == 37 {
        MiniTokenM::Rparen
    } else if r == 38 {
        MiniTokenM::Semicolon
    } else if r == 39 {
        MiniTokenM::Equal
    } else if r == 40 {
        MiniTokenM::Period
    } else if r == 41 {
        MiniTokenM::Comma
    } else if r == 42 {
        MiniTokenM::Colon
    } else {
        MiniTokenM::Error("Unexpected character: "@ + text)
    }
}

/// At most one rule and length is best for a text.
proof fn lemma_mini_best_unique(s: Seq<char>, r1: int, n1: int, r2: int, n2: int)
    requires
        mini_is_best(s, r1, n1),
        mini_is_best(s, r2, n2),
    ensures
        r1 == r2,
        n1 == n2,
{
    assert(mini_rule_matches(r2, s, n2));
    assert(mini_rule_matches(r1, s, n1));
}

proof fn lemma_mini_best_rule(s: Seq<char>, r: int, n: int)
    requires
        mini_is_best(s, r, n),
    ensures
        mini_best_rule(s) == (r, n),
{
    let (r2, n2) = mini_best_rule(s);
    lemma_mini_best_unique(s, r, n, r2, n2);
}

fn mini_fixed_chars(r: usize) -> (v: Vec<char>)
    requires
        mini_fixed(r as int),
    ensures
        v@ == mini_fixed_text(r as int),
{
    match r {
        0 => vec!['c', 'l', 'a', 's', 's'],
        1 => vec!['f', 'u', 'n', 'c', 't', 'i', 'o', 'n'],
        2 => vec!['f', 'u', 'n'],
        3 => vec!['f', 'n'],
        4 => vec!['i', 'f'],
        5 => vec!['t', 'h', 'e', 'n'],
        6 => vec!['e', 'l', 's', 'e'],
        7 => vec!['i', 'n', 'h', 'e', 'r', 'i', 't', 's'],
        8 => vec!['l', 'e', 't'],
        9 => vec!['w', 'h', 'i', 'l', 'e'],
        10 => vec!['n', 'e', 'w'],
        11 => vec!['i', 's', 'v', 'o', 'i', 'd'],
        12 => vec!['!'],
        13 => vec!['t', 'r', 'u', 'e'],
        14 => vec!['f', 'a', 'l', 's', 'e'],
        19 => vec!['='],
        20 => vec!['-', '>'],
        21 => vec!['+'],
        22 => vec!['-'],
        23 => vec!['*'],
        24 => vec!['/'],
        25 => vec!['=', '='],
        26 => vec!['>'],
        27 => vec!['=', '>'],
        28 => vec!['<'],
        29 => vec!['<', '='],
        30 => vec!['\n'],
        34 => vec!['{'],
        35 => vec!['}'],
        36 => vec!['('],
        37 => vec![')'],
        38 => vec![';'],
        39 => vec!['='],
        40 => vec!['.'],
        41 => vec![','],
        42 => vec![':'],
        _ => vstd::pervasive::unreached(),
    }
}

/// The length of the longest lexeme of rule `r` at `p`, or 0 when the rule
/// matches nothing there.
fn mini_rule_longest(r: usize, v: &Vec<char>, p: usize) -> (m: usize)
    requires
        r < MINI_RULES,
        p <= v.len(),
    ensures
        m <= v.len() - p,
        m > 0 ==> mini_rule_matches(r as int, v@.skip(p as int), m as int),
        forall|n: int| n > m ==> !#[trigger] mini_rule_matches(r as int, v@.skip(p as int), n),
{
    let ghost s = v@.skip(p as int);
    let len = v.len();
    if (r <= 14) || (19 <= r && r <= 30) || (34 <= r && r <= 42) {
        let w = mini_fixed_chars(r);
        if w.len() <= len - p {
            let mut k: usize = 0;
            while k < w.len()
                invariant
                    w@ == mini_fixed_text(r as int),
                    w.len() <= len - p,
                    len == v.len(),
                    s == v@.skip(p as int),
                    k <= w.len(),
                    forall|i: int| 0 <= i < k ==> s[i] == w@[i],
                decreases w.len() - k,
            {
                if v[p + k] != w[k] {
                    assert(s.take(w.len() as int)[k as int] != mini_fixed_text(r as int)[k as int]);
                    return 0;
                }
                k = k + 1;
            }
            assert(s.take(w.len() as int) =~= mini_fixed_text(r as int));
            return w.len();
        } else {
            return 0;
        }
    } else if r == 15 || r == 16 {
        if p < len && ((r == 15 && 'A' <= v[p] && v[p] <= 'Z') || (r == 16 && 'a' <= v[p] && v[p] <= 'z')) {
            let j = run_end(v, p + 1, 0);
            assert forall|n: int| n > j - p implies !#[trigger] mini_rule_matches(r as int, s, n) by {
                if mini_rule_matches(r as int, s, n) {
                    assert(is_word(s[j - p]));
                }
            }
            return j - p;
        } else {
            return 0;
        }
    } else if r == 17 {
        let j = run_end(v, p, 2);
        assert forall|n: int| n > j - p implies !#[trigger] mini_rule_matches(r as int, s, n) by {
            if mini_rule_matches(r as int, s, n) {
                assert(is_digit(s[j - p]));
            }
        }
        return j - p;
    } else if r == 18 {
        if p < len && v[p] == '"' {
            let j = run_end(v, p + 1, 5);
            if j < len {
                assert forall|n: int| n > j + 1 - p implies !#[trigger] mini_rule_matches(r as int, s, n) by {
                    if mini_rule_matches(r as int, s, n) {
                        assert(s[j - p] != '"');
                    }
                }
                return j + 1 - p;
            } else {
                assert forall|n: int| n >= 1 implies !#[trigger] mini_rule_matches(r as int, s, n) by {
                    if mini_rule_matches(r as int, s, n) {
                        assert(s[n - 1] == '"');
                        assert(in_class(5, v@[p + n - 1]));
                    }
                }
                return 0;
            }
        } else {
            return 0;
        }
    } else if r == 31 {
        let j = run_end(v, p, 6);
        assert forall|n: int| n > j - p implies !#[trigger] mini_rule_matches(r as int, s, n) by {
            if mini_rule_matches(r as int, s, n) {
                assert(in_class(6, s[j - p]));
            }
        }
        return j - p;
    } else if r == 32 {
        if len > 1 && p < len - 1 && v[p] == '/' && v[p + 1] == '*' {
            let mut j = p + 2;
            while j < len - 1 && !(v[j] == '*' && v[j + 1] == '/')
                invariant
                    p + 2 <= j <= len,
                    len == v.len(),
                    s == v@.skip(p as int),
                    forall|i: int| p + 2 <= i < j && i + 1 < len ==> !(v@[i] == '*' && #[trigger] v@[i + 1] == '/'),
                decreases len - j,
            {
                j = j + 1;
            }
            if j < len - 1 {
                assert forall|i: int| 2 <= i && i + 1 < (j + 2 - p) - 2 implies !(s[i] == '*' && #[trigger] s[i + 1] == '/') by {
                    assert(v@[p + i] == s[i]);
                    assert(v@[p + i + 1] == s[i + 1]);
                }
                assert forall|n: int| n > j + 2 - p implies !#[trigger] mini_rule_matches(r as int, s, n) by {
                    if mini_rule_matches(r as int, s, n) {
                        if n == j + 3 - p {
                            assert(s[n - 2] == v@[j + 1]);
                        } else {
                            assert(s[(j - p) + 1] == '/');
                        }
                    }
                }
                return j + 2 - p;
            } else {
                assert forall|n: int| n >= 1 implies !#[trigger] mini_rule_matches(r as int, s, n) by {
                    if mini_rule_matches(r as int, s, n) {
                        let i0 = p + n - 2;
                        assert(v@[i0] == '*');
                        assert(v@[i0 + 1] == '/');
                        assert(i0 >= p + 2);
                        assert(i0 < j);
                    }
                }
                return 0;
            }
        } else {
            return 0;
        }
    } else if r == 33 {
        if len > 1 && p < len - 1 && v[p] == '/' && v[p + 1] == '/' {
            let j = run_end(v, p + 2, 4);
            assert forall|n: int| n > j - p implies !#[trigger] mini_rule_matches(r as int, s, n) by {
                if mini_rule_matches(r as int, s, n) {
                    assert(s[j - p] != '\n');
                }
            }
            return j - p;
        } else {
            return 0;
        }
    } else {
        if p < len {
            return 1;
        } else {
            return 0;
        }
    }
}

/// The best rule at `p` and the length of its lexeme.
fn mini_best_match(v: &Vec<char>, p: usize) -> (res: (usize, usize))
    requires
        p < v.len(),
    ensures
        mini_is_best(v@.skip(p as int), res.0 as int, res.1 as int),
{
    let ghost s = v@.skip(p as int);
    let mut best_r: usize = 0;
    let mut best_n: usize = 0;
    for r in 0..MINI_RULES
        invariant
            p < v.len(),
            s == v@.skip(p as int),
            best_n <= v.len() - p,
            best_n > 0 ==> best_r < r && mini_rule_matches(best_r as int, s, best_n as int),
            forall|r2: int, n2: int|
                0 <= r2 < r && #[trigger] mini_rule_matches(r2, s, n2) ==> n2 <= best_n && (n2 == best_n ==> best_r
                    <= r2),
    {
        let m = mini_rule_longest(r, v, p);
        if m > best_n {
            best_n = m;
            best_r = r;
        }
    }
    assert(mini_rule_matches(43, s, 1));
    (best_r, best_n)
}

/// Reads a string literal of the small language: drops its quotes and
/// reads its escapes.
fn mini_parse_string(v: &Vec<char>, from: usize, to: usize) -> (t: Token)
    requires
        from + 2 <= to <= v.len(),
    ensures
        t@ == MiniTokenM::StringConst(unescape(v@.subrange(from + 1, to - 1), false)),
{
    match crate::lexer::lexer::parse_string(v, from, to) {
        crate::lexer::token::Token::StringConst(s) => Token::StringConst(s),
        _ => vstd::pervasive::unreached(),
    }
}

/// Makes the token of rule `r` from the lexeme `v[from..to]`.
fn mini_make_token(r: usize, v: &Vec<char>, from: usize, to: usize) -> (t: Token)
    requires
        r < MINI_RULES,
        from < to <= v.len(),
        r == 18 ==> to - from >= 2,
    ensures
        t@ == mini_token_of(r as int, v@.subrange(from as int, to as int)),
{
    let ghost text = v@.subrange(from as int, to as int);
    if r == 0 {
        Token::Class_
    } else if 1 <= r && r <= 3 {
        Token::Function
    } else if r == 4 {
        Token::If
    } else if r == 5 {
        Token::Then
    } else if r == 6 {
        Token::Else
    } else if r == 7 {
        Token::Inherits
    } else if r == 8 {
        Token::Let
    } else if r == 9 {
        Token::While
    } else if r == 10 {
        Token::New
    } else if r == 11 {
        Token::Isvoid
    } else if r == 12 {
        Token::Not
    } else if r == 13 {
        Token::BoolConst(true)
    } else if r == 14 {
        Token::BoolConst(false)
    } else if r == 15 {
        Token::TypeId(string_of_chars(v, from, to))
    } else if r == 16 {
        Token::Identifier(string_of_chars(v, from, to))
    } else if r == 17 {
        Token::IntConst(string_of_chars(v, from, to))
    } else if r == 18 {
        let t = mini_parse_string(v, from, to);
        assert(text.subrange(1, text.len() - 1) =~= v@.subrange(from + 1, to - 1));
        t
    } else if r == 19 {
        Token::Assign
    } else if r == 20 {
        Token::Arrow
    } else if r == 21 {
        Token::Plus
    } else if r == 22 {
        Token::Minus
    } else if r == 23 {
        Token::Mul
    } else if r == 24 {
        Token::Divide
    } else if r == 25 {
        Token::Equal
    } else if r == 26 {
        Token::More
    } else if r == 27 {
        Token::MoreE
    } else if r == 28 {
        Token::Less
    } else if r == 29 {
        Token::LessE
    } else if r == 30 {
        Token::Newline
    } else if r == 31 {
        Token::Whitespace
    } else if r == 32 || r == 33 {
        Token::Comment
    } else if r == 34 {
        Token::Lbrace
    } else if r == 35 {
        Token::Rbrace
    } else if r == 36 {
        Token::Lparen
    } else if r == 37 {
        Token::Rparen
    } else if r == 38 {
        Token::Semicolon
    } else if r == 39 {
        Token::Equal
    } else if r == 40 {
        Token::Period
    } else if r == 41 {
        Token::Comma
    } else if r == 42 {
        Token::Colon
    } else {
        let mut s = String::from_str("Unexpected character: ");
        let t = string_of_chars(v, from, to);
        s.append(t.as_str());
        Token::Error(s)
    }
}

/// The first token of `s` and the length of its lexeme; nothing when `s`
/// is empty.
pub open spec fn mini_next_token(s: Seq<char>) -> Option<(MiniTokenM, int)> {
    if s.len() == 0 {
        None
    } else {
        let (r, n) = mini_best_rule(s);
        Some((mini_token_of(r, s.take(n)), n))
    }
}

/// The first token at `p` and where the text after it starts; nothing at
/// the end of the text.
pub fn next_token(v: &Vec<char>, p: usize) -> (res: Option<(Token, usize)>)
    requires
        p <= v.len(),
    ensures
        match res {
            None => mini_next_token(v@.skip(p as int)) is None,
            Some((t, q)) => p < q <= v.len() && mini_next_token(v@.skip(p as int)) == Some((t@, q - p)),
        },
{
    if p == v.len() {
        return None;
    }
    let (r, n) = mini_best_match(v, p);
    let ghost s = v@.skip(p as int);
    proof {
        lemma_mini_best_rule(s, r as int, n as int);
        assert(s.take(n as int) =~= v@.subrange(p as int, p + n));
    }
    let t = mini_make_token(r, v, p, p + n);
    Some((t, p + n))
}

/// The number of bytes that a character takes in UTF-8.
pub open spec fn utf8_len(c: char) -> int {
    if (c as u32) < 0x80 {
        1
    } else if (c as u32) < 0x800 {
        2
    } else if (c as u32) < 0x10000 {
        3
    } else {
        4
    }
}

/// The number of bytes that a text takes in UTF-8.
pub open spec fn bytes_len(s: Seq<char>) -> int
    decreases s.len(),
{
    if s.len() == 0 {
        0
    } else {
        bytes_len(s.drop_last()) + utf8_len(s.last())
    }
}

proof fn lemma_bytes_split(s: Seq<char>, n: int)
    requires
        0 <= n <= s.len(),
    ensures
        bytes_len(s) == bytes_len(s.take(n)) + bytes_len(s.skip(n)),
        bytes_len(s.take(n)) >= 0,
        bytes_len(s.skip(n)) >= 0,
    decreases s.len(),
{
    if n == s.len() {
        assert(s.take(n) =~= s);
        assert(s.skip(n) =~= Seq::<char>::empty());
        lemma_bytes_nonneg(s);
    } else {
        let t = s.drop_last();
        lemma_bytes_split(t, n);
        assert(s.take(n) =~= t.take(n));
        assert(s.skip(n).drop_last() =~= t.skip(n));
        assert(s.skip(n).last() == s.last());
    }
}

proof fn lemma_bytes_nonneg(s: Seq<char>)
    ensures
        bytes_len(s) >= s.len() >= 0,
    decreases s.len(),
{
    if s.len() > 0 {
        lemma_bytes_nonneg(s.drop_last());
    }
}

fn char_bytes(c: char) -> (n: usize)
    ensures
        n == utf8_len(c),
{
    let x = c as u32;
    if x < 0x80 {
        1
    } else if x < 0x800 {
        2
    } else if x < 0x10000 {
        3
    } else {
        4
    }
}

/// The number of bytes of `v[from..to]` in UTF-8.
fn bytes_of(v: &Vec<char>, from: usize, to: usize) -> (n: usize)
    requires
        from <= to <= v.len(),
        bytes_len(v@.subrange(from as int, to as int)) < usize::MAX,
    ensures
        n == bytes_len(v@.subrange(from as int, to as int)),
{
    let ghost whole = v@.subrange(from as int, to as int);
    let mut n: usize = 0;
    for i in from..to
        invariant
            from <= to <= v.len(),
            whole == v@.subrange(from as int, to as int),
            bytes_len(whole) < usize::MAX,
            n == bytes_len(v@.subrange(from as int, i as int)),
    {
        proof {
            lemma_bytes_split(whole, i + 1 - from);
            assert(whole.take(i + 1 - from) =~= v@.subrange(from as int, i + 1));
            assert(v@.subrange(from as int, i + 1).drop_last() =~= v@.subrange(from as int, i as int));
        }
        n = n + char_bytes(v[i]);
    }
    n
}

/// Where the lexer of the small language stands: the line it is on, the
/// byte offset reached on it, the text still to read, and the constant
/// tables.
pub ghost struct MiniLexState {
    pub line: int,
    pub offset: int,
    pub rest: Seq<char>,
    pub strings: Seq<Seq<char>>,
    pub ints: Seq<Seq<char>>,
    pub ids: Seq<Seq<char>>,
}

/// One step of the lexer: it skips white space and comments, and counts
/// lines at each newline, and hands out the next token with the line it is
/// on and the byte offset after it on that line.  String literals enter
/// the string table, integer literals the integer table and identifiers
/// the identifier table.
pub open spec fn mini_lex_next(st: MiniLexState) -> (MiniLexState, Option<(int, MiniTokenM, int)>)
    decreases st.rest.len(),
{
    if st.rest.len() == 0 {
        (st, None)
    } else {
        let (r, n) = mini_best_rule(st.rest);
        if n < 1 || n > st.rest.len() {
            (st, None)
        } else {
            let text = st.rest.take(n);
            let tok = mini_token_of(r, text);
            let st1 = MiniLexState { offset: st.offset + bytes_len(text), rest: st.rest.skip(n), ..st };
            match tok {
                MiniTokenM::Whitespace => mini_lex_next(st1),
                MiniTokenM::Comment => mini_lex_next(st1),
                MiniTokenM::Newline => mini_lex_next(MiniLexState { line: st1.line + 1, offset: 0, ..st1 }),
                _ => {
                    let st2 = match tok {
                        MiniTokenM::StringConst(v) => MiniLexState { strings: table_insert(st1.strings, v), ..st1 },
                        MiniTokenM::IntConst(v) => MiniLexState { ints: table_insert(st1.ints, v), ..st1 },
                        MiniTokenM::Identifier(v) => MiniLexState { ids: table_insert(st1.ids, v), ..st1 },
                        _ => st1,
                    };
                    (st2, Some((st1.line, tok, st1.offset)))
                },
            }
        }
    }
}

/// The lexer of the small language: it reads a text and enters the
/// constants it meets into its tables.
#[derive(Debug)]
pub struct Lexer {
    current_line: usize,
    offset: usize,
    chars: Vec<char>,
    pos: usize,
    pub tables: Tables,
}

/// Raised by no input: every character makes some token.
#[derive(Debug)]
pub struct LexicalError {}

pub open spec fn mini_lexed_view(r: Option<Result<(usize, Token, usize), LexicalError>>) -> Option<(int, MiniTokenM, int)> {
    match r {
        Some(Ok((l, t, o))) => Some((l as int, t@, o as int)),
        _ => None,
    }
}

impl Lexer {
    pub closed spec fn state(&self) -> MiniLexState {
        MiniLexState {
            line: self.current_line as int,
            offset: self.offset as int,
            rest: self.chars@.skip(self.pos as int),
            strings: table_view(self.tables.string_table@),
            ints: table_view(self.tables.int_table@),
            ids: table_view(self.tables.id_table@),
        }
    }

    pub closed spec fn wf(&self) -> bool {
        &&& self.pos <= self.chars@.len() < usize::MAX
        &&& bytes_len(self.chars@) < usize::MAX
        &&& self.offset + bytes_len(self.chars@.skip(self.pos as int)) <= bytes_len(self.chars@)
        &&& 1 <= self.current_line <= 1 + self.pos
    }

    /// A lexer at the start of `text`, on line 1, entering constants into
    /// `tables`.
    pub fn new(text: &str, tables: Tables) -> (l: Lexer)
        requires
            bytes_len(text@) < usize::MAX,
        ensures
            l.wf(),
            l.state() == (MiniLexState {
                line: 1,
                offset: 0,
                rest: text@,
                strings: table_view(tables.string_table@),
                ints: table_view(tables.int_table@),
                ids: table_view(tables.id_table@),
            }),
    {
        let chars = chars_of(text);
        let l = Lexer { current_line: 1, offset: 0, chars, pos: 0, tables };
        assert(l.chars@.skip(0) =~= l.chars@);
        proof {
            lemma_bytes_nonneg(text@);
        }
        l
    }

    /// The next token, with the line it is on and the byte offset after it
    /// on that line.
    pub fn next(&mut self) -> (r: Option<Result<(usize, Token, usize), LexicalError>>)
        requires
            old(self).wf(),
        ensures
            final(self).wf(),
            mini_lex_next(old(self).state()) == (final(self).state(), mini_lexed_view(r)),
            !(r matches Some(Err(_))),
    {
        let ghost goal = mini_lex_next(self.state());
        loop
            invariant
                self.wf(),
                goal == mini_lex_next(old(self).state()),
                mini_lex_next(self.state()) == goal,
            decreases self.chars@.len() - self.pos,
        {
            let ghost st = self.state();
            let (tok, q) = match next_token(&self.chars, self.pos) {
                None => {
                    assert(st.rest.len() == 0);
                    assert(mini_lex_next(st) == (st, None::<(int, MiniTokenM, int)>));
                    return None;
                },
                Some(x) => x,
            };
            let ghost n = q - self.pos;
            proof {
                let (r, n2) = mini_best_rule(st.rest);
                assert(n2 == n);
                assert(st.rest.skip(n) =~= self.chars@.skip(q as int));
                lemma_bytes_split(st.rest, n);
                assert(st.rest.take(n) =~= self.chars@.subrange(self.pos as int, q as int));
            }
            let b = bytes_of(&self.chars, self.pos, q);
            self.offset = self.offset + b;
            self.pos = q;
            match tok {
                Token::Whitespace => {},
                Token::Comment => {},
                Token::Newline => {
                    self.current_line = self.current_line + 1;
                    self.offset = 0;
                    proof {
                        lemma_bytes_nonneg(self.chars@.skip(self.pos as int));
                        lemma_bytes_split(self.chars@, self.pos as int);
                    }
                },
                Token::StringConst(text) => {
                    table_add(&mut self.tables.string_table, text.clone());
                    return Some(Ok((self.current_line, Token::StringConst(text), self.offset)));
                },
                Token::IntConst(text) => {
                    table_add(&mut self.tables.int_table, text.clone());
                    return Some(Ok((self.current_line, Token::IntConst(text), self.offset)));
                },
                Token::Identifier(text) => {
                    table_add(&mut self.tables.id_table, text.clone());
                    return Some(Ok((self.current_line, Token::Identifier(text), self.offset)));
                },
                token => {
                    return Some(Ok((self.current_line, token, self.offset)));
                },
            }
        }
    }
}

} // verus!
