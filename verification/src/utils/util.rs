use vstd::prelude::*;

verus! {

/// Items that `do_vecs_match` can compare, with what equality means for them.
pub trait MatchItem: Sized {
    spec fn same(&self, other: &Self) -> bool;

    fn matches(&self, other: &Self) -> (r: bool)
        ensures
            r == self.same(other),
    ;
}

impl MatchItem for String {
    open spec fn same(&self, other: &Self) -> bool {
        self@ == other@
    }

    fn matches(&self, other: &Self) -> (r: bool) {
        *self == *other
    }
}

impl MatchItem for (String, String) {
    open spec fn same(&self, other: &Self) -> bool {
        self.0@ == other.0@ && self.1@ == other.1@
    }

    fn matches(&self, other: &Self) -> (r: bool) {
        self.0 == other.0 && self.1 == other.1
    }
}

/// Two sequences match when they have the same length and agree at every index.
pub open spec fn seqs_match<T: MatchItem>(a: Seq<T>, b: Seq<T>) -> bool {
    a.len() == b.len() && forall|i: int| 0 <= i < a.len() ==> #[trigger] a[i].same(&b[i])
}

/// Counts the positions where `a` and `b` agree, over the shorter of the two,
/// and reports whether that count is the length of both.
pub fn do_vecs_match<T: MatchItem>(a: &Vec<T>, b: &Vec<T>) -> (r: bool)
    ensures
        r == seqs_match(a@, b@),
{
    let n = if a.len() < b.len() {
        a.len()
    } else {
        b.len()
    };
    let mut matching: usize = 0;
    let mut all: bool = true;
    for i in 0..n
        invariant
            n <= a.len(),
            n <= b.len(),
            n == a.len() || n == b.len(),
            matching <= i,
            all == (matching == i),
            all == (forall|j: int| 0 <= j < i ==> #[trigger] a@[j].same(&b@[j])),
    {
        if a[i].matches(&b[i]) {
            matching = matching + 1;
        } else {
            all = false;
        }
    }
    matching == a.len() && matching == b.len()
}

/// Rounds `raw` up to the next multiple of 16.
pub open spec fn spec_align_to_16(raw: int) -> int {
    ((raw + 15) / 16) * 16
}

/// Rounds a byte count up to a multiple of 16, as the stack layout demands.
pub fn align_to_16_bit(raw: usize) -> (r: usize)
    requires
        raw + 15 <= usize::MAX,
    ensures
        r == spec_align_to_16(raw as int),
        r % 16 == 0,
        raw <= r < raw + 16,
{
    let x: usize = raw + 15;
    let r: usize = x & !15usize;
    assert(x & !15usize == x - x % 16) by (bit_vector);
    r
}

/// The text with every tab replaced by four spaces.
pub open spec fn expand_tabs(s: Seq<char>) -> Seq<char>
    decreases s.len(),
{
    if s.len() == 0 {
        Seq::empty()
    } else if s.last() == '\t' {
        expand_tabs(s.drop_last()) + seq![' ', ' ', ' ', ' ']
    } else {
        expand_tabs(s.drop_last()).push(s.last())
    }
}

/// Appends one character to a string.
#[verifier::external_body]
pub(crate) fn push_char(s: &mut String, c: char)
    ensures
        final(s)@ == old(s)@.push(c),
{
    s.push(c)
}

/// The characters of a string, in order.
pub fn chars_of(s: &str) -> (v: Vec<char>)
    ensures
        v@ == s@,
{
    let n = s.unicode_len();
    let mut v: Vec<char> = Vec::new();
    for i in 0..n
        invariant
            n == s@.len(),
            v@ == s@.take(i as int),
    {
        let c = s.get_char(i);
        v.push(c);
        assert(s@.take(i + 1) =~= s@.take(i as int).push(c));
    }
    assert(s@.take(n as int) =~= s@);
    v
}

/// A string made of `v[from..to]`.
pub fn string_of_chars(v: &Vec<char>, from: usize, to: usize) -> (s: String)
    requires
        from <= to <= v.len(),
    ensures
        s@ == v@.subrange(from as int, to as int),
{
    let mut s = String::new();
    for i in from..to
        invariant
            from <= to <= v.len(),
            s@ == v@.subrange(from as int, i as int),
    {
        push_char(&mut s, v[i]);
        assert(v@.subrange(from as int, i + 1) =~= v@.subrange(from as int, i as int).push(v@[i as int]));
    }
    s
}

/// Replaces every tab of the text by four spaces, so that columns count
/// one per character.
pub fn fix_offset(raw: String) -> (r: String)
    ensures
        r@ == expand_tabs(raw@),
{
    let chars = chars_of(raw.as_str());
    let mut result = String::new();
    for i in 0..chars.len()
        invariant
            chars@ == raw@,
            result@ == expand_tabs(chars@.take(i as int)),
    {
        let c = chars[i];
        assert(chars@.take(i + 1).drop_last() =~= chars@.take(i as int));
        if c == '\t' {
            push_char(&mut result, ' ');
            push_char(&mut result, ' ');
            push_char(&mut result, ' ');
            push_char(&mut result, ' ');
            assert(result@ =~= expand_tabs(chars@.take(i as int)) + seq![' ', ' ', ' ', ' ']);
        } else {
            push_char(&mut result, c);
        }
    }
    assert(chars@.take(chars@.len() as int) =~= chars@);
    result
}

/// The pieces of a text between its newlines: one more than it has
/// newlines.
pub open spec fn split_nl(s: Seq<char>) -> Seq<Seq<char>>
    decreases s.len(),
{
    if s.len() == 0 {
        seq![Seq::empty()]
    } else if s.last() == '\n' {
        split_nl(s.drop_last()).push(Seq::empty())
    } else {
        let p = split_nl(s.drop_last());
        p.update(p.len() - 1, p.last().push(s.last()))
    }
}

/// A line ended by a newline, without the carriage return before it.
pub open spec fn strip_cr(l: Seq<char>) -> Seq<char> {
    if l.len() > 0 && l.last() == '\r' {
        l.drop_last()
    } else {
        l
    }
}

/// The lines of a text: each piece ended by a newline, without a carriage
/// return just before that newline, then the piece after the last newline
/// unless it is empty.
pub open spec fn text_lines(s: Seq<char>) -> Seq<Seq<char>> {
    let p = split_nl(s);
    p.drop_last().map_values(|l: Seq<char>| strip_cr(l)) + if p.last().len() > 0 {
        seq![p.last()]
    } else {
        Seq::empty()
    }
}

proof fn lemma_split_nl_len(s: Seq<char>)
    ensures
        split_nl(s).len() >= 1,
    decreases s.len(),
{
    if s.len() > 0 {
        lemma_split_nl_len(s.drop_last());
    }
}

/// The pieces of a prefix that a newline ended are pieces of the whole
/// text.
proof fn lemma_split_nl_prefix(s: Seq<char>, i: int, k: int)
    requires
        0 <= i <= s.len(),
        0 <= k < split_nl(s.take(i)).len() - 1,
    ensures
        k < split_nl(s).len() - 1,
        split_nl(s)[k] == split_nl(s.take(i))[k],
    decreases s.len(),
{
    if i == s.len() {
        assert(s.take(i) =~= s);
    } else {
        let t = s.drop_last();
        assert(s.take(i) =~= t.take(i));
        lemma_split_nl_prefix(t, i, k);
        lemma_split_nl_len(t);
    }
}

/// Line `row` of a text, counting from 1, as `str::lines` gives it;
/// nothing when the text has fewer lines.
pub fn source_line(content: &str, row: usize) -> (r: Option<String>)
    ensures
        match r {
            Some(l) => 1 <= row <= text_lines(content@).len() && l@ == text_lines(content@)[row - 1],
            None => !(1 <= row <= text_lines(content@).len()),
        },
{
    let ghost s = content@;
    proof {
        lemma_split_nl_len(s);
    }
    if row == 0 {
        return None;
    }
    let v = chars_of(content);
    let mut k: usize = 0;
    let mut cur = String::new();
    assert(v@.take(0) =~= Seq::<char>::empty());
    for i in 0..v.len()
        invariant
            v@ == s,
            s == content@,
            row >= 1,
            split_nl(v@.take(i as int)).len() == k + 1,
            cur@ == split_nl(v@.take(i as int)).last(),
            k < row,
    {
        let ghost p = split_nl(v@.take(i as int));
        assert(v@.take(i + 1).drop_last() =~= v@.take(i as int));
        assert(v@.take(i + 1).last() == v@[i as int]);
        if v[i] == '\n' {
            if k == row - 1 {
                proof {
                    lemma_split_nl_prefix(s, i + 1, k as int);
                    lemma_split_nl_len(s);
                    assert(split_nl(v@.take(i + 1))[k as int] == cur@);
                }
                let n = cur.unicode_len();
                let l = if n > 0 && cur.get_char(n - 1) == '\r' {
                    let t = cur.as_str().substring_char(0, n - 1);
                    assert(t@ =~= cur@.drop_last());
                    String::from_str(t)
                } else {
                    cur
                };
                proof {
                    let q = split_nl(s);
                    assert(l@ == strip_cr(q[k as int]));
                    assert(q.drop_last().map_values(|x: Seq<char>| strip_cr(x))[k as int] == strip_cr(q[k as int]));
                    assert(text_lines(s)[k as int] == strip_cr(q[k as int]));
                    assert(text_lines(s).len() >= q.len() - 1);
                    assert(k < q.len() - 1);
                }
                return Some(l);
            }
            k = k + 1;
            cur = String::new();
            assert(cur@ =~= Seq::<char>::empty());
        } else {
            let ghost c0 = cur@;
            push_char(&mut cur, v[i]);
        }
    }
    assert(v@.take(v@.len() as int) =~= s);
    if k == row - 1 && cur.unicode_len() > 0 {
        Some(cur)
    } else {
        None
    }
}

} // verus!
