use vstd::prelude::*;

use crate::searcher::{
    all_matches, has_match, is_leftmost, is_rightmost, occurrences_before, occurs_at, spans_view,
    ReverseResult, SearchResult, SearchResults, Searcher,
};
use crate::text::chars_of;

verus! {

/// One symbol of the text the prefix function runs over: a character, or the
/// separator placed between a pattern and the text searched, which equals no
/// character.
#[derive(PartialEq, Eq, Structural, Clone, Copy, Debug)]
pub enum Symbol {
    Char(char),
    Separator,
}

/// The symbols of a character sequence.
pub open spec fn symbols(s: Seq<char>) -> Seq<Symbol> {
    Seq::new(s.len(), |i: int| char_symbol(s[i]))
}

/// The symbol of one character.
pub open spec fn char_symbol(c: char) -> Symbol {
    Symbol::Char(c)
}

proof fn lemma_symbols(s: Seq<char>)
    ensures
        symbols(s).len() == s.len(),
        forall|i: int| 0 <= i < s.len() ==> #[trigger] symbols(s)[i] == Symbol::Char(s[i]),
{
}

proof fn lemma_joined(p: Seq<char>, t: Seq<char>)
    ensures
        joined(p, t).len() == p.len() + 1 + t.len(),
        forall|x: int| 0 <= x < p.len() ==> #[trigger] joined(p, t)[x] == Symbol::Char(p[x]),
        joined(p, t)[p.len() as int] == Symbol::Separator,
        forall|y: int|
            0 <= y < t.len() ==> #[trigger] joined(p, t)[p.len() + 1 + y] == Symbol::Char(t[y]),
{
    lemma_symbols(p);
    lemma_symbols(t);
    let a = symbols(p) + seq![Symbol::Separator];
    assert(a.len() == p.len() + 1);
    assert forall|y: int| 0 <= y < t.len() implies #[trigger] joined(p, t)[p.len() + 1 + y]
        == Symbol::Char(t[y]) by {
        assert((a + symbols(t))[a.len() + y] == symbols(t)[y]);
    }
}

/// `b` is the length of a proper border of the first `n` symbols of `s`: a
/// prefix of `s[..n]` shorter than `n` that is also its suffix.
pub open spec fn is_border(s: Seq<Symbol>, n: int, b: int) -> bool {
    &&& 0 <= b < n <= s.len()
    &&& s.subrange(0, b) == s.subrange(n - b, n)
}

/// `b` is the longest proper border of `s[..n]`.
pub open spec fn is_longest_border(s: Seq<Symbol>, n: int, b: int) -> bool {
    &&& is_border(s, n, b)
    &&& forall|c: int| #[trigger] is_border(s, n, c) ==> c <= b
}

/// `pi` is the prefix function of `s`.
pub open spec fn is_prefix_function(s: Seq<Symbol>, pi: Seq<usize>) -> bool {
    &&& pi.len() == s.len()
    &&& forall|i: int| 0 <= i < s.len() ==> is_longest_border(s, i + 1, #[trigger] pi[i] as int)
}

proof fn lemma_border_of_border(s: Seq<Symbol>, n: int, k: int, m: int)
    requires
        is_border(s, n, k),
        is_border(s, n, m),
        m < k,
    ensures
        is_border(s, k, m),
{
    assert forall|t: int| 0 <= t < m implies #[trigger] s.subrange(0, m)[t] == s.subrange(
        k - m,
        k,
    )[t] by {
        assert(s.subrange(0, m)[t] == s.subrange(n - m, n)[t]);
        assert(s.subrange(0, k)[k - m + t] == s.subrange(n - k, n)[k - m + t]);
    }
    assert(s.subrange(0, m) =~= s.subrange(k - m, k));
}

proof fn lemma_border_trans(s: Seq<Symbol>, n: int, k: int, c: int)
    requires
        is_border(s, n, k),
        is_border(s, k, c),
    ensures
        is_border(s, n, c),
{
    assert forall|t: int| 0 <= t < c implies #[trigger] s.subrange(0, c)[t] == s.subrange(
        n - c,
        n,
    )[t] by {
        assert(s.subrange(0, c)[t] == s.subrange(k - c, k)[t]);
        assert(s.subrange(0, k)[k - c + t] == s.subrange(n - k, n)[k - c + t]);
    }
    assert(s.subrange(0, c) =~= s.subrange(n - c, n));
}

proof fn lemma_border_extend(s: Seq<Symbol>, n: int, k: int)
    requires
        is_border(s, n, k),
        n < s.len(),
        s[k] == s[n],
    ensures
        is_border(s, n + 1, k + 1),
{
    assert forall|t: int| 0 <= t < k + 1 implies #[trigger] s.subrange(0, k + 1)[t]
        == s.subrange(n - k, n + 1)[t] by {
        if t < k {
            assert(s.subrange(0, k)[t] == s.subrange(n - k, n)[t]);
        }
    }
    assert(s.subrange(0, k + 1) =~= s.subrange(n - k, n + 1));
}

proof fn lemma_border_shrink(s: Seq<Symbol>, n: int, b: int)
    requires
        is_border(s, n + 1, b),
        b >= 1,
    ensures
        is_border(s, n, b - 1),
        s[b - 1] == s[n],
{
    assert forall|t: int| 0 <= t < b - 1 implies #[trigger] s.subrange(0, b - 1)[t]
        == s.subrange(n - b + 1, n)[t] by {
        assert(s.subrange(0, b)[t] == s.subrange(n + 1 - b, n + 1)[t]);
    }
    assert(s.subrange(0, b - 1) =~= s.subrange(n - b + 1, n));
    assert(s.subrange(0, b)[b - 1] == s.subrange(n + 1 - b, n + 1)[b - 1]);
}

/// The prefix function of `s`: for each position `i`, the length of the
/// longest proper prefix of `s[..=i]` that is also its suffix. Undefined, and
/// so `None`, for sequences of at most one symbol.
pub fn prefix_function(s: &Vec<Symbol>) -> (r: Option<Vec<usize>>)
    ensures
        r is None <==> s@.len() <= 1,
        r matches Some(pi) ==> is_prefix_function(s@, pi@),
{
    if s.len() <= 1 {
        return None;
    }
    let mut pi: Vec<usize> = Vec::new();
    pi.push(0);
    proof {
        assert forall|c: int| #[trigger] is_border(s@, 1, c) implies c <= 0 by {}
        assert(s@.subrange(0, 0) =~= s@.subrange(1, 1));
    }
    let mut i: usize = 1;
    while i < s.len()
        invariant
            1 <= i <= s@.len(),
            pi@.len() == i,
            forall|j: int| 0 <= j < i ==> is_longest_border(s@, j + 1, #[trigger] pi@[j] as int),
        decreases s@.len() - i,
    {
        let mut k: usize = pi[i - 1];
        proof {
            assert(is_longest_border(s@, i as int, pi@[i - 1] as int));
        }
        while k > 0 && s[k] != s[i]
            invariant
                1 <= i < s@.len(),
                pi@.len() == i,
                forall|j: int| 0 <= j < i ==> is_longest_border(s@, j + 1, #[trigger] pi@[j] as int),
                is_border(s@, i as int, k as int),
                forall|m: int|
                    k < m < i && #[trigger] is_border(s@, i as int, m) ==> s@[m] != s@[i as int],
            decreases k,
        {
            let next: usize = pi[k - 1];
            proof {
                let kk = k as int;
                assert(is_longest_border(s@, kk, next as int));
                lemma_border_trans(s@, i as int, kk, next as int);
                assert forall|m: int|
                    next < m < i && #[trigger] is_border(s@, i as int, m) implies s@[m] != s@[i as int] by {
                    if m < kk {
                        lemma_border_of_border(s@, i as int, kk, m);
                    }
                }
            }
            k = next;
        }
        if s[k] == s[i] {
            proof {
                lemma_border_extend(s@, i as int, k as int);
            }
            k = k + 1;
        } else {
            proof {
                assert(s@.subrange(0, 0) =~= s@.subrange(i as int + 1, i as int + 1));
            }
        }
        proof {
            let ii = i as int;
            assert forall|c: int| #[trigger] is_border(s@, ii + 1, c) implies c <= k by {
                if c > k {
                    lemma_border_shrink(s@, ii, c);
                }
            }
        }
        pi.push(k);
        i = i + 1;
    }
    Some(pi)
}


/// The symbols that the search runs over: the pattern, the separator, then
/// the text.
pub open spec fn joined(p: Seq<char>, t: Seq<char>) -> Seq<Symbol> {
    symbols(p) + seq![Symbol::Separator] + symbols(t)
}

fn push_symbols(out: &mut Vec<Symbol>, s: &str)
    ensures
        final(out)@ == old(out)@ + symbols(s@),
{
    let cs = chars_of(s);
    let ghost start = out@;
    proof {
        lemma_symbols(s@);
    }
    let mut i: usize = 0;
    while i < cs.len()
        invariant
            cs@ == s@,
            i <= cs@.len(),
            out@ == start + symbols(s@).subrange(0, i as int),
        decreases cs@.len() - i,
    {
        out.push(Symbol::Char(cs[i]));
        i = i + 1;
        proof {
            assert(symbols(s@)[i - 1] == Symbol::Char(s@[i - 1]));
        }
        proof {
            assert(symbols(s@).subrange(0, i as int) =~= symbols(s@).subrange(0, i - 1).push(
                Symbol::Char(s@[i - 1]),
            ));
        }
    }
    proof {
        assert(symbols(s@).subrange(0, i as int) =~= symbols(s@));
    }
}

/// The prefix function of the characters of `source`; `None` for strings of
/// at most one character.
pub fn prefix(source: &str) -> (r: Option<Vec<usize>>)
    ensures
        r is None <==> source@.len() <= 1,
        r matches Some(pi) ==> is_prefix_function(symbols(source@), pi@),
{
    let mut s: Vec<Symbol> = Vec::new();
    push_symbols(&mut s, source);
    proof {
        lemma_symbols(source@);
        assert(s@ =~= symbols(source@));
    }
    prefix_function(&s)
}

/// The prefix function of `pattern`, the separator and `source`, joined.
fn pre_calc(pattern: &str, source: &str) -> (r: Option<Vec<usize>>)
    ensures
        r is None <==> joined(pattern@, source@).len() <= 1,
        r matches Some(pi) ==> is_prefix_function(joined(pattern@, source@), pi@),
{
    let mut s: Vec<Symbol> = Vec::new();
    push_symbols(&mut s, pattern);
    s.push(Symbol::Separator);
    push_symbols(&mut s, source);
    proof {
        lemma_joined(pattern@, source@);
        assert(s@ =~= joined(pattern@, source@));
    }
    prefix_function(&s)
}

/// Over the joined sequence, a border ending at `j` is as long as the pattern
/// exactly when the pattern occurs in the text ending just before `j - |p| + 1`.
proof fn lemma_full_border_is_match(p: Seq<char>, t: Seq<char>, j: int, b: int)
    requires
        p.len() >= 1,
        0 <= j < joined(p, t).len(),
        is_longest_border(joined(p, t), j + 1, b),
    ensures
        b == p.len() <==> (j >= 2 * p.len() && occurs_at(p, t, j - 2 * p.len())),
{
    let c = joined(p, t);
    let m = p.len() as int;
    lemma_joined(p, t);
    // No border reaches past the separator.
    assert forall|b2: int| #[trigger] is_border(c, j + 1, b2) implies b2 <= m by {
        if b2 > m {
            assert(c.subrange(0, b2)[m] == c.subrange(j + 1 - b2, j + 1)[m]);
            assert(c[m + 1 + (j - b2)] == Symbol::Char(t[j - b2]));
        }
    }
    if j >= 2 * m && occurs_at(p, t, j - 2 * m) {
        assert forall|x: int| 0 <= x < m implies #[trigger] c.subrange(0, m)[x] == c.subrange(
            j + 1 - m,
            j + 1,
        )[x] by {
            assert(t.subrange(j - 2 * m, j - m)[x] == p[x]);
            assert(c[m + 1 + (j - 2 * m + x)] == Symbol::Char(t[j - 2 * m + x]));
        }
        assert(c.subrange(0, m) =~= c.subrange(j + 1 - m, j + 1));
        assert(is_border(c, j + 1, m));
    }
    if b == m {
        if j < 2 * m {
            let x = 2 * m - j - 1;
            assert(c.subrange(0, m)[x] == c.subrange(j + 1 - m, j + 1)[x]);
        }
        assert forall|y: int| 0 <= y < m implies #[trigger] t.subrange(j - 2 * m, j - m)[y]
            == p[y] by {
            assert(c.subrange(0, m)[y] == c.subrange(j + 1 - m, j + 1)[y]);
            assert(c[m + 1 + (j - 2 * m + y)] == Symbol::Char(t[j - 2 * m + y]));
        }
        assert(t.subrange(j - 2 * m, j - m) =~= p);
    }
}

/// The Knuth-Morris-Pratt search strategy.
#[derive(Debug, Default)]
pub struct KnuthMorrisPratt {}

/// Which end of the line a single-match search starts from.
pub enum Side {
    Left,
    Right,
}

proof fn lemma_no_late_occurrences(p: Seq<char>, t: Seq<char>, a: int, b: int)
    requires
        p.len() >= 1,
        a <= b,
        a >= t.len() - p.len() + 1,
    ensures
        occurrences_before(p, t, b) == occurrences_before(p, t, a),
    decreases b - a,
{
    if b > a {
        lemma_no_late_occurrences(p, t, a, b - 1);
    }
}

proof fn lemma_empty_pattern_no_occurrences(p: Seq<char>, t: Seq<char>, n: int)
    requires
        p.len() == 0,
    ensures
        occurrences_before(p, t, n).len() == 0,
    decreases n,
{
    if n > 0 {
        lemma_empty_pattern_no_occurrences(p, t, n - 1);
    }
}

impl KnuthMorrisPratt {
    /// The leftmost or rightmost occurrence of `pattern` in `source`.
    pub fn search_core(&self, pattern: &str, source: &str, side: Side) -> (r: SearchResult)
        ensures
            side is Left ==> is_leftmost(pattern@, source@, r),
            side is Right ==> is_rightmost(pattern@, source@, r),
    {
        let m = chars_of(pattern).len();
        let ghost p = pattern@;
        let ghost t = source@;
        proof {
            lemma_joined(p, t);
        }
        if m == 0 {
            return None;
        }
        let v = match pre_calc(pattern, source) {
            Some(v) => v,
            None => return None,
        };
        assert(v@.len() == m + 1 + t.len());
        match side {
            Side::Left => {
                let mut j: usize = m;
                while j < v.len()
                    invariant
                        side is Left,
                        p == pattern@,
                        t == source@,
                        m == p.len() >= 1,
                        is_prefix_function(joined(p, t), v@),
                        m <= j <= v@.len(),
                        forall|i: int| 0 <= i && i + 2 * m < j ==> !#[trigger] occurs_at(p, t, i),
                    decreases v@.len() - j,
                {
                    proof {
                        lemma_full_border_is_match(p, t, j as int, v@[j as int] as int);
                    }
                    if v[j] == m {
                        return Some((j - m - m, j - m));
                    }
                    j = j + 1;
                }
                None
            },
            Side::Right => {
                let mut j: usize = v.len();
                while j > m
                    invariant
                        side is Right,
                        p == pattern@,
                        t == source@,
                        m == p.len() >= 1,
                        is_prefix_function(joined(p, t), v@),
                        m <= j <= v@.len(),
                        forall|i: int| i + 2 * m >= j ==> !#[trigger] occurs_at(p, t, i),
                    decreases j,
                {
                    j = j - 1;
                    proof {
                        lemma_full_border_is_match(p, t, j as int, v@[j as int] as int);
                    }
                    if v[j] == m {
                        return Some((j - m - m, j - m));
                    }
                }
                None
            },
        }
    }
}

impl Searcher for KnuthMorrisPratt {
    fn search_left(&self, pattern: &str, source: &str) -> (r: SearchResult) {
        self.search_core(pattern, source, Side::Left)
    }

    fn search_right(&self, pattern: &str, source: &str) -> (r: SearchResult) {
        self.search_core(pattern, source, Side::Right)
    }

    fn search_all(&self, pattern: &str, source: &str) -> (r: SearchResults) {
        let m = chars_of(pattern).len();
        let ghost p = pattern@;
        let ghost t = source@;
        proof {
            lemma_joined(p, t);
        }
        if m == 0 {
            proof {
                assert(occurrences_before(p, t, t.len() as int) =~= Seq::<(int, int)>::empty())
                    by {
                    lemma_empty_pattern_no_occurrences(p, t, t.len() as int);
                }
            }
            return None;
        }
        let v = match pre_calc(pattern, source) {
            Some(v) => v,
            None => return None,
        };
        assert(v@.len() == m + 1 + t.len());
        let mut result: Vec<(usize, usize)> = Vec::new();
        let mut j: usize = m;
        while j < v.len()
            invariant
                p == pattern@,
                t == source@,
                m == p.len() >= 1,
                is_prefix_function(joined(p, t), v@),
                m <= j <= v@.len(),
                result@.map_values(|s: (usize, usize)| (s.0 as int, s.1 as int))
                    == occurrences_before(p, t, j - 2 * m),
            decreases v@.len() - j,
        {
            proof {
                lemma_full_border_is_match(p, t, j as int, v@[j as int] as int);
            }
            let ghost before = result@;
            if v[j] == m {
                result.push((j - m - m, j - m));
                proof {
                    assert(result@.map_values(|s: (usize, usize)| (s.0 as int, s.1 as int))
                        =~= before.map_values(|s: (usize, usize)| (s.0 as int, s.1 as int)).push(
                        ((j - 2 * m) as int, (j - m) as int),
                    ));
                }
            }
            j = j + 1;
        }
        proof {
            lemma_no_late_occurrences(p, t, j - 2 * m, t.len() as int);
        }
        if result.len() == 0 {
            None
        } else {
            Some(result)
        }
    }

    fn contains_match(&self, pattern: &str, source: &str) -> (r: ReverseResult) {
        let found = self.search_core(pattern, source, Side::Left);
        found.is_some()
    }
}

} // verus!
