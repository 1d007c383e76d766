use vstd::prelude::*;

verus! {

/// A single match: the half-open character range `(start, end)` of one
/// occurrence of the pattern in a line.
pub type SearchResult = Option<(usize, usize)>;

/// Every match of the pattern in a line, left to right.
pub type SearchResults = Option<Vec<(usize, usize)>>;

/// Whether a line holds the pattern at all.
pub type ReverseResult = bool;

/// The non-empty pattern `p` occurs in `t` starting at character `i`.
pub open spec fn occurs_at(p: Seq<char>, t: Seq<char>, i: int) -> bool {
    &&& p.len() > 0
    &&& 0 <= i
    &&& i + p.len() <= t.len()
    &&& t.subrange(i, i + p.len()) == p
}

/// `t` holds at least one occurrence of `p`.
pub open spec fn has_match(p: Seq<char>, t: Seq<char>) -> bool {
    exists|i: int| occurs_at(p, t, i)
}

/// `r` is the leftmost occurrence of `p` in `t`, or `None` when there is none.
pub open spec fn is_leftmost(p: Seq<char>, t: Seq<char>, r: SearchResult) -> bool {
    match r {
        Some(s) => {
            &&& occurs_at(p, t, s.0 as int)
            &&& s.1 == s.0 + p.len()
            &&& forall|i: int| 0 <= i < s.0 ==> !occurs_at(p, t, i)
        },
        None => !has_match(p, t),
    }
}

/// `r` is the rightmost occurrence of `p` in `t`, or `None` when there is none.
pub open spec fn is_rightmost(p: Seq<char>, t: Seq<char>, r: SearchResult) -> bool {
    match r {
        Some(s) => {
            &&& occurs_at(p, t, s.0 as int)
            &&& s.1 == s.0 + p.len()
            &&& forall|i: int| i > s.0 ==> !occurs_at(p, t, i)
        },
        None => !has_match(p, t),
    }
}

/// The spans of all occurrences of `p` in `t` that start before `n`, in
/// increasing order of their start; overlapping occurrences are all kept.
pub open spec fn occurrences_before(p: Seq<char>, t: Seq<char>, n: int) -> Seq<(int, int)>
    decreases n,
{
    if n <= 0 {
        Seq::empty()
    } else if occurs_at(p, t, n - 1) {
        occurrences_before(p, t, n - 1).push((n - 1, n - 1 + p.len()))
    } else {
        occurrences_before(p, t, n - 1)
    }
}

/// All occurrences of `p` in `t`, left to right, or `None` when there is none.
pub open spec fn all_matches(p: Seq<char>, t: Seq<char>) -> Option<Seq<(int, int)>> {
    let v = occurrences_before(p, t, t.len() as int);
    if v.len() == 0 {
        None
    } else {
        Some(v)
    }
}

/// Spans as integers.
pub open spec fn int_spans(v: Seq<(usize, usize)>) -> Seq<(int, int)> {
    v.map_values(|s: (usize, usize)| (s.0 as int, s.1 as int))
}

/// The spans of a search result, as integers.
pub open spec fn spans_view(r: SearchResults) -> Option<Seq<(int, int)>> {
    match r {
        Some(v) => Some(int_spans(v@)),
        None => None,
    }
}

/// Each listed span is an occurrence of `p` in `t`, as long as `p`.
pub proof fn lemma_occurrences_are_matches(p: Seq<char>, t: Seq<char>, n: int)
    ensures
        forall|k: int|
            0 <= k < occurrences_before(p, t, n).len() ==> {
                let s = #[trigger] occurrences_before(p, t, n)[k];
                occurs_at(p, t, s.0) && s.1 == s.0 + p.len()
            },
    decreases n,
{
    if n > 0 {
        lemma_occurrences_are_matches(p, t, n - 1);
        let prev = occurrences_before(p, t, n - 1);
        assert forall|k: int| 0 <= k < occurrences_before(p, t, n).len() implies {
            let s = #[trigger] occurrences_before(p, t, n)[k];
            occurs_at(p, t, s.0) && s.1 == s.0 + p.len()
        } by {
            if k < prev.len() {
                assert(occurrences_before(p, t, n)[k] == prev[k]);
            }
        }
    }
}

/// An occurrence starting before `n` makes the list of occurrences before
/// `n` non-empty.
pub proof fn lemma_match_is_listed(p: Seq<char>, t: Seq<char>, i: int, n: int)
    requires
        occurs_at(p, t, i),
        i < n,
    ensures
        occurrences_before(p, t, n).len() > 0,
    decreases n,
{
    if i < n - 1 {
        lemma_match_is_listed(p, t, i, n - 1);
    }
}

/// Searching for all matches finds none exactly when the line does not
/// contain the pattern.
pub proof fn lemma_all_none_iff_no_match(p: Seq<char>, t: Seq<char>)
    ensures
        all_matches(p, t) is None <==> !has_match(p, t),
{
    let occ = occurrences_before(p, t, t.len() as int);
    lemma_occurrences_are_matches(p, t, t.len() as int);
    if occ.len() > 0 {
        assert(occurs_at(p, t, occ[0].0));
    }
    if has_match(p, t) {
        let i = choose|i: int| occurs_at(p, t, i);
        lemma_match_is_listed(p, t, i, t.len() as int);
    }
}

/// A leftmost search has one possible result for given inputs, so repeating
/// it gives the same answer.
pub proof fn lemma_leftmost_unique(p: Seq<char>, t: Seq<char>, r1: SearchResult, r2: SearchResult)
    requires
        is_leftmost(p, t, r1),
        is_leftmost(p, t, r2),
    ensures
        r1 == r2,
{
    if let (Some(a), Some(b)) = (r1, r2) {
        if a.0 < b.0 {
            assert(!occurs_at(p, t, a.0 as int));
        }
        if b.0 < a.0 {
            assert(!occurs_at(p, t, b.0 as int));
        }
    } else if let Some(a) = r1 {
        assert(occurs_at(p, t, a.0 as int));
    } else if let Some(b) = r2 {
        assert(occurs_at(p, t, b.0 as int));
    }
}

/// A rightmost search has one possible result for given inputs, so
/// repeating it gives the same answer.
pub proof fn lemma_rightmost_unique(p: Seq<char>, t: Seq<char>, r1: SearchResult, r2: SearchResult)
    requires
        is_rightmost(p, t, r1),
        is_rightmost(p, t, r2),
    ensures
        r1 == r2,
{
    if let (Some(a), Some(b)) = (r1, r2) {
        if a.0 < b.0 {
            assert(!occurs_at(p, t, b.0 as int));
        }
        if b.0 < a.0 {
            assert(!occurs_at(p, t, a.0 as int));
        }
    } else if let Some(a) = r1 {
        assert(occurs_at(p, t, a.0 as int));
    } else if let Some(b) = r2 {
        assert(occurs_at(p, t, b.0 as int));
    }
}

/// The leftmost match of `p` spans the whole line exactly when the pattern
/// is non-empty, as long as the line, and equal to it.
pub proof fn lemma_whole_line_match(p: Seq<char>, t: Seq<char>, r: SearchResult)
    requires
        is_leftmost(p, t, r),
    ensures
        (r matches Some(s) && s.0 == 0 && s.1 == t.len()) <==> (p.len() > 0 && p.len() == t.len()
            && t == p),
{
    if let Some(s) = r {
        if s.0 == 0 && s.1 == t.len() {
            assert(t =~= t.subrange(0, p.len() as int));
        }
    }
    if p.len() > 0 && t == p {
        assert(t.subrange(0, p.len() as int) =~= p);
        assert(occurs_at(p, t, 0));
    }
}

/// A substring search strategy.
pub trait Searcher {
    /// The leftmost occurrence of `pattern` in `source`.
    fn search_left(&self, pattern: &str, source: &str) -> (r: SearchResult)
        ensures
            is_leftmost(pattern@, source@, r),
    ;

    /// The rightmost occurrence of `pattern` in `source`.
    fn search_right(&self, pattern: &str, source: &str) -> (r: SearchResult)
        ensures
            is_rightmost(pattern@, source@, r),
    ;

    /// Every occurrence of `pattern` in `source`, left to right; `None`
    /// rather than an empty list when there is none.
    fn search_all(&self, pattern: &str, source: &str) -> (r: SearchResults)
        ensures
            spans_view(r) == all_matches(pattern@, source@),
    ;

    /// Whether `source` holds `pattern` at all.
    fn contains_match(&self, pattern: &str, source: &str) -> (r: ReverseResult)
        ensures
            r == has_match(pattern@, source@),
    ;
}

} // verus!
