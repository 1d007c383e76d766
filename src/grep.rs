use vstd::prelude::*;

use crate::arguments::{Algo, Args, Mode, ShowConfig};
use crate::grep_error::{ErrorType, GrepResult};
use crate::kmp::KnuthMorrisPratt;
use crate::printer::{
    construct_line, construct_line_all, construct_reverse_line, number_prefix, shows_all,
    shows_window,
};
use crate::searcher::{
    has_match, int_spans, is_leftmost, is_rightmost, lemma_match_is_listed, lemma_occurrences_are_matches,
    occurrences_before, occurs_at, SearchResult, Searcher,
};
use crate::text::{chars_of, lower_of, lowercase};

verus! {

/// One normalization step applied to the pattern and to every line.
#[derive(Debug, Clone, Copy, PartialEq, Eq, Structural)]
pub enum Transform {
    Lowercase,
}

/// The result of one normalization step.
pub open spec fn apply_transform(s: Seq<char>, f: Transform) -> Seq<char> {
    match f {
        Transform::Lowercase => lower_of(s),
    }
}

/// The result of the steps `fs`, applied in order.
pub open spec fn apply_all(s: Seq<char>, fs: Seq<Transform>) -> Seq<char>
    decreases fs.len(),
{
    if fs.len() == 0 {
        s
    } else {
        apply_transform(apply_all(s, fs.drop_last()), fs.last())
    }
}

/// The steps a search applies: lower case when case is ignored, else none.
pub open spec fn transforms(ignore_case: bool) -> Seq<Transform> {
    if ignore_case {
        seq![Transform::Lowercase]
    } else {
        Seq::empty()
    }
}

/// A pattern or line as the search sees it.
pub open spec fn normalized(ignore_case: bool, s: Seq<char>) -> Seq<char> {
    apply_all(s, transforms(ignore_case))
}

/// In `mode`, the line `l` is reported for the pattern `p`.
pub open spec fn line_selected(mode: Mode, p: Seq<char>, l: Seq<char>) -> bool {
    match mode {
        Mode::Reverse => !has_match(p, l),
        Mode::Whole => p.len() > 0 && l == p,
        _ => has_match(p, l),
    }
}

/// `out` is how `mode` reports the line `l`, number `pos`, for the pattern `p`.
pub open spec fn renders(
    mode: Mode,
    config: ShowConfig,
    p: Seq<char>,
    pos: nat,
    l: Seq<char>,
    out: Seq<char>,
) -> bool {
    match mode {
        Mode::Left => exists|s: (usize, usize)|
            #[trigger] is_leftmost(p, l, Some(s)) && shows_window(
                config,
                pos,
                l,
                s.0 as int,
                s.1 as int,
                out,
            ),
        Mode::Right => exists|s: (usize, usize)|
            #[trigger] is_rightmost(p, l, Some(s)) && shows_window(
                config,
                pos,
                l,
                s.0 as int,
                s.1 as int,
                out,
            ),
        Mode::All => shows_all(config, pos, l, p, occurrences_before(p, l, l.len() as int), out),
        Mode::Reverse => out == number_prefix(config, pos) + l,
        Mode::Whole => shows_window(config, pos, l, 0, l.len() as int, out),
    }
}

/// `after` is `before` with one more line, `rendered`, when the line is
/// selected, and `before` unchanged otherwise.
pub open spec fn pushed_if(
    before: Seq<String>,
    after: Seq<String>,
    selected: bool,
    rendered: spec_fn(Seq<char>) -> bool,
) -> bool {
    if selected {
        &&& after.len() == before.len() + 1
        &&& after.drop_last() == before
        &&& rendered(after.last()@)
    } else {
        after == before
    }
}

/// The positions of the lines before `n` that `mode` reports.
pub open spec fn selected_before(
    mode: Mode,
    p: Seq<char>,
    ignore_case: bool,
    lines: Seq<Seq<char>>,
    n: int,
) -> Seq<int>
    decreases n,
{
    if n <= 0 {
        Seq::empty()
    } else {
        let prev = selected_before(mode, p, ignore_case, lines, n - 1);
        if line_selected(mode, p, normalized(ignore_case, lines[n - 1])) {
            prev.push(n - 1)
        } else {
            prev
        }
    }
}

/// The characters of each line.
pub open spec fn texts(lines: Seq<String>) -> Seq<Seq<char>> {
    Seq::new(lines.len(), |k: int| lines[k]@)
}

/// What a search with the Knuth-Morris-Pratt strategy returns for `args`
/// over `lines`.
pub open spec fn grep_outcome(args: Args, lines: Seq<Seq<char>>, r: GrepResult<Vec<String>>) -> bool {
    let p = normalized(args.ignore_case, args.substring@);
    let sel = selected_before(args.mode, p, args.ignore_case, lines, lines.len() as int);
    if p.len() == 0 {
        r matches Err(ErrorType::EmptyPattern)
    } else if sel.len() == 0 {
        r matches Err(ErrorType::NotFound)
    } else {
        &&& r matches Ok(out)
        &&& out@.len() == sel.len()
        &&& forall|k: int|
            0 <= k < sel.len() ==> renders(
                args.mode,
                args.show_config,
                p,
                sel[k] as nat,
                normalized(args.ignore_case, lines[sel[k]]),
                #[trigger] out@[k]@,
            )
    }
}

/// Which lines are selected before `n` depends on the first `n` lines alone.
proof fn lemma_selected_prefix(
    mode: Mode,
    p: Seq<char>,
    ignore_case: bool,
    lines: Seq<Seq<char>>,
    other: Seq<Seq<char>>,
    n: int,
)
    requires
        0 <= n <= lines.len(),
        n <= other.len(),
        forall|k: int| 0 <= k < n ==> lines[k] == other[k],
    ensures
        selected_before(mode, p, ignore_case, lines, n) == selected_before(
            mode,
            p,
            ignore_case,
            other,
            n,
        ),
    decreases n,
{
    if n > 0 {
        lemma_selected_prefix(mode, p, ignore_case, lines, other, n - 1);
    }
}

/// A search in progress over lines handed in one at a time.
pub struct Grep {
    args: Args,
    target: String,
    result: Vec<String>,
    line_pos: usize,
    lines: Ghost<Seq<Seq<char>>>,
}

impl Grep {
    /// The search's settings.
    pub closed spec fn args_spec(&self) -> Args {
        self.args
    }

    /// The lines handed in so far.
    pub closed spec fn lines_seen(&self) -> Seq<Seq<char>> {
        self.lines@
    }

    /// The search is a Knuth-Morris-Pratt search for a non-empty pattern, and
    /// what it has reported is what `mode` reports of the lines seen.
    pub closed spec fn wf(&self) -> bool {
        let p = self.target@;
        let sel = selected_before(
            self.args.mode,
            p,
            self.args.ignore_case,
            self.lines@,
            self.lines@.len() as int,
        );
        &&& self.args.algo == Algo::Kmp
        &&& p == normalized(self.args.ignore_case, self.args.substring@)
        &&& p.len() > 0
        &&& self.line_pos == self.lines@.len()
        &&& self.result@.len() == sel.len()
        &&& forall|k: int|
            0 <= k < self.result@.len() ==> renders(
                self.args.mode,
                self.args.show_config,
                p,
                sel[k] as nat,
                normalized(self.args.ignore_case, self.lines@[sel[k]]),
                #[trigger] self.result@[k]@,
            )
    }

    /// Starts a search as `args` says, before any line is read; fails on an
    /// unsupported strategy or an empty pattern.
    pub fn start(args: Args) -> (r: GrepResult<Grep>)
        ensures
            args.algo == Algo::BoyerMoore ==> r matches Err(ErrorType::UnsupportedStrategy),
            args.algo == Algo::Kmp && normalized(args.ignore_case, args.substring@).len() == 0
                ==> r matches Err(ErrorType::EmptyPattern),
            args.algo == Algo::Kmp && normalized(args.ignore_case, args.substring@).len() > 0
                ==> (r matches Ok(g) && g.wf() && g.args_spec() == args && g.lines_seen().len()
                == 0),
    {
        if let Algo::BoyerMoore = args.algo {
            return Err(ErrorType::UnsupportedStrategy);
        }
        let data = get_update_functions(&args);
        let target = update_string(args.substring.as_str(), &data);
        if chars_of(target.as_str()).len() == 0 {
            return Err(ErrorType::EmptyPattern);
        }
        Ok(Grep { args, target, result: Vec::new(), line_pos: 0, lines: Ghost(Seq::empty()) })
    }

    /// Reads the next line of the file.
    pub fn feed(&mut self, line: &str)
        requires
            old(self).wf(),
            old(self).lines_seen().len() < usize::MAX,
        ensures
            final(self).wf(),
            final(self).args_spec() == old(self).args_spec(),
            final(self).lines_seen() == old(self).lines_seen().push(line@),
    {
        let data = get_update_functions(&self.args);
        let normal = update_string(line, &data);
        let ghost before = self.result@;
        let ghost old_lines = self.lines@;
        let ghost p = self.target@;
        let ghost args = self.args;
        mode_handle(
            &KnuthMorrisPratt {},
            &self.args,
            self.target.as_str(),
            normal.as_str(),
            self.line_pos,
            &mut self.result,
        );
        self.lines = Ghost(self.lines@.push(line@));
        self.line_pos = self.line_pos + 1;
        proof {
            let n = old_lines.len() as int;
            let lines = self.lines@;
            lemma_selected_prefix(args.mode, p, args.ignore_case, old_lines, lines, n);
            let sel0 = selected_before(args.mode, p, args.ignore_case, old_lines, n);
            let sel1 = selected_before(args.mode, p, args.ignore_case, lines, n + 1);
            assert(selected_before(args.mode, p, args.ignore_case, lines, n) == sel0);
            assert forall|k: int| 0 <= k < sel0.len() implies lines[#[trigger] sel0[k]] == old_lines[sel0[k]] by {
                lemma_selected_in_range(args.mode, p, args.ignore_case, old_lines, n);
            }
            if line_selected(args.mode, p, normal@) {
                assert(sel1 == sel0.push(n));
                assert forall|k: int| 0 <= k < self.result@.len() implies renders(
                    args.mode,
                    args.show_config,
                    p,
                    sel1[k] as nat,
                    normalized(args.ignore_case, lines[sel1[k]]),
                    #[trigger] self.result@[k]@,
                ) by {
                    if k < before.len() {
                        assert(self.result@[k] == self.result@.drop_last()[k]);
                        assert(sel1[k] == sel0[k]);
                    }
                }
            } else {
                assert forall|k: int| 0 <= k < self.result@.len() implies renders(
                    args.mode,
                    args.show_config,
                    p,
                    sel1[k] as nat,
                    normalized(args.ignore_case, lines[sel1[k]]),
                    #[trigger] self.result@[k]@,
                ) by {
                    assert(sel1[k] == sel0[k]);
                }
            }
        }
    }

    /// Ends the search: the lines reported, or `NotFound` when there is none.
    pub fn finish(self) -> (r: GrepResult<Vec<String>>)
        requires
            self.wf(),
        ensures
            grep_outcome(self.args_spec(), self.lines_seen(), r),
    {
        if self.result.len() == 0 {
            return Err(ErrorType::NotFound);
        }
        Ok(self.result)
    }
}

/// The positions selected before `n` are positions of lines before `n`.
proof fn lemma_selected_in_range(
    mode: Mode,
    p: Seq<char>,
    ignore_case: bool,
    lines: Seq<Seq<char>>,
    n: int,
)
    ensures
        forall|k: int|
            0 <= k < selected_before(mode, p, ignore_case, lines, n).len() ==> 0 <= #[trigger] selected_before(
                mode,
                p,
                ignore_case,
                lines,
                n,
            )[k] < n,
    decreases n,
{
    if n > 0 {
        lemma_selected_in_range(mode, p, ignore_case, lines, n - 1);
        let prev = selected_before(mode, p, ignore_case, lines, n - 1);
        assert forall|k: int|
            0 <= k < selected_before(mode, p, ignore_case, lines, n).len() implies 0
            <= #[trigger] selected_before(mode, p, ignore_case, lines, n)[k] < n by {
            if k < prev.len() {
                assert(selected_before(mode, p, ignore_case, lines, n)[k] == prev[k]);
            }
        }
    }
}

/// Searches `lines` for `args.substring` as `args` says.
pub fn grep(args: Args, lines: &Vec<String>) -> (r: GrepResult<Vec<String>>)
    ensures
        args.algo == Algo::BoyerMoore ==> r matches Err(ErrorType::UnsupportedStrategy),
        args.algo == Algo::Kmp ==> grep_outcome(args, texts(lines@), r),
{
    let mut search = match Grep::start(args) {
        Ok(g) => g,
        Err(e) => return Err(e),
    };
    let mut i: usize = 0;
    while i < lines.len()
        invariant
            search.wf(),
            search.args_spec() == args,
            i <= lines@.len(),
            search.lines_seen() =~= texts(lines@).subrange(0, i as int),
        decreases lines@.len() - i,
    {
        search.feed(lines[i].as_str());
        i = i + 1;
    }
    proof {
        assert(texts(lines@).subrange(0, i as int) =~= texts(lines@));
    }
    search.finish()
}

/// Reports `line`, number `line_pos`, into `result` as `args.mode` says.
fn mode_handle<S: Searcher>(
    searcher: &S,
    args: &Args,
    target: &str,
    line: &str,
    line_pos: usize,
    result: &mut Vec<String>,
)
    requires
        line_pos < usize::MAX,
    ensures
        pushed_if(
            old(result)@,
            final(result)@,
            line_selected(args.mode, target@, line@),
            |out: Seq<char>| renders(args.mode, args.show_config, target@, line_pos as nat, line@, out),
        ),
{
    match args.mode {
        Mode::Left => handle_left(searcher, args, target, line, line_pos, result),
        Mode::Right => handle_right(searcher, args, target, line, line_pos, result),
        Mode::Reverse => handle_reverse(searcher, args, target, line, line_pos, result),
        Mode::All => handle_all(searcher, args, target, line, line_pos, result),
        Mode::Whole => handle_whole(searcher, args, target, line, line_pos, result),
    }
}

fn handle_left<S: Searcher>(
    searcher: &S,
    args: &Args,
    target: &str,
    line: &str,
    line_pos: usize,
    result: &mut Vec<String>,
)
    requires
        line_pos < usize::MAX,
        args.mode == Mode::Left,
    ensures
        pushed_if(
            old(result)@,
            final(result)@,
            line_selected(args.mode, target@, line@),
            |out: Seq<char>| renders(args.mode, args.show_config, target@, line_pos as nat, line@, out),
        ),
{
    let res = searcher.search_left(target, line);
    construct_left_right(args, line, line_pos, result, res);
    proof {
        if let Some(s) = res {
            assert(occurs_at(target@, line@, s.0 as int));
            assert(is_leftmost(target@, line@, Some(s)));
        }
    }
}

fn handle_right<S: Searcher>(
    searcher: &S,
    args: &Args,
    target: &str,
    line: &str,
    line_pos: usize,
    result: &mut Vec<String>,
)
    requires
        line_pos < usize::MAX,
        args.mode == Mode::Right,
    ensures
        pushed_if(
            old(result)@,
            final(result)@,
            line_selected(args.mode, target@, line@),
            |out: Seq<char>| renders(args.mode, args.show_config, target@, line_pos as nat, line@, out),
        ),
{
    let res = searcher.search_right(target, line);
    construct_left_right(args, line, line_pos, result, res);
    proof {
        if let Some(s) = res {
            assert(occurs_at(target@, line@, s.0 as int));
            assert(is_rightmost(target@, line@, Some(s)));
        }
    }
}

fn handle_reverse<S: Searcher>(
    searcher: &S,
    args: &Args,
    target: &str,
    line: &str,
    line_pos: usize,
    result: &mut Vec<String>,
)
    requires
        line_pos < usize::MAX,
        args.mode == Mode::Reverse,
    ensures
        pushed_if(
            old(result)@,
            final(result)@,
            line_selected(args.mode, target@, line@),
            |out: Seq<char>| renders(args.mode, args.show_config, target@, line_pos as nat, line@, out),
        ),
{
    if searcher.contains_match(target, line) {
        return;
    }
    let construct = construct_reverse_line(line.to_owned(), line_pos, &args.show_config);
    result.push(construct);
    proof {
        assert(result@.drop_last() =~= old(result)@);
    }
}

fn handle_all<S: Searcher>(
    searcher: &S,
    args: &Args,
    target: &str,
    line: &str,
    line_pos: usize,
    result: &mut Vec<String>,
)
    requires
        line_pos < usize::MAX,
        args.mode == Mode::All,
    ensures
        pushed_if(
            old(result)@,
            final(result)@,
            line_selected(args.mode, target@, line@),
            |out: Seq<char>| renders(args.mode, args.show_config, target@, line_pos as nat, line@, out),
        ),
{
    let res = searcher.search_all(target, line);
    let ghost occ = occurrences_before(target@, line@, line@.len() as int);
    proof {
        lemma_occurrences_are_matches(target@, line@, line@.len() as int);
        if occ.len() == 0 {
            assert forall|i: int| !occurs_at(target@, line@, i) by {
                if occurs_at(target@, line@, i) {
                    lemma_match_is_listed(target@, line@, i, line@.len() as int);
                }
            }
        } else {
            assert(occurs_at(target@, line@, occ[0].0));
        }
    }
    if let Some(vec) = res {
        if vec.len() == 0 {
            return;
        }
        proof {
            assert(int_spans(vec@) == occ);
            assert forall|k: int| 0 <= k < int_spans(vec@).len() implies 0 <= #[trigger] int_spans(
                vec@,
            )[k].0 <= int_spans(vec@)[k].1 <= line@.len() by {
                assert(occ[k] == int_spans(vec@)[k]);
            }
        }
        result.push(construct_line_all(line, line_pos, target, vec, &args.show_config));
        proof {
            assert(result@.drop_last() =~= old(result)@);
        }
    }
}

fn handle_whole<S: Searcher>(
    searcher: &S,
    args: &Args,
    target: &str,
    line: &str,
    line_pos: usize,
    result: &mut Vec<String>,
)
    requires
        line_pos < usize::MAX,
        args.mode == Mode::Whole,
    ensures
        pushed_if(
            old(result)@,
            final(result)@,
            line_selected(args.mode, target@, line@),
            |out: Seq<char>| renders(args.mode, args.show_config, target@, line_pos as nat, line@, out),
        ),
{
    let res = searcher.search_left(target, line);
    let n = chars_of(line).len();
    proof {
        if target@.len() > 0 && line@ == target@ {
            assert(line@.subrange(0, target@.len() as int) =~= target@);
            assert(occurs_at(target@, line@, 0));
        }
    }
    if let Some((l, r)) = res {
        if l == 0 && r == n {
            proof {
                assert(line@ =~= line@.subrange(0, target@.len() as int));
            }
            let constructed = construct_line(l, r, (line_pos, line.to_owned()), &args.show_config);
            result.push(constructed);
            proof {
                assert(result@.drop_last() =~= old(result)@);
            }
        }
    }
}

/// Reports the single match `res` of `line`, when there is one.
fn construct_left_right(
    args: &Args,
    line: &str,
    line_pos: usize,
    result: &mut Vec<String>,
    res: SearchResult,
)
    requires
        line_pos < usize::MAX,
        res matches Some(s) ==> s.0 <= s.1 <= line@.len(),
    ensures
        res is None ==> final(result)@ == old(result)@,
        res matches Some(s) ==> {
            &&& final(result)@.len() == old(result)@.len() + 1
            &&& final(result)@.drop_last() == old(result)@
            &&& shows_window(
                args.show_config,
                line_pos as nat,
                line@,
                s.0 as int,
                s.1 as int,
                final(result)@.last()@,
            )
        },
{
    if let Some(pair) = res {
        let constructed = construct_line(pair.0, pair.1, (line_pos, line.to_owned()), &args.show_config);
        result.push(constructed);
        proof {
            assert(result@.drop_last() =~= old(result)@);
        }
    }
}

/// Applies the steps `funcs` to `src`, in order.
fn update_string(src: &str, funcs: &Vec<Transform>) -> (r: String)
    ensures
        r@ == apply_all(src@, funcs@),
{
    let mut cur: String = src.to_owned();
    let mut i: usize = 0;
    proof {
        assert(funcs@.subrange(0, 0) =~= Seq::<Transform>::empty());
    }
    while i < funcs.len()
        invariant
            i <= funcs@.len(),
            cur@ == apply_all(src@, funcs@.subrange(0, i as int)),
        decreases funcs@.len() - i,
    {
        cur = match funcs[i] {
            Transform::Lowercase => lowercase(cur.as_str()),
        };
        proof {
            assert(funcs@.subrange(0, i + 1).drop_last() =~= funcs@.subrange(0, i as int));
        }
        i = i + 1;
    }
    proof {
        assert(funcs@.subrange(0, i as int) =~= funcs@);
    }
    cur
}

/// The normalization steps that `args` asks for.
fn get_update_functions(args: &Args) -> (r: Vec<Transform>)
    ensures
        r@ == transforms(args.ignore_case),
{
    let mut funcs: Vec<Transform> = Vec::new();
    if args.ignore_case {
        funcs.push(Transform::Lowercase);
        proof {
            assert(funcs@ =~= transforms(args.ignore_case));
        }
    } else {
        proof {
            assert(funcs@ =~= transforms(args.ignore_case));
        }
    }
    funcs
}

} // verus!
