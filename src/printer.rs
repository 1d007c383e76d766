use colored::Colorize;
use vstd::prelude::*;

use crate::arguments::{Color, ShowConfig};
use crate::searcher::int_spans;
use crate::text::{chars_of, string_of};

verus! {

/// The escape character that starts a terminal color sequence.
pub open spec fn escape() -> char {
    '\u{1b}'
}

/// The sequence that switches the terminal to `color`.
pub open spec fn color_code(color: Color) -> Seq<char> {
    let digit = match color {
        Color::Red => '1',
        Color::Green => '2',
        Color::Blue => '4',
    };
    seq![escape(), '[', '3', digit, 'm']
}

/// The sequence that switches terminal colors off.
pub open spec fn reset_code() -> Seq<char> {
    seq![escape(), '[', '0', 'm']
}

/// `w` shows `s` in `color`: either `s` as it is (where colors are off) or
/// `s` between the color's sequence and the reset sequence. Text that holds
/// escape characters of its own may be shown otherwise.
pub open spec fn is_painting(w: Seq<char>, s: Seq<char>, color: Color) -> bool {
    ||| s.contains(escape())
    ||| w == s
    ||| w == color_code(color) + s + reset_code()
}

/// Relies on the `colored` crate's `Colorize::color` and its `Display`: the
/// text alone where coloring is off, else the color's escape sequence, the
/// text and the reset sequence.
#[verifier::external_body]
fn take_color(source: &str, color: Color) -> (r: String)
    ensures
        is_painting(r@, source@, color),
{
    let c = match color {
        Color::Red => colored::Color::Red,
        Color::Green => colored::Color::Green,
        Color::Blue => colored::Color::Blue,
    };
    source.color(c).to_string()
}

/// The decimal digit `d`.
pub open spec fn digit(d: nat) -> char {
    if d == 0 { '0' }
    else if d == 1 { '1' }
    else if d == 2 { '2' }
    else if d == 3 { '3' }
    else if d == 4 { '4' }
    else if d == 5 { '5' }
    else if d == 6 { '6' }
    else if d == 7 { '7' }
    else if d == 8 { '8' }
    else { '9' }
}

/// The decimal notation of `n`.
pub open spec fn decimal(n: nat) -> Seq<char>
    decreases n,
{
    if n < 10 {
        seq![digit(n)]
    } else {
        decimal(n / 10).push(digit(n % 10))
    }
}

/// What precedes a rendered line: its 1-based number and a colon when
/// numbers are shown, else nothing.
pub open spec fn number_prefix(config: ShowConfig, line_ind: nat) -> Seq<char> {
    if config.number {
        decimal(line_ind + 1).push(':')
    } else {
        Seq::empty()
    }
}

fn digit_char(d: usize) -> (r: char)
    requires
        d < 10,
    ensures
        r == digit(d as nat),
{
    if d == 0 { '0' }
    else if d == 1 { '1' }
    else if d == 2 { '2' }
    else if d == 3 { '3' }
    else if d == 4 { '4' }
    else if d == 5 { '5' }
    else if d == 6 { '6' }
    else if d == 7 { '7' }
    else if d == 8 { '8' }
    else { '9' }
}

fn push_decimal(out: &mut Vec<char>, n: usize)
    ensures
        final(out)@ == old(out)@ + decimal(n as nat),
    decreases n,
{
    if n >= 10 {
        push_decimal(out, n / 10);
    }
    out.push(digit_char(n % 10));
    proof {
        if n < 10 {
            assert(old(out)@ + decimal(n as nat) =~= old(out)@.push(digit(n as nat)));
        } else {
            assert(old(out)@ + decimal(n as nat) =~= (old(out)@ + decimal((n / 10) as nat)).push(
                digit((n % 10) as nat),
            ));
        }
    }
}

fn push_number_prefix(out: &mut Vec<char>, config: &ShowConfig, line_ind: usize)
    requires
        line_ind < usize::MAX,
    ensures
        final(out)@ == old(out)@ + number_prefix(*config, line_ind as nat),
{
    if config.number {
        push_decimal(out, line_ind + 1);
        out.push(':');
        proof {
            assert(final(out)@ =~= old(out)@ + number_prefix(*config, line_ind as nat));
        }
    } else {
        proof {
            assert(out@ =~= old(out)@ + number_prefix(*config, line_ind as nat));
        }
    }
}

fn push_range(out: &mut Vec<char>, s: &Vec<char>, from: usize, to: usize)
    requires
        from <= to <= s@.len(),
    ensures
        final(out)@ == old(out)@ + s@.subrange(from as int, to as int),
{
    let mut i: usize = from;
    while i < to
        invariant
            from <= i <= to <= s@.len(),
            out@ == old(out)@ + s@.subrange(from as int, i as int),
        decreases to - i,
    {
        out.push(s[i]);
        i = i + 1;
        proof {
            assert(out@ =~= old(out)@ + s@.subrange(from as int, i as int));
        }
    }
}

fn push_all(out: &mut Vec<char>, s: &Vec<char>)
    ensures
        final(out)@ == old(out)@ + s@,
{
    push_range(out, s, 0, s.len());
    proof {
        assert(s@.subrange(0, s@.len() as int) =~= s@);
    }
}

/// The first character shown around the match `[left, right)`.
pub open spec fn window_start(config: ShowConfig, left: int) -> int {
    if left >= config.window_size { left - config.window_size } else { 0 }
}

/// The end of the characters shown around the match `[left, right)`.
pub open spec fn window_end(config: ShowConfig, len: int, right: int) -> int {
    if right + config.window_size <= len { right + config.window_size } else { len }
}

/// A line with one match `[left, right)` shown as `painted`, cut to the
/// configured number of characters on each side.
pub open spec fn window_layout(
    config: ShowConfig,
    line_ind: nat,
    line: Seq<char>,
    left: int,
    right: int,
    painted: Seq<char>,
) -> Seq<char> {
    number_prefix(config, line_ind) + line.subrange(window_start(config, left), left) + painted
        + line.subrange(right, window_end(config, line.len() as int, right))
}

/// `out` renders the line with its match `[left, right)` highlighted in the
/// configured color and the configured context around it.
pub open spec fn shows_window(
    config: ShowConfig,
    line_ind: nat,
    line: Seq<char>,
    left: int,
    right: int,
    out: Seq<char>,
) -> bool {
    exists|w: Seq<char>|
        #[trigger] is_painting(w, line.subrange(left, right), config.color) && out
            == window_layout(config, line_ind, line, left, right, w)
}

/// Lays out a line with one match `[left, right)` shown as `painted`.
pub fn layout_line(
    left: usize,
    right: usize,
    pair: (usize, String),
    show_config: &ShowConfig,
    painted: &str,
) -> (r: String)
    requires
        left <= right <= pair.1@.len(),
        pair.0 < usize::MAX,
    ensures
        r@ == window_layout(
            *show_config,
            pair.0 as nat,
            pair.1@,
            left as int,
            right as int,
            painted@,
        ),
{
    let chars = chars_of(&pair.1);
    let edge_size = show_config.window_size;
    let start = left.saturating_sub(edge_size);
    let end = if edge_size <= chars.len() - right {
        right + edge_size
    } else {
        chars.len()
    };
    let mut out: Vec<char> = Vec::new();
    push_number_prefix(&mut out, show_config, pair.0);
    push_range(&mut out, &chars, start, left);
    push_all(&mut out, &chars_of(painted));
    push_range(&mut out, &chars, right, end);
    proof {
        assert(out@ =~= window_layout(
            *show_config,
            pair.0 as nat,
            pair.1@,
            left as int,
            right as int,
            painted@,
        ));
    }
    string_of(&out)
}

/// Renders a line with one match `[left, right)` highlighted in the
/// configured color, with the configured context on each side.
pub fn construct_line(left: usize, right: usize, pair: (usize, String), show_config: &ShowConfig) -> (r: String)
    requires
        left <= right <= pair.1@.len(),
        pair.0 < usize::MAX,
    ensures
        shows_window(*show_config, pair.0 as nat, pair.1@, left as int, right as int, r@),
{
    let chars = chars_of(&pair.1);
    let mut matched: Vec<char> = Vec::new();
    push_range(&mut matched, &chars, left, right);
    let matched = string_of(&matched);
    let painted = take_color(matched.as_str(), show_config.color);
    let r = layout_line(left, right, pair, show_config, painted.as_str());
    proof {
        assert(is_painting(painted@, pair.1@.subrange(left as int, right as int), show_config.color));
    }
    r
}

/// Renders a line shown as it is, after its number when numbers are shown.
pub fn construct_reverse_line(line: String, line_ind: usize, show_config: &ShowConfig) -> (r: String)
    requires
        line_ind < usize::MAX,
    ensures
        r@ == number_prefix(*show_config, line_ind as nat) + line@,
{
    let mut out: Vec<char> = Vec::new();
    push_number_prefix(&mut out, show_config, line_ind);
    push_all(&mut out, &chars_of(&line));
    string_of(&out)
}

/// Every span lies within a line of `len` characters.
pub open spec fn spans_within(spans: Seq<(int, int)>, len: int) -> bool {
    forall|k: int| 0 <= k < spans.len() ==> 0 <= #[trigger] spans[k].0 <= spans[k].1 <= len
}

/// The characters of `line` from `i` on, with each span replaced by
/// `painted`; the text between spans is kept, and a span that starts before
/// the end of the previous one adds `painted` alone.
pub open spec fn highlight_from(
    line: Seq<char>,
    i: int,
    spans: Seq<(int, int)>,
    painted: Seq<char>,
) -> Seq<char>
    decreases spans.len(),
{
    if spans.len() == 0 {
        if i < line.len() {
            line.subrange(i, line.len() as int)
        } else {
            Seq::empty()
        }
    } else {
        let s = spans[0];
        (if i < s.0 {
            line.subrange(i, s.0)
        } else {
            Seq::empty()
        }) + painted + highlight_from(line, s.1, spans.drop_first(), painted)
    }
}

/// `out` renders the whole line with each span replaced by `pattern`
/// highlighted in the configured color.
pub open spec fn shows_all(
    config: ShowConfig,
    line_ind: nat,
    line: Seq<char>,
    pattern: Seq<char>,
    spans: Seq<(int, int)>,
    out: Seq<char>,
) -> bool {
    exists|w: Seq<char>|
        #[trigger] is_painting(w, pattern, config.color) && out == number_prefix(config, line_ind)
            + highlight_from(line, 0, spans, w)
}

/// Lays out a whole line with each span replaced by `painted`.
pub fn layout_line_all(
    s: &str,
    line_ind: usize,
    painted: &str,
    vec: &Vec<(usize, usize)>,
    show_config: &ShowConfig,
) -> (r: String)
    requires
        spans_within(int_spans(vec@), s@.len() as int),
        line_ind < usize::MAX,
    ensures
        r@ == number_prefix(*show_config, line_ind as nat) + highlight_from(s@, 0, int_spans(vec@), painted@),
{
    let chars = chars_of(s);
    let paint = chars_of(painted);
    let ghost line = s@;
    let ghost w = painted@;
    let ghost whole = number_prefix(*show_config, line_ind as nat) + highlight_from(line, 0, int_spans(vec@), w);
    let mut out: Vec<char> = Vec::new();
    push_number_prefix(&mut out, show_config, line_ind);
    let mut i: usize = 0;
    let mut k: usize = 0;
    proof {
        assert(int_spans(vec@).subrange(0, vec@.len() as int) =~= int_spans(vec@));
    }
    while k < vec.len()
        invariant
            chars@ == line,
            paint@ == w,
            spans_within(int_spans(vec@), line.len() as int),
            k <= vec@.len(),
            i <= line.len(),
            out@ + highlight_from(line, i as int, int_spans(vec@).subrange(k as int, vec@.len() as int), w)
                == whole,
        decreases vec@.len() - k,
    {
        let pair = vec[k];
        let ghost rest = int_spans(vec@).subrange(k as int, vec@.len() as int);
        proof {
            assert(int_spans(vec@)[k as int] == (pair.0 as int, pair.1 as int));
            assert(rest[0] == (pair.0 as int, pair.1 as int));
            assert(rest.drop_first() =~= int_spans(vec@).subrange(k + 1, vec@.len() as int));
            assert(pair.0 <= pair.1 <= line.len());
        }
        let ghost out0 = out@;
        let ghost i0 = i as int;
        while i < pair.0
            invariant
                chars@ == line,
                0 <= i0 <= i <= line.len(),
                pair.0 <= line.len(),
                i0 < pair.0 ==> i <= pair.0,
                out@ == out0 + (if i0 < pair.0 {
                    line.subrange(i0, i as int)
                } else {
                    Seq::empty()
                }),
            decreases pair.0 - i,
        {
            out.push(chars[i]);
            i = i + 1;
            proof {
                assert(out@ =~= out0 + line.subrange(i0, i as int));
            }
        }
        proof {
            if i0 < pair.0 {
                assert(i == pair.0);
            } else {
                assert(out@ =~= out0);
            }
        }
        push_all(&mut out, &paint);
        i = pair.1;
        k = k + 1;
        proof {
            assert((out0 + (if i0 < pair.0 {
                line.subrange(i0, pair.0 as int)
            } else {
                Seq::empty()
            }) + w) + highlight_from(line, pair.1 as int, int_spans(vec@).subrange(k as int, vec@.len() as int), w)
                =~= out0 + highlight_from(line, i0, rest, w));
        }
    }
    let ghost out1 = out@;
    let ghost i1 = i as int;
    while i < chars.len()
        invariant
            chars@ == line,
            0 <= i1 <= i <= line.len(),
            out@ == out1 + line.subrange(i1, i as int),
        decreases line.len() - i,
    {
        out.push(chars[i]);
        i = i + 1;
        proof {
            assert(out@ =~= out1 + line.subrange(i1, i as int));
        }
    }
    proof {
        assert(int_spans(vec@).subrange(k as int, vec@.len() as int) =~= Seq::<(int, int)>::empty());
        if i1 < line.len() {
            assert(out@ =~= whole);
        } else {
            assert(out@ =~= whole);
        }
    }
    string_of(&out)
}

/// Renders a whole line with every span replaced by the pattern highlighted
/// in the configured color, after the line's number when numbers are shown.
pub fn construct_line_all(
    s: &str,
    line_ind: usize,
    pattern: &str,
    vec: Vec<(usize, usize)>,
    show_config: &ShowConfig,
) -> (r: String)
    requires
        spans_within(int_spans(vec@), s@.len() as int),
        line_ind < usize::MAX,
    ensures
        shows_all(*show_config, line_ind as nat, s@, pattern@, int_spans(vec@), r@),
{
    let painted = take_color(pattern, show_config.color);
    let r = layout_line_all(s, line_ind, painted.as_str(), &vec, show_config);
    proof {
        assert(is_painting(painted@, pattern@, show_config.color));
    }
    r
}

} // verus!
