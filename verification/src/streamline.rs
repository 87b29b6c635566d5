//! Deterministic, meaning-preserving streamlining of completed assistant
//! text before it is persisted and re-sent as context: trailing whitespace
//! is stripped from prose lines, runs of blank prose lines collapse to one,
//! the message is trimmed of outer blank lines, and fenced code blocks
//! (three backticks or tildes) pass through byte-for-byte.

use vstd::prelude::*;
use crate::text::{is_unicode_ws, lemma_next_newline, next_newline, unicode_ws};

verus! {

broadcast use vstd::seq::group_seq_axioms;

/// Which streamlining rules apply.
#[derive(Clone, Copy, Debug, PartialEq, Eq)]
pub struct OutputStreamlineConfig {
    pub enabled: bool,
    pub collapse_blank_lines: bool,
    pub trim_outer: bool,
    pub collapse_inline_ws: bool,
    pub trim_trailing: bool,
}

impl Default for OutputStreamlineConfig {
    /// Everything on except the opt-in interior whitespace collapse.
    fn default() -> (c: Self)
        ensures
            c.enabled && c.collapse_blank_lines && c.trim_outer && !c.collapse_inline_ws
                && c.trim_trailing,
    {
        OutputStreamlineConfig {
            enabled: true,
            collapse_blank_lines: true,
            trim_outer: true,
            collapse_inline_ws: false,
            trim_trailing: true,
        }
    }
}

// ---------------------------------------------------------------------------
// Specification
// ---------------------------------------------------------------------------

/// `s.split_inclusive('\n')`: pieces that keep their line feed.
pub open spec fn pieces(s: Seq<char>) -> Seq<Seq<char>>
    decreases s.len(),
{
    if s.len() == 0 {
        Seq::empty()
    } else {
        let j = next_newline(s, 0);
        if j >= s.len() - 1 || j < 0 {
            seq![s]
        } else {
            seq![s.subrange(0, j + 1)] + pieces(s.subrange(j + 1, s.len() as int))
        }
    }
}

/// Concatenation of a sequence of strings.
pub open spec fn concat(ps: Seq<Seq<char>>) -> Seq<char>
    decreases ps.len(),
{
    if ps.len() == 0 {
        Seq::empty()
    } else {
        concat(ps.drop_last()) + ps.last()
    }
}

pub open spec fn sp_or_tab(c: char) -> bool {
    c == ' ' || c == '\t'
}

/// Number of leading characters of `s` that are Unicode whitespace.
pub open spec fn leading_ws(s: Seq<char>) -> int
    decreases s.len(),
{
    if s.len() > 0 && is_unicode_ws(s[0]) {
        1 + leading_ws(s.drop_first())
    } else {
        0
    }
}

pub open spec fn fence_marker(s: Seq<char>, c: char) -> bool {
    s.len() >= 3 && s[0] == c && s[1] == c && s[2] == c
}

/// A fence delimiter: after leading whitespace, three backticks or tildes.
pub open spec fn is_fence(line: Seq<char>) -> bool {
    let t = line.subrange(leading_ws(line), line.len() as int);
    fence_marker(t, '`') || fence_marker(t, '~')
}

/// Number of leading spaces/tabs.
pub open spec fn indent_len(s: Seq<char>) -> int
    decreases s.len(),
{
    if s.len() > 0 && sp_or_tab(s[0]) {
        1 + indent_len(s.drop_first())
    } else {
        0
    }
}

/// Collapse runs of spaces/tabs in `s` (no leading indentation) to one
/// space; `in_run` says a run is already open.
pub open spec fn collapse_runs(s: Seq<char>, in_run: bool) -> Seq<char>
    decreases s.len(),
{
    if s.len() == 0 {
        Seq::empty()
    } else if sp_or_tab(s[0]) {
        if in_run {
            collapse_runs(s.drop_first(), true)
        } else {
            seq![' '] + collapse_runs(s.drop_first(), true)
        }
    } else {
        seq![s[0]] + collapse_runs(s.drop_first(), false)
    }
}

/// Leading indentation kept verbatim, interior runs collapsed.
pub open spec fn collapse_interior(s: Seq<char>) -> Seq<char> {
    let k = indent_len(s);
    s.subrange(0, k) + collapse_runs(s.subrange(k, s.len() as int), false)
}

/// `s.trim_end_matches([' ', '\t'])`.
pub open spec fn trim_trailing_sp(s: Seq<char>) -> Seq<char>
    decreases s.len(),
{
    if s.len() > 0 && sp_or_tab(s.last()) {
        trim_trailing_sp(s.drop_last())
    } else {
        s
    }
}

/// A prose line (with its line feed, if any) after the inline rules.
pub open spec fn prose_line(line: Seq<char>, cfg: OutputStreamlineConfig) -> Seq<char> {
    let has_nl = line.len() > 0 && line.last() == '\n';
    let content = if has_nl {
        line.drop_last()
    } else {
        line
    };
    let c1 = if cfg.collapse_inline_ws {
        collapse_interior(content)
    } else {
        content
    };
    let c2 = if cfg.trim_trailing {
        trim_trailing_sp(c1)
    } else {
        c1
    };
    if has_nl {
        c2.push('\n')
    } else {
        c2
    }
}

/// Tag each piece as code (fence delimiters and fenced content) or prose,
/// rewriting prose pieces with the inline rules.
pub open spec fn tag_lines(ps: Seq<Seq<char>>, in_code: bool, cfg: OutputStreamlineConfig) -> Seq<
    (Seq<char>, bool),
>
    decreases ps.len(),
{
    if ps.len() == 0 {
        Seq::empty()
    } else if is_fence(ps[0]) {
        seq![(ps[0], true)] + tag_lines(ps.drop_first(), !in_code, cfg)
    } else if in_code {
        seq![(ps[0], true)] + tag_lines(ps.drop_first(), in_code, cfg)
    } else {
        seq![(prose_line(ps[0], cfg), false)] + tag_lines(ps.drop_first(), in_code, cfg)
    }
}

/// A whitespace-only line (spaces, tabs, CR, LF).
pub open spec fn blank(l: Seq<char>) -> bool {
    forall|i: int| 0 <= i < l.len() ==> (#[trigger] l[i] == ' ' || l[i] == '\t' || l[i] == '\n'
        || l[i] == '\r')
}

/// Keep the first blank prose line of every run; code lines reset the run.
pub open spec fn collapse_blank(items: Seq<(Seq<char>, bool)>, run: bool) -> Seq<(Seq<char>, bool)>
    decreases items.len(),
{
    if items.len() == 0 {
        Seq::empty()
    } else if items[0].1 {
        seq![items[0]] + collapse_blank(items.drop_first(), false)
    } else if blank(items[0].0) {
        if run {
            collapse_blank(items.drop_first(), true)
        } else {
            seq![items[0]] + collapse_blank(items.drop_first(), true)
        }
    } else {
        seq![items[0]] + collapse_blank(items.drop_first(), false)
    }
}

pub open spec fn texts(items: Seq<(Seq<char>, bool)>) -> Seq<Seq<char>> {
    items.map_values(|it: (Seq<char>, bool)| it.0)
}

/// Index of the first non-blank piece, or the count.
pub open spec fn first_content(ps: Seq<Seq<char>>, i: int) -> int
    decreases ps.len() - i,
{
    if 0 <= i < ps.len() && blank(ps[i]) {
        first_content(ps, i + 1)
    } else {
        i
    }
}

/// One past the last non-blank piece among the first `e`, or zero.
pub open spec fn last_content(ps: Seq<Seq<char>>, e: int) -> int
    decreases e,
{
    if 0 < e <= ps.len() && blank(ps[e - 1]) {
        last_content(ps, e - 1)
    } else {
        e
    }
}

/// Drop leading and trailing blank lines.
pub open spec fn trim_outer_spec(s: Seq<char>) -> Seq<char> {
    let ps = pieces(s);
    let a = first_content(ps, 0);
    let b = last_content(ps, ps.len() as int);
    if a >= b {
        Seq::empty()
    } else {
        concat(ps.subrange(a, b))
    }
}

/// The streamlined text.
pub open spec fn streamline_spec(text: Seq<char>, cfg: OutputStreamlineConfig) -> Seq<char> {
    if !cfg.enabled || text.len() == 0 {
        text
    } else {
        let tagged = tag_lines(pieces(text), false, cfg);
        let kept = if cfg.collapse_blank_lines {
            collapse_blank(tagged, false)
        } else {
            tagged
        };
        let out = concat(texts(kept));
        if cfg.trim_outer {
            trim_outer_spec(out)
        } else {
            out
        }
    }
}

// ---------------------------------------------------------------------------
// Implementation
// ---------------------------------------------------------------------------

/// A processed line tagged with whether it belongs to a fenced code block.
struct LineOut {
    text: Vec<char>,
    code: bool,
}

spec fn line_outs(ls: Seq<LineOut>) -> Seq<(Seq<char>, bool)> {
    ls.map_values(|l: LineOut| (l.text@, l.code))
}

proof fn lemma_pieces_step(s: Seq<char>, i: int)
    requires
        0 <= i < s.len(),
    ensures
        ({
            let j = next_newline(s, i);
            let t = s.subrange(i, s.len() as int);
            &&& i <= j <= s.len()
            &&& j >= s.len() - 1 ==> pieces(t) == seq![t]
            &&& j < s.len() - 1 ==> pieces(t) == seq![s.subrange(i, j + 1)] + pieces(
                s.subrange(j + 1, s.len() as int),
            )
        }),
{
    let t = s.subrange(i, s.len() as int);
    lemma_next_newline(s, i);
    lemma_next_newline(t, 0);
    let j = next_newline(s, i);
    let jt = next_newline(t, 0);
    // The first line feed of `t` is the first line feed of `s` after `i`.
    assert(jt == j - i) by {
        if jt < t.len() {
            assert(t[jt] == '\n');
            assert(s[i + jt] == '\n');
            if j < i + jt {
                assert(t[j - i] == s[j]);
            }
        }
        if j < s.len() {
            assert(s[j] == '\n');
            assert(t[j - i] == '\n');
        }
    }
    if jt < t.len() - 1 {
        assert(t.subrange(0, jt + 1) =~= s.subrange(i, j + 1));
        assert(t.subrange(jt + 1, t.len() as int) =~= s.subrange(j + 1, s.len() as int));
    }
}

/// The `[start, end)` ranges of `text.split_inclusive('\n')`.
fn piece_ranges(v: &Vec<char>) -> (r: Vec<(usize, usize)>)
    ensures
        r@.len() == pieces(v@).len(),
        forall|k: int|
            #![trigger r@[k]]
            0 <= k < r@.len() ==> {
                &&& r@[k].0 <= r@[k].1 <= v@.len()
                &&& v@.subrange(r@[k].0 as int, r@[k].1 as int) == pieces(v@)[k]
            },
{
    let mut r: Vec<(usize, usize)> = Vec::new();
    let mut i: usize = 0;
    assert(v@.subrange(0, v@.len() as int) =~= v@);
    while i < v.len()
        invariant
            i <= v@.len(),
            pieces(v@) == r@.map_values(|p: (usize, usize)| v@.subrange(p.0 as int, p.1 as int))
                + pieces(v@.subrange(i as int, v@.len() as int)),
            forall|k: int| 0 <= k < r@.len() ==> (#[trigger] r@[k]).0 <= r@[k].1 <= v@.len(),
        decreases v.len() - i,
    {
        let mut j = i;
        proof {
            lemma_next_newline(v@, i as int);
            lemma_pieces_step(v@, i as int);
        }
        while j < v.len() && v[j] != '\n'
            invariant
                i <= j <= v@.len(),
                next_newline(v@, j as int) == next_newline(v@, i as int),
            decreases v.len() - j,
        {
            j += 1;
        }
        let ghost before = r@;
        if j >= v.len() - 1 {
            r.push((i, v.len()));
            proof {
                assert(pieces(v@.subrange(v@.len() as int, v@.len() as int)) =~= Seq::<Seq<char>>::empty());
                assert(r@.map_values(|p: (usize, usize)| v@.subrange(p.0 as int, p.1 as int))
                    =~= before.map_values(|p: (usize, usize)| v@.subrange(p.0 as int, p.1 as int))
                    + seq![v@.subrange(i as int, v@.len() as int)]);
            }
            i = v.len();
        } else {
            r.push((i, j + 1));
            proof {
                assert(r@.map_values(|p: (usize, usize)| v@.subrange(p.0 as int, p.1 as int))
                    =~= before.map_values(|p: (usize, usize)| v@.subrange(p.0 as int, p.1 as int))
                    + seq![v@.subrange(i as int, j + 1)]);
            }
            i = j + 1;
        }
    }
    proof {
        assert(pieces(v@.subrange(i as int, v@.len() as int)) =~= Seq::<Seq<char>>::empty());
        assert(pieces(v@) =~= r@.map_values(|p: (usize, usize)| v@.subrange(p.0 as int, p.1 as int)));
    }
    r
}

proof fn lemma_leading_ws(s: Seq<char>)
    ensures
        0 <= leading_ws(s) <= s.len(),
        forall|k: int| 0 <= k < leading_ws(s) ==> is_unicode_ws(#[trigger] s[k]),
        leading_ws(s) < s.len() ==> !is_unicode_ws(s[leading_ws(s)]),
    decreases s.len(),
{
    if s.len() > 0 && is_unicode_ws(s[0]) {
        lemma_leading_ws(s.drop_first());
        assert forall|k: int| 0 <= k < leading_ws(s) implies is_unicode_ws(#[trigger] s[k]) by {
            if k > 0 {
                assert(s[k] == s.drop_first()[k - 1]);
            }
        }
    }
}

/// A CommonMark fence delimiter: the first non-whitespace characters are
/// three backticks or three tildes.
fn is_fence_line(v: &Vec<char>, a: usize, b: usize) -> (r: bool)
    requires
        a <= b <= v@.len(),
    ensures
        r == is_fence(v@.subrange(a as int, b as int)),
{
    let ghost line = v@.subrange(a as int, b as int);
    let mut i = a;
    assert(line.subrange(0, line.len() as int) =~= line);
    while i < b && unicode_ws(v[i])
        invariant
            a <= i <= b <= v@.len(),
            line == v@.subrange(a as int, b as int),
            leading_ws(line) == (i - a) + leading_ws(line.subrange(i - a, line.len() as int)),
        decreases b - i,
    {
        assert(line.subrange(i - a, line.len() as int).drop_first() =~= line.subrange(
            i - a + 1,
            line.len() as int,
        ));
        i += 1;
    }
    assert(line.subrange(0, line.len() as int) =~= line);
    assert(leading_ws(line.subrange(i - a, line.len() as int)) == 0);
    let ghost t = line.subrange(i - a, line.len() as int);
    assert(t =~= v@.subrange(i as int, b as int));
    if b - i >= 3 {
        let c = v[i];
        (c == '`' || c == '~') && v[i + 1] == c && v[i + 2] == c
    } else {
        false
    }
}

proof fn lemma_indent_split(s: Seq<char>, k: int)
    requires
        0 <= k <= s.len(),
        forall|m: int| 0 <= m < k ==> sp_or_tab(#[trigger] s[m]),
    ensures
        indent_len(s) == k + indent_len(s.subrange(k, s.len() as int)),
    decreases k,
{
    if k > 0 {
        assert(sp_or_tab(s[0]));
        lemma_indent_split(s.drop_first(), k - 1);
        assert(s.drop_first().subrange(k - 1, s.drop_first().len() as int) =~= s.subrange(
            k,
            s.len() as int,
        ));
    } else {
        assert(s.subrange(0, s.len() as int) =~= s);
    }
}

/// Collapse runs of spaces/tabs to a single space, after any leading
/// indentation has been copied verbatim.
fn collapse_interior_ws(v: &Vec<char>, a: usize, b: usize) -> (out: Vec<char>)
    requires
        a <= b <= v@.len(),
    ensures
        out@ == collapse_interior(v@.subrange(a as int, b as int)),
{
    let ghost s = v@.subrange(a as int, b as int);
    let mut k = a;
    while k < b && (v[k] == ' ' || v[k] == '\t')
        invariant
            a <= k <= b <= v@.len(),
            s == v@.subrange(a as int, b as int),
            forall|m: int| 0 <= m < k - a ==> sp_or_tab(#[trigger] s[m]),
        decreases b - k,
    {
        k += 1;
    }
    proof {
        lemma_indent_split(s, k - a);
        if k < b {
            assert(s.subrange(k - a, s.len() as int)[0] == v@[k as int]);
        }
        assert(indent_len(s.subrange(k - a, s.len() as int)) == 0);
    }
    let mut out: Vec<char> = Vec::new();
    crate::text::extend_from_range(&mut out, v, a, k);
    let ghost head = out@;
    assert(head =~= s.subrange(0, k - a));
    let mut in_run = false;
    let mut i = k;
    while i < b
        invariant
            a <= k <= i <= b <= v@.len(),
            s == v@.subrange(a as int, b as int),
            collapse_interior(s) == head + collapse_runs(s.subrange(k - a, s.len() as int), false),
            collapse_runs(s.subrange(k - a, s.len() as int), false) == (out@.subrange(
                head.len() as int,
                out@.len() as int,
            )) + collapse_runs(s.subrange(i - a, s.len() as int), in_run),
            out@.subrange(0, head.len() as int) == head,
            head.len() <= out@.len(),
        decreases b - i,
    {
        let ch = v[i];
        let ghost rest = s.subrange(i - a, s.len() as int);
        assert(rest.drop_first() =~= s.subrange(i - a + 1, s.len() as int));
        assert(rest[0] == ch);
        let ghost old_out = out@;
        if ch == ' ' || ch == '\t' {
            if !in_run {
                out.push(' ');
                in_run = true;
            }
        } else {
            in_run = false;
            out.push(ch);
        }
        assert(out@.subrange(0, head.len() as int) =~= old_out.subrange(0, head.len() as int));
        assert(out@.subrange(head.len() as int, out@.len() as int) =~= old_out.subrange(
            head.len() as int,
            old_out.len() as int,
        ) + (out@.subrange(old_out.len() as int, out@.len() as int)));
        i += 1;
    }
    assert(s.subrange(b - a, s.len() as int) =~= Seq::<char>::empty());
    assert(out@ =~= out@.subrange(0, head.len() as int) + out@.subrange(
        head.len() as int,
        out@.len() as int,
    ));
    out
}

fn trim_trailing_sp_len(v: &Vec<char>) -> (n: usize)
    ensures
        n <= v@.len(),
        v@.subrange(0, n as int) == trim_trailing_sp(v@),
{
    let mut n = v.len();
    assert(v@.subrange(0, n as int) =~= v@);
    while n > 0 && (v[n - 1] == ' ' || v[n - 1] == '\t')
        invariant
            n <= v@.len(),
            trim_trailing_sp(v@) == trim_trailing_sp(v@.subrange(0, n as int)),
        decreases n,
    {
        assert(v@.subrange(0, n as int).drop_last() =~= v@.subrange(0, n - 1));
        n -= 1;
    }
    n
}

/// Normalize one prose line (which still carries its trailing newline, if
/// any): interior runs may collapse, trailing whitespace is stripped, and
/// leading indentation is preserved.
fn streamline_prose_line(v: &Vec<char>, a: usize, b: usize, cfg: &OutputStreamlineConfig) -> (r:
    Vec<char>)
    requires
        a <= b <= v@.len(),
    ensures
        r@ == prose_line(v@.subrange(a as int, b as int), *cfg),
{
    let ghost line = v@.subrange(a as int, b as int);
    let (content_end, has_nl) = split_newline(v, a, b);
    let mut c: Vec<char> = if cfg.collapse_inline_ws {
        collapse_interior_ws(v, a, content_end)
    } else {
        let mut w: Vec<char> = Vec::new();
        crate::text::extend_from_range(&mut w, v, a, content_end);
        assert(w@ =~= v@.subrange(a as int, content_end as int));
        w
    };
    if cfg.trim_trailing {
        let n = trim_trailing_sp_len(&c);
        c.truncate(n);
    }
    if has_nl {
        c.push('\n');
    }
    c
}

/// Split a piece into its content and its line feed (`rfind('\n')`).
fn split_newline(v: &Vec<char>, a: usize, b: usize) -> (r: (usize, bool))
    requires
        a <= b <= v@.len(),
    ensures
        ({
            let line = v@.subrange(a as int, b as int);
            let has_nl = line.len() > 0 && line.last() == '\n';
            &&& r.1 == has_nl
            &&& a <= r.0 <= b
            &&& v@.subrange(a as int, r.0 as int) == (if has_nl {
                line.drop_last()
            } else {
                line
            })
        }),
{
    let ghost line = v@.subrange(a as int, b as int);
    if b > a && v[b - 1] == '\n' {
        assert(line.drop_last() =~= v@.subrange(a as int, b - 1));
        (b - 1, true)
    } else {
        (b, false)
    }
}

fn collect_lines(v: &Vec<char>, cfg: &OutputStreamlineConfig) -> (r: Vec<LineOut>)
    ensures
        line_outs(r@) == tag_lines(pieces(v@), false, *cfg),
{
    let ranges = piece_ranges(v);
    let ghost ps = pieces(v@);
    let mut lines: Vec<LineOut> = Vec::new();
    let mut in_code = false;
    let mut k: usize = 0;
    assert(ps.subrange(0, ps.len() as int) =~= ps);
    while k < ranges.len()
        invariant
            k <= ranges@.len() == ps.len(),
            ps == pieces(v@),
            forall|m: int|
                #![trigger ranges@[m]]
                0 <= m < ranges@.len() ==> {
                    &&& ranges@[m].0 <= ranges@[m].1 <= v@.len()
                    &&& v@.subrange(ranges@[m].0 as int, ranges@[m].1 as int) == ps[m]
                },
            tag_lines(ps, false, *cfg) == line_outs(lines@) + tag_lines(
                ps.subrange(k as int, ps.len() as int),
                in_code,
                *cfg,
            ),
        decreases ranges.len() - k,
    {
        let (a, b) = ranges[k];
        assert(v@.subrange(a as int, b as int) == ps[k as int]);
        let ghost rest = ps.subrange(k as int, ps.len() as int);
        assert(rest.drop_first() =~= ps.subrange(k + 1, ps.len() as int));
        assert(rest[0] == ps[k as int]);
        let ghost old_lines = lines@;
        if is_fence_line(v, a, b) {
            in_code = !in_code;
            let mut t: Vec<char> = Vec::new();
            crate::text::extend_from_range(&mut t, v, a, b);
            assert(t@ =~= v@.subrange(a as int, b as int));
            lines.push(LineOut { text: t, code: true });
        } else if in_code {
            let mut t: Vec<char> = Vec::new();
            crate::text::extend_from_range(&mut t, v, a, b);
            assert(t@ =~= v@.subrange(a as int, b as int));
            lines.push(LineOut { text: t, code: true });
        } else {
            let t = streamline_prose_line(v, a, b, cfg);
            lines.push(LineOut { text: t, code: false });
        }
        assert(line_outs(lines@) =~= line_outs(old_lines).push(line_outs(lines@).last()));
        assert(line_outs(lines@) =~= line_outs(old_lines) + seq![line_outs(lines@).last()]);
        k += 1;
    }
    assert(ps.subrange(k as int, ps.len() as int) =~= Seq::<Seq<char>>::empty());
    assert(line_outs(lines@) + Seq::<(Seq<char>, bool)>::empty() =~= line_outs(lines@));
    lines
}

fn line_is_blank(v: &Vec<char>) -> (r: bool)
    ensures
        r == blank(v@),
{
    let mut i: usize = 0;
    while i < v.len()
        invariant
            i <= v@.len(),
            forall|m: int| 0 <= m < i ==> (#[trigger] v@[m] == ' ' || v@[m] == '\t' || v@[m] == '\n'
                || v@[m] == '\r'),
        decreases v.len() - i,
    {
        let c = v[i];
        if !(c == ' ' || c == '\t' || c == '\n' || c == '\r') {
            return false;
        }
        i += 1;
    }
    true
}

/// Collapse runs of two or more blank prose lines into one. Code lines are
/// kept and reset the run, so merging never crosses a code boundary.
fn collapse_blank_runs(lines: Vec<LineOut>) -> (r: Vec<LineOut>)
    ensures
        line_outs(r@) == collapse_blank(line_outs(lines@), false),
{
    let ghost items = line_outs(lines@);
    let mut out: Vec<LineOut> = Vec::new();
    let mut prose_blanks: usize = 0;
    let n = lines.len();
    assert(items.subrange(0, n as int) =~= items);
    for l in it: lines
        invariant
            n == items.len(),
            it.seq().len() == n,
            forall|m: int| 0 <= m < n ==> (#[trigger] it.seq()[m].text@, it.seq()[m].code) == items[m],
            collapse_blank(items, false) == line_outs(out@) + collapse_blank(
                items.subrange(it.index() as int, n as int),
                prose_blanks > 0,
            ),
    {
        let ghost k = it.index();
        let ghost rest = items.subrange(k as int, n as int);
        assert((l.text@, l.code) == items[k as int]);
        assert(rest.drop_first() =~= items.subrange(k + 1, n as int));
        assert(rest[0] == items[k as int]);
        let ghost old_out = out@;
        if l.code {
            prose_blanks = 0;
            out.push(l);
            assert(line_outs(out@) =~= line_outs(old_out) + seq![items[k as int]]);
        } else if line_is_blank(&l.text) {
            if prose_blanks == 0 {
                out.push(l);
                assert(line_outs(out@) =~= line_outs(old_out) + seq![items[k as int]]);
            }
            prose_blanks = 1;
        } else {
            prose_blanks = 0;
            out.push(l);
            assert(line_outs(out@) =~= line_outs(old_out) + seq![items[k as int]]);
        }
    }
    assert(items.subrange(n as int, n as int) =~= Seq::<(Seq<char>, bool)>::empty());
    assert(line_outs(out@) + Seq::<(Seq<char>, bool)>::empty() =~= line_outs(out@));
    out
}

fn concat_lines(lines: &Vec<LineOut>) -> (r: Vec<char>)
    ensures
        r@ == concat(texts(line_outs(lines@))),
{
    let mut out: Vec<char> = Vec::new();
    let mut k: usize = 0;
    while k < lines.len()
        invariant
            k <= lines@.len(),
            out@ == concat(texts(line_outs(lines@)).subrange(0, k as int)),
        decreases lines.len() - k,
    {
        let t = &lines[k].text;
        crate::text::extend_from_range(&mut out, t, 0, t.len());
        let ghost ts = texts(line_outs(lines@));
        assert(ts.subrange(0, k + 1).drop_last() =~= ts.subrange(0, k as int));
        assert(t@.subrange(0, t@.len() as int) =~= t@);
        k += 1;
    }
    assert(texts(line_outs(lines@)).subrange(0, k as int) =~= texts(line_outs(lines@)));
    out
}

proof fn lemma_concat_append(ps: Seq<Seq<char>>, k: int)
    requires
        0 <= k < ps.len(),
    ensures
        concat(ps.subrange(0, k + 1)) == concat(ps.subrange(0, k)) + ps[k],
{
    assert(ps.subrange(0, k + 1).drop_last() =~= ps.subrange(0, k));
}

/// Drop leading and trailing blank (whitespace-only) lines, keeping the
/// first and last content lines intact, including their indentation.
fn trim_outer_blanks(v: &Vec<char>) -> (r: Vec<char>)
    ensures
        r@ == trim_outer_spec(v@),
{
    let ranges = piece_ranges(v);
    let ghost ps = pieces(v@);
    let n = ranges.len();
    let mut blanks: Vec<bool> = Vec::new();
    let mut k: usize = 0;
    while k < n
        invariant
            k <= n == ps.len() == ranges@.len(),
            ps == pieces(v@),
            forall|m: int|
                #![trigger ranges@[m]]
                0 <= m < ranges@.len() ==> {
                    &&& ranges@[m].0 <= ranges@[m].1 <= v@.len()
                    &&& v@.subrange(ranges@[m].0 as int, ranges@[m].1 as int) == ps[m]
                },
            blanks@.len() == k,
            forall|m: int| 0 <= m < k ==> #[trigger] blanks@[m] == blank(ps[m]),
        decreases n - k,
    {
        let mut t: Vec<char> = Vec::new();
        crate::text::extend_from_range(&mut t, v, ranges[k].0, ranges[k].1);
        assert(v@.subrange(ranges@[k as int].0 as int, ranges@[k as int].1 as int) == ps[k as int]);
        assert(t@ =~= ps[k as int]);
        blanks.push(line_is_blank(&t));
        k += 1;
    }
    let mut a: usize = 0;
    while a < n && blanks[a]
        invariant
            a <= n == ps.len() == blanks@.len(),
            forall|m: int| 0 <= m < n ==> #[trigger] blanks@[m] == blank(ps[m]),
            first_content(ps, 0) == first_content(ps, a as int),
        decreases n - a,
    {
        a += 1;
    }
    let mut b: usize = n;
    while b > 0 && blanks[b - 1]
        invariant
            b <= n == ps.len() == blanks@.len(),
            forall|m: int| 0 <= m < n ==> #[trigger] blanks@[m] == blank(ps[m]),
            last_content(ps, n as int) == last_content(ps, b as int),
        decreases b,
    {
        b -= 1;
    }
    let mut out: Vec<char> = Vec::new();
    if a >= b {
        return out;
    }
    let ghost sub = ps.subrange(a as int, b as int);
    let mut k = a;
    while k < b
        invariant
            a <= k <= b <= n == ps.len() == ranges@.len(),
            sub == ps.subrange(a as int, b as int),
            forall|m: int|
                #![trigger ranges@[m]]
                0 <= m < ranges@.len() ==> {
                    &&& ranges@[m].0 <= ranges@[m].1 <= v@.len()
                    &&& v@.subrange(ranges@[m].0 as int, ranges@[m].1 as int) == ps[m]
                },
            out@ == concat(sub.subrange(0, k - a)),
        decreases b - k,
    {
        let (x, y) = ranges[k];
        assert(v@.subrange(x as int, y as int) == ps[k as int]);
        crate::text::extend_from_range(&mut out, v, x, y);
        proof {
            lemma_concat_append(sub, k - a);
        }
        k += 1;
    }
    assert(sub.subrange(0, b - a) =~= sub);
    out
}

/// Streamline a completed assistant message. A disabled config or an empty
/// input returns the text unchanged.
pub fn streamline(text: &str, cfg: &OutputStreamlineConfig) -> (r: String)
    ensures
        r@ == streamline_spec(text@, *cfg),
{
    let v = crate::text::chars_of(text);
    if !cfg.enabled || v.len() == 0 {
        return crate::text::string_from_chars(&v);
    }
    let lines = collect_lines(&v, cfg);
    let lines = if cfg.collapse_blank_lines {
        collapse_blank_runs(lines)
    } else {
        lines
    };
    let out = concat_lines(&lines);
    if cfg.trim_outer {
        let t = trim_outer_blanks(&out);
        crate::text::string_from_chars(&t)
    } else {
        crate::text::string_from_chars(&out)
    }
}

/// Law: a disabled config leaves every text unchanged.
pub proof fn disabled_is_verbatim(text: Seq<char>, cfg: OutputStreamlineConfig)
    requires
        !cfg.enabled,
    ensures
        streamline_spec(text, cfg) == text,
{
}


// ---------------------------------------------------------------------------
// Laws: every rule leaves the text it already cleaned unchanged
// ---------------------------------------------------------------------------

proof fn lemma_trim_trailing_shape(s: Seq<char>)
    ensures
        trim_trailing_sp(s).len() <= s.len(),
        trim_trailing_sp(s) == s.subrange(0, trim_trailing_sp(s).len() as int),
        !(trim_trailing_sp(s).len() > 0 && sp_or_tab(trim_trailing_sp(s).last())),
    decreases s.len(),
{
    if s.len() > 0 && sp_or_tab(s.last()) {
        lemma_trim_trailing_shape(s.drop_last());
        let r = trim_trailing_sp(s.drop_last());
        assert(s.drop_last().subrange(0, r.len() as int) =~= s.subrange(0, r.len() as int));
    } else {
        assert(s.subrange(0, s.len() as int) =~= s);
    }
}

proof fn lemma_indent_len(s: Seq<char>)
    ensures
        0 <= indent_len(s) <= s.len(),
        forall|i: int| 0 <= i < indent_len(s) ==> sp_or_tab(#[trigger] s[i]),
        indent_len(s) < s.len() ==> !sp_or_tab(s[indent_len(s)]),
    decreases s.len(),
{
    if s.len() > 0 && sp_or_tab(s[0]) {
        lemma_indent_len(s.drop_first());
        assert forall|i: int| 0 <= i < indent_len(s) implies sp_or_tab(#[trigger] s[i]) by {
            if i > 0 {
                assert(s[i] == s.drop_first()[i - 1]);
            }
        }
    }
}

proof fn lemma_indent_of(p: Seq<char>, q: Seq<char>)
    requires
        forall|i: int| 0 <= i < p.len() ==> sp_or_tab(#[trigger] p[i]),
        q.len() == 0 || !sp_or_tab(q[0]),
    ensures
        indent_len(p + q) == p.len(),
    decreases p.len(),
{
    if p.len() > 0 {
        assert forall|i: int| 0 <= i < p.drop_first().len() implies sp_or_tab(#[trigger] p.drop_first()[i]) by {
            assert(p.drop_first()[i] == p[i + 1]);
        }
        lemma_indent_of(p.drop_first(), q);
        assert((p + q).drop_first() =~= p.drop_first() + q);
        assert((p + q)[0] == p[0]);
    } else {
        assert(p + q =~= q);
    }
}

proof fn lemma_collapse_runs_len(t: Seq<char>, r: bool)
    ensures
        collapse_runs(t, r).len() <= t.len(),
    decreases t.len(),
{
    if t.len() > 0 {
        lemma_collapse_runs_len(t.drop_first(), sp_or_tab(t[0]));
    }
}

proof fn lemma_collapse_runs_head(t: Seq<char>, r: bool)
    requires
        t.len() > 0,
        !sp_or_tab(t[0]),
    ensures
        collapse_runs(t, r).len() > 0,
        collapse_runs(t, r)[0] == t[0],
{
}

proof fn lemma_collapse_runs_no_newline(t: Seq<char>, r: bool)
    requires
        forall|i: int| 0 <= i < t.len() ==> #[trigger] t[i] != '\n',
    ensures
        forall|i: int| 0 <= i < collapse_runs(t, r).len() ==> #[trigger] collapse_runs(t, r)[i] != '\n',
    decreases t.len(),
{
    if t.len() > 0 {
        let t1 = t.drop_first();
        assert forall|i: int| 0 <= i < t1.len() implies #[trigger] t1[i] != '\n' by {
            assert(t1[i] == t[i + 1]);
        }
        lemma_collapse_runs_no_newline(t1, sp_or_tab(t[0]));
        let c = collapse_runs(t, r);
        let c1 = collapse_runs(t1, sp_or_tab(t[0]));
        assert forall|i: int| 0 <= i < c.len() implies #[trigger] c[i] != '\n' by {
            if sp_or_tab(t[0]) && r {
                assert(c == c1);
            } else if sp_or_tab(t[0]) {
                assert(c == seq![' '] + c1);
                if i > 0 {
                    assert(c[i] == c1[i - 1]);
                }
            } else {
                assert(c == seq![t[0]] + c1);
                if i > 0 {
                    assert(c[i] == c1[i - 1]);
                }
            }
        }
    }
}

proof fn lemma_collapse_runs_idem(t: Seq<char>, r: bool)
    ensures
        collapse_runs(collapse_runs(t, r), r) == collapse_runs(t, r),
    decreases t.len(),
{
    if t.len() > 0 {
        let t1 = t.drop_first();
        if sp_or_tab(t[0]) {
            lemma_collapse_runs_idem(t1, true);
            if !r {
                let c = seq![' '] + collapse_runs(t1, true);
                assert(c.drop_first() =~= collapse_runs(t1, true));
            }
        } else {
            lemma_collapse_runs_idem(t1, false);
            let c = seq![t[0]] + collapse_runs(t1, false);
            assert(c.drop_first() =~= collapse_runs(t1, false));
        }
    }
}

proof fn lemma_collapse_runs_prefix(t: Seq<char>, r: bool, j: int)
    requires
        collapse_runs(t, r) == t,
        0 <= j <= t.len(),
    ensures
        collapse_runs(t.take(j), r) == t.take(j),
    decreases t.len(),
{
    if j == 0 {
        assert(t.take(0) =~= Seq::<char>::empty());
    } else {
        let t1 = t.drop_first();
        let u = t.take(j);
        assert(u.drop_first() =~= t1.take(j - 1));
        assert(u[0] == t[0]);
        if sp_or_tab(t[0]) {
            if r {
                lemma_collapse_runs_len(t1, true);
                assert(false);
            } else {
                let x = collapse_runs(t1, true);
                assert((seq![' '] + x).drop_first() =~= x);
                assert(t1 == x);
                assert(t[0] == (seq![' '] + x)[0]);
                lemma_collapse_runs_prefix(t1, true, j - 1);
                assert(u =~= seq![' '] + t1.take(j - 1));
            }
        } else {
            let x = collapse_runs(t1, false);
            assert((seq![t[0]] + x).drop_first() =~= x);
            assert(t1 == x);
            lemma_collapse_runs_prefix(t1, false, j - 1);
            assert(u =~= seq![t[0]] + t1.take(j - 1));
        }
    }
}

proof fn lemma_collapse_interior_parts(s: Seq<char>)
    ensures
        ({
            let k = indent_len(s);
            let c = collapse_interior(s);
            &&& c.subrange(0, k) == s.subrange(0, k)
            &&& c.subrange(k, c.len() as int) == collapse_runs(s.subrange(k, s.len() as int), false)
            &&& indent_len(c) == k
        }),
{
    let k = indent_len(s);
    lemma_indent_len(s);
    let p = s.subrange(0, k);
    let t = s.subrange(k, s.len() as int);
    let rr = collapse_runs(t, false);
    if t.len() > 0 {
        assert(t[0] == s[k]);
        lemma_collapse_runs_head(t, false);
    }
    assert forall|i: int| 0 <= i < p.len() implies sp_or_tab(#[trigger] p[i]) by {
        assert(p[i] == s[i]);
    }
    lemma_indent_of(p, rr);
    let c = p + rr;
    assert(c.subrange(0, k) =~= p);
    assert(c.subrange(k, c.len() as int) =~= rr);
}

proof fn lemma_collapse_interior_idem(s: Seq<char>)
    ensures
        collapse_interior(collapse_interior(s)) == collapse_interior(s),
{
    let k = indent_len(s);
    let c = collapse_interior(s);
    lemma_collapse_interior_parts(s);
    lemma_collapse_runs_idem(s.subrange(k, s.len() as int), false);
    assert(c.subrange(0, k) + collapse_runs(c.subrange(k, c.len() as int), false) =~= c);
}

proof fn lemma_collapse_interior_prefix(x: Seq<char>, m: int)
    requires
        collapse_interior(x) == x,
        m == 0 || indent_len(x) <= m,
        m <= x.len(),
    ensures
        collapse_interior(x.take(m)) == x.take(m),
{
    let k = indent_len(x);
    lemma_indent_len(x);
    lemma_collapse_interior_parts(x);
    let t = x.subrange(k, x.len() as int);
    if m == 0 {
        let e = x.take(0);
        assert(e =~= Seq::<char>::empty());
        assert(indent_len(e) == 0);
        assert(collapse_interior(e) =~= e);
    } else {
        assert(collapse_runs(t, false) == t);
        lemma_collapse_runs_prefix(t, false, m - k);
        let u = x.take(m);
        let p = x.subrange(0, k);
        let q = t.take(m - k);
        assert(u =~= p + q);
        assert forall|i: int| 0 <= i < p.len() implies sp_or_tab(#[trigger] p[i]) by {
            assert(p[i] == x[i]);
        }
        if q.len() > 0 {
            assert(q[0] == x[k]);
        }
        lemma_indent_of(p, q);
        assert(u.subrange(0, k) =~= p);
        assert(u.subrange(k, u.len() as int) =~= q);
    }
}

/// No line feed before the last character: a piece of
/// `split_inclusive('\n')`.
pub open spec fn one_line(line: Seq<char>) -> bool {
    forall|i: int| 0 <= i < line.len() - 1 ==> #[trigger] line[i] != '\n'
}

/// Law: the inline rules (interior whitespace collapse, trailing
/// whitespace strip) leave a prose line they already cleaned unchanged.
pub proof fn prose_rules_are_idempotent(line: Seq<char>, cfg: OutputStreamlineConfig)
    requires
        one_line(line),
    ensures
        prose_line(prose_line(line, cfg), cfg) == prose_line(line, cfg),
{
    let has_nl = line.len() > 0 && line.last() == '\n';
    let content = if has_nl { line.drop_last() } else { line };
    assert forall|i: int| 0 <= i < content.len() implies #[trigger] content[i] != '\n' by {
        assert(content[i] == line[i]);
    }
    let c1 = if cfg.collapse_inline_ws { collapse_interior(content) } else { content };
    if cfg.collapse_inline_ws {
        let k = indent_len(content);
        lemma_indent_len(content);
        let t = content.subrange(k, content.len() as int);
        assert forall|i: int| 0 <= i < t.len() implies #[trigger] t[i] != '\n' by {
            assert(t[i] == content[i + k]);
        }
        lemma_collapse_runs_no_newline(t, false);
        let rr = collapse_runs(t, false);
        assert forall|i: int| 0 <= i < c1.len() implies #[trigger] c1[i] != '\n' by {
            if i < k {
                assert(c1[i] == content[i]);
            } else {
                assert(c1[i] == rr[i - k]);
            }
        }
        lemma_collapse_interior_idem(content);
    }
    let c2 = if cfg.trim_trailing { trim_trailing_sp(c1) } else { c1 };
    lemma_trim_trailing_shape(c1);
    assert forall|i: int| 0 <= i < c2.len() implies #[trigger] c2[i] != '\n' by {
        assert(c2[i] == c1[i]);
    }
    let out = prose_line(line, cfg);
    assert(out == if has_nl { c2.push('\n') } else { c2 });
    let has_nl2 = out.len() > 0 && out.last() == '\n';
    assert(has_nl2 == has_nl);
    let content2 = if has_nl2 { out.drop_last() } else { out };
    assert(content2 =~= c2);
    let d1 = if cfg.collapse_inline_ws { collapse_interior(c2) } else { c2 };
    let d2 = if cfg.trim_trailing { trim_trailing_sp(d1) } else { d1 };
    if cfg.trim_trailing {
        let m = c2.len() as int;
        if cfg.collapse_inline_ws {
            lemma_indent_len(c1);
            if m > 0 {
                assert(c2.last() == c1[m - 1]);
            }
            assert(c2 =~= c1.take(m));
            lemma_collapse_interior_prefix(c1, m);
        }
        assert(d1 == c2);
        lemma_trim_trailing_shape(c2);
    }
    assert(d2 == c2);
}

/// Law: collapsing blank-line runs again changes nothing.
pub proof fn blank_collapse_is_idempotent(items: Seq<(Seq<char>, bool)>, run: bool)
    ensures
        collapse_blank(collapse_blank(items, run), run) == collapse_blank(items, run),
    decreases items.len(),
{
    if items.len() > 0 {
        let rest = items.drop_first();
        let x = items[0];
        if x.1 {
            blank_collapse_is_idempotent(rest, false);
            assert((seq![x] + collapse_blank(rest, false)).drop_first() =~= collapse_blank(rest, false));
        } else if blank(x.0) {
            blank_collapse_is_idempotent(rest, true);
            if !run {
                assert((seq![x] + collapse_blank(rest, true)).drop_first() =~= collapse_blank(rest, true));
            }
        } else {
            blank_collapse_is_idempotent(rest, false);
            assert((seq![x] + collapse_blank(rest, false)).drop_first() =~= collapse_blank(rest, false));
        }
    }
}


/// Law: fence delimiters and the lines between them are tagged as code and
/// kept byte-for-byte; only prose lines are rewritten.
pub proof fn fenced_lines_pass_verbatim(ps: Seq<Seq<char>>, in_code: bool, cfg: OutputStreamlineConfig)
    ensures
        tag_lines(ps, in_code, cfg).len() == ps.len(),
        forall|i: int|
            0 <= i < ps.len() && (#[trigger] tag_lines(ps, in_code, cfg)[i]).1 ==> tag_lines(
                ps,
                in_code,
                cfg,
            )[i].0 == ps[i],
        forall|i: int| 0 <= i < ps.len() && is_fence(#[trigger] ps[i]) ==> tag_lines(ps, in_code, cfg)[i].1,
    decreases ps.len(),
{
    if ps.len() > 0 {
        let rest = ps.drop_first();
        let next = if is_fence(ps[0]) { !in_code } else { in_code };
        fenced_lines_pass_verbatim(rest, next, cfg);
        let t = tag_lines(ps, in_code, cfg);
        let tr = tag_lines(rest, next, cfg);
        assert forall|i: int| 0 < i < ps.len() implies t[i] == tr[i - 1] && ps[i] == rest[i - 1] by {}
    }
}

/// Law: collapsing blank-line runs never drops or changes a code line.
pub proof fn blank_collapse_keeps_code_lines(items: Seq<(Seq<char>, bool)>, run: bool)
    ensures
        collapse_blank(items, run).filter(|it: (Seq<char>, bool)| it.1) == items.filter(
            |it: (Seq<char>, bool)| it.1,
        ),
    decreases items.len(),
{
    let pred = |it: (Seq<char>, bool)| it.1;
    if items.len() > 0 {
        let x = items[0];
        let rest = items.drop_first();
        let next = if x.1 { false } else if blank(x.0) { true } else { false };
        blank_collapse_keeps_code_lines(rest, next);
        assert(items =~= seq![x] + rest);
        Seq::filter_distributes_over_add(seq![x], rest, pred);
        let c = collapse_blank(rest, next);
        Seq::filter_distributes_over_add(seq![x], c, pred);
        reveal_with_fuel(Seq::filter, 2);
        assert(seq![x].drop_last() =~= Seq::<(Seq<char>, bool)>::empty());
    }
}


/// The pieces of a text as `split_inclusive('\n')` yields them: none
/// empty, each one line, and all but the last ending in a line feed.
pub open spec fn piece_list(ps: Seq<Seq<char>>) -> bool {
    forall|i: int|
        0 <= i < ps.len() ==> {
            &&& (#[trigger] ps[i]).len() > 0
            &&& one_line(ps[i])
            &&& i < ps.len() - 1 ==> ps[i].last() == '\n'
        }
}

proof fn lemma_concat_front(qs: Seq<Seq<char>>)
    requires
        qs.len() > 0,
    ensures
        concat(qs) == qs[0] + concat(qs.drop_first()),
    decreases qs.len(),
{
    if qs.len() == 1 {
        assert(qs.drop_last() =~= Seq::<Seq<char>>::empty());
        assert(qs.drop_first() =~= Seq::<Seq<char>>::empty());
        assert(concat(qs.drop_last()) =~= Seq::<char>::empty());
        assert(concat(qs.drop_first()) =~= Seq::<char>::empty());
        assert(qs.last() == qs[0]);
        assert(concat(qs) =~= qs[0]);
        assert(qs[0] + concat(qs.drop_first()) =~= qs[0]);
    } else {
        lemma_concat_front(qs.drop_last());
        assert(qs.drop_first().drop_last() =~= qs.drop_last().drop_first());
        assert(qs.drop_first().last() == qs.last());
        assert(qs.drop_last()[0] == qs[0]);
        assert(concat(qs) =~= qs[0] + concat(qs.drop_first()));
    }
}

proof fn lemma_concat_len(qs: Seq<Seq<char>>)
    requires
        qs.len() > 0,
        qs[0].len() > 0,
    ensures
        concat(qs).len() > 0,
{
    lemma_concat_front(qs);
}

proof fn lemma_pieces_are_pieces(s: Seq<char>)
    ensures
        piece_list(pieces(s)),
    decreases s.len(),
{
    if s.len() > 0 {
        let j = next_newline(s, 0);
        lemma_next_newline(s, 0);
        let ps = pieces(s);
        if j >= s.len() - 1 || j < 0 {
            assert(ps == seq![s]);
            assert(one_line(s));
        } else {
            let first = s.subrange(0, j + 1);
            let rest = s.subrange(j + 1, s.len() as int);
            lemma_pieces_are_pieces(rest);
            let pr = pieces(rest);
            assert(ps == seq![first] + pr);
            assert(one_line(first)) by {
                assert forall|i: int| 0 <= i < first.len() - 1 implies #[trigger] first[i] != '\n' by {
                    assert(first[i] == s[i]);
                }
            }
            assert(first.last() == '\n');
            assert forall|i: int| 0 <= i < ps.len() implies {
                &&& (#[trigger] ps[i]).len() > 0
                &&& one_line(ps[i])
                &&& i < ps.len() - 1 ==> ps[i].last() == '\n'
            } by {
                if i > 0 {
                    assert(ps[i] == pr[i - 1]);
                }
            }
        }
    }
}

proof fn lemma_pieces_of_concat(qs: Seq<Seq<char>>)
    requires
        piece_list(qs),
    ensures
        pieces(concat(qs)) == qs,
    decreases qs.len(),
{
    if qs.len() == 0 {
        assert(pieces(concat(qs)) =~= qs);
    } else {
        let q = qs[0];
        let rest = qs.drop_first();
        lemma_concat_front(qs);
        let s = concat(qs);
        let r = concat(rest);
        assert(s == q + r);
        assert(q.len() > 0 && one_line(q));
        lemma_next_newline(s, 0);
        let j = next_newline(s, 0);
        assert forall|k: int| 0 <= k < q.len() - 1 implies #[trigger] s[k] != '\n' by {
            assert(s[k] == q[k]);
        }
        if rest.len() == 0 {
            assert(rest =~= Seq::<Seq<char>>::empty());
            assert(s =~= q);
            if j < s.len() - 1 {
                assert(s[j] == '\n');
                assert(false);
            }
            assert(pieces(s) == seq![s]);
            assert(qs =~= seq![q]);
        } else {
            assert forall|i: int| 0 <= i < rest.len() implies {
                &&& (#[trigger] rest[i]).len() > 0
                &&& one_line(rest[i])
                &&& i < rest.len() - 1 ==> rest[i].last() == '\n'
            } by {
                assert(rest[i] == qs[i + 1]);
            }
            lemma_pieces_of_concat(rest);
            lemma_concat_len(rest);
            assert(q.last() == '\n');
            assert(s[q.len() - 1] == '\n');
            if j < q.len() - 1 {
                assert(s[j] == '\n');
                assert(false);
            }
            if j > q.len() - 1 {
                assert(false);
            }
            assert(j == q.len() - 1);
            assert(s.subrange(0, j + 1) =~= q);
            assert(s.subrange(j + 1, s.len() as int) =~= r);
            assert(pieces(s) == seq![q] + pieces(r));
            assert(qs =~= seq![q] + rest);
        }
    }
}

proof fn lemma_first_content(ps: Seq<Seq<char>>, i: int)
    requires
        0 <= i <= ps.len(),
    ensures
        i <= first_content(ps, i) <= ps.len(),
        first_content(ps, i) < ps.len() ==> !blank(ps[first_content(ps, i)]),
    decreases ps.len() - i,
{
    if i < ps.len() && blank(ps[i]) {
        lemma_first_content(ps, i + 1);
    }
}

proof fn lemma_last_content(ps: Seq<Seq<char>>, e: int)
    requires
        0 <= e <= ps.len(),
    ensures
        0 <= last_content(ps, e) <= e,
        last_content(ps, e) > 0 ==> !blank(ps[last_content(ps, e) - 1]),
    decreases e,
{
    if 0 < e && blank(ps[e - 1]) {
        lemma_last_content(ps, e - 1);
    }
}

/// Law: trimming outer blank lines again changes nothing.
pub proof fn outer_trim_is_idempotent(s: Seq<char>)
    ensures
        trim_outer_spec(trim_outer_spec(s)) == trim_outer_spec(s),
{
    let ps = pieces(s);
    let a = first_content(ps, 0);
    let b = last_content(ps, ps.len() as int);
    lemma_first_content(ps, 0);
    lemma_last_content(ps, ps.len() as int);
    if a >= b {
        let e = Seq::<char>::empty();
        assert(trim_outer_spec(s) == e);
        assert(pieces(e) =~= Seq::<Seq<char>>::empty());
    } else {
        let qs = ps.subrange(a, b);
        lemma_pieces_are_pieces(s);
        assert forall|i: int| 0 <= i < qs.len() implies {
            &&& (#[trigger] qs[i]).len() > 0
            &&& one_line(qs[i])
            &&& i < qs.len() - 1 ==> qs[i].last() == '\n'
        } by {
            assert(qs[i] == ps[a + i]);
        }
        lemma_pieces_of_concat(qs);
        let t = concat(qs);
        assert(trim_outer_spec(s) == t);
        assert(qs[0] == ps[a]);
        assert(qs[qs.len() - 1] == ps[b - 1]);
        assert(first_content(qs, 0) == 0);
        assert(last_content(qs, qs.len() as int) == qs.len());
        assert(qs.subrange(0, qs.len() as int) =~= qs);
    }
}


// ---------------------------------------------------------------------------
// Law: streamlining twice is streamlining once
// ---------------------------------------------------------------------------

proof fn lemma_leading_ws_concat(u: Seq<char>, v: Seq<char>)
    ensures
        0 <= leading_ws(u) <= u.len(),
        leading_ws(u) < u.len() ==> leading_ws(u + v) == leading_ws(u) && !is_unicode_ws(u[leading_ws(u)]),
        leading_ws(u) == u.len() ==> leading_ws(u + v) == u.len() + leading_ws(v),
    decreases u.len(),
{
    if u.len() == 0 {
        assert(u + v =~= v);
    } else {
        assert((u + v)[0] == u[0]);
        assert((u + v).drop_first() =~= u.drop_first() + v);
        lemma_leading_ws_concat(u.drop_first(), v);
        if is_unicode_ws(u[0]) {
            if leading_ws(u.drop_first()) < u.drop_first().len() {
                assert(u[leading_ws(u)] == u.drop_first()[leading_ws(u.drop_first())]);
            }
        }
    }
}

proof fn lemma_blank_is_not_fence(l: Seq<char>)
    requires
        blank(l),
    ensures
        !is_fence(l),
{
    assert(l.subrange(0, 0) =~= Seq::<char>::empty());
    lemma_leading_ws_all(l);
}

proof fn lemma_leading_ws_all(l: Seq<char>)
    requires
        forall|i: int| 0 <= i < l.len() ==> is_unicode_ws(#[trigger] l[i]),
    ensures
        leading_ws(l) == l.len(),
    decreases l.len(),
{
    if l.len() > 0 {
        assert(is_unicode_ws(l[0]));
        assert forall|i: int| 0 <= i < l.drop_first().len() implies is_unicode_ws(#[trigger] l.drop_first()[i]) by {
            assert(l.drop_first()[i] == l[i + 1]);
        }
        lemma_leading_ws_all(l.drop_first());
    }
}

/// After leading whitespace, three equal fence markers.
spec fn fence_from(y: Seq<char>) -> bool
    decreases y.len(),
{
    if y.len() > 0 && is_unicode_ws(y[0]) {
        fence_from(y.drop_first())
    } else {
        fence_marker(y, '`') || fence_marker(y, '~')
    }
}

proof fn lemma_fence_from(y: Seq<char>)
    ensures
        is_fence(y) == fence_from(y),
    decreases y.len(),
{
    if y.len() > 0 && is_unicode_ws(y[0]) {
        lemma_fence_from(y.drop_first());
        let l = leading_ws(y.drop_first());
        lemma_leading_ws_concat(y.drop_first(), Seq::<char>::empty());
        assert(y.subrange(leading_ws(y), y.len() as int) =~= y.drop_first().subrange(l, y.drop_first().len() as int));
    } else {
        assert(y.subrange(0, y.len() as int) =~= y);
    }
}

/// A line feed or nothing: what follows the content of a line.
spec fn line_end(tail: Seq<char>) -> bool {
    tail.len() == 0 || tail == seq!['\n']
}

proof fn lemma_fence_skip_ws(p: Seq<char>, y: Seq<char>)
    requires
        forall|i: int| 0 <= i < p.len() ==> is_unicode_ws(#[trigger] p[i]),
    ensures
        fence_from(p + y) == fence_from(y),
    decreases p.len(),
{
    if p.len() == 0 {
        assert(p + y =~= y);
    } else {
        assert((p + y)[0] == p[0]);
        assert((p + y).drop_first() =~= p.drop_first() + y);
        assert forall|i: int| 0 <= i < p.drop_first().len() implies is_unicode_ws(#[trigger] p.drop_first()[i]) by {
            assert(p.drop_first()[i] == p[i + 1]);
        }
        lemma_fence_skip_ws(p.drop_first(), y);
    }
}

/// Collapsing whitespace runs never makes a fence where there was none.
proof fn lemma_fence_collapse(t: Seq<char>, r: bool, tail: Seq<char>)
    requires
        line_end(tail),
    ensures
        fence_from(collapse_runs(t, r) + tail) ==> fence_from(t + tail),
    decreases t.len(),
{
    let c = collapse_runs(t, r);
    if t.len() == 0 {
        assert(c =~= Seq::<char>::empty());
        assert(c + tail =~= t + tail);
    } else {
        let t1 = t.drop_first();
        assert((t + tail)[0] == t[0]);
        assert((t + tail).drop_first() =~= t1 + tail);
        if sp_or_tab(t[0]) {
            lemma_fence_collapse(t1, true, tail);
            if !r {
                let x = collapse_runs(t1, true);
                assert(c + tail =~= seq![' '] + (x + tail));
                assert((c + tail).drop_first() =~= x + tail);
            }
        } else {
            let x = collapse_runs(t1, false);
            assert(c + tail =~= seq![t[0]] + (x + tail));
            assert((c + tail).drop_first() =~= x + tail);
            if is_unicode_ws(t[0]) {
                lemma_fence_collapse(t1, false, tail);
            } else {
                let y = c + tail;
                let z = t + tail;
                if fence_from(y) {
                    assert(y.len() >= 3);
                    assert(y[0] == z[0]);
                    // the second and third characters are markers, so neither
                    // came from a whitespace run or the line end
                    if t1.len() == 0 {
                        assert(x =~= Seq::<char>::empty());
                        assert(y[1] == tail[0]);
                        assert(false);
                    }
                    assert(y[1] == x[0]);
                    if sp_or_tab(t1[0]) {
                        assert(x[0] == ' ');
                        assert(false);
                    }
                    let x1 = collapse_runs(t1.drop_first(), false);
                    assert(x == seq![t1[0]] + x1);
                    assert(z[1] == t1[0]);
                    if t1.len() == 1 {
                        assert(t1.drop_first() =~= Seq::<char>::empty());
                        assert(x1 =~= Seq::<char>::empty());
                        assert(y[2] == tail[0]);
                        assert(false);
                    }
                    assert(y[2] == x1[0]);
                    let t2 = t1.drop_first();
                    if sp_or_tab(t2[0]) {
                        assert(x1[0] == ' ');
                        assert(false);
                    }
                    assert(x1 == seq![t2[0]] + collapse_runs(t2.drop_first(), false));
                    assert(z[2] == t2[0]);
                }
            }
        }
    }
}

/// Dropping trailing spaces and tabs never makes a fence where there was
/// none.
proof fn lemma_fence_trim(c2: Seq<char>, w: Seq<char>, tail: Seq<char>)
    requires
        line_end(tail),
    ensures
        fence_from(c2 + tail) ==> fence_from(c2 + w + tail),
    decreases c2.len(),
{
    if c2.len() == 0 {
        assert(c2 + tail =~= tail);
        if tail.len() > 0 {
            assert(tail[0] == '\n');
            assert(is_unicode_ws(tail[0]));
            assert(tail.drop_first() =~= Seq::<char>::empty());
            assert(!fence_from(tail.drop_first()));
            assert(!fence_from(tail));
        } else {
            assert(!fence_from(tail));
        }
    } else {
        let y = c2 + tail;
        let z = c2 + w + tail;
        assert(y[0] == c2[0] && z[0] == c2[0]);
        if is_unicode_ws(c2[0]) {
            lemma_fence_trim(c2.drop_first(), w, tail);
            assert(y.drop_first() =~= c2.drop_first() + tail);
            assert(z.drop_first() =~= c2.drop_first() + w + tail);
            assert(fence_from(y) == fence_from(y.drop_first()));
            assert(fence_from(z) == fence_from(z.drop_first()));
        } else if fence_from(y) {
            if c2.len() < 3 {
                assert(y[c2.len() as int] == tail[0]);
                assert(false);
            }
            assert(y[1] == z[1] && y[2] == z[2]);
        }
    }
}

/// The inline rules never turn a prose line into a fence delimiter.
proof fn lemma_prose_stays_prose(p: Seq<char>, cfg: OutputStreamlineConfig)
    requires
        one_line(p),
        !is_fence(p),
    ensures
        !is_fence(prose_line(p, cfg)),
{
    let has_nl = p.len() > 0 && p.last() == '\n';
    let c = if has_nl { p.drop_last() } else { p };
    let tail = if has_nl { seq!['\n'] } else { Seq::<char>::empty() };
    assert(p =~= c + tail);
    lemma_fence_from(p);
    let c1 = if cfg.collapse_inline_ws { collapse_interior(c) } else { c };
    if cfg.collapse_inline_ws {
        let k = indent_len(c);
        lemma_indent_len(c);
        let pre = c.subrange(0, k);
        let t = c.subrange(k, c.len() as int);
        assert forall|i: int| 0 <= i < pre.len() implies is_unicode_ws(#[trigger] pre[i]) by {
            assert(pre[i] == c[i]);
        }
        assert(c1 + tail =~= pre + (collapse_runs(t, false) + tail));
        assert(c + tail =~= pre + (t + tail));
        lemma_fence_skip_ws(pre, collapse_runs(t, false) + tail);
        lemma_fence_skip_ws(pre, t + tail);
        lemma_fence_collapse(t, false, tail);
    }
    let c2 = if cfg.trim_trailing { trim_trailing_sp(c1) } else { c1 };
    if cfg.trim_trailing {
        lemma_trim_trailing_shape(c1);
        let w = c1.subrange(c2.len() as int, c1.len() as int);
        assert(c1 =~= c2 + w);
        lemma_fence_trim(c2, w, tail);
    }
    let out = prose_line(p, cfg);
    assert(out =~= c2 + tail);
    lemma_fence_from(out);
}

/// Items read from fence state `st`: each fence delimiter or fenced line is
/// code, each other line prose that the inline rules leave unchanged.
spec fn consistent(items: Seq<(Seq<char>, bool)>, st: bool, cfg: OutputStreamlineConfig) -> bool
    decreases items.len(),
{
    if items.len() == 0 {
        true
    } else {
        let t = items[0].0;
        &&& items[0].1 == (is_fence(t) || st)
        &&& (!items[0].1 ==> prose_line(t, cfg) == t)
        &&& consistent(items.drop_first(), if is_fence(t) { !st } else { st }, cfg)
    }
}

proof fn lemma_texts_drop_first(items: Seq<(Seq<char>, bool)>)
    requires
        items.len() > 0,
    ensures
        texts(items).drop_first() == texts(items.drop_first()),
        texts(items)[0] == items[0].0,
{
    assert(texts(items).drop_first() =~= texts(items.drop_first()));
}

proof fn lemma_tag_consistent_fixed(items: Seq<(Seq<char>, bool)>, st: bool, cfg: OutputStreamlineConfig)
    requires
        consistent(items, st, cfg),
    ensures
        tag_lines(texts(items), st, cfg) == items,
    decreases items.len(),
{
    if items.len() == 0 {
        assert(texts(items) =~= Seq::<Seq<char>>::empty());
        assert(tag_lines(texts(items), st, cfg) =~= items);
    } else {
        lemma_texts_drop_first(items);
        let t = items[0].0;
        lemma_tag_consistent_fixed(items.drop_first(), if is_fence(t) { !st } else { st }, cfg);
        assert(tag_lines(texts(items), st, cfg) =~= seq![items[0]] + items.drop_first());
        assert(seq![items[0]] + items.drop_first() =~= items);
    }
}

proof fn lemma_tag_is_consistent(ps: Seq<Seq<char>>, st: bool, cfg: OutputStreamlineConfig)
    requires
        forall|i: int| 0 <= i < ps.len() ==> one_line(#[trigger] ps[i]),
    ensures
        consistent(tag_lines(ps, st, cfg), st, cfg),
    decreases ps.len(),
{
    if ps.len() > 0 {
        let rest = ps.drop_first();
        assert forall|i: int| 0 <= i < rest.len() implies one_line(#[trigger] rest[i]) by {
            assert(rest[i] == ps[i + 1]);
        }
        assert(one_line(ps[0]));
        let next = if is_fence(ps[0]) { !st } else { st };
        lemma_tag_is_consistent(rest, next, cfg);
        let t = tag_lines(ps, st, cfg);
        assert(t.drop_first() =~= tag_lines(rest, next, cfg));
        if !is_fence(ps[0]) && !st {
            lemma_prose_stays_prose(ps[0], cfg);
            prose_rules_are_idempotent(ps[0], cfg);
        }
    }
}

proof fn lemma_collapse_consistent(items: Seq<(Seq<char>, bool)>, run: bool, st: bool, cfg: OutputStreamlineConfig)
    requires
        consistent(items, st, cfg),
    ensures
        consistent(collapse_blank(items, run), st, cfg),
    decreases items.len(),
{
    if items.len() > 0 {
        let x = items[0];
        let rest = items.drop_first();
        let next = if is_fence(x.0) { !st } else { st };
        if x.1 {
            lemma_collapse_consistent(rest, false, next, cfg);
            assert((seq![x] + collapse_blank(rest, false)).drop_first() =~= collapse_blank(rest, false));
        } else if blank(x.0) {
            lemma_blank_is_not_fence(x.0);
            lemma_collapse_consistent(rest, true, next, cfg);
            if !run {
                assert((seq![x] + collapse_blank(rest, true)).drop_first() =~= collapse_blank(rest, true));
            }
        } else {
            lemma_collapse_consistent(rest, false, next, cfg);
            assert((seq![x] + collapse_blank(rest, false)).drop_first() =~= collapse_blank(rest, false));
        }
    }
}

proof fn lemma_consistent_take(items: Seq<(Seq<char>, bool)>, st: bool, cfg: OutputStreamlineConfig, n: int)
    requires
        consistent(items, st, cfg),
        0 <= n <= items.len(),
    ensures
        consistent(items.take(n), st, cfg),
    decreases items.len(),
{
    if n > 0 {
        let t = items[0].0;
        lemma_consistent_take(items.drop_first(), if is_fence(t) { !st } else { st }, cfg, n - 1);
        assert(items.take(n).drop_first() =~= items.drop_first().take(n - 1));
        assert(items.take(n)[0] == items[0]);
    }
}

proof fn lemma_consistent_skip_blanks(items: Seq<(Seq<char>, bool)>, cfg: OutputStreamlineConfig, a: int)
    requires
        consistent(items, false, cfg),
        0 <= a <= items.len(),
        forall|k: int| 0 <= k < a ==> blank(#[trigger] items[k].0),
    ensures
        consistent(items.skip(a), false, cfg),
    decreases a,
{
    if a > 0 {
        lemma_blank_is_not_fence(items[0].0);
        let rest = items.drop_first();
        assert forall|k: int| 0 <= k < a - 1 implies blank(#[trigger] rest[k].0) by {
            assert(rest[k] == items[k + 1]);
        }
        lemma_consistent_skip_blanks(rest, cfg, a - 1);
        assert(rest.skip(a - 1) =~= items.skip(a));
    } else {
        assert(items.skip(0) =~= items);
    }
}

/// No prose blank line follows another (a code line ends a run).
spec fn collapsed(items: Seq<(Seq<char>, bool)>, run: bool) -> bool
    decreases items.len(),
{
    if items.len() == 0 {
        true
    } else if items[0].1 {
        collapsed(items.drop_first(), false)
    } else if blank(items[0].0) {
        !run && collapsed(items.drop_first(), true)
    } else {
        collapsed(items.drop_first(), false)
    }
}

proof fn lemma_collapse_output_collapsed(items: Seq<(Seq<char>, bool)>, run: bool)
    ensures
        collapsed(collapse_blank(items, run), run),
    decreases items.len(),
{
    if items.len() > 0 {
        let x = items[0];
        let rest = items.drop_first();
        if x.1 {
            lemma_collapse_output_collapsed(rest, false);
            assert((seq![x] + collapse_blank(rest, false)).drop_first() =~= collapse_blank(rest, false));
        } else if blank(x.0) {
            lemma_collapse_output_collapsed(rest, true);
            if !run {
                assert((seq![x] + collapse_blank(rest, true)).drop_first() =~= collapse_blank(rest, true));
            }
        } else {
            lemma_collapse_output_collapsed(rest, false);
            assert((seq![x] + collapse_blank(rest, false)).drop_first() =~= collapse_blank(rest, false));
        }
    }
}

proof fn lemma_collapsed_fixed(items: Seq<(Seq<char>, bool)>, run: bool)
    requires
        collapsed(items, run),
    ensures
        collapse_blank(items, run) == items,
    decreases items.len(),
{
    if items.len() == 0 {
        assert(collapse_blank(items, run) =~= items);
    } else {
        let x = items[0];
        let rest = items.drop_first();
        let next = if x.1 { false } else if blank(x.0) { true } else { false };
        lemma_collapsed_fixed(rest, next);
        assert(seq![x] + rest =~= items);
    }
}

proof fn lemma_collapsed_take(items: Seq<(Seq<char>, bool)>, run: bool, n: int)
    requires
        collapsed(items, run),
        0 <= n <= items.len(),
    ensures
        collapsed(items.take(n), run),
    decreases items.len(),
{
    if n > 0 {
        let x = items[0];
        let next = if x.1 { false } else if blank(x.0) { true } else { false };
        lemma_collapsed_take(items.drop_first(), next, n - 1);
        assert(items.take(n).drop_first() =~= items.drop_first().take(n - 1));
        assert(items.take(n)[0] == items[0]);
    }
}

proof fn lemma_collapsed_skip(items: Seq<(Seq<char>, bool)>, run: bool, a: int)
    requires
        collapsed(items, run),
        0 <= a <= items.len(),
        a < items.len() ==> (items[a].1 || !blank(items[a].0)),
    ensures
        collapsed(items.skip(a), false),
    decreases a,
{
    if a == items.len() {
        assert(items.skip(a) =~= Seq::<(Seq<char>, bool)>::empty());
    } else if a == 0 {
        assert(items.skip(0) =~= items);
    } else {
        let x = items[0];
        let next = if x.1 { false } else if blank(x.0) { true } else { false };
        assert(items.drop_first()[a - 1] == items[a]);
        lemma_collapsed_skip(items.drop_first(), next, a - 1);
        assert(items.drop_first().skip(a - 1) =~= items.skip(a));
    }
}

/// Every item is one line, and every item but the last ends in a line
/// feed.
spec fn line_items(ts: Seq<Seq<char>>) -> bool {
    &&& forall|i: int| 0 <= i < ts.len() ==> one_line(#[trigger] ts[i])
    &&& forall|i: int| 0 <= i < ts.len() - 1 ==> (#[trigger] ts[i]).len() > 0 && ts[i].last() == '\n'
}

proof fn lemma_prose_line_shape(p: Seq<char>, cfg: OutputStreamlineConfig)
    requires
        one_line(p),
    ensures
        one_line(prose_line(p, cfg)),
        p.len() > 0 && p.last() == '\n' ==> prose_line(p, cfg).len() > 0 && prose_line(p, cfg).last() == '\n',
{
    let has_nl = p.len() > 0 && p.last() == '\n';
    let content = if has_nl { p.drop_last() } else { p };
    assert forall|i: int| 0 <= i < content.len() implies #[trigger] content[i] != '\n' by {
        assert(content[i] == p[i]);
        if !has_nl && i == p.len() - 1 {
            assert(p.last() == p[i]);
        }
    }
    let c1 = if cfg.collapse_inline_ws { collapse_interior(content) } else { content };
    if cfg.collapse_inline_ws {
        let k = indent_len(content);
        lemma_indent_len(content);
        let t = content.subrange(k, content.len() as int);
        assert forall|i: int| 0 <= i < t.len() implies #[trigger] t[i] != '\n' by {
            assert(t[i] == content[i + k]);
        }
        lemma_collapse_runs_no_newline(t, false);
        let rr = collapse_runs(t, false);
        assert forall|i: int| 0 <= i < c1.len() implies #[trigger] c1[i] != '\n' by {
            if i < k {
                assert(c1[i] == content[i]);
            } else {
                assert(c1[i] == rr[i - k]);
            }
        }
    }
    let c2 = if cfg.trim_trailing { trim_trailing_sp(c1) } else { c1 };
    lemma_trim_trailing_shape(c1);
    assert forall|i: int| 0 <= i < c2.len() implies #[trigger] c2[i] != '\n' by {
        assert(c2[i] == c1[i]);
    }
    let out = prose_line(p, cfg);
    assert forall|i: int| 0 <= i < out.len() - 1 implies #[trigger] out[i] != '\n' by {
        assert(out[i] == c2[i]);
    }
}

proof fn lemma_tag_line_items(ps: Seq<Seq<char>>, st: bool, cfg: OutputStreamlineConfig)
    requires
        piece_list(ps),
    ensures
        line_items(texts(tag_lines(ps, st, cfg))),
    decreases ps.len(),
{
    fenced_lines_pass_verbatim(ps, st, cfg);
    let t = tag_lines(ps, st, cfg);
    let ts = texts(t);
    assert forall|i: int| 0 <= i < ps.len() implies ({
        &&& one_line(#[trigger] ts[i])
        &&& i < ps.len() - 1 ==> ts[i].len() > 0 && ts[i].last() == '\n'
    }) by {
        assert(ps[i].len() > 0 && one_line(ps[i]));
        lemma_tag_item(ps, st, cfg, i);
        if !t[i].1 {
            lemma_prose_line_shape(ps[i], cfg);
        }
    }
}

proof fn lemma_tag_item(ps: Seq<Seq<char>>, st: bool, cfg: OutputStreamlineConfig, i: int)
    requires
        0 <= i < ps.len(),
    ensures
        tag_lines(ps, st, cfg)[i].0 == ps[i] || tag_lines(ps, st, cfg)[i].0 == prose_line(ps[i], cfg),
        !tag_lines(ps, st, cfg)[i].1 ==> tag_lines(ps, st, cfg)[i].0 == prose_line(ps[i], cfg),
    decreases i,
{
    let next = if is_fence(ps[0]) { !st } else { st };
    fenced_lines_pass_verbatim(ps, st, cfg);
    fenced_lines_pass_verbatim(ps.drop_first(), next, cfg);
    let t = tag_lines(ps, st, cfg);
    assert(t.drop_first() =~= tag_lines(ps.drop_first(), next, cfg));
    if i > 0 {
        lemma_tag_item(ps.drop_first(), next, cfg, i - 1);
        assert(t[i] == t.drop_first()[i - 1]);
        assert(ps[i] == ps.drop_first()[i - 1]);
    }
}

proof fn lemma_collapse_line_items(items: Seq<(Seq<char>, bool)>, run: bool)
    requires
        line_items(texts(items)),
    ensures
        line_items(texts(collapse_blank(items, run))),
        collapse_blank(items, run).len() <= items.len(),
        collapse_blank(items, run).len() > 0 && items.len() > 0 ==> collapse_blank(items, run).last() == items.last()
            || collapse_blank(items, run).last().0.last() == '\n',
    decreases items.len(),
{
    if items.len() > 0 {
        let x = items[0];
        let rest = items.drop_first();
        let next = if x.1 { false } else if blank(x.0) { true } else { false };
        assert(texts(rest) =~= texts(items).drop_first());
        assert(line_items(texts(rest))) by {
            assert forall|i: int| 0 <= i < texts(rest).len() implies one_line(#[trigger] texts(rest)[i]) by {
                assert(texts(rest)[i] == texts(items)[i + 1]);
            }
            assert forall|i: int| 0 <= i < texts(rest).len() - 1 implies (#[trigger] texts(rest)[i]).len() > 0
                && texts(rest)[i].last() == '\n' by {
                assert(texts(rest)[i] == texts(items)[i + 1]);
            }
        }
        lemma_collapse_line_items(rest, next);
        let cr = collapse_blank(rest, next);
        let out = collapse_blank(items, run);
        assert(texts(items)[0] == x.0);
        if out.len() == cr.len() + 1 {
            assert(out =~= seq![x] + cr);
            let tout = texts(out);
            assert forall|i: int| 0 <= i < tout.len() implies one_line(#[trigger] tout[i]) by {
                if i > 0 {
                    assert(tout[i] == texts(cr)[i - 1]);
                }
            }
            assert forall|i: int| 0 <= i < tout.len() - 1 implies (#[trigger] tout[i]).len() > 0
                && tout[i].last() == '\n' by {
                if i > 0 {
                    assert(tout[i] == texts(cr)[i - 1]);
                } else {
                    assert(rest.len() > 0);
                }
            }
            if cr.len() > 0 {
                assert(out.last() == cr.last());
                if rest.len() > 0 {
                    assert(rest.last() == items.last());
                }
            }
        } else {
            assert(out == cr);
            if cr.len() > 0 && rest.len() > 0 {
                assert(rest.last() == items.last());
            }
        }
    } else {
        assert(texts(collapse_blank(items, run)) =~= Seq::<Seq<char>>::empty());
    }
}


proof fn lemma_first_content_blanks(ps: Seq<Seq<char>>, i: int)
    requires
        0 <= i <= ps.len(),
    ensures
        forall|k: int| i <= k < first_content(ps, i) ==> blank(#[trigger] ps[k]),
    decreases ps.len() - i,
{
    if i < ps.len() && blank(ps[i]) {
        lemma_first_content_blanks(ps, i + 1);
    }
}

proof fn lemma_slice_piece_list(ps: Seq<Seq<char>>, a: int, b: int)
    requires
        piece_list(ps),
        0 <= a <= b <= ps.len(),
    ensures
        piece_list(ps.subrange(a, b)),
{
    let q = ps.subrange(a, b);
    assert forall|i: int| 0 <= i < q.len() implies {
        &&& (#[trigger] q[i]).len() > 0
        &&& one_line(q[i])
        &&& i < q.len() - 1 ==> q[i].last() == '\n'
    } by {
        assert(q[i] == ps[a + i]);
    }
}

/// Drop a last item whose text is empty: what is left is a piece list with
/// the same concatenation.
proof fn lemma_drop_empty_last(k: Seq<(Seq<char>, bool)>)
    requires
        line_items(texts(k)),
    ensures
        ({
            let k2 = if k.len() > 0 && k.last().0.len() == 0 { k.drop_last() } else { k };
            &&& piece_list(texts(k2))
            &&& concat(texts(k2)) == concat(texts(k))
            &&& k2 == k.take(k2.len() as int)
        }),
{
    let ts = texts(k);
    if k.len() > 0 && k.last().0.len() == 0 {
        let k2 = k.drop_last();
        assert(texts(k2) =~= ts.drop_last());
        assert(ts.last() == k.last().0);
        assert(concat(ts) == concat(ts.drop_last()) + ts.last());
        assert(concat(ts) =~= concat(ts.drop_last()));
        assert forall|i: int| 0 <= i < texts(k2).len() implies {
            &&& (#[trigger] texts(k2)[i]).len() > 0
            &&& one_line(texts(k2)[i])
            &&& i < texts(k2).len() - 1 ==> texts(k2)[i].last() == '\n'
        } by {
            assert(texts(k2)[i] == ts[i]);
        }
        assert(k2 =~= k.take(k2.len() as int));
    } else {
        assert forall|i: int| 0 <= i < ts.len() implies {
            &&& (#[trigger] ts[i]).len() > 0
            &&& one_line(ts[i])
            &&& i < ts.len() - 1 ==> ts[i].last() == '\n'
        } by {
            if i == ts.len() - 1 {
                assert(ts[i] == k.last().0);
            }
        }
        assert(k =~= k.take(k.len() as int));
    }
}

/// Law: streamlining is idempotent: every rule is a no-op on text the
/// rules already cleaned, so a second pass changes nothing, whatever the
/// configuration.
#[verifier::rlimit(60)]
#[verifier::spinoff_prover]
pub proof fn streamline_is_idempotent(text: Seq<char>, cfg: OutputStreamlineConfig)
    ensures
        streamline_spec(streamline_spec(text, cfg), cfg) == streamline_spec(text, cfg),
{
    if cfg.enabled && text.len() > 0 {
        let ps = pieces(text);
        lemma_pieces_are_pieces(text);
        assert forall|i: int| 0 <= i < ps.len() implies one_line(#[trigger] ps[i]) by {}
        let tagged = tag_lines(ps, false, cfg);
        lemma_tag_is_consistent(ps, false, cfg);
        lemma_tag_line_items(ps, false, cfg);
        let k = if cfg.collapse_blank_lines { collapse_blank(tagged, false) } else { tagged };
        if cfg.collapse_blank_lines {
            lemma_collapse_consistent(tagged, false, false, cfg);
            lemma_collapse_line_items(tagged, false);
            lemma_collapse_output_collapsed(tagged, false);
        }
        lemma_drop_empty_last(k);
        let k2 = if k.len() > 0 && k.last().0.len() == 0 { k.drop_last() } else { k };
        lemma_consistent_take(k, false, cfg, k2.len() as int);
        if cfg.collapse_blank_lines {
            lemma_collapsed_take(k, false, k2.len() as int);
        }
        let out = concat(texts(k));
        lemma_pieces_of_concat(texts(k2));
        let r = streamline_spec(text, cfg);
        if !cfg.trim_outer {
            assert(r == out);
            if r.len() > 0 {
                lemma_tag_consistent_fixed(k2, false, cfg);
                if cfg.collapse_blank_lines {
                    lemma_collapsed_fixed(k2, false);
                }
            }
        } else {
            let ts = texts(k2);
            let a = first_content(ts, 0);
            let b = last_content(ts, ts.len() as int);
            lemma_first_content(ts, 0);
            lemma_first_content_blanks(ts, 0);
            lemma_last_content(ts, ts.len() as int);
            if a < b {
                let j = k2.subrange(a, b);
                assert(texts(j) =~= ts.subrange(a, b));
                assert(r == concat(texts(j)));
                assert forall|x: int| 0 <= x < a implies blank(#[trigger] k2[x].0) by {
                    assert(ts[x] == k2[x].0);
                }
                lemma_consistent_skip_blanks(k2, cfg, a);
                lemma_consistent_take(k2.skip(a), false, cfg, b - a);
                assert(k2.skip(a).take(b - a) =~= j);
                if cfg.collapse_blank_lines {
                    assert(ts[a] == k2[a].0);
                    lemma_collapsed_skip(k2, false, a);
                    lemma_collapsed_take(k2.skip(a), false, b - a);
                }
                lemma_slice_piece_list(ts, a, b);
                lemma_pieces_of_concat(texts(j));
                lemma_tag_consistent_fixed(j, false, cfg);
                if cfg.collapse_blank_lines {
                    lemma_collapsed_fixed(j, false);
                }
                let tj = texts(j);
                assert(tj[0] == ts[a]);
                assert(tj[tj.len() - 1] == ts[b - 1]);
                assert(first_content(tj, 0) == 0);
                assert(last_content(tj, tj.len() as int) == tj.len());
                assert(tj.subrange(0, tj.len() as int) =~= tj);
                lemma_concat_len(tj);
            } else {
                assert(r == Seq::<char>::empty());
            }
        }
    }
}

} // verus!
