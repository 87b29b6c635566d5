//! Skill body delivery helpers: the source paths a skill prompt carries,
//! the canonical `[skill loaded]` marker block, and the tail reminder text.

use vstd::prelude::*;
use crate::text::{
    chars_of, decimal, extend_from_range, line_ranges, lines, push_char, push_decimal, push_str, starts_with, string_from_range,
    starts_with_in_range, string_from_chars, trim, trim_range,
};

verus! {

broadcast use vstd::seq::group_seq_axioms;

pub open spec fn source_prefix() -> Seq<char> {
    seq!['>', ' ', 'S', 'o', 'u', 'r', 'c', 'e', ':', ' ']
}

/// Line `k` of `ls` is blank after trimming.
pub open spec fn blank_line(ls: Seq<Seq<char>>, k: int) -> bool {
    trim(ls[k]).len() == 0
}

/// The source path contributed by line `k`: a non-blank, paragraph-initial
/// `> Source: <path>` line with a non-empty trimmed path.
pub open spec fn source_candidate(ls: Seq<Seq<char>>, k: int) -> Option<Seq<char>> {
    if blank_line(ls, k) {
        None
    } else if (k == 0 || blank_line(ls, k - 1)) && starts_with(ls[k], source_prefix()) {
        let path = trim(ls[k].subrange(10, ls[k].len() as int));
        if path.len() == 0 {
            None
        } else {
            Some(path)
        }
    } else {
        None
    }
}

/// Append `x` unless it is already present.
pub open spec fn push_unique(acc: Seq<Seq<char>>, x: Seq<char>) -> Seq<Seq<char>> {
    if acc.contains(x) {
        acc
    } else {
        acc.push(x)
    }
}

/// The distinct source paths of the first `n` lines, first occurrence first.
pub open spec fn source_paths_upto(ls: Seq<Seq<char>>, n: int) -> Seq<Seq<char>>
    decreases n,
{
    if n <= 0 {
        Seq::empty()
    } else {
        let acc = source_paths_upto(ls, n - 1);
        match source_candidate(ls, n - 1) {
            Some(p) => push_unique(acc, p),
            None => acc,
        }
    }
}

/// Every source path of a skill prompt body, in discovery order.
pub open spec fn source_paths(body: Seq<char>) -> Seq<Seq<char>> {
    source_paths_upto(lines(body), lines(body).len() as int)
}

fn contains_path(paths: &Vec<&str>, p: &Vec<char>) -> (b: bool)
    ensures
        b == paths@.map_values(|s: &str| s@).contains(p@),
{
    let ghost ps = paths@.map_values(|s: &str| s@);
    let mut i: usize = 0;
    while i < paths.len()
        invariant
            i <= paths@.len(),
            ps == paths@.map_values(|s: &str| s@),
            forall|k: int| 0 <= k < i ==> ps[k] != p@,
        decreases paths.len() - i,
    {
        let q = chars_of(paths[i]);
        if q.len() == p.len() {
            if crate::text::range_eq(&q, 0, q.len(), p.as_slice()) {
                assert(q@.subrange(0, q@.len() as int) =~= q@);
                assert(ps[i as int] == p@);
                return true;
            }
            assert(q@.subrange(0, q@.len() as int) =~= q@);
        }
        i += 1;
    }
    false
}

/// Extract every source-file path a skill prompt carries, in discovery order
/// (first occurrence wins on duplicates). Each paragraph-initial
/// `> Source: <path>` line contributes one path, running to end of line.
pub fn source_paths_from_body(body: &str) -> (r: Vec<&str>)
    ensures
        r@.map_values(|s: &str| s@) == source_paths(body@),
{
    let v = chars_of(body);
    let ranges = line_ranges(&v);
    let ghost ls = lines(v@);
    let prefix = ['>', ' ', 'S', 'o', 'u', 'r', 'c', 'e', ':', ' '];
    assert(prefix@ =~= source_prefix());
    let mut paths: Vec<&str> = Vec::new();
    let mut paragraph_start = true;
    let mut k: usize = 0;
    while k < ranges.len()
        invariant
            v@ == body@,
            ls == lines(v@),
            prefix@ == source_prefix(),
            k <= ranges@.len() == ls.len(),
            forall|m: int|
                #![trigger ranges@[m]]
                0 <= m < ranges@.len() ==> {
                    &&& ranges@[m].0 <= ranges@[m].1 <= v@.len()
                    &&& v@.subrange(ranges@[m].0 as int, ranges@[m].1 as int) == ls[m]
                },
            paragraph_start == (k == 0 || blank_line(ls, k - 1)),
            paths@.map_values(|s: &str| s@) == source_paths_upto(ls, k as int),
        decreases ranges.len() - k,
    {
        let (a, b) = ranges[k];
        assert(v@.subrange(a as int, b as int) == ls[k as int]);
        let (ta, tb) = trim_range(&v, a, b);
        let ghost before = paths@;
        if ta == tb {
            paragraph_start = true;
        } else {
            if paragraph_start && starts_with_in_range(&v, a, b, &prefix) {
                let (pa, pb) = trim_range(&v, a + 10, b);
                assert(ls[k as int].subrange(10, ls[k as int].len() as int) =~= v@.subrange(
                    a + 10,
                    b as int,
                ));
                if pa < pb {
                    let mut pv: Vec<char> = Vec::new();
                    extend_from_range(&mut pv, &v, pa, pb);
                    if !contains_path(&paths, &pv) {
                        let piece = body.substring_char(pa, pb);
                        paths.push(piece);
                        assert(paths@.map_values(|s: &str| s@) =~= before.map_values(
                            |s: &str| s@,
                        ).push(pv@));
                    }
                }
            }
            paragraph_start = false;
        }
        k += 1;
    }
    paths
}

/// The first source-file path of a skill prompt, if any.
pub fn source_path_from_body(body: &str) -> (r: Option<&str>)
    ensures
        match r {
            None => source_paths(body@).len() == 0,
            Some(p) => source_paths(body@).len() > 0 && p@ == source_paths(body@)[0],
        },
{
    let paths = source_paths_from_body(body);
    if paths.len() == 0 {
        None
    } else {
        assert(paths@.map_values(|s: &str| s@)[0] == paths@[0]@);
        Some(paths[0])
    }
}

pub open spec fn marker_head() -> Seq<char> {
    "[skill loaded] "@
}

/// `[skill loaded] <path>`.
pub fn full_body_marker(path: &str) -> (r: String)
    ensures
        r@ == marker_head() + path@,
{
    let mut s = String::new();
    push_str(&mut s, "[skill loaded] ");
    push_str(&mut s, path);
    s
}

// ---------------------------------------------------------------------------
// Lexicographic order (the order of `str`: byte-wise UTF-8, which is the
// code-point order of the characters)
// ---------------------------------------------------------------------------

pub open spec fn lex_lt(a: Seq<char>, b: Seq<char>) -> bool
    decreases a.len(),
{
    if a.len() == 0 {
        b.len() > 0
    } else if b.len() == 0 {
        false
    } else if a[0] < b[0] {
        true
    } else if a[0] > b[0] {
        false
    } else {
        lex_lt(a.drop_first(), b.drop_first())
    }
}

pub(crate) proof fn lemma_lex_total(a: Seq<char>, b: Seq<char>)
    ensures
        lex_lt(a, b) || lex_lt(b, a) || a == b,
        !(lex_lt(a, b) && lex_lt(b, a)),
    decreases a.len(),
{
    if a.len() > 0 && b.len() > 0 && a[0] == b[0] {
        lemma_lex_total(a.drop_first(), b.drop_first());
        if a.drop_first() == b.drop_first() {
            assert(a =~= seq![a[0]] + a.drop_first());
            assert(b =~= seq![b[0]] + b.drop_first());
        }
    } else if a.len() == 0 && b.len() == 0 {
        assert(a =~= b);
    }
}

pub(crate) fn lex_less(a: &Vec<char>, b: &Vec<char>) -> (r: bool)
    ensures
        r == lex_lt(a@, b@),
{
    let mut i: usize = 0;
    assert(a@.subrange(0, a@.len() as int) =~= a@);
    assert(b@.subrange(0, b@.len() as int) =~= b@);
    while i < a.len() && i < b.len() && a[i] == b[i]
        invariant
            i <= a@.len(),
            i <= b@.len(),
            lex_lt(a@, b@) == lex_lt(a@.subrange(i as int, a@.len() as int), b@.subrange(
                i as int,
                b@.len() as int,
            )),
        decreases a.len() - i,
    {
        let ghost sa = a@.subrange(i as int, a@.len() as int);
        let ghost sb = b@.subrange(i as int, b@.len() as int);
        assert(sa.drop_first() =~= a@.subrange(i + 1, a@.len() as int));
        assert(sb.drop_first() =~= b@.subrange(i + 1, b@.len() as int));
        i += 1;
    }
    if i == a.len() {
        i < b.len()
    } else if i == b.len() {
        false
    } else {
        a[i] < b[i]
    }
}

/// Adjacent elements strictly increase.
pub open spec fn strictly_sorted(s: Seq<Seq<char>>) -> bool {
    forall|i: int| 0 <= i < s.len() - 1 ==> lex_lt(#[trigger] s[i], s[i + 1])
}

/// The paths sorted lexicographically with duplicates removed.
pub(crate) fn sorted_unique(paths: &[&str]) -> (r: Vec<Vec<char>>)
    ensures
        strictly_sorted(r@.map_values(|v: Vec<char>| v@)),
        r@.map_values(|v: Vec<char>| v@).to_set() == paths@.map_values(|s: &str| s@).to_set(),
{
    let ghost ps = paths@.map_values(|s: &str| s@);
    let mut r: Vec<Vec<char>> = Vec::new();
    let mut i: usize = 0;
    while i < paths.len()
        invariant
            i <= paths@.len(),
            ps == paths@.map_values(|s: &str| s@),
            strictly_sorted(r@.map_values(|v: Vec<char>| v@)),
            r@.map_values(|v: Vec<char>| v@).to_set() == ps.subrange(0, i as int).to_set(),
        decreases paths.len() - i,
    {
        let x = chars_of(paths[i]);
        let ghost rs = r@.map_values(|v: Vec<char>| v@);
        let mut j: usize = 0;
        while j < r.len() && lex_less(&r[j], &x)
            invariant
                j <= r@.len(),
                rs == r@.map_values(|v: Vec<char>| v@),
                forall|m: int| 0 <= m < j ==> lex_lt(#[trigger] rs[m], x@),
            decreases r.len() - j,
        {
            j += 1;
        }
        let same = j < r.len() && crate::text::range_eq(&r[j], 0, r[j].len(), x.as_slice());
        assert(ps.subrange(0, i + 1) =~= ps.subrange(0, i as int).push(x@));
        proof {
            ps.subrange(0, i as int).lemma_push_to_set_commute(x@);
        }
        if same {
            assert(r@[j as int]@.subrange(0, r@[j as int]@.len() as int) =~= r@[j as int]@);
            assert(rs[j as int] == x@);
            assert(rs.to_set() =~= rs.to_set().insert(x@));
        } else {
            proof {
                if j < r@.len() {
                    lemma_lex_total(rs[j as int], x@);
                    assert(r@[j as int]@.subrange(0, r@[j as int]@.len() as int) =~= r@[j as int]@);
                }
            }
            r.insert(j, x);
            let ghost rs2 = r@.map_values(|v: Vec<char>| v@);
            assert(rs2 =~= rs.insert(j as int, x@));
            proof {
                assert forall|m: int| 0 <= m < rs2.len() - 1 implies lex_lt(#[trigger] rs2[m], rs2[m + 1]) by {
                    if m < j - 1 {
                        assert(rs2[m] == rs[m] && rs2[m + 1] == rs[m + 1]);
                    } else if m == j - 1 {
                        assert(rs2[m] == rs[m]);
                    } else if m == j {
                    } else {
                        assert(rs2[m] == rs[m - 1] && rs2[m + 1] == rs[m]);
                    }
                }
                assert(rs2.to_set() =~= rs.to_set().insert(x@)) by {
                    assert forall|y: Seq<char>| rs2.to_set().contains(y) <==> rs.to_set().insert(x@).contains(y) by {
                        if rs2.to_set().contains(y) {
                            let m = choose|m: int| 0 <= m < rs2.len() && rs2[m] == y;
                            if m < j {
                                assert(rs[m] == y);
                            } else if m > j {
                                assert(rs[m - 1] == y);
                            }
                        }
                        if rs.to_set().contains(y) && y != x@ {
                            let m = choose|m: int| 0 <= m < rs.len() && rs[m] == y;
                            if m < j {
                                assert(rs2[m] == y);
                            } else {
                                assert(rs2[m + 1] == y);
                            }
                        }
                        if y == x@ {
                            assert(rs2[j as int] == y);
                        }
                    }
                }
            }
        }
        i += 1;
    }
    assert(ps.subrange(0, i as int) =~= ps);
    r
}

/// The marker lines of `paths`, joined by line feeds.
pub open spec fn marker_lines(paths: Seq<Seq<char>>) -> Seq<char>
    decreases paths.len(),
{
    if paths.len() == 0 {
        Seq::empty()
    } else if paths.len() == 1 {
        marker_head() + paths[0]
    } else {
        marker_lines(paths.drop_last()) + seq!['\n'] + marker_head() + paths.last()
    }
}

proof fn lemma_lex_trans(a: Seq<char>, b: Seq<char>, c: Seq<char>)
    requires
        lex_lt(a, b),
        lex_lt(b, c),
    ensures
        lex_lt(a, c),
    decreases a.len(),
{
    if a.len() > 0 && a[0] == b[0] && b[0] == c[0] {
        lemma_lex_trans(a.drop_first(), b.drop_first(), c.drop_first());
    }
}

proof fn lemma_sorted_pairwise(s: Seq<Seq<char>>, i: int, j: int)
    requires
        strictly_sorted(s),
        0 <= i < j < s.len(),
    ensures
        lex_lt(s[i], s[j]),
    decreases j - i,
{
    if j > i + 1 {
        lemma_sorted_pairwise(s, i, j - 1);
        assert(lex_lt(s[j - 1], s[j]));
        lemma_lex_trans(s[i], s[j - 1], s[j]);
    }
}

proof fn lemma_sorted_unique(a: Seq<Seq<char>>, b: Seq<Seq<char>>)
    requires
        strictly_sorted(a),
        strictly_sorted(b),
        a.to_set() == b.to_set(),
    ensures
        a == b,
    decreases a.len(),
{
    if a.len() == 0 {
        if b.len() > 0 {
            assert(b.to_set().contains(b[0]));
        }
        assert(a =~= b);
    } else {
        assert(a.to_set().contains(a[0]));
        if b.len() == 0 {
            assert(b.to_set().contains(a[0]));
            assert(false);
        }
        assert(b.to_set().contains(b[0]));
        let k = choose|k: int| 0 <= k < b.len() && b[k] == a[0];
        let m = choose|m: int| 0 <= m < a.len() && a[m] == b[0];
        lemma_lex_total(a[0], a[0]);
        if k > 0 {
            lemma_sorted_pairwise(b, 0, k);
            if m > 0 {
                lemma_sorted_pairwise(a, 0, m);
                lemma_lex_total(a[0], b[0]);
            }
        }
        assert(a[0] == b[0]);
        let x = a[0];
        let a1 = a.drop_first();
        let b1 = b.drop_first();
        assert forall|i: int| 0 <= i < a1.len() - 1 implies lex_lt(#[trigger] a1[i], a1[i + 1]) by {
            assert(a1[i] == a[i + 1] && a1[i + 1] == a[i + 2]);
        }
        assert forall|i: int| 0 <= i < b1.len() - 1 implies lex_lt(#[trigger] b1[i], b1[i + 1]) by {
            assert(b1[i] == b[i + 1] && b1[i + 1] == b[i + 2]);
        }
        assert(a1.to_set() =~= a.to_set().remove(x)) by {
            assert forall|y: Seq<char>| a1.to_set().contains(y) implies a.to_set().remove(x).contains(y) by {
                let i = choose|i: int| 0 <= i < a1.len() && a1[i] == y;
                assert(a[i + 1] == y);
                lemma_sorted_pairwise(a, 0, i + 1);
            }
            assert forall|y: Seq<char>| a.to_set().remove(x).contains(y) implies a1.to_set().contains(y) by {
                let i = choose|i: int| 0 <= i < a.len() && a[i] == y;
                assert(a1[i - 1] == y);
            }
        }
        assert(b1.to_set() =~= b.to_set().remove(x)) by {
            assert forall|y: Seq<char>| b1.to_set().contains(y) implies b.to_set().remove(x).contains(y) by {
                let i = choose|i: int| 0 <= i < b1.len() && b1[i] == y;
                assert(b[i + 1] == y);
                lemma_sorted_pairwise(b, 0, i + 1);
            }
            assert forall|y: Seq<char>| b.to_set().remove(x).contains(y) implies b1.to_set().contains(y) by {
                let i = choose|i: int| 0 <= i < b.len() && b[i] == y;
                assert(b1[i - 1] == y);
            }
        }
        lemma_sorted_unique(a1, b1);
        assert(a =~= seq![x] + a1);
        assert(b =~= seq![x] + b1);
    }
}

/// Law: the marker block depends only on the set of paths: any two
/// strictly sorted path lists with the same elements give the same block,
/// so reordering the paths or repeating one changes nothing.
pub proof fn marker_block_depends_on_set_only(a: Seq<Seq<char>>, b: Seq<Seq<char>>)
    requires
        strictly_sorted(a),
        strictly_sorted(b),
        a.to_set() == b.to_set(),
    ensures
        a == b,
        marker_lines(a) == marker_lines(b),
        marker_block_of(a.to_set()) == marker_lines(a),
{
    lemma_sorted_unique(a, b);
    let c = sorted_paths(a.to_set());
    assert(strictly_sorted(a) && a.to_set() == a.to_set());
    assert(strictly_sorted(c) && c.to_set() == a.to_set());
    lemma_sorted_unique(c, a);
}

/// The set of paths a slice names.
pub open spec fn path_set(paths: Seq<&str>) -> Set<Seq<char>> {
    paths.map_values(|s: &str| s@).to_set()
}

/// The marker block of a set of paths: the marker lines of its elements
/// in strictly increasing order.
pub open spec fn marker_block_of(paths: Set<Seq<char>>) -> Seq<char> {
    marker_lines(sorted_paths(paths))
}

/// The elements of a set of paths in strictly increasing order.
pub open spec fn sorted_paths(paths: Set<Seq<char>>) -> Seq<Seq<char>> {
    choose|s: Seq<Seq<char>>| strictly_sorted(s) && s.to_set() == paths
}

/// The marker block heading the transient full-body message: one
/// `[skill loaded] <path>` line per source path, sorted lexicographically
/// and deduplicated, so `$A $B` and `$B $A` give the same block.
pub fn full_body_marker_block(paths: &[&str]) -> (r: String)
    ensures
        exists|sorted: Seq<Seq<char>>|
            {
                &&& strictly_sorted(sorted)
                &&& sorted.to_set() == paths@.map_values(|s: &str| s@).to_set()
                &&& r@ == marker_lines(sorted)
            },
        r@ == marker_block_of(path_set(paths@)),
{
    let sorted = sorted_unique(paths);
    let ghost ss = sorted@.map_values(|v: Vec<char>| v@);
    let mut out = String::new();
    let mut i: usize = 0;
    while i < sorted.len()
        invariant
            i <= sorted@.len(),
            ss == sorted@.map_values(|v: Vec<char>| v@),
            out@ == marker_lines(ss.subrange(0, i as int)),
        decreases sorted.len() - i,
    {
        if i > 0 {
            push_char(&mut out, '\n');
        }
        push_str(&mut out, "[skill loaded] ");
        let p = string_from_chars(&sorted[i]);
        push_str(&mut out, p.as_str());
        let ghost pre = ss.subrange(0, i as int);
        assert(ss.subrange(0, i + 1).drop_last() =~= pre);
        if i == 0 {
            assert(pre =~= Seq::<Seq<char>>::empty());
        }
        i += 1;
    }
    assert(ss.subrange(0, i as int) =~= ss);
    proof {
        let pset = path_set(paths@);
        assert(strictly_sorted(ss) && ss.to_set() == pset);
        assert(exists|s: Seq<Seq<char>>| strictly_sorted(s) && s.to_set() == pset);
        let c = sorted_paths(pset);
        assert(strictly_sorted(c) && c.to_set() == pset);
        lemma_sorted_unique(c, ss);
    }
    out
}

pub open spec fn default_skills_root() -> Seq<char> {
    "~/.opencoder/skills"@
}

/// One catalog line: `- <name>` or `- <name>: <description>`.
pub open spec fn catalog_line(entry: (Seq<char>, Seq<char>)) -> Seq<char> {
    if entry.1.len() == 0 {
        "- "@ + entry.0
    } else {
        "- "@ + entry.0 + ": "@ + entry.1
    }
}

pub open spec fn catalog_lines(entries: Seq<(Seq<char>, Seq<char>)>) -> Seq<char>
    decreases entries.len(),
{
    if entries.len() == 0 {
        Seq::empty()
    } else {
        catalog_lines(entries.drop_last()) + seq!['\n'] + catalog_line(entries.last())
    }
}

pub open spec fn skills_section(root: Seq<char>, entries: Seq<(Seq<char>, Seq<char>)>) -> Seq<
    char,
> {
    "[skills]\nEnabled skills live under "@ + root + ":"@ + catalog_lines(entries) + "\n"@
        + "When a task matches an enabled skill, read its SKILL.md file under that directory first, then follow it."@
}

pub open spec fn active_section(path: Seq<char>) -> Seq<char> {
    "[active skill]\nAn active skill is in effect: "@ + path
        + "\nIts full body (or a truncated version) is loaded into the conversation above as a `[skill loaded]` message; if you cannot find it there (e.g. after compaction), read that file, then follow it."@
}

/// The reminder text for a catalog, an optional active path and the
/// resolved skills directory.
pub open spec fn reminder_spec(
    root: Option<Seq<char>>,
    entries: Seq<(Seq<char>, Seq<char>)>,
    active: Option<Seq<char>>,
) -> Seq<char> {
    let r = match root {
        Some(d) => d,
        None => default_skills_root(),
    };
    match (entries.len() > 0, active) {
        (false, None) => Seq::empty(),
        (true, None) => skills_section(r, entries),
        (false, Some(p)) => active_section(p),
        (true, Some(p)) => skills_section(r, entries) + "\n\n"@ + active_section(p),
    }
}

pub open spec fn entries_view(catalog: Seq<(String, String)>) -> Seq<(Seq<char>, Seq<char>)> {
    catalog.map_values(|e: (String, String)| (e.0@, e.1@))
}

/// The reminder text: empty when there is neither a catalog nor an active
/// path; otherwise the `[skills]` and/or `[active skill]` sections joined by
/// a blank line. `skills_root` is the resolved skills directory, when the
/// home directory could be resolved.
pub fn reminder_text(
    catalog: &[(String, String)],
    active_path: Option<&str>,
    skills_root: Option<&str>,
) -> (r: String)
    ensures
        r@ == reminder_spec(
            match skills_root {
                Some(d) => Some(d@),
                None => None,
            },
            entries_view(catalog@),
            match active_path {
                Some(p) => Some(p@),
                None => None,
            },
        ),
{
    let ghost es = entries_view(catalog@);
    let mut out = String::new();
    if catalog.len() > 0 {
        push_str(&mut out, "[skills]\nEnabled skills live under ");
        match skills_root {
            Some(d) => push_str(&mut out, d),
            None => push_str(&mut out, "~/.opencoder/skills"),
        }
        push_str(&mut out, ":");
        let ghost head = out@;
        let mut i: usize = 0;
        while i < catalog.len()
            invariant
                i <= catalog@.len(),
                es == entries_view(catalog@),
                out@ == head + catalog_lines(es.subrange(0, i as int)),
            decreases catalog.len() - i,
        {
            push_char(&mut out, '\n');
            push_str(&mut out, "- ");
            push_str(&mut out, catalog[i].0.as_str());
            if !catalog[i].1.as_str().is_empty() {
                push_str(&mut out, ": ");
                push_str(&mut out, catalog[i].1.as_str());
            }
            assert(es.subrange(0, i + 1).drop_last() =~= es.subrange(0, i as int));
            assert(es[i as int] == (catalog@[i as int].0@, catalog@[i as int].1@));
            i += 1;
        }
        assert(es.subrange(0, i as int) =~= es);
        push_str(&mut out, "\n");
        push_str(
            &mut out,
            "When a task matches an enabled skill, read its SKILL.md file under that directory first, then follow it.",
        );
    }
    if let Some(path) = active_path {
        if catalog.len() > 0 {
            push_str(&mut out, "\n\n");
        }
        push_str(&mut out, "[active skill]\nAn active skill is in effect: ");
        push_str(&mut out, path);
        push_str(
            &mut out,
            "\nIts full body (or a truncated version) is loaded into the conversation above as a `[skill loaded]` message; if you cannot find it there (e.g. after compaction), read that file, then follow it.",
        );
    }
    out
}

// ---------------------------------------------------------------------------
// The one-shot skill body
// ---------------------------------------------------------------------------

/// Token budget of one injected skill body.
pub const MAX_INJECT_TOKENS: usize = 20000;

/// `s` has a blank line (two line feeds) starting at `k`.
pub open spec fn blank_at(s: Seq<char>, k: int) -> bool {
    0 <= k && k + 1 < s.len() && s[k] == '\n' && s[k + 1] == '\n'
}

/// The body of a skill prompt: the text after the leading `> Source: ...`
/// block (up to the first blank line), or the whole prompt when it has no
/// such prefix.
pub open spec fn skill_body(prompt: Seq<char>) -> Seq<char> {
    let n = source_prefix().len();
    if prompt.len() >= n && prompt.subrange(0, n as int) == source_prefix() {
        let rest = prompt.subrange(n as int, prompt.len() as int);
        if exists|k: int| #[trigger] blank_at(rest, k) {
            let k = choose|k: int| #[trigger] blank_at(rest, k) && forall|j: int| 0 <= j < k ==> !blank_at(rest, j);
            rest.subrange(k + 2, rest.len() as int)
        } else {
            prompt
        }
    } else {
        prompt
    }
}

pub fn skill_body_of(prompt: &str) -> (r: String)
    ensures
        r@ == skill_body(prompt@),
{
    let v = chars_of(prompt);
    let pre = ['>', ' ', 'S', 'o', 'u', 'r', 'c', 'e', ':', ' '];
    assert(pre@ =~= source_prefix());
    if v.len() < 10 || !crate::text::range_eq(&v, 0, 10, &pre) {
        return string_from_chars(&v);
    }
    let ghost rest = v@.subrange(10, v@.len() as int);
    assert(source_prefix().len() == 10);
    let mut i: usize = 10;
    while i < v.len() - 1
        invariant
            10 <= i <= v@.len(),
            v@.len() >= 10,
            source_prefix().len() == 10,
            v@.subrange(0, 10) == source_prefix(),
            v@ == prompt@,
            rest == v@.subrange(10, v@.len() as int),
            forall|j: int| 0 <= j < i - 10 ==> !#[trigger] blank_at(rest, j),
        decreases v.len() - i,
    {
        if v[i] == '\n' && v[i + 1] == '\n' {
            proof {
                let k = (i - 10) as int;
                assert(blank_at(rest, k));
                let w = choose|w: int| #[trigger] blank_at(rest, w) && forall|j: int| 0 <= j < w ==> !blank_at(rest, j);
                if w < k {
                } else if w > k {
                }
                assert(w == k);
                assert(rest.subrange(k + 2, rest.len() as int) =~= v@.subrange(i + 2, v@.len() as int));
            }
            return string_from_range(&v, i + 2, v.len());
        }
        i += 1;
    }
    proof {
        if exists|k: int| #[trigger] blank_at(rest, k) {
            let k = choose|k: int| #[trigger] blank_at(rest, k);
            assert(false);
        }
    }
    string_from_chars(&v)
}

/// The largest `k` in `[lo, hi]` the prefix search settles on, when the
/// probe at `mid` answers `fits(mid)`.
pub open spec fn search_from(lo: nat, hi: nat, fits: spec_fn(nat) -> bool) -> nat
    decreases hi - lo,
{
    if lo >= hi {
        lo
    } else {
        let mid: nat = (lo + (hi - lo + 1) / 2) as nat;
        if fits(mid) {
            search_from(mid, hi, fits)
        } else {
            search_from(lo, (mid - 1) as nat, fits)
        }
    }
}

/// The binary search for the longest whole-line prefix of an oversized
/// body that fits the token budget (the caller measures each probe).
pub struct PrefixSearch {
    lo: usize,
    hi: usize,
}

impl PrefixSearch {
    pub closed spec fn lo_spec(&self) -> nat {
        self.lo as nat
    }

    pub closed spec fn hi_spec(&self) -> nat {
        self.hi as nat
    }

    /// A search over the prefixes of `0..=n` lines.
    pub fn new(n: usize) -> (s: Self)
        ensures
            s.lo_spec() == 0,
            s.hi_spec() == n,
    {
        PrefixSearch { lo: 0, hi: n }
    }

    /// The line count to measure next; `None` once the search has settled.
    pub fn probe(&self) -> (r: Option<usize>)
        ensures
            match r {
                Some(mid) => self.lo_spec() < self.hi_spec() && mid == self.lo_spec() + (self.hi_spec() - self.lo_spec()
                    + 1) / 2,
                None => self.lo_spec() >= self.hi_spec(),
            },
    {
        if self.lo >= self.hi {
            None
        } else {
            Some(self.lo + (self.hi - self.lo) / 2 + (self.hi - self.lo) % 2)
        }
    }

    /// Record whether the prefix of `mid` lines fits.
    pub fn record(&mut self, mid: usize, fits: bool)
        requires
            old(self).lo_spec() < old(self).hi_spec(),
            mid == old(self).lo_spec() + (old(self).hi_spec() - old(self).lo_spec() + 1) / 2,
        ensures
            fits ==> final(self).lo_spec() == mid && final(self).hi_spec() == old(self).hi_spec(),
            !fits ==> final(self).lo_spec() == old(self).lo_spec() && final(self).hi_spec() == mid - 1,
    {
        if fits {
            self.lo = mid;
        } else {
            self.hi = mid - 1;
        }
    }

    /// The settled line count.
    pub fn result(&self) -> (k: usize)
        ensures
            k == self.lo_spec(),
    {
        self.lo
    }
}

/// When fitting is monotone (fewer lines never fit worse), the search
/// settles on the largest line count in `[lo, hi]` that fits, or `lo` when
/// none above it does.
pub proof fn prefix_search_finds_the_longest_fit(lo: nat, hi: nat, fits: spec_fn(nat) -> bool)
    requires
        lo <= hi,
        forall|a: nat, b: nat| a <= b && #[trigger] fits(b) ==> #[trigger] fits(a),
    ensures
        lo <= search_from(lo, hi, fits) <= hi,
        search_from(lo, hi, fits) > lo ==> fits(search_from(lo, hi, fits)),
        forall|k: nat| search_from(lo, hi, fits) < k <= hi ==> !#[trigger] fits(k),
    decreases hi - lo,
{
    if lo < hi {
        let mid: nat = (lo + (hi - lo + 1) / 2) as nat;
        if fits(mid) {
            prefix_search_finds_the_longest_fit(mid, hi, fits);
        } else {
            prefix_search_finds_the_longest_fit(lo, (mid - 1) as nat, fits);
            assert forall|k: nat| search_from(lo, hi, fits) < k <= hi implies !#[trigger] fits(k) by {
                if k >= mid && fits(k) {
                    assert(fits(mid));
                }
            }
        }
    }
}

/// The lines of `ls` joined by line feeds.
pub open spec fn joined_lines(ls: Seq<Seq<char>>) -> Seq<char>
    decreases ls.len(),
{
    if ls.len() == 0 {
        Seq::empty()
    } else if ls.len() == 1 {
        ls[0]
    } else {
        joined_lines(ls.drop_last()) + seq!['\n'] + ls.last()
    }
}

/// The continuation notice after the first `kept` of `total` lines.
pub open spec fn incomplete_notice(path: Seq<char>, total: nat, kept: nat) -> Seq<char> {
    "[INCOMPLETE SKILL] truncated at ~20K tokens; "@ + decimal((total - kept) as nat)
        + " lines remain; read the rest with the read tool: read(path=\""@ + path + "\", offset="@ + decimal(
        kept + 1,
    ) + ")."@
}

/// The injected body: verbatim when it fits whole, else its first `kept`
/// lines and the continuation notice naming where to read on.
pub open spec fn injected_body(body: Seq<char>, path: Seq<char>, fits_whole: bool, kept: nat) -> Seq<char> {
    if fits_whole {
        body
    } else {
        let ls = lines(body);
        let notice = incomplete_notice(path, ls.len(), kept);
        if kept == 0 {
            notice
        } else {
            joined_lines(ls.take(kept as int)) + seq!['\n'] + notice
        }
    }
}

pub fn injectable_body(body: &str, path: &str, fits_whole: bool, kept: usize) -> (r: String)
    requires
        !fits_whole ==> kept <= lines(body@).len(),
        kept < u64::MAX,
    ensures
        r@ == injected_body(body@, path@, fits_whole, kept as nat),
{
    if fits_whole {
        return body.to_string();
    }
    let v = chars_of(body);
    let ranges = crate::text::line_ranges(&v);
    let ghost ls = lines(v@);
    let mut out = String::new();
    let mut i: usize = 0;
    while i < kept
        invariant
            i <= kept <= ls.len(),
            ls == lines(v@),
            v@ == body@,
            ranges@.len() == ls.len(),
            forall|k: int|
                #![trigger ranges@[k]]
                0 <= k < ranges@.len() ==> ranges@[k].0 <= ranges@[k].1 <= v@.len() && v@.subrange(
                    ranges@[k].0 as int,
                    ranges@[k].1 as int,
                ) == ls[k],
            out@ == joined_lines(ls.take(i as int)),
        decreases kept - i,
    {
        if i > 0 {
            push_char(&mut out, '\n');
        }
        let (a, b) = ranges[i];
        let piece = string_from_range(&v, a, b);
        push_str(&mut out, piece.as_str());
        assert(ls.take(i + 1).drop_last() =~= ls.take(i as int));
        if i == 0 {
            assert(ls.take(0) =~= Seq::<Seq<char>>::empty());
        }
        i += 1;
    }
    if kept > 0 {
        push_char(&mut out, '\n');
    }
    push_str(&mut out, "[INCOMPLETE SKILL] truncated at ~20K tokens; ");
    push_decimal(&mut out, (ranges.len() - kept) as u64);
    push_str(&mut out, " lines remain; read the rest with the read tool: read(path=\"");
    push_str(&mut out, path);
    push_str(&mut out, "\", offset=");
    push_decimal(&mut out, (kept as u64) + 1);
    push_str(&mut out, ").");
    proof {
        if kept == 0 {
            assert(ls.take(0) =~= Seq::<Seq<char>>::empty());
        }
    }
    assert(out@ =~= injected_body(body@, path@, fits_whole, kept as nat));
    out
}

/// The largest `k` with `fits[k]` (0 when there is none).
pub open spec fn longest_fit(fits: Seq<bool>) -> nat
    decreases fits.len(),
{
    if fits.len() == 0 {
        0
    } else if fits.last() {
        (fits.len() - 1) as nat
    } else {
        longest_fit(fits.drop_last())
    }
}

/// Fit answers that never get better with more lines.
pub open spec fn monotone_fits(fits: Seq<bool>) -> bool {
    forall|a: int, b: int| 0 <= a <= b < fits.len() && #[trigger] fits[b] ==> #[trigger] fits[a]
}

proof fn lemma_longest_fit_is(fits: Seq<bool>, k: int)
    requires
        0 <= k < fits.len(),
        k == 0 || fits[k],
        forall|j: int| k < j < fits.len() ==> !#[trigger] fits[j],
    ensures
        longest_fit(fits) == k,
    decreases fits.len(),
{
    if !fits.last() && k < fits.len() - 1 {
        let f0 = fits.drop_last();
        assert forall|j: int| k < j < f0.len() implies !#[trigger] f0[j] by {
            assert(f0[j] == fits[j]);
        }
        if k > 0 {
            assert(f0[k] == fits[k]);
        }
        lemma_longest_fit_is(f0, k);
    } else if !fits.last() {
        assert(k == 0 && fits.len() == 1);
        assert(fits.drop_last() =~= Seq::<bool>::empty());
        assert(longest_fit(fits.drop_last()) == 0);
    } else {
        assert(fits[fits.len() - 1] == fits.last());
        if k < fits.len() - 1 {
            assert(!fits[fits.len() - 1]);
        }
    }
}

/// The largest line count whose prefix fits, from the answers `fits[k]`
/// ("the first `k` lines fit the budget"), found by bisection over the
/// monotone answers as the whole-line truncation needs.
pub fn longest_fitting_prefix(fits: &[bool]) -> (k: usize)
    requires
        fits@.len() > 0,
        monotone_fits(fits@),
    ensures
        k == longest_fit(fits@),
        k < fits@.len(),
{
    let mut lo: usize = 0;
    let mut hi: usize = fits.len() - 1;
    while lo < hi
        invariant
            lo <= hi < fits@.len(),
            lo == 0 || fits@[lo as int],
            forall|j: int| hi < j < fits@.len() ==> !#[trigger] fits@[j],
            monotone_fits(fits@),
        decreases hi - lo,
    {
        let mid = lo + (hi - lo) / 2 + (hi - lo) % 2;
        if fits[mid] {
            lo = mid;
        } else {
            assert forall|j: int| mid - 1 < j < fits@.len() implies !#[trigger] fits@[j] by {
                if j <= hi && fits@[j] {
                    assert(fits@[mid as int]);
                }
            }
            hi = mid - 1;
        }
    }
    proof {
        lemma_longest_fit_is(fits@, lo as int);
    }
    lo
}

/// The injected body of an oversized skill body: its longest whole-line
/// prefix that fits, then the continuation notice. `fits[k]` answers
/// whether the first `k` of its lines fit the token budget (the caller
/// measures them), for every `k` from 0 to the number of lines.
pub fn truncated_body(body: &str, path: &str, fits: &[bool]) -> (r: String)
    requires
        fits@.len() == lines(body@).len() + 1,
        monotone_fits(fits@),
    ensures
        r@ == injected_body(body@, path@, false, longest_fit(fits@)),
{
    let kept = longest_fitting_prefix(fits);
    let n = fits.len();
    assert(kept < n);
    assert(usize::MAX <= u64::MAX);
    injectable_body(body, path, false, kept)
}

/// What an armed skill contributes to a request.
#[derive(Debug, Clone, PartialEq, Eq)]
pub enum SkillPayload {
    /// Nothing: no skill, a non-primary agent, the `workflow` scheduler,
    /// or a body without source paths.
    Nothing,
    /// A body-less skill: point at its source file.
    Pointer(String),
    /// The body to ship (before truncation) and its source paths.
    Body(String),
}

/// The payload of an armed skill prompt, for a primary agent other than
/// `workflow`.
pub open spec fn payload_of(primary: bool, agent: Seq<char>, prompt: Option<Seq<char>>) -> Option<Option<Seq<char>>> {
    if !primary || agent == "workflow"@ {
        None
    } else {
        match prompt {
            None => None,
            Some(p) => if source_paths(p).len() == 0 {
                None
            } else if crate::text::trim(skill_body(p)).len() == 0 {
                Some(None)
            } else {
                Some(Some(skill_body(p)))
            },
        }
    }
}

pub fn skill_payload(primary: bool, agent: &str, prompt: Option<&str>) -> (r: SkillPayload)
    ensures
        match payload_of(primary, agent@, crate::latent::opt_view(prompt)) {
            None => r == SkillPayload::Nothing,
            Some(None) => r matches SkillPayload::Pointer(p) && p@ == source_paths(prompt->0@)[0],
            Some(Some(b)) => r matches SkillPayload::Body(t) && t@ == b,
        },
{
    if !primary || crate::text::str_eq(agent, "workflow") {
        return SkillPayload::Nothing;
    }
    match prompt {
        None => SkillPayload::Nothing,
        Some(p) => {
            let paths = source_paths_from_body(p);
            if paths.len() == 0 {
                return SkillPayload::Nothing;
            }
            let body = skill_body_of(p);
            let bv = chars_of(body.as_str());
            assert(bv@.subrange(0, bv@.len() as int) =~= bv@);
            let (a, b) = trim_range(&bv, 0, bv.len());
            if a == b {
                SkillPayload::Pointer(paths[0].to_string())
            } else {
                SkillPayload::Body(body)
            }
        },
    }
}

/// The one-shot body message: the marker block, a blank line, and the
/// injected body.
pub fn body_message_text(paths: &[&str], injected: &str) -> (r: String)
    ensures
        exists|sorted: Seq<Seq<char>>|
            {
                &&& strictly_sorted(sorted)
                &&& sorted.to_set() == paths@.map_values(|s: &str| s@).to_set()
                &&& r@ == marker_lines(sorted) + "\n\n"@ + injected@
            },
{
    let mut out = full_body_marker_block(paths);
    push_str(&mut out, "\n\n");
    push_str(&mut out, injected);
    out
}

/// The body is delivered once per activation, and only to a primary agent
/// other than `workflow`.
pub fn should_deliver_body(primary: bool, agent: &str, delivered: bool) -> (b: bool)
    ensures
        b == (primary && agent@ != "workflow"@ && !delivered),
{
    primary && !crate::text::str_eq(agent, "workflow") && !delivered
}

/// The once-per-activation gate of the skill body message.
pub struct BodyGate {
    delivered: bool,
}

impl BodyGate {
    /// Whether the body of the current activation went out already.
    pub closed spec fn spent(&self) -> bool {
        self.delivered
    }

    /// A gate for a fresh activation: nothing delivered yet.
    pub fn new() -> (g: Self)
        ensures
            !g.spent(),
    {
        BodyGate { delivered: false }
    }

    /// Start over for the next activation: nothing delivered yet.
    pub fn reset(&mut self)
        ensures
            !final(self).spent(),
    {
        self.delivered = false;
    }

    /// Deliver the body now? Only to a primary agent other than `workflow`,
    /// only when a message exists, and only once: a delivery spends the
    /// gate until the next reset.
    pub fn deliver(&mut self, primary: bool, agent: &str, has_message: bool) -> (d: bool)
        ensures
            d == (primary && agent@ != "workflow"@ && !old(self).spent() && has_message),
            final(self).spent() == (old(self).spent() || d),
    {
        let d = should_deliver_body(primary, agent, self.delivered) && has_message;
        if d {
            self.delivered = true;
        }
        d
    }
}

/// The enabled entries of a discovered catalog, in discovery order: those
/// whose name is among `enabled` (nothing when none is enabled).
pub open spec fn enabled_entries(enabled: Seq<Seq<char>>, found: Seq<(Seq<char>, Seq<char>)>) -> Seq<(Seq<char>, Seq<char>)> {
    found.filter(|e: (Seq<char>, Seq<char>)| enabled.contains(e.0))
}

pub open spec fn str_views(v: Seq<String>) -> Seq<Seq<char>> {
    v.map_values(|s: String| s@)
}

fn names_contain(names: &[String], n: &str) -> (b: bool)
    ensures
        b == str_views(names@).contains(n@),
{
    let mut i: usize = 0;
    while i < names.len()
        invariant
            i <= names@.len(),
            forall|j: int| 0 <= j < i ==> names@[j]@ != n@,
        decreases names.len() - i,
    {
        if crate::text::str_eq(names[i].as_str(), n) {
            proof {
                assert(str_views(names@)[i as int] == n@);
            }
            return true;
        }
        i += 1;
    }
    proof {
        if str_views(names@).contains(n@) {
            let j = choose|j: int| 0 <= j < str_views(names@).len() && str_views(names@)[j] == n@;
            assert(names@[j]@ == n@);
        }
    }
    false
}

/// The catalog the reminder lists: the discovered skills that are enabled.
pub fn catalog_filter(enabled: &[String], found: &[(String, String)]) -> (r: Vec<(String, String)>)
    ensures
        entries_view(r@) == enabled_entries(str_views(enabled@), entries_view(found@)),
{
    let ghost fv = entries_view(found@);
    let ghost en = str_views(enabled@);
    let mut r: Vec<(String, String)> = Vec::new();
    let mut i: usize = 0;
    while i < found.len()
        invariant
            i <= found@.len(),
            fv == entries_view(found@),
            en == str_views(enabled@),
            entries_view(r@) == enabled_entries(en, fv.take(i as int)),
        decreases found.len() - i,
    {
        let ghost before = entries_view(r@);
        assert(fv.take(i + 1).drop_last() =~= fv.take(i as int));
        assert(fv.take(i + 1).last() == fv[i as int]);
        if names_contain(enabled, found[i].0.as_str()) {
            r.push((found[i].0.clone(), found[i].1.clone()));
            assert(entries_view(r@) =~= before.push(fv[i as int]));
        }
        proof {
            let pred = |e: (Seq<char>, Seq<char>)| en.contains(e.0);
            fv.take(i as int).lemma_filter_push(fv[i as int], pred);
            assert(fv.take(i as int).push(fv[i as int]) =~= fv.take(i + 1));
        }
        i += 1;
    }
    assert(fv.take(found@.len() as int) =~= fv);
    r
}

/// The per-call reminder: only for a primary agent other than `workflow`,
/// and only when the reminder text is not empty.
pub fn tail_reminder_text(
    primary: bool,
    agent: &str,
    catalog: &[(String, String)],
    pointer: Option<&str>,
    skills_root: Option<&str>,
) -> (r: Option<String>)
    ensures
        (!primary || agent@ == "workflow"@) ==> r is None,
        (primary && agent@ != "workflow"@) ==> ({
            let t = reminder_spec(
                match skills_root {
                    Some(d) => Some(d@),
                    None => None,
                },
                entries_view(catalog@),
                match pointer {
                    Some(p) => Some(p@),
                    None => None,
                },
            );
            &&& t.len() == 0 ==> r is None
            &&& t.len() > 0 ==> (r matches Some(x) && x@ == t)
        }),
{
    if !primary || crate::text::str_eq(agent, "workflow") {
        return None;
    }
    let t = reminder_text(catalog, pointer, skills_root);
    if t.as_str().is_empty() {
        None
    } else {
        Some(t)
    }
}

} // verus!
