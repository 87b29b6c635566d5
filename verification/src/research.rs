//! The deep-research pipeline: results-page URLs per engine, merging the
//! engines' result lists, the report file name, and the markdown report.
//! Rendering pages and extracting articles happen outside, in a headless
//! browser; the pieces here decide what is fetched and what is written.

use vstd::prelude::*;
use crate::serp::SearchResult;
use crate::text::{chars_of, decimal, is_ascii_alnum, ascii_alnum, push_char, push_decimal, push_str, string_from_range};
use crate::web::{ascii_lower, char_lowercase_of, char_to_lowercase, form_pair, form_pair_of, lowercase_of, to_lowercase, url_host, url_host_of};

verus! {

broadcast use vstd::seq::group_seq_axioms;

// ---------------------------------------------------------------------------
// Slugs
// ---------------------------------------------------------------------------

/// `s` with every character replaced by its Unicode lowercase mapping.
pub open spec fn lowered(s: Seq<char>) -> Seq<char>
    decreases s.len(),
{
    if s.len() == 0 {
        Seq::empty()
    } else {
        lowered(s.drop_last()) + char_lowercase_of(s.last())
    }
}

/// ASCII alphanumerics kept, every run of other characters collapsed into
/// one `-`; the flag tells whether the text so far ends in such a run.
pub open spec fn dash_runs(t: Seq<char>) -> (Seq<char>, bool)
    decreases t.len(),
{
    if t.len() == 0 {
        (Seq::empty(), false)
    } else {
        let (o, d) = dash_runs(t.drop_last());
        let c = t.last();
        if is_ascii_alnum(c) {
            (o.push(c), false)
        } else if !d {
            (o.push('-'), true)
        } else {
            (o, d)
        }
    }
}

/// Number of leading `-`.
pub open spec fn dash_start(s: Seq<char>) -> int
    decreases s.len(),
{
    if s.len() == 0 {
        0
    } else if s[0] == '-' {
        1 + dash_start(s.drop_first())
    } else {
        0
    }
}

/// Length of `s` without its trailing `-`.
pub open spec fn dash_end(s: Seq<char>) -> int
    decreases s.len(),
{
    if s.len() == 0 {
        0
    } else if s.last() == '-' {
        dash_end(s.drop_last())
    } else {
        s.len() as int
    }
}

/// `s.trim_matches('-')`.
pub open spec fn trim_dashes(s: Seq<char>) -> Seq<char> {
    if dash_start(s) >= dash_end(s) {
        Seq::empty()
    } else {
        s.subrange(dash_start(s), dash_end(s))
    }
}

/// The file-name slug of `s`: lowercased, non-alphanumeric runs collapsed
/// to `-`, leading and trailing dashes removed.
pub open spec fn slug(s: Seq<char>) -> Seq<char> {
    trim_dashes(dash_runs(lowered(s)).0)
}

pub(crate) proof fn lemma_dash_start(s: Seq<char>)
    ensures
        0 <= dash_start(s) <= s.len(),
        forall|k: int| 0 <= k < dash_start(s) ==> #[trigger] s[k] == '-',
        dash_start(s) < s.len() ==> s[dash_start(s)] != '-',
    decreases s.len(),
{
    if s.len() > 0 && s[0] == '-' {
        lemma_dash_start(s.drop_first());
        assert forall|k: int| 0 <= k < dash_start(s) implies #[trigger] s[k] == '-' by {
            if k > 0 {
                assert(s[k] == s.drop_first()[k - 1]);
            }
        }
    }
}

/// The bounds of `v.trim_matches('-')`.
pub(crate) fn trim_dash_range(v: &Vec<char>) -> (r: (usize, usize))
    ensures
        r.0 <= r.1 <= v@.len(),
        v@.subrange(r.0 as int, r.1 as int) == trim_dashes(v@),
{
    let ghost s = v@;
    let mut a: usize = 0;
    assert(s.subrange(0, s.len() as int) =~= s);
    while a < v.len() && v[a] == '-'
        invariant
            a <= v@.len(),
            s == v@,
            dash_start(s) == a + dash_start(s.subrange(a as int, s.len() as int)),
        decreases v.len() - a,
    {
        assert(s.subrange(a as int, s.len() as int).drop_first() =~= s.subrange(a + 1, s.len() as int));
        a += 1;
    }
    assert(dash_start(s.subrange(a as int, s.len() as int)) == 0);
    let mut b: usize = v.len();
    while b > 0 && v[b - 1] == '-'
        invariant
            b <= v@.len(),
            s == v@,
            dash_end(s) == dash_end(s.subrange(0, b as int)),
        decreases b,
    {
        assert(s.subrange(0, b as int).drop_last() =~= s.subrange(0, b - 1));
        b -= 1;
    }
    assert(dash_end(s.subrange(0, b as int)) == b);
    if a >= b {
        assert(v@.subrange(a as int, a as int) =~= trim_dashes(s));
        (a, a)
    } else {
        assert(v@.subrange(a as int, b as int) =~= trim_dashes(s));
        (a, b)
    }
}

/// Filesystem-safe slug: lowercase, runs of anything but ASCII letters and
/// digits collapse to `-`, leading and trailing dashes trimmed. A query
/// without ASCII letters or digits gives the empty slug.
/// Every slug is in slug form, and a text already in slug form is its own
/// slug, so slugging a slug gives it back.
pub fn slugify(s: &str) -> (r: String)
    ensures
        r@ == slug(s@),
        is_slug(r@),
        is_slug(s@) ==> r@ == s@,
{
    let mut out: Vec<char> = Vec::new();
    let mut dash = false;
    for c in it: s.chars()
        invariant
            it.seq() == s@,
            (out@, dash) == dash_runs(lowered(it.seq().take(it.index() as int))),
            lowers_without_capitals(it.seq().take(it.index() as int)),
            forall|j: int|
                0 <= j < it.index() && (#[trigger] s@[j] as u32) < 128 ==> char_lowercase_of(s@[j]) == seq![
                    ascii_lower(s@[j]),
                ],
    {
        let ghost pre = it.seq().take(it.index() as int);
        let ghost done = lowered(pre);
        assert(it.seq().take(it.index() + 1).drop_last() =~= pre);
        assert(it.seq().take(it.index() + 1).last() == c);
        let lc = char_to_lowercase(c);
        proof {
            let pre1 = it.seq().take(it.index() + 1);
            assert forall|k: int, m: int|
                0 <= k < pre1.len() && 0 <= m < char_lowercase_of(pre1[k]).len() implies !ascii_upper(
                #[trigger] char_lowercase_of(pre1[k])[m]) by {
                if k < pre.len() {
                    assert(pre1[k] == pre[k]);
                } else {
                    assert(pre1[k] == c);
                }
            }
        }
        let mut k: usize = 0;
        while k < lc.len()
            invariant
                k <= lc@.len(),
                lc@ == char_lowercase_of(c),
                (out@, dash) == dash_runs(done + lc@.take(k as int)),
            decreases lc.len() - k,
        {
            let d = lc[k];
            assert((done + lc@.take(k + 1)).drop_last() =~= done + lc@.take(k as int));
            assert((done + lc@.take(k + 1)).last() == d);
            if ascii_alnum(d) {
                out.push(d);
                dash = false;
            } else if !dash {
                out.push('-');
                dash = true;
            }
            k += 1;
        }
        assert(lc@.take(lc@.len() as int) =~= lc@);
    }
    assert(s@.take(s@.len() as int) =~= s@);
    proof {
        lemma_slug_is_slug(s@);
        if is_slug(s@) {
            assert forall|k: int| 0 <= k < s@.len() implies #[trigger] char_lowercase_of(s@[k]) == seq![s@[k]] by {
                assert(slug_char(s@[k]));
                assert((s@[k] as u32) < 128);
            }
            lemma_slug_of_slug(s@);
        }
    }
    let (a, b) = trim_dash_range(&out);
    string_from_range(&out, a, b)
}

/// The stem of the report file for `query`: its slug, or `research` when
/// the slug is empty.
pub open spec fn report_stem(query: Seq<char>) -> Seq<char> {
    if slug(query).len() == 0 {
        "research"@
    } else {
        slug(query)
    }
}

pub fn report_file_stem(query: &str) -> (r: String)
    ensures
        r@ == report_stem(query@),
{
    let s = slugify(query);
    if s.as_str().is_empty() {
        "research".to_string()
    } else {
        s
    }
}

// ---------------------------------------------------------------------------
// Results-page URLs and merging
// ---------------------------------------------------------------------------

/// The results-page URL for `engine` (`bing`, `baidu`, `sogou`, `ddg`;
/// anything else is Bing) with the query form-encoded under its key.
pub open spec fn serp_url_text(engine: Seq<char>, query: Seq<char>) -> Seq<char> {
    if engine == "baidu"@ {
        "https://www.baidu.com/s?"@ + form_pair_of("wd"@, query)
    } else if engine == "sogou"@ {
        "https://www.sogou.com/web?"@ + form_pair_of("query"@, query)
    } else if engine == "ddg"@ {
        "https://html.duckduckgo.com/html/?"@ + form_pair_of("q"@, query)
    } else {
        "https://cn.bing.com/search?"@ + form_pair_of("q"@, query)
    }
}

fn str_is(a: &str, b: &str) -> (r: bool)
    ensures
        r == (a@ == b@),
{
    crate::text::str_eq(a, b)
}

/// Build the results-page URL for `engine`; unknown engines fall back to
/// Bing.
pub fn serp_url(engine: &str, query: &str) -> (r: String)
    ensures
        r@ == serp_url_text(engine@, query@),
{
    let (base, key) = if str_is(engine, "baidu") {
        ("https://www.baidu.com/s?", "wd")
    } else if str_is(engine, "sogou") {
        ("https://www.sogou.com/web?", "query")
    } else if str_is(engine, "ddg") {
        ("https://html.duckduckgo.com/html/?", "q")
    } else {
        ("https://cn.bing.com/search?", "q")
    };
    let mut out = String::new();
    push_str(&mut out, base);
    let pair = form_pair(key, query);
    push_str(&mut out, pair.as_str());
    out
}

/// The duplicate key of a result: lowercase title, `|`, URL host (empty
/// when the URL has none).
pub open spec fn dedup_key(r: SearchResult) -> Seq<char> {
    lowercase_of(r.title@) + seq!['|'] + match url_host_of(r.url@) {
        Some(h) => h,
        None => Seq::empty(),
    }
}

/// All lists, in order, as one list.
pub open spec fn flatten(lists: Seq<Vec<SearchResult>>) -> Seq<SearchResult>
    decreases lists.len(),
{
    if lists.len() == 0 {
        Seq::empty()
    } else {
        flatten(lists.drop_last()) + lists.last()@
    }
}

/// Merging the first `n` results of `flat`: the kept results and the keys
/// seen. A result is kept while fewer than `limit` are kept and its key is
/// new.
pub open spec fn merge_prefix(flat: Seq<SearchResult>, limit: nat, n: nat) -> (Seq<SearchResult>, Set<Seq<char>>)
    decreases n,
{
    if n == 0 {
        (Seq::empty(), Set::empty())
    } else {
        let (out, seen) = merge_prefix(flat, limit, (n - 1) as nat);
        let r = flat[n - 1];
        if out.len() >= limit || seen.contains(dedup_key(r)) {
            (out, seen)
        } else {
            (out.push(r), seen.insert(dedup_key(r)))
        }
    }
}

/// The merged list of per-engine result lists.
pub open spec fn merged(lists: Seq<Vec<SearchResult>>, limit: nat) -> Seq<SearchResult> {
    merge_prefix(flatten(lists), limit, flatten(lists).len()).0
}

fn key_of(r: &SearchResult) -> (k: String)
    ensures
        k@ == dedup_key(*r),
{
    let mut k = to_lowercase(r.title.as_str());
    push_char(&mut k, '|');
    match url_host(r.url.as_str()) {
        Some(h) => push_str(&mut k, h.as_str()),
        None => {},
    }
    k
}

/// The keys held in `seen`.
pub open spec fn seen_set(seen: Seq<String>) -> Set<Seq<char>> {
    Set::new(|k: Seq<char>| exists|i: int| 0 <= i < seen.len() && #[trigger] seen[i]@ == k)
}

proof fn lemma_seen_set_push(seen: Seq<String>, k: String)
    ensures
        seen_set(seen.push(k)) == seen_set(seen).insert(k@),
{
    assert forall|x: Seq<char>| #[trigger] seen_set(seen.push(k)).contains(x) == seen_set(seen).insert(k@).contains(x) by {
        if seen_set(seen.push(k)).contains(x) && x != k@ {
            let i = choose|i: int| 0 <= i < seen.push(k).len() && #[trigger] seen.push(k)[i]@ == x;
            assert(seen[i]@ == x);
        }
        if seen_set(seen).contains(x) {
            let i = choose|i: int| 0 <= i < seen.len() && #[trigger] seen[i]@ == x;
            assert(seen.push(k)[i]@ == x);
        }
        if x == k@ {
            assert(seen.push(k)[seen.len() as int]@ == x);
        }
    }
    assert(seen_set(seen.push(k)) =~= seen_set(seen).insert(k@));
}

fn seen_contains(seen: &Vec<String>, k: &String) -> (b: bool)
    ensures
        b == seen_set(seen@).contains(k@),
{
    let mut i: usize = 0;
    while i < seen.len()
        invariant
            i <= seen@.len(),
            forall|j: int| 0 <= j < i ==> seen@[j]@ != k@,
        decreases seen.len() - i,
    {
        if crate::text::str_eq(seen[i].as_str(), k.as_str()) {
            return true;
        }
        i += 1;
    }
    false
}

/// Merge per-engine result lists into one list without duplicates,
/// earlier engines first (an earlier engine wins a duplicate), at most
/// `limit` long. Two results are duplicates when their lowercase titles and
/// URL hosts agree.
pub fn merge_results(per_engine: Vec<Vec<SearchResult>>, limit: usize) -> (r: Vec<SearchResult>)
    ensures
        r@ == merged(per_engine@, limit as nat),
{
    let ghost lists = per_engine@;
    let mut out: Vec<SearchResult> = Vec::new();
    let mut seen: Vec<String> = Vec::new();
    let ghost mut done: Seq<SearchResult> = Seq::empty();
    for list in it: per_engine.into_iter()
        invariant
            it.seq() == lists,
            done == flatten(lists.take(it.index() as int)),
            out@ == merge_prefix(done, limit as nat, done.len()).0,
            merge_prefix(done, limit as nat, done.len()).1 == seen_set(seen@),
    {
        assert(lists.take(it.index() + 1).drop_last() =~= lists.take(it.index() as int));
        let ghost base = done;
        for r in jt: list.into_iter()
            invariant
                jt.seq() == list@,
                done == base + list@.take(jt.index() as int),
                out@ == merge_prefix(done, limit as nat, done.len()).0,
                merge_prefix(done, limit as nat, done.len()).1 == seen_set(seen@),
        {
            proof {
                let next = done.push(r);
                assert(base + list@.take(jt.index() + 1) =~= next);
                assert(next.subrange(0, done.len() as int) =~= done);
                lemma_merge_prefix_extend(done, r, limit as nat);
            }
            let k = key_of(&r);
            let ghost k_view = k;
            if out.len() < limit && !seen_contains(&seen, &k) {
                let ghost old_seen = seen@;
                seen.push(k);
                out.push(r);
                proof {
                    lemma_seen_set_push(old_seen, k_view);
                }
            }
            proof {
                done = done.push(r);
            }
        }
        assert(list@.take(list@.len() as int) =~= list@);
    }
    assert(lists.take(lists.len() as int) =~= lists);
    out
}

proof fn lemma_merge_prefix_extend(done: Seq<SearchResult>, r: SearchResult, limit: nat)
    ensures
        merge_prefix(done.push(r), limit, done.len() + 1) == ({
            let (out, seen) = merge_prefix(done, limit, done.len());
            if out.len() >= limit || seen.contains(dedup_key(r)) {
                (out, seen)
            } else {
                (out.push(r), seen.insert(dedup_key(r)))
            }
        }),
{
    assert(done.push(r).subrange(0, done.len() as int) =~= done.subrange(0, done.len() as int));
    lemma_merge_prefix_depends_on_prefix(done.push(r), done, limit, done.len());
}

proof fn lemma_merge_prefix_depends_on_prefix(a: Seq<SearchResult>, b: Seq<SearchResult>, limit: nat, n: nat)
    requires
        n <= a.len(),
        n <= b.len(),
        a.subrange(0, n as int) == b.subrange(0, n as int),
    ensures
        merge_prefix(a, limit, n) == merge_prefix(b, limit, n),
    decreases n,
{
    if n > 0 {
        assert(a[n - 1] == a.subrange(0, n as int)[n - 1]);
        assert(b[n - 1] == b.subrange(0, n as int)[n - 1]);
        assert(a.subrange(0, n - 1) =~= a.subrange(0, n as int).subrange(0, n - 1));
        assert(b.subrange(0, n - 1) =~= b.subrange(0, n as int).subrange(0, n - 1));
        lemma_merge_prefix_depends_on_prefix(a, b, limit, (n - 1) as nat);
    }
}

// ---------------------------------------------------------------------------
// The report
// ---------------------------------------------------------------------------

/// An article extracted from a rendered page.
#[derive(Debug, Clone)]
pub struct ExtractedArticle {
    pub title: String,
    pub author: String,
    pub date: String,
    pub url: String,
    pub content: String,
}

/// The texts of `items` joined by `sep`.
pub open spec fn joined(items: Seq<String>, sep: Seq<char>) -> Seq<char>
    decreases items.len(),
{
    if items.len() == 0 {
        Seq::empty()
    } else if items.len() == 1 {
        items[0]@
    } else {
        joined(items.drop_last(), sep) + sep + items.last()@
    }
}

/// The first `n` characters of `content`, with `\n…` after them when the
/// content is longer.
pub open spec fn excerpt(content: Seq<char>, n: nat) -> Seq<char> {
    if content.len() > n {
        content.take(n as int) + "\n…"@
    } else {
        content
    }
}

/// The heading and URL lines of source number `i` (0-based).
pub open spec fn section_head(i: nat, a: ExtractedArticle) -> Seq<char> {
    "## "@ + decimal(i + 1) + ". "@ + (if a.title@.len() == 0 {
        a.url@
    } else {
        a.title@
    }) + "\n"@ + "- url: "@ + a.url@ + "\n"@
}

/// The author and date lines of a source, each when known.
pub open spec fn section_meta(a: ExtractedArticle) -> Seq<char> {
    (if a.author@.len() > 0 {
        "- author: "@ + a.author@ + "\n"@
    } else {
        Seq::empty()
    }) + (if a.date@.len() > 0 {
        "- date: "@ + a.date@ + "\n"@
    } else {
        Seq::empty()
    })
}

/// The report section of source number `i` (0-based).
pub open spec fn source_section(i: nat, a: ExtractedArticle, n: nat) -> Seq<char> {
    section_head(i, a) + section_meta(a) + "\n"@ + excerpt(a.content@, n) + "\n\n"@
}

/// The sections of the first `k` sources.
pub open spec fn source_sections(sources: Seq<ExtractedArticle>, n: nat, k: nat) -> Seq<char>
    decreases k,
{
    if k == 0 {
        Seq::empty()
    } else {
        source_sections(sources, n, (k - 1) as nat) + source_section((k - 1) as nat, sources[k - 1], n)
    }
}

/// Line `i` (0-based) of the raw result list.
pub open spec fn link_line(i: nat, r: SearchResult) -> Seq<char> {
    decimal(i + 1) + ". "@ + r.title@ + " — "@ + r.url@ + " ("@ + r.snippet@ + ")\n"@
}

/// The first `k` lines of the raw result list.
pub open spec fn link_lines(links: Seq<SearchResult>, k: nat) -> Seq<char>
    decreases k,
{
    if k == 0 {
        Seq::empty()
    } else {
        link_lines(links, (k - 1) as nat) + link_line((k - 1) as nat, links[k - 1])
    }
}

/// The markdown report: a header with the query, the engines and the
/// number of sources; one section per source with its title (the URL when
/// untitled), URL, author and date when known, and an excerpt of at most
/// `n` characters; then the raw result list when there is one.
pub open spec fn report(
    query: Seq<char>,
    engines: Seq<String>,
    sources: Seq<ExtractedArticle>,
    links: Seq<SearchResult>,
    n: nat,
) -> Seq<char> {
    "# Research: "@ + query + "\n\n"@ + "Engines: "@ + joined(engines, ", "@) + "\n\n"@ + "Sources: "@
        + decimal(sources.len()) + "\n\n"@ + source_sections(sources, n, sources.len()) + (if links.len()
        > 0 {
        "## Raw search results\n\n"@ + link_lines(links, links.len())
    } else {
        Seq::empty()
    })
}

fn push_excerpt(out: &mut String, content: &str, n: usize)
    ensures
        final(out)@ == old(out)@ + excerpt(content@, n as nat),
{
    let v = chars_of(content);
    if v.len() > n {
        let head = string_from_range(&v, 0, n);
        push_str(out, head.as_str());
        push_str(out, "\n…");
        assert(v@.subrange(0, n as int) =~= content@.take(n as int));
    } else {
        push_str(out, content);
    }
}

fn push_section_head(out: &mut String, i: usize, a: &ExtractedArticle)
    requires
        i < u64::MAX,
    ensures
        final(out)@ == old(out)@ + section_head(i as nat, *a),
{
    push_str(out, "## ");
    push_decimal(out, (i as u64) + 1);
    push_str(out, ". ");
    if a.title.as_str().is_empty() {
        push_str(out, a.url.as_str());
    } else {
        push_str(out, a.title.as_str());
    }
    push_str(out, "\n");
    push_str(out, "- url: ");
    push_str(out, a.url.as_str());
    push_str(out, "\n");
    assert(final(out)@ =~= old(out)@ + section_head(i as nat, *a));
}

fn push_section_meta(out: &mut String, a: &ExtractedArticle)
    ensures
        final(out)@ == old(out)@ + section_meta(*a),
{
    let ghost start = out@;
    if !a.author.as_str().is_empty() {
        push_str(out, "- author: ");
        push_str(out, a.author.as_str());
        push_str(out, "\n");
    }
    let ghost mid = out@;
    if !a.date.as_str().is_empty() {
        push_str(out, "- date: ");
        push_str(out, a.date.as_str());
        push_str(out, "\n");
    }
    assert(final(out)@ =~= old(out)@ + section_meta(*a));
}

fn push_section(out: &mut String, i: usize, a: &ExtractedArticle, n: usize)
    requires
        i < u64::MAX,
    ensures
        final(out)@ == old(out)@ + source_section(i as nat, *a, n as nat),
{
    push_section_head(out, i, a);
    push_section_meta(out, a);
    push_str(out, "\n");
    push_excerpt(out, a.content.as_str(), n);
    push_str(out, "\n\n");
    assert(final(out)@ =~= old(out)@ + source_section(i as nat, *a, n as nat));
}

fn push_link_line(out: &mut String, i: usize, r: &SearchResult)
    requires
        i < u64::MAX,
    ensures
        final(out)@ == old(out)@ + link_line(i as nat, *r),
{
    push_decimal(out, (i as u64) + 1);
    push_str(out, ". ");
    push_str(out, r.title.as_str());
    push_str(out, " — ");
    push_str(out, r.url.as_str());
    push_str(out, " (");
    push_str(out, r.snippet.as_str());
    push_str(out, ")\n");
    assert(final(out)@ =~= old(out)@ + link_line(i as nat, *r));
}

/// Compose the markdown report of a research run.
pub fn build_report(
    query: &str,
    engines: &[String],
    sources: &[ExtractedArticle],
    links: &[SearchResult],
    per_page_chars: usize,
) -> (r: String)
    requires
        sources@.len() < u64::MAX,
        links@.len() < u64::MAX,
    ensures
        r@ == report(query@, engines@, sources@, links@, per_page_chars as nat),
{
    let mut out = String::new();
    push_str(&mut out, "# Research: ");
    push_str(&mut out, query);
    push_str(&mut out, "\n\n");
    push_str(&mut out, "Engines: ");
    let ghost head = out@;
    let mut e: usize = 0;
    while e < engines.len()
        invariant
            e <= engines@.len(),
            out@ == head + joined(engines@.take(e as int), ", "@),
        decreases engines.len() - e,
    {
        assert(engines@.take(e + 1).drop_last() =~= engines@.take(e as int));
        if e > 0 {
            push_str(&mut out, ", ");
        } else {
            assert(engines@.take(0) =~= Seq::<String>::empty());
        }
        push_str(&mut out, engines[e].as_str());
        assert(out@ =~= head + joined(engines@.take(e + 1), ", "@));
        e += 1;
    }
    assert(engines@.take(engines@.len() as int) =~= engines@);
    push_str(&mut out, "\n\n");
    push_str(&mut out, "Sources: ");
    push_decimal(&mut out, sources.len() as u64);
    push_str(&mut out, "\n\n");
    let ghost head2 = out@;
    let mut i: usize = 0;
    while i < sources.len()
        invariant
            i <= sources@.len() < u64::MAX,
            out@ == head2 + source_sections(sources@, per_page_chars as nat, i as nat),
        decreases sources.len() - i,
    {
        push_section(&mut out, i, &sources[i], per_page_chars);
        assert(out@ =~= head2 + source_sections(sources@, per_page_chars as nat, (i + 1) as nat));
        i += 1;
    }
    if links.len() > 0 {
        push_str(&mut out, "## Raw search results\n\n");
        let ghost head3 = out@;
        let mut j: usize = 0;
        while j < links.len()
            invariant
                j <= links@.len() < u64::MAX,
                out@ == head3 + link_lines(links@, j as nat),
            decreases links.len() - j,
        {
            push_link_line(&mut out, j, &links[j]);
            assert(out@ =~= head3 + link_lines(links@, (j + 1) as nat));
            j += 1;
        }
    }
    assert(out@ =~= report(query@, engines@, sources@, links@, per_page_chars as nat));
    out
}

// ---------------------------------------------------------------------------
// The tool's parameters and its answer
// ---------------------------------------------------------------------------

/// `v.unwrap_or(d).clamp(lo, hi)`.
pub open spec fn clamped_or(v: Option<u64>, d: u64, lo: u64, hi: u64) -> u64 {
    let x = match v {
        Some(x) => x,
        None => d,
    };
    if x < lo {
        lo
    } else if x > hi {
        hi
    } else {
        x
    }
}

fn clamp_or(v: Option<u64>, d: u64, lo: u64, hi: u64) -> (r: u64)
    requires
        lo <= hi,
    ensures
        r == clamped_or(v, d, lo, hi),
{
    let x = match v {
        Some(x) => x,
        None => d,
    };
    if x < lo {
        lo
    } else if x > hi {
        hi
    } else {
        x
    }
}

/// One line of the answer per fetched source: its title (or
/// `(untitled)`) and URL.
pub open spec fn summary_lines(sources: Seq<ExtractedArticle>, k: nat) -> Seq<char>
    decreases k,
{
    if k == 0 {
        Seq::empty()
    } else {
        summary_lines(sources, (k - 1) as nat) + (if sources[k - 1].title@.len() == 0 {
            "(untitled)"@
        } else {
            sources[k - 1].title@
        }) + " — "@ + sources[k - 1].url@ + "\n"@
    }
}

/// The tool's answer: where the report is, how many sources were fetched
/// and failed, and one line per source.
pub open spec fn summary_text(path: Seq<char>, sources: Seq<ExtractedArticle>, failures: nat) -> Seq<char> {
    "Research report written to: "@ + path + "\n\n"@ + "Sources fetched: "@ + decimal(sources.len())
        + " ("@ + decimal(failures) + " failed)\n\n"@ + summary_lines(sources, sources.len())
}

/// The research tool.
pub struct ResearchTool {}

impl ResearchTool {
    pub fn name(&self) -> (r: &'static str)
        ensures
            r@ == "research"@,
    {
        "research"
    }

    pub fn description(&self) -> (r: &'static str)
        ensures
            r@ == "Multi-engine deep research: renders Bing/Baidu/Sogou/DDG SERPs with headless Chrome, merges + dedups results, renders each result page and extracts structured articles (site-aware profiles), then writes a markdown report to <working_dir>/.research/ and returns the path plus per-source summaries. Engines that return nothing are skipped."@,
    {
        "Multi-engine deep research: renders Bing/Baidu/Sogou/DDG SERPs with headless Chrome, merges + dedups results, renders each result page and extracts structured articles (site-aware profiles), then writes a markdown report to <working_dir>/.research/ and returns the path plus per-source summaries. Engines that return nothing are skipped."
    }

    /// The trimmed query; `None` when it is missing or blank.
    pub fn query_of(raw: Option<&str>) -> (r: Option<String>)
        ensures
            match raw {
                None => r is None,
                Some(q) => if crate::text::trim(q@).len() == 0 {
                    r is None
                } else {
                    r matches Some(t) && t@ == crate::text::trim(q@)
                },
            },
    {
        match raw {
            None => None,
            Some(q) => {
                let v = chars_of(q);
                assert(v@.subrange(0, v@.len() as int) =~= v@);
                let (a, b) = crate::text::trim_range(&v, 0, v.len());
                if a == b {
                    None
                } else {
                    Some(string_from_range(&v, a, b))
                }
            },
        }
    }

    /// Sources to fetch: `max_results`, default 6, within `[1, 10]`.
    pub fn max_results_of(v: Option<u64>) -> (r: u64)
        ensures
            r == clamped_or(v, 6, 1, 10),
    {
        clamp_or(v, 6, 1, 10)
    }

    /// Excerpt length per source: `per_page_chars`, default 8000, within
    /// `[500, 20000]`.
    pub fn per_page_chars_of(v: Option<u64>) -> (r: u64)
        ensures
            r == clamped_or(v, 8000, 500, 20000),
    {
        clamp_or(v, 8000, 500, 20000)
    }

    /// The engines to query: those given, else Bing and Baidu.
    pub fn engines_or_default(given: Option<Vec<String>>) -> (r: Vec<String>)
        ensures
            match given {
                Some(g) => r@ == g@,
                None => r@.len() == 2 && r@[0]@ == "bing"@ && r@[1]@ == "baidu"@,
            },
    {
        match given {
            Some(g) => g,
            None => {
                let mut v: Vec<String> = Vec::new();
                v.push("bing".to_string());
                v.push("baidu".to_string());
                v
            },
        }
    }

    /// The answer of a completed run, before truncation to the output
    /// budget.
    pub fn summary(path: &str, sources: &[ExtractedArticle], failures: u64) -> (r: String)
        requires
            sources@.len() <= u64::MAX,
        ensures
            r@ == summary_text(path@, sources@, failures as nat),
    {
        let mut out = String::new();
        push_str(&mut out, "Research report written to: ");
        push_str(&mut out, path);
        push_str(&mut out, "\n\n");
        push_str(&mut out, "Sources fetched: ");
        push_decimal(&mut out, sources.len() as u64);
        push_str(&mut out, " (");
        push_decimal(&mut out, failures);
        push_str(&mut out, " failed)\n\n");
        let ghost head = out@;
        let mut i: usize = 0;
        while i < sources.len()
            invariant
                i <= sources@.len(),
                out@ == head + summary_lines(sources@, i as nat),
            decreases sources.len() - i,
        {
            let a = &sources[i];
            if a.title.as_str().is_empty() {
                push_str(&mut out, "(untitled)");
            } else {
                push_str(&mut out, a.title.as_str());
            }
            push_str(&mut out, " — ");
            push_str(&mut out, a.url.as_str());
            push_str(&mut out, "\n");
            assert(out@ =~= head + summary_lines(sources@, (i + 1) as nat));
            i += 1;
        }
        assert(out@ =~= summary_text(path@, sources@, failures as nat));
        out
    }
}

// ---------------------------------------------------------------------------
// Laws
// ---------------------------------------------------------------------------

proof fn lemma_dash_runs(t: Seq<char>)
    ensures
        ({
            let (o, d) = dash_runs(t);
            &&& forall|k: int| 0 <= k < o.len() ==> is_ascii_alnum(#[trigger] o[k]) || o[k] == '-'
            &&& forall|k: int| 0 <= k < o.len() - 1 ==> !(#[trigger] o[k] == '-' && o[k + 1] == '-')
            &&& d ==> o.len() > 0 && o.last() == '-'
            &&& !d ==> o.len() == 0 || o.last() != '-'
        }),
    decreases t.len(),
{
    if t.len() > 0 {
        lemma_dash_runs(t.drop_last());
        let (o0, d0) = dash_runs(t.drop_last());
        let (o, d) = dash_runs(t);
        assert forall|k: int| 0 <= k < o.len() - 1 implies !(#[trigger] o[k] == '-' && o[k + 1] == '-') by {
            if k + 1 < o0.len() {
                assert(o[k] == o0[k] && o[k + 1] == o0[k + 1]);
            } else if o.len() > o0.len() {
                assert(o[k] == o0.last());
            }
        }
        assert forall|k: int| 0 <= k < o.len() implies is_ascii_alnum(#[trigger] o[k]) || o[k] == '-' by {
            if k < o0.len() {
                assert(o[k] == o0[k]);
            }
        }
    }
}

pub(crate) proof fn lemma_dash_end(s: Seq<char>)
    ensures
        0 <= dash_end(s) <= s.len(),
        forall|k: int| dash_end(s) <= k < s.len() ==> #[trigger] s[k] == '-',
        dash_end(s) > 0 ==> s[dash_end(s) - 1] != '-',
    decreases s.len(),
{
    if s.len() > 0 && s.last() == '-' {
        lemma_dash_end(s.drop_last());
        assert forall|k: int| dash_end(s) <= k < s.len() implies #[trigger] s[k] == '-' by {
            if k < s.len() - 1 {
                assert(s[k] == s.drop_last()[k]);
            }
        }
    }
}

/// A slug is filesystem safe: only ASCII letters, digits and single
/// dashes, and no dash at either end.
pub proof fn slug_is_filesystem_safe(s: Seq<char>)
    ensures
        forall|k: int| 0 <= k < slug(s).len() ==> is_ascii_alnum(#[trigger] slug(s)[k]) || slug(s)[k] == '-',
        forall|k: int| 0 <= k < slug(s).len() - 1 ==> !(#[trigger] slug(s)[k] == '-' && slug(s)[k + 1] == '-'),
        slug(s).len() > 0 ==> slug(s)[0] != '-' && slug(s).last() != '-',
{
    let o = dash_runs(lowered(s)).0;
    lemma_dash_runs(lowered(s));
    lemma_dash_start(o);
    lemma_dash_end(o);
    let a = dash_start(o);
    let b = dash_end(o);
    if a < b {
        let t = o.subrange(a, b);
        assert(t == slug(s));
        assert forall|k: int| 0 <= k < t.len() implies is_ascii_alnum(#[trigger] t[k]) || t[k] == '-' by {
            assert(t[k] == o[a + k]);
        }
        assert forall|k: int| 0 <= k < t.len() - 1 implies !(#[trigger] t[k] == '-' && t[k + 1] == '-') by {
            assert(t[k] == o[a + k]);
            assert(t[k + 1] == o[a + k + 1]);
        }
        assert(t[0] == o[a]);
        assert(t.last() == o[b - 1]);
    }
}

/// The keys of the results in `out`.
pub open spec fn keys_of(out: Seq<SearchResult>) -> Set<Seq<char>> {
    Set::new(|k: Seq<char>| exists|i: int| 0 <= i < out.len() && dedup_key(#[trigger] out[i]) == k)
}

proof fn lemma_merge_prefix(flat: Seq<SearchResult>, limit: nat, n: nat)
    requires
        n <= flat.len(),
    ensures
        ({
            let (out, seen) = merge_prefix(flat, limit, n);
            &&& out.len() <= limit
            &&& seen == keys_of(out)
            &&& forall|i: int, j: int| 0 <= i < j < out.len() ==> dedup_key(#[trigger] out[i]) != dedup_key(#[trigger] out[j])
            &&& forall|i: int| 0 <= i < out.len() ==> exists|j: int| 0 <= j < n && flat[j] == #[trigger] out[i]
        }),
    decreases n,
{
    if n > 0 {
        lemma_merge_prefix(flat, limit, (n - 1) as nat);
        let (out0, seen0) = merge_prefix(flat, limit, (n - 1) as nat);
        let r = flat[n - 1];
        if !(out0.len() >= limit || seen0.contains(dedup_key(r))) {
            let out = out0.push(r);
            assert forall|x: Seq<char>| #[trigger] keys_of(out).contains(x) == seen0.insert(dedup_key(r)).contains(x) by {
                if keys_of(out).contains(x) {
                    let i = choose|i: int| 0 <= i < out.len() && dedup_key(#[trigger] out[i]) == x;
                    if i < out0.len() {
                        assert(out0[i] == out[i]);
                        assert(keys_of(out0).contains(x));
                    }
                }
                if keys_of(out0).contains(x) {
                    let i = choose|i: int| 0 <= i < out0.len() && dedup_key(#[trigger] out0[i]) == x;
                    assert(out[i] == out0[i]);
                }
                if x == dedup_key(r) {
                    assert(out[out0.len() as int] == r);
                }
            }
            assert(keys_of(out) =~= seen0.insert(dedup_key(r)));
            assert forall|i: int, j: int| 0 <= i < j < out.len() implies dedup_key(#[trigger] out[i]) != dedup_key(#[trigger] out[j]) by {
                if j == out0.len() {
                    assert(out[i] == out0[i]);
                    assert(keys_of(out0).contains(dedup_key(out0[i])));
                } else {
                    assert(out[i] == out0[i] && out[j] == out0[j]);
                }
            }
            assert forall|i: int| 0 <= i < out.len() implies exists|j: int| 0 <= j < n && flat[j] == #[trigger] out[i] by {
                if i < out0.len() {
                    assert(out[i] == out0[i]);
                    let j = choose|j: int| 0 <= j < n - 1 && flat[j] == #[trigger] out0[i];
                    assert(flat[j] == out[i]);
                } else {
                    assert(flat[n - 1] == out[i]);
                }
            }
        }
    } else {
        assert(keys_of(Seq::<SearchResult>::empty()) =~= Set::<Seq<char>>::empty());
    }
}

/// Merging keeps at most `limit` results, never two with the same key,
/// and only results that some engine returned.
pub proof fn merge_is_bounded_and_duplicate_free(lists: Seq<Vec<SearchResult>>, limit: nat)
    ensures
        merged(lists, limit).len() <= limit,
        forall|i: int, j: int|
            0 <= i < j < merged(lists, limit).len() ==> dedup_key(#[trigger] merged(lists, limit)[i]) != dedup_key(
                #[trigger] merged(lists, limit)[j],
            ),
        forall|i: int|
            0 <= i < merged(lists, limit).len() ==> flatten(lists).contains(#[trigger] merged(lists, limit)[i]),
{
    let flat = flatten(lists);
    lemma_merge_prefix(flat, limit, flat.len());
    assert forall|i: int| 0 <= i < merged(lists, limit).len() implies flat.contains(#[trigger] merged(lists, limit)[i]) by {
        let j = choose|j: int| 0 <= j < flat.len() && flat[j] == #[trigger] merged(lists, limit)[i];
    }
}


/// A character a slug may hold: an ASCII lowercase letter, a digit or `-`.
pub open spec fn slug_char(c: char) -> bool {
    ('a' <= c && c <= 'z') || ('0' <= c && c <= '9') || c == '-'
}

pub open spec fn ascii_upper(c: char) -> bool {
    'A' <= c && c <= 'Z'
}

proof fn lemma_lowered_fixed(t: Seq<char>)
    requires
        forall|k: int| 0 <= k < t.len() ==> #[trigger] char_lowercase_of(t[k]) == seq![t[k]],
    ensures
        lowered(t) == t,
    decreases t.len(),
{
    if t.len() > 0 {
        let c = t.last();
        assert(char_lowercase_of(t[t.len() - 1]) == seq![t[t.len() - 1]]);
        let t0 = t.drop_last();
        assert forall|k: int| 0 <= k < t0.len() implies #[trigger] char_lowercase_of(t0[k]) == seq![t0[k]] by {
            assert(t0[k] == t[k]);
        }
        lemma_lowered_fixed(t0);
        assert(t0.push(c) =~= t);
    }
}

/// No character's lowercase mapping holds an ASCII capital.
pub open spec fn lowers_without_capitals(t: Seq<char>) -> bool {
    forall|k: int, m: int|
        0 <= k < t.len() && 0 <= m < char_lowercase_of(t[k]).len() ==> !ascii_upper(
            #[trigger] char_lowercase_of(t[k])[m],
        )
}

proof fn lemma_lowered_no_upper(t: Seq<char>)
    requires
        lowers_without_capitals(t),
    ensures
        forall|k: int| 0 <= k < lowered(t).len() ==> !ascii_upper(#[trigger] lowered(t)[k]),
    decreases t.len(),
{
    if t.len() > 0 {
        let c = t.last();
        let t0 = t.drop_last();
        assert forall|k: int, m: int|
            0 <= k < t0.len() && 0 <= m < char_lowercase_of(t0[k]).len() implies !ascii_upper(
            #[trigger] char_lowercase_of(t0[k])[m]) by {
            assert(t0[k] == t[k]);
        }
        lemma_lowered_no_upper(t0);
        let l0 = lowered(t0);
        assert forall|k: int| 0 <= k < lowered(t).len() implies !ascii_upper(#[trigger] lowered(t)[k]) by {
            if k < l0.len() {
                assert(lowered(t)[k] == l0[k]);
            } else {
                assert(lowered(t)[k] == char_lowercase_of(t[t.len() - 1])[k - l0.len()]);
            }
        }
    }
}

proof fn lemma_dash_runs_no_upper(t: Seq<char>)
    requires
        forall|k: int| 0 <= k < t.len() ==> !ascii_upper(#[trigger] t[k]),
    ensures
        forall|k: int| 0 <= k < dash_runs(t).0.len() ==> !ascii_upper(#[trigger] dash_runs(t).0[k]),
    decreases t.len(),
{
    if t.len() > 0 {
        lemma_dash_runs_no_upper(t.drop_last());
        let o0 = dash_runs(t.drop_last()).0;
        let o = dash_runs(t).0;
        assert(!ascii_upper(t[t.len() - 1]));
        assert forall|k: int| 0 <= k < o.len() implies !ascii_upper(#[trigger] o[k]) by {
            if k < o0.len() {
                assert(o[k] == o0[k]);
            }
        }
    }
}

proof fn lemma_dash_runs_fixed(t: Seq<char>)
    requires
        forall|k: int| 0 <= k < t.len() ==> slug_char(#[trigger] t[k]),
        forall|k: int| 0 <= k < t.len() - 1 ==> !(#[trigger] t[k] == '-' && t[k + 1] == '-'),
    ensures
        dash_runs(t) == (t, t.len() > 0 && t.last() == '-'),
    decreases t.len(),
{
    if t.len() > 0 {
        let t0 = t.drop_last();
        assert forall|k: int| 0 <= k < t0.len() implies slug_char(#[trigger] t0[k]) by {
            assert(t0[k] == t[k]);
        }
        assert forall|k: int| 0 <= k < t0.len() - 1 implies !(#[trigger] t0[k] == '-' && t0[k + 1] == '-') by {
            assert(t0[k] == t[k] && t0[k + 1] == t[k + 1]);
        }
        lemma_dash_runs_fixed(t0);
        let c = t.last();
        assert(slug_char(t[t.len() - 1]));
        if c == '-' && t0.len() > 0 {
            assert(!(t[t.len() - 2] == '-' && t[t.len() - 1] == '-'));
        }
        assert(t0.push(c) =~= t);
    }
}

/// A text already in slug form: ASCII lowercase letters, digits and single
/// dashes, with no dash at either end.
pub open spec fn is_slug(t: Seq<char>) -> bool {
    &&& forall|k: int| 0 <= k < t.len() ==> slug_char(#[trigger] t[k])
    &&& forall|k: int| 0 <= k < t.len() - 1 ==> !(#[trigger] t[k] == '-' && t[k + 1] == '-')
    &&& t.len() > 0 ==> t[0] != '-' && t.last() != '-'
}

/// The slug of a text whose characters all lower to capital-free text is in
/// slug form.
proof fn lemma_slug_is_slug(s: Seq<char>)
    requires
        lowers_without_capitals(s),
    ensures
        is_slug(slug(s)),
{
    lemma_lowered_no_upper(s);
    lemma_dash_runs_no_upper(lowered(s));
    slug_is_filesystem_safe(s);
    let o = dash_runs(lowered(s)).0;
    lemma_dash_start(o);
    lemma_dash_end(o);
    let t = slug(s);
    assert forall|k: int| 0 <= k < t.len() implies slug_char(#[trigger] t[k]) by {
        assert(t[k] == o[dash_start(o) + k]);
        assert(!ascii_upper(o[dash_start(o) + k]));
        assert(is_ascii_alnum(t[k]) || t[k] == '-');
    }
}

/// A text in slug form whose characters each lower to themselves is its
/// own slug.
proof fn lemma_slug_of_slug(t: Seq<char>)
    requires
        is_slug(t),
        forall|k: int| 0 <= k < t.len() ==> #[trigger] char_lowercase_of(t[k]) == seq![t[k]],
    ensures
        slug(t) == t,
{
    lemma_lowered_fixed(t);
    lemma_dash_runs_fixed(t);
    lemma_dash_start(t);
    lemma_dash_end(t);
    if t.len() > 0 {
        assert(dash_start(t) == 0);
        assert(dash_end(t) == t.len());
        assert(t.subrange(0, t.len() as int) =~= t);
    } else {
        assert(trim_dashes(t) =~= t);
    }
}


/// The host a result's URL names, empty when it has none.
pub open spec fn host_text(url: Seq<char>) -> Seq<char> {
    match url_host_of(url) {
        Some(h) => h,
        None => Seq::empty(),
    }
}

/// Law: two results count as duplicates exactly when their lowercased
/// titles are equal and their URL hosts are equal. Equal titles and hosts
/// always collide; for titles without a `|` (the key's separator), a
/// collision means equal titles and equal hosts, so results whose
/// lowercased titles differ are both kept.
pub proof fn duplicates_share_title_and_host(a: SearchResult, b: SearchResult)
    ensures
        lowercase_of(a.title@) == lowercase_of(b.title@) && host_text(a.url@) == host_text(b.url@)
            ==> dedup_key(a) == dedup_key(b),
        !lowercase_of(a.title@).contains('|') && !lowercase_of(b.title@).contains('|') && dedup_key(a)
            == dedup_key(b) ==> lowercase_of(a.title@) == lowercase_of(b.title@) && host_text(a.url@)
            == host_text(b.url@),
{
    let ta = lowercase_of(a.title@);
    let tb = lowercase_of(b.title@);
    let ha = host_text(a.url@);
    let hb = host_text(b.url@);
    let ka = dedup_key(a);
    let kb = dedup_key(b);
    assert(ka =~= ta + seq!['|'] + ha);
    assert(kb =~= tb + seq!['|'] + hb);
    if !ta.contains('|') && !tb.contains('|') && ka == kb {
        if ta.len() < tb.len() {
            assert(ka[ta.len() as int] == '|');
            assert(kb[ta.len() as int] == tb[ta.len() as int]);
            assert(tb.contains(tb[ta.len() as int]));
        }
        if tb.len() < ta.len() {
            assert(kb[tb.len() as int] == '|');
            assert(ka[tb.len() as int] == ta[tb.len() as int]);
            assert(ta.contains(ta[tb.len() as int]));
        }
        assert(ta =~= ka.subrange(0, ta.len() as int));
        assert(tb =~= kb.subrange(0, tb.len() as int));
        assert(ha =~= ka.subrange(ta.len() + 1int, ka.len() as int));
        assert(hb =~= kb.subrange(tb.len() + 1int, kb.len() as int));
    }
}


/// Law: a clamped setting is its value (or the default when absent) when
/// that lies within `[lo, hi]`, and the nearer bound otherwise; it never
/// leaves the range.
pub proof fn clamping_stays_in_range(v: Option<u64>, d: u64, lo: u64, hi: u64)
    requires
        lo <= hi,
    ensures
        lo <= clamped_or(v, d, lo, hi) <= hi,
        v is Some && lo <= v->0 <= hi ==> clamped_or(v, d, lo, hi) == v->0,
        v is None && lo <= d <= hi ==> clamped_or(v, d, lo, hi) == d,
        v is Some && v->0 < lo ==> clamped_or(v, d, lo, hi) == lo,
        v is Some && v->0 > hi ==> clamped_or(v, d, lo, hi) == hi,
{
}

} // verus!
