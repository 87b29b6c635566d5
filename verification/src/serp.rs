//! Search-engine results pages: the result row, the choice of parser by
//! host, and the text clean-up the parsers share.

use vstd::prelude::*;
use crate::text::{chars_of, contains_in_range, contains_seq, is_unicode_ws, push_char, range_eq, trim, trim_range, unicode_ws};

verus! {

/// One result row of a search-engine or site results page.
#[derive(Debug, Clone, PartialEq, Eq)]
pub struct SearchResult {
    pub title: String,
    pub url: String,
    pub snippet: String,
}

/// The results-page parsers, one per engine or site.
#[derive(Debug, Clone, Copy, PartialEq, Eq)]
pub enum SerpEngine {
    Baidu,
    DuckDuckGo,
    Bing,
    Sogou,
    Google,
    GitHub,
    HuggingFace,
}

/// The parser for a results page on `host`: the first of `baidu.com`,
/// `duckduckgo.com`, `bing.com`, `sogou.com`, `google.`, `github.com`,
/// `huggingface.co` that the host contains; `None` for other hosts.
pub open spec fn engine_for(host: Seq<char>) -> Option<SerpEngine> {
    if contains_seq(host, "baidu.com"@) {
        Some(SerpEngine::Baidu)
    } else if contains_seq(host, "duckduckgo.com"@) {
        Some(SerpEngine::DuckDuckGo)
    } else if contains_seq(host, "bing.com"@) {
        Some(SerpEngine::Bing)
    } else if contains_seq(host, "sogou.com"@) {
        Some(SerpEngine::Sogou)
    } else if contains_seq(host, "google."@) {
        Some(SerpEngine::Google)
    } else if contains_seq(host, "github.com"@) {
        Some(SerpEngine::GitHub)
    } else if contains_seq(host, "huggingface.co"@) {
        Some(SerpEngine::HuggingFace)
    } else {
        None
    }
}

fn host_contains(v: &Vec<char>, pat: &str) -> (b: bool)
    ensures
        b == contains_seq(v@, pat@),
{
    let w = chars_of(pat);
    assert(v@.subrange(0, v@.len() as int) =~= v@);
    contains_in_range(v, 0, v.len(), w.as_slice())
}

/// Choose the results-page parser by the URL's host (empty when the URL
/// has none).
pub fn engine_for_host(host: &str) -> (r: Option<SerpEngine>)
    ensures
        r == engine_for(host@),
{
    let v = chars_of(host);
    if host_contains(&v, "baidu.com") {
        Some(SerpEngine::Baidu)
    } else if host_contains(&v, "duckduckgo.com") {
        Some(SerpEngine::DuckDuckGo)
    } else if host_contains(&v, "bing.com") {
        Some(SerpEngine::Bing)
    } else if host_contains(&v, "sogou.com") {
        Some(SerpEngine::Sogou)
    } else if host_contains(&v, "google.") {
        Some(SerpEngine::Google)
    } else if host_contains(&v, "github.com") {
        Some(SerpEngine::GitHub)
    } else if host_contains(&v, "huggingface.co") {
        Some(SerpEngine::HuggingFace)
    } else {
        None
    }
}

/// Whitespace for `normalize_ws`: Unicode whitespace (the no-break space
/// that `&nbsp;` decodes to is among it).
pub open spec fn ws_collapse(s: Seq<char>) -> (Seq<char>, bool)
    decreases s.len(),
{
    if s.len() == 0 {
        (Seq::empty(), false)
    } else {
        let (out, gap) = ws_collapse(s.drop_last());
        let c = s.last();
        if is_unicode_ws(c) {
            (out, out.len() > 0)
        } else if gap {
            (out.push(' ').push(c), false)
        } else {
            (out.push(c), false)
        }
    }
}

/// The words of `s` (maximal runs of non-whitespace) joined by single
/// spaces.
pub open spec fn normalized_ws(s: Seq<char>) -> Seq<char> {
    ws_collapse(s).0
}

/// Replace no-break spaces by spaces, then collapse every whitespace run
/// into one space and trim.
pub fn normalize_ws(s: &str) -> (r: String)
    ensures
        r@ == normalized_ws(s@),
{
    let mut out = String::new();
    let mut gap = false;
    let mut started = false;
    for c in it: s.chars()
        invariant
            it.seq() == s@,
            (out@, gap) == ws_collapse(it.seq().take(it.index() as int)),
            started == (out@.len() > 0),
    {
        let ghost pre = it.seq().take(it.index() as int);
        assert(it.seq().take(it.index() + 1).drop_last() =~= pre);
        assert(it.seq().take(it.index() + 1).last() == c);
        if unicode_ws(c) {
            gap = started;
        } else {
            if gap {
                push_char(&mut out, ' ');
            }
            push_char(&mut out, c);
            gap = false;
            started = true;
        }
    }
    assert(s@.take(s@.len() as int) =~= s@);
    out
}

/// `&amp;`.
pub open spec fn amp_entity() -> Seq<char> {
    seq!['&', 'a', 'm', 'p', ';']
}

/// `s[i..]` with every `&amp;` (left to right) replaced by `&`.
pub open spec fn unescape_amp_from(s: Seq<char>, i: int) -> Seq<char>
    decreases s.len() - i,
{
    if i >= s.len() {
        Seq::empty()
    } else if i + 5 <= s.len() && s.subrange(i, i + 5) == amp_entity() {
        seq!['&'] + unescape_amp_from(s, i + 5)
    } else {
        seq![s[i]] + unescape_amp_from(s, i + 1)
    }
}

/// `s.replace("&amp;", "&")`.
pub open spec fn unescape_amp(s: Seq<char>) -> Seq<char> {
    unescape_amp_from(s, 0)
}

/// `v[start..end].replace("&amp;", "&")`.
fn unescape_amp_range(v: &Vec<char>, start: usize, end: usize) -> (r: String)
    requires
        start <= end <= v@.len(),
    ensures
        r@ == unescape_amp(v@.subrange(start as int, end as int)),
{
    let ghost s = v@.subrange(start as int, end as int);
    let amp = ['&', 'a', 'm', 'p', ';'];
    assert(amp@ =~= amp_entity());
    let mut out = String::new();
    let mut i = start;
    while i < end
        invariant
            start <= i <= end <= v@.len(),
            s == v@.subrange(start as int, end as int),
            amp@ == amp_entity(),
            out@ + unescape_amp_from(s, i - start) == unescape_amp(s),
        decreases end - i,
    {
        let ghost j = (i - start) as int;
        let ghost before = out@;
        if end - i >= 5 && range_eq(v, i, i + 5, &amp) {
            assert(s.subrange(j, j + 5) =~= v@.subrange(i as int, i + 5));
            assert(unescape_amp_from(s, j) == seq!['&'] + unescape_amp_from(s, j + 5));
            push_char(&mut out, '&');
            assert(out@ + unescape_amp_from(s, j + 5) =~= before + (seq!['&'] + unescape_amp_from(s, j + 5)));
            i = i + 5;
        } else {
            assert(end - i >= 5 ==> s.subrange(j, j + 5) =~= v@.subrange(i as int, i + 5));
            assert(s[j] == v@[i as int]);
            assert(unescape_amp_from(s, j) == seq![s[j]] + unescape_amp_from(s, j + 1));
            push_char(&mut out, v[i]);
            assert(out@ + unescape_amp_from(s, j + 1) =~= before + (seq![s[j]] + unescape_amp_from(s, j + 1)));
            i = i + 1;
        }
    }
    assert(out@ =~= unescape_amp(s));
    out
}

/// A Baidu redirect href: trimmed, `&amp;` unescaped.
pub fn normalize_baidu_href(href: &str) -> (r: String)
    ensures
        r@ == unescape_amp(trim(href@)),
{
    let v = chars_of(href);
    assert(v@.subrange(0, v@.len() as int) =~= v@);
    let (a, b) = trim_range(&v, 0, v.len());
    unescape_amp_range(&v, a, b)
}

/// A possibly relative href made absolute against `base`, then `&amp;`
/// unescaped. A blank href gives the empty text.
pub open spec fn redirect_href(href: Seq<char>, base: Seq<char>) -> Seq<char> {
    let t = trim(href);
    if t.len() == 0 {
        Seq::empty()
    } else if t[0] == '/' {
        unescape_amp(base + t)
    } else {
        unescape_amp(t)
    }
}

pub fn normalize_redirect_href(href: &str, base: &str) -> (r: String)
    ensures
        r@ == redirect_href(href@, base@),
{
    let v = chars_of(href);
    assert(v@.subrange(0, v@.len() as int) =~= v@);
    let (a, b) = trim_range(&v, 0, v.len());
    if a == b {
        return String::new();
    }
    if v[a] == '/' {
        let mut full = chars_of(base);
        let ghost bv = full@;
        let mut i = a;
        while i < b
            invariant
                a <= i <= b <= v@.len(),
                full@ == bv + v@.subrange(a as int, i as int),
            decreases b - i,
        {
            full.push(v[i]);
            assert(v@.subrange(a as int, i + 1) =~= v@.subrange(a as int, i as int).push(v@[i as int]));
            i += 1;
        }
        assert(full@.subrange(0, full@.len() as int) =~= full@);
        unescape_amp_range(&full, 0, full.len())
    } else {
        unescape_amp_range(&v, a, b)
    }
}


/// The characters of `s` that are not whitespace, in order.
pub open spec fn non_ws_chars(s: Seq<char>) -> Seq<char>
    decreases s.len(),
{
    if s.len() == 0 {
        Seq::empty()
    } else if is_unicode_ws(s.last()) {
        non_ws_chars(s.drop_last())
    } else {
        non_ws_chars(s.drop_last()).push(s.last())
    }
}

proof fn lemma_ws_collapse(s: Seq<char>)
    ensures
        ({
            let (out, gap) = ws_collapse(s);
            &&& non_ws_chars(out) == non_ws_chars(s)
            &&& out.len() > 0 ==> !is_unicode_ws(out[0]) && !is_unicode_ws(out.last())
            &&& forall|k: int|
                0 <= k < out.len() && is_unicode_ws(#[trigger] out[k]) ==> out[k] == ' ' && 0 < k < out.len() - 1
                    && !is_unicode_ws(out[k - 1]) && !is_unicode_ws(out[k + 1])
            &&& gap ==> out.len() > 0
        }),
    decreases s.len(),
{
    if s.len() > 0 {
        lemma_ws_collapse(s.drop_last());
        let (o0, g0) = ws_collapse(s.drop_last());
        let c = s.last();
        let (out, gap) = ws_collapse(s);
        if is_unicode_ws(c) {
        } else if g0 {
            let o1 = o0.push(' ');
            assert(is_unicode_ws(' '));
            assert(out == o1.push(c));
            assert(o1.drop_last() =~= o0);
            assert(out.drop_last() =~= o1);
            assert(non_ws_chars(o1) == non_ws_chars(o0));
            assert forall|k: int|
                0 <= k < out.len() && is_unicode_ws(#[trigger] out[k]) implies out[k] == ' ' && 0 < k < out.len() - 1
                    && !is_unicode_ws(out[k - 1]) && !is_unicode_ws(out[k + 1]) by {
                if k < o0.len() {
                    assert(out[k] == o0[k]);
                    if k + 1 < o0.len() {
                        assert(out[k + 1] == o0[k + 1]);
                    }
                    if k > 0 {
                        assert(out[k - 1] == o0[k - 1]);
                    }
                } else if k == o0.len() {
                    assert(out[k - 1] == o0.last());
                }
            }
            assert(out[0] == o0[0]);
        } else {
            assert(out == o0.push(c));
            assert(out.drop_last() =~= o0);
            assert forall|k: int|
                0 <= k < out.len() && is_unicode_ws(#[trigger] out[k]) implies out[k] == ' ' && 0 < k < out.len() - 1
                    && !is_unicode_ws(out[k - 1]) && !is_unicode_ws(out[k + 1]) by {
                assert(k < o0.len());
                assert(out[k] == o0[k]);
                assert(out[k - 1] == o0[k - 1]);
                if k + 1 < o0.len() {
                    assert(out[k + 1] == o0[k + 1]);
                }
            }
            if o0.len() > 0 {
                assert(out[0] == o0[0]);
            }
        }
    }
}

/// Law: normalizing keeps every non-whitespace character, in order, and
/// leaves only single spaces between them: no whitespace at either end,
/// and each whitespace character left is one space between two
/// non-whitespace characters.
pub proof fn normalizing_keeps_words_and_single_spaces(s: Seq<char>)
    ensures
        non_ws_chars(normalized_ws(s)) == non_ws_chars(s),
        normalized_ws(s).len() > 0 ==> !is_unicode_ws(normalized_ws(s)[0]) && !is_unicode_ws(
            normalized_ws(s).last(),
        ),
        forall|k: int|
            0 <= k < normalized_ws(s).len() && is_unicode_ws(#[trigger] normalized_ws(s)[k]) ==> normalized_ws(s)[k]
                == ' ' && 0 < k < normalized_ws(s).len() - 1 && !is_unicode_ws(normalized_ws(s)[k - 1])
                && !is_unicode_ws(normalized_ws(s)[k + 1]),
{
    lemma_ws_collapse(s);
}

} // verus!
