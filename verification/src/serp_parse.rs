//! Results-page parsers, one per search engine or site. `scraper` parses
//! the HTML and runs the CSS selectors; what each parser reads of the
//! matched elements, which rows it keeps, how it rewrites redirect links
//! and where it stops is decided here.

use vstd::prelude::*;
use scraper::{ElementRef, Html, Selector};
use crate::serp::{engine_for, engine_for_host, SerpEngine, normalize_baidu_href, normalize_redirect_href, normalize_ws, normalized_ws, redirect_href, unescape_amp, SearchResult};
use crate::text::{
    chars_of, find_char, lemma_next_char, next_char, contains_in_range, contains_seq, push_str, starts_with, starts_with_in_range, str_eq, string_from_range,
    trim, trim_range, trim_start_index, unicode_ws, is_unicode_ws, lemma_trim_start_index,
};
use crate::web::{pairs_view, parse_url, parsed_url_of, url_host, url_host_of};

verus! {

/// An element as a parser reads it: its text nodes and its `href`.
#[derive(Debug, Clone)]
pub struct Scraped {
    pub texts: Vec<String>,
    pub href: Option<String>,
}

/// A result container: its own text nodes, and the first element each
/// inner selector matches inside it.
#[derive(Debug, Clone)]
pub struct ScrapedBlock {
    pub texts: Vec<String>,
    pub inner: Vec<Option<Scraped>>,
}

/// A link, with the text nodes of the first paragraph of each of its
/// ancestors, nearest first (`None` where an ancestor has none).
#[derive(Debug, Clone)]
pub struct ScrapedLink {
    pub href: Option<String>,
    pub texts: Vec<String>,
    pub paragraphs: Vec<Option<Vec<String>>>,
}

pub open spec fn views(v: Seq<String>) -> Seq<Seq<char>> {
    v.map_values(|s: String| s@)
}

pub open spec fn opt_view(o: Option<String>) -> Option<Seq<char>> {
    match o {
        Some(s) => Some(s@),
        None => None,
    }
}

/// An element's text nodes and `href`.
pub type ElemV = (Seq<Seq<char>>, Option<Seq<char>>);

/// A container's text nodes and the first match of each inner selector.
pub type BlockV = (Seq<Seq<char>>, Seq<Option<ElemV>>);

/// A link's `href`, its text nodes, and its ancestors' first paragraphs.
pub type LinkV = (Option<Seq<char>>, Seq<Seq<char>>, Seq<Option<Seq<Seq<char>>>>);

/// A result row: title, url, snippet.
pub type RowV = (Seq<char>, Seq<char>, Seq<char>);

pub open spec fn elem_view(e: Scraped) -> ElemV {
    (views(e.texts@), opt_view(e.href))
}

pub open spec fn opt_elem_view(o: Option<Scraped>) -> Option<ElemV> {
    match o {
        Some(e) => Some(elem_view(e)),
        None => None,
    }
}

pub open spec fn block_view(b: ScrapedBlock) -> BlockV {
    (views(b.texts@), b.inner@.map_values(|o: Option<Scraped>| opt_elem_view(o)))
}

pub open spec fn blocks_view(bs: Seq<ScrapedBlock>) -> Seq<BlockV> {
    bs.map_values(|b: ScrapedBlock| block_view(b))
}

pub open spec fn opt_texts_view(o: Option<Vec<String>>) -> Option<Seq<Seq<char>>> {
    match o {
        Some(v) => Some(views(v@)),
        None => None,
    }
}

pub open spec fn link_view(l: ScrapedLink) -> LinkV {
    (opt_view(l.href), views(l.texts@), l.paragraphs@.map_values(|o: Option<Vec<String>>| opt_texts_view(o)))
}

pub open spec fn links_view(ls: Seq<ScrapedLink>) -> Seq<LinkV> {
    ls.map_values(|l: ScrapedLink| link_view(l))
}

pub open spec fn row_view(r: SearchResult) -> RowV {
    (r.title@, r.url@, r.snippet@)
}

pub open spec fn rows_view(rs: Seq<SearchResult>) -> Seq<RowV> {
    rs.map_values(|r: SearchResult| row_view(r))
}

pub open spec fn opt_row_view(o: Option<SearchResult>) -> Option<RowV> {
    match o {
        Some(r) => Some(row_view(r)),
        None => None,
    }
}

pub open spec fn str_views(v: Seq<&str>) -> Seq<Seq<char>> {
    v.map_values(|s: &str| s@)
}

/// The containers `scraper` matches with selector `container` in `html`,
/// each with the first match of every `inner` selector (`None` for a
/// selector that does not parse or matches nothing).
pub uninterp spec fn scraped_blocks_of(html: Seq<char>, container: Seq<char>, inner: Seq<Seq<char>>) -> Seq<BlockV>;

/// Parses `html` with `scraper::Html::parse_document` and the selectors
/// with `scraper::Selector::parse`, and hands out every container match
/// with its text nodes and the first match of each inner selector; claims
/// only that the result is a function of the texts (named
/// `scraped_blocks_of`).
#[verifier::external_body]
fn scrape_blocks(html: &str, container: &str, inner: &[&str]) -> (r: Vec<ScrapedBlock>)
    ensures
        blocks_view(r@) == scraped_blocks_of(html@, container@, str_views(inner@)),
{
    let doc = Html::parse_document(html);
    let Ok(c) = Selector::parse(container) else { return Vec::new() };
    let texts = |e: ElementRef| e.text().map(String::from).collect::<Vec<String>>();
    doc.select(&c).map(|el| ScrapedBlock {
        texts: texts(el),
        inner: inner.iter().map(|s| Selector::parse(s).ok().and_then(|s| el.select(&s).next())
            .map(|e| Scraped { texts: texts(e), href: e.attr("href").map(String::from) })).collect(),
    }).collect()
}

/// The elements `scraper` matches with selector `link` in `html`, each with
/// its `href`, its text nodes, and for each ancestor (nearest first) the
/// text nodes of its first match of selector `para`.
pub uninterp spec fn scraped_links_of(html: Seq<char>, link: Seq<char>, para: Seq<char>) -> Seq<LinkV>;

/// Parses `html` and both selectors with `scraper`, and hands out every
/// match of `link` with its `href`, its text nodes, and the first `para`
/// match of each of its ancestors; claims only that the result is a
/// function of the texts (named `scraped_links_of`).
#[verifier::external_body]
fn scrape_links(html: &str, link: &str, para: &str) -> (r: Vec<ScrapedLink>)
    ensures
        links_view(r@) == scraped_links_of(html@, link@, para@),
{
    let doc = Html::parse_document(html);
    let (Ok(a), Ok(p)) = (Selector::parse(link), Selector::parse(para)) else { return Vec::new() };
    let texts = |e: ElementRef| e.text().map(String::from).collect::<Vec<String>>();
    doc.select(&a).map(|e| ScrapedLink {
        href: e.attr("href").map(String::from),
        texts: texts(e),
        paragraphs: e.ancestors().map(|n| ElementRef::wrap(n).and_then(|el| el.select(&p).next()).map(texts)).collect(),
    }).collect()
}

/// Text pieces joined by `sep`.
pub open spec fn joined(parts: Seq<Seq<char>>, sep: Seq<char>) -> Seq<char>
    decreases parts.len(),
{
    if parts.len() == 0 {
        Seq::empty()
    } else if parts.len() == 1 {
        parts[0]
    } else {
        joined(parts.drop_last(), sep) + sep + parts.last()
    }
}

pub fn join_texts(parts: &Vec<String>, sep: &str) -> (r: String)
    ensures
        r@ == joined(views(parts@), sep@),
{
    let mut r = String::new();
    let mut i: usize = 0;
    while i < parts.len()
        invariant
            i <= parts@.len(),
            r@ == joined(views(parts@.take(i as int)), sep@),
        decreases parts.len() - i,
    {
        proof {
            assert(views(parts@.take(i + 1)).drop_last() =~= views(parts@.take(i as int)));
            assert(views(parts@.take(i + 1)).last() == parts@[i as int]@);
        }
        if i > 0 {
            push_str(&mut r, sep);
        }
        push_str(&mut r, parts[i].as_str());
        proof {
            if i == 0 {
                assert(r@ =~= joined(views(parts@.take(1)), sep@));
            }
        }
        i += 1;
    }
    proof {
        assert(parts@.take(parts@.len() as int) =~= parts@);
    }
    r
}

/// An element's text as titles read it: nodes joined, whitespace collapsed.
pub open spec fn tight(texts: Seq<Seq<char>>) -> Seq<char> {
    normalized_ws(joined(texts, Seq::empty()))
}

/// Nodes joined by spaces, then trimmed.
pub open spec fn spaced_trim(texts: Seq<Seq<char>>) -> Seq<char> {
    trim(joined(texts, " "@))
}

/// Nodes joined by spaces, whitespace collapsed.
pub open spec fn spaced_norm(texts: Seq<Seq<char>>) -> Seq<char> {
    normalized_ws(joined(texts, " "@))
}

fn tight_text(texts: &Vec<String>) -> (r: String)
    ensures
        r@ == tight(views(texts@)),
{
    let j = join_texts(texts, "");
    proof {
        reveal_strlit("");
        assert(""@ =~= Seq::<char>::empty());
    }
    normalize_ws(j.as_str())
}

fn trimmed(s: &str) -> (r: String)
    ensures
        r@ == trim(s@),
{
    let v = chars_of(s);
    proof {
        assert(v@.subrange(0, v@.len() as int) =~= v@);
    }
    let (a, b) = trim_range(&v, 0, v.len());
    string_from_range(&v, a, b)
}

fn spaced_trim_text(texts: &Vec<String>) -> (r: String)
    ensures
        r@ == spaced_trim(views(texts@)),
{
    let j = join_texts(texts, " ");
    trimmed(j.as_str())
}

fn spaced_norm_text(texts: &Vec<String>) -> (r: String)
    ensures
        r@ == spaced_norm(views(texts@)),
{
    let j = join_texts(texts, " ");
    normalize_ws(j.as_str())
}

pub open spec fn href_or_empty(h: Option<Seq<char>>) -> Seq<char> {
    match h {
        Some(s) => s,
        None => Seq::empty(),
    }
}

fn href_text(h: &Option<String>) -> (r: String)
    ensures
        r@ == href_or_empty(opt_view(*h)),
{
    match h {
        Some(s) => s.clone(),
        None => String::new(),
    }
}

/// `s` without its leading whitespace.
pub open spec fn trim_start(s: Seq<char>) -> Seq<char> {
    s.subrange(trim_start_index(s), s.len() as int)
}

/// The snippet of the first of `inner[from..to]` that matched: its nodes
/// joined by spaces, whitespace collapsed.
pub open spec fn first_snippet(inner: Seq<Option<ElemV>>, from: int, to: int) -> Option<Seq<char>>
    decreases to - from,
{
    if from >= to || from < 0 || from >= inner.len() {
        None
    } else {
        match inner[from] {
            Some(e) => Some(spaced_norm(e.0)),
            None => first_snippet(inner, from + 1, to),
        }
    }
}

fn first_snippet_text(inner: &Vec<Option<Scraped>>, from: usize, to: usize) -> (r: Option<String>)
    ensures
        opt_view(r) == first_snippet(inner@.map_values(|o: Option<Scraped>| opt_elem_view(o)), from as int, to as int),
    decreases to - from,
{
    if from >= to || from >= inner.len() {
        return None;
    }
    match &inner[from] {
        Some(e) => Some(spaced_norm_text(&e.texts)),
        None => first_snippet_text(inner, from + 1, to),
    }
}

/// The fallback snippet: the container's text with the title's text
/// stripped off the front (when the text starts with it).
pub open spec fn minus_title(container: Seq<Seq<char>>, title: Option<ElemV>) -> Seq<char> {
    let full = tight(container);
    let t = match title {
        Some(e) => tight(e.0),
        None => Seq::empty(),
    };
    if t.len() > 0 && starts_with(full, t) {
        trim_start(full.subrange(t.len() as int, full.len() as int))
    } else {
        full
    }
}

fn minus_title_text(container: &Vec<String>, title: &Option<Scraped>) -> (r: String)
    ensures
        r@ == minus_title(views(container@), opt_elem_view(*title)),
{
    let full = tight_text(container);
    let t = match title {
        Some(e) => tight_text(&e.texts),
        None => String::new(),
    };
    let fv = chars_of(full.as_str());
    let tv = chars_of(t.as_str());
    proof {
        assert(fv@.subrange(0, fv@.len() as int) =~= fv@);
    }
    if tv.len() > 0 && starts_with_in_range(&fv, 0, fv.len(), tv.as_slice()) {
        let i = skip_ws(&fv, tv.len());
        proof {
            let rest = fv@.subrange(tv@.len() as int, fv@.len() as int);
            lemma_trim_start_index(rest);
            assert(trim_start(rest) =~= fv@.subrange(i as int, fv@.len() as int));
        }
        string_from_range(&fv, i, fv.len())
    } else {
        full
    }
}

/// The index of the first non-whitespace character at or after `from`.
fn skip_ws(v: &Vec<char>, from: usize) -> (i: usize)
    requires
        from <= v@.len(),
    ensures
        i == from + trim_start_index(v@.subrange(from as int, v@.len() as int)),
        i <= v@.len(),
{
    let mut i = from;
    while i < v.len() && unicode_ws(v[i])
        invariant
            from <= i <= v@.len(),
            i - from + trim_start_index(v@.subrange(i as int, v@.len() as int)) == trim_start_index(
                v@.subrange(from as int, v@.len() as int),
            ),
        decreases v.len() - i,
    {
        proof {
            assert(v@.subrange(i as int, v@.len() as int).drop_first() =~= v@.subrange(i + 1, v@.len() as int));
            assert(v@.subrange(i as int, v@.len() as int)[0] == v@[i as int]);
        }
        i += 1;
    }
    proof {
        if i < v@.len() {
            assert(v@.subrange(i as int, v@.len() as int)[0] == v@[i as int]);
        }
    }
    i
}

/// The value of the first query pair named `key`.
pub open spec fn first_pair(pairs: Seq<(Seq<char>, Seq<char>)>, key: Seq<char>) -> Option<Seq<char>>
    decreases pairs.len(),
{
    if pairs.len() == 0 {
        None
    } else if pairs[0].0 == key {
        Some(pairs[0].1)
    } else {
        first_pair(pairs.drop_first(), key)
    }
}

fn find_pair(pairs: &Vec<(String, String)>, key: &str) -> (r: Option<String>)
    ensures
        opt_view(r) == first_pair(pairs_view(pairs@), key@),
{
    let ghost pv = pairs_view(pairs@);
    let mut i: usize = 0;
    proof {
        assert(pv.skip(0) =~= pv);
    }
    while i < pairs.len()
        invariant
            i <= pairs@.len(),
            pv == pairs_view(pairs@),
            first_pair(pv, key@) == first_pair(pv.skip(i as int), key@),
        decreases pairs.len() - i,
    {
        proof {
            assert(pv.skip(i as int).drop_first() =~= pv.skip(i + 1));
            assert(pv.skip(i as int)[0] == pv[i as int]);
        }
        if str_eq(pairs[i].0.as_str(), key) {
            return Some(pairs[i].1.clone());
        }
        i += 1;
    }
    None
}

/// The engines whose results pages come as result containers.
#[derive(Debug, Clone, Copy, PartialEq, Eq, Structural)]
pub enum BlockEngine {
    DuckDuckGo,
    Baidu,
    Bing,
    Sogou,
    Google,
}

/// The `k`-th inner match of a container (none past the end).
pub open spec fn inner_at(b: BlockV, k: int) -> Option<ElemV> {
    if 0 <= k < b.1.len() {
        b.1[k]
    } else {
        None
    }
}

fn inner_elem(b: &ScrapedBlock, k: usize) -> (r: Option<&Scraped>)
    ensures
        match r {
            Some(e) => inner_at(block_view(*b), k as int) == Some(elem_view(*e)),
            None => inner_at(block_view(*b), k as int) is None,
        },
{
    if k < b.inner.len() {
        match &b.inner[k] {
            Some(e) => Some(e),
            None => None,
        }
    } else {
        None
    }
}

fn contains_text(seen: &Vec<String>, s: &str) -> (b: bool)
    ensures
        b == views(seen@).contains(s@),
{
    let mut i: usize = 0;
    while i < seen.len()
        invariant
            i <= seen@.len(),
            forall|j: int| 0 <= j < i ==> seen@[j]@ != s@,
        decreases seen.len() - i,
    {
        if str_eq(seen[i].as_str(), s) {
            proof {
                assert(views(seen@)[i as int] == s@);
            }
            return true;
        }
        i += 1;
    }
    proof {
        if views(seen@).contains(s@) {
            let j = choose|j: int| 0 <= j < views(seen@).len() && views(seen@)[j] == s@;
            assert(seen@[j]@ == s@);
        }
    }
    false
}

fn has_prefix(s: &str, p: &str) -> (b: bool)
    ensures
        b == starts_with(s@, p@),
{
    let v = chars_of(s);
    let pv = chars_of(p);
    proof {
        assert(v@.subrange(0, v@.len() as int) =~= v@);
    }
    starts_with_in_range(&v, 0, v.len(), pv.as_slice())
}

fn has_infix(s: &str, p: &str) -> (b: bool)
    ensures
        b == contains_seq(s@, p@),
{
    let v = chars_of(s);
    let pv = chars_of(p);
    proof {
        assert(v@.subrange(0, v@.len() as int) =~= v@);
    }
    contains_in_range(&v, 0, v.len(), pv.as_slice())
}

fn concat(a: &str, b: &str) -> (r: String)
    ensures
        r@ == a@ + b@,
{
    let mut r = String::new();
    push_str(&mut r, a);
    push_str(&mut r, b);
    proof {
        assert(r@ =~= a@ + b@);
    }
    r
}

/// The real target of a DuckDuckGo link: the `uddg` parameter of its
/// redirect (protocol-relative links get `https:`), else the parsed link,
/// else the link as it is.
pub open spec fn ddg_target(href: Seq<char>) -> Seq<char> {
    let full = if starts_with(href, "//"@) {
        "https:"@ + href
    } else {
        href
    };
    match parsed_url_of(full) {
        Some((ser, pairs)) => match first_pair(pairs, "uddg"@) {
            Some(v) => v,
            None => ser,
        },
        None => full,
    }
}

pub fn decode_ddg_href(href: &str) -> (r: String)
    ensures
        r@ == ddg_target(href@),
{
    let full = if has_prefix(href, "//") {
        concat("https:", href)
    } else {
        href.to_string()
    };
    match parse_url(full.as_str()) {
        Some((ser, pairs)) => match find_pair(&pairs, "uddg") {
            Some(v) => v,
            None => ser,
        },
        None => full,
    }
}

/// A DuckDuckGo row: the link's text (joined by spaces, trimmed) must not
/// be empty; the snippet is the snippet element's text, or empty.
pub open spec fn ddg_step(b: BlockV) -> Option<RowV> {
    match inner_at(b, 0) {
        None => None,
        Some(a) => {
            let title = spaced_trim(a.0);
            if title.len() == 0 {
                None
            } else {
                let snippet = match inner_at(b, 1) {
                    Some(sn) => spaced_trim(sn.0),
                    None => Seq::empty(),
                };
                Some((title, ddg_target(href_or_empty(a.1)), snippet))
            }
        },
    }
}

fn ddg_row(b: &ScrapedBlock) -> (r: Option<SearchResult>)
    ensures
        opt_row_view(r) == ddg_step(block_view(*b)),
{
    match inner_elem(b, 0) {
        None => None,
        Some(a) => {
            let title = spaced_trim_text(&a.texts);
            if title.as_str().is_empty() {
                return None;
            }
            let href = href_text(&a.href);
            let url = decode_ddg_href(href.as_str());
            let snippet = match inner_elem(b, 1) {
                Some(sn) => spaced_trim_text(&sn.texts),
                None => String::new(),
            };
            Some(SearchResult { title, url, snippet })
        },
    }
}

/// A Baidu row: a non-empty title not seen before (seen titles are kept
/// even when the row is then dropped), a non-empty unescaped link, and the
/// abstract's text or else the container text after the title.
pub open spec fn baidu_step(b: BlockV, seen: Seq<Seq<char>>) -> (Option<RowV>, Seq<Seq<char>>) {
    match inner_at(b, 0) {
        None => (None, seen),
        Some(a) => {
            let title = tight(a.0);
            if title.len() == 0 || seen.contains(title) {
                (None, seen)
            } else {
                let seen2 = seen.push(title);
                let url = unescape_amp(trim(href_or_empty(a.1)));
                if url.len() == 0 {
                    (None, seen2)
                } else {
                    let snippet = match inner_at(b, 2) {
                        Some(ab) => tight(ab.0),
                        None => minus_title(b.0, inner_at(b, 1)),
                    };
                    (Some((title, url, snippet)), seen2)
                }
            }
        },
    }
}

fn baidu_row(b: &ScrapedBlock, seen: &mut Vec<String>) -> (r: Option<SearchResult>)
    ensures
        (opt_row_view(r), views(final(seen)@)) == baidu_step(block_view(*b), views(old(seen)@)),
{
    match inner_elem(b, 0) {
        None => None,
        Some(a) => {
            let title = tight_text(&a.texts);
            if title.as_str().is_empty() || contains_text(seen, title.as_str()) {
                return None;
            }
            seen.push(title.clone());
            proof {
                assert(views(seen@) =~= views(old(seen)@).push(title@));
            }
            let href = href_text(&a.href);
            let url = normalize_baidu_href(href.as_str());
            if url.as_str().is_empty() {
                return None;
            }
            let snippet = match inner_elem(b, 2) {
                Some(ab) => tight_text(&ab.texts),
                None => {
                    let t = if 1 < b.inner.len() {
                        &b.inner[1]
                    } else {
                        &None
                    };
                    minus_title_text(&b.texts, t)
                },
            };
            Some(SearchResult { title, url, snippet })
        },
    }
}

/// A Bing or Sogou row: a non-empty title not seen before (kept as seen
/// even when the row is then dropped), the link made absolute against
/// `base` and unescaped (must not be empty), and the first snippet element
/// among `inner[2..to]`, else the container text after the title.
pub open spec fn titled_step(b: BlockV, seen: Seq<Seq<char>>, base: Seq<char>, to: int) -> (Option<RowV>, Seq<Seq<char>>) {
    match inner_at(b, 0) {
        None => (None, seen),
        Some(a) => {
            let title = tight(a.0);
            if title.len() == 0 || seen.contains(title) {
                (None, seen)
            } else {
                let seen2 = seen.push(title);
                let url = redirect_href(href_or_empty(a.1), base);
                if url.len() == 0 {
                    (None, seen2)
                } else {
                    let snippet = match first_snippet(b.1, 2, to) {
                        Some(sn) => sn,
                        None => minus_title(b.0, inner_at(b, 1)),
                    };
                    (Some((title, url, snippet)), seen2)
                }
            }
        },
    }
}

fn titled_row(b: &ScrapedBlock, seen: &mut Vec<String>, base: &str, to: usize) -> (r: Option<SearchResult>)
    ensures
        (opt_row_view(r), views(final(seen)@)) == titled_step(block_view(*b), views(old(seen)@), base@, to as int),
{
    match inner_elem(b, 0) {
        None => None,
        Some(a) => {
            let title = tight_text(&a.texts);
            if title.as_str().is_empty() || contains_text(seen, title.as_str()) {
                return None;
            }
            seen.push(title.clone());
            proof {
                assert(views(seen@) =~= views(old(seen)@).push(title@));
            }
            let href = href_text(&a.href);
            let url = normalize_redirect_href(href.as_str(), base);
            if url.as_str().is_empty() {
                return None;
            }
            let snippet = match first_snippet_text(&b.inner, 2, to) {
                Some(sn) => sn,
                None => {
                    let t = if 1 < b.inner.len() {
                        &b.inner[1]
                    } else {
                        &None
                    };
                    minus_title_text(&b.texts, t)
                },
            };
            Some(SearchResult { title, url, snippet })
        },
    }
}

/// The target of a Google result link: the `q` parameter of a `/url?`
/// redirect (empty when missing), nothing for a link back into Google
/// search, else the link itself.
pub open spec fn google_target(href: Seq<char>) -> Option<Seq<char>> {
    if starts_with(href, "/url?"@) {
        let q = href.subrange("/url?"@.len() as int, href.len() as int);
        Some(
            match parsed_url_of("https://www.google.com/url?"@ + q) {
                Some((_, pairs)) => match first_pair(pairs, "q"@) {
                    Some(v) => v,
                    None => Seq::empty(),
                },
                None => Seq::empty(),
            },
        )
    } else if contains_seq(href, "google.com/search"@) {
        None
    } else {
        Some(href)
    }
}

fn google_target_text(href: &str) -> (r: Option<String>)
    ensures
        opt_view(r) == google_target(href@),
{
    if has_prefix(href, "/url?") {
        let v = chars_of(href);
        let p = chars_of("/url?");
        proof {
            assert(starts_with(href@, "/url?"@));
        }
        let q = string_from_range(&v, p.len(), v.len());
        let full = concat("https://www.google.com/url?", q.as_str());
        let target = match parse_url(full.as_str()) {
            Some((_, pairs)) => match find_pair(&pairs, "q") {
                Some(t) => t,
                None => String::new(),
            },
            None => String::new(),
        };
        Some(target)
    } else if has_infix(href, "google.com/search") {
        None
    } else {
        Some(href.to_string())
    }
}

/// A Google row: a non-empty `h3` title, a link that is not empty and not
/// an internal `/search` link, its target not empty and not seen before,
/// and the first snippet element among `inner[2..7]`, or empty.
pub open spec fn google_step(b: BlockV, seen: Seq<Seq<char>>) -> (Option<RowV>, Seq<Seq<char>>) {
    match inner_at(b, 0) {
        None => (None, seen),
        Some(h3) => {
            let title = tight(h3.0);
            if title.len() == 0 {
                (None, seen)
            } else {
                match inner_at(b, 1) {
                    None => (None, seen),
                    Some(a) => {
                        let href = href_or_empty(a.1);
                        if href.len() == 0 || starts_with(href, "/search"@) {
                            (None, seen)
                        } else {
                            match google_target(href) {
                                None => (None, seen),
                                Some(url) => if url.len() == 0 || seen.contains(url) {
                                    (None, seen)
                                } else {
                                    let snippet = match first_snippet(b.1, 2, 7) {
                                        Some(sn) => sn,
                                        None => Seq::empty(),
                                    };
                                    (Some((title, url, snippet)), seen.push(url))
                                },
                            }
                        }
                    },
                }
            }
        },
    }
}

fn google_row(b: &ScrapedBlock, seen: &mut Vec<String>) -> (r: Option<SearchResult>)
    ensures
        (opt_row_view(r), views(final(seen)@)) == google_step(block_view(*b), views(old(seen)@)),
{
    let h3 = match inner_elem(b, 0) {
        Some(h) => h,
        None => return None,
    };
    let title = tight_text(&h3.texts);
    if title.as_str().is_empty() {
        return None;
    }
    let a = match inner_elem(b, 1) {
        Some(a) => a,
        None => return None,
    };
    let href = href_text(&a.href);
    if href.as_str().is_empty() || has_prefix(href.as_str(), "/search") {
        return None;
    }
    let url = match google_target_text(href.as_str()) {
        Some(u) => u,
        None => return None,
    };
    if url.as_str().is_empty() || contains_text(seen, url.as_str()) {
        return None;
    }
    seen.push(url.clone());
    proof {
        assert(views(seen@) =~= views(old(seen)@).push(url@));
    }
    let snippet = match first_snippet_text(&b.inner, 2, 7) {
        Some(sn) => sn,
        None => String::new(),
    };
    Some(SearchResult { title, url, snippet })
}

/// One container's row (if any) and the keys seen after it.
pub open spec fn block_step(e: BlockEngine, b: BlockV, seen: Seq<Seq<char>>) -> (Option<RowV>, Seq<Seq<char>>) {
    match e {
        BlockEngine::DuckDuckGo => (ddg_step(b), seen),
        BlockEngine::Baidu => baidu_step(b, seen),
        BlockEngine::Bing => titled_step(b, seen, Seq::empty(), 4),
        BlockEngine::Sogou => titled_step(b, seen, "https://www.sogou.com"@, 6),
        BlockEngine::Google => google_step(b, seen),
    }
}

fn block_row(e: BlockEngine, b: &ScrapedBlock, seen: &mut Vec<String>) -> (r: Option<SearchResult>)
    ensures
        (opt_row_view(r), views(final(seen)@)) == block_step(e, block_view(*b), views(old(seen)@)),
{
    match e {
        BlockEngine::DuckDuckGo => ddg_row(b),
        BlockEngine::Baidu => baidu_row(b, seen),
        BlockEngine::Bing => {
            proof {
                reveal_strlit("");
                assert(""@ =~= Seq::<char>::empty());
            }
            titled_row(b, seen, "", 4)
        },
        BlockEngine::Sogou => titled_row(b, seen, "https://www.sogou.com", 6),
        BlockEngine::Google => google_row(b, seen),
    }
}

/// The rows of a results page: containers in order, each giving a row or
/// not; once a row brings the count to `budget` the page stops (the first
/// row is always taken).
pub open spec fn block_rows(e: BlockEngine, bs: Seq<BlockV>, budget: int, seen: Seq<Seq<char>>) -> Seq<RowV>
    decreases bs.len(),
{
    if bs.len() == 0 {
        Seq::empty()
    } else {
        let (row, seen2) = block_step(e, bs[0], seen);
        match row {
            None => block_rows(e, bs.drop_first(), budget, seen2),
            Some(r) => if budget <= 1 {
                seq![r]
            } else {
                seq![r] + block_rows(e, bs.drop_first(), budget - 1, seen2)
            },
        }
    }
}

/// The rows of already-scraped result containers.
pub fn rows_from_blocks(e: BlockEngine, blocks: &[ScrapedBlock], limit: usize) -> (r: Vec<SearchResult>)
    ensures
        rows_view(r@) == block_rows(e, blocks_view(blocks@), limit as int, Seq::empty()),
{
    let ghost bv = blocks_view(blocks@);
    let mut out: Vec<SearchResult> = Vec::new();
    let mut seen: Vec<String> = Vec::new();
    let mut i: usize = 0;
    proof {
        assert(bv.skip(0) =~= bv);
        assert(rows_view(out@) =~= Seq::<RowV>::empty());
        assert(views(seen@) =~= Seq::<Seq<char>>::empty());
    }
    while i < blocks.len()
        invariant
            i <= blocks@.len(),
            bv == blocks_view(blocks@),
            out@.len() < limit || (limit == 0 && out@.len() == 0),
            rows_view(out@) + block_rows(e, bv.skip(i as int), limit - out@.len(), views(seen@))
                == block_rows(e, bv, limit as int, Seq::empty()),
        decreases blocks.len() - i,
    {
        let ghost seen0 = views(seen@);
        let ghost out0 = rows_view(out@);
        proof {
            assert(bv.skip(i as int).drop_first() =~= bv.skip(i + 1));
            assert(bv.skip(i as int)[0] == block_view(blocks@[i as int]));
        }
        let row = block_row(e, &blocks[i], &mut seen);
        match row {
            Some(r) => {
                out.push(r);
                proof {
                    assert(rows_view(out@) =~= out0.push(row_view(out@.last())));
                }
                if out.len() >= limit {
                    proof {
                        assert(rows_view(out@) =~= out0 + block_rows(e, bv.skip(i as int), limit - (out@.len() - 1), seen0));
                    }
                    return out;
                }
                proof {
                    assert(rows_view(out@) + block_rows(e, bv.skip(i + 1), limit - out@.len(), views(seen@)) =~= out0
                        + block_rows(e, bv.skip(i as int), limit - (out@.len() - 1), seen0));
                }
            },
            None => {},
        }
        i += 1;
    }
    proof {
        assert(bv.skip(i as int) =~= Seq::<BlockV>::empty());
        assert(rows_view(out@) + Seq::<RowV>::empty() =~= rows_view(out@));
    }
    out
}

/// The sites whose results pages are read link by link.
#[derive(Debug, Clone, Copy, PartialEq, Eq, Structural)]
pub enum LinkSite {
    GitHub,
    HuggingFace,
}

/// First path segments that are site pages rather than repositories.
pub open spec fn github_skips() -> Seq<Seq<char>> {
    seq![
        "settings"@,
        "notifications"@,
        "login"@,
        "signup"@,
        "explore"@,
        "topics"@,
        "trending"@,
        "collections"@,
        "events"@,
        "sponsors"@,
        "search"@,
        "marketplace"@,
        "pricing"@,
        "features"@,
        "security"@,
        "team"@,
        "enterprise"@,
        "about"@,
        "organizations"@,
        "new"@,
        "customer-stories"@,
        "blog"@,
    ]
}

/// First path segments that are site pages rather than models.
pub open spec fn hf_skips() -> Seq<Seq<char>> {
    seq![
        "datasets"@,
        "spaces"@,
        "models"@,
        "docs"@,
        "settings"@,
        "login"@,
        "signup"@,
        "join"@,
        "pricing"@,
        "enterprise"@,
        "solutions"@,
        "inference-endpoints"@,
        "autocomplete"@,
        "logout"@,
        "notification"@,
        "profile"@,
    ]
}

pub open spec fn site_skips(site: LinkSite) -> Seq<Seq<char>> {
    match site {
        LinkSite::GitHub => github_skips(),
        LinkSite::HuggingFace => hf_skips(),
    }
}

/// The site's origin with `https`, then with `http`.
pub open spec fn site_origins(site: LinkSite) -> (Seq<char>, Seq<char>) {
    match site {
        LinkSite::GitHub => ("https://github.com"@, "http://github.com"@),
        LinkSite::HuggingFace => ("https://huggingface.co"@, "http://huggingface.co"@),
    }
}

/// The path of a link: the link without the site's origin.
pub open spec fn site_path(site: LinkSite, href: Seq<char>) -> Seq<char> {
    let (a, b) = site_origins(site);
    if starts_with(href, a) {
        href.subrange(a.len() as int, href.len() as int)
    } else if starts_with(href, b) {
        href.subrange(b.len() as int, href.len() as int)
    } else {
        href
    }
}

/// The index after the run of `/` starting at `i`.
pub open spec fn slash_run(s: Seq<char>, i: int) -> int
    decreases s.len() - i,
{
    if i < 0 || i >= s.len() {
        i
    } else if s[i] == '/' {
        slash_run(s, i + 1)
    } else {
        i
    }
}

/// The first two `/`-separated segments of a path (leading slashes
/// dropped) and whether more follow; `None` when it has one segment.
pub open spec fn two_segments(p: Seq<char>) -> Option<(Seq<char>, Seq<char>, bool)> {
    let k = slash_run(p, 0);
    let i0 = next_char(p, k, '/');
    if i0 >= p.len() {
        None
    } else {
        let i1 = next_char(p, i0 + 1, '/');
        Some((p.subrange(k, i0), p.subrange(i0 + 1, i1), i1 < p.len()))
    }
}

pub open spec fn no_dot(s: Seq<char>) -> bool {
    !s.contains('.')
}

/// Which paths name an item of the site: on GitHub exactly two non-empty
/// segments without dots, on Hugging Face at least two with a non-empty
/// first segment without dots; in both, a first segment that is not a
/// site page.
pub open spec fn names_item(site: LinkSite, s0: Seq<char>, s1: Seq<char>, more: bool) -> bool {
    &&& !site_skips(site).contains(s0)
    &&& s0.len() > 0 && no_dot(s0)
    &&& (site == LinkSite::GitHub ==> !more && s1.len() > 0 && no_dot(s1))
}

/// The item's canonical link.
pub open spec fn item_url(site: LinkSite, s0: Seq<char>, s1: Seq<char>) -> Seq<char> {
    (match site {
        LinkSite::GitHub => "https://github.com/"@,
        LinkSite::HuggingFace => "https://huggingface.co/"@,
    }) + s0 + "/"@ + s1
}

/// The description of a link: the first ancestor paragraph whose text is
/// not empty, or empty.
pub open spec fn first_para(ps: Seq<Option<Seq<Seq<char>>>>) -> Seq<char>
    decreases ps.len(),
{
    if ps.len() == 0 {
        Seq::empty()
    } else {
        match ps[0] {
            Some(ts) => if tight(ts).len() > 0 {
                tight(ts)
            } else {
                first_para(ps.drop_first())
            },
            None => first_para(ps.drop_first()),
        }
    }
}

/// One link's row (if any) and the links seen after it.
pub open spec fn link_step(site: LinkSite, l: LinkV, seen: Seq<Seq<char>>) -> (Option<RowV>, Seq<Seq<char>>) {
    match two_segments(site_path(site, href_or_empty(l.0))) {
        None => (None, seen),
        Some((s0, s1, more)) => if !names_item(site, s0, s1, more) {
            (None, seen)
        } else {
            let url = item_url(site, s0, s1);
            if seen.contains(url) {
                (None, seen)
            } else {
                let t = tight(l.1);
                let title = if t.len() == 0 {
                    s0 + "/"@ + s1
                } else {
                    t
                };
                (Some((title, url, first_para(l.2))), seen.push(url))
            }
        },
    }
}

/// The rows of a links page, stopping as `block_rows` does.
pub open spec fn link_rows(site: LinkSite, ls: Seq<LinkV>, budget: int, seen: Seq<Seq<char>>) -> Seq<RowV>
    decreases ls.len(),
{
    if ls.len() == 0 {
        Seq::empty()
    } else {
        let (row, seen2) = link_step(site, ls[0], seen);
        match row {
            None => link_rows(site, ls.drop_first(), budget, seen2),
            Some(r) => if budget <= 1 {
                seq![r]
            } else {
                seq![r] + link_rows(site, ls.drop_first(), budget - 1, seen2)
            },
        }
    }
}

fn is_skipped(site: LinkSite, s0: &str) -> (b: bool)
    ensures
        b == site_skips(site).contains(s0@),
{
    let gh: [&str; 22] = [
        "settings",
        "notifications",
        "login",
        "signup",
        "explore",
        "topics",
        "trending",
        "collections",
        "events",
        "sponsors",
        "search",
        "marketplace",
        "pricing",
        "features",
        "security",
        "team",
        "enterprise",
        "about",
        "organizations",
        "new",
        "customer-stories",
        "blog",
    ];
    let hf: [&str; 16] = [
        "datasets",
        "spaces",
        "models",
        "docs",
        "settings",
        "login",
        "signup",
        "join",
        "pricing",
        "enterprise",
        "solutions",
        "inference-endpoints",
        "autocomplete",
        "logout",
        "notification",
        "profile",
    ];
    let list: &[&str] = match site {
        LinkSite::GitHub => &gh,
        LinkSite::HuggingFace => &hf,
    };
    proof {
        assert(str_views(list@) =~= site_skips(site));
    }
    let mut i: usize = 0;
    while i < list.len()
        invariant
            i <= list@.len(),
            str_views(list@) == site_skips(site),
            forall|j: int| 0 <= j < i ==> list@[j]@ != s0@,
        decreases list.len() - i,
    {
        if str_eq(list[i], s0) {
            proof {
                assert(site_skips(site)[i as int] == s0@);
            }
            return true;
        }
        i += 1;
    }
    proof {
        if site_skips(site).contains(s0@) {
            let j = choose|j: int| 0 <= j < site_skips(site).len() && site_skips(site)[j] == s0@;
            assert(list@[j]@ == s0@);
        }
    }
    false
}

fn path_of(site: LinkSite, href: &str) -> (r: String)
    ensures
        r@ == site_path(site, href@),
{
    let (a, b) = match site {
        LinkSite::GitHub => ("https://github.com", "http://github.com"),
        LinkSite::HuggingFace => ("https://huggingface.co", "http://huggingface.co"),
    };
    let v = chars_of(href);
    if has_prefix(href, a) {
        let av = chars_of(a);
        string_from_range(&v, av.len(), v.len())
    } else if has_prefix(href, b) {
        let bv = chars_of(b);
        string_from_range(&v, bv.len(), v.len())
    } else {
        href.to_string()
    }
}

fn has_dot(v: &Vec<char>, from: usize, to: usize) -> (b: bool)
    requires
        from <= to <= v@.len(),
    ensures
        b == v@.subrange(from as int, to as int).contains('.'),
{
    let mut i = from;
    while i < to
        invariant
            from <= i <= to <= v@.len(),
            forall|j: int| from <= j < i ==> v@[j] != '.',
        decreases to - i,
    {
        if v[i] == '.' {
            proof {
                assert(v@.subrange(from as int, to as int)[i - from] == '.');
            }
            return true;
        }
        i += 1;
    }
    proof {
        if v@.subrange(from as int, to as int).contains('.') {
            let j = choose|j: int| 0 <= j < to - from && v@.subrange(from as int, to as int)[j] == '.';
            assert(v@[from + j] == '.');
        }
    }
    false
}

fn segments_of(path: &str) -> (r: Option<(String, String, bool)>)
    ensures
        match r {
            Some((s0, s1, more)) => two_segments(path@) == Some((s0@, s1@, more)),
            None => two_segments(path@) is None,
        },
{
    let v = chars_of(path);
    let mut k: usize = 0;
    while k < v.len() && v[k] == '/'
        invariant
            k <= v@.len(),
            v@ == path@,
            slash_run(v@, k as int) == slash_run(v@, 0),
        decreases v.len() - k,
    {
        k += 1;
    }
    let i0 = find_char(&v, k, v.len(), '/');
    if i0 >= v.len() {
        return None;
    }
    let i1 = find_char(&v, i0 + 1, v.len(), '/');
    let s0 = string_from_range(&v, k, i0);
    let s1 = string_from_range(&v, i0 + 1, i1);
    Some((s0, s1, i1 < v.len()))
}

fn first_para_text(ps: &Vec<Option<Vec<String>>>) -> (r: String)
    ensures
        r@ == first_para(ps@.map_values(|o: Option<Vec<String>>| opt_texts_view(o))),
{
    let ghost pv = ps@.map_values(|o: Option<Vec<String>>| opt_texts_view(o));
    let mut i: usize = 0;
    proof {
        assert(pv.skip(0) =~= pv);
    }
    while i < ps.len()
        invariant
            i <= ps@.len(),
            pv == ps@.map_values(|o: Option<Vec<String>>| opt_texts_view(o)),
            first_para(pv) == first_para(pv.skip(i as int)),
        decreases ps.len() - i,
    {
        proof {
            assert(pv.skip(i as int).drop_first() =~= pv.skip(i + 1));
            assert(pv.skip(i as int)[0] == pv[i as int]);
        }
        match &ps[i] {
            Some(ts) => {
                let t = tight_text(ts);
                if !t.as_str().is_empty() {
                    return t;
                }
            },
            None => {},
        }
        i += 1;
    }
    proof {
        assert(pv.skip(i as int) =~= Seq::<Option<Seq<Seq<char>>>>::empty());
    }
    String::new()
}

fn link_row(site: LinkSite, l: &ScrapedLink, seen: &mut Vec<String>) -> (r: Option<SearchResult>)
    ensures
        (opt_row_view(r), views(final(seen)@)) == link_step(site, link_view(*l), views(old(seen)@)),
{
    let href = href_text(&l.href);
    let path = path_of(site, href.as_str());
    let (s0, s1, more) = match segments_of(path.as_str()) {
        Some(t) => t,
        None => return None,
    };
    let v0 = chars_of(s0.as_str());
    let v1 = chars_of(s1.as_str());
    if is_skipped(site, s0.as_str()) || v0.len() == 0 || has_dot(&v0, 0, v0.len()) {
        proof {
            assert(v0@.subrange(0, v0@.len() as int) =~= v0@);
        }
        return None;
    }
    proof {
        assert(v0@.subrange(0, v0@.len() as int) =~= v0@);
        assert(v1@.subrange(0, v1@.len() as int) =~= v1@);
    }
    if site == LinkSite::GitHub && (more || v1.len() == 0 || has_dot(&v1, 0, v1.len())) {
        return None;
    }
    let base = match site {
        LinkSite::GitHub => "https://github.com/",
        LinkSite::HuggingFace => "https://huggingface.co/",
    };
    let mut url = concat(base, s0.as_str());
    push_str(&mut url, "/");
    push_str(&mut url, s1.as_str());
    if contains_text(seen, url.as_str()) {
        return None;
    }
    let t = tight_text(&l.texts);
    let title = if t.as_str().is_empty() {
        let mut n = s0.clone();
        push_str(&mut n, "/");
        push_str(&mut n, s1.as_str());
        n
    } else {
        t
    };
    let snippet = first_para_text(&l.paragraphs);
    seen.push(url.clone());
    proof {
        assert(views(seen@) =~= views(old(seen)@).push(url@));
    }
    Some(SearchResult { title, url, snippet })
}

/// The rows of already-scraped links.
pub fn rows_from_links(site: LinkSite, links: &[ScrapedLink], limit: usize) -> (r: Vec<SearchResult>)
    ensures
        rows_view(r@) == link_rows(site, links_view(links@), limit as int, Seq::empty()),
{
    let ghost lv = links_view(links@);
    let mut out: Vec<SearchResult> = Vec::new();
    let mut seen: Vec<String> = Vec::new();
    let mut i: usize = 0;
    proof {
        assert(lv.skip(0) =~= lv);
        assert(rows_view(out@) =~= Seq::<RowV>::empty());
        assert(views(seen@) =~= Seq::<Seq<char>>::empty());
    }
    while i < links.len()
        invariant
            i <= links@.len(),
            lv == links_view(links@),
            out@.len() < limit || (limit == 0 && out@.len() == 0),
            rows_view(out@) + link_rows(site, lv.skip(i as int), limit - out@.len(), views(seen@))
                == link_rows(site, lv, limit as int, Seq::empty()),
        decreases links.len() - i,
    {
        let ghost seen0 = views(seen@);
        let ghost out0 = rows_view(out@);
        proof {
            assert(lv.skip(i as int).drop_first() =~= lv.skip(i + 1));
            assert(lv.skip(i as int)[0] == link_view(links@[i as int]));
        }
        let row = link_row(site, &links[i], &mut seen);
        match row {
            Some(r) => {
                out.push(r);
                proof {
                    assert(rows_view(out@) =~= out0.push(row_view(out@.last())));
                }
                if out.len() >= limit {
                    proof {
                        assert(rows_view(out@) =~= out0 + link_rows(site, lv.skip(i as int), limit - (out@.len() - 1), seen0));
                    }
                    return out;
                }
                proof {
                    assert(rows_view(out@) + link_rows(site, lv.skip(i + 1), limit - out@.len(), views(seen@)) =~= out0
                        + link_rows(site, lv.skip(i as int), limit - (out@.len() - 1), seen0));
                }
            },
            None => {},
        }
        i += 1;
    }
    proof {
        assert(lv.skip(i as int) =~= Seq::<LinkV>::empty());
        assert(rows_view(out@) + Seq::<RowV>::empty() =~= rows_view(out@));
    }
    out
}

/// The rows each engine's parser gives for a page.
pub open spec fn page_rows(e: SerpEngine, html: Seq<char>, limit: int) -> Seq<RowV> {
    match e {
        SerpEngine::DuckDuckGo => block_rows(BlockEngine::DuckDuckGo, scraped_blocks_of(html, ".result"@, seq![".result__a"@, ".result__snippet"@]), limit, Seq::empty()),
        SerpEngine::Baidu => block_rows(BlockEngine::Baidu, scraped_blocks_of(html, "div.c-container"@, seq!["h3 a"@, "h3"@, ".c-abstract"@]), limit, Seq::empty()),
        SerpEngine::Bing => block_rows(BlockEngine::Bing, scraped_blocks_of(html, "li.b_algo"@, seq!["h2 a"@, "h2"@, "p.b_lineclamp1, p.b_lineclamp2, p.b_lineclamp3"@, ".b_caption p"@]), limit, Seq::empty()),
        SerpEngine::Sogou => block_rows(BlockEngine::Sogou, scraped_blocks_of(html, "div.vrwrap, div.rb"@, seq!["h3 a"@, "h3"@, ".str_info"@, ".str-text-info"@, ".fz-mid"@, ".space-txt"@]), limit, Seq::empty()),
        SerpEngine::Google => block_rows(BlockEngine::Google, scraped_blocks_of(html, "div.g, div.Gx5Zad, div.tF2Cxc"@, seq!["h3"@, "a"@, "div[data-sncf]"@, "div.VwiC3b"@, "span.aCOSRe"@, "div[data-snc] > div"@, "div.IsZvec"@]), limit, Seq::empty()),
        SerpEngine::GitHub => link_rows(LinkSite::GitHub, scraped_links_of(html, "a[href]"@, "p"@), limit, Seq::empty()),
        SerpEngine::HuggingFace => link_rows(LinkSite::HuggingFace, scraped_links_of(html, "a[href]"@, "p"@), limit, Seq::empty()),
    }
}

/// Parse DuckDuckGo results, unwrapping the `uddg` redirect of each link.
pub fn parse_ddg_results(html: &str, limit: usize) -> (r: Vec<SearchResult>)
    ensures
        rows_view(r@) == page_rows(SerpEngine::DuckDuckGo, html@, limit as int),
{
    let inner: [&str; 2] = [".result__a", ".result__snippet"];
    proof {
        assert(str_views(inner@) =~= seq![".result__a"@, ".result__snippet"@]);
    }
    let blocks = scrape_blocks(html, ".result", &inner);
    rows_from_blocks(BlockEngine::DuckDuckGo, &blocks, limit)
}

/// Parse Baidu results: `div.c-container` rows, titles from `h3 a`, snippets from `.c-abstract`; repeated titles (ad rows) dropped.
pub fn parse_baidu_results(html: &str, limit: usize) -> (r: Vec<SearchResult>)
    ensures
        rows_view(r@) == page_rows(SerpEngine::Baidu, html@, limit as int),
{
    let inner: [&str; 3] = ["h3 a", "h3", ".c-abstract"];
    proof {
        assert(str_views(inner@) =~= seq!["h3 a"@, "h3"@, ".c-abstract"@]);
    }
    let blocks = scrape_blocks(html, "div.c-container", &inner);
    rows_from_blocks(BlockEngine::Baidu, &blocks, limit)
}

/// Parse Bing results: `li.b_algo` rows, titles from `h2 a`, snippets from the line-clamped paragraph or the caption; repeated titles dropped.
pub fn parse_bing_results(html: &str, limit: usize) -> (r: Vec<SearchResult>)
    ensures
        rows_view(r@) == page_rows(SerpEngine::Bing, html@, limit as int),
{
    let inner: [&str; 4] = ["h2 a", "h2", "p.b_lineclamp1, p.b_lineclamp2, p.b_lineclamp3", ".b_caption p"];
    proof {
        assert(str_views(inner@) =~= seq!["h2 a"@, "h2"@, "p.b_lineclamp1, p.b_lineclamp2, p.b_lineclamp3"@, ".b_caption p"@]);
    }
    let blocks = scrape_blocks(html, "li.b_algo", &inner);
    rows_from_blocks(BlockEngine::Bing, &blocks, limit)
}

/// Parse Sogou results: `div.vrwrap`/`div.rb` rows, titles from `h3 a`, relative redirects made absolute; repeated titles dropped.
pub fn parse_sogou_results(html: &str, limit: usize) -> (r: Vec<SearchResult>)
    ensures
        rows_view(r@) == page_rows(SerpEngine::Sogou, html@, limit as int),
{
    let inner: [&str; 6] = ["h3 a", "h3", ".str_info", ".str-text-info", ".fz-mid", ".space-txt"];
    proof {
        assert(str_views(inner@) =~= seq!["h3 a"@, "h3"@, ".str_info"@, ".str-text-info"@, ".fz-mid"@, ".space-txt"@]);
    }
    let blocks = scrape_blocks(html, "div.vrwrap, div.rb", &inner);
    rows_from_blocks(BlockEngine::Sogou, &blocks, limit)
}

/// Parse Google results: `div.g` rows, titles from `h3`, `/url?q=` redirects unwrapped, internal search links and repeated targets dropped.
pub fn parse_google_results(html: &str, limit: usize) -> (r: Vec<SearchResult>)
    ensures
        rows_view(r@) == page_rows(SerpEngine::Google, html@, limit as int),
{
    let inner: [&str; 7] = ["h3", "a", "div[data-sncf]", "div.VwiC3b", "span.aCOSRe", "div[data-snc] > div", "div.IsZvec"];
    proof {
        assert(str_views(inner@) =~= seq!["h3"@, "a"@, "div[data-sncf]"@, "div.VwiC3b"@, "span.aCOSRe"@, "div[data-snc] > div"@, "div.IsZvec"@]);
    }
    let blocks = scrape_blocks(html, "div.g, div.Gx5Zad, div.tF2Cxc", &inner);
    rows_from_blocks(BlockEngine::Google, &blocks, limit)
}

/// Parse GitHub repository search: `/{owner}/{repo}` links (two segments, no dots, not a site page), titled by their text, described by the nearest ancestor paragraph.
pub fn parse_github_results(html: &str, limit: usize) -> (r: Vec<SearchResult>)
    ensures
        rows_view(r@) == page_rows(SerpEngine::GitHub, html@, limit as int),
{
    let links = scrape_links(html, "a[href]", "p");
    rows_from_links(LinkSite::GitHub, &links, limit)
}

/// Parse Hugging Face model search: `/{org}/{model}` links (the first segment not empty, without dots, not a site page), titled and described as on GitHub.
pub fn parse_hf_results(html: &str, limit: usize) -> (r: Vec<SearchResult>)
    ensures
        rows_view(r@) == page_rows(SerpEngine::HuggingFace, html@, limit as int),
{
    let links = scrape_links(html, "a[href]", "p");
    rows_from_links(LinkSite::HuggingFace, &links, limit)
}

/// The rows of a results page, by the parser its URL's host selects; none
/// for other hosts (the caller then falls back to readable text).
pub fn parse_search_results(url: &str, html: &str, limit: usize) -> (r: Vec<SearchResult>)
    ensures
        rows_view(r@) == (match engine_for(href_or_empty(url_host_of(url@))) {
            Some(e) => page_rows(e, html@, limit as int),
            None => Seq::empty(),
        }),
{
    let host = match url_host(url) {
        Some(h) => h,
        None => String::new(),
    };
    match engine_for_host(host.as_str()) {
        Some(SerpEngine::Baidu) => parse_baidu_results(html, limit),
        Some(SerpEngine::DuckDuckGo) => parse_ddg_results(html, limit),
        Some(SerpEngine::Bing) => parse_bing_results(html, limit),
        Some(SerpEngine::Sogou) => parse_sogou_results(html, limit),
        Some(SerpEngine::Google) => parse_google_results(html, limit),
        Some(SerpEngine::GitHub) => parse_github_results(html, limit),
        Some(SerpEngine::HuggingFace) => parse_hf_results(html, limit),
        None => {
            let r: Vec<SearchResult> = Vec::new();
            proof {
                assert(rows_view(r@) =~= Seq::<RowV>::empty());
            }
            r
        },
    }
}

/// The row budget a page is read with: at least one row is always taken.
pub open spec fn row_cap(budget: int) -> int {
    if budget < 1 {
        1
    } else {
        budget
    }
}

/// Law: a results page never gives more rows than its limit (or one,
/// for a limit of zero).
pub proof fn block_rows_are_capped(e: BlockEngine, bs: Seq<BlockV>, budget: int, seen: Seq<Seq<char>>)
    ensures
        block_rows(e, bs, budget, seen).len() <= row_cap(budget),
    decreases bs.len(),
{
    if bs.len() > 0 {
        let (row, seen2) = block_step(e, bs[0], seen);
        match row {
            None => block_rows_are_capped(e, bs.drop_first(), budget, seen2),
            Some(r) => if budget > 1 {
                block_rows_are_capped(e, bs.drop_first(), budget - 1, seen2);
            },
        }
    }
}

/// Law: the same cap holds for link pages.
pub proof fn link_rows_are_capped(site: LinkSite, ls: Seq<LinkV>, budget: int, seen: Seq<Seq<char>>)
    ensures
        link_rows(site, ls, budget, seen).len() <= row_cap(budget),
    decreases ls.len(),
{
    if ls.len() > 0 {
        let (row, seen2) = link_step(site, ls[0], seen);
        match row {
            None => link_rows_are_capped(site, ls.drop_first(), budget, seen2),
            Some(r) => if budget > 1 {
                link_rows_are_capped(site, ls.drop_first(), budget - 1, seen2);
            },
        }
    }
}

/// The rows a page gives never exceed its limit (or one).
pub proof fn page_rows_are_capped(e: SerpEngine, html: Seq<char>, limit: int)
    ensures
        page_rows(e, html, limit).len() <= row_cap(limit),
{
    match e {
        SerpEngine::GitHub => link_rows_are_capped(LinkSite::GitHub, scraped_links_of(html, "a[href]"@, "p"@), limit, Seq::empty()),
        SerpEngine::HuggingFace => link_rows_are_capped(LinkSite::HuggingFace, scraped_links_of(html, "a[href]"@, "p"@), limit, Seq::empty()),
        SerpEngine::DuckDuckGo => block_rows_are_capped(BlockEngine::DuckDuckGo, scraped_blocks_of(html, ".result"@, seq![".result__a"@, ".result__snippet"@]), limit, Seq::empty()),
        SerpEngine::Baidu => block_rows_are_capped(BlockEngine::Baidu, scraped_blocks_of(html, "div.c-container"@, seq!["h3 a"@, "h3"@, ".c-abstract"@]), limit, Seq::empty()),
        SerpEngine::Bing => block_rows_are_capped(BlockEngine::Bing, scraped_blocks_of(html, "li.b_algo"@, seq!["h2 a"@, "h2"@, "p.b_lineclamp1, p.b_lineclamp2, p.b_lineclamp3"@, ".b_caption p"@]), limit, Seq::empty()),
        SerpEngine::Sogou => block_rows_are_capped(BlockEngine::Sogou, scraped_blocks_of(html, "div.vrwrap, div.rb"@, seq!["h3 a"@, "h3"@, ".str_info"@, ".str-text-info"@, ".fz-mid"@, ".space-txt"@]), limit, Seq::empty()),
        SerpEngine::Google => block_rows_are_capped(BlockEngine::Google, scraped_blocks_of(html, "div.g, div.Gx5Zad, div.tF2Cxc"@, seq!["h3"@, "a"@, "div[data-sncf]"@, "div.VwiC3b"@, "span.aCOSRe"@, "div[data-snc] > div"@, "div.IsZvec"@]), limit, Seq::empty()),
    }
}

} // verus!
