//! The headless-Chrome tool's decisions: which URLs it accepts, the
//! command line it runs, redirect links, the real target of a rendered
//! page, and the texts it answers with. Running Chrome stays outside.

use vstd::prelude::*;
use crate::serp::{engine_for, SearchResult, SerpEngine};
use crate::serp_parse::{href_or_empty, page_rows, page_rows_are_capped, parse_search_results, rows_view};
use crate::text::{
    chars_of, decimal, is_ascii_alpha, is_ascii_digit, push_decimal, push_str, str_eq,
    string_from_range, trim, trim_range, contains_seq,
};
use crate::web::{joined_url_of, lowercase_of, to_lowercase, url_host_of, url_join, url_parts, url_parts_of};

verus! {

broadcast use vstd::seq::group_seq_axioms;

/// A real desktop Chrome user agent.
pub const REAL_CHROME_UA: &'static str = "Mozilla/5.0 (X11; Linux x86_64) AppleWebKit/537.36 (KHTML, like Gecko) Chrome/126.0.0.0 Safari/537.36";

/// The answer when no Chrome binary is found.
pub fn not_found_msg() -> (r: String)
    ensures
        r@ == "Chrome/Chromium not found. Run ~/.opencoder/install-skills-dep.sh to install, or set the CHROME_PATH environment variable to the binary path."@,
{
    "Chrome/Chromium not found. Run ~/.opencoder/install-skills-dep.sh to install, or set the CHROME_PATH environment variable to the binary path.".to_string()
}

/// Index of the first of `/`, `?`, `#` in `s`, or its length.
pub open spec fn port_end(s: Seq<char>, i: int) -> int
    decreases s.len() - i,
{
    if i >= s.len() {
        s.len() as int
    } else if s[i] == '/' || s[i] == '?' || s[i] == '#' {
        i
    } else {
        port_end(s, i + 1)
    }
}

/// `s` up to the first path, query or fragment delimiter is a port: one
/// to five ASCII digits.
pub open spec fn port_like(s: Seq<char>) -> bool {
    let e = port_end(s, 0);
    0 < e <= 5 && forall|k: int| 0 <= k < e ==> is_ascii_digit(#[trigger] s[k])
}

proof fn lemma_port_end(s: Seq<char>, i: int)
    requires
        0 <= i <= s.len(),
    ensures
        i <= port_end(s, i) <= s.len(),
        forall|k: int| i <= k < port_end(s, i) ==> !(#[trigger] s[k] == '/' || s[k] == '?' || s[k] == '#'),
        port_end(s, i) < s.len() ==> (s[port_end(s, i)] == '/' || s[port_end(s, i)] == '?' || s[port_end(s, i)]
            == '#'),
    decreases s.len() - i,
{
    if i < s.len() && !(s[i] == '/' || s[i] == '?' || s[i] == '#') {
        lemma_port_end(s, i + 1);
    }
}

fn looks_like_port_range(v: &Vec<char>, start: usize) -> (b: bool)
    requires
        start <= v@.len(),
    ensures
        b == port_like(v@.subrange(start as int, v@.len() as int)),
{
    let ghost s = v@.subrange(start as int, v@.len() as int);
    let mut i = start;
    while i < v.len() && v[i] != '/' && v[i] != '?' && v[i] != '#'
        invariant
            start <= i <= v@.len(),
            s == v@.subrange(start as int, v@.len() as int),
            port_end(s, 0) == port_end(s, i - start),
        decreases v.len() - i,
    {
        i += 1;
    }
    proof {
        lemma_port_end(s, 0);
    }
    assert(port_end(s, i - start) == i - start);
    let e = i - start;
    if e == 0 || e > 5 {
        return false;
    }
    let mut k = start;
    while k < i
        invariant
            start <= k <= i <= v@.len(),
            s == v@.subrange(start as int, v@.len() as int),
            port_end(s, 0) == i - start,
            forall|j: int| 0 <= j < k - start ==> is_ascii_digit(#[trigger] s[j]),
        decreases i - k,
    {
        if !crate::text::ascii_digit(v[k]) {
            assert(!is_ascii_digit(s[k - start]));
            return false;
        }
        k += 1;
    }
    true
}

/// True when `s`, up to the first `/`, `?` or `#`, is a 1-5 digit port
/// number (telling `localhost:3000` apart from `javascript:alert(1)`).
pub fn looks_like_port(s: &str) -> (b: bool)
    ensures
        b == port_like(s@),
{
    let v = chars_of(s);
    assert(v@.subrange(0, v@.len() as int) =~= v@);
    looks_like_port_range(&v, 0)
}

/// Index of the first `:` of `s`.
pub open spec fn first_colon(s: Seq<char>) -> Option<int> {
    if exists|k: int| 0 <= k < s.len() && s[k] == ':' {
        Some(choose|k: int| 0 <= k < s.len() && s[k] == ':' && forall|j: int| 0 <= j < k ==> s[j] != ':')
    } else {
        None
    }
}

/// The scheme of a trimmed URL text, when it has one: a nonempty ASCII
/// alphabetic token before its first `:` that is not followed by a port.
pub open spec fn scheme_of(t: Seq<char>) -> Option<Seq<char>> {
    match first_colon(t) {
        Some(c) => {
            let before = t.subrange(0, c);
            let after = t.subrange(c + 1, t.len() as int);
            if before.len() > 0 && (forall|k: int| 0 <= k < before.len() ==> is_ascii_alpha(#[trigger] before[k]))
                && !port_like(after) {
                Some(before)
            } else {
                None
            }
        },
        None => None,
    }
}

/// The URL Chrome is given for a user-supplied text: the trimmed text when
/// its scheme is `http` or `https` (in any case), `https://` in front when
/// it has no scheme; any other scheme is refused.
pub open spec fn normalised_url(raw: Seq<char>) -> Result<Seq<char>, Seq<char>> {
    let t = trim(raw);
    match scheme_of(t) {
        Some(scheme) => {
            let lower = lowercase_of(scheme);
            if lower != "http"@ && lower != "https"@ {
                Err("Unsupported URL scheme '"@ + lower
                    + "'. Only http and https are allowed (file://, ftp://, javascript:, etc. are blocked for security)."@)
            } else {
                Ok(t)
            }
        },
        None => Ok("https://"@ + t),
    }
}

fn find_colon(v: &Vec<char>, a: usize, b: usize) -> (r: Option<usize>)
    requires
        a <= b <= v@.len(),
    ensures
        match r {
            Some(c) => a <= c < b && v@[c as int] == ':' && forall|j: int| a <= j < c ==> v@[j] != ':',
            None => forall|j: int| a <= j < b ==> v@[j] != ':',
        },
{
    let mut i = a;
    while i < b
        invariant
            a <= i <= b <= v@.len(),
            forall|j: int| a <= j < i ==> v@[j] != ':',
        decreases b - i,
    {
        if v[i] == ':' {
            return Some(i);
        }
        i += 1;
    }
    None
}

fn all_alpha(v: &Vec<char>, a: usize, b: usize) -> (r: bool)
    requires
        a <= b <= v@.len(),
    ensures
        r == forall|k: int| 0 <= k < b - a ==> is_ascii_alpha(#[trigger] v@.subrange(a as int, b as int)[k]),
{
    let mut i = a;
    while i < b
        invariant
            a <= i <= b <= v@.len(),
            forall|k: int| 0 <= k < i - a ==> is_ascii_alpha(#[trigger] v@.subrange(a as int, b as int)[k]),
        decreases b - i,
    {
        if !crate::text::ascii_alpha(v[i]) {
            assert(!is_ascii_alpha(v@.subrange(a as int, b as int)[i - a]));
            return false;
        }
        i += 1;
    }
    true
}

/// Normalise a user-supplied URL; `Err` names the refused scheme.
pub fn normalise_url(raw: &str) -> (r: Result<String, String>)
    ensures
        match r {
            Ok(u) => normalised_url(raw@) == Ok::<Seq<char>, Seq<char>>(u@),
            Err(e) => normalised_url(raw@) == Err::<Seq<char>, Seq<char>>(e@),
        },
{
    let v = chars_of(raw);
    assert(v@.subrange(0, v@.len() as int) =~= v@);
    let (a, b) = trim_range(&v, 0, v.len());
    let ghost t = v@.subrange(a as int, b as int);
    let trimmed = string_from_range(&v, a, b);
    match find_colon(&v, a, b) {
        Some(c) => {
            proof {
                assert(t[c - a] == ':');
                assert(exists|k: int| 0 <= k < t.len() && t[k] == ':');
                let k = choose|k: int| 0 <= k < t.len() && t[k] == ':' && forall|j: int| 0 <= j < k ==> t[j] != ':';
                if k < c - a {
                    assert(v@[a + k] == ':');
                }
                if k > c - a {
                    assert(t[c - a] != ':');
                }
                assert(first_colon(t) == Some((c - a) as int));
                assert(t.subrange(0, c - a) =~= v@.subrange(a as int, c as int));
                assert(t.subrange(c - a + 1, t.len() as int) =~= v@.subrange(c + 1, b as int));
            }
            let tail = string_from_range(&v, c + 1, b);
            let tv = chars_of(tail.as_str());
            assert(tv@.subrange(0, tv@.len() as int) =~= tv@);
            if c > a && all_alpha(&v, a, c) && !looks_like_port_range(&tv, 0) {
                let before = string_from_range(&v, a, c);
                let scheme = to_lowercase(before.as_str());
                if !str_eq(scheme.as_str(), "http") && !str_eq(scheme.as_str(), "https") {
                    let mut m = String::new();
                    push_str(&mut m, "Unsupported URL scheme '");
                    push_str(&mut m, scheme.as_str());
                    push_str(
                        &mut m,
                        "'. Only http and https are allowed (file://, ftp://, javascript:, etc. are blocked for security).",
                    );
                    return Err(m);
                }
                return Ok(trimmed);
            }
        },
        None => {
            proof {
                if exists|k: int| 0 <= k < t.len() && t[k] == ':' {
                    let k = choose|k: int| 0 <= k < t.len() && t[k] == ':';
                    assert(v@[a + k] == ':');
                }
            }
        },
    }
    let mut out = String::new();
    push_str(&mut out, "https://");
    push_str(&mut out, trimmed.as_str());
    Ok(out)
}

/// The Chrome flags every call shares: container-safe sandbox and GPU
/// flags, automation detection off, a zh-CN locale, and the user agent
/// (`ua`, else a real desktop Chrome one) unless it is empty.
pub open spec fn base_args(ua: Option<Seq<char>>) -> Seq<Seq<char>> {
    let fixed = seq![
        "--headless=new"@,
        "--no-sandbox"@,
        "--disable-gpu"@,
        "--disable-blink-features=AutomationControlled"@,
        "--lang=zh-CN"@,
    ];
    let agent = match ua {
        Some(u) => u,
        None => REAL_CHROME_UA@,
    };
    if agent.len() > 0 {
        fixed.push("--user-agent="@ + agent)
    } else {
        fixed
    }
}

pub open spec fn views(v: Seq<String>) -> Seq<Seq<char>> {
    v.map_values(|s: String| s@)
}

pub fn chrome_base_args(user_agent: Option<&str>) -> (r: Vec<String>)
    ensures
        views(r@) == base_args(match user_agent {
            Some(u) => Some(u@),
            None => None,
        }),
{
    let mut args: Vec<String> = Vec::new();
    args.push("--headless=new".to_string());
    args.push("--no-sandbox".to_string());
    args.push("--disable-gpu".to_string());
    args.push("--disable-blink-features=AutomationControlled".to_string());
    args.push("--lang=zh-CN".to_string());
    let ua = match user_agent {
        Some(u) => u,
        None => REAL_CHROME_UA,
    };
    if !ua.is_empty() {
        let mut a = String::new();
        push_str(&mut a, "--user-agent=");
        push_str(&mut a, ua);
        args.push(a);
    }
    assert(views(args@) =~= base_args(match user_agent {
        Some(u) => Some(u@),
        None => None,
    }));
    args
}

/// A Baidu or Sogou `/link?url=...` redirect, whose target only a render
/// reveals.
pub open spec fn redirect_url(raw: Seq<char>) -> bool {
    match url_parts_of(raw) {
        Some((host, path, query)) => {
            let h = match host {
                Some(h) => h,
                None => Seq::empty(),
            };
            (contains_seq(h, "baidu.com"@) || contains_seq(h, "sogou.com"@)) && contains_seq(path, "/link"@)
                && match query {
                Some(q) => contains_seq(q, "url="@),
                None => false,
            }
        },
        None => false,
    }
}

fn text_contains(s: &str, pat: &str) -> (b: bool)
    ensures
        b == contains_seq(s@, pat@),
{
    let v = chars_of(s);
    let w = chars_of(pat);
    assert(v@.subrange(0, v@.len() as int) =~= v@);
    crate::text::contains_in_range(&v, 0, v.len(), w.as_slice())
}

pub fn is_redirect_url(raw: &str) -> (b: bool)
    ensures
        b == redirect_url(raw@),
{
    match url_parts(raw) {
        Some(p) => {
            let host: String = match p.host {
                Some(h) => h,
                None => String::new(),
            };
            let on_engine = text_contains(host.as_str(), "baidu.com") || text_contains(host.as_str(), "sogou.com");
            let link_path = text_contains(p.path.as_str(), "/link");
            let has_target = match p.query {
                Some(q) => text_contains(q.as_str(), "url="),
                None => false,
            };
            on_engine && link_path && has_target
        },
        None => false,
    }
}

/// The `href` and `content` attributes of the first element of `html`
/// that CSS selector `selector` matches, as `scraper` finds them; `None`
/// when nothing matches or the selector does not parse.
pub uninterp spec fn selected_attrs_of(html: Seq<char>, selector: Seq<char>) -> Option<(Option<Seq<char>>, Option<Seq<char>>)>;

pub open spec fn attrs_view(a: Option<(Option<String>, Option<String>)>) -> Option<(Option<Seq<char>>, Option<Seq<char>>)> {
    match a {
        Some((h, c)) => Some((crate::web::opt_string_view(h), crate::web::opt_string_view(c))),
        None => None,
    }
}

/// Parses `html` with `scraper::Html::parse_document`, `selector` with
/// `scraper::Selector::parse`, takes the first match and reads its `href`
/// and `content` attributes; claims only that the result is a function of
/// the two texts (named `selected_attrs_of`).
#[verifier::external_body]
fn selected_attrs(html: &str, selector: &str) -> (r: Option<(Option<String>, Option<String>)>)
    ensures
        attrs_view(r) == selected_attrs_of(html@, selector@),
{
    let doc = scraper::Html::parse_document(html);
    let sel = scraper::Selector::parse(selector).ok()?;
    let el = doc.select(&sel).next()?;
    Some((el.attr("href").map(String::from), el.attr("content").map(String::from)))
}

/// The link an element offers: its `href`, else its `content`, else empty;
/// `None` when there is no element.
pub open spec fn chosen_link(a: Option<(Option<Seq<char>>, Option<Seq<char>>)>) -> Option<Seq<char>> {
    match a {
        None => None,
        Some((Some(h), _)) => Some(h),
        Some((None, Some(c))) => Some(c),
        Some((None, None)) => Some(Seq::empty()),
    }
}

/// The link of the first element `selector` matches in `html`.
pub open spec fn selected_link_of(html: Seq<char>, selector: Seq<char>) -> Option<Seq<char>> {
    chosen_link(selected_attrs_of(html, selector))
}

fn selected_link(html: &str, selector: &str) -> (r: Option<String>)
    ensures
        crate::web::opt_string_view(r) == selected_link_of(html@, selector@),
{
    match selected_attrs(html, selector) {
        None => None,
        Some((Some(h), _)) => Some(h),
        Some((None, Some(c))) => Some(c),
        Some((None, None)) => Some(String::new()),
    }
}

/// The target named by one candidate link: `None` when blank, else the
/// trimmed link resolved against `fallback` (as is when that fails).
pub open spec fn link_target(link: Option<Seq<char>>, fallback: Seq<char>) -> Option<Seq<char>> {
    match link {
        Some(l) => if trim(l).len() == 0 {
            None
        } else {
            match joined_url_of(fallback, trim(l)) {
                Some(u) => Some(u),
                None => Some(trim(l)),
            }
        },
        None => None,
    }
}

/// The real target of a rendered page: its canonical link, else its
/// `og:url`, else the URL that was rendered.
pub open spec fn final_url(html: Seq<char>, fallback: Seq<char>) -> Seq<char> {
    match link_target(selected_link_of(html, "link[rel='canonical']"@), fallback) {
        Some(u) => u,
        None => match link_target(selected_link_of(html, "meta[property='og:url']"@), fallback) {
            Some(u) => u,
            None => fallback,
        },
    }
}

fn target_of(link: Option<String>, fallback: &str) -> (r: Option<String>)
    ensures
        match r {
            Some(u) => link_target(crate::web::opt_string_view(link), fallback@) == Some(u@),
            None => link_target(crate::web::opt_string_view(link), fallback@) is None,
        },
{
    match link {
        Some(l) => {
            let v = chars_of(l.as_str());
            assert(v@.subrange(0, v@.len() as int) =~= v@);
            let (a, b) = trim_range(&v, 0, v.len());
            if a == b {
                return None;
            }
            let href = string_from_range(&v, a, b);
            match url_join(fallback, href.as_str()) {
                Some(u) => Some(u),
                None => Some(href),
            }
        },
        None => None,
    }
}

pub fn extract_final_url(html: &str, fallback: &str) -> (r: String)
    ensures
        r@ == final_url(html@, fallback@),
{
    match target_of(selected_link(html, "link[rel='canonical']"), fallback) {
        Some(u) => u,
        None => match target_of(selected_link(html, "meta[property='og:url']"), fallback) {
            Some(u) => u,
            None => fallback.to_string(),
        },
    }
}

/// One numbered row of the structured results listing.
pub open spec fn serp_row(i: nat, r: SearchResult) -> Seq<char> {
    "\n"@ + decimal(i + 1) + ". **"@ + r.title@ + "**\n"@ + (if r.snippet@.len() > 0 {
        "   "@ + r.snippet@ + "\n"@
    } else {
        Seq::empty()
    }) + (if r.url@.len() > 0 {
        "   "@ + r.url@ + "\n"@
    } else {
        Seq::empty()
    })
}

pub open spec fn serp_rows(rs: Seq<SearchResult>, k: nat) -> Seq<char>
    decreases k,
{
    if k == 0 {
        Seq::empty()
    } else {
        serp_rows(rs, (k - 1) as nat) + serp_row((k - 1) as nat, rs[k - 1])
    }
}

/// Results as a numbered markdown list under a header naming the page.
pub open spec fn serp_listing(url: Seq<char>, rs: Seq<SearchResult>) -> Seq<char> {
    "# Search results: "@ + url + "\n"@ + serp_rows(rs, rs.len())
}

pub fn format_serp_output(url: &str, results: &[SearchResult]) -> (r: String)
    requires
        results@.len() < u64::MAX,
    ensures
        r@ == serp_listing(url@, results@),
{
    let mut out = String::new();
    push_str(&mut out, "# Search results: ");
    push_str(&mut out, url);
    push_str(&mut out, "\n");
    let ghost head = out@;
    let mut i: usize = 0;
    while i < results.len()
        invariant
            i <= results@.len() < u64::MAX,
            out@ == head + serp_rows(results@, i as nat),
        decreases results.len() - i,
    {
        let r = &results[i];
        let ghost before = out@;
        push_str(&mut out, "\n");
        push_decimal(&mut out, (i as u64) + 1);
        push_str(&mut out, ". **");
        push_str(&mut out, r.title.as_str());
        push_str(&mut out, "**\n");
        if !r.snippet.as_str().is_empty() {
            push_str(&mut out, "   ");
            push_str(&mut out, r.snippet.as_str());
            push_str(&mut out, "\n");
        }
        if !r.url.as_str().is_empty() {
            push_str(&mut out, "   ");
            push_str(&mut out, r.url.as_str());
            push_str(&mut out, "\n");
        }
        assert(out@ =~= before + serp_row(i as nat, *r));
        assert(out@ =~= head + serp_rows(results@, (i + 1) as nat));
        i += 1;
    }
    assert(out@ =~= serp_listing(url@, results@));
    out
}

/// The tool's actions.
#[derive(Debug, Clone, Copy, PartialEq, Eq)]
pub enum ChromeAction {
    Fetch,
    Resolve,
    Html,
    Screenshot,
}

/// The action named by the call (`fetch` when absent); `Err` for others.
pub open spec fn action_of(a: Option<Seq<char>>) -> Result<ChromeAction, Seq<char>> {
    let name = match a {
        Some(n) => n,
        None => "fetch"@,
    };
    if name == "fetch"@ {
        Ok(ChromeAction::Fetch)
    } else if name == "resolve"@ {
        Ok(ChromeAction::Resolve)
    } else if name == "html"@ {
        Ok(ChromeAction::Html)
    } else if name == "screenshot"@ {
        Ok(ChromeAction::Screenshot)
    } else {
        Err("Unknown action '"@ + name + "'. Use 'fetch', 'resolve', 'html' or 'screenshot'."@)
    }
}

/// The `chrome_headless` tool's identity and call decisions.
pub struct ChromeHeadlessTool {}

impl ChromeHeadlessTool {
    pub fn name(&self) -> (r: &'static str)
        ensures
            r@ == "chrome_headless"@,
    {
        "chrome_headless"
    }

    pub fn description(&self) -> (r: &'static str)
        ensures
            r@ == "Headless Chrome via CLI. Actions: fetch (render URL with JS, extract readable text / structured SERP), resolve (unwind Baidu/Sogou redirect links to the real URL + title + excerpt), html (dump raw rendered DOM for web_extract), screenshot (full-page PNG). Requires Chrome or Chromium installed."@,
    {
        "Headless Chrome via CLI. Actions: fetch (render URL with JS, extract readable text / structured SERP), resolve (unwind Baidu/Sogou redirect links to the real URL + title + excerpt), html (dump raw rendered DOM for web_extract), screenshot (full-page PNG). Requires Chrome or Chromium installed."
    }

    pub fn action(a: Option<&str>) -> (r: Result<ChromeAction, String>)
        ensures
            match r {
                Ok(x) => action_of(crate::latent::opt_view(a)) == Ok::<ChromeAction, Seq<char>>(x),
                Err(e) => action_of(crate::latent::opt_view(a)) == Err::<ChromeAction, Seq<char>>(e@),
            },
    {
        let name = match a {
            Some(n) => n,
            None => "fetch",
        };
        if str_eq(name, "fetch") {
            Ok(ChromeAction::Fetch)
        } else if str_eq(name, "resolve") {
            Ok(ChromeAction::Resolve)
        } else if str_eq(name, "html") {
            Ok(ChromeAction::Html)
        } else if str_eq(name, "screenshot") {
            Ok(ChromeAction::Screenshot)
        } else {
            let mut m = String::new();
            push_str(&mut m, "Unknown action '");
            push_str(&mut m, name);
            push_str(&mut m, "'. Use 'fetch', 'resolve', 'html' or 'screenshot'.");
            Err(m)
        }
    }

    /// The render wait of a `resolve`: the given one, else 2000 ms for a
    /// redirect link (it needs a moment to bounce), else none.
    pub fn resolve_wait(given: Option<u64>, url: &str) -> (r: Option<u64>)
        ensures
            r == (match given {
                Some(w) => Some(w),
                None => if redirect_url(url@) { Some(2000u64) } else { None },
            }),
    {
        match given {
            Some(w) => Some(w),
            None => if is_redirect_url(url) { Some(2000) } else { None },
        }
    }
}

/// The binaries searched for on `PATH`, in order, when `CHROME_PATH` does
/// not name one.
pub fn chrome_candidates() -> (r: Vec<&'static str>)
    ensures
        r@.len() == 4,
        r@[0]@ == "google-chrome-stable"@,
        r@[1]@ == "google-chrome"@,
        r@[2]@ == "chromium-browser"@,
        r@[3]@ == "chromium"@,
{
    let mut r: Vec<&'static str> = Vec::new();
    r.push("google-chrome-stable");
    r.push("google-chrome");
    r.push("chromium-browser");
    r.push("chromium");
    r
}

/// The answer when the request names no URL.
pub const MISSING_URL: &'static str = "Missing required parameter: url.";

/// The URL a request asks for: it must be given and not empty, then it is
/// normalised.
pub fn requested_url(raw: Option<&str>) -> (r: Result<String, String>)
    ensures
        match raw {
            Some(u) if u@.len() > 0 => match normalised_url(u@) {
                Ok(n) => r matches Ok(v) && v@ == n,
                Err(m) => r matches Err(e) && e@ == m,
            },
            _ => r matches Err(e) && e@ == MISSING_URL@,
        },
{
    match raw {
        Some(u) => {
            if u.is_empty() {
                Err(MISSING_URL.to_string())
            } else {
                normalise_url(u)
            }
        },
        None => Err(MISSING_URL.to_string()),
    }
}

/// The user agent a request sets: absent when not given or empty.
pub fn requested_ua(ua: Option<&str>) -> (r: Option<&str>)
    ensures
        match ua {
            Some(u) if u@.len() > 0 => r == Some(u),
            _ => r is None,
        },
{
    match ua {
        Some(u) => if u.is_empty() {
            None
        } else {
            Some(u)
        },
        None => None,
    }
}

/// The virtual-time budget flag, for a positive wait.
pub open spec fn wait_arg(wait: Option<u64>) -> Seq<Seq<char>> {
    match wait {
        Some(w) if w > 0 => seq!["--virtual-time-budget="@ + decimal(w as nat)],
        _ => Seq::empty(),
    }
}

fn push_wait(args: &mut Vec<String>, wait: Option<u64>)
    ensures
        views(final(args)@) == views(old(args)@) + wait_arg(wait),
{
    match wait {
        Some(w) => if w > 0 {
            let mut a = String::new();
            push_str(&mut a, "--virtual-time-budget=");
            push_decimal(&mut a, w);
            args.push(a);
            proof {
                assert(views(args@) =~= views(old(args)@) + wait_arg(wait));
            }
        } else {
            proof {
                assert(views(args@) =~= views(old(args)@) + wait_arg(wait));
            }
        },
        None => {
            proof {
                assert(views(args@) =~= views(old(args)@) + wait_arg(wait));
            }
        },
    }
}

fn flag(name: &str, value: &str) -> (r: String)
    ensures
        r@ == name@ + value@,
{
    let mut a = String::new();
    push_str(&mut a, name);
    push_str(&mut a, value);
    a
}

/// The command line that dumps a page's rendered DOM.
pub open spec fn dump_dom_argv(ua: Option<Seq<char>>, profile: Seq<char>, wait: Option<u64>, url: Seq<char>) -> Seq<Seq<char>> {
    base_args(ua) + seq!["--dump-dom"@, "--user-data-dir="@ + profile] + wait_arg(wait) + seq![url]
}

pub fn dump_dom_args(ua: Option<&str>, profile: &str, wait: Option<u64>, url: &str) -> (r: Vec<String>)
    ensures
        views(r@) == dump_dom_argv(match ua {
            Some(u) => Some(u@),
            None => None,
        }, profile@, wait, url@),
{
    let mut args = chrome_base_args(ua);
    let ghost b0 = views(args@);
    args.push("--dump-dom".to_string());
    args.push(flag("--user-data-dir=", profile));
    proof {
        assert(views(args@) =~= b0 + seq!["--dump-dom"@, "--user-data-dir="@ + profile@]);
    }
    let ghost b1 = views(args@);
    push_wait(&mut args, wait);
    let ghost b2 = views(args@);
    args.push(url.to_string());
    proof {
        assert(views(args@) =~= b2.push(url@));
        assert(views(args@) =~= dump_dom_argv(match ua {
            Some(u) => Some(u@),
            None => None,
        }, profile@, wait, url@));
    }
    args
}

/// The command line that screenshots a page into `shot`.
pub open spec fn screenshot_argv(ua: Option<Seq<char>>, shot: Seq<char>, profile: Seq<char>, wait: Option<u64>, url: Seq<char>) -> Seq<Seq<char>> {
    base_args(ua) + seq!["--screenshot="@ + shot, "--window-size=1920,1080"@, "--user-data-dir="@ + profile] + wait_arg(wait)
        + seq![url]
}

pub fn screenshot_args(ua: Option<&str>, shot: &str, profile: &str, wait: Option<u64>, url: &str) -> (r: Vec<String>)
    ensures
        views(r@) == screenshot_argv(match ua {
            Some(u) => Some(u@),
            None => None,
        }, shot@, profile@, wait, url@),
{
    let mut args = chrome_base_args(ua);
    let ghost b0 = views(args@);
    args.push(flag("--screenshot=", shot));
    args.push("--window-size=1920,1080".to_string());
    args.push(flag("--user-data-dir=", profile));
    proof {
        assert(views(args@) =~= b0 + seq!["--screenshot="@ + shot@, "--window-size=1920,1080"@, "--user-data-dir="@ + profile@]);
    }
    push_wait(&mut args, wait);
    let ghost b2 = views(args@);
    args.push(url.to_string());
    proof {
        assert(views(args@) =~= b2.push(url@));
        assert(views(args@) =~= screenshot_argv(match ua {
            Some(u) => Some(u@),
            None => None,
        }, shot@, profile@, wait, url@));
    }
    args
}

/// The answer to a `html` request: the raw DOM under a comment naming it.
pub open spec fn html_answer(url: Seq<char>, html: Seq<char>) -> Seq<char> {
    "<!-- raw DOM of "@ + url + " -->\n"@ + html
}

pub fn html_body(url: &str, html: &str) -> (r: String)
    ensures
        r@ == html_answer(url@, html@),
{
    let mut r = String::new();
    push_str(&mut r, "<!-- raw DOM of ");
    push_str(&mut r, url);
    push_str(&mut r, " -->\n");
    push_str(&mut r, html);
    r
}

/// A `fetch` answer for a page that is not a results page: its readable
/// text under a header naming it.
pub open spec fn readable_answer(url: Seq<char>, text: Seq<char>) -> Seq<char> {
    "# "@ + url + "\n\n"@ + text
}

/// The answer to a `fetch` request: the structured results when the page
/// is a results page that gave any (at most 12), else its readable text
/// (`readable`, extracted by the caller).
pub fn fetch_body(url: &str, html: &str, readable: &str) -> (r: String)
    ensures
        ({
            let rows = match url_host_of_engine(url@) {
                Some(e) => page_rows(e, html@, 12),
                None => Seq::empty(),
            };
            &&& rows.len() > 0 ==> exists|rs: Seq<SearchResult>| rows_view(rs) == rows && r@ == serp_listing(url@, rs)
            &&& rows.len() == 0 ==> r@ == readable_answer(url@, readable@)
        }),
{
    let rows = parse_search_results(url, html, 12);
    proof {
        match url_host_of_engine(url@) {
            Some(e) => page_rows_are_capped(e, html@, 12),
            None => {},
        }
    }
    if rows.len() > 0 {
        format_serp_output(url, rows.as_slice())
    } else {
        let mut r = String::new();
        push_str(&mut r, "# ");
        push_str(&mut r, url);
        push_str(&mut r, "\n\n");
        push_str(&mut r, readable);
        r
    }
}

/// The engine a page's URL selects.
pub open spec fn url_host_of_engine(url: Seq<char>) -> Option<SerpEngine> {
    engine_for(href_or_empty(url_host_of(url)))
}

/// The excerpt a `resolve` answer shows: the first 600 characters.
pub const EXCERPT_CHARS: usize = 600;

/// The answer to a `resolve` request: the page's real URL, its article
/// title in bold when it has one, and the first 600 characters of its
/// article text, with an ellipsis line when there is more.
pub open spec fn resolve_answer(final_url: Seq<char>, title: Seq<char>, content: Seq<char>) -> Seq<char> {
    let head = "# Resolved URL: "@ + final_url + "\n"@;
    let t = if title.len() > 0 {
        "**"@ + title + "**\n"@
    } else {
        Seq::empty()
    };
    let excerpt = if content.len() > EXCERPT_CHARS {
        content.take(EXCERPT_CHARS as int) + "\n\u{2026}"@
    } else {
        content
    };
    head + t + excerpt
}

pub fn resolve_body(final_url: &str, title: &str, content: &str) -> (r: String)
    ensures
        r@ == resolve_answer(final_url@, title@, content@),
{
    let mut r = String::new();
    push_str(&mut r, "# Resolved URL: ");
    push_str(&mut r, final_url);
    push_str(&mut r, "\n");
    if !title.is_empty() {
        push_str(&mut r, "**");
        push_str(&mut r, title);
        push_str(&mut r, "**\n");
    }
    let v = chars_of(content);
    if v.len() > EXCERPT_CHARS {
        let ex = string_from_range(&v, 0, EXCERPT_CHARS);
        push_str(&mut r, ex.as_str());
        push_str(&mut r, "\n\u{2026}");
        proof {
            assert(v@.subrange(0, EXCERPT_CHARS as int) =~= content@.take(EXCERPT_CHARS as int));
        }
    } else {
        push_str(&mut r, content);
    }
    proof {
        assert(r@ =~= resolve_answer(final_url@, title@, content@));
    }
    r
}

/// The answer to a captured screenshot.
pub open spec fn screenshot_answer(url: Seq<char>, path: Seq<char>) -> Seq<char> {
    "Screenshot of "@ + url + " captured and saved to: "@ + path
}

pub fn screenshot_message(url: &str, path: &str) -> (r: String)
    ensures
        r@ == screenshot_answer(url@, path@),
{
    let mut r = String::new();
    push_str(&mut r, "Screenshot of ");
    push_str(&mut r, url);
    push_str(&mut r, " captured and saved to: ");
    push_str(&mut r, path);
    r
}

/// The answer when Chrome could not be started.
pub open spec fn launch_failure(err: Seq<char>) -> Seq<char> {
    "Failed to launch Chrome: "@ + err
}

pub fn launch_failed(err: &str) -> (r: String)
    ensures
        r@ == launch_failure(err@),
{
    flag("Failed to launch Chrome: ", err)
}


/// Law: Chrome is only ever given an `http` or `https` URL. An accepted
/// text keeps its own scheme when that is `http` or `https` (in any case),
/// and one without a scheme gets `https://` in front; a text with any other
/// scheme is refused.
pub proof fn only_web_urls_are_rendered(raw: Seq<char>)
    ensures
        normalised_url(raw) matches Ok(u) ==> (scheme_of(u) matches Some(sc) && (sc == "https"@ || lowercase_of(sc)
            == "http"@ || lowercase_of(sc) == "https"@)),
        normalised_url(raw) is Err <==> (scheme_of(trim(raw)) matches Some(sc) && lowercase_of(sc) != "http"@
            && lowercase_of(sc) != "https"@),
{
    let t = trim(raw);
    if scheme_of(t) is None {
        reveal_strlit("https://");
        reveal_strlit("https");
        let u = "https://"@ + t;
        assert(u[5] == ':');
        assert(exists|k: int| 0 <= k < u.len() && u[k] == ':');
        let c = choose|k: int| 0 <= k < u.len() && u[k] == ':' && forall|j: int| 0 <= j < k ==> u[j] != ':';
        assert(forall|j: int| 0 <= j < 5 ==> u[j] != ':') by {
            assert(u[0] == 'h' && u[1] == 't' && u[2] == 't' && u[3] == 'p' && u[4] == 's');
        }
        if c < 5 {
            assert(u[c] != ':');
        }
        if c > 5 {
            assert(u[5] != ':');
        }
        assert(first_colon(u) == Some(5int));
        let before = u.subrange(0, 5);
        let after = u.subrange(6, u.len() as int);
        assert(before =~= "https"@);
        assert(after[0] == '/');
        assert(port_end(after, 0) == 0);
        assert(scheme_of(u) == Some("https"@));
    }
}

} // verus!
