use session::serp_parse::{
    decode_ddg_href, parse_baidu_results, parse_bing_results, parse_ddg_results, parse_github_results,
    parse_google_results, parse_hf_results, parse_search_results, parse_sogou_results, rows_from_blocks,
    rows_from_links, BlockEngine, LinkSite, Scraped, ScrapedBlock, ScrapedLink,
};

fn rows(v: Vec<session::serp::SearchResult>) -> Vec<(String, String, String)> {
    v.into_iter().map(|r| (r.title, r.url, r.snippet)).collect()
}

fn t(a: &str, b: &str, c: &str) -> (String, String, String) {
    (a.to_string(), b.to_string(), c.to_string())
}

const DDG: &str = r#"<html><body>
<div class="result"><a class="result__a" href="//duckduckgo.com/l/?uddg=https%3A%2F%2Fexample.com%2Fa&rut=x">Example A</a><a class="result__snippet">Snip A</a></div>
<div class="result"><a class="result__a" href="https://plain.example/b">B</a></div>
<div class="result"><a class="result__a" href="https://plain.example/c">   </a></div>
</body></html>"#;

#[test]
fn ddg_unwraps_redirects() {
    assert_eq!(
        rows(parse_ddg_results(DDG, 10)),
        vec![t("Example A", "https://example.com/a", "Snip A"), t("B", "https://plain.example/b", "")]
    );
}

#[test]
fn limit_stops_after_the_row_that_reaches_it() {
    assert_eq!(parse_ddg_results(DDG, 1).len(), 1);
    assert_eq!(parse_ddg_results(DDG, 0).len(), 1, "the first row is always taken");
}

#[test]
fn ddg_href_decoding() {
    assert_eq!(decode_ddg_href("//duckduckgo.com/l/?uddg=https%3A%2F%2Fx.org%2F"), "https://x.org/");
    assert_eq!(decode_ddg_href("https://y.org"), "https://y.org/");
    assert_eq!(decode_ddg_href("not a url"), "not a url");
}

#[test]
fn google_rows() {
    let html = r#"<html><body>
<div class="g"><a href="/url?q=https://target.example/x&sa=U"><h3>Target X</h3></a><div class="VwiC3b">About  x</div></div>
<div class="g"><a href="/search?q=more"><h3>More</h3></a></div>
<div class="g"><a href="https://www.google.com/search?q=y"><h3>Internal</h3></a></div>
<div class="g"><a href="https://direct.example/"><h3>Direct</h3></a></div>
<div class="g"><a href="https://direct.example/"><h3>Dup</h3></a></div>
</body></html>"#;
    assert_eq!(
        rows(parse_google_results(html, 10)),
        vec![t("Target X", "https://target.example/x", "About x"), t("Direct", "https://direct.example/", "")]
    );
}

#[test]
fn baidu_rows_dedup_titles_and_fall_back_to_container_text() {
    let html = r#"<html><body>
<div class="c-container"><h3><a href=" http://www.baidu.com/link?url=abc ">Title One</a></h3><div class="c-abstract">Abstract one</div></div>
<div class="c-container"><h3><a href="http://www.baidu.com/link?url=def">Title One</a></h3></div>
<div class="c-container"><h3><a href="http://www.baidu.com/link?url=ghi">Title Two</a></h3><span>extra text</span></div>
</body></html>"#;
    assert_eq!(
        rows(parse_baidu_results(html, 10)),
        vec![
            t("Title One", "http://www.baidu.com/link?url=abc", "Abstract one"),
            t("Title Two", "http://www.baidu.com/link?url=ghi", "extra text"),
        ]
    );
}

#[test]
fn bing_and_sogou_rows() {
    let bing = r#"<ul><li class="b_algo"><h2><a href="https://bing.example/1">One</a></h2><p class="b_lineclamp2">Snippet one</p></li>
<li class="b_algo"><h2><a href="https://bing.example/2">Two</a></h2><div class="b_caption"><p>Cap two</p></div></li></ul>"#;
    assert_eq!(
        rows(parse_bing_results(bing, 10)),
        vec![t("One", "https://bing.example/1", "Snippet one"), t("Two", "https://bing.example/2", "Cap two")]
    );
    let sogou = r#"<div class="vrwrap"><h3><a href="/link?url=abc">S One</a></h3><p class="str_info">info</p></div>"#;
    assert_eq!(rows(parse_sogou_results(sogou, 10)), vec![t("S One", "https://www.sogou.com/link?url=abc", "info")]);
}

#[test]
fn github_repo_links() {
    let html = r#"<html><body>
<div><p>Fast thing</p><a href="/owner/repo">owner/repo</a></div>
<a href="/settings/profile">Settings</a>
<a href="https://github.com/a/b.c">dot</a>
<a href="/owner/repo">dup</a>
<a href="/one/two/three">deep</a>
<div><a href="/x/y"></a></div>
</body></html>"#;
    assert_eq!(
        rows(parse_github_results(html, 10)),
        vec![
            t("owner/repo", "https://github.com/owner/repo", "Fast thing"),
            t("x/y", "https://github.com/x/y", "Fast thing"),
        ]
    );
}

#[test]
fn hf_model_links() {
    let html = r#"<a href="/org/model-1">org/model-1</a><a href="/datasets/foo">ds</a><a href="/org">single</a><a href="https://huggingface.co/org/model-1/tree/main">again</a>"#;
    assert_eq!(rows(parse_hf_results(html, 10)), vec![t("org/model-1", "https://huggingface.co/org/model-1", "")]);
}

#[test]
fn dispatch_by_host() {
    assert_eq!(parse_search_results("https://html.duckduckgo.com/html/?q=x", DDG, 10).len(), 2);
    assert!(parse_search_results("https://example.com/", DDG, 10).is_empty());
    assert!(parse_search_results("not a url", DDG, 10).is_empty());
}

fn el(texts: &[&str], href: Option<&str>) -> Option<Scraped> {
    Some(Scraped { texts: texts.iter().map(|s| s.to_string()).collect(), href: href.map(|h| h.to_string()) })
}

#[test]
fn block_rows_from_scraped_values() {
    let blocks = vec![
        ScrapedBlock { texts: vec!["A title".into(), " rest".into()], inner: vec![el(&["A title"], Some("/r?x=1&amp;y")), el(&["A title"], None)] },
        ScrapedBlock { texts: vec![], inner: vec![None] },
        ScrapedBlock { texts: vec![], inner: vec![el(&["B"], Some("  "))] },
    ];
    assert_eq!(
        rows(rows_from_blocks(BlockEngine::Sogou, &blocks, 5)),
        vec![t("A title", "https://www.sogou.com/r?x=1&y", "rest")]
    );
    assert_eq!(rows(rows_from_blocks(BlockEngine::Bing, &blocks, 5)), vec![t("A title", "/r?x=1&y", "rest")]);
}

#[test]
fn link_rows_from_scraped_values() {
    let links = vec![ScrapedLink {
        href: Some("http://github.com/o/r".into()),
        texts: vec![" ".into()],
        paragraphs: vec![Some(vec!["   ".into()]), None, Some(vec!["Desc".into(), " here".into()])],
    }];
    assert_eq!(rows(rows_from_links(LinkSite::GitHub, &links, 3)), vec![t("o/r", "https://github.com/o/r", "Desc here")]);
}
