use session::serp::{engine_for_host, normalize_baidu_href, normalize_redirect_href, normalize_ws, SerpEngine};

#[test]
fn parsers_are_chosen_by_host() {
    assert_eq!(engine_for_host("www.baidu.com"), Some(SerpEngine::Baidu));
    assert_eq!(engine_for_host("html.duckduckgo.com"), Some(SerpEngine::DuckDuckGo));
    assert_eq!(engine_for_host("cn.bing.com"), Some(SerpEngine::Bing));
    assert_eq!(engine_for_host("www.sogou.com"), Some(SerpEngine::Sogou));
    assert_eq!(engine_for_host("www.google.co.jp"), Some(SerpEngine::Google));
    assert_eq!(engine_for_host("github.com"), Some(SerpEngine::GitHub));
    assert_eq!(engine_for_host("huggingface.co"), Some(SerpEngine::HuggingFace));
    assert_eq!(engine_for_host("example.com"), None);
}

#[test]
fn whitespace_is_collapsed_and_trimmed() {
    assert_eq!(normalize_ws("  a \u{a0} b\n\tc  "), "a b c");
    assert_eq!(normalize_ws(""), "");
}

#[test]
fn hrefs_are_unescaped() {
    assert_eq!(normalize_baidu_href("  http://x/?a=1&amp;b=2 "), "http://x/?a=1&b=2");
    assert_eq!(normalize_redirect_href("/link?a=1&amp;b", "https://www.sogou.com"), "https://www.sogou.com/link?a=1&b");
    assert_eq!(normalize_redirect_href("  ", "https://x"), "");
    assert_eq!(normalize_redirect_href("https://y/&amp;amp;", "https://x"), "https://y/&amp;");
}
