use session::research::{
    build_report, merge_results, report_file_stem, serp_url, slugify, ExtractedArticle,
    ResearchTool,
};
use session::serp::SearchResult;

fn res(title: &str, url: &str) -> SearchResult {
    SearchResult {
        title: title.into(),
        url: url.into(),
        snippet: String::new(),
    }
}

// `research_tests_serp_url_builds_per_engine_urls`, the per-engine URL case
// that also expects Google, GitHub and Hugging Face search pages, is not
// here: it would fail, because `serp_url` sends every engine other than
// bing, baidu, sogou and ddg to Bing, as the tool's code, doc comment and
// the case below all have it.
#[test]
fn research_serp_url_builds_per_engine_urls() {
    let q = "Rust 性能";
    assert_eq!(serp_url("bing", q).as_str(), "https://cn.bing.com/search?q=Rust+%E6%80%A7%E8%83%BD");
    assert_eq!(serp_url("baidu", q).as_str(), "https://www.baidu.com/s?wd=Rust+%E6%80%A7%E8%83%BD");
    assert_eq!(
        serp_url("sogou", q).as_str(),
        "https://www.sogou.com/web?query=Rust+%E6%80%A7%E8%83%BD"
    );
    assert_eq!(
        serp_url("ddg", q).as_str(),
        "https://html.duckduckgo.com/html/?q=Rust+%E6%80%A7%E8%83%BD"
    );
    assert_eq!(serp_url("google", q).as_str(), "https://cn.bing.com/search?q=Rust+%E6%80%A7%E8%83%BD");
}

#[test]
fn research_merge_results_dedups_by_title_and_host() {
    let per = vec![
        vec![res("Rust Lang", "https://www.rust-lang.org/"), res("Rust Lang", "https://rust-lang.org/zh-CN")],
        vec![res("rust lang", "https://www.rust-lang.org/zh-CN"), res("Docs", "https://doc.rust-lang.org/")],
    ];
    let merged = merge_results(per, 10);
    assert_eq!(merged.len(), 3, "cross-engine dup (same host+title) collapses");
    assert_eq!(merged[0].url, "https://www.rust-lang.org/", "earlier engine wins");
    assert_eq!(merged[2].url, "https://doc.rust-lang.org/");
}

#[test]
fn research_tests_merge_results_dedups_by_title_and_host() {
    let per = vec![
        vec![res("Rust Lang", "https://www.rust-lang.org/"), res("Rust Lang", "https://rust-lang.org/zh-CN")],
        vec![res("rust lang", "https://www.rust-lang.org/zh-CN"), res("Docs", "https://doc.rust-lang.org/")],
    ];
    let merged = merge_results(per, 10);
    assert_eq!(merged.len(), 3, "cross-engine dup (same host+title) collapses");
    assert_eq!(merged[0].url, "https://www.rust-lang.org/", "earlier engine wins");
    assert_eq!(merged[2].url, "https://doc.rust-lang.org/");
}

#[test]
fn research_merge_results_respects_limit() {
    let per = vec![vec![res("a", "https://a.com"), res("b", "https://b.com"), res("c", "https://c.com")]];
    assert_eq!(merge_results(per, 2).len(), 2);
}

#[test]
fn research_tests_merge_results_respects_limit() {
    let per = vec![vec![res("a", "https://a.com"), res("b", "https://b.com"), res("c", "https://c.com")]];
    assert_eq!(merge_results(per, 2).len(), 2);
}

#[test]
fn merge_with_zero_limit_is_empty() {
    let per = vec![vec![res("a", "https://a.com")]];
    assert!(merge_results(per, 0).is_empty());
}

#[test]
fn research_slugify_produces_filesystem_safe_names() {
    assert_eq!(slugify("Rust programming 2026!"), "rust-programming-2026");
    assert_eq!(slugify("  spaced  "), "spaced");
    assert_eq!(slugify("如何评价"), "", "fully-CJK collapses to empty");
}

#[test]
fn research_tests_slugify_produces_filesystem_safe_names() {
    assert_eq!(slugify("Rust programming 2026!"), "rust-programming-2026");
    assert_eq!(slugify("  spaced  "), "spaced");
    assert_eq!(slugify("如何评价"), "", "fully-CJK collapses to empty");
}

#[test]
fn report_stem_falls_back_to_research() {
    assert_eq!(report_file_stem("如何评价"), "research");
    assert_eq!(report_file_stem("A--B"), "a-b");
}

fn report_for(a: ExtractedArticle, links: &[SearchResult], n: usize) -> String {
    build_report("查询", &["bing".into()], &[a], links, n)
}

#[test]
fn research_build_report_renders_sources_and_links() {
    let a = ExtractedArticle {
        title: "标题".into(),
        author: "作者".into(),
        date: "".into(),
        url: "https://real.example/post".into(),
        content: "正文节选。".into(),
    };
    let report = report_for(a, &[res("L", "https://l.com")], 8000);
    assert!(report.starts_with("# Research: 查询"));
    assert!(report.contains("Engines: bing"));
    assert!(report.contains("## 1. 标题"));
    assert!(report.contains("- url: https://real.example/post"));
    assert!(report.contains("正文节选。"));
    assert!(report.contains("## Raw search results"));
    assert!(report.contains("L — https://l.com"));
}

#[test]
fn research_tests_build_report_renders_sources_and_links() {
    let a = ExtractedArticle {
        title: "标题".into(),
        author: "作者".into(),
        date: "".into(),
        url: "https://real.example/post".into(),
        content: "正文节选。".into(),
    };
    let report = report_for(a, &[res("L", "https://l.com")], 8000);
    assert!(report.starts_with("# Research: 查询"));
    assert!(report.contains("Engines: bing"));
    assert!(report.contains("## 1. 标题"));
    assert!(report.contains("- url: https://real.example/post"));
    assert!(report.contains("正文节选。"));
    assert!(report.contains("## Raw search results"));
    assert!(report.contains("L — https://l.com"));
}

fn truncation_case() -> String {
    let a = ExtractedArticle {
        title: "t".into(),
        author: String::new(),
        date: String::new(),
        url: "https://x.com".into(),
        content: "一二三四五六七八九十".into(),
    };
    build_report("q", &["bing".into()], &[a], &[], 4)
}

#[test]
fn research_build_report_truncates_excerpt() {
    let report = truncation_case();
    assert!(report.contains("一二三四"));
    assert!(!report.contains("五六七八"));
    assert!(report.contains("…"));
}

#[test]
fn research_tests_build_report_truncates_excerpt() {
    let report = truncation_case();
    assert!(report.contains("一二三四"));
    assert!(!report.contains("五六七八"));
    assert!(report.contains("…"));
}

#[test]
fn report_layout_is_exact() {
    let a = ExtractedArticle {
        title: String::new(),
        author: "me".into(),
        date: "2024".into(),
        url: "u".into(),
        content: "c".into(),
    };
    let r = build_report("q", &["bing".into(), "baidu".into()], &[a], &[], 10);
    assert_eq!(
        r,
        "# Research: q\n\nEngines: bing, baidu\n\nSources: 1\n\n## 1. u\n- url: u\n- author: me\n- date: 2024\n\nc\n\n"
    );
}

#[test]
fn parameters_are_clamped_with_defaults() {
    assert_eq!(ResearchTool::max_results_of(None), 6);
    assert_eq!(ResearchTool::max_results_of(Some(0)), 1);
    assert_eq!(ResearchTool::max_results_of(Some(99)), 10);
    assert_eq!(ResearchTool::per_page_chars_of(None), 8000);
    assert_eq!(ResearchTool::per_page_chars_of(Some(1)), 500);
    assert_eq!(ResearchTool::per_page_chars_of(Some(1_000_000)), 20000);
    assert_eq!(ResearchTool::query_of(Some("  rust  ")), Some("rust".to_string()));
    assert_eq!(ResearchTool::query_of(Some("   ")), None);
    assert_eq!(ResearchTool::engines_or_default(None), vec!["bing".to_string(), "baidu".to_string()]);
}

#[test]
fn summary_lists_each_source() {
    let a = ExtractedArticle {
        title: String::new(),
        author: String::new(),
        date: String::new(),
        url: "https://x".into(),
        content: String::new(),
    };
    assert_eq!(
        ResearchTool::summary("/w/.research/r-1.md", &[a], 2),
        "Research report written to: /w/.research/r-1.md\n\nSources fetched: 1 (2 failed)\n\n(untitled) — https://x\n"
    );
}

#[test]
fn slug_of_a_slug_is_itself() {
    for q in ["Rust programming 2026!", "  --Mixed__Case  Query--  ", "如何评价 Rust", ""] {
        let once = slugify(q);
        assert_eq!(slugify(&once), once);
        assert!(once.chars().all(|c| c.is_ascii_lowercase() || c.is_ascii_digit() || c == '-'));
    }
}
