use session::chrome::{requested_ua, requested_url, MISSING_URL};
use session::chrome::{dump_dom_args, screenshot_args};
use session::chrome::{chrome_candidates, fetch_body, html_body, launch_failed, resolve_body, screenshot_message};
use session::chrome::{
    chrome_base_args, extract_final_url, format_serp_output, is_redirect_url, looks_like_port,
    normalise_url, not_found_msg, ChromeAction, ChromeHeadlessTool,
};
use session::serp::SearchResult;

#[test]
fn normalise_url_adds_scheme() {
    assert_eq!(normalise_url("example.com").unwrap(), "https://example.com");
    assert_eq!(normalise_url("http://local").unwrap(), "http://local");
    assert_eq!(normalise_url("  https://x.com  ").unwrap(), "https://x.com");
}

#[test]
fn normalise_url_rejects_file_scheme() {
    assert!(normalise_url("file:///etc/passwd").is_err());
    assert!(normalise_url("file://localhost/etc/passwd").is_err());
}

#[test]
fn normalise_url_rejects_other_dangerous_schemes() {
    assert!(normalise_url("ftp://evil.com/file").is_err());
    assert!(normalise_url("javascript:alert(1)").is_err());
    assert!(normalise_url("data:text/html,<script>").is_err());
}

#[test]
fn normalise_url_accepts_http_and_https() {
    assert!(normalise_url("http://example.com").is_ok());
    assert!(normalise_url("HTTPS://example.com").is_ok());
}

#[test]
fn normalise_url_host_port_not_rejected() {
    assert!(normalise_url("localhost:3000").is_ok());
    assert!(normalise_url("example.com:8080").is_ok());
}

#[test]
fn refused_scheme_is_named_in_lowercase() {
    let e = normalise_url("FTP://x").unwrap_err();
    assert!(e.starts_with("Unsupported URL scheme 'ftp'."), "{e}");
    assert_eq!(normalise_url("localhost:3000").unwrap(), "https://localhost:3000");
}

#[test]
fn port_detection() {
    assert!(looks_like_port("3000"));
    assert!(looks_like_port("8080/path?q#f"));
    assert!(!looks_like_port(""));
    assert!(!looks_like_port("123456"));
    assert!(!looks_like_port("alert(1)"));
}

#[test]
fn not_found_message_is_helpful() {
    let msg = not_found_msg();
    assert!(msg.contains("install-skills-dep.sh"));
    assert!(msg.contains("CHROME_PATH"));
}

#[test]
fn format_serp_output_renders_markdown_list() {
    let results = vec![
        SearchResult {
            title: "First".to_string(),
            url: "http://www.baidu.com/link?url=a".to_string(),
            snippet: "snippet one".to_string(),
        },
        SearchResult {
            title: "Second".to_string(),
            url: String::new(),
            snippet: String::new(),
        },
    ];
    let out = format_serp_output("https://www.baidu.com/s?wd=x", &results);
    assert!(out.starts_with("# Search results: https://www.baidu.com/s?wd=x\n"));
    assert!(out.contains("\n1. **First**\n"));
    assert!(out.contains("\n2. **Second**\n"));
    assert!(out.contains("   snippet one\n"));
    assert!(out.contains("   http://www.baidu.com/link?url=a\n"));
    assert!(!out.contains("**Second**\n   \n"));
}

#[test]
fn base_args_use_real_ua_and_anti_detection() {
    let args = chrome_base_args(None);
    let joined = args.join(" ");
    assert!(joined.contains("--headless=new"));
    assert!(joined.contains("--no-sandbox"));
    assert!(joined.contains("--disable-blink-features=AutomationControlled"));
    assert!(joined.contains("--lang=zh-CN"));
    assert!(joined.contains("--user-agent=Mozilla/5.0"));
    assert!(!joined.contains("HeadlessChrome"));
    let custom = chrome_base_args(Some("CustomUA/1.0"));
    assert!(custom.iter().any(|a| a == "--user-agent=CustomUA/1.0"));
    assert!(!custom.iter().any(|a| a.contains("Mozilla/5.0")));
}

#[test]
fn empty_user_agent_drops_the_flag() {
    let args = chrome_base_args(Some(""));
    assert_eq!(args.len(), 5);
}

#[test]
fn redirect_urls_are_recognised() {
    assert!(is_redirect_url(
        "https://www.baidu.com/link?url=https%3A%2F%2Freal.example%2Fx&wd=&eqid=1"
    ));
    assert!(is_redirect_url("https://www.sogou.com/link?url=abc"));
    assert!(!is_redirect_url("https://www.baidu.com/s?wd=rust"));
    assert!(!is_redirect_url("https://example.com/article/1"));
    assert!(!is_redirect_url("not a url"));
}

#[test]
fn extract_final_url_prefers_canonical() {
    let html = "<html><head><link rel=\"canonical\" href=\"https://real.example/post\">\
                <meta property=\"og:url\" content=\"https://og.example/post\"></head></html>";
    assert_eq!(
        extract_final_url(html, "https://www.baidu.com/link?url=x"),
        "https://real.example/post"
    );
}

#[test]
fn extract_final_url_falls_back_to_og_url() {
    let html = "<html><head><meta property=\"og:url\" content=\"https://og.example/post\"></head></html>";
    assert_eq!(
        extract_final_url(html, "https://www.baidu.com/link?url=x"),
        "https://og.example/post"
    );
}

#[test]
fn extract_final_url_resolves_relative_canonical() {
    let html = "<html><head><link rel=\"canonical\" href=\"/posts/42\"></head></html>";
    assert_eq!(
        extract_final_url(html, "https://real.example/a/b"),
        "https://real.example/posts/42"
    );
}

#[test]
fn extract_final_url_returns_fallback_when_absent() {
    let html = "<html><head><title>no canonical</title></head><body>hi</body></html>";
    assert_eq!(extract_final_url(html, "https://example.com/x"), "https://example.com/x");
}

#[test]
fn actions_dispatch_and_unknown_is_refused() {
    assert_eq!(ChromeHeadlessTool::action(None), Ok(ChromeAction::Fetch));
    assert_eq!(ChromeHeadlessTool::action(Some("resolve")), Ok(ChromeAction::Resolve));
    assert_eq!(ChromeHeadlessTool::action(Some("html")), Ok(ChromeAction::Html));
    assert_eq!(ChromeHeadlessTool::action(Some("screenshot")), Ok(ChromeAction::Screenshot));
    assert_eq!(
        ChromeHeadlessTool::action(Some("click")),
        Err("Unknown action 'click'. Use 'fetch', 'resolve', 'html' or 'screenshot'.".to_string())
    );
}

#[test]
fn redirect_links_get_a_render_wait() {
    assert_eq!(
        ChromeHeadlessTool::resolve_wait(None, "https://www.sogou.com/link?url=abc"),
        Some(2000)
    );
    assert_eq!(ChromeHeadlessTool::resolve_wait(None, "https://example.com/"), None);
    assert_eq!(ChromeHeadlessTool::resolve_wait(Some(5), "https://www.sogou.com/link?url=abc"), Some(5));
}

#[test]
fn request_url_and_agent() {
    assert_eq!(requested_url(None).unwrap_err(), MISSING_URL);
    assert_eq!(requested_url(Some("")).unwrap_err(), "Missing required parameter: url.");
    assert_eq!(requested_url(Some("https://a.example/x")).unwrap(), "https://a.example/x");
    assert_eq!(requested_ua(Some("")), None);
    assert_eq!(requested_ua(Some("bot")), Some("bot"));
    assert_eq!(requested_ua(None), None);
}

#[test]
fn dump_dom_and_screenshot_command_lines() {
    let d = dump_dom_args(Some(""), "/tmp/p", Some(0), "https://x/");
    assert_eq!(
        d,
        vec!["--headless=new", "--no-sandbox", "--disable-gpu", "--disable-blink-features=AutomationControlled", "--lang=zh-CN", "--dump-dom", "--user-data-dir=/tmp/p", "https://x/"]
    );
    let s = screenshot_args(Some("ua"), "/tmp/s.png", "/tmp/p", Some(1500), "https://x/");
    assert_eq!(&s[5..], &["--user-agent=ua", "--screenshot=/tmp/s.png", "--window-size=1920,1080", "--user-data-dir=/tmp/p", "--virtual-time-budget=1500", "https://x/"]);
}

#[test]
fn answer_texts() {
    assert_eq!(chrome_candidates(), vec!["google-chrome-stable", "google-chrome", "chromium-browser", "chromium"]);
    assert_eq!(html_body("https://x/", "<p>"), "<!-- raw DOM of https://x/ -->\n<p>");
    assert_eq!(fetch_body("https://example.com/a", "<p>hi</p>", "hi"), "# https://example.com/a\n\nhi");
    let ddg = r#"<div class="result"><a class="result__a" href="https://r.example/">R</a></div>"#;
    assert_eq!(fetch_body("https://duckduckgo.com/html/?q=r", ddg, "unused"), "# Search results: https://duckduckgo.com/html/?q=r\n\n1. **R**\n   https://r.example/\n");
    assert_eq!(resolve_body("https://f/", "", "short"), "# Resolved URL: https://f/\nshort");
    let long: String = "x".repeat(601);
    let r = resolve_body("https://f/", "T", &long);
    assert!(r.starts_with("# Resolved URL: https://f/\n**T**\n"));
    assert!(r.ends_with("\n\u{2026}"));
    assert_eq!(r.chars().filter(|c| *c == 'x').count(), 600);
    assert_eq!(screenshot_message("https://x/", "/tmp/s.png"), "Screenshot of https://x/ captured and saved to: /tmp/s.png");
    assert_eq!(launch_failed("no such file"), "Failed to launch Chrome: no such file");
}
