use rika::config::{WebFetchConfig, WebSearchConfig};
use rika::env::Env;
use rika::json::JsonValue;
use rika::search::{SearchFile, SearchRequest};
use rika::tools::{FilesystemSearchTool, WebSearchTool};
use rika::web_fetch::{FetchRefusal, WebFetchTool};
use rika::web_search::SearchStep;

fn jv(v: &serde_json::Value) -> JsonValue {
    let text = serde_json::to_string(v).unwrap();
    match v {
        serde_json::Value::Null => JsonValue::Null,
        serde_json::Value::String(s) => JsonValue::Str(s.clone(), text),
        serde_json::Value::Bool(_) | serde_json::Value::Number(_) => JsonValue::Scalar(text),
        serde_json::Value::Array(items) => JsonValue::Array(items.iter().map(jv).collect(), text),
        serde_json::Value::Object(map) => {
            JsonValue::Object(map.iter().map(|(k, v)| (k.clone(), jv(v))).collect(), text)
        }
    }
}

fn p(text: &str) -> JsonValue {
    jv(&serde_json::from_str::<serde_json::Value>(text).unwrap())
}

#[test]
fn html_to_text_strips_script_and_style_noise() {
    let html = r#"
        <html>
          <head>
            <style>.hidden{display:none}</style>
            <script>console.log("x")</script>
          </head>
          <body>
            <h1>Title</h1>
            <p>Hello <b>World</b></p>
          </body>
        </html>
    "#;
    let text = WebFetchTool::html_to_text(html);
    assert!(text.contains("Title"));
    assert!(text.contains("Hello"));
    assert!(text.contains("World"));
    assert!(!text.contains("console.log"));
    assert!(!text.contains("hidden"));
}

#[test]
fn html_to_markdown_keeps_links() {
    let text = WebFetchTool::html_to_markdown_like(r#"<p>See <a href="https://x.dev/doc">the docs</a>.</p>"#);
    assert_eq!(text, "See [the docs](https://x.dev/doc).");
}

#[test]
fn truncate_chars_preserves_char_boundaries() {
    let input = "ab한글cd";
    let (truncated, did_truncate) = WebFetchTool::truncate_chars(input, 4);
    assert_eq!(truncated, "ab한글");
    assert!(did_truncate);
    let (same, cut) = WebFetchTool::truncate_chars("abc", 3);
    assert_eq!(same, "abc");
    assert!(!cut);
}

#[test]
fn normalize_whitespace_collapses_blank_lines() {
    assert_eq!(WebFetchTool::normalize_whitespace("  a \n\n\n\n  b\r\n \n c  \n"), "a\n\nb\n\nc");
}

#[test]
fn execute_rejects_non_http_scheme() {
    let tool = WebFetchTool::new(WebFetchConfig::default());
    match tool.fetch_request(&p(r#"{"url":"file:///etc/passwd"}"#)) {
        Err(FetchRefusal::Failed(r)) => {
            assert!(!r.success);
            assert!(r.error.unwrap_or_default().contains("Unsupported URL scheme"));
        }
        _ => panic!("expected a refusal"),
    }
}

#[test]
fn fetch_request_reads_mode_and_limit() {
    let tool = WebFetchTool::new(WebFetchConfig { enabled: true, timeout_secs: 10, max_response_size: 16, user_agent: "t".to_string() });
    let req = match tool.fetch_request(&p(r#"{"url":"http://127.0.0.1:8080/","extract_mode":"MarkDown","max_chars":1000}"#)) {
        Ok(r) => r,
        Err(_) => panic!("expected a request"),
    };
    assert!(req.markdown);
    assert_eq!(req.max_chars, 16);
    assert!(matches!(tool.fetch_request(&p(r#"{"extract_mode":"text"}"#)), Err(FetchRefusal::MissingArgument(_))));
    match tool.fetch_request(&p(r#"{"url":"https://a.b","extract_mode":"pdf"}"#)) {
        Err(FetchRefusal::Failed(r)) => assert_eq!(r.error.as_deref(), Some("extract_mode must be 'text' or 'markdown'")),
        _ => panic!("expected a refusal"),
    }
    assert_eq!(tool.clamp_max_chars(Some(0)), 1);
    assert_eq!(tool.clamp_max_chars(None), 16);
}

#[test]
fn execute_fetches_html_and_applies_max_chars() {
    let tool = WebFetchTool::new(WebFetchConfig { enabled: true, timeout_secs: 10, max_response_size: 16, user_agent: "rikabot-test".to_string() });
    let req = match tool.fetch_request(&p(r#"{"url":"http://127.0.0.1/","extract_mode":"text"}"#)) {
        Ok(r) => r,
        Err(_) => panic!("expected a request"),
    };
    let body = "<html><body><h1>Docs</h1><p>OpenClaw documentation content</p></body></html>";
    let result = WebFetchTool::page_result(&req, "http://127.0.0.1/", 200, "200 OK", "text/html; charset=utf-8", body);
    assert!(result.success, "expected success, got {:?}", result.error);
    assert!(result.output.contains("Status: 200 OK"));
    assert!(result.output.contains("Truncated: true"));
    assert!(result.output.contains("Docs"));
    assert!(result.output.contains("Length: 16"));
}

#[test]
fn page_errors_and_unsupported_types() {
    let tool = WebFetchTool::new(WebFetchConfig::default());
    let req = match tool.fetch_request(&p(r#"{"url":"http://x.y/"}"#)) {
        Ok(r) => r,
        Err(_) => panic!("expected a request"),
    };
    let r = WebFetchTool::page_result(&req, "http://x.y/", 404, "404 Not Found", "text/plain", "  missing  ");
    assert_eq!(r.error.as_deref(), Some("web_fetch HTTP 404 Not Found for 'http://x.y/'. body: missing"));
    let r = WebFetchTool::page_result(&req, "http://x.y/", 200, "200 OK", "Image/PNG", "...");
    assert_eq!(
        r.error.as_deref(),
        Some("Unsupported content type: 'image/png'. Supported: text/html, text/plain, text/markdown, application/json")
    );
    let r = WebFetchTool::page_result(&req, "http://x.y/", 200, "200 OK", "", "plain body");
    assert!(r.output.contains("Content-Type: (unknown)"));
    assert!(r.output.ends_with("\n\nplain body"));
    assert!(WebFetchTool::should_retry_status(503));
    assert!(WebFetchTool::should_retry_status(429));
    assert!(!WebFetchTool::should_retry_status(404));
    assert!(WebFetchTool::detect_html("", "  <!DOCTYPE html><html>"));
}

fn search_config() -> WebSearchConfig {
    let mut cfg = WebSearchConfig::default();
    cfg.enabled = true;
    cfg.provider = "openrouter".to_string();
    cfg.max_results = 5;
    cfg.providers.openrouter.api_key = Some("or-key".to_string());
    cfg.providers.openrouter.model = Some("openai/gpt-4o-mini".to_string());
    cfg
}

#[test]
fn build_openrouter_payload_includes_web_plugin() {
    let mut cfg = search_config();
    cfg.providers.openrouter.plugin_max_results = Some(7);
    cfg.providers.openrouter.plugin_search_prompt = Some("prefer docs pages".to_string());
    let tool = WebSearchTool::new(cfg);
    let plan = tool.search_plan("rust", 3, &Env::empty()).ok().unwrap();
    assert_eq!(plan.plugin_max_results, 3);
    assert_eq!(plan.search_prompt.as_deref(), Some("prefer docs pages"));
    assert_eq!(plan.endpoint, "https://openrouter.ai/api/v1/chat/completions");
    assert_eq!(plan.model, "openai/gpt-4o-mini");
    assert_eq!(plan.api_key, "or-key");
}

#[test]
fn format_openrouter_results_dedupes_citations() {
    let body = p(r#"{"choices":[{"message":{"content":"summary","citations":["https://docs.rs/a",{"url":"https://docs.rs/a"},{"href":"https://docs.rs/b"}]}}],"citations":["https://docs.rs/c"]}"#);
    let out = WebSearchTool::format_openrouter_results(&body, "q", "openai/gpt-4o-mini").ok().unwrap();
    assert!(out.contains("summary"));
    assert!(out.contains("Sources:"));
    assert!(out.contains("https://docs.rs/a"));
    assert!(out.contains("https://docs.rs/b"));
    assert!(out.contains("https://docs.rs/c"));
    assert_eq!(out.matches("https://docs.rs/a").count(), 1);
    assert_eq!(
        out,
        "Search results for: q (via OpenRouter:openai/gpt-4o-mini)\n\nsummary\n\nSources:\n1. https://docs.rs/c\n2. https://docs.rs/a\n3. https://docs.rs/b"
    );
}

#[test]
fn search_request_and_responses() {
    let tool = WebSearchTool::new(search_config());
    assert!(matches!(tool.search_request(&p(r#"{"query":"  "}"#)), Err(_)));
    let (q, c) = tool.search_request(&p(r#"{"query":" rust ","count":50}"#)).ok().unwrap();
    assert_eq!(q, "rust");
    assert_eq!(c, 5);
    assert!(matches!(WebSearchTool::search_response(1, 503, "503", "busy", "q", "m"), SearchStep::Retry));
    match WebSearchTool::search_response(2, 503, "503 Service Unavailable", "busy", "q", "m") {
        SearchStep::Done(Err(e)) => assert_eq!(e, "openrouter search failed with status 503 Service Unavailable: busy"),
        _ => panic!("expected failure"),
    }
    assert!(matches!(WebSearchTool::search_response(1, 200, "200 OK", "  ", "q", "m"), SearchStep::Retry));
    assert!(matches!(WebSearchTool::search_response(1, 200, "200 OK", "{oops", "q", "m"), SearchStep::InvalidJson { .. }));
    match WebSearchTool::search_response(1, 200, "200 OK", r#"{"choices":[{"message":{"content":[" a ",{"text":"b"}]}}]}"#, "q", "m") {
        SearchStep::Done(Ok(out)) => assert_eq!(out, "Search results for: q (via OpenRouter:m)\n\na\nb"),
        _ => panic!("expected a report"),
    }
    match WebSearchTool::search_response(1, 200, "200 OK", "{}", "q", "m") {
        SearchStep::Done(Err(e)) => assert_eq!(e, "openrouter response missing both content and citations"),
        _ => panic!("expected an error"),
    }
}

#[test]
fn search_pattern_compiles_or_fails_the_call() {
    let tool = FilesystemSearchTool::new();
    let bad = SearchRequest {
        pattern: "(".to_string(),
        path: ".".to_string(),
        filter: None,
        case_sensitive: true,
        max_results: 10,
    };
    let refused = tool.request_regex(&bad).err().unwrap();
    assert!(!refused.success);
    assert!(refused.error.unwrap().starts_with("Invalid regex pattern: "));
    let good = SearchRequest { pattern: "Fo+".to_string(), case_sensitive: false, ..bad };
    let re = tool.request_regex(&good).ok().unwrap();
    assert!(re.is_match("a FOO b"));
    assert!(!re.is_match("f"));
}

#[test]
fn search_reports_files_in_path_order() {
    let tool = FilesystemSearchTool::new();
    let req = SearchRequest {
        pattern: "alpha".to_string(),
        path: "/r".to_string(),
        filter: None,
        case_sensitive: true,
        max_results: 10,
    };
    let re = tool.request_regex(&req).ok().unwrap();
    let files = vec![
        SearchFile { path: "/r/b.txt".to_string(), relative: "b.txt".to_string(), content: Some("x\nalpha".to_string()) },
        SearchFile { path: "/r/a.txt".to_string(), relative: "a.txt".to_string(), content: Some("alpha".to_string()) },
        SearchFile { path: "/r/a/c.txt".to_string(), relative: "a/c.txt".to_string(), content: Some("alpha beta".to_string()) },
    ];
    let r = tool.search_sorted(&re, None, files, 10);
    assert!(r.success);
    assert_eq!(r.output, "/r/a/c.txt:1:alpha beta\n/r/a.txt:1:alpha\n/r/b.txt:2:alpha\n\nTotal: 3 match(es)");
}
