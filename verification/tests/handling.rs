use std::collections::HashMap;
use std::sync::Arc;
use std::time::Duration;

use slate::engine::EngineError;
use slate::handler_common::{
    body_text, incoming_request, join_target, nonempty_body_text, status_or_500, HandleStep, ERROR_PAGE_500,
    MAX_BODY_SIZE,
};
use slate::header_map::CacheState;
use slate::{IncomingRequest, RenderOutcome, SsrCache, SsrConfig, SsrHandlerCore, SsrRequest, SsrResponse};

fn incoming(method: &str, path: &str, has_query: bool) -> IncomingRequest {
    IncomingRequest {
        path: path.to_string(),
        has_query,
        ssr_request: SsrRequest {
            method: method.to_string(),
            url: path.to_string(),
            headers: HashMap::new(),
            body: None,
            remote_addr: "127.0.0.1:0".to_string(),
        },
    }
}

fn page(status: u16, body: &str, fetched: bool) -> SsrResponse {
    SsrResponse {
        status,
        headers: vec![("content-type".to_string(), "text/html".to_string())],
        body: body.to_string(),
        fetched,
    }
}

/// Sends a request through the handler. The engine, where it is asked, answers
/// with `rendered`.
fn run(
    core: &mut SsrHandlerCore<()>,
    request: IncomingRequest,
    rendered: Result<SsrResponse, EngineError>,
) -> RenderOutcome {
    match core.begin(request) {
        HandleStep::Done(outcome) => outcome,
        HandleStep::Render { ticket, .. } => core.finish(ticket, rendered),
    }
}

fn new_core() -> SsrHandlerCore<()> {
    SsrHandlerCore::new(Arc::new(()), &SsrConfig::default())
}

#[test]
fn the_first_request_misses_and_the_second_hits() {
    let mut core = new_core();
    let first = run(&mut core, incoming("GET", "/cached-page", false), Ok(page(200, "one", false)));
    assert!(matches!(&first, RenderOutcome::Rendered(p) if p.body == "one"));
    assert_eq!(core.answer(first).state, Some(CacheState::Miss));
    let second = run(&mut core, incoming("GET", "/cached-page", false), Ok(page(200, "two", false)));
    assert!(matches!(&second, RenderOutcome::CacheHit(e) if e.body == "one" && e.status == 200));
    let answer = core.answer(second);
    assert_eq!(answer.state, Some(CacheState::Hit));
    assert_eq!(answer.status, 200);
    assert_eq!(answer.body, "one");
    assert_eq!(answer.headers, vec![("content-type".to_string(), "text/html".to_string())]);
}

#[test]
fn the_request_reaches_the_engine_unchanged() {
    let core = new_core();
    let mut request = incoming("POST", "/submit", true);
    request.ssr_request.body = Some("data".to_string());
    request.ssr_request.headers.insert("x".to_string(), "y".to_string());
    match core.begin(request) {
        HandleStep::Render { request, .. } => {
            assert_eq!(request.method, "POST");
            assert_eq!(request.body, Some("data".to_string()));
            assert_eq!(request.headers.get("x"), Some(&"y".to_string()));
        }
        HandleStep::Done(_) => panic!("an empty cache cannot answer"),
    }
}

#[test]
fn requests_from_a_framework() {
    let text = |t: &str| t.to_string();
    let request = incoming_request(
        text("GET"),
        text("/a?b"),
        text("/a"),
        Some("b"),
        HashMap::new(),
        Some(text("x")),
        Some(text("10.0.0.1:80")),
    );
    assert_eq!(request.path, "/a");
    assert!(request.has_query);
    assert_eq!(request.ssr_request.method, "GET");
    assert_eq!(request.ssr_request.url, "/a?b");
    assert_eq!(request.ssr_request.body, Some(text("x")));
    assert_eq!(request.ssr_request.remote_addr, "10.0.0.1:80");
    let request =
        incoming_request(text("GET"), text("/a"), text("/a"), None, HashMap::new(), None, None);
    assert!(!request.has_query);
    assert_eq!(request.ssr_request.remote_addr, "127.0.0.1");
}

#[test]
fn posts_are_not_cached() {
    let mut core = new_core();
    run(&mut core, incoming("POST", "/p", false), Ok(page(200, "one", false)));
    let second = run(&mut core, incoming("POST", "/p", false), Ok(page(200, "two", false)));
    assert!(matches!(second, RenderOutcome::Rendered(p) if p.body == "two"));
}

#[test]
fn queries_bypass_the_cache() {
    let mut core = new_core();
    run(&mut core, incoming("GET", "/p", false), Ok(page(200, "plain", false)));
    let query = run(&mut core, incoming("GET", "/p", true), Ok(page(200, "query", false)));
    assert!(matches!(query, RenderOutcome::Rendered(p) if p.body == "query"));
    let plain = run(&mut core, incoming("GET", "/p", false), Ok(page(200, "again", false)));
    assert!(matches!(plain, RenderOutcome::CacheHit(e) if e.body == "plain"));
}

#[test]
fn pages_that_fetched_are_not_cached() {
    let mut core = new_core();
    run(&mut core, incoming("GET", "/p", false), Ok(page(200, "one", true)));
    assert!(core.cache().get("GET:/p").is_none());
}

#[test]
fn failures_are_not_cached() {
    let mut core = new_core();
    let failed = run(&mut core, incoming("GET", "/p", false), Err(EngineError::WorkerDropped));
    assert!(matches!(failed, RenderOutcome::Error));
    assert!(core.cache().get("GET:/p").is_none());
    let not_found = run(&mut core, incoming("GET", "/p", false), Ok(page(404, "gone", false)));
    assert!(matches!(not_found, RenderOutcome::Rendered(p) if p.status == 404));
    assert!(core.cache().get("GET:/p").is_none());
}

#[test]
fn the_key_is_method_and_path() {
    let mut core = new_core();
    run(&mut core, incoming("GET", "/p", false), Ok(page(200, "one", false)));
    assert!(core.cache().get("GET:/p").is_some());
    assert!(matches!(
        core.begin(incoming("HEAD", "/p", false)),
        HandleStep::Render { .. }
    ));
    assert!(matches!(core.begin(incoming("GET", "/p/", false)), HandleStep::Render { .. }));
}

#[test]
fn the_error_page_can_be_configured() {
    let core = new_core();
    assert_eq!(core.error_html(), ERROR_PAGE_500);
    let answer = core.answer(RenderOutcome::Error);
    assert_eq!(answer.status, 500);
    assert_eq!(answer.body, ERROR_PAGE_500);
    assert_eq!(answer.state, None);
    assert_eq!(
        answer.headers,
        vec![("content-type".to_string(), "text/html; charset=utf-8".to_string())]
    );
    let config = SsrConfig { error_html: Some("<h1>Oops</h1>".into()), ..Default::default() };
    let core = SsrHandlerCore::new(Arc::new(7u8), &config);
    assert_eq!(core.answer(RenderOutcome::Error).body, "<h1>Oops</h1>");
    assert_eq!(**core.engine(), 7);
}

#[test]
fn a_handler_from_parts() {
    let mut cache = SsrCache::new();
    cache.set(
        "GET:/p".to_string(),
        slate::CachedEntry {
            status: 200,
            headers: vec![],
            body: "kept".to_string(),
            cached_at: std::time::Instant::now(),
        },
    );
    let core = SsrHandlerCore::new_from_parts(Arc::new(()), cache);
    assert!(matches!(
        core.begin(incoming("GET", "/p", false)),
        HandleStep::Done(RenderOutcome::CacheHit(e)) if e.body == "kept"
    ));
    assert_eq!(core.error_html(), ERROR_PAGE_500);
}

#[test]
fn configuration_defaults() {
    let config = SsrConfig { render_timeout: Duration::from_secs(10), ..Default::default() };
    assert_eq!(config.render_timeout, Duration::from_secs(10));
    assert!(config.error_html.is_none());
    assert_eq!(SsrConfig::default().render_timeout, Duration::from_secs(30));
}

#[test]
fn status_codes() {
    assert_eq!(status_or_500(200), 200);
    assert_eq!(status_or_500(100), 100);
    assert_eq!(status_or_500(999), 999);
    assert_eq!(status_or_500(99), 500);
    assert_eq!(status_or_500(1000), 500);
    assert_eq!(status_or_500(0), 500);
    let core = new_core();
    assert_eq!(core.answer(RenderOutcome::Rendered(page(7, "x", false))).status, 500);
}

#[test]
fn request_bodies() {
    assert_eq!(body_text(None), None);
    assert_eq!(body_text(Some(vec![])), Some(String::new()));
    assert_eq!(body_text(Some(b"abc".to_vec())), Some("abc".to_string()));
    assert_eq!(body_text(Some(vec![0xff])), None);
    assert_eq!(body_text(Some(vec![b'a'; MAX_BODY_SIZE + 1])), None);
    assert!(body_text(Some(vec![b'a'; MAX_BODY_SIZE])).is_some());
    assert_eq!(nonempty_body_text(vec![]), None);
    assert_eq!(nonempty_body_text(b"abc".to_vec()), Some("abc".to_string()));
    assert_eq!(nonempty_body_text(vec![0xff]), None);
}

#[test]
fn targets_with_a_query() {
    assert_eq!(join_target("/a", Some("b=c")), "/a?b=c");
    assert_eq!(join_target("/a", Some("")), "/a?");
    assert_eq!(join_target("/a", None), "/a");
}
