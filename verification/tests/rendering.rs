use std::collections::HashMap;
use std::sync::Arc;

use slate::engine::{
    admit_render, conclude_render, error_text, js_body, load_bundle, path_of_target,
    request_properties, runtime_limits, EngineError, RenderSession, RenderedPage, WorkerReply,
};
use slate::worker::{Worker, WorkerAction, WorkerEvent};
use slate::{AxumDispatcher, DispatchResult, SalvoDispatcher, SsrRequest, SsrResponse};

fn given(headers: Option<Vec<(String, String)>>, body: &str) -> RenderedPage {
    RenderedPage { status: 200, headers, body: body.to_string() }
}

fn asking_for(url: &str) -> SsrRequest {
    SsrRequest {
        method: "GET".to_string(),
        url: url.to_string(),
        headers: HashMap::new(),
        body: None,
        remote_addr: "127.0.0.1:3000".to_string(),
    }
}

fn ready_worker() -> Worker {
    let mut worker = Worker::new();
    assert!(worker.is_alive());
    assert!(matches!(worker.step(WorkerEvent::LocalRuntime(Ok(()))), WorkerAction::CreateRuntime));
    assert!(matches!(worker.step(WorkerEvent::JsRuntime(Ok(()))), WorkerAction::LoadBundle));
    assert!(matches!(worker.step(WorkerEvent::Context(Ok(()))), WorkerAction::Report(Ok(()))));
    assert!(matches!(worker.step(WorkerEvent::Heard(true)), WorkerAction::Receive));
    worker
}

fn begin(worker: &mut Worker, url: &str) {
    match worker.step(WorkerEvent::Request(asking_for(url))) {
        WorkerAction::Render(request) => assert_eq!(request.url, url),
        _ => panic!("no page begun"),
    }
}

fn finish(worker: &mut Worker, outcome: Result<RenderedPage, EngineError>) -> Result<SsrResponse, EngineError> {
    match worker.step(WorkerEvent::PageDone(outcome)) {
        WorkerAction::Reply(reply) => reply,
        _ => panic!("no reply"),
    }
}

#[test]
fn a_page_may_not_fetch_itself() {
    let mut session = RenderSession::new();
    session.begin("/foo?x=1");
    let refused = session.internal_fetch("/foo").unwrap();
    assert_eq!(refused.status, 503);
    assert_eq!(refused.body, br#"{"error":"recursive internal dispatch detected"}"#.to_vec());
    assert!(session.internal_fetch("/foo?y=2#z").is_some());
    assert!(session.internal_fetch("/api/test").is_none());
    assert!(session.internal_fetch("/foo/").is_none());
    assert!(session.internal_fetch("/f%6Fo").is_some());
    assert!(session.internal_fetch("/%66%6f%6F?z").is_some());
    assert!(session.internal_fetch("/f%6").is_none());
    assert!(session.internal_fetch("/foo%ff").is_none());
    session.end();
    assert!(session.internal_fetch("/foo").is_none());
}

#[test]
fn an_escaped_page_may_not_fetch_itself() {
    let mut session = RenderSession::new();
    session.begin("/caf%C3%A9%ff");
    assert!(session.internal_fetch("/caf\u{e9}%FF").is_some());
    assert!(session.internal_fetch("/caf%C3%A9").is_none());
    assert!(session.internal_fetch("/%ff").is_none());
}

#[test]
fn fetches_are_noted_page_by_page() {
    let mut session = RenderSession::new();
    assert!(!session.fetched());
    session.begin("/a");
    assert!(!session.fetched());
    assert!(session.internal_fetch("/api").is_none());
    let page = session.page(given(Some(vec![("a".to_string(), "b".to_string())]), "x"));
    assert!(page.fetched);
    assert_eq!(page.status, 200);
    assert_eq!(page.headers, vec![("a".to_string(), "b".to_string())]);
    assert_eq!(page.body, "x");
    session.begin("/b");
    let page = session.page(given(None, "y"));
    assert!(!page.fetched);
    assert_eq!(page.headers, vec![]);
    session.begin("/c");
    session.external_fetch();
    assert!(session.page(given(None, "")).fetched);
    session.begin("/d");
    assert!(session.internal_fetch("/d").is_some());
    assert!(session.page(given(None, "")).fetched);
}

#[test]
fn a_worker_renders_one_page_after_the_other() {
    let mut worker = ready_worker();
    for path in ["/a", "/b"] {
        begin(&mut worker, path);
        assert!(worker.internal_fetch(path).is_some());
        assert!(worker.internal_fetch("/api").is_none());
        assert!(finish(&mut worker, Ok(given(None, "x"))).unwrap().fetched);
        assert!(worker.internal_fetch(path).is_none());
    }
    begin(&mut worker, "/c");
    assert!(!finish(&mut worker, Ok(given(None, "x"))).unwrap().fetched);
    begin(&mut worker, "/c");
    worker.external_fetch();
    assert!(finish(&mut worker, Ok(given(None, "x"))).unwrap().fetched);
    assert!(worker.is_alive());
    assert!(matches!(worker.step(WorkerEvent::Closed), WorkerAction::Stop));
    assert!(!worker.is_alive());
    let late = WorkerEvent::Request(asking_for("/d"));
    assert!(matches!(worker.step(late), WorkerAction::Stop));
}

#[test]
fn each_request_gets_the_reply_of_its_own_page() {
    let mut worker = ready_worker();
    for i in 0..20u16 {
        let path = format!("/page/{i}");
        begin(&mut worker, &path);
        if i % 3 == 0 {
            worker.external_fetch();
        }
        if i % 5 == 4 {
            let failed = finish(&mut worker, Err(EngineError::RenderThrew(path)));
            assert_eq!(failed.unwrap_err().message(), format!("__render() threw: /page/{i}"));
        } else {
            let page = RenderedPage { status: 200 + i, headers: None, body: path.clone() };
            let reply = finish(&mut worker, Ok(page)).unwrap();
            assert_eq!(reply.status, 200 + i);
            assert_eq!(reply.body, path);
            assert_eq!(reply.headers, vec![]);
            assert_eq!(reply.fetched, i % 3 == 0);
        }
    }
    assert!(worker.is_alive());
}

#[test]
fn a_page_that_nobody_asked_for_ends_the_worker() {
    let mut worker = ready_worker();
    let stray = WorkerEvent::PageDone(Ok(given(None, "x")));
    assert!(matches!(worker.step(stray), WorkerAction::Stop));
    assert!(!worker.is_alive());

    let mut worker = ready_worker();
    begin(&mut worker, "/a");
    let second = WorkerEvent::Request(asking_for("/b"));
    assert!(matches!(worker.step(second), WorkerAction::Stop));
    assert!(!worker.is_alive());
}

#[test]
fn a_worker_reports_why_it_is_not_ready() {
    let why = || "why".to_string();
    let mut worker = Worker::new();
    match worker.step(WorkerEvent::LocalRuntime(Err(why()))) {
        WorkerAction::Report(Err(e)) => assert_eq!(e.message(), "local runtime: why"),
        _ => panic!("the failure is reported"),
    }
    assert!(!worker.is_alive());

    let mut worker = Worker::new();
    worker.step(WorkerEvent::LocalRuntime(Ok(())));
    match worker.step(WorkerEvent::JsRuntime(Err(why()))) {
        WorkerAction::Report(Err(e)) => assert_eq!(e.message(), "QuickJS runtime: why"),
        _ => panic!("the failure is reported"),
    }

    let mut worker = Worker::new();
    worker.step(WorkerEvent::LocalRuntime(Ok(())));
    worker.step(WorkerEvent::JsRuntime(Ok(())));
    match worker.step(WorkerEvent::Context(Err(EngineError::Bundle(why())))) {
        WorkerAction::Report(Err(e)) => assert_eq!(e.message(), "Failed to eval bundle: why"),
        _ => panic!("the failure is reported"),
    }

    let mut worker = Worker::new();
    worker.step(WorkerEvent::LocalRuntime(Ok(())));
    worker.step(WorkerEvent::JsRuntime(Ok(())));
    worker.step(WorkerEvent::Context(Ok(())));
    assert!(matches!(worker.step(WorkerEvent::Heard(false)), WorkerAction::Stop));
    assert!(!worker.is_alive());
}

#[test]
fn requests_for_javascript() {
    let mut request = SsrRequest {
        method: "POST".to_string(),
        url: "/api/data".to_string(),
        headers: HashMap::new(),
        body: Some("{}".to_string()),
        remote_addr: "10.0.0.1:8080".to_string(),
    };
    let pair = |a: &str, b: &str| (a.to_string(), b.to_string());
    assert_eq!(
        request_properties(&request),
        vec![
            pair("method", "POST"),
            pair("url", "/api/data"),
            pair("remote_addr", "10.0.0.1:8080"),
            pair("body", "{}"),
        ]
    );
    request.body = None;
    assert_eq!(request_properties(&request).len(), 3);
}

#[test]
fn paths_of_targets() {
    assert_eq!(path_of_target("/a/b?c#d"), "/a/b");
    assert_eq!(path_of_target("/a#b?c"), "/a");
    assert_eq!(path_of_target("http://host:80/a?b"), "/a");
    assert_eq!(path_of_target("http://host"), "/");
    assert_eq!(path_of_target("http://host?x=/y"), "/");
    assert_eq!(path_of_target("a/b"), "a/b");
    assert_eq!(path_of_target("//x/y"), "//x/y");
    assert_eq!(path_of_target(""), "");
    assert_eq!(path_of_target("?q"), "");
}

#[test]
fn bundles() {
    assert_eq!(load_bundle(Some(b"var a".to_vec())).unwrap(), "var a");
    let missing = load_bundle(None).unwrap_err();
    assert_eq!(
        missing.message(),
        "'entry.js' not found in embedded assets. Did you build with adapter-quickjs?"
    );
    let broken = load_bundle(Some(vec![0x61, 0xff])).unwrap_err();
    assert_eq!(
        broken.message(),
        "entry.js is not valid UTF-8: invalid utf-8 sequence of 1 bytes from index 1"
    );
}

#[test]
fn messages() {
    let e = || "why".to_string();
    let expected = vec![
        (EngineError::WorkerPanicked, "SSR worker thread panicked during init"),
        (EngineError::LocalRuntime(e()), "local runtime: why"),
        (EngineError::JsRuntime(e()), "QuickJS runtime: why"),
        (EngineError::Polyfills(e()), "Failed to inject polyfills: why"),
        (EngineError::FetchFunctions(e()), "Failed to inject fetch functions: why"),
        (EngineError::Bundle(e()), "Failed to eval bundle: why"),
        (EngineError::RenderMissing(e()), "__render not found: why"),
        (EngineError::RenderThrew(e()), "__render() threw: why"),
        (EngineError::Conversion(e()), "why"),
        (EngineError::WorkerTerminated, "SSR worker has terminated — engine is unusable, recreate it"),
        (EngineError::WorkerExited, "SSR worker exited"),
        (EngineError::WorkerDropped, "SSR worker dropped"),
        (EngineError::TimedOut(30), "SSR render timed out after 30s"),
        (EngineError::TimedOut(0), "SSR render timed out after 0s"),
    ];
    for (error, message) in expected {
        assert_eq!(error.message(), message);
    }
}

#[test]
fn limits() {
    assert_eq!(runtime_limits(None, None), (10 * 1024 * 1024, 512 * 1024));
    assert_eq!(runtime_limits(Some(1), None), (1, 512 * 1024));
    assert_eq!(runtime_limits(None, Some(2)), (10 * 1024 * 1024, 2));
}

#[test]
fn thrown_values() {
    let s = |t: &str| Some(t.to_string());
    assert_eq!(error_text(s("thrown"), s("message"), "printed".to_string()), "thrown");
    assert_eq!(error_text(None, s("message"), "printed".to_string()), "message");
    assert_eq!(error_text(None, None, "printed".to_string()), "printed");
}

#[test]
fn bodies_for_javascript() {
    let result = |body: &[u8]| DispatchResult { status: 200, headers: vec![], body: body.to_vec() };
    assert_eq!(js_body(&result("é".as_bytes())), "é");
    assert_eq!(js_body(&result(b"a\xffb")), "a\u{fffd}b");
}

#[test]
fn worker_replies() {
    let page = SsrResponse { status: 200, headers: vec![], body: "x".to_string(), fetched: false };
    let (result, alive) = conclude_render(WorkerReply::Answered(Ok(page)), 3);
    assert_eq!(result.unwrap().body, "x");
    assert!(alive);
    let (result, alive) = conclude_render(WorkerReply::NotTaken, 3);
    assert_eq!(result.unwrap_err().message(), "SSR worker exited");
    assert!(!alive);
    let (result, alive) = conclude_render(WorkerReply::Dropped, 3);
    assert_eq!(result.unwrap_err().message(), "SSR worker dropped");
    assert!(alive);
    let (result, alive) = conclude_render(WorkerReply::TimedOut, 3);
    assert_eq!(result.unwrap_err().message(), "SSR render timed out after 3s");
    assert!(alive);
    assert!(admit_render(true).is_ok());
    assert_eq!(
        admit_render(false).unwrap_err().message(),
        "SSR worker has terminated — engine is unusable, recreate it"
    );
}

#[test]
fn dispatchers_keep_their_router() {
    let dispatcher = AxumDispatcher::new(axum::Router::new());
    assert!(!dispatcher.router().has_routes());
    let service = Arc::new(salvo::Service::new(salvo::Router::new()));
    let dispatcher = SalvoDispatcher::new(service.clone());
    assert!(Arc::ptr_eq(dispatcher.service(), &service));
}
