use slate::actix_integration::begin_actix_dispatch;
use slate::dispatch::{
    begin_dispatch, begin_repeating_dispatch, finish_dispatch, method_or_get, outgoing_request, read_res_body, repeating_request,
    target_or_root, ReplyBody, MAX_BODY_SIZE,
};
use slate::fetcher::{
    begin_fetch, begin_fetch_to, check_announced_length, finish_fetch, is_address_blocked,
    is_host_allowed, is_ipv6_unique_local, is_link_local, is_private, is_url_allowed, parse_ipv4,
    MAX_EXTERNAL_BODY_SIZE,
};
use slate::fetch_result::FetchFailure;
use slate::url_parts::{IpAddress, UrlHost};
use slate::DispatchResult;

fn pair(a: &str, b: &str) -> (String, String) {
    (a.to_string(), b.to_string())
}

fn v6(groups: [u16; 8]) -> IpAddress {
    IpAddress::V6(groups.iter().fold(0u128, |n, g| (n << 16) | *g as u128))
}

fn v4(a: u32, b: u32, c: u32, d: u32) -> IpAddress {
    IpAddress::V4((a << 24) | (b << 16) | (c << 8) | d)
}

#[test]
fn public_urls_are_allowed() {
    for url in [
        "https://example.com/",
        "http://8.8.8.8/",
        "http://172.15.0.1/",
        "http://172.32.0.1/",
        "http://192.169.0.1/",
        "http://169.253.0.1/",
        "http://11.0.0.1/",
        "http://[2606:4700::1111]/",
        "http://localhost.example.com/",
    ] {
        assert!(is_url_allowed(url), "{}", url);
    }
}

#[test]
fn loopback_urls_are_blocked() {
    for url in [
        "http://localhost/",
        "http://LOCALHOST:8080/",
        "http://127.0.0.1/",
        "http://127.255.0.3/",
        "http://2130706433/",
        "http://0x7f.1/",
        "http://[::1]/",
        "http://[::ffff:127.0.0.1]/",
        "http://[::127.0.0.1]/",
        "http://0.0.0.0/",
        "http://[::]/",
    ] {
        assert!(!is_url_allowed(url), "{}", url);
    }
}

#[test]
fn link_local_urls_are_blocked() {
    for url in [
        "http://169.254.169.254/latest/meta-data/",
        "http://169.254.0.1/",
        "http://[fe80::1]/",
        "http://[febf::1]/",
        "http://[::ffff:169.254.169.254]/",
        "gopher://169.254.169.254/",
    ] {
        assert!(!is_url_allowed(url), "{}", url);
    }
    assert!(is_url_allowed("http://[fec0::1]/"));
}

#[test]
fn private_urls_are_blocked() {
    for url in [
        "http://10.1.2.3/",
        "http://172.16.0.1/",
        "http://172.31.255.255/",
        "http://192.168.1.1/",
        "http://[fc00::1]/",
        "http://[fdff::1]/",
        "http://[::ffff:10.0.0.1]/",
        "foo://10.0.0.1/",
    ] {
        assert!(!is_url_allowed(url), "{}", url);
    }
}

#[test]
fn what_is_no_url_with_a_host_is_blocked() {
    for url in ["", "/api/test", "not a url", "mailto:a@b.c", "data:text/plain,x", "http://"] {
        assert!(!is_url_allowed(url), "{}", url);
    }
}

#[test]
fn address_ranges() {
    assert!(is_link_local(&v4(169, 254, 0, 0)));
    assert!(is_link_local(&v4(169, 254, 255, 255)));
    assert!(!is_link_local(&v4(169, 255, 0, 0)));
    assert!(is_link_local(&v6([0xfe80, 0, 0, 0, 0, 0, 0, 1])));
    assert!(is_link_local(&v6([0xfebf, 0, 0, 0, 0, 0, 0, 1])));
    assert!(!is_link_local(&v6([0xfec0, 0, 0, 0, 0, 0, 0, 1])));
    assert!(is_private(&v4(10, 0, 0, 0)));
    assert!(is_private(&v4(172, 16, 0, 0)));
    assert!(is_private(&v4(172, 31, 255, 255)));
    assert!(!is_private(&v4(172, 32, 0, 0)));
    assert!(is_private(&v4(192, 168, 0, 0)));
    assert!(!is_private(&v4(192, 167, 0, 0)));
    assert!(!is_private(&v6([0xfc00, 0, 0, 0, 0, 0, 0, 1])));
    assert!(is_ipv6_unique_local(0xfc00u128 << 112));
    assert!(is_ipv6_unique_local(0xfdffu128 << 112));
    assert!(!is_ipv6_unique_local(0xfe00u128 << 112));
    assert!(is_address_blocked(&v6([0, 0, 0, 0, 0, 0xffff, 0x0a00, 0x0001])));
    assert!(!is_address_blocked(&v6([0, 0, 0, 0, 0, 0xffff, 0x0808, 0x0808])));
    assert!(!is_address_blocked(&v6([0, 0, 0, 0, 0, 0xfffe, 0x0a00, 0x0001])));
}

#[test]
fn dotted_addresses() {
    assert_eq!(parse_ipv4("1.2.3.4"), Some(0x01020304));
    assert_eq!(parse_ipv4("255.255.255.255"), Some(0xffffffff));
    assert_eq!(parse_ipv4("0.0.0.0"), Some(0));
    for text in ["", "1.2.3", "1.2.3.4.5", "256.0.0.1", "01.2.3.4", "1.2.3.", "a.b.c.d", "1.2.3.0x4", "1..2.3"] {
        assert_eq!(parse_ipv4(text), None, "{}", text);
    }
}

#[test]
fn hosts_by_themselves() {
    assert!(!is_host_allowed(&None));
    assert!(!is_host_allowed(&Some(UrlHost::Domain("localhost".to_string()))));
    assert!(!is_host_allowed(&Some(UrlHost::Domain("192.168.0.1".to_string()))));
    assert!(is_host_allowed(&Some(UrlHost::Domain("example.com".to_string()))));
    assert!(is_host_allowed(&Some(UrlHost::Address(v4(1, 1, 1, 1)))));
}

#[test]
fn a_blocked_fetch_is_answered() {
    let answer = begin_fetch("http://127.0.0.1/", "GET", &[]).err().unwrap();
    assert_eq!(answer.status, 403);
    assert_eq!(answer.headers, vec![pair("content-type", "application/json")]);
    assert_eq!(answer.body, br#"{"error":"SSRF: target address not allowed"}"#.to_vec());
    assert!(begin_fetch_to(&None, "GET", &[]).is_err());
}

#[test]
fn an_allowed_fetch_is_sent() {
    let headers = vec![pair("X-A", "1"), pair("bad name", "2"), pair("x-b", "line\nfeed"), pair("x-a", "3")];
    let request = begin_fetch("https://example.com/", "PUT", &headers).ok().unwrap();
    assert_eq!(request.method, "PUT");
    let map = request.headers.unwrap();
    assert_eq!(map.len(), 1);
    assert_eq!(map.get("x-a").unwrap(), "3");
    let request = begin_fetch("https://example.com/", "not a method", &[]).ok().unwrap();
    assert_eq!(request.method, "GET");
}

#[test]
fn answers_that_are_too_long() {
    assert!(check_announced_length(None).is_none());
    assert!(check_announced_length(Some(MAX_EXTERNAL_BODY_SIZE as u64)).is_none());
    let answer = check_announced_length(Some(MAX_EXTERNAL_BODY_SIZE as u64 + 1)).unwrap();
    assert_eq!(answer.status, 502);
    assert_eq!(answer.body, br#"{"error":"response body exceeds size limit"}"#.to_vec());
    let answer = finish_fetch(200, vec![], Some(vec![0u8; MAX_EXTERNAL_BODY_SIZE + 1]));
    assert_eq!(answer.status, 502);
}

#[test]
fn answers_are_passed_on() {
    let answer = finish_fetch(404, vec![pair("x", "y")], Some(vec![1, 2, 3]));
    assert_eq!(answer.status, 404);
    assert_eq!(answer.headers, vec![pair("x", "y")]);
    assert_eq!(answer.body, vec![1, 2, 3]);
    let answer = finish_fetch(200, vec![pair("x", "y")], None);
    assert_eq!(answer.status, 200);
    assert_eq!(answer.headers, vec![pair("x", "y")]);
    assert_eq!(answer.body, Vec::<u8>::new());
}

#[test]
fn methods() {
    assert_eq!(method_or_get("POST"), "POST");
    assert_eq!(method_or_get("purge"), "purge");
    assert_eq!(method_or_get("X-MY_METHOD.LONGER-THAN-FIFTEEN"), "X-MY_METHOD.LONGER-THAN-FIFTEEN");
    assert_eq!(method_or_get(""), "GET");
    assert_eq!(method_or_get("G T"), "GET");
    assert_eq!(method_or_get("GÉT"), "GET");
}

#[test]
fn dispatched_requests() {
    let (request, target) = begin_dispatch("POST", "/api/data?x=1", &[pair("authorization", "Bearer test123")]);
    assert_eq!(request.method, "POST");
    assert_eq!(target, "/api/data?x=1");
    assert_eq!(request.headers.unwrap().get("authorization").unwrap(), "Bearer test123");
    let (_, target) = begin_dispatch("GET", "", &[]);
    assert_eq!(target, "/");
    let (_, target) = begin_dispatch("GET", "/a b", &[]);
    assert_eq!(target, "/");
    assert_eq!(target_or_root("/x", true), "/x");
    assert_eq!(target_or_root("/x", false), "/");
}

#[test]
fn dispatched_answers() {
    let answer = finish_dispatch(Some(404), vec![pair("a", "b")], Some(vec![1]));
    assert_eq!(answer.status, 404);
    assert_eq!(answer.headers, vec![pair("a", "b")]);
    assert_eq!(answer.body, vec![1]);
    let answer = finish_dispatch(None, vec![], None);
    assert_eq!(answer.status, 200);
    assert_eq!(answer.body, Vec::<u8>::new());
}

#[test]
fn bodies_of_dispatched_answers() {
    assert_eq!(read_res_body(ReplyBody::Once(vec![1, 2])).unwrap(), vec![1, 2]);
    assert_eq!(
        read_res_body(ReplyBody::Chunks(vec![vec![1], vec![], vec![2, 3]])).unwrap(),
        vec![1, 2, 3]
    );
    assert_eq!(read_res_body(ReplyBody::Collected(Some(vec![4]))).unwrap(), vec![4]);
    assert_eq!(read_res_body(ReplyBody::Collected(None)).unwrap(), Vec::<u8>::new());
    assert_eq!(read_res_body(ReplyBody::Once(vec![0; MAX_BODY_SIZE])).unwrap().len(), MAX_BODY_SIZE);
    let answer = read_res_body(ReplyBody::Once(vec![0; MAX_BODY_SIZE + 1])).unwrap_err();
    assert_eq!(answer.status, 502);
    assert_eq!(
        answer.body,
        br#"{"error":"internal dispatch: response body exceeds size limit"}"#.to_vec()
    );
    assert!(read_res_body(ReplyBody::Chunks(vec![vec![0; MAX_BODY_SIZE], vec![0]])).is_err());
    assert!(read_res_body(ReplyBody::Collected(Some(vec![0; MAX_BODY_SIZE + 1]))).is_err());
}

#[test]
fn error_answers_are_json() {
    let answer = DispatchResult::error(500, "internal dispatch failed");
    assert_eq!(answer.status, 500);
    assert_eq!(answer.headers, vec![pair("content-type", "application/json")]);
    assert_eq!(answer.body, br#"{"error":"internal dispatch failed"}"#.to_vec());
    let copy = answer.clone();
    assert_eq!(copy.body, answer.body);
    assert_eq!(copy.headers, answer.headers);
}

#[test]
fn error_messages_are_escaped() {
    let body = |message: &str| String::from_utf8(DispatchResult::error(500, message).body).unwrap();
    assert_eq!(body(""), r#"{"error":""}"#);
    assert_eq!(body("say \"no\""), r#"{"error":"say \"no\""}"#);
    assert_eq!(body("C:\\dir"), r#"{"error":"C:\\dir"}"#);
    assert_eq!(body("a\nb\rc\td\u{8}e\u{c}f"), r#"{"error":"a\nb\rc\td\be\ff"}"#);
    assert_eq!(body("\0\u{1}\u{1f} \u{7f}"), "{\"error\":\"\\u0000\\u0001\\u001f \u{7f}\"}");
    assert_eq!(body("/\u{e9}\u{1f600}"), "{\"error\":\"/\u{e9}\u{1f600}\"}");
}

#[test]
fn error_messages_are_read_back() {
    let runtime = rquickjs::Runtime::new().unwrap();
    let context = rquickjs::Context::full(&runtime).unwrap();
    for message in ["", "plain", "\"}{\"", "\\\"\\", "a\nb\u{1}\u{1f}\u{b}", "\u{e9}\u{1f600}\u{2028}"] {
        let answer = DispatchResult::error(502, message);
        context.with(|ctx| {
            let read = ctx.json_parse(answer.body.clone()).unwrap();
            let members = read.into_object().unwrap();
            assert_eq!(members.keys::<String>().count(), 1);
            assert_eq!(members.get::<_, String>("error").unwrap(), message);
        });
    }
}

#[test]
fn repeated_request_headers() {
    let headers = [pair("X-A", "1"), pair("Content-Length", "3"), pair("x-a", "2"), pair("bad name", "4")];
    let values = |map: &http::HeaderMap, name: &str| -> Vec<Vec<u8>> {
        map.get_all(name).iter().map(|v| v.as_bytes().to_vec()).collect()
    };
    let repeating = repeating_request("POST", &headers);
    assert_eq!(repeating.method, "POST");
    let map = repeating.headers.unwrap();
    assert_eq!(map.len(), 3);
    assert_eq!(values(&map, "x-a"), vec![b"1".to_vec(), b"2".to_vec()]);
    assert_eq!(values(&map, "content-length"), vec![b"3".to_vec()]);
    let single = outgoing_request("no method", &headers);
    assert_eq!(single.method, "GET");
    assert_eq!(values(&single.headers.unwrap(), "x-a"), vec![b"2".to_vec()]);
}

#[test]
fn warp_dispatches() {
    let headers = [pair("A", "1"), pair("a", "2")];
    let request = begin_repeating_dispatch("PUT", "/api?x=1", &headers).unwrap();
    assert_eq!(request.method, "PUT");
    assert_eq!(request.headers.unwrap().get_all("a").iter().count(), 2);
    assert!(begin_repeating_dispatch("GET", "http://host/a", &[]).is_ok());
    let body = FetchFailure::BadRequest.result().body;
    for path in ["", "/a b", "/a\nb", "http://"] {
        let refused = begin_repeating_dispatch("GET", path, &headers).err().unwrap();
        assert_eq!(refused.status, 500);
        assert_eq!(refused.body, body);
    }
    let many: Vec<(String, String)> = (0..40000).map(|i| pair(&format!("x-{i}"), "v")).collect();
    let refused = begin_repeating_dispatch("GET", "/", &many).err().unwrap();
    assert_eq!(refused.body, br#"{"error":"failed to build dispatch request"}"#.to_vec());
}

#[test]
fn actix_dispatches() {
    let headers = [pair("A", "1"), pair("a", "2"), pair("b c", "3"), pair("Content-Length", "4")];
    let request = begin_actix_dispatch("PATCH", "/api?x=1", &headers).unwrap();
    assert_eq!(request.method, "PATCH");
    assert_eq!(request.headers, vec![pair("a", "1"), pair("a", "2"), pair("content-length", "4")]);
    for (asked, used) in [("M-SEARCH", "M-SEARCH"), ("get", "get"), ("", "GET"), ("A B", "GET"), ("A#", "GET"), ("'", "GET")] {
        assert_eq!(begin_actix_dispatch(asked, "/", &[]).unwrap().method, used);
    }
    for path in ["", "/a b", "/a\nb", "http://"] {
        let refused = begin_actix_dispatch("GET", path, &headers).unwrap_err();
        assert_eq!(refused.status, 500);
        assert_eq!(refused.body, br#"{"error":"actix dispatch thread panicked"}"#.to_vec());
    }
    let many: Vec<(String, String)> = (0..40000).map(|i| pair(&format!("x-{i}"), "v")).collect();
    assert_eq!(begin_actix_dispatch("GET", "/", &many).unwrap().headers.len(), 40000);
}

#[test]
fn every_failure_has_its_answer() {
    let expected = vec![
        (FetchFailure::Recursive, 503, "recursive internal dispatch detected"),
        (FetchFailure::BadRequest, 500, "failed to build dispatch request"),
        (FetchFailure::NotReady, 500, "service not ready"),
        (FetchFailure::DispatchFailed, 500, "internal dispatch failed"),
        (FetchFailure::ThreadPanicked, 500, "actix dispatch thread panicked"),
        (FetchFailure::DispatchTooLarge, 502, "internal dispatch: response body exceeds size limit"),
        (FetchFailure::Forbidden, 403, "SSRF: target address not allowed"),
        (FetchFailure::TooLarge, 502, "response body exceeds size limit"),
        (FetchFailure::Unreachable, 502, "external fetch failed"),
    ];
    for (failure, status, message) in expected {
        let answer = failure.result();
        assert_eq!(answer.status, status);
        assert_eq!(answer.body, format!("{{\"error\":\"{message}\"}}").into_bytes());
    }
}
