use slate::actix_integration::{actix_fields_of, actix_page_fields};
use slate::header_map::{
    apply_page_fields, insert_all, is_left_out, outgoing_headers, repeated_headers, request_headers,
    request_headers_of, response_headers, response_headers_of, CacheState,
};

fn pair(a: &str, b: &str) -> (String, String) {
    (a.to_string(), b.to_string())
}

fn field(a: &str, b: &[u8]) -> (String, Vec<u8>) {
    (a.to_string(), b.to_vec())
}

fn values(map: &http::HeaderMap, name: &str) -> Vec<Vec<u8>> {
    map.get_all(name).iter().map(|v| v.as_bytes().to_vec()).collect()
}

#[test]
fn page_fields_are_appended() {
    let mut map = http::HeaderMap::new();
    let pairs = vec![
        pair("Set-Cookie", "a=1"),
        pair("Content-Length", "3"),
        pair("set-cookie", "b=2"),
        pair("bad name", "x"),
        pair("x-bad", "a\nb"),
        pair("x-utf8", "é"),
    ];
    assert!(apply_page_fields(&mut map, &pairs, CacheState::Miss));
    assert_eq!(values(&map, "set-cookie"), vec![b"a=1".to_vec(), b"b=2".to_vec()]);
    assert_eq!(values(&map, "content-length"), Vec::<Vec<u8>>::new());
    assert_eq!(values(&map, "x-utf8"), vec!["é".as_bytes().to_vec()]);
    assert_eq!(values(&map, "x-ssr-cache"), vec![b"MISS".to_vec()]);
    assert_eq!(map.len(), 4);
}

#[test]
fn the_cache_state_is_said_once() {
    let mut map = http::HeaderMap::new();
    assert!(insert_all(&mut map, &[pair("vary", "x")]));
    let pairs = vec![pair("X-SSR-Cache", "forged"), pair("vary", "y")];
    assert!(apply_page_fields(&mut map, &pairs, CacheState::Hit));
    assert_eq!(values(&map, "x-ssr-cache"), vec![b"HIT".to_vec()]);
    assert_eq!(values(&map, "vary"), vec![b"x".to_vec(), b"y".to_vec()]);
    assert_eq!(CacheState::Hit.text(), "HIT");
    assert_eq!(CacheState::Miss.text(), "MISS");
}

#[test]
fn the_content_length_is_left_out() {
    assert!(is_left_out("content-length"));
    assert!(is_left_out("CONTENT-Length"));
    assert!(!is_left_out("content-type"));
}

#[test]
fn outgoing_headers_are_inserted() {
    let map = outgoing_headers(&[pair("A", "1"), pair("b", "2"), pair("a", "3"), pair("", "4")]).unwrap();
    assert_eq!(values(&map, "a"), vec![b"3".to_vec()]);
    assert_eq!(values(&map, "b"), vec![b"2".to_vec()]);
    assert_eq!(map.len(), 2);
    assert_eq!(outgoing_headers(&[]).unwrap().len(), 0);
    let tab = outgoing_headers(&[pair("t", "a\tb"), pair("d", "\u{7f}")]).unwrap();
    assert_eq!(values(&tab, "t"), vec![b"a\tb".to_vec()]);
    assert_eq!(values(&tab, "d"), Vec::<Vec<u8>>::new());
}

#[test]
fn many_headers_fit() {
    let pairs: Vec<(String, String)> = (0..6553).map(|i| pair(&format!("x-{i}"), "v")).collect();
    assert_eq!(outgoing_headers(&pairs).unwrap().len(), 6553);
}

#[test]
fn many_values_of_one_name_fit() {
    let cookies: Vec<(String, String)> = (0..7000).map(|i| pair("Set-Cookie", &format!("c={i}"))).collect();
    let mut map = http::HeaderMap::new();
    assert!(apply_page_fields(&mut map, &cookies, CacheState::Miss));
    assert_eq!(values(&map, "set-cookie").len(), 7000);
    assert_eq!(values(&map, "set-cookie")[6999], b"c=6999".to_vec());
    assert_eq!(values(&repeated_headers(&cookies).unwrap(), "set-cookie").len(), 7000);
    assert_eq!(values(&outgoing_headers(&cookies).unwrap(), "set-cookie"), vec![b"c=6999".to_vec()]);
}

#[test]
fn actix_answers() {
    let page = [
        pair("Content-Type", "text/html"),
        pair("CONTENT-LENGTH", "3"),
        pair("X-SSR-Cache", "mine"),
        pair("bad name", "4"),
        pair("bad", "a\nb"),
        pair("a\"b", "5"),
        pair("Set-Cookie", "a=1"),
        pair("set-cookie", "b=2"),
    ];
    let mut expected = vec![
        pair("content-type", "text/html"),
        pair("x-ssr-cache", "mine"),
        pair("a\"b", "5"),
        pair("set-cookie", "a=1"),
        pair("set-cookie", "b=2"),
    ];
    assert_eq!(actix_page_fields(&page, None), expected);
    expected.push(pair("x-ssr-cache", "HIT"));
    assert_eq!(actix_page_fields(&page, Some(CacheState::Hit)), expected);
    let kept = actix_fields_of(&page, true);
    assert_eq!(kept[1], pair("content-length", "3"));
    assert_eq!(kept.len(), 6);
    let long = [pair(&"N".repeat(65535), "v"), pair(&"n".repeat(65536), "w"), pair("", "x")];
    assert_eq!(actix_fields_of(&long, true), vec![pair(&"n".repeat(65535), "v")]);
}

#[test]
fn too_many_headers_do_not_fit() {
    let pairs: Vec<(String, String)> = (0..40000).map(|i| pair(&format!("x-{i}"), "v")).collect();
    assert!(outgoing_headers(&pairs).is_none());
}

#[test]
fn long_header_names() {
    let longest = "n".repeat(65535);
    let map = outgoing_headers(&[pair(&longest, "v"), pair(&"n".repeat(65536), "w")]).unwrap();
    assert_eq!(map.len(), 1);
    assert_eq!(values(&map, &longest), vec![b"v".to_vec()]);
}

#[test]
fn a_page_sees_the_last_text_of_a_name() {
    let fields = vec![
        field("accept", b"a"),
        field("x", b"\xff"),
        field("accept", b"b"),
        field("y", b"first"),
        field("y", b"\xe9"),
    ];
    let mut seen = request_headers(&fields);
    seen.sort();
    assert_eq!(seen, vec![pair("accept", "b"), pair("y", "first")]);
}

#[test]
fn answers_keep_every_field() {
    let fields = vec![field("set-cookie", b"a"), field("x", b"\xff"), field("set-cookie", b"b")];
    assert_eq!(
        response_headers(&fields),
        vec![pair("set-cookie", "a"), pair("x", ""), pair("set-cookie", "b")]
    );
}

#[test]
fn fields_are_read_from_a_map() {
    let mut map = http::HeaderMap::new();
    assert!(apply_page_fields(&mut map, &[pair("a", "1"), pair("a", "2")], CacheState::Hit));
    map.append("b", http::HeaderValue::from_bytes(b"\xff").unwrap());
    let mut request = request_headers_of(&map);
    request.sort();
    assert_eq!(request, vec![pair("a", "2"), pair("x-ssr-cache", "HIT")]);
    let mut response = response_headers_of(&map);
    response.sort();
    assert_eq!(
        response,
        vec![pair("a", "1"), pair("a", "2"), pair("b", ""), pair("x-ssr-cache", "HIT")]
    );
}
