use std::time::Instant;

use slate::cache::MAX_CACHE_ENTRIES;
use slate::{is_cacheable, CachedEntry, SsrCache};

fn make_entry(status: u16, body: &str) -> CachedEntry {
    CachedEntry { status, headers: vec![], body: body.to_string(), cached_at: Instant::now() }
}

fn field(name: &str, value: &str) -> (String, String) {
    (name.to_string(), value.to_string())
}

#[test]
fn test_cache_miss_on_empty() {
    let cache = SsrCache::new();
    assert!(cache.get("nonexistent").is_none(), "Empty cache should return None");
}

#[test]
fn test_cache_hit_after_set() {
    let mut cache = SsrCache::new();
    let entry = make_entry(200, "<html>hello</html>");

    cache.set("/index".to_string(), entry);
    let cached = cache.get("/index").expect("Should find entry after set()");

    assert_eq!(cached.status, 200);
    assert_eq!(cached.body, "<html>hello</html>");
}

#[test]
fn test_cache_miss_different_key() {
    let mut cache = SsrCache::new();
    cache.set("/a".to_string(), make_entry(200, "A"));

    assert!(cache.get("/a").is_some(), "/a should be cached");
    assert!(cache.get("/b").is_none(), "/b should be a miss");
}

#[test]
fn test_cache_overwrite() {
    let mut cache = SsrCache::new();

    cache.set("/page".to_string(), make_entry(200, "v1"));
    cache.set("/page".to_string(), make_entry(200, "v2"));

    let cached = cache.get("/page").unwrap();
    assert_eq!(cached.body, "v2", "Second set() should overwrite the first");
}

#[test]
fn test_cache_multiple_entries() {
    let mut cache = SsrCache::new();

    for i in 0..50 {
        cache.set(format!("/page/{i}"), make_entry(200, &format!("body-{i}")));
    }

    for i in 0..50 {
        let cached = cache.get(&format!("/page/{i}")).unwrap();
        assert_eq!(cached.body, format!("body-{i}"));
    }
}

#[test]
fn test_cache_bulk_eviction_at_capacity() {
    let mut cache = SsrCache::new();

    for i in 0..1024 {
        cache.set(format!("/p/{i}"), make_entry(200, &format!("v-{i}")));
    }

    assert!(cache.get("/p/0").is_some(), "Entry 0 should exist before eviction");
    assert!(cache.get("/p/511").is_some(), "Entry 511 should exist before eviction");
    assert!(cache.get("/p/1023").is_some(), "Entry 1023 should exist before eviction");

    cache.set("/p/overflow".to_string(), make_entry(200, "overflow"));

    assert!(cache.get("/p/0").is_none(), "Oldest entries should be evicted");
    assert!(cache.get("/p/511").is_none(), "Oldest entries should be evicted");

    assert!(cache.get("/p/512").is_some(), "Newer entries should survive eviction");
    assert!(cache.get("/p/1023").is_some(), "Newer entries should survive eviction");

    let overflow = cache.get("/p/overflow").unwrap();
    assert_eq!(overflow.body, "overflow");
}

#[test]
fn test_cache_preserves_headers() {
    let mut cache = SsrCache::new();

    let mut headers: Vec<(String, String)> = vec![];
    headers.push(("content-type".to_string(), "text/html".to_string()));
    headers.push(("x-custom".to_string(), "value".to_string()));

    let entry = CachedEntry { status: 200, headers, body: "ok".to_string(), cached_at: std::time::Instant::now() };

    cache.set("/hdr".to_string(), entry);

    let cached = cache.get("/hdr").unwrap();
    assert_eq!(cached.headers.iter().find(|(k, _)| k == "content-type").unwrap().1, "text/html");
    assert_eq!(cached.headers.iter().find(|(k, _)| k == "x-custom").unwrap().1, "value");
}

#[test]
fn test_cache_default_trait() {
    let cache = SsrCache::default();
    assert!(cache.get("anything").is_none(), "Default cache should be empty");
}

#[test]
fn overwriting_in_a_full_cache_evicts_nothing() {
    let mut cache = SsrCache::new();
    for i in 0..MAX_CACHE_ENTRIES {
        cache.set(format!("/p/{i}"), make_entry(200, "old"));
    }
    cache.set("/p/700".to_string(), make_entry(200, "new"));
    assert_eq!(cache.get("/p/700").unwrap().body, "new");
    assert_eq!(cache.get("/p/0").unwrap().body, "old");
    assert_eq!(cache.get("/p/1023").unwrap().body, "old");
}

#[test]
fn eviction_goes_by_the_first_insertion() {
    let mut cache = SsrCache::new();
    for i in 0..MAX_CACHE_ENTRIES {
        cache.set(format!("/p/{i}"), make_entry(200, "old"));
    }
    // An update does not make an entry younger.
    cache.set("/p/3".to_string(), make_entry(200, "new"));
    cache.set("/p/overflow".to_string(), make_entry(200, "overflow"));
    assert!(cache.get("/p/3").is_none());
    assert!(cache.get("/p/512").is_some());
    // There is room for half the entries again.
    for i in 0..511 {
        cache.set(format!("/q/{i}"), make_entry(200, "later"));
    }
    assert!(cache.get("/p/512").is_some());
    cache.set("/q/last".to_string(), make_entry(200, "later"));
    assert!(cache.get("/p/512").is_none());
    assert!(cache.get("/q/510").is_some());
}

#[test]
fn a_hit_shares_the_entry() {
    let mut cache = SsrCache::new();
    cache.set("/a".to_string(), make_entry(200, "A"));
    let one = cache.get("/a").unwrap();
    let two = cache.get("/a").unwrap();
    assert!(std::sync::Arc::ptr_eq(&one, &two));
    let copy = CachedEntry::clone(&one);
    assert_eq!(copy.body, "A");
    assert_eq!(copy.cached_at, one.cached_at);
}

#[test]
fn only_plain_get_pages_are_cacheable() {
    let html = vec![field("content-type", "text/html")];
    assert!(is_cacheable("GET", 200, &html, false, false));
    assert!(is_cacheable("GET", 200, &[], false, false));
    assert!(!is_cacheable("POST", 200, &html, false, false));
    assert!(!is_cacheable("get", 200, &html, false, false));
    assert!(!is_cacheable("GET", 404, &html, false, false));
    assert!(!is_cacheable("GET", 201, &html, false, false));
    assert!(!is_cacheable("GET", 200, &html, true, false));
    assert!(!is_cacheable("GET", 200, &html, false, true));
}

#[test]
fn pages_that_set_cookies_are_not_cacheable() {
    assert!(!is_cacheable("GET", 200, &[field("set-cookie", "a=1")], false, false));
    assert!(!is_cacheable("GET", 200, &[field("Set-Cookie", "a=1")], false, false));
    assert!(!is_cacheable("GET", 200, &[field("x", "y"), field("SET-COOKIE", "")], false, false));
    assert!(is_cacheable("GET", 200, &[field("set-cookie2", "a=1")], false, false));
    assert!(is_cacheable("GET", 200, &[field("vary", "accept-language")], false, false));
}
